use radb::error::{AdbError, SyncResult};
use radb::shell::{AdbShell, AdbShellResponse, ShellSession};
use radb::sync::{
    data_packets, done_packet, recv_packet, send_packet, PullSession, ReplySession,
    SYNC_CHUNK_SIZE,
};

fn v2_packet(id: u8, payload: &[u8]) -> Vec<u8> {
    let mut p = vec![id];
    p.extend_from_slice(&(payload.len() as u32).to_le_bytes());
    p.extend_from_slice(payload);
    p
}

fn run(session: &mut ShellSession, chunks: &[&[u8]]) {
    for c in chunks {
        assert!(session.needs_chunk());
        session.on_chunk(c);
    }
}

#[test]
fn shell_v1_collects_everything_until_eof() {
    let shell = AdbShell::new(false);
    assert!(!shell.is_v2());
    let mut s = shell.session();
    run(&mut s, &[b"hello ", b"world", b""]);
    assert!(!s.needs_chunk());
    let r = s.response();
    assert_eq!(r.output, "hello world");
    assert_eq!(r.error_output, "");
    assert_eq!(r.exit_code, 0);
}

#[test]
fn shell_v2_separates_streams_and_exit_code() {
    let mut all = v2_packet(1, b"out");
    all.extend(v2_packet(2, b"err"));
    all.extend(v2_packet(3, &[42]));
    let mut s = ShellSession::new(true);
    run(&mut s, &[&all]);
    assert!(!s.needs_chunk());
    let r = s.response();
    assert_eq!(r.output, "out");
    assert_eq!(r.error_output, "err");
    assert_eq!(r.exit_code, 42);
}

#[test]
fn shell_v2_packets_split_across_chunks() {
    let mut all = v2_packet(1, b"split output");
    all.extend(v2_packet(3, &[7]));
    let mut whole = ShellSession::new(true);
    run(&mut whole, &[&all]);
    let mut pieces = ShellSession::new(true);
    run(&mut pieces, &[&all[..3], &all[3..9], &all[9..]]);
    assert_eq!(whole.response(), pieces.response());
    assert_eq!(pieces.response().output, "split output");
    assert_eq!(pieces.response().exit_code, 7);
}

#[test]
fn shell_v2_ignores_unknown_ids_and_empty_exit() {
    let mut all = v2_packet(9, b"ignored");
    all.extend(v2_packet(3, b""));
    let mut s = ShellSession::new(true);
    run(&mut s, &[&all]);
    let r = s.response();
    assert_eq!(r, AdbShellResponse { output: String::new(), error_output: String::new(), exit_code: 0 });
}

#[test]
fn shell_v2_eof_without_exit() {
    let mut s = ShellSession::new(true);
    run(&mut s, &[&v2_packet(1, b"a"), b""]);
    assert!(!s.needs_chunk());
    assert_eq!(s.response().output, "a");
}

#[test]
fn shell_lossy_text() {
    let mut s = ShellSession::new(false);
    run(&mut s, &[&[0x61, 0xff, 0x62], b""]);
    assert_eq!(s.response().output, "a\u{FFFD}b");
}

#[test]
fn all_output_concatenates() {
    let r = AdbShellResponse { output: "o".into(), error_output: "e".into(), exit_code: 1 };
    assert_eq!(r.all_output(), "oe");
}

#[test]
fn sync_requests() {
    let send = send_packet("/sdcard/a.txt", 420);
    let mut expected = b"SEND".to_vec();
    expected.extend_from_slice(&17u32.to_le_bytes());
    expected.extend_from_slice(b"/sdcard/a.txt,420");
    assert_eq!(send, expected);

    let recv = recv_packet("/sdcard/a.txt");
    let mut expected = b"RECV".to_vec();
    expected.extend_from_slice(&13u32.to_le_bytes());
    expected.extend_from_slice(b"/sdcard/a.txt");
    assert_eq!(recv, expected);

    let done = done_packet(1_700_000_123_456);
    let mut expected = b"DONE".to_vec();
    expected.extend_from_slice(&1_700_000_123u32.to_le_bytes());
    assert_eq!(done, expected);
}

#[test]
fn data_packets_cut_at_64k() {
    let data: Vec<u8> = (0..(SYNC_CHUNK_SIZE + 10)).map(|i| (i % 251) as u8).collect();
    let ps = data_packets(&data);
    assert_eq!(ps.len(), 2);
    assert_eq!(&ps[0][0..4], b"DATA");
    assert_eq!(&ps[0][4..8], &(SYNC_CHUNK_SIZE as u32).to_le_bytes());
    assert_eq!(&ps[1][4..8], &10u32.to_le_bytes());
    let mut back = ps[0][8..].to_vec();
    back.extend_from_slice(&ps[1][8..]);
    assert_eq!(back, data);
    assert!(data_packets(&[]).is_empty());
}

fn pull_all(chunks: &[&[u8]]) -> Result<Result<Vec<u8>, String>, AdbError> {
    let mut s = PullSession::new();
    for c in chunks {
        if !s.needs_chunk() {
            break;
        }
        s.on_chunk(c);
    }
    assert!(!s.needs_chunk());
    s.finish()
}

fn sync_packet(id: &[u8; 4], body: &[u8]) -> Vec<u8> {
    let mut p = id.to_vec();
    p.extend_from_slice(&(body.len() as u32).to_le_bytes());
    p.extend_from_slice(body);
    p
}

#[test]
fn pull_reads_back_pushed_data() {
    let data: Vec<u8> = (0..(SYNC_CHUNK_SIZE * 2 + 5)).map(|i| (i % 7) as u8).collect();
    let mut stream: Vec<u8> = data_packets(&data).concat();
    stream.extend(done_packet(0));
    let got = pull_all(&[&stream[..100], &stream[100..]]).unwrap().unwrap();
    assert_eq!(got, data);
}

#[test]
fn pull_reports_device_failure() {
    let stream = sync_packet(b"FAIL", b"No such file");
    assert_eq!(pull_all(&[&stream[..9], &stream[9..]]).unwrap(), Err("No such file".to_string()));
}

#[test]
fn pull_rejects_unknown_packet() {
    match pull_all(&[b"XYZW\0\0\0\0"]) {
        Err(AdbError::Protocol(m)) => assert_eq!(m, "Unexpected SYNC packet header: \"XYZW\""),
        other => panic!("unexpected {other:?}"),
    }
}

#[test]
fn pull_ends_at_stream_end() {
    let stream = sync_packet(b"DATA", b"partial");
    assert_eq!(pull_all(&[&stream, b""]).unwrap(), Ok(b"partial".to_vec()));
}

fn reply_all(chunks: &[&[u8]]) -> Result<SyncResult, AdbError> {
    let mut s = ReplySession::new();
    for c in chunks {
        if !s.needs_chunk() {
            break;
        }
        s.on_chunk(c);
    }
    assert!(!s.needs_chunk());
    s.finish()
}

#[test]
fn push_replies() {
    assert_eq!(reply_all(&[b"OK", b"AY\0\0\0\0"]).unwrap(), SyncResult::Success);
    let fail = sync_packet(b"FAIL", b"denied");
    assert_eq!(
        reply_all(&[&fail[..10], &fail[10..]]).unwrap(),
        SyncResult::Failure("denied".to_string())
    );
    match reply_all(&[b""]) {
        Err(AdbError::ConnectionClosed(m)) => assert_eq!(m, "EOF reading SYNC response"),
        other => panic!("unexpected {other:?}"),
    }
    match reply_all(&[b"DATA\0\0\0\0"]) {
        Err(AdbError::Protocol(m)) => assert_eq!(m, "Unexpected SYNC response ID: \"DATA\""),
        other => panic!("unexpected {other:?}"),
    }
}
