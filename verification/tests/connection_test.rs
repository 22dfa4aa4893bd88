use radb::connection::{open_reply, parse_features, FeatureSet, Handshake, HandshakeStep};
use radb::constants::{
    AUTH_TYPE_RSA_PUBLIC, AUTH_TYPE_SIGNATURE, AUTH_TYPE_TOKEN, CMD_AUTH, CMD_CLSE, CMD_CNXN,
    CMD_OKAY, CMD_WRTE,
};
use radb::error::AdbError;
use radb::keypair::AdbKeyPair;
use radb::message::AdbMessage;
use radb::queue::StreamTable;
use radb::stream::{ReadStart, StreamState};

#[test]
fn features_from_banner() {
    let f = parse_features("device::ro.product.name=sdk;ro.product.model=x;features=shell_v2, cmd ,stat_v2");
    assert!(f.contains("shell_v2"));
    assert!(f.contains("cmd"));
    assert!(f.contains("stat_v2"));
    assert!(!f.contains("sdk"));
    assert!(!f.contains(" cmd "));
    let mut v = f.to_vec();
    v.sort();
    v.dedup();
    assert_eq!(v, vec!["cmd".to_string(), "shell_v2".to_string(), "stat_v2".to_string()]);
}

#[test]
fn features_need_the_separator() {
    assert!(!parse_features("device:features=shell_v2").contains("shell_v2"));
    assert!(parse_features("").to_vec().is_empty());
    let mut s = FeatureSet::new();
    s.insert("a".to_string());
    assert!(s.contains("a"));
}

fn cnxn(banner: &[u8]) -> AdbMessage {
    AdbMessage::new(CMD_CNXN, 0x0100_0001, 4096, banner.to_vec())
}

#[test]
fn handshake_without_authentication() {
    let (mut hs, first) = Handshake::start();
    assert_eq!(first.command, CMD_CNXN);
    assert_eq!(hs.current_phase(), 0);
    match hs.on_message(&cnxn(b"device::features=shell_v2"), None) {
        Ok(HandshakeStep::Established(info)) => {
            assert_eq!(info.version, 0x0100_0001);
            assert_eq!(info.max_payload_size, 4096);
            assert!(info.features.contains("shell_v2"));
        }
        _ => panic!("expected an established connection"),
    }
    assert!(hs.is_done());
}

#[test]
fn handshake_needs_a_key_for_a_token() {
    let (mut hs, _) = Handshake::start();
    let token = AdbMessage::new(CMD_AUTH, AUTH_TYPE_TOKEN, 0, vec![1; 20]);
    match hs.on_message(&token, None) {
        Err(AdbError::Auth(m)) => {
            assert_eq!(m, "Device requires authentication but no key pair was provided")
        }
        _ => panic!("expected an auth error"),
    }
}

#[test]
fn handshake_fails_on_other_commands() {
    let (mut hs, _) = Handshake::start();
    match hs.on_message(&AdbMessage::new(CMD_OKAY, 0, 0, Vec::new()), None) {
        Err(AdbError::Connect(m)) => {
            assert_eq!(m, "Handshake failed: expected CNXN packet, got OKAY")
        }
        _ => panic!("expected a connect error"),
    }
}

#[test]
fn handshake_signs_then_sends_public_key() {
    let kp = AdbKeyPair::generate().unwrap();
    let (mut hs, _) = Handshake::start();
    let token = AdbMessage::new(CMD_AUTH, AUTH_TYPE_TOKEN, 0, vec![7; 20]);
    match hs.on_message(&token, Some(&kp)) {
        Ok(HandshakeStep::Send(m)) => {
            assert_eq!((m.command, m.arg0, m.arg1), (CMD_AUTH, AUTH_TYPE_SIGNATURE, 0));
            assert_eq!(m.payload.len(), 256);
        }
        _ => panic!("expected a signature"),
    }
    match hs.on_message(&token, Some(&kp)) {
        Ok(HandshakeStep::Send(m)) => {
            assert_eq!((m.command, m.arg0), (CMD_AUTH, AUTH_TYPE_RSA_PUBLIC));
            assert_eq!(m.payload, kp.public_key_bytes);
        }
        _ => panic!("expected the public key"),
    }
    assert!(matches!(hs.on_message(&cnxn(b"device::"), Some(&kp)), Ok(HandshakeStep::Established(_))));
}

#[test]
fn open_replies() {
    let ok = AdbMessage::new(CMD_OKAY, 77, 1, Vec::new());
    assert_eq!(open_reply("shell:", Some(Ok(ok))).unwrap(), 77);
    match open_reply("tcp:80", Some(Ok(AdbMessage::new(CMD_CLSE, 0, 1, Vec::new())))) {
        Err(AdbError::StreamOpen { destination, reason }) => {
            assert_eq!(destination, "tcp:80");
            assert_eq!(reason, "Connection refused by ADB daemon");
        }
        _ => panic!("expected a refusal"),
    }
    match open_reply("x", Some(Ok(AdbMessage::new(CMD_WRTE, 0, 1, Vec::new())))) {
        Err(AdbError::Protocol(m)) => assert_eq!(m, "Unexpected response opening stream: WRTE"),
        _ => panic!("expected a protocol error"),
    }
    match open_reply("x", None) {
        Err(AdbError::ConnectionClosed(m)) => {
            assert_eq!(m, "Stream channel closed before open acknowledgement")
        }
        _ => panic!("expected a closed channel"),
    }
    assert!(matches!(open_reply("x", Some(Err(AdbError::Timeout("t".into())))), Err(AdbError::Timeout(_))));
}

#[test]
fn stream_reads_acknowledge_data() {
    let mut s = StreamState::new(3, 9, 4);
    assert!(matches!(s.begin_read(), ReadStart::Receive));
    let r = s.on_receive(Some(Ok(AdbMessage::new(CMD_WRTE, 9, 3, b"data".to_vec())))).unwrap();
    assert_eq!(r.payload, b"data".to_vec());
    let ack = r.ack.unwrap();
    assert_eq!((ack.command, ack.arg0, ack.arg1), (CMD_OKAY, 3, 9));
    let r = s.on_receive(Some(Ok(AdbMessage::new(CMD_CLSE, 9, 3, Vec::new())))).unwrap();
    assert!(r.payload.is_empty() && r.ack.is_none());
    assert!(s.is_closed());
    match s.begin_read() {
        ReadStart::Ready(b) => assert!(b.is_empty()),
        ReadStart::Receive => panic!("a closed stream does not wait"),
    }
}

#[test]
fn stream_rejects_unexpected_commands() {
    let mut s = StreamState::new(1, 2, 4);
    match s.on_receive(Some(Ok(AdbMessage::new(CMD_CNXN, 0, 1, Vec::new())))) {
        Err(AdbError::Protocol(m)) => assert_eq!(m, "Unexpected ADB command in stream: CNXN"),
        _ => panic!("expected a protocol error"),
    }
    assert!(!s.is_closed());
    assert!(s.on_receive(Some(Err(AdbError::Timeout("t".into())))).is_err());
    assert!(s.is_closed());
}

#[test]
fn stream_writes_in_chunks_and_closes_once() {
    let mut s = StreamState::new(1, 2, 4);
    let msgs = s.write_messages(b"0123456789").unwrap();
    let payloads: Vec<Vec<u8>> = msgs.iter().map(|m| m.payload.clone()).collect();
    assert_eq!(payloads, vec![b"0123".to_vec(), b"4567".to_vec(), b"89".to_vec()]);
    assert!(msgs.iter().all(|m| m.command == CMD_WRTE && m.arg0 == 1 && m.arg1 == 2));
    assert!(s.write_messages(b"").unwrap().is_empty());
    let c = s.close().unwrap();
    assert_eq!((c.command, c.arg0, c.arg1), (CMD_CLSE, 1, 2));
    assert!(s.close().is_none());
    assert!(matches!(s.write_messages(b"x"), Err(AdbError::StreamClosed(1))));
}

#[test]
fn stream_end_of_routing_closes() {
    let mut s = StreamState::new(1, 2, 4);
    let r = s.on_receive(None).unwrap();
    assert!(r.payload.is_empty());
    assert!(s.is_closed());
}

#[test]
fn message_routing_by_stream_id() {
    let mut t: StreamTable<&str> = StreamTable::new();
    t.start_listening(10, "ten").unwrap();
    t.start_listening(20, "twenty").unwrap();
    match t.start_listening(10, "again") {
        Err(AdbError::Protocol(m)) => assert_eq!(m, "Stream local_id 10 is already in use"),
        _ => panic!("expected an in-use error"),
    }
    let to10 = AdbMessage::new(CMD_WRTE, 0, 10, b"stream 10 payload".to_vec());
    let to20 = AdbMessage::new(CMD_WRTE, 0, 20, b"stream 20 payload".to_vec());
    assert_eq!(t.route(&to10), Some(&"ten"));
    assert_eq!(t.route(&to20), Some(&"twenty"));
    assert_eq!(t.route(&AdbMessage::new(CMD_WRTE, 0, 30, Vec::new())), None);
    let close10 = AdbMessage::new(CMD_CLSE, 0, 10, Vec::new());
    t.delivered(&to20);
    t.delivered(&close10);
    assert_eq!(t.route(&to10), None);
    assert_eq!(t.route(&to20), Some(&"twenty"));
    t.stop_listening(20);
    assert_eq!(t.route(&to20), None);
    t.start_listening(30, "thirty").unwrap();
    assert_eq!(t.take_all().len(), 1);
    assert_eq!(t.route(&AdbMessage::new(CMD_WRTE, 0, 30, Vec::new())), None);
}
