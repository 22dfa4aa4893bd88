use radb::connection::{finish_open, LocalIds};
use radb::constants::{CMD_CLSE, CMD_OKAY};
use radb::error::AdbError;
use radb::keypair::{AdbKeyPair, RsaKeyParts};
use rsa::traits::{PrivateKeyParts, PublicKeyParts};
use radb::message::AdbMessage;
use radb::queue::StreamTable;
use radb::server::{server_fail_error, server_reply, ServerReply, ServerStartup, StartupAction};
use radb::shell::AdbShellResponse;
use radb::touch::double_tap_outcome;

fn protocol_text(r: ServerReply) -> String {
    match r {
        ServerReply::Done(Err(AdbError::Protocol(t))) => t,
        _ => panic!("expected a protocol error"),
    }
}

#[test]
fn okay_reply_reads_the_announced_body() {
    assert!(matches!(server_reply(b"OKAY", Some(b"000c")), ServerReply::ReadBody(12)));
    assert!(matches!(server_reply(b"OKAY", Some(b"+01F")), ServerReply::ReadBody(31)));
}

#[test]
fn okay_reply_without_length_is_empty_output() {
    match server_reply(b"OKAY", None) {
        ServerReply::Done(Ok(t)) => assert_eq!(t, ""),
        _ => panic!("expected empty output"),
    }
    match server_reply(b"OKAY", Some(b"zz00")) {
        ServerReply::Done(Ok(t)) => assert_eq!(t, ""),
        _ => panic!("expected empty output"),
    }
}

#[test]
fn fail_reply_reads_the_reason() {
    assert!(matches!(server_reply(b"FAIL", Some(b"0005")), ServerReply::ReadFailReason(5)));
    assert!(matches!(server_reply(b"FAIL", None), ServerReply::ReadError));
    match server_fail_error(b"no devices") {
        AdbError::Protocol(t) => assert_eq!(t, "ADB server command failed: no devices"),
        _ => panic!("expected a protocol error"),
    }
}

#[test]
fn fail_reply_with_a_bad_length_field() {
    let t = protocol_text(server_reply(b"FAIL", Some(&[0xFF, 0x30, 0x30, 0x30])));
    assert_eq!(t, "Invalid FAIL hex length: invalid utf-8 sequence of 1 bytes from index 0");
    let t = protocol_text(server_reply(b"FAIL", Some(b"zz00")));
    assert_eq!(t, "Invalid FAIL hex number: invalid digit found in string");
}

#[test]
fn other_status_is_a_protocol_error() {
    let t = protocol_text(server_reply(b"WHAT", None));
    assert_eq!(t, "Unexpected status from ADB server: \"WHAT\"");
}

#[test]
fn server_startup_polls_fifty_times() {
    let mut s = ServerStartup::new();
    assert!(matches!(s.on_check(true), StartupAction::Ready));
    let mut s = ServerStartup::new();
    assert!(matches!(s.on_check(false), StartupAction::StartServer));
    for _ in 1..50 {
        assert!(matches!(s.on_check(false), StartupAction::PollAgain));
    }
    match s.on_check(false) {
        StartupAction::GiveUp(AdbError::Connect(t)) => {
            assert_eq!(t, "Failed to start local ADB server daemon")
        }
        _ => panic!("expected to give up"),
    }
    let mut s = ServerStartup::new();
    assert!(matches!(s.on_check(false), StartupAction::StartServer));
    assert!(matches!(s.on_check(true), StartupAction::Ready));
}

#[test]
fn double_tap_answers_with_the_first_tap() {
    let first = AdbShellResponse { output: "one".into(), error_output: String::new(), exit_code: 0 };
    let second = AdbShellResponse { output: "two".into(), error_output: String::new(), exit_code: 1 };
    let r = double_tap_outcome(first, Ok(second)).unwrap();
    assert_eq!(r.output, "one");
    let first = AdbShellResponse { output: "one".into(), error_output: String::new(), exit_code: 0 };
    assert!(matches!(
        double_tap_outcome(first, Err(AdbError::Timeout("t".into()))),
        Err(AdbError::Timeout(_))
    ));
}

#[test]
fn local_ids_count_from_one() {
    let mut ids = LocalIds::new();
    assert_eq!(ids.allocate(), 1);
    assert_eq!(ids.allocate(), 2);
    assert_eq!(ids.allocate(), 3);
}

#[test]
fn failed_open_stops_listening() {
    let mut table: StreamTable<u8> = StreamTable::new();
    table.start_listening(4, 0).unwrap();
    let refused = finish_open(&mut table, 4, "tcp:9", Some(Ok(AdbMessage::new(CMD_CLSE, 0, 4, Vec::new()))));
    match refused {
        Err(AdbError::StreamOpen { destination, reason }) => {
            assert_eq!(destination, "tcp:9");
            assert_eq!(reason, "Connection refused by ADB daemon");
        }
        _ => panic!("expected a refused open"),
    }
    assert!(table.start_listening(4, 1).is_ok());
    let opened = finish_open(&mut table, 4, "tcp:9", Some(Ok(AdbMessage::new(CMD_OKAY, 9, 4, Vec::new()))));
    assert_eq!(opened.unwrap(), 9);
    assert!(table.start_listening(4, 2).is_err());
    let closed = finish_open(&mut table, 4, "tcp:9", Some(Err(AdbError::Timeout("late".into()))));
    assert!(matches!(closed, Err(AdbError::Timeout(t)) if t == "late"));
    assert!(table.start_listening(4, 3).is_ok());
}

#[test]
fn small_keys_cannot_sign_a_token() {
    let key = rsa::RsaPrivateKey::new(&mut rand::thread_rng(), 512).unwrap();
    let kp = key_pair_of(&key);
    match kp.sign_payload(&[7u8; 20]) {
        Err(AdbError::Auth(m)) => assert!(m.starts_with("RSA raw signing failed: ")),
        _ => panic!("expected the block not to fit a 512-bit modulus"),
    }
}

fn key_pair_of(key: &rsa::RsaPrivateKey) -> AdbKeyPair {
    AdbKeyPair::new(RsaKeyParts::new(
        key.n().to_bytes_le(),
        key.e().to_bytes_le(),
        key.d().to_bytes_le(),
        key.primes().iter().map(|p| p.to_bytes_le()).collect(),
    ))
}

#[test]
fn message_debug_text() {
    let m = AdbMessage::new(radb::constants::CMD_CNXN, 0x0100_0001, 4096, b"host::\0".to_vec());
    assert_eq!(
        m.debug_text(),
        "AdbMessage { command: \"CNXN\", arg0: 16777217, arg1: 4096, payload_length: 7, checksum: 562, magic: 0xB1A7B1BC, payload_len: 7 }"
    );
}

#[test]
fn stream_passes_routing_errors_on() {
    let mut s = radb::stream::StreamState::new(1, 2, 4096);
    match s.on_receive(Some(Err(AdbError::Timeout("gone".into())))) {
        Err(AdbError::Timeout(t)) => assert_eq!(t, "gone"),
        _ => panic!("expected the routing error"),
    }
    assert!(s.is_closed());
}

#[test]
fn generated_keys_encode_and_sign_in_256_bytes() {
    let kp = AdbKeyPair::generate().unwrap();
    assert!(kp.has_valid_key());
    let pem = kp.to_pkcs8_pem().unwrap();
    let back = AdbKeyPair::from_pkcs8_pem(&pem).unwrap();
    assert_eq!(back.public_key_bytes, kp.public_key_bytes);
    for len in [0usize, 20, 238] {
        let token = vec![0xA5u8; len];
        assert_eq!(kp.sign_payload(&token).unwrap().len(), 256);
        assert_eq!(back.sign_payload(&token).unwrap(), kp.sign_payload(&token).unwrap());
    }
}
