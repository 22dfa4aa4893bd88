use radb::constants::{
    connect_payload, AUTH_TYPE_SIGNATURE, CMD_AUTH, CMD_CLSE, CMD_CNXN, CMD_OKAY, CMD_OPEN,
    CMD_WRTE, CONNECT_MAXDATA, CONNECT_VERSION,
};
use radb::message::{AdbMessage, HEADER_LEN};
use radb::writer::{
    auth_message, close_message, connect_message, data_message, okay_message, open_message,
    AdbWriter,
};
use radb::reader::AdbReader;

#[test]
fn checksum_wraps_at_32_bits() {
    let payload = vec![0xFFu8; 16_843_010];
    // 255 * 16843010 = 4294967550 = 2^32 + 254
    assert_eq!(AdbMessage::calculate_checksum(&payload), 254);
}

#[test]
fn checksum_of_empty_payload_is_zero() {
    assert_eq!(AdbMessage::calculate_checksum(&[]), 0);
    let msg = AdbMessage::new(CMD_OKAY, 1, 2, Vec::new());
    assert_eq!(msg.payload_length, 0);
    assert_eq!(msg.checksum, 0);
    assert_eq!(msg.magic, !CMD_OKAY);
}

#[test]
fn command_names() {
    assert_eq!(AdbMessage::command_name(CMD_AUTH), "AUTH");
    assert_eq!(AdbMessage::command_name(CMD_CNXN), "CNXN");
    assert_eq!(AdbMessage::command_name(CMD_OPEN), "OPEN");
    assert_eq!(AdbMessage::command_name(CMD_OKAY), "OKAY");
    assert_eq!(AdbMessage::command_name(CMD_CLSE), "CLSE");
    assert_eq!(AdbMessage::command_name(CMD_WRTE), "WRTE");
    assert_eq!(AdbMessage::command_name(0), "UNKNOWN");
}

#[test]
fn encode_writes_little_endian_header_then_payload() {
    let msg = AdbMessage::new(CMD_WRTE, 0x0102_0304, 7, vec![1, 2, 3]);
    let bytes = msg.encode();
    assert_eq!(bytes.len(), HEADER_LEN + 3);
    assert_eq!(&bytes[0..4], b"WRTE");
    assert_eq!(&bytes[4..8], &[4, 3, 2, 1]);
    assert_eq!(&bytes[8..12], &[7, 0, 0, 0]);
    assert_eq!(&bytes[12..16], &[3, 0, 0, 0]);
    assert_eq!(&bytes[16..20], &[6, 0, 0, 0]);
    assert_eq!(&bytes[20..24], &(!CMD_WRTE).to_le_bytes());
    assert_eq!(&bytes[24..], &[1, 2, 3]);
}

#[test]
fn decode_needs_a_whole_message() {
    let msg = AdbMessage::new(CMD_WRTE, 1, 2, b"abcdef".to_vec());
    let bytes = msg.encode();
    assert!(AdbMessage::decode(&bytes[..10]).is_none());
    assert!(AdbMessage::decode(&bytes[..bytes.len() - 1]).is_none());
    assert_eq!(AdbMessage::header_payload_length(&bytes), 6);
}

#[test]
fn decode_ignores_what_follows() {
    let first = AdbMessage::new(CMD_WRTE, 1, 2, b"one".to_vec());
    let second = AdbMessage::new(CMD_CLSE, 3, 4, Vec::new());
    let mut stream = first.encode();
    stream.extend_from_slice(&second.encode());
    let (m1, n1) = AdbMessage::decode(&stream).unwrap();
    assert_eq!(m1, first);
    let (m2, n2) = AdbMessage::decode(&stream[n1..]).unwrap();
    assert_eq!(m2, second);
    assert_eq!(n1 + n2, stream.len());
}

#[test]
fn decode_takes_header_fields_as_they_are() {
    // A header whose checksum and magic do not match is read without checks.
    let mut bytes = AdbMessage::new(CMD_OPEN, 5, 0, b"x".to_vec()).encode();
    bytes[16] = 0;
    bytes[20] = 0;
    let (m, n) = AdbMessage::decode(&bytes).unwrap();
    assert_eq!(n, bytes.len());
    assert_eq!(m.payload, b"x".to_vec());
    assert_eq!(m.checksum & 0xff, 0);
}

#[test]
fn client_messages() {
    let c = connect_message();
    assert_eq!(c.command, CMD_CNXN);
    assert_eq!(c.arg0, CONNECT_VERSION);
    assert_eq!(c.arg1, CONNECT_MAXDATA);
    assert_eq!(c.payload, b"host::\0".to_vec());
    assert_eq!(connect_payload(), b"host::\0".to_vec());

    let o = open_message(3, "shell:ls");
    assert_eq!(o.command, CMD_OPEN);
    assert_eq!(o.arg0, 3);
    assert_eq!(o.arg1, 0);
    assert_eq!(o.payload, b"shell:ls\0".to_vec());
    assert_eq!(o.payload_length, 9);

    let a = auth_message(AUTH_TYPE_SIGNATURE, vec![9; 4]);
    assert_eq!((a.command, a.arg0, a.arg1), (CMD_AUTH, AUTH_TYPE_SIGNATURE, 0));
    assert_eq!(a.checksum, 36);

    let d = data_message(1, 2, b"hi".to_vec());
    assert_eq!((d.command, d.arg0, d.arg1), (CMD_WRTE, 1, 2));
    let k = okay_message(1, 2);
    assert_eq!((k.command, k.arg0, k.arg1, k.payload_length), (CMD_OKAY, 1, 2, 0));
    let x = close_message(1, 2);
    assert_eq!((x.command, x.arg0, x.arg1, x.payload_length), (CMD_CLSE, 1, 2, 0));
}

#[test]
fn reader_and_writer_hold_their_sinks() {
    let mut w = AdbWriter::new(Vec::<u8>::new());
    w.get_mut().push(1);
    assert_eq!(w.into_inner(), vec![1]);
    let mut r = AdbReader::new(7u32);
    *r.get_mut() += 1;
    assert_eq!(r.into_inner(), 8);
}
