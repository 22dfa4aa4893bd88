use radb::constants::{CMD_CNXN, CMD_OPEN};
use radb::keypair::AdbKeyPair;
use radb::message::AdbMessage;
use radb::server::AdbDeviceDescriptor;

#[test]
fn test_message_checksum_and_header() {
    let payload = b"hello world".to_vec();
    let msg = AdbMessage::new(CMD_CNXN, 0x01000000, 1048576, payload.clone());

    assert_eq!(msg.command, CMD_CNXN);
    assert_eq!(msg.arg0, 0x01000000);
    assert_eq!(msg.arg1, 1048576);
    assert_eq!(msg.payload_length, 11);
    assert_eq!(msg.checksum, 1116); // sum of "hello world" unsigned bytes
    assert_eq!(msg.magic, CMD_CNXN ^ 0xFFFF_FFFF);
}

#[test]
fn test_reader_writer_roundtrip_bytes() {
    let sent = AdbMessage::new(CMD_OPEN, 1, 0, b"shell,v2,raw:echo hello\0".to_vec());
    let bytes = sent.encode();
    let (read_msg, used) = AdbMessage::decode(&bytes).unwrap();
    assert_eq!(read_msg, sent);
    assert_eq!(used, bytes.len());
}

#[test]
fn test_keypair_generation_and_adb_pubkey_format() {
    let keypair = AdbKeyPair::generate().unwrap();
    let pubkey_bytes = &keypair.public_key_bytes;

    // Must be 524 bytes (struct) + null + " host@radb\0" = 536 bytes
    assert!(pubkey_bytes.len() >= 524);

    // First 4 bytes must be 64 (KEY_LENGTH_WORDS in u32 LE)
    let word_count = u32::from_le_bytes(pubkey_bytes[0..4].try_into().unwrap());
    assert_eq!(word_count, 64);
}

#[test]
fn test_device_descriptor_parsing() {
    let output = "emulator-5554\tdevice\n192.168.1.50:5555\tunauthorized\n";
    let mut devices = Vec::new();
    for line in output.lines() {
        if let Some((serial, state)) = line.split_once('\t') {
            devices.push(AdbDeviceDescriptor {
                serial: serial.to_string(),
                state: state.to_string(),
            });
        }
    }

    assert_eq!(devices.len(), 2);
    assert_eq!(devices[0].serial, "emulator-5554");
    assert_eq!(devices[0].state, "device");
    assert_eq!(devices[1].serial, "192.168.1.50:5555");
    assert_eq!(devices[1].state, "unauthorized");
}
