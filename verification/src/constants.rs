use vstd::prelude::*;

verus! {

/// ADB AUTH packet type: challenge token from device.
pub const AUTH_TYPE_TOKEN: u32 = 1;

/// ADB AUTH packet type: RSA signature response from client.
pub const AUTH_TYPE_SIGNATURE: u32 = 2;

/// ADB AUTH packet type: RSA public key transmission from client.
pub const AUTH_TYPE_RSA_PUBLIC: u32 = 3;

/// Wire command code: "AUTH" (0x48545541 in little endian).
pub const CMD_AUTH: u32 = 0x4854_5541;

/// Wire command code: "CNXN" (0x4E584E43 in little endian).
pub const CMD_CNXN: u32 = 0x4e58_4e43;

/// Wire command code: "OPEN" (0x4E45504F in little endian).
pub const CMD_OPEN: u32 = 0x4e45_504f;

/// Wire command code: "OKAY" (0x59414B4F in little endian).
pub const CMD_OKAY: u32 = 0x5941_4b4f;

/// Wire command code: "CLSE" (0x45534C43 in little endian).
pub const CMD_CLSE: u32 = 0x4553_4c43;

/// Wire command code: "WRTE" (0x45545257 in little endian).
pub const CMD_WRTE: u32 = 0x4554_5257;

/// Standard ADB connection version (A_VERSION = 0x01000000).
pub const CONNECT_VERSION: u32 = 0x0100_0000;

/// Maximum payload size negotiated during connect (1 MB).
pub const CONNECT_MAXDATA: u32 = 1_048_576;

/// Write timeout in milliseconds for socket operations.
pub const WRITE_TIMEOUT_MILLIS: u64 = 10_000;

/// Minimum port number for standard Android emulator instances.
pub const MIN_EMULATOR_PORT: u16 = 5555;

/// Maximum port number for standard Android emulator instances.
pub const MAX_EMULATOR_PORT: u16 = 5683;

/// Shell v2 protocol stream ID: standard input.
pub const SHELL_ID_STDIN: u8 = 0;

/// Shell v2 protocol stream ID: standard output.
pub const SHELL_ID_STDOUT: u8 = 1;

/// Shell v2 protocol stream ID: standard error.
pub const SHELL_ID_STDERR: u8 = 2;

/// Shell v2 protocol stream ID: exit status packet.
pub const SHELL_ID_EXIT: u8 = 3;

/// The banner payload sent in the initial `A_CNXN` packet: `host::` and a NUL byte.
pub open spec fn spec_connect_payload() -> Seq<u8> {
    seq![104u8, 111u8, 115u8, 116u8, 58u8, 58u8, 0u8]
}

/// Builds the banner payload of the initial `A_CNXN` packet (`b"host::\0"`).
pub fn connect_payload() -> (payload: Vec<u8>)
    ensures
        payload@ == spec_connect_payload(),
{
    let payload: Vec<u8> = vec![104u8, 111u8, 115u8, 116u8, 58u8, 58u8, 0u8];
    payload
}

} // verus!
