//! The ADB wire packet: a 24-byte little-endian header followed by a payload.
use vstd::prelude::*;

use crate::constants::{CMD_AUTH, CMD_CLSE, CMD_CNXN, CMD_OKAY, CMD_OPEN, CMD_WRTE};
use crate::text::{decimal, push_decimal, push_str, push_upper_hex, string_of, upper_hex};
use crate::wire::{
    le_bytes, le_u32_at, lemma_le_bytes_of_value, lemma_le_value_of_bytes, push_u32_le, read_u32_le,
};

verus! {

/// The `Debug` text of a message: its command's name, the header fields in
/// decimal, the magic in uppercase hexadecimal after `0x`, and the payload's length.
pub open spec fn spec_debug_text(m: MessageView) -> Seq<char> {
    "AdbMessage { command: \""@ + spec_command_name(m.command) + "\", arg0: "@ + decimal(m.arg0 as nat)
        + ", arg1: "@ + decimal(m.arg1 as nat) + ", payload_length: "@ + decimal(
        m.payload_length as nat,
    ) + ", checksum: "@ + decimal(m.checksum as nat) + ", magic: 0x"@ + upper_hex(m.magic as nat)
        + ", payload_len: "@ + decimal(m.payload.len()) + " }"@
}

/// Length in bytes of the fixed ADB message header.
pub const HEADER_LEN: usize = 24;

/// The mathematical content of an [`AdbMessage`].
pub struct MessageView {
    pub command: u32,
    pub arg0: u32,
    pub arg1: u32,
    pub payload_length: u32,
    pub checksum: u32,
    pub magic: u32,
    pub payload: Seq<u8>,
}

/// Represents an ADB wire protocol packet (24-byte header + payload).
#[derive(Clone, Debug, PartialEq, Eq)]
pub struct AdbMessage {
    pub command: u32,
    pub arg0: u32,
    pub arg1: u32,
    pub payload_length: u32,
    pub checksum: u32,
    pub magic: u32,
    pub payload: Vec<u8>,
}

impl View for AdbMessage {
    type V = MessageView;

    open spec fn view(&self) -> MessageView {
        MessageView {
            command: self.command,
            arg0: self.arg0,
            arg1: self.arg1,
            payload_length: self.payload_length,
            checksum: self.checksum,
            magic: self.magic,
            payload: self.payload@,
        }
    }
}

/// The sum of the bytes of `s`, as an unbounded number.
pub open spec fn byte_sum(s: Seq<u8>) -> nat
    decreases s.len(),
{
    if s.len() == 0 {
        0
    } else {
        byte_sum(s.drop_last()) + s.last() as nat
    }
}

/// The ADB payload checksum: the byte sum taken modulo 2^32.
pub open spec fn spec_checksum(s: Seq<u8>) -> u32 {
    (byte_sum(s) % 0x1_0000_0000) as u32
}

/// The magic field that accompanies a command: the command with every bit flipped.
pub open spec fn spec_magic(command: u32) -> u32 {
    command ^ 0xFFFF_FFFF
}

/// The message that [`AdbMessage::new`] builds.
pub open spec fn spec_new_message(command: u32, arg0: u32, arg1: u32, payload: Seq<u8>) -> MessageView {
    MessageView {
        command,
        arg0,
        arg1,
        payload_length: payload.len() as u32,
        checksum: spec_checksum(payload),
        magic: spec_magic(command),
        payload,
    }
}

/// A message whose length field agrees with its payload.
pub open spec fn length_consistent(m: MessageView) -> bool {
    m.payload_length as int == m.payload.len()
}

/// The bytes that put a message on the wire: six little-endian header words, then the payload.
pub open spec fn spec_encode(m: MessageView) -> Seq<u8> {
    le_bytes(m.command) + le_bytes(m.arg0) + le_bytes(m.arg1) + le_bytes(m.payload_length)
        + le_bytes(m.checksum) + le_bytes(m.magic) + m.payload
}

/// The message at the front of `buf`, with the number of bytes it takes, or `None`
/// when `buf` does not yet hold a whole message.
pub open spec fn spec_decode(buf: Seq<u8>) -> Option<(MessageView, int)> {
    if buf.len() < HEADER_LEN {
        None
    } else {
        let plen = le_u32_at(buf, 12);
        if buf.len() < HEADER_LEN + plen {
            None
        } else {
            Some(
                (
                    MessageView {
                        command: le_u32_at(buf, 0),
                        arg0: le_u32_at(buf, 4),
                        arg1: le_u32_at(buf, 8),
                        payload_length: plen,
                        checksum: le_u32_at(buf, 16),
                        magic: le_u32_at(buf, 20),
                        payload: buf.subrange(HEADER_LEN as int, HEADER_LEN + plen),
                    },
                    HEADER_LEN + plen,
                ),
            )
        }
    }
}

/// The name printed for a command code.
pub open spec fn spec_command_name(command: u32) -> Seq<char> {
    if command == CMD_AUTH {
        "AUTH"@
    } else if command == CMD_CNXN {
        "CNXN"@
    } else if command == CMD_OPEN {
        "OPEN"@
    } else if command == CMD_OKAY {
        "OKAY"@
    } else if command == CMD_CLSE {
        "CLSE"@
    } else if command == CMD_WRTE {
        "WRTE"@
    } else {
        "UNKNOWN"@
    }
}

proof fn lemma_byte_sum_push(s: Seq<u8>, b: u8)
    ensures
        byte_sum(s.push(b)) == byte_sum(s) + b,
{
    assert(s.push(b).drop_last() =~= s);
}

impl AdbMessage {
    /// Builds a message, filling in the payload length, the checksum and the magic.
    pub fn new(command: u32, arg0: u32, arg1: u32, payload: Vec<u8>) -> (msg: Self)
        ensures
            msg@ == spec_new_message(command, arg0, arg1, payload@),
    {
        #[verifier::truncate]
        let payload_length = payload.len() as u32;
        let checksum = Self::calculate_checksum(payload.as_slice());
        let magic = command ^ 0xFFFF_FFFF;
        AdbMessage { command, arg0, arg1, payload_length, checksum, magic, payload }
    }

    /// The sum of the payload's bytes, wrapping at 2^32.
    pub fn calculate_checksum(payload: &[u8]) -> (sum: u32)
        ensures
            sum == spec_checksum(payload@),
    {
        let mut sum: u32 = 0;
        let mut i: usize = 0;
        while i < payload.len()
            invariant
                i <= payload@.len(),
                sum == spec_checksum(payload@.take(i as int)),
            decreases payload@.len() - i,
        {
            let b = payload[i];
            proof {
                let t = payload@.take(i as int);
                assert(payload@.take(i + 1) =~= t.push(b));
                lemma_byte_sum_push(t, b);
                vstd::arithmetic::div_mod::lemma_add_mod_noop(
                    byte_sum(t) as int,
                    b as int,
                    0x1_0000_0000,
                );
                vstd::arithmetic::div_mod::lemma_small_mod(b as nat, 0x1_0000_0000);
            }
            sum = sum.wrapping_add(b as u32);
            i = i + 1;
        }
        assert(payload@.take(payload@.len() as int) =~= payload@);
        sum
    }

    /// The name of a command code, or `"UNKNOWN"`.
    pub fn command_name(command: u32) -> (name: &'static str)
        ensures
            name@ == spec_command_name(command),
    {
        if command == CMD_AUTH {
            "AUTH"
        } else if command == CMD_CNXN {
            "CNXN"
        } else if command == CMD_OPEN {
            "OPEN"
        } else if command == CMD_OKAY {
            "OKAY"
        } else if command == CMD_CLSE {
            "CLSE"
        } else if command == CMD_WRTE {
            "WRTE"
        } else {
            "UNKNOWN"
        }
    }

    /// The text of the message's `Debug` form: the command's name, the header
    /// fields in decimal, the magic in uppercase hexadecimal, and the payload's length.
    pub fn debug_text(&self) -> (t: String)
        ensures
            t@ == spec_debug_text(self@),
    {
        let mut t = string_of("AdbMessage { command: \"");
        push_str(&mut t, AdbMessage::command_name(self.command));
        push_str(&mut t, "\", arg0: ");
        push_decimal(&mut t, self.arg0 as u64);
        push_str(&mut t, ", arg1: ");
        push_decimal(&mut t, self.arg1 as u64);
        push_str(&mut t, ", payload_length: ");
        push_decimal(&mut t, self.payload_length as u64);
        push_str(&mut t, ", checksum: ");
        push_decimal(&mut t, self.checksum as u64);
        push_str(&mut t, ", magic: 0x");
        push_upper_hex(&mut t, self.magic as u64);
        push_str(&mut t, ", payload_len: ");
        push_decimal(&mut t, self.payload.len() as u64);
        push_str(&mut t, " }");
        t
    }

    /// The bytes that carry this message on the wire.
    pub fn encode(&self) -> (bytes: Vec<u8>)
        ensures
            bytes@ == spec_encode(self@),
    {
        let mut bytes: Vec<u8> = Vec::with_capacity(HEADER_LEN);
        push_u32_le(&mut bytes, self.command);
        push_u32_le(&mut bytes, self.arg0);
        push_u32_le(&mut bytes, self.arg1);
        push_u32_le(&mut bytes, self.payload_length);
        push_u32_le(&mut bytes, self.checksum);
        push_u32_le(&mut bytes, self.magic);
        let ghost header = bytes@;
        if self.payload.len() > 0 {
            bytes.extend_from_slice(self.payload.as_slice());
        }
        assert(bytes@ =~= header + self.payload@);
        bytes
    }

    /// The payload length announced by a message header.
    pub fn header_payload_length(header: &[u8]) -> (len: u32)
        requires
            header@.len() >= HEADER_LEN,
        ensures
            len == le_u32_at(header@, 12),
    {
        read_u32_le(header, 12)
    }

    /// Decodes the message at the front of `buf`; `None` when `buf` does not
    /// yet hold a whole message. The second component counts the bytes taken.
    pub fn decode(buf: &[u8]) -> (res: Option<(AdbMessage, usize)>)
        ensures
            match res {
                Some((m, n)) => spec_decode(buf@) == Some((m@, n as int)),
                None => spec_decode(buf@) is None,
            },
    {
        if buf.len() < HEADER_LEN {
            return None;
        }
        let payload_length = read_u32_le(buf, 12);
        if buf.len() - HEADER_LEN < payload_length as usize {
            return None;
        }
        let end = HEADER_LEN + payload_length as usize;
        let mut payload: Vec<u8> = Vec::with_capacity(payload_length as usize);
        let mut i: usize = HEADER_LEN;
        while i < end
            invariant
                HEADER_LEN <= i <= end <= buf@.len(),
                payload@ =~= buf@.subrange(HEADER_LEN as int, i as int),
            decreases end - i,
        {
            payload.push(buf[i]);
            i = i + 1;
        }
        let msg = AdbMessage {
            command: read_u32_le(buf, 0),
            arg0: read_u32_le(buf, 4),
            arg1: read_u32_le(buf, 8),
            payload_length,
            checksum: read_u32_le(buf, 16),
            magic: read_u32_le(buf, 20),
            payload,
        };
        Some((msg, end))
    }
}

/// A message built by [`AdbMessage::new`] announces the length of its payload,
/// whenever that length fits the 32-bit field.
pub proof fn lemma_new_is_length_consistent(command: u32, arg0: u32, arg1: u32, payload: Seq<u8>)
    requires
        payload.len() <= u32::MAX,
    ensures
        length_consistent(spec_new_message(command, arg0, arg1, payload)),
{
}

/// Decoding what encoding wrote gives back the message, whatever bytes follow it,
/// and takes exactly the encoded bytes.
pub proof fn lemma_decode_encode(m: MessageView, rest: Seq<u8>)
    requires
        length_consistent(m),
    ensures
        spec_decode(spec_encode(m) + rest) == Some((m, spec_encode(m).len() as int)),
        spec_encode(m).len() == HEADER_LEN + m.payload.len(),
{
    let buf = spec_encode(m) + rest;
    lemma_le_value_of_bytes(m.command);
    lemma_le_value_of_bytes(m.arg0);
    lemma_le_value_of_bytes(m.arg1);
    lemma_le_value_of_bytes(m.payload_length);
    lemma_le_value_of_bytes(m.checksum);
    lemma_le_value_of_bytes(m.magic);
    let e = spec_encode(m);
    assert(e.len() == HEADER_LEN + m.payload.len());
    assert(buf.subrange(0, 4) =~= le_bytes(m.command));
    assert(buf.subrange(4, 8) =~= le_bytes(m.arg0));
    assert(buf.subrange(8, 12) =~= le_bytes(m.arg1));
    assert(buf.subrange(12, 16) =~= le_bytes(m.payload_length));
    assert(buf.subrange(16, 20) =~= le_bytes(m.checksum));
    assert(buf.subrange(20, 24) =~= le_bytes(m.magic));
    assert(le_u32_at(buf, 0) == le_u32_at(le_bytes(m.command), 0));
    assert(le_u32_at(buf, 4) == le_u32_at(le_bytes(m.arg0), 0));
    assert(le_u32_at(buf, 8) == le_u32_at(le_bytes(m.arg1), 0));
    assert(le_u32_at(buf, 12) == le_u32_at(le_bytes(m.payload_length), 0));
    assert(le_u32_at(buf, 16) == le_u32_at(le_bytes(m.checksum), 0));
    assert(le_u32_at(buf, 20) == le_u32_at(le_bytes(m.magic), 0));
    assert(buf.subrange(HEADER_LEN as int, HEADER_LEN + m.payload_length) =~= m.payload);
}

/// What decoding takes from a buffer is exactly the encoding of the message it returns.
pub proof fn lemma_encode_decode(buf: Seq<u8>)
    ensures
        spec_decode(buf) matches Some((m, n)) ==> spec_encode(m) == buf.take(n) && length_consistent(m),
{
    if let Some((m, n)) = spec_decode(buf) {
        lemma_le_bytes_of_value(buf[0], buf[1], buf[2], buf[3]);
        lemma_le_bytes_of_value(buf[4], buf[5], buf[6], buf[7]);
        lemma_le_bytes_of_value(buf[8], buf[9], buf[10], buf[11]);
        lemma_le_bytes_of_value(buf[12], buf[13], buf[14], buf[15]);
        lemma_le_bytes_of_value(buf[16], buf[17], buf[18], buf[19]);
        lemma_le_bytes_of_value(buf[20], buf[21], buf[22], buf[23]);
        assert(spec_encode(m) =~= buf.take(n));
    }
}

} // verus!
