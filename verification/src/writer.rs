//! The messages a client sends, and the sink they are written to.
use vstd::prelude::*;
use vstd::string::*;

use crate::constants::{
    connect_payload, spec_connect_payload, CMD_AUTH, CMD_CLSE, CMD_CNXN, CMD_OKAY, CMD_OPEN,
    CMD_WRTE, CONNECT_MAXDATA, CONNECT_VERSION,
};
use crate::message::{spec_new_message, AdbMessage, MessageView};

verus! {

/// A sink for ADB messages; the bytes of each message come from [`AdbMessage::encode`].
pub struct AdbWriter<W> {
    writer: W,
}

impl<W> AdbWriter<W> {
    /// The underlying sink.
    pub closed spec fn inner(&self) -> W {
        self.writer
    }

    /// Wraps a byte sink.
    pub fn new(writer: W) -> (w: Self)
        ensures
            w.inner() == writer,
    {
        Self { writer }
    }

    /// Mutable access to the underlying sink.
    pub fn get_mut(&mut self) -> (inner: &mut W)
        ensures
            *inner == old(self).inner(),
            final(self).inner() == *final(inner),
    {
        &mut self.writer
    }

    /// Gives back the underlying sink.
    pub fn into_inner(self) -> (inner: W)
        ensures
            inner == self.inner(),
    {
        self.writer
    }
}

/// The initial `A_CNXN` message of a connection.
pub open spec fn spec_connect_message() -> MessageView {
    spec_new_message(CMD_CNXN, CONNECT_VERSION, CONNECT_MAXDATA, spec_connect_payload())
}

/// The initial `A_CNXN` message: version, maximum payload size and the `host::` banner.
pub fn connect_message() -> (msg: AdbMessage)
    ensures
        msg@ == spec_connect_message(),
{
    AdbMessage::new(CMD_CNXN, CONNECT_VERSION, CONNECT_MAXDATA, connect_payload())
}

/// An `A_AUTH` message of the given type.
pub fn auth_message(auth_type: u32, auth_payload: Vec<u8>) -> (msg: AdbMessage)
    ensures
        msg@ == spec_new_message(CMD_AUTH, auth_type, 0, auth_payload@),
{
    AdbMessage::new(CMD_AUTH, auth_type, 0, auth_payload)
}

/// The payload of an `A_OPEN` message: the destination's UTF-8 bytes and a NUL terminator.
pub open spec fn spec_open_payload(destination: &str) -> Seq<u8> {
    destination.spec_bytes().push(0u8)
}

/// An `A_OPEN` message asking the device to open `destination` for stream `local_id`.
pub fn open_message(local_id: u32, destination: &str) -> (msg: AdbMessage)
    ensures
        msg@ == spec_new_message(CMD_OPEN, local_id, 0, spec_open_payload(destination)),
{
    let bytes = destination.as_bytes();
    let mut payload: Vec<u8> = Vec::new();
    let mut i: usize = 0;
    while i < bytes.len()
        invariant
            i <= bytes@.len(),
            payload@ =~= bytes@.take(i as int),
        decreases bytes@.len() - i,
    {
        payload.push(bytes[i]);
        i = i + 1;
    }
    payload.push(0u8);
    assert(payload@ =~= spec_open_payload(destination));
    AdbMessage::new(CMD_OPEN, local_id, 0, payload)
}

/// An `A_WRTE` message carrying `payload` from stream `local_id` to `remote_id`.
pub fn data_message(local_id: u32, remote_id: u32, payload: Vec<u8>) -> (msg: AdbMessage)
    ensures
        msg@ == spec_new_message(CMD_WRTE, local_id, remote_id, payload@),
{
    AdbMessage::new(CMD_WRTE, local_id, remote_id, payload)
}

/// An empty `A_OKAY` message acknowledging data on a stream.
pub fn okay_message(local_id: u32, remote_id: u32) -> (msg: AdbMessage)
    ensures
        msg@ == spec_new_message(CMD_OKAY, local_id, remote_id, Seq::empty()),
{
    AdbMessage::new(CMD_OKAY, local_id, remote_id, Vec::new())
}

/// An empty `A_CLSE` message closing a stream.
pub fn close_message(local_id: u32, remote_id: u32) -> (msg: AdbMessage)
    ensures
        msg@ == spec_new_message(CMD_CLSE, local_id, remote_id, Seq::empty()),
{
    AdbMessage::new(CMD_CLSE, local_id, remote_id, Vec::new())
}

} // verus!
