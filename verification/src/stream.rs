//! The bookkeeping of one multiplexed ADB stream: what a read returns, which
//! acknowledgements it owes, how writes are cut into messages, and closing.
use vstd::prelude::*;
use vstd::string::*;

use crate::constants::{CMD_CLSE, CMD_OKAY, CMD_WRTE};
use crate::error::AdbError;
use crate::message::{spec_command_name, spec_new_message, AdbMessage};
use crate::text::{push_str, string_of};
use crate::wire::{chunks, split_chunks};
use crate::writer::{close_message, data_message, okay_message};

verus! {

/// The state of a stream as its owner sees it.
pub struct StreamState {
    pub local_id: u32,
    pub remote_id: u32,
    max_payload_size: usize,
    read_buf: Vec<u8>,
    is_closed: bool,
}

/// What a read does before waiting for the device.
pub enum ReadStart {
    /// The read returns these bytes at once (empty once the stream is closed).
    Ready(Vec<u8>),
    /// The read must wait for the next message routed to this stream.
    Receive,
}

/// What a read returns once a routed message (or the end of routing) arrived.
pub struct Received {
    /// The bytes the read returns; empty means end of stream.
    pub payload: Vec<u8>,
    /// The acknowledgement to send before returning the bytes.
    pub ack: Option<AdbMessage>,
}

/// The error text for a message a stream does not expect.
pub open spec fn unexpected_stream_text(command: u32) -> Seq<char> {
    "Unexpected ADB command in stream: "@ + spec_command_name(command)
}

impl StreamState {
    /// This side's stream id.
    pub closed spec fn local(&self) -> u32 {
        self.local_id
    }

    /// The device's stream id.
    pub closed spec fn remote(&self) -> u32 {
        self.remote_id
    }

    /// Whether the stream is closed.
    pub closed spec fn closed(&self) -> bool {
        self.is_closed
    }

    /// The largest payload one message may carry.
    pub closed spec fn max_payload(&self) -> nat {
        self.max_payload_size as nat
    }

    /// Bytes received but not yet returned by a read.
    pub closed spec fn pending(&self) -> Seq<u8> {
        self.read_buf@
    }

    /// An open stream between `local_id` and the device's `remote_id`.
    pub fn new(local_id: u32, remote_id: u32, max_payload_size: usize) -> (s: Self)
        ensures
            s.local() == local_id,
            s.remote() == remote_id,
            s.max_payload() == max_payload_size,
            !s.closed(),
            s.pending() == Seq::<u8>::empty(),
    {
        StreamState { local_id, remote_id, max_payload_size, read_buf: Vec::new(), is_closed: false }
    }

    /// The largest payload one message may carry.
    pub fn max_payload_size(&self) -> (m: usize)
        ensures
            m == self.max_payload(),
    {
        self.max_payload_size
    }

    /// Whether the stream is closed.
    pub fn is_closed(&self) -> (b: bool)
        ensures
            b == self.closed(),
    {
        self.is_closed
    }

    /// Starts a read: a closed stream returns nothing, pending bytes are returned
    /// at once, otherwise the read waits for the device.
    pub fn begin_read(&mut self) -> (r: ReadStart)
        ensures
            final(self).local() == old(self).local(),
            final(self).remote() == old(self).remote(),
            final(self).max_payload() == old(self).max_payload(),
            final(self).closed() == old(self).closed(),
            old(self).closed() ==> (r matches ReadStart::Ready(b) && b@.len() == 0
                && final(self).pending() == old(self).pending()),
            !old(self).closed() && old(self).pending().len() > 0 ==> (r matches ReadStart::Ready(b)
                && b@ == old(self).pending() && final(self).pending() == Seq::<u8>::empty()),
            !old(self).closed() && old(self).pending().len() == 0 ==> r is Receive
                && final(self).pending() == old(self).pending(),
    {
        if self.is_closed {
            return ReadStart::Ready(Vec::new());
        }
        if self.read_buf.len() > 0 {
            let mut data: Vec<u8> = Vec::new();
            std::mem::swap(&mut data, &mut self.read_buf);
            return ReadStart::Ready(data);
        }
        ReadStart::Receive
    }

    /// Finishes a read with what routing delivered: `WRTE` data is returned and
    /// acknowledged with `OKAY`; `CLSE` or the end of routing close the stream
    /// and return nothing; a routing error closes the stream and is passed on;
    /// any other command is a protocol error.
    pub fn on_receive(&mut self, item: Option<crate::error::Result<AdbMessage>>) -> (r:
        crate::error::Result<Received>)
        ensures
            final(self).local() == old(self).local(),
            final(self).remote() == old(self).remote(),
            final(self).max_payload() == old(self).max_payload(),
            final(self).pending() == old(self).pending(),
            match item {
                Some(Ok(m)) => if m.command == CMD_CLSE {
                    final(self).closed() && (r matches Ok(rv) && rv.payload@.len() == 0
                        && rv.ack is None)
                } else if m.command == CMD_WRTE {
                    final(self).closed() == old(self).closed() && (r matches Ok(rv) && rv.payload@
                        == m.payload@ && (rv.ack matches Some(a) && a@ == spec_new_message(
                        CMD_OKAY,
                        old(self).local(),
                        old(self).remote(),
                        Seq::empty(),
                    )))
                } else {
                    final(self).closed() == old(self).closed() && (r matches Err(
                        AdbError::Protocol(t),
                    ) && t@ == unexpected_stream_text(m.command))
                },
                Some(Err(e)) => final(self).closed() && r == Err::<Received, AdbError>(e),
                None => final(self).closed() && (r matches Ok(rv) && rv.payload@.len() == 0
                    && rv.ack is None),
            },
    {
        match item {
            Some(Ok(m)) => {
                if m.command == CMD_CLSE {
                    self.is_closed = true;
                    Ok(Received { payload: Vec::new(), ack: None })
                } else if m.command == CMD_WRTE {
                    let ack = okay_message(self.local_id, self.remote_id);
                    Ok(Received { payload: m.payload, ack: Some(ack) })
                } else {
                    let mut t = string_of("Unexpected ADB command in stream: ");
                    push_str(&mut t, AdbMessage::command_name(m.command));
                    Err(AdbError::Protocol(t))
                }
            },
            Some(Err(e)) => {
                self.is_closed = true;
                Err(e)
            },
            None => {
                self.is_closed = true;
                Ok(Received { payload: Vec::new(), ack: None })
            },
        }
    }

    /// The `WRTE` messages that carry `payload`: one per `max_payload_size`
    /// bytes, in order; a closed stream refuses to write.
    pub fn write_messages(&self, payload: &[u8]) -> (r: crate::error::Result<Vec<AdbMessage>>)
        requires
            self.closed() || self.max_payload() > 0,
        ensures
            self.closed() ==> (r matches Err(AdbError::StreamClosed(id)) && id == self.local()),
            !self.closed() ==> (r matches Ok(msgs) && msgs@.len() == chunks(
                payload@,
                self.max_payload(),
            ).len() && forall|k: int|
                0 <= k < msgs@.len() ==> (#[trigger] msgs@[k])@ == spec_new_message(
                    CMD_WRTE,
                    self.local(),
                    self.remote(),
                    chunks(payload@, self.max_payload())[k],
                )),
    {
        if self.is_closed {
            return Err(AdbError::StreamClosed(self.local_id));
        }
        let pieces = split_chunks(payload, self.max_payload_size);
        let mut msgs: Vec<AdbMessage> = Vec::new();
        let mut k: usize = 0;
        while k < pieces.len()
            invariant
                k <= pieces@.len(),
                pieces@.len() == chunks(payload@, self.max_payload()).len(),
                forall|j: int|
                    0 <= j < pieces@.len() ==> #[trigger] pieces@[j]@ == chunks(
                        payload@,
                        self.max_payload(),
                    )[j],
                msgs@.len() == k,
                forall|j: int|
                    0 <= j < k ==> (#[trigger] msgs@[j])@ == spec_new_message(
                        CMD_WRTE,
                        self.local_id,
                        self.remote_id,
                        chunks(payload@, self.max_payload())[j],
                    ),
            decreases pieces@.len() - k,
        {
            let mut piece: Vec<u8> = Vec::new();
            piece.extend_from_slice(pieces[k].as_slice());
            assert(piece@ =~= pieces@[k as int]@);
            msgs.push(data_message(self.local_id, self.remote_id, piece));
            k = k + 1;
        }
        Ok(msgs)
    }

    /// Closes the stream; the `CLSE` message to send, unless it was closed already.
    pub fn close(&mut self) -> (r: Option<AdbMessage>)
        ensures
            final(self).closed(),
            final(self).local() == old(self).local(),
            final(self).remote() == old(self).remote(),
            final(self).max_payload() == old(self).max_payload(),
            final(self).pending() == old(self).pending(),
            old(self).closed() ==> r is None,
            !old(self).closed() ==> (r matches Some(m) && m@ == spec_new_message(
                CMD_CLSE,
                old(self).local(),
                old(self).remote(),
                Seq::empty(),
            )),
    {
        if self.is_closed {
            None
        } else {
            self.is_closed = true;
            Some(close_message(self.local_id, self.remote_id))
        }
    }
}

} // verus!
