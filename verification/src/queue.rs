//! Routing of incoming messages to the streams that listen for them.
use vstd::prelude::*;
use vstd::string::*;

use std::collections::HashMap;

use crate::constants::CMD_CLSE;
use crate::error::AdbError;
use crate::message::AdbMessage;
use crate::text::{decimal, push_decimal, push_str, string_of};

verus! {

broadcast use vstd::std_specs::hash::group_hash_axioms;

/// The streams that listen for messages, by local stream id.
pub struct StreamTable<S> {
    streams: HashMap<u32, S>,
}

/// The error text for a local stream id that is already listened on.
pub open spec fn in_use_text(local_id: u32) -> Seq<char> {
    "Stream local_id "@ + decimal(local_id as nat) + " is already in use"@
}

impl<S> View for StreamTable<S> {
    type V = Map<u32, S>;

    closed spec fn view(&self) -> Map<u32, S> {
        self.streams@
    }
}

impl<S> StreamTable<S> {
    /// No stream listens.
    pub fn new() -> (t: Self)
        ensures
            t@ == Map::<u32, S>::empty(),
    {
        StreamTable { streams: HashMap::new() }
    }

    /// Registers `sender` for the messages of stream `local_id`; an id already
    /// in use is refused with a protocol error and the table is left unchanged.
    pub fn start_listening(&mut self, local_id: u32, sender: S) -> (r: crate::error::Result<()>)
        ensures
            old(self)@.contains_key(local_id) ==> final(self)@ == old(self)@ && (r matches Err(
                AdbError::Protocol(t),
            ) && t@ == in_use_text(local_id)),
            !old(self)@.contains_key(local_id) ==> final(self)@ == old(self)@.insert(local_id, sender)
                && r is Ok,
    {
        if self.streams.contains_key(&local_id) {
            let mut t = string_of("Stream local_id ");
            push_decimal(&mut t, local_id as u64);
            push_str(&mut t, " is already in use");
            return Err(AdbError::Protocol(t));
        }
        self.streams.insert(local_id, sender);
        Ok(())
    }

    /// Stops routing messages to stream `local_id`.
    pub fn stop_listening(&mut self, local_id: u32)
        ensures
            final(self)@ == old(self)@.remove(local_id),
    {
        self.streams.remove(&local_id);
    }

    /// The listener a message is routed to: the stream named by its `arg1`.
    pub fn route(&self, msg: &AdbMessage) -> (r: Option<&S>)
        ensures
            self@.contains_key(msg.arg1) ==> r == Some(&self@[msg.arg1]),
            !self@.contains_key(msg.arg1) ==> r is None,
    {
        self.streams.get(&msg.arg1)
    }

    /// After a message was delivered: a `CLSE` ends the stream's routing.
    pub fn delivered(&mut self, msg: &AdbMessage)
        ensures
            msg.command == CMD_CLSE ==> final(self)@ == old(self)@.remove(msg.arg1),
            msg.command != CMD_CLSE ==> final(self)@ == old(self)@,
    {
        if msg.command == CMD_CLSE {
            self.streams.remove(&msg.arg1);
        }
    }

    /// Removes every listener and hands them over, as when the connection fails.
    pub fn take_all(&mut self) -> (all: HashMap<u32, S>)
        ensures
            all@ == old(self)@,
            final(self)@ == Map::<u32, S>::empty(),
    {
        let mut all: HashMap<u32, S> = HashMap::new();
        std::mem::swap(&mut all, &mut self.streams);
        all
    }
}

/// Routing follows registration: once `sender` listens on `id`, messages for
/// `id` reach it, and listeners of other streams are untouched; once `id` stops
/// listening (or its `CLSE` was delivered), messages for `id` reach no one.
pub proof fn lemma_routing_follows_registration<S>(m: Map<u32, S>, id: u32, sender: S, other: u32)
    requires
        !m.contains_key(id),
    ensures
        m.insert(id, sender).contains_key(id),
        m.insert(id, sender)[id] == sender,
        !m.insert(id, sender).remove(id).contains_key(id),
        other != id ==> m.insert(id, sender).contains_key(other) == m.contains_key(other),
        other != id && m.contains_key(other) ==> m.insert(id, sender)[other] == m[other],
        m.insert(id, sender).remove(id) == m,
{
    assert(m.insert(id, sender).remove(id) =~= m);
}

} // verus!
