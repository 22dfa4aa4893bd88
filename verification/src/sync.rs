//! The ADB sync sub-protocol: file transfer requests and the replies to them.
use vstd::prelude::*;
use vstd::string::*;

use crate::error::{AdbError, SyncResult};
use crate::text::{
    debug_str, decimal, push_char, push_decimal, push_str, spec_debug_str, spec_utf8_lossy,
    string_of, utf8_lossy,
};
use crate::wire::{
    chunks, copy_range, flatten, le_bytes, le_u32_at, lemma_chunks_partition, lemma_le_value_of_bytes,
    push_u32_le, read_u32_le, split_chunks,
};

verus! {

/// Size of the data carried by one `DATA` packet when pushing a file (64 KiB).
pub const SYNC_CHUNK_SIZE: usize = 65536;

/// Sync request and reply ids.
pub const ID_SEND: [u8; 4] = [83, 69, 78, 68];
pub const ID_RECV: [u8; 4] = [82, 69, 67, 86];
pub const ID_DATA: [u8; 4] = [68, 65, 84, 65];
pub const ID_DONE: [u8; 4] = [68, 79, 78, 69];
pub const ID_OKAY: [u8; 4] = [79, 75, 65, 89];
pub const ID_FAIL: [u8; 4] = [70, 65, 73, 76];
pub const ID_QUIT: [u8; 4] = [81, 85, 73, 84];

/// A sync packet: a four-byte id, a little-endian `u32` argument, then a body.
pub open spec fn spec_packet(id: [u8; 4], arg: u32, body: Seq<u8>) -> Seq<u8> {
    id@ + le_bytes(arg) + body
}

/// The text `"{remote_path},{mode}"` that names the target of a push.
pub open spec fn spec_send_target(remote_path: Seq<char>, mode: u32) -> Seq<char> {
    remote_path + seq![','] + decimal(mode as nat)
}

/// Writes a sync packet.
fn packet(id: [u8; 4], arg: u32, body: &[u8]) -> (p: Vec<u8>)
    ensures
        p@ == spec_packet(id, arg, body@),
{
    let mut p: Vec<u8> = Vec::new();
    p.push(id[0]);
    p.push(id[1]);
    p.push(id[2]);
    p.push(id[3]);
    assert(p@ =~= id@);
    push_u32_le(&mut p, arg);
    p.extend_from_slice(body);
    assert(p@ =~= spec_packet(id, arg, body@));
    p
}

/// The `SEND` request that starts pushing a file to `remote_path` with permissions `mode`.
pub fn send_packet(remote_path: &str, mode: u32) -> (p: Vec<u8>)
    ensures
        ({
            let target = vstd::utf8::encode_utf8(spec_send_target(remote_path@, mode));
            p@ == spec_packet(ID_SEND, target.len() as u32, target)
        }),
{
    let mut target = string_of(remote_path);
    push_char(&mut target, ',');
    push_decimal(&mut target, mode as u64);
    assert(target@ =~= spec_send_target(remote_path@, mode));
    let bytes = target.as_str().as_bytes();
    #[verifier::truncate]
    let len = bytes.len() as u32;
    packet(ID_SEND, len, bytes)
}

/// The `DATA` packets that carry `data`, one per 64 KiB chunk.
pub fn data_packets(data: &[u8]) -> (ps: Vec<Vec<u8>>)
    ensures
        ps@.len() == chunks(data@, SYNC_CHUNK_SIZE as nat).len(),
        forall|k: int|
            0 <= k < ps@.len() ==> #[trigger] ps@[k]@ == ({
                let c = chunks(data@, SYNC_CHUNK_SIZE as nat)[k];
                spec_packet(ID_DATA, c.len() as u32, c)
            }),
{
    let pieces = split_chunks(data, SYNC_CHUNK_SIZE);
    let mut ps: Vec<Vec<u8>> = Vec::new();
    let mut k: usize = 0;
    while k < pieces.len()
        invariant
            k <= pieces@.len(),
            pieces@.len() == chunks(data@, SYNC_CHUNK_SIZE as nat).len(),
            forall|j: int|
                0 <= j < pieces@.len() ==> #[trigger] pieces@[j]@ == chunks(
                    data@,
                    SYNC_CHUNK_SIZE as nat,
                )[j],
            ps@.len() == k,
            forall|j: int|
                0 <= j < k ==> #[trigger] ps@[j]@ == ({
                    let c = chunks(data@, SYNC_CHUNK_SIZE as nat)[j];
                    spec_packet(ID_DATA, c.len() as u32, c)
                }),
        decreases pieces@.len() - k,
    {
        let piece = &pieces[k];
        #[verifier::truncate]
        let len = piece.len() as u32;
        ps.push(packet(ID_DATA, len, piece.as_slice()));
        k = k + 1;
    }
    ps
}

/// The `DONE` packet that ends a push, carrying the modification time in seconds.
pub fn done_packet(last_modified_ms: u64) -> (p: Vec<u8>)
    ensures
        p@ == spec_packet(ID_DONE, (last_modified_ms / 1000) as u32, Seq::empty()),
{
    #[verifier::truncate]
    let seconds = (last_modified_ms / 1000) as u32;
    let empty: Vec<u8> = Vec::new();
    packet(ID_DONE, seconds, empty.as_slice())
}

/// The `RECV` request that asks for the file at `remote_path`.
pub fn recv_packet(remote_path: &str) -> (p: Vec<u8>)
    ensures
        p@ == spec_packet(ID_RECV, remote_path.spec_bytes().len() as u32, remote_path.spec_bytes()),
{
    let bytes = remote_path.as_bytes();
    #[verifier::truncate]
    let len = bytes.len() as u32;
    packet(ID_RECV, len, bytes)
}

/// Whether `buf` holds the id `id` at offset `at`.
fn id_at(buf: &[u8], at: usize, id: [u8; 4]) -> (b: bool)
    requires
        at + 4 <= buf@.len(),
    ensures
        b == (buf@.subrange(at as int, at + 4) == id@),
{
    let b = buf[at] == id[0] && buf[at + 1] == id[1] && buf[at + 2] == id[2] && buf[at + 3] == id[3];
    if b {
        assert(buf@.subrange(at as int, at + 4) =~= id@);
    } else {
        assert(buf@.subrange(at as int, at + 4) != id@) by {
            if buf@.subrange(at as int, at + 4) == id@ {
                assert(buf@.subrange(at as int, at + 4)[0] == id@[0]);
                assert(buf@.subrange(at as int, at + 4)[1] == id@[1]);
                assert(buf@.subrange(at as int, at + 4)[2] == id@[2]);
                assert(buf@.subrange(at as int, at + 4)[3] == id@[3]);
            }
        }
    }
    b
}

/// How a pull ended.
pub enum PullEnd {
    /// The device sent `DONE`, or the stream ended between packets.
    Done,
    /// The device sent `FAIL` with these reason bytes.
    Fail(Seq<u8>),
    /// The device sent a packet with this unknown id.
    Unexpected(Seq<u8>),
}

/// The state of a pull while the file arrives.
pub struct PullView {
    pub buf: Seq<u8>,
    pub data: Seq<u8>,
    pub end: Option<PullEnd>,
}

/// Consumes the packets at the front of the pending bytes: `DATA` bodies are
/// collected, `DONE` and `FAIL` end the pull, any other id is a protocol error.
/// An incomplete packet waits for more bytes.
pub open spec fn pull_drain(s: PullView) -> PullView
    decreases s.buf.len(),
{
    if s.buf.len() < 8 {
        s
    } else {
        let id = s.buf.take(4);
        let arg = le_u32_at(s.buf, 4);
        if id == ID_DONE@ {
            PullView { buf: s.buf.skip(8), end: Some(PullEnd::Done), ..s }
        } else if id == ID_FAIL@ {
            if s.buf.len() - 8 < arg {
                s
            } else {
                PullView { end: Some(PullEnd::Fail(s.buf.subrange(8, 8 + arg))), ..s }
            }
        } else if id == ID_DATA@ {
            if s.buf.len() - 8 < arg {
                s
            } else {
                pull_drain(
                    PullView {
                        buf: s.buf.skip(8 + arg),
                        data: s.data + s.buf.subrange(8, 8 + arg),
                        ..s
                    },
                )
            }
        } else {
            PullView { end: Some(PullEnd::Unexpected(id)), ..s }
        }
    }
}

/// The pull after the device sent `chunk`; an empty chunk with nothing pending ends it.
pub open spec fn pull_on_chunk(s: PullView, chunk: Seq<u8>) -> PullView {
    if chunk.len() == 0 && s.buf.len() == 0 {
        PullView { end: Some(PullEnd::Done), ..s }
    } else {
        pull_drain(PullView { buf: s.buf + chunk, ..s })
    }
}

/// The text of the protocol error for an unknown packet id in a pull.
pub open spec fn unexpected_pull_text(id: Seq<u8>) -> Seq<char> {
    "Unexpected SYNC packet header: "@ + spec_debug_str(spec_utf8_lossy(id))
}

/// The text of the protocol error for an unknown reply id after a push.
pub open spec fn unexpected_reply_text(id: Seq<u8>) -> Seq<char> {
    "Unexpected SYNC response ID: "@ + spec_debug_str(spec_utf8_lossy(id))
}

/// Collects a file pulled from the device.
pub struct PullSession {
    buf: Vec<u8>,
    data: Vec<u8>,
    end: u8,
    detail: Vec<u8>,
}

impl View for PullSession {
    type V = PullView;

    closed spec fn view(&self) -> PullView {
        PullView {
            buf: self.buf@,
            data: self.data@,
            end: if self.end == 0 {
                None
            } else if self.end == 1 {
                Some(PullEnd::Done)
            } else if self.end == 2 {
                Some(PullEnd::Fail(self.detail@))
            } else {
                Some(PullEnd::Unexpected(self.detail@))
            },
        }
    }
}

impl PullSession {
    /// A pull before anything has arrived.
    pub fn new() -> (s: Self)
        ensures
            s@ == (PullView { buf: Seq::empty(), data: Seq::empty(), end: None }),
    {
        PullSession { buf: Vec::new(), data: Vec::new(), end: 0, detail: Vec::new() }
    }

    /// Whether the pull still wants bytes from the device.
    pub fn needs_chunk(&self) -> (b: bool)
        ensures
            b == (self@.end is None),
    {
        self.end == 0
    }

    /// Takes in the next chunk the device sent.
    pub fn on_chunk(&mut self, chunk: &[u8])
        requires
            old(self)@.end is None,
        ensures
            final(self)@ == pull_on_chunk(old(self)@, chunk@),
    {
        if chunk.len() == 0 && self.buf.len() == 0 {
            self.end = 1;
            return;
        }
        self.buf.extend_from_slice(chunk);
        assert(self.buf@ =~= old(self)@.buf + chunk@);
        let ghost init = PullView { buf: old(self)@.buf + chunk@, ..old(self)@ };
        let mut rest: Vec<u8> = Vec::new();
        std::mem::swap(&mut rest, &mut self.buf);
        let mut p: usize = 0;
        assert(rest@.skip(0) =~= rest@);
        assert(pull_on_chunk(old(self)@, chunk@) == pull_drain(init));
        loop
            invariant
                pull_on_chunk(old(self)@, chunk@) == pull_drain(init),
                p <= rest@.len(),
                self.end == 0,
                pull_drain(init) == pull_drain(PullView { buf: rest@.skip(p as int), ..self@ }),
            decreases rest@.len() - p,
        {
            let ghost b = rest@.skip(p as int);
            let ghost cur = PullView { buf: b, ..self@ };
            if rest.len() - p < 8 {
                self.buf = copy_range(rest.as_slice(), p, rest.len());
                assert(self.buf@ =~= b);
                assert(pull_drain(cur) == cur);
                assert(self@ == cur);
                return;
            }
            let arg = read_u32_le(rest.as_slice(), p + 4);
            proof {
                assert(le_u32_at(b, 4) == le_u32_at(rest@, p + 4));
                assert(b.take(4) =~= rest@.subrange(p as int, p + 4));
            }
            if id_at(rest.as_slice(), p, ID_DONE) {
                self.buf = copy_range(rest.as_slice(), p + 8, rest.len());
                self.end = 1;
                assert(self.buf@ =~= b.skip(8));
                assert(self@ == pull_drain(cur));
                return;
            } else if id_at(rest.as_slice(), p, ID_FAIL) {
                self.buf = copy_range(rest.as_slice(), p, rest.len());
                assert(self.buf@ =~= b);
                if rest.len() - p - 8 < arg as usize {
                    return;
                }
                self.detail = copy_range(rest.as_slice(), p + 8, p + 8 + arg as usize);
                self.end = 2;
                assert(self.detail@ =~= b.subrange(8, 8 + arg));
                return;
            } else if id_at(rest.as_slice(), p, ID_DATA) {
                if rest.len() - p - 8 < arg as usize {
                    self.buf = copy_range(rest.as_slice(), p, rest.len());
                    assert(self.buf@ =~= b);
                    return;
                }
                let body = copy_range(rest.as_slice(), p + 8, p + 8 + arg as usize);
                self.data.extend_from_slice(body.as_slice());
                proof {
                    assert(body@ =~= b.subrange(8, 8 + arg));
                    assert(self.data@ =~= cur.data + b.subrange(8, 8 + arg));
                    assert(rest@.skip(p + 8 + arg) =~= b.skip(8 + arg));
                    assert(b.take(4) != ID_DONE@);
                    assert(b.take(4) != ID_FAIL@);
                    assert(pull_drain(cur) == pull_drain(
                        PullView { buf: rest@.skip(p + 8 + arg), ..self@ },
                    ));
                }
                p = p + 8 + arg as usize;
            } else {
                self.buf = copy_range(rest.as_slice(), p, rest.len());
                self.detail = copy_range(rest.as_slice(), p, p + 4);
                self.end = 3;
                assert(self.buf@ =~= b);
                assert(self.detail@ =~= b.take(4));
                return;
            }
        }
    }

    /// The outcome of a finished pull: the file's bytes, the device's reason for
    /// refusing, or a protocol error for an unknown packet id.
    pub fn finish(self) -> (r: core::result::Result<core::result::Result<Vec<u8>, String>, AdbError>)
        requires
            self@.end is Some,
        ensures
            match self@.end {
                Some(PullEnd::Done) => r matches Ok(Ok(d)) && d@ == self@.data,
                Some(PullEnd::Fail(reason)) => r matches Ok(Err(m)) && m@ == spec_utf8_lossy(reason),
                Some(PullEnd::Unexpected(id)) => r matches Err(AdbError::Protocol(m)) && m@
                    == unexpected_pull_text(id),
                None => false,
            },
    {
        if self.end == 1 {
            Ok(Ok(self.data))
        } else if self.end == 2 {
            Ok(Err(utf8_lossy(self.detail.as_slice())))
        } else {
            let id_text = utf8_lossy(self.detail.as_slice());
            let quoted = debug_str(id_text.as_str());
            let mut m = string_of("Unexpected SYNC packet header: ");
            push_str(&mut m, quoted.as_str());
            Err(AdbError::Protocol(m))
        }
    }
}

/// How the reply to a push ended.
pub enum ReplyEnd {
    /// The stream ended before a reply arrived.
    Eof,
    /// The device sent `OKAY`.
    Okay,
    /// The device sent `FAIL` with these reason bytes.
    Fail(Seq<u8>),
    /// The device sent a reply with this unknown id.
    Unexpected(Seq<u8>),
}

/// The reply to a push while it arrives.
pub struct ReplyView {
    pub buf: Seq<u8>,
    pub end: Option<ReplyEnd>,
}

/// The reply after the device sent `chunk`.
pub open spec fn reply_on_chunk(s: ReplyView, chunk: Seq<u8>) -> ReplyView {
    if chunk.len() == 0 && s.buf.len() == 0 {
        ReplyView { end: Some(ReplyEnd::Eof), ..s }
    } else {
        let b = s.buf + chunk;
        if b.len() >= 8 {
            let id = b.take(4);
            let arg = le_u32_at(b, 4);
            if id == ID_OKAY@ {
                ReplyView { buf: b, end: Some(ReplyEnd::Okay) }
            } else if id == ID_FAIL@ {
                if b.len() - 8 >= arg {
                    ReplyView { buf: b, end: Some(ReplyEnd::Fail(b.subrange(8, 8 + arg))) }
                } else {
                    ReplyView { buf: b, end: None }
                }
            } else {
                ReplyView { buf: b, end: Some(ReplyEnd::Unexpected(id)) }
            }
        } else {
            ReplyView { buf: b, end: None }
        }
    }
}

/// Reads the device's `OKAY` or `FAIL` reply after a push.
pub struct ReplySession {
    buf: Vec<u8>,
    end: u8,
    detail: Vec<u8>,
}

impl View for ReplySession {
    type V = ReplyView;

    closed spec fn view(&self) -> ReplyView {
        ReplyView {
            buf: self.buf@,
            end: if self.end == 0 {
                None
            } else if self.end == 1 {
                Some(ReplyEnd::Eof)
            } else if self.end == 2 {
                Some(ReplyEnd::Okay)
            } else if self.end == 3 {
                Some(ReplyEnd::Fail(self.detail@))
            } else {
                Some(ReplyEnd::Unexpected(self.detail@))
            },
        }
    }
}

impl ReplySession {
    /// A reply before anything has arrived.
    pub fn new() -> (s: Self)
        ensures
            s@ == (ReplyView { buf: Seq::empty(), end: None }),
    {
        ReplySession { buf: Vec::new(), end: 0, detail: Vec::new() }
    }

    /// Whether the reply is still incomplete.
    pub fn needs_chunk(&self) -> (b: bool)
        ensures
            b == (self@.end is None),
    {
        self.end == 0
    }

    /// Takes in the next chunk the device sent.
    pub fn on_chunk(&mut self, chunk: &[u8])
        requires
            old(self)@.end is None,
        ensures
            final(self)@ == reply_on_chunk(old(self)@, chunk@),
    {
        if chunk.len() == 0 && self.buf.len() == 0 {
            self.end = 1;
            return;
        }
        self.buf.extend_from_slice(chunk);
        assert(self.buf@ =~= old(self)@.buf + chunk@);
        if self.buf.len() >= 8 {
            let arg = read_u32_le(self.buf.as_slice(), 4);
            assert(self.buf@.take(4) =~= self.buf@.subrange(0, 4));
            if id_at(self.buf.as_slice(), 0, ID_OKAY) {
                self.end = 2;
            } else if id_at(self.buf.as_slice(), 0, ID_FAIL) {
                if self.buf.len() - 8 >= arg as usize {
                    self.detail = copy_range(self.buf.as_slice(), 8, 8 + arg as usize);
                    self.end = 3;
                }
            } else {
                self.detail = copy_range(self.buf.as_slice(), 0, 4);
                self.end = 4;
            }
        }
    }

    /// The outcome of a finished reply.
    pub fn finish(self) -> (r: core::result::Result<SyncResult, AdbError>)
        requires
            self@.end is Some,
        ensures
            match self@.end {
                Some(ReplyEnd::Eof) => r matches Err(AdbError::ConnectionClosed(m)) && m@
                    == "EOF reading SYNC response"@,
                Some(ReplyEnd::Okay) => r matches Ok(SyncResult::Success),
                Some(ReplyEnd::Fail(reason)) => r matches Ok(SyncResult::Failure(m)) && m@
                    == spec_utf8_lossy(reason),
                Some(ReplyEnd::Unexpected(id)) => r matches Err(AdbError::Protocol(m)) && m@
                    == unexpected_reply_text(id),
                None => false,
            },
    {
        if self.end == 1 {
            Err(AdbError::ConnectionClosed(string_of("EOF reading SYNC response")))
        } else if self.end == 2 {
            Ok(SyncResult::Success)
        } else if self.end == 3 {
            Ok(SyncResult::Failure(utf8_lossy(self.detail.as_slice())))
        } else {
            let id_text = utf8_lossy(self.detail.as_slice());
            let quoted = debug_str(id_text.as_str());
            let mut m = string_of("Unexpected SYNC response ID: ");
            push_str(&mut m, quoted.as_str());
            Err(AdbError::Protocol(m))
        }
    }
}

/// The `DATA` packet that carries one piece of a file.
pub open spec fn data_packet(piece: Seq<u8>) -> Seq<u8> {
    spec_packet(ID_DATA, piece.len() as u32, piece)
}

/// The bytes of the `DATA` packets that carry `data`, as [`data_packets`] writes them.
pub open spec fn spec_data_stream(data: Seq<u8>) -> Seq<u8> {
    flatten(chunks(data, SYNC_CHUNK_SIZE as nat).map_values(|c: Seq<u8>| data_packet(c)))
}

proof fn lemma_packet_fields(id: [u8; 4], arg: u32, body: Seq<u8>, tail: Seq<u8>)
    ensures
        ({
            let buf = spec_packet(id, arg, body) + tail;
            &&& buf.len() == 8 + body.len() + tail.len()
            &&& buf.take(4) == id@
            &&& le_u32_at(buf, 4) == arg
            &&& buf.subrange(8, 8 + body.len() as int) == body
            &&& buf.skip(8 + body.len() as int) == tail
        }),
{
    let buf = spec_packet(id, arg, body) + tail;
    lemma_le_value_of_bytes(arg);
    assert(buf.take(4) =~= id@);
    assert(buf.subrange(4, 8) =~= le_bytes(arg));
    assert(le_u32_at(buf, 4) == le_u32_at(le_bytes(arg), 0));
    assert(buf.subrange(8, 8 + body.len() as int) =~= body);
    assert(buf.skip(8 + body.len() as int) =~= tail);
}

proof fn lemma_pull_reads_data_packets(pieces: Seq<Seq<u8>>, tail: Seq<u8>, acc: Seq<u8>)
    requires
        forall|k: int| 0 <= k < pieces.len() ==> (#[trigger] pieces[k]).len() <= SYNC_CHUNK_SIZE,
    ensures
        pull_drain(
            PullView {
                buf: flatten(pieces.map_values(|c: Seq<u8>| data_packet(c))) + tail,
                data: acc,
                end: None,
            },
        ) == pull_drain(PullView { buf: tail, data: acc + flatten(pieces), end: None }),
    decreases pieces.len(),
{
    let ps = pieces.map_values(|c: Seq<u8>| data_packet(c));
    if pieces.len() == 0 {
        assert(flatten(ps) =~= Seq::<u8>::empty());
        assert(flatten(ps) + tail =~= tail);
        assert(acc + flatten(pieces) =~= acc);
    } else {
        let p0 = pieces[0];
        let rest = pieces.drop_first();
        assert(ps.drop_first() =~= rest.map_values(|c: Seq<u8>| data_packet(c)));
        let rest_bytes = flatten(rest.map_values(|c: Seq<u8>| data_packet(c)));
        assert(flatten(ps) == data_packet(p0) + rest_bytes);
        let buf = data_packet(p0) + rest_bytes + tail;
        assert(flatten(ps) + tail =~= data_packet(p0) + (rest_bytes + tail));
        assert(p0.len() <= SYNC_CHUNK_SIZE);
        lemma_packet_fields(ID_DATA, p0.len() as u32, p0, rest_bytes + tail);
        assert(ID_DATA@ != ID_DONE@) by {
            assert(ID_DATA@[1] != ID_DONE@[1]);
        }
        assert(ID_DATA@ != ID_FAIL@) by {
            assert(ID_DATA@[0] != ID_FAIL@[0]);
        }
        assert forall|k: int| 0 <= k < rest.len() implies (#[trigger] rest[k]).len() <= SYNC_CHUNK_SIZE by {
            assert(rest[k] == pieces[k + 1]);
        }
        lemma_pull_reads_data_packets(rest, tail, acc + p0);
        assert(acc + p0 + flatten(rest) =~= acc + flatten(pieces));
    }
}

/// What a pull reads back of a push: the `DATA` packets written for `data`,
/// followed by a `DONE` packet, end the pull successfully with exactly `data`,
/// leaving whatever follows untouched.
pub proof fn lemma_pull_reads_pushed_data(data: Seq<u8>, seconds: u32, rest: Seq<u8>)
    ensures
        pull_drain(
            PullView {
                buf: spec_data_stream(data) + spec_packet(ID_DONE, seconds, Seq::empty()) + rest,
                data: Seq::empty(),
                end: None,
            },
        ) == (PullView { buf: rest, data: data, end: Some(PullEnd::Done) }),
{
    let pieces = chunks(data, SYNC_CHUNK_SIZE as nat);
    lemma_chunks_partition(data, SYNC_CHUNK_SIZE as nat);
    let done = spec_packet(ID_DONE, seconds, Seq::empty());
    assert(spec_data_stream(data) + done + rest =~= spec_data_stream(data) + (done + rest));
    lemma_pull_reads_data_packets(pieces, done + rest, Seq::empty());
    lemma_packet_fields(ID_DONE, seconds, Seq::empty(), rest);
    assert(Seq::<u8>::empty() + flatten(pieces) =~= data);
    assert(done + rest =~= spec_packet(ID_DONE, seconds, Seq::empty()) + rest);
}

proof fn lemma_pull_drain_append(s: PullView, extra: Seq<u8>)
    requires
        s.end is None,
        pull_drain(s).end is None,
    ensures
        pull_drain(PullView { buf: s.buf + extra, ..s }) == pull_drain(
            PullView { buf: pull_drain(s).buf + extra, ..pull_drain(s) },
        ),
    decreases s.buf.len(),
{
    let t = PullView { buf: s.buf + extra, ..s };
    if s.buf.len() >= 8 {
        let id = s.buf.take(4);
        let arg = le_u32_at(s.buf, 4);
        assert(t.buf.take(4) =~= id);
        assert(le_u32_at(t.buf, 4) == arg);
        if id == ID_DATA@ && s.buf.len() - 8 >= arg {
            assert(ID_DATA@ != ID_DONE@) by {
                assert(ID_DATA@[1] != ID_DONE@[1]);
            }
            assert(ID_DATA@ != ID_FAIL@) by {
                assert(ID_DATA@[0] != ID_FAIL@[0]);
            }
            assert(t.buf.subrange(8, 8 + arg) =~= s.buf.subrange(8, 8 + arg));
            assert(t.buf.skip(8 + arg) =~= s.buf.skip(8 + arg) + extra);
            let s1 = PullView { buf: s.buf.skip(8 + arg), data: s.data + s.buf.subrange(8, 8 + arg), ..s };
            lemma_pull_drain_append(s1, extra);
            assert(PullView { buf: t.buf.skip(8 + arg), data: t.data + t.buf.subrange(8, 8 + arg), ..t }
                == PullView { buf: s1.buf + extra, ..s1 });
        }
    }
}

/// However the device splits a pull's replies into chunks, the pull ends up in
/// the same state: while a first chunk `a` leaves the pull unfinished, taking in
/// `a` and then `b` equals taking in `a + b` at once.
pub proof fn lemma_pull_chunking_irrelevant(s: PullView, a: Seq<u8>, b: Seq<u8>)
    requires
        s.end is None,
        a.len() > 0,
        b.len() > 0,
        pull_on_chunk(s, a).end is None,
    ensures
        pull_on_chunk(pull_on_chunk(s, a), b) == pull_on_chunk(s, a + b),
{
    let s0 = PullView { buf: s.buf + a, ..s };
    lemma_pull_drain_append(s0, b);
    assert(s.buf + a + b =~= s.buf + (a + b));
}

/// However the device splits its reply to a push into chunks, the reply reads
/// the same: while a first chunk `a` leaves it incomplete, taking in `a` and
/// then `b` equals taking in `a + b` at once.
pub proof fn lemma_reply_chunking_irrelevant(s: ReplyView, a: Seq<u8>, b: Seq<u8>)
    requires
        s.end is None,
        a.len() > 0,
        b.len() > 0,
        reply_on_chunk(s, a).end is None,
    ensures
        reply_on_chunk(reply_on_chunk(s, a), b) == reply_on_chunk(s, a + b),
{
    assert(s.buf + a + b =~= s.buf + (a + b));
}

} // verus!
