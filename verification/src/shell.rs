//! Shell sessions: v1 raw output, and v2 framed stdout/stderr/exit packets.
use vstd::prelude::*;
use vstd::string::*;

use crate::constants::{SHELL_ID_EXIT, SHELL_ID_STDERR, SHELL_ID_STDOUT};
use crate::text::{push_str, spec_utf8_lossy, utf8_lossy};
use crate::wire::{copy_range, le_bytes, le_u32_at, lemma_le_value_of_bytes, read_u32_le};

verus! {

/// What a shell command printed and how it exited.
#[derive(Debug, Clone, PartialEq, Eq)]
pub struct AdbShellResponse {
    pub output: String,
    pub error_output: String,
    pub exit_code: i32,
}

impl AdbShellResponse {
    /// Standard output followed by standard error.
    pub fn all_output(&self) -> (all: String)
        ensures
            all@ == self.output@ + self.error_output@,
    {
        let mut all = self.output.clone();
        push_str(&mut all, self.error_output.as_str());
        all
    }
}

/// The mode a shell session speaks: v1 (raw stream) or v2 (framed packets).
pub struct AdbShell {
    is_v2: bool,
}

impl AdbShell {
    /// Whether this shell speaks the framed v2 protocol.
    pub closed spec fn spec_is_v2(&self) -> bool {
        self.is_v2
    }

    /// A shell speaking v2 when `is_v2` holds, v1 otherwise.
    pub fn new(is_v2: bool) -> (shell: Self)
        ensures
            shell.spec_is_v2() == is_v2,
    {
        Self { is_v2 }
    }

    /// Whether this shell speaks the framed v2 protocol.
    pub fn is_v2(&self) -> (b: bool)
        ensures
            b == self.spec_is_v2(),
    {
        self.is_v2
    }

    /// A fresh session that collects this shell's output.
    pub fn session(&self) -> (s: ShellSession)
        ensures
            s@ == initial_session(self.spec_is_v2()),
    {
        ShellSession::new(self.is_v2)
    }
}

/// The state of a shell session while its output arrives.
pub struct ShellView {
    pub is_v2: bool,
    pub finished: bool,
    pub raw: Seq<u8>,
    pub buf: Seq<u8>,
    pub output: Seq<char>,
    pub error_output: Seq<char>,
    pub exit_code: i32,
    pub exited: bool,
}

/// A session before any output has arrived.
pub open spec fn initial_session(is_v2: bool) -> ShellView {
    ShellView {
        is_v2,
        finished: false,
        raw: Seq::empty(),
        buf: Seq::empty(),
        output: Seq::empty(),
        error_output: Seq::empty(),
        exit_code: 0,
        exited: false,
    }
}

/// Whether `buf` starts with a whole v2 packet: a one-byte id, a little-endian
/// `u32` length and that many payload bytes.
pub open spec fn has_packet(buf: Seq<u8>) -> bool {
    buf.len() >= 5 && buf.len() - 5 >= le_u32_at(buf, 1)
}

/// The length of the v2 packet at the front of `buf`, header included.
pub open spec fn packet_len(buf: Seq<u8>) -> int {
    5 + le_u32_at(buf, 1)
}

/// The effect of one v2 packet: stdout and stderr text is appended, an exit
/// packet records the first payload byte as the exit code and ends the command.
pub open spec fn apply_packet(s: ShellView, id: u8, payload: Seq<u8>) -> ShellView {
    if id == SHELL_ID_STDOUT {
        ShellView { output: s.output + spec_utf8_lossy(payload), ..s }
    } else if id == SHELL_ID_STDERR {
        ShellView { error_output: s.error_output + spec_utf8_lossy(payload), ..s }
    } else if id == SHELL_ID_EXIT {
        ShellView {
            exit_code: if payload.len() > 0 {
                payload[0] as i32
            } else {
                s.exit_code
            },
            exited: true,
            ..s
        }
    } else {
        s
    }
}

/// Consumes every whole packet at the front of the pending bytes.
pub open spec fn drain(s: ShellView) -> ShellView
    decreases s.buf.len(),
{
    if has_packet(s.buf) {
        let n = packet_len(s.buf);
        drain(
            apply_packet(
                ShellView { buf: s.buf.skip(n), ..s },
                s.buf[0],
                s.buf.subrange(5, n),
            ),
        )
    } else {
        s
    }
}

/// Whether the session still wants output from the device.
pub open spec fn needs_chunk(s: ShellView) -> bool {
    !s.finished && (s.is_v2 ==> !(s.exited && s.buf.len() == 0))
}

/// The session after the device sent `chunk`; an empty chunk means the stream ended.
pub open spec fn on_chunk(s: ShellView, chunk: Seq<u8>) -> ShellView {
    if !s.is_v2 {
        if chunk.len() == 0 {
            ShellView { finished: true, ..s }
        } else {
            ShellView { raw: s.raw + chunk, ..s }
        }
    } else if chunk.len() == 0 && s.buf.len() == 0 {
        ShellView { finished: true, ..s }
    } else {
        drain(ShellView { buf: s.buf + chunk, ..s })
    }
}

/// Standard output as the session reports it: the lossy text of everything
/// received in v1, the stdout packets in v2.
pub open spec fn response_output(s: ShellView) -> Seq<char> {
    if s.is_v2 {
        s.output
    } else {
        spec_utf8_lossy(s.raw)
    }
}

/// Collects the output of one shell command.
pub struct ShellSession {
    is_v2: bool,
    finished: bool,
    raw: Vec<u8>,
    buf: Vec<u8>,
    output: String,
    error_output: String,
    exit_code: i32,
    exited: bool,
}

impl View for ShellSession {
    type V = ShellView;

    closed spec fn view(&self) -> ShellView {
        ShellView {
            is_v2: self.is_v2,
            finished: self.finished,
            raw: self.raw@,
            buf: self.buf@,
            output: self.output@,
            error_output: self.error_output@,
            exit_code: self.exit_code,
            exited: self.exited,
        }
    }
}

impl ShellSession {
    /// A session before any output has arrived.
    pub fn new(is_v2: bool) -> (s: Self)
        ensures
            s@ == initial_session(is_v2),
    {
        let s = ShellSession {
            is_v2,
            finished: false,
            raw: Vec::new(),
            buf: Vec::new(),
            output: String::new(),
            error_output: String::new(),
            exit_code: 0,
            exited: false,
        };
        s
    }

    /// Whether the session still wants output from the device.
    pub fn needs_chunk(&self) -> (b: bool)
        ensures
            b == needs_chunk(self@),
    {
        !self.finished && (!self.is_v2 || !(self.exited && self.buf.len() == 0))
    }

    fn apply(&mut self, id: u8, payload: &[u8])
        ensures
            final(self)@ == apply_packet(old(self)@, id, payload@),
    {
        if id == SHELL_ID_STDOUT {
            let text = utf8_lossy(payload);
            push_str(&mut self.output, text.as_str());
        } else if id == SHELL_ID_STDERR {
            let text = utf8_lossy(payload);
            push_str(&mut self.error_output, text.as_str());
        } else if id == SHELL_ID_EXIT {
            if payload.len() > 0 {
                self.exit_code = payload[0] as i32;
            }
            self.exited = true;
        }
    }

    fn drain_pending(&mut self)
        ensures
            final(self)@ == drain(old(self)@),
    {
        let mut rest: Vec<u8> = Vec::new();
        std::mem::swap(&mut rest, &mut self.buf);
        let mut p: usize = 0;
        let ghost init = old(self)@;
        assert(rest@.skip(0) =~= rest@);
        while rest.len() - p >= 5 && rest.len() - p - 5 >= read_u32_le(rest.as_slice(), p + 1) as usize
            invariant
                p <= rest@.len(),
                drain(init) == drain(ShellView { buf: rest@.skip(p as int), ..self@ }),
            decreases rest@.len() - p,
        {
            let ghost b = rest@.skip(p as int);
            let n = read_u32_le(rest.as_slice(), p + 1) as usize;
            proof {
                assert(le_u32_at(b, 1) == le_u32_at(rest@, p + 1));
                assert(has_packet(b));
            }
            let id = rest[p];
            let payload = copy_range(rest.as_slice(), p + 5, p + 5 + n);
            proof {
                assert(b[0] == id);
                assert(b.subrange(5, packet_len(b)) =~= payload@);
                assert(b.skip(packet_len(b)) =~= rest@.skip(p + 5 + n));
            }
            self.apply(id, payload.as_slice());
            p = p + 5 + n;
        }
        let tail = copy_range(rest.as_slice(), p, rest.len());
        proof {
            let b = rest@.skip(p as int);
            assert(tail@ =~= b);
            assert(b.len() >= 5 ==> le_u32_at(b, 1) == le_u32_at(rest@, p + 1));
            assert(!has_packet(b));
        }
        self.buf = tail;
    }

    /// Takes in the next chunk the device sent; an empty chunk means the stream ended.
    pub fn on_chunk(&mut self, chunk: &[u8])
        ensures
            final(self)@ == on_chunk(old(self)@, chunk@),
    {
        if !self.is_v2 {
            if chunk.len() == 0 {
                self.finished = true;
            } else {
                self.raw.extend_from_slice(chunk);
                assert(self.raw@ =~= old(self)@.raw + chunk@);
            }
        } else if chunk.len() == 0 && self.buf.len() == 0 {
            self.finished = true;
        } else {
            self.buf.extend_from_slice(chunk);
            assert(self.buf@ =~= old(self)@.buf + chunk@);
            assert(self@ == ShellView { buf: old(self)@.buf + chunk@, ..old(self)@ });
            self.drain_pending();
        }
    }

    /// The response the session has collected so far.
    pub fn response(&self) -> (r: AdbShellResponse)
        ensures
            r.output@ == response_output(self@),
            r.error_output@ == (if self@.is_v2 {
                self@.error_output
            } else {
                Seq::empty()
            }),
            r.exit_code == (if self@.is_v2 {
                self@.exit_code
            } else {
                0
            }),
    {
        if self.is_v2 {
            AdbShellResponse {
                output: self.output.clone(),
                error_output: self.error_output.clone(),
                exit_code: self.exit_code,
            }
        } else {
            AdbShellResponse {
                output: utf8_lossy(self.raw.as_slice()),
                error_output: String::new(),
                exit_code: 0,
            }
        }
    }
}

proof fn lemma_drain_append(s: ShellView, extra: Seq<u8>)
    ensures
        drain(ShellView { buf: s.buf + extra, ..s }) == drain(
            ShellView { buf: drain(s).buf + extra, ..drain(s) },
        ),
    decreases s.buf.len(),
{
    let t = ShellView { buf: s.buf + extra, ..s };
    if has_packet(s.buf) {
        let n = packet_len(s.buf);
        assert(le_u32_at(t.buf, 1) == le_u32_at(s.buf, 1));
        assert(has_packet(t.buf));
        assert(t.buf[0] == s.buf[0]);
        assert(t.buf.subrange(5, n) =~= s.buf.subrange(5, n));
        assert(t.buf.skip(n) =~= s.buf.skip(n) + extra);
        let s1 = apply_packet(ShellView { buf: s.buf.skip(n), ..s }, s.buf[0], s.buf.subrange(5, n));
        let t1 = apply_packet(ShellView { buf: t.buf.skip(n), ..t }, t.buf[0], t.buf.subrange(5, n));
        assert(t1 == ShellView { buf: s1.buf + extra, ..s1 });
        lemma_drain_append(s1, extra);
    } else {
        assert(drain(s) == s);
        assert(ShellView { buf: s.buf + extra, ..s } == ShellView { buf: drain(s).buf + extra, ..drain(s) });
    }
}

/// However the device splits a v2 stream into chunks, the session ends up in the
/// same state: taking in `a` and then `b` equals taking in `a + b` at once.
pub proof fn lemma_v2_chunking_irrelevant(s: ShellView, a: Seq<u8>, b: Seq<u8>)
    requires
        s.is_v2,
        a.len() > 0,
        b.len() > 0,
    ensures
        on_chunk(on_chunk(s, a), b) == on_chunk(s, a + b),
{
    let s0 = ShellView { buf: s.buf + a, ..s };
    lemma_drain_append(s0, b);
    assert(s.buf + a + b =~= s.buf + (a + b));
    lemma_drain_preserves_mode(s0);
}

proof fn lemma_drain_preserves_mode(s: ShellView)
    ensures
        drain(s).is_v2 == s.is_v2,
        drain(s).finished == s.finished,
    decreases s.buf.len(),
{
    if has_packet(s.buf) {
        let n = packet_len(s.buf);
        lemma_drain_preserves_mode(
            apply_packet(ShellView { buf: s.buf.skip(n), ..s }, s.buf[0], s.buf.subrange(5, n)),
        );
    }
}

/// Taking in packets never loses text: what was collected before stays at the front.
proof fn lemma_drain_keeps_text(s: ShellView)
    ensures
        s.output.is_prefix_of(drain(s).output),
        s.error_output.is_prefix_of(drain(s).error_output),
    decreases s.buf.len(),
{
    if has_packet(s.buf) {
        let n = packet_len(s.buf);
        let t = apply_packet(ShellView { buf: s.buf.skip(n), ..s }, s.buf[0], s.buf.subrange(5, n));
        assert(s.output.is_prefix_of(t.output));
        assert(s.error_output.is_prefix_of(t.error_output));
        lemma_drain_keeps_text(t);
    }
}

/// A v2 session never loses output: whatever chunk arrives, the stdout and
/// stderr text collected before it stays, unchanged, at the front.
pub proof fn lemma_v2_output_only_grows(s: ShellView, chunk: Seq<u8>)
    requires
        s.is_v2,
    ensures
        s.output.is_prefix_of(on_chunk(s, chunk).output),
        s.error_output.is_prefix_of(on_chunk(s, chunk).error_output),
{
    if !(chunk.len() == 0 && s.buf.len() == 0) {
        lemma_drain_keeps_text(ShellView { buf: s.buf + chunk, ..s });
    }
}

/// A v2 stdout packet: the id, the little-endian length and the payload.
pub open spec fn stdout_packet(payload: Seq<u8>) -> Seq<u8> {
    seq![SHELL_ID_STDOUT] + le_bytes(payload.len() as u32) + payload
}

/// A whole stdout packet adds its text to the output: the output afterwards is
/// the output before followed by the lossy text of the payload, and stderr, the
/// exit status and the pending bytes are as they were.
pub proof fn lemma_stdout_packet_appends(s: ShellView, payload: Seq<u8>)
    requires
        s.is_v2,
        s.buf.len() == 0,
        payload.len() <= u32::MAX,
    ensures
        on_chunk(s, stdout_packet(payload)).output == s.output + spec_utf8_lossy(payload),
        on_chunk(s, stdout_packet(payload)).error_output == s.error_output,
        on_chunk(s, stdout_packet(payload)).exited == s.exited,
        on_chunk(s, stdout_packet(payload)).buf.len() == 0,
{
    let c = stdout_packet(payload);
    let len = payload.len() as u32;
    lemma_le_value_of_bytes(len);
    let b = s.buf + c;
    assert(b =~= c);
    assert(le_u32_at(c, 1) == le_u32_at(le_bytes(len), 0));
    assert(has_packet(c));
    assert(packet_len(c) == c.len());
    assert(c.subrange(5, packet_len(c)) =~= payload);
    assert(c.skip(packet_len(c)) =~= Seq::<u8>::empty());
    let s0 = ShellView { buf: c, ..s };
    assert(c.len() > 0);
    assert(on_chunk(s, c) == drain(s0));
    assert(c[0] == SHELL_ID_STDOUT);
    let t = apply_packet(ShellView { buf: c.skip(packet_len(c)), ..s0 }, c[0], c.subrange(5, packet_len(c)));
    assert(drain(s0) == drain(t));
    assert(!has_packet(t.buf));
    assert(drain(t) == t);
    assert(t.output == s.output + spec_utf8_lossy(payload));
}

} // verus!
