//! The local ADB host server: addressing, request framing, replies and the device list.
use vstd::prelude::*;
use vstd::string::*;

use crate::error::AdbError;
use crate::text::{
    debug_str, decimal, find, find_from, matches_at, spec_debug_str, spec_utf8_lossy, utf8_lossy, hex, push_char, push_decimal, push_hex4, push_str, split_chars, split_on,
    split_once, split_once_chars, str_chars, str_from_utf8, string_from_chars, string_of, trim,
    trim_chars, zero_pad4,
};

verus! {

/// Default TCP port for the local ADB host server daemon.
pub const ADB_SERVER_PORT: u16 = 5037;

/// Descriptor representing a device listed by the ADB host server.
#[derive(Debug, Clone, PartialEq, Eq)]
pub struct AdbDeviceDescriptor {
    /// Device serial number or address (e.g. `"emulator-5554"` or `"127.0.0.1:5555"`).
    pub serial: String,
    /// Connection state (e.g. `"device"`, `"offline"`, `"unauthorized"`).
    pub state: String,
}

/// Client for communicating with a local ADB host server daemon.
pub struct AdbServer {
    host: String,
    port: u16,
}

/// Utilities for locating and executing the system `adb` command-line binary.
pub struct AdbBinary;

impl AdbServer {
    /// The host the server listens on.
    pub closed spec fn spec_host(&self) -> Seq<char> {
        self.host@
    }

    /// The port the server listens on.
    pub closed spec fn spec_port(&self) -> u16 {
        self.port
    }

    /// A server at `host` and `port`.
    pub fn new(host: &str, port: u16) -> (s: Self)
        ensures
            s.spec_host() == host@,
            s.spec_port() == port,
    {
        AdbServer { host: string_of(host), port }
    }

    /// The server at `127.0.0.1:5037`.
    pub fn default_local() -> (s: Self)
        ensures
            s.spec_host() == "127.0.0.1"@,
            s.spec_port() == ADB_SERVER_PORT,
    {
        Self::new("127.0.0.1", ADB_SERVER_PORT)
    }

    /// The host the server listens on.
    pub fn host(&self) -> (h: &str)
        ensures
            h@ == self.spec_host(),
    {
        self.host.as_str()
    }

    /// The port the server listens on.
    pub fn port(&self) -> (p: u16)
        ensures
            p == self.spec_port(),
    {
        self.port
    }

    /// The socket address `host:port`.
    pub fn address(&self) -> (a: String)
        ensures
            a@ == self.spec_host() + seq![':'] + decimal(self.spec_port() as nat),
    {
        let mut a = self.host.clone();
        push_char(&mut a, ':');
        push_decimal(&mut a, self.port as u64);
        a
    }
}

/// A host-server request: the command's byte length as four (or more) lower-case
/// hexadecimal digits, then the command.
pub open spec fn spec_server_request(command: &str) -> Seq<char> {
    zero_pad4(hex(command.len() as nat)) + command@
}

/// Frames `command` for the host server.
pub fn server_request(command: &str) -> (req: String)
    ensures
        req@ == spec_server_request(command),
{
    let mut req = String::new();
    push_hex4(&mut req, command.len() as u64);
    push_str(&mut req, command);
    assert(req@ =~= spec_server_request(command));
    req
}

/// The four-byte status that starts a host-server reply.
pub enum ServerStatus {
    Okay,
    Fail,
    Other,
}

/// Classifies a reply status: `OKAY`, `FAIL`, or anything else.
pub fn server_status(status: &[u8]) -> (s: ServerStatus)
    requires
        status@.len() == 4,
    ensures
        status@ == seq![79u8, 75u8, 65u8, 89u8] ==> s is Okay,
        status@ == seq![70u8, 65u8, 73u8, 76u8] ==> s is Fail,
        status@ != seq![79u8, 75u8, 65u8, 89u8] && status@ != seq![70u8, 65u8, 73u8, 76u8] ==> s is Other,
{
    if status[0] == 79 && status[1] == 75 && status[2] == 65 && status[3] == 89 {
        assert(status@ =~= seq![79u8, 75u8, 65u8, 89u8]);
        ServerStatus::Okay
    } else if status[0] == 70 && status[1] == 65 && status[2] == 73 && status[3] == 76 {
        assert(status@ =~= seq![70u8, 65u8, 73u8, 76u8]);
        ServerStatus::Fail
    } else {
        ServerStatus::Other
    }
}

/// Whether `c` is a hexadecimal digit, upper or lower case.
pub open spec fn is_hex_digit(c: char) -> bool {
    ('0' <= c <= '9') || ('a' <= c <= 'f') || ('A' <= c <= 'F')
}

/// The value of a hexadecimal digit.
pub open spec fn hex_digit_value(c: char) -> nat {
    if '0' <= c <= '9' {
        (c as nat - 48) as nat
    } else if 'a' <= c <= 'f' {
        (c as nat - 87) as nat
    } else {
        (c as nat - 55) as nat
    }
}

/// The value of a string of hexadecimal digits.
pub open spec fn hex_value(s: Seq<char>) -> nat
    decreases s.len(),
{
    if s.len() == 0 {
        0
    } else {
        hex_value(s.drop_last()) * 16 + hex_digit_value(s.last())
    }
}

/// The digits `usize::from_str_radix(_, 16)` reads: the text without one leading `+`.
pub open spec fn hex_body(s: Seq<char>) -> Seq<char> {
    if s.len() > 0 && s[0] == '+' {
        s.drop_first()
    } else {
        s
    }
}

/// Whether `usize::from_str_radix(s, 16)` accepts `s`: a non-empty run of
/// hexadecimal digits after at most one leading `+`.
pub open spec fn hex_accepts(s: Seq<char>) -> bool {
    hex_body(s).len() > 0 && forall|i: int| 0 <= i < hex_body(s).len() ==> is_hex_digit(#[trigger] hex_body(s)[i])
}

/// How a four-byte hexadecimal length field reads.
pub enum HexLength {
    /// The length it holds.
    Value(usize),
    /// The bytes are not UTF-8.
    NotUtf8,
    /// The text is not a hexadecimal number.
    NotHex,
}

proof fn lemma_hex_value_bound(s: Seq<char>)
    requires
        forall|i: int| 0 <= i < s.len() ==> is_hex_digit(#[trigger] s[i]),
    ensures
        hex_value(s) < vstd::arithmetic::power::pow(16, s.len()),
    decreases s.len(),
{
    vstd::arithmetic::power::lemma_pow_positive(16, s.len());
    if s.len() > 0 {
        let t = s.drop_last();
        assert forall|i: int| 0 <= i < t.len() implies is_hex_digit(#[trigger] t[i]) by {
            assert(t[i] == s[i]);
        }
        lemma_hex_value_bound(t);
        assert(is_hex_digit(s[s.len() - 1]));
        vstd::arithmetic::power::lemma_pow_adds(16, t.len(), 1);
        vstd::arithmetic::power::lemma_pow1(16);
        assert(hex_value(t) * 16 + hex_digit_value(s.last()) < vstd::arithmetic::power::pow(16, t.len()) * 16) by (nonlinear_arith)
            requires
                hex_value(t) < vstd::arithmetic::power::pow(16, t.len()),
                hex_digit_value(s.last()) < 16,
        ;
    }
}

/// Reads hexadecimal text as `usize::from_str_radix(_, 16)` reads it.
pub fn parse_hex(cs: &[char]) -> (r: Option<usize>)
    requires
        cs@.len() <= 4,
    ensures
        r is Some <==> hex_accepts(cs@),
        r matches Some(v) ==> v == hex_value(hex_body(cs@)),
{
    let start: usize = if cs.len() > 0 && cs[0] == '+' {
        1
    } else {
        0
    };
    let ghost body = hex_body(cs@);
    assert(body =~= cs@.skip(start as int));
    if cs.len() == start {
        return None;
    }
    let mut value: usize = 0;
    let mut i: usize = start;
    while i < cs.len()
        invariant
            start <= i <= cs@.len() <= 4,
            body == hex_body(cs@),
            body =~= cs@.skip(start as int),
            forall|j: int| 0 <= j < i - start ==> is_hex_digit(#[trigger] body[j]),
            value == hex_value(body.take(i - start)),
        decreases cs@.len() - i,
    {
        let c = cs[i];
        let d: usize = if '0' <= c && c <= '9' {
            (c as u32 - 48) as usize
        } else if 'a' <= c && c <= 'f' {
            (c as u32 - 87) as usize
        } else if 'A' <= c && c <= 'F' {
            (c as u32 - 55) as usize
        } else {
            assert(!is_hex_digit(body[i - start]));
            return None;
        };
        proof {
            let t = body.take(i - start);
            let t1 = body.take(i + 1 - start);
            assert(t1.drop_last() =~= t);
            assert(t1.last() == c);
            assert forall|j: int| 0 <= j < t.len() implies is_hex_digit(#[trigger] t[j]) by {
                assert(t[j] == body[j]);
            }
            lemma_hex_value_bound(t);
            vstd::arithmetic::power::lemma_pow_increases(16, t.len(), 3);
            assert(vstd::arithmetic::power::pow(16, 3) == 4096) by {
                vstd::arithmetic::power::lemma_pow_adds(16, 1, 2);
                vstd::arithmetic::power::lemma_pow_adds(16, 1, 1);
                vstd::arithmetic::power::lemma_pow1(16);
            }
        }
        value = value * 16 + d;
        i = i + 1;
    }
    assert(body.take(cs@.len() - start) =~= body);
    Some(value)
}

proof fn lemma_encode_utf8_len(chars: Seq<char>)
    ensures
        vstd::utf8::encode_utf8(chars).len() >= chars.len(),
    decreases chars.len(),
{
    if chars.len() > 0 {
        lemma_encode_utf8_len(chars.drop_first());
    }
}

/// Reads a length field as `std::str::from_utf8` and `usize::from_str_radix(_, 16)` read it.
pub fn hex_length(field: &[u8]) -> (r: HexLength)
    requires
        field@.len() == 4,
    ensures
        !vstd::utf8::valid_utf8(field@) ==> r is NotUtf8,
        vstd::utf8::valid_utf8(field@) && !hex_accepts(vstd::utf8::decode_utf8(field@)) ==> r is NotHex,
        vstd::utf8::valid_utf8(field@) && hex_accepts(vstd::utf8::decode_utf8(field@)) ==> r
            == HexLength::Value(hex_value(hex_body(vstd::utf8::decode_utf8(field@))) as usize),
{
    match str_from_utf8(field) {
        None => HexLength::NotUtf8,
        Some(text) => {
            proof {
                vstd::utf8::encode_utf8_decode_utf8(text@);
            }
            let cs = str_chars(text);
            proof {
                lemma_encode_utf8_len(text@);
            }
            match parse_hex(cs.as_slice()) {
                Some(v) => HexLength::Value(v),
                None => HexLength::NotHex,
            }
        },
    }
}

/// The text of the `Utf8Error` that `std::str::from_utf8` gives for bytes that
/// are not UTF-8, as its `Display` writes it.
pub uninterp spec fn spec_utf8_error_text(bytes: Seq<u8>) -> Seq<char>;

/// The text of the `ParseIntError` that `usize::from_str_radix(_, 16)` gives for
/// text it refuses, as its `Display` writes it.
pub uninterp spec fn spec_hex_error_text(text: Seq<char>) -> Seq<char>;

/// Calls `std::str::from_utf8` on bytes that are not UTF-8 and writes its error
/// with `Display`. Stated: the text is a function of the bytes; its wording is not stated.
#[verifier::external_body]
fn utf8_error_text(bytes: &[u8]) -> (t: String)
    requires
        !vstd::utf8::valid_utf8(bytes@),
    ensures
        t@ == spec_utf8_error_text(bytes@),
{
    std::str::from_utf8(bytes).unwrap_err().to_string()
}

/// Calls `usize::from_str_radix(_, 16)` on text it refuses (`hex_accepts` is
/// false) and writes its error with `Display`. Stated: the text is a function of
/// the input; its wording is not stated.
#[verifier::external_body]
fn hex_error_text(text: &str) -> (t: String)
    requires
        !hex_accepts(text@),
    ensures
        t@ == spec_hex_error_text(text@),
{
    usize::from_str_radix(text, 16).unwrap_err().to_string()
}

/// The length a four-byte length field holds, when it is UTF-8 hexadecimal text.
pub open spec fn field_length(field: Seq<u8>) -> Option<nat> {
    if vstd::utf8::valid_utf8(field) && hex_accepts(vstd::utf8::decode_utf8(field)) {
        Some(hex_value(hex_body(vstd::utf8::decode_utf8(field))))
    } else {
        None
    }
}

/// Whether a status is `OKAY`.
pub open spec fn is_okay_status(status: Seq<u8>) -> bool {
    status == seq![79u8, 75u8, 65u8, 89u8]
}

/// Whether a status is `FAIL`.
pub open spec fn is_fail_status(status: Seq<u8>) -> bool {
    status == seq![70u8, 65u8, 73u8, 76u8]
}

/// The error text for a status that is neither `OKAY` nor `FAIL`.
pub open spec fn unexpected_status_text(status: Seq<u8>) -> Seq<char> {
    "Unexpected status from ADB server: "@ + spec_debug_str(spec_utf8_lossy(status))
}

/// The error text for a `FAIL` reply with the given reason.
pub open spec fn server_failed_text(reason: Seq<u8>) -> Seq<char> {
    "ADB server command failed: "@ + spec_utf8_lossy(reason)
}

/// What to do next with a host-server reply.
pub enum ServerReply {
    /// Read a body of this many bytes; the reply is `Ok` of it as text.
    ReadBody(usize),
    /// Read a failure reason of this many bytes; the reply is `server_fail_error` of it.
    ReadFailReason(usize),
    /// The length field of a `FAIL` reply could not be read: that read error is the reply.
    ReadError,
    /// The reply is complete.
    Done(crate::error::Result<String>),
}

/// Decides a host-server reply from its status and its length field (`None`
/// when it could not be read, or was not read because the status needs none).
/// `OKAY` reads a body of the given length, and without a readable hexadecimal
/// length it answers with empty output; `FAIL` reads the reason of the given
/// length, and a length field that is not UTF-8 hexadecimal is a protocol
/// error; any other status is a protocol error naming it.
pub fn server_reply(status: &[u8], length_field: Option<&[u8]>) -> (r: ServerReply)
    requires
        status@.len() == 4,
        length_field matches Some(f) ==> f@.len() == 4,
    ensures
        is_okay_status(status@) ==> match length_field {
            Some(f) => match field_length(f@) {
                Some(v) => r == ServerReply::ReadBody(v as usize),
                None => r matches ServerReply::Done(Ok(t)) && t@.len() == 0,
            },
            None => r matches ServerReply::Done(Ok(t)) && t@.len() == 0,
        },
        is_fail_status(status@) ==> match length_field {
            None => r is ReadError,
            Some(f) => if !vstd::utf8::valid_utf8(f@) {
                r matches ServerReply::Done(Err(AdbError::Protocol(t))) && t@ == "Invalid FAIL hex length: "@
                    + spec_utf8_error_text(f@)
            } else if !hex_accepts(vstd::utf8::decode_utf8(f@)) {
                r matches ServerReply::Done(Err(AdbError::Protocol(t))) && t@ == "Invalid FAIL hex number: "@
                    + spec_hex_error_text(vstd::utf8::decode_utf8(f@))
            } else {
                r == ServerReply::ReadFailReason(hex_value(hex_body(vstd::utf8::decode_utf8(f@))) as usize)
            },
        },
        !is_okay_status(status@) && !is_fail_status(status@) ==> (r matches ServerReply::Done(
            Err(AdbError::Protocol(t)),
        ) && t@ == unexpected_status_text(status@)),
{
    match server_status(status) {
        ServerStatus::Okay => {
            if let Some(f) = length_field {
                if let HexLength::Value(len) = hex_length(f) {
                    return ServerReply::ReadBody(len);
                }
            }
            ServerReply::Done(Ok(String::new()))
        },
        ServerStatus::Fail => match length_field {
            None => ServerReply::ReadError,
            Some(f) => match hex_length(f) {
                HexLength::Value(len) => ServerReply::ReadFailReason(len),
                HexLength::NotUtf8 => {
                    let mut t = string_of("Invalid FAIL hex length: ");
                    push_str(&mut t, utf8_error_text(f).as_str());
                    ServerReply::Done(Err(AdbError::Protocol(t)))
                },
                HexLength::NotHex => {
                    let text = str_from_utf8(f).unwrap();
                    proof {
                        vstd::utf8::encode_utf8_decode_utf8(text@);
                    }
                    let mut t = string_of("Invalid FAIL hex number: ");
                    push_str(&mut t, hex_error_text(text).as_str());
                    ServerReply::Done(Err(AdbError::Protocol(t)))
                },
            },
        },
        ServerStatus::Other => {
            let mut t = string_of("Unexpected status from ADB server: ");
            push_str(&mut t, debug_str(utf8_lossy(status).as_str()).as_str());
            ServerReply::Done(Err(AdbError::Protocol(t)))
        },
    }
}

/// The error a `FAIL` reply with the given reason gives.
pub fn server_fail_error(reason: &[u8]) -> (e: AdbError)
    ensures
        e matches AdbError::Protocol(t) && t@ == server_failed_text(reason@),
{
    let mut t = string_of("ADB server command failed: ");
    push_str(&mut t, utf8_lossy(reason).as_str());
    AdbError::Protocol(t)
}

/// How many times a started server is polled before starting it is given up.
pub const SERVER_START_POLLS: u32 = 50;

/// What to do after checking whether the local server runs.
pub enum StartupAction {
    /// It runs: done.
    Ready,
    /// It does not run yet: start it, wait, and check again.
    StartServer,
    /// It was started and does not run yet: wait and check again.
    PollAgain,
    /// It was polled as often as allowed without running.
    GiveUp(AdbError),
}

/// The decisions of making sure the local server runs: check it, start it when
/// it does not run, then poll it up to `SERVER_START_POLLS` times.
pub struct ServerStartup {
    checks: u32,
}

impl ServerStartup {
    /// How many checks found the server not running so far.
    pub closed spec fn checks(&self) -> u32 {
        self.checks
    }

    /// No check made yet.
    pub fn new() -> (s: Self)
        ensures
            s.checks() == 0,
    {
        ServerStartup { checks: 0 }
    }

    /// Decides what follows a check that found the server `running` or not.
    pub fn on_check(&mut self, running: bool) -> (a: StartupAction)
        ensures
            running ==> a is Ready && final(self).checks() == old(self).checks(),
            !running && old(self).checks() == 0 ==> a is StartServer && final(self).checks() == 1,
            !running && 1 <= old(self).checks() < SERVER_START_POLLS ==> a is PollAgain
                && final(self).checks() == old(self).checks() + 1,
            !running && old(self).checks() >= SERVER_START_POLLS ==> (a matches StartupAction::GiveUp(
                AdbError::Connect(t),
            ) && t@ == "Failed to start local ADB server daemon"@) && final(self).checks() == old(
                self,
            ).checks(),
    {
        if running {
            StartupAction::Ready
        } else if self.checks == 0 {
            self.checks = 1;
            StartupAction::StartServer
        } else if self.checks < SERVER_START_POLLS {
            self.checks = self.checks + 1;
            StartupAction::PollAgain
        } else {
            StartupAction::GiveUp(AdbError::Connect(string_of("Failed to start local ADB server daemon")))
        }
    }
}

/// The device a line of the `host:devices` listing names: the trimmed line split
/// at its first tab into serial and state; blank lines and lines without a tab name none.
pub open spec fn device_entry(line: Seq<char>) -> Option<(Seq<char>, Seq<char>)> {
    if trim(line).len() == 0 {
        None
    } else {
        split_once(trim(line), seq!['\t'])
    }
}

/// The devices named by a sequence of lines, in order.
pub open spec fn device_entries(lines: Seq<Seq<char>>) -> Seq<(Seq<char>, Seq<char>)>
    decreases lines.len(),
{
    if lines.len() == 0 {
        Seq::empty()
    } else {
        let rest = device_entries(lines.drop_last());
        match device_entry(lines.last()) {
            Some(e) => rest.push(e),
            None => rest,
        }
    }
}

/// The devices a `host:devices` reply lists.
pub open spec fn spec_device_list(output: Seq<char>) -> Seq<(Seq<char>, Seq<char>)> {
    device_entries(split_on(output, '\n'))
}

/// Searching for one character finds its first occurrence at or after `i`.
proof fn lemma_find_char(s: Seq<char>, c: char, i: nat)
    ensures
        find_from(s, seq![c], i) matches Some(k) ==> i <= k < s.len() && s[k as int] == c && forall|j: int|
            i <= j < k ==> s[j] != c,
        find_from(s, seq![c], i) is None ==> forall|j: int| i <= j < s.len() ==> s[j] != c,
    decreases s.len() + 1 - i,
{
    let pat = seq![c];
    if i + 1 <= s.len() {
        assert(matches_at(s, pat, i as int) <==> s[i as int] == c) by {
            if s[i as int] == c {
                assert(s.subrange(i as int, i as int + 1) =~= pat);
            }
            if matches_at(s, pat, i as int) {
                assert(s.subrange(i as int, i as int + 1)[0] == s[i as int]);
            }
        }
        if s[i as int] != c {
            lemma_find_char(s, c, i + 1);
        }
    }
}

/// Whether a line of a `host:devices` reply names a device: it is not blank
/// once trimmed, and it holds a tab.
pub open spec fn names_device(line: Seq<char>) -> bool {
    trim(line).len() > 0 && trim(line).contains('\t')
}

/// Every line that is not blank and holds a tab names exactly one device,
/// whatever its state text; no other line names one. The device is the trimmed
/// line split at its first tab: the serial holds no tab, and serial, tab and
/// state make up the trimmed line.
pub proof fn lemma_device_entry_splits_at_first_tab(line: Seq<char>)
    ensures
        device_entry(line) is Some <==> names_device(line),
        device_entry(line) matches Some(d) ==> d.0 + seq!['\t'] + d.1 == trim(line) && !d.0.contains('\t'),
{
    let t = trim(line);
    lemma_find_char(t, '\t', 0);
    if t.len() > 0 {
        match find(t, seq!['\t']) {
            Some(k) => {
                assert(t.contains('\t'));
                let a = t.take(k as int);
                let b = t.skip(k as int + 1);
                assert(a + seq!['\t'] + b =~= t);
                if a.contains('\t') {
                    let j = choose|j: int| 0 <= j < a.len() && a[j] == '\t';
                    assert(t[j] == '\t');
                }
            },
            None => {
                if t.contains('\t') {
                    let j = choose|j: int| 0 <= j < t.len() && t[j] == '\t';
                    assert(t[j] != '\t');
                }
            },
        }
    }
}

/// The lines of a `host:devices` reply that name a device, in order.
pub open spec fn device_lines(lines: Seq<Seq<char>>) -> Seq<Seq<char>> {
    lines.filter(|l: Seq<char>| names_device(l))
}

/// The device list has one entry for each line that names a device, in order:
/// as many entries as such lines, and the `k`-th entry is the `k`-th such line,
/// trimmed and split at its first tab.
pub proof fn lemma_device_list_has_every_device_line(lines: Seq<Seq<char>>)
    ensures
        device_entries(lines).len() == device_lines(lines).len(),
        forall|k: int|
            0 <= k < device_entries(lines).len() ==> (#[trigger] device_entries(lines)[k]).0 + seq!['\t']
                + device_entries(lines)[k].1 == trim(device_lines(lines)[k]) && !device_entries(
                lines,
            )[k].0.contains('\t'),
    decreases lines.len(),
{
    reveal(Seq::filter);
    if lines.len() > 0 {
        let dl = lines.drop_last();
        lemma_device_list_has_every_device_line(dl);
        lemma_device_entry_splits_at_first_tab(lines.last());
        assert(device_lines(lines) == (if names_device(lines.last()) {
            device_lines(dl).push(lines.last())
        } else {
            device_lines(dl)
        }));
    }
}

/// The devices a `host:devices` reply lists, in order.
pub fn parse_device_list(output: &str) -> (devices: Vec<AdbDeviceDescriptor>)
    ensures
        devices@.len() == spec_device_list(output@).len(),
        forall|k: int|
            0 <= k < devices@.len() ==> (#[trigger] devices@[k]).serial@ == spec_device_list(
                output@,
            )[k].0 && devices@[k].state@ == spec_device_list(output@)[k].1,
{
    let chars = str_chars(output);
    let lines = split_chars(chars.as_slice(), '\n');
    let ghost ls = split_on(output@, '\n');
    let tab: Vec<char> = vec!['\t'];
    assert(tab@ =~= seq!['\t']);
    let mut devices: Vec<AdbDeviceDescriptor> = Vec::new();
    let mut k: usize = 0;
    while k < lines.len()
        invariant
            k <= lines@.len(),
            lines@.len() == ls.len(),
            ls == split_on(output@, '\n'),
            tab@ == seq!['\t'],
            forall|i: int| 0 <= i < lines@.len() ==> #[trigger] lines@[i]@ == ls[i],
            devices@.len() == device_entries(ls.take(k as int)).len(),
            forall|i: int|
                0 <= i < devices@.len() ==> (#[trigger] devices@[i]).serial@ == device_entries(
                    ls.take(k as int),
                )[i].0 && devices@[i].state@ == device_entries(ls.take(k as int))[i].1,
        decreases lines@.len() - k,
    {
        proof {
            assert(ls.take(k + 1).drop_last() =~= ls.take(k as int));
            assert(ls.take(k + 1).last() == ls[k as int]);
        }
        let t = trim_chars(lines[k].as_slice());
        if t.len() > 0 {
            match split_once_chars(t.as_slice(), tab.as_slice()) {
                Some((serial, state)) => {
                    devices.push(
                        AdbDeviceDescriptor {
                            serial: string_from_chars(serial.as_slice()),
                            state: string_from_chars(state.as_slice()),
                        },
                    );
                },
                None => {},
            }
        }
        k = k + 1;
    }
    assert(ls.take(ls.len() as int) =~= ls);
    devices
}

} // verus!
