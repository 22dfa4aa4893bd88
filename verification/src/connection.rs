//! Connection set-up: the CNXN/AUTH handshake, the device's feature banner,
//! and the reply to a request to open a stream.
use vstd::prelude::*;
use vstd::string::*;

use crate::constants::{AUTH_TYPE_RSA_PUBLIC, AUTH_TYPE_SIGNATURE, AUTH_TYPE_TOKEN, CMD_AUTH, CMD_CLSE, CMD_CNXN, CMD_OKAY};
use crate::error::AdbError;
use crate::queue::StreamTable;
use crate::keypair::{can_sign, is_signature_of, key_primes_sound, spec_signature, AdbKeyPair};
use crate::message::{spec_command_name, spec_new_message, AdbMessage, MessageView};
use crate::text::{
    push_str, spec_utf8_lossy, split_chars, split_on, split_once, split_once_chars, str_chars,
    string_from_chars, string_of, trim, trim_chars, utf8_lossy,
};
use crate::writer::{auth_message, connect_message, spec_connect_message};

verus! {

/// The texts held by a sequence of strings, as a set.
pub open spec fn string_set(items: Seq<String>) -> Set<Seq<char>> {
    Set::new(|x: Seq<char>| exists|i: int| 0 <= i < items.len() && #[trigger] items[i]@ == x)
}

/// The trimmed texts of the first `j` pieces, as a set.
pub open spec fn trimmed_set(pieces: Seq<Seq<char>>, j: int) -> Set<Seq<char>> {
    Set::new(|x: Seq<char>| exists|i: int| 0 <= i < j && trim(#[trigger] pieces[i]) == x)
}

/// The features listed in the value of a `features=` parameter: comma-separated, trimmed.
pub open spec fn features_of_value(v: Seq<char>) -> Set<Seq<char>> {
    trimmed_set(split_on(v, ','), split_on(v, ',').len() as int)
}

/// The features a banner parameter contributes: those of a `features=` parameter, none otherwise.
pub open spec fn features_of_param(p: Seq<char>) -> Set<Seq<char>> {
    match split_once(p, seq!['=']) {
        Some((key, value)) => if key == "features"@ {
            features_of_value(value)
        } else {
            Set::empty()
        },
        None => Set::empty(),
    }
}

/// The features contributed by the first `k` parameters.
pub open spec fn features_of_params(ps: Seq<Seq<char>>, k: int) -> Set<Seq<char>>
    decreases k,
{
    if k <= 0 {
        Set::empty()
    } else {
        features_of_params(ps, k - 1).union(features_of_param(ps[k - 1]))
    }
}

/// The features a device announces in its CNXN banner `<type>::<param>;<param>...`.
pub open spec fn spec_features(banner: Seq<char>) -> Set<Seq<char>> {
    match split_once(banner, "::"@) {
        Some((_, params)) => features_of_params(
            split_on(params, ';'),
            split_on(params, ';').len() as int,
        ),
        None => Set::empty(),
    }
}

/// The set of features a device supports.
pub struct FeatureSet {
    items: Vec<String>,
}

impl View for FeatureSet {
    type V = Set<Seq<char>>;

    closed spec fn view(&self) -> Set<Seq<char>> {
        string_set(self.items@)
    }
}

impl FeatureSet {
    /// No features.
    pub fn new() -> (s: Self)
        ensures
            s@ == Set::<Seq<char>>::empty(),
    {
        let s = FeatureSet { items: Vec::new() };
        assert(s@ =~= Set::<Seq<char>>::empty());
        s
    }

    /// Adds a feature.
    pub fn insert(&mut self, feature: String)
        ensures
            final(self)@ == old(self)@.insert(feature@),
    {
        let ghost old_items = self.items@;
        self.items.push(feature);
        assert forall|x: Seq<char>| #[trigger] string_set(self.items@).contains(x) == old(
            self,
        )@.insert(feature@).contains(x) by {
            if old(self)@.contains(x) {
                let i = choose|i: int| 0 <= i < old_items.len() && #[trigger] old_items[i]@ == x;
                assert(self.items@[i] == old_items[i]);
            }
            if string_set(self.items@).contains(x) {
                let i = choose|i: int| 0 <= i < self.items@.len() && #[trigger] self.items@[i]@ == x;
                if i < old_items.len() {
                    assert(old_items[i] == self.items@[i]);
                }
            }
            if x == feature@ {
                assert(self.items@[old_items.len() as int]@ == x);
            }
        }
        assert(string_set(self.items@) =~= old(self)@.insert(feature@));
    }

    /// Whether `feature` is in the set.
    pub fn contains(&self, feature: &str) -> (b: bool)
        ensures
            b == self@.contains(feature@),
    {
        let wanted = string_of(feature);
        let mut i: usize = 0;
        while i < self.items.len()
            invariant
                i <= self.items@.len(),
                wanted@ == feature@,
                forall|j: int| 0 <= j < i ==> #[trigger] self.items@[j]@ != feature@,
            decreases self.items@.len() - i,
        {
            if self.items[i] == wanted {
                return true;
            }
            i = i + 1;
        }
        false
    }

    /// The features as a list, each once or more.
    pub fn to_vec(&self) -> (v: Vec<String>)
        ensures
            string_set(v@) == self@,
    {
        self.items.clone()
    }
}

/// Whether two character sequences are equal.
fn chars_eq(a: &[char], b: &[char]) -> (r: bool)
    ensures
        r == (a@ == b@),
{
    if a.len() != b.len() {
        return false;
    }
    let mut i: usize = 0;
    while i < a.len()
        invariant
            a@.len() == b@.len(),
            i <= a@.len(),
            forall|j: int| 0 <= j < i ==> a@[j] == b@[j],
        decreases a@.len() - i,
    {
        if a[i] != b[i] {
            return false;
        }
        i = i + 1;
    }
    assert(a@ =~= b@);
    true
}

/// Adds the features of one banner parameter.
fn add_param_features(set: &mut FeatureSet, param: &[char])
    ensures
        final(set)@ == old(set)@.union(features_of_param(param@)),
{
    let eq: Vec<char> = vec!['='];
    assert(eq@ =~= seq!['=']);
    match split_once_chars(param, eq.as_slice()) {
        Some((key, value)) => {
            let name = str_chars("features");
            if chars_eq(key.as_slice(), name.as_slice()) {
                let pieces = split_chars(value.as_slice(), ',');
                let ghost ps = split_on(value@, ',');
                let mut j: usize = 0;
                while j < pieces.len()
                    invariant
                        j <= pieces@.len(),
                        pieces@.len() == ps.len(),
                        forall|k: int| 0 <= k < pieces@.len() ==> #[trigger] pieces@[k]@ == ps[k],
                        set@ == old(set)@.union(trimmed_set(ps, j as int)),
                    decreases pieces@.len() - j,
                {
                    let t = trim_chars(pieces[j].as_slice());
                    let f = string_from_chars(t.as_slice());
                    let ghost before = set@;
                    set.insert(f);
                    assert(old(set)@.union(trimmed_set(ps, j + 1)) =~= before.insert(trim(ps[j as int])))
                        by {
                        assert forall|x: Seq<char>| trimmed_set(ps, j + 1).contains(x) implies trimmed_set(
                            ps,
                            j as int,
                        ).contains(x) || x == trim(ps[j as int]) by {
                            let i = choose|i: int| 0 <= i < j + 1 && trim(#[trigger] ps[i]) == x;
                            if i < j {
                                assert(trimmed_set(ps, j as int).contains(x));
                            }
                        }
                        assert forall|x: Seq<char>| trimmed_set(ps, j as int).contains(x) implies trimmed_set(
                            ps,
                            j + 1,
                        ).contains(x) by {
                            let i = choose|i: int| 0 <= i < j && trim(#[trigger] ps[i]) == x;
                        }
                        assert(trimmed_set(ps, j + 1).contains(trim(ps[j as int])));
                    }
                    j = j + 1;
                }
                assert(features_of_param(param@) == trimmed_set(ps, ps.len() as int));
            } else {
                assert(set@ =~= old(set)@.union(features_of_param(param@)));
            }
        },
        None => {
            assert(set@ =~= old(set)@.union(features_of_param(param@)));
        },
    }
}

/// The features a device announces in its CNXN banner.
pub fn parse_features(banner: &str) -> (features: FeatureSet)
    ensures
        features@ == spec_features(banner@),
{
    let mut set = FeatureSet::new();
    let chars = str_chars(banner);
    let sep = str_chars("::");
    match split_once_chars(chars.as_slice(), sep.as_slice()) {
        Some((_, params)) => {
            let pieces = split_chars(params.as_slice(), ';');
            let ghost ps = split_on(params@, ';');
            let mut k: usize = 0;
            while k < pieces.len()
                invariant
                    k <= pieces@.len(),
                    pieces@.len() == ps.len(),
                    forall|i: int| 0 <= i < pieces@.len() ==> #[trigger] pieces@[i]@ == ps[i],
                    set@ == features_of_params(ps, k as int),
                decreases pieces@.len() - k,
            {
                add_param_features(&mut set, pieces[k].as_slice());
                k = k + 1;
            }
        },
        None => {},
    }
    set
}

/// What a device reported once the handshake succeeded.
pub struct ConnectionInfo {
    pub version: u32,
    pub max_payload_size: usize,
    pub features: FeatureSet,
}

/// What the client does after a handshake message.
pub enum HandshakeStep {
    /// Send this message and read the device's next one.
    Send(AdbMessage),
    /// The device accepted the connection.
    Established(ConnectionInfo),
}

/// Whether `m` is a device's AUTH challenge token.
pub open spec fn is_auth_token(m: MessageView) -> bool {
    m.command == CMD_AUTH && m.arg0 == AUTH_TYPE_TOKEN
}

/// The phases of the handshake: 0 awaits the device's first reply, 1 the reply
/// to the signature, 2 the reply to the public key, 3 is over.
pub open spec fn handshake_done(phase: u8) -> bool {
    phase >= 3
}

/// The error for a handshake that did not end in CNXN.
pub open spec fn handshake_failed_text(command: u32) -> Seq<char> {
    "Handshake failed: expected CNXN packet, got "@ + spec_command_name(command)
}

/// Whether `step` is how the handshake ends on the device message `m`:
/// established with the CNXN message's version, maximum payload size and
/// banner features, or a connect error naming the command received.
pub open spec fn finishes_with(m: MessageView, step: crate::error::Result<HandshakeStep>) -> bool {
    if m.command == CMD_CNXN {
        step matches Ok(HandshakeStep::Established(info)) && info.version == m.arg0
            && info.max_payload_size == m.arg1 as usize && info.features@ == spec_features_of_payload(
            m.payload,
        )
    } else {
        step matches Err(AdbError::Connect(t)) && t@ == handshake_failed_text(m.command)
    }
}

/// The features announced by a CNXN payload, read as text.
pub open spec fn spec_features_of_payload(payload: Seq<u8>) -> Set<Seq<char>> {
    spec_features(spec_utf8_lossy(payload))
}

/// The client side of the CNXN/AUTH handshake.
pub struct Handshake {
    phase: u8,
}

impl Handshake {
    /// The phase the handshake is in.
    pub closed spec fn phase(&self) -> u8 {
        self.phase
    }

    /// Starts a handshake: the state awaiting the device's reply, and the CNXN message to send.
    pub fn start() -> (r: (Handshake, AdbMessage))
        ensures
            r.0.phase() == 0,
            r.1@ == spec_connect_message(),
    {
        (Handshake { phase: 0 }, connect_message())
    }

    /// The phase the handshake is in.
    pub fn current_phase(&self) -> (p: u8)
        ensures
            p == self.phase(),
    {
        self.phase
    }

    /// Whether the handshake is over.
    pub fn is_done(&self) -> (b: bool)
        ensures
            b == handshake_done(self.phase()),
    {
        self.phase >= 3
    }

    fn finish(&mut self, msg: &AdbMessage) -> (step: crate::error::Result<HandshakeStep>)
        ensures
            finishes_with(msg@, step),
            final(self).phase() == 3,
    {
        self.phase = 3;
        if msg.command != CMD_CNXN {
            let mut t = string_of("Handshake failed: expected CNXN packet, got ");
            push_str(&mut t, AdbMessage::command_name(msg.command));
            return Err(AdbError::Connect(t));
        }
        let banner = utf8_lossy(msg.payload.as_slice());
        let features = parse_features(banner.as_str());
        Ok(
            HandshakeStep::Established(
                ConnectionInfo { version: msg.arg0, max_payload_size: msg.arg1 as usize, features },
            ),
        )
    }

    /// Decides what to do with the device's next handshake message.
    ///
    /// An AUTH token first asks for its RSA signature (an auth error without a
    /// key pair); a second token asks for the public key; anything else must be
    /// the device's CNXN, which establishes the connection.
    pub fn on_message(&mut self, msg: &AdbMessage, key_pair: Option<&AdbKeyPair>) -> (step:
        crate::error::Result<HandshakeStep>)
        requires
            !handshake_done(old(self).phase()),
            old(self).phase() == 0 && is_auth_token(msg@) && key_pair is Some ==> msg.payload@.len()
                <= 238,
        ensures
            handshake_done(final(self).phase()) <==> !(step matches Ok(HandshakeStep::Send(_))),
            old(self).phase() == 0 && is_auth_token(msg@) ==> match key_pair {
                None => step matches Err(AdbError::Auth(t)) && t@
                    == "Device requires authentication but no key pair was provided"@,
                Some(kp) => match step {
                    Ok(HandshakeStep::Send(out)) => final(self).phase() == 1 && can_sign(
                        kp.key(),
                        msg.payload@,
                    ) && (exists|s: Seq<u8>|
                        #[trigger] is_signature_of(kp.key(), msg.payload@, s) && out@ == spec_new_message(
                            CMD_AUTH,
                            AUTH_TYPE_SIGNATURE,
                            0,
                            s,
                        )) && (key_primes_sound(kp.key()) ==> out@ == spec_new_message(
                        CMD_AUTH,
                        AUTH_TYPE_SIGNATURE,
                        0,
                        spec_signature(kp.key(), msg.payload@),
                    )),
                    Err(e) => !can_sign(kp.key(), msg.payload@) && (e matches AdbError::Auth(t)
                        && "RSA raw signing failed: "@.is_prefix_of(t@)),
                    _ => false,
                },
            },
            old(self).phase() == 1 && is_auth_token(msg@) && key_pair is Some ==> (step matches Ok(
                HandshakeStep::Send(out),
            ) && final(self).phase() == 2 && out@ == spec_new_message(
                CMD_AUTH,
                AUTH_TYPE_RSA_PUBLIC,
                0,
                key_pair->0.public_key(),
            )),
            !(old(self).phase() == 0 && is_auth_token(msg@)) && !(old(self).phase() == 1
                && is_auth_token(msg@) && key_pair is Some) ==> finishes_with(msg@, step),
    {
        let is_token = msg.command == CMD_AUTH && msg.arg0 == AUTH_TYPE_TOKEN;
        if self.phase == 0 && is_token {
            match key_pair {
                None => {
                    self.phase = 3;
                    Err(
                        AdbError::Auth(
                            string_of("Device requires authentication but no key pair was provided"),
                        ),
                    )
                },
                Some(kp) => {
                    match kp.sign_payload(msg.payload.as_slice()) {
                        Ok(signature) => {
                            assert(is_signature_of(kp.key(), msg.payload@, signature@));
                            self.phase = 1;
                            Ok(HandshakeStep::Send(auth_message(AUTH_TYPE_SIGNATURE, signature)))
                        },
                        Err(e) => {
                            self.phase = 3;
                            Err(e)
                        },
                    }
                },
            }
        } else if self.phase == 1 && is_token && key_pair.is_some() {
            let kp = key_pair.unwrap();
            self.phase = 2;
            Ok(HandshakeStep::Send(auth_message(AUTH_TYPE_RSA_PUBLIC, kp.public_key_bytes())))
        } else {
            self.finish(msg)
        }
    }
}

/// The error text for an unexpected reply to an open request.
pub open spec fn unexpected_open_text(command: u32) -> Seq<char> {
    "Unexpected response opening stream: "@ + spec_command_name(command)
}

/// Whether `r` is the outcome of an open request for `destination` whose reply
/// was `reply`: `OKAY` opens the stream and gives the device's stream id; `CLSE`
/// means the daemon refused the destination; any other command is a protocol
/// error; a failed reply is passed on unchanged; a missing one means the
/// connection closed.
pub open spec fn is_open_outcome(
    destination: Seq<char>,
    reply: Option<crate::error::Result<AdbMessage>>,
    r: crate::error::Result<u32>,
) -> bool {
    match reply {
        Some(Ok(m)) => if m.command == CMD_OKAY {
            r == Ok::<u32, AdbError>(m.arg0)
        } else if m.command == CMD_CLSE {
            r matches Err(AdbError::StreamOpen { destination: d, reason: why }) && d@ == destination
                && why@ == "Connection refused by ADB daemon"@
        } else {
            r matches Err(AdbError::Protocol(t)) && t@ == unexpected_open_text(m.command)
        },
        Some(Err(e)) => r == Err::<u32, AdbError>(e),
        None => r matches Err(AdbError::ConnectionClosed(t)) && t@
            == "Stream channel closed before open acknowledgement"@,
    }
}

/// Reads the device's reply to `A_OPEN`: `OKAY` opens the stream and gives the
/// device's stream id; `CLSE` means the daemon refused the destination; any
/// other command is a protocol error; a failed or missing reply is passed on.
pub fn open_reply(destination: &str, reply: Option<crate::error::Result<AdbMessage>>) -> (r:
    crate::error::Result<u32>)
    ensures
        is_open_outcome(destination@, reply, r),
{
    match reply {
        Some(Ok(m)) => {
            if m.command == CMD_OKAY {
                Ok(m.arg0)
            } else if m.command == CMD_CLSE {
                Err(
                    AdbError::StreamOpen {
                        destination: string_of(destination),
                        reason: string_of("Connection refused by ADB daemon"),
                    },
                )
            } else {
                let mut t = string_of("Unexpected response opening stream: ");
                push_str(&mut t, AdbMessage::command_name(m.command));
                Err(AdbError::Protocol(t))
            }
        },
        Some(Err(e)) => Err(e),
        None => Err(
            AdbError::ConnectionClosed(
                string_of("Stream channel closed before open acknowledgement"),
            ),
        ),
    }
}

/// Ends the open request of stream `local_id`: its reply decides the outcome as
/// `open_reply` does, and a failed open stops routing messages to `local_id`,
/// so that the id can be listened on again.
pub fn finish_open<S>(
    table: &mut StreamTable<S>,
    local_id: u32,
    destination: &str,
    reply: Option<crate::error::Result<AdbMessage>>,
) -> (r: crate::error::Result<u32>)
    ensures
        is_open_outcome(destination@, reply, r),
        r is Ok ==> final(table)@ == old(table)@,
        r is Err ==> final(table)@ == old(table)@.remove(local_id),
{
    let r = open_reply(destination, reply);
    if r.is_err() {
        table.stop_listening(local_id);
    }
    r
}

/// The local id of the `k`-th open request on a connection: `k`, wrapping
/// around after 2^32 - 1 as `AtomicU32::fetch_add` does.
pub open spec fn local_id_of(k: nat) -> u32 {
    (k % 0x1_0000_0000) as u32
}

/// The local stream ids a connection hands out to its open requests: 1, 2, 3, ...
pub struct LocalIds {
    next: u32,
    issued: Ghost<nat>,
}

impl LocalIds {
    /// How many ids were handed out.
    pub closed spec fn issued(&self) -> nat {
        self.issued@
    }

    #[verifier::type_invariant]
    closed spec fn counts(self) -> bool {
        self.next == local_id_of(self.issued@ + 1)
    }

    /// No id handed out yet; the first is 1.
    pub fn new() -> (ids: Self)
        ensures
            ids.issued() == 0,
    {
        LocalIds { next: 1, issued: Ghost(0) }
    }

    /// Hands out the next id.
    pub fn allocate(&mut self) -> (id: u32)
        ensures
            id == local_id_of(old(self).issued() + 1),
            final(self).issued() == old(self).issued() + 1,
    {
        proof {
            use_type_invariant(&*self);
        }
        let id = self.next;
        let next: u32 = if id == u32::MAX {
            0
        } else {
            id + 1
        };
        let ghost count = self.issued@ + 1;
        assert(next == local_id_of(count + 1)) by {
            vstd::arithmetic::div_mod::lemma_add_mod_noop(self.issued@ as int + 1, 1, 0x1_0000_0000);
            vstd::arithmetic::div_mod::lemma_small_mod(1, 0x1_0000_0000);
            vstd::arithmetic::div_mod::lemma_mod_bound(self.issued@ as int + 1, 0x1_0000_0000);
            if id != u32::MAX {
                vstd::arithmetic::div_mod::lemma_small_mod((id + 1) as nat, 0x1_0000_0000);
            } else {
                vstd::arithmetic::div_mod::lemma_mod_self_0(0x1_0000_0000);
            }
        }
        *self = LocalIds { next, issued: Ghost(count) };
        id
    }
}

/// Successive open requests use distinct local ids: the `i`-th gets `i`, for
/// every `i` below 2^32, so no two of the first 2^32 - 1 requests share an id.
pub proof fn lemma_local_ids_distinct(i: nat, j: nat)
    requires
        1 <= i < j < 0x1_0000_0000,
    ensures
        local_id_of(i) == i,
        local_id_of(i) != local_id_of(j),
{
    vstd::arithmetic::div_mod::lemma_small_mod(i, 0x1_0000_0000);
    vstd::arithmetic::div_mod::lemma_small_mod(j, 0x1_0000_0000);
}

} // verus!
