//! Text: decimal and hexadecimal numerals, white space, splitting and searching.
use vstd::prelude::*;
use vstd::string::*;

verus! {

/// The character of a decimal or lower-case hexadecimal digit.
pub open spec fn digit_char(d: nat) -> char {
    if d < 10 {
        (48 + d) as char
    } else {
        (87 + d) as char
    }
}

/// The decimal numeral of `n`, without leading zeros.
pub open spec fn decimal(n: nat) -> Seq<char>
    decreases n,
{
    if n < 10 {
        seq![digit_char(n)]
    } else {
        decimal(n / 10).push(digit_char(n % 10))
    }
}

/// The decimal numeral of a signed number: a minus sign before negative numbers.
pub open spec fn signed_decimal(n: int) -> Seq<char> {
    if n < 0 {
        seq!['-'] + decimal((-n) as nat)
    } else {
        decimal(n as nat)
    }
}

/// The lower-case hexadecimal numeral of `n`, without leading zeros.
pub open spec fn hex(n: nat) -> Seq<char>
    decreases n,
{
    if n < 16 {
        seq![digit_char(n)]
    } else {
        hex(n / 16).push(digit_char(n % 16))
    }
}

/// The uppercase hexadecimal digit of `d`.
pub open spec fn upper_digit_char(d: nat) -> char {
    if d < 10 {
        (48 + d) as char
    } else {
        (55 + d) as char
    }
}

/// The uppercase hexadecimal numeral of `n`, without leading zeros.
pub open spec fn upper_hex(n: nat) -> Seq<char>
    decreases n,
{
    if n < 16 {
        seq![upper_digit_char(n)]
    } else {
        upper_hex(n / 16).push(upper_digit_char(n % 16))
    }
}

/// `s` padded on the left with `'0'` to at least four characters.
pub open spec fn zero_pad4(s: Seq<char>) -> Seq<char> {
    if s.len() < 4 {
        Seq::new((4 - s.len()) as nat, |i: int| '0') + s
    } else {
        s
    }
}

/// Unicode `White_Space`, the property tested by `char::is_whitespace`.
pub open spec fn is_white_space(c: char) -> bool {
    let u = c as u32;
    ||| u == 0x20
    ||| 0x09 <= u <= 0x0d
    ||| u == 0x85
    ||| u == 0xa0
    ||| u == 0x1680
    ||| 0x2000 <= u <= 0x200a
    ||| u == 0x2028
    ||| u == 0x2029
    ||| u == 0x202f
    ||| u == 0x205f
    ||| u == 0x3000
}

/// `s` without its leading white space.
pub open spec fn trim_start(s: Seq<char>) -> Seq<char>
    decreases s.len(),
{
    if s.len() > 0 && is_white_space(s[0]) {
        trim_start(s.drop_first())
    } else {
        s
    }
}

/// `s` without its trailing white space.
pub open spec fn trim_end(s: Seq<char>) -> Seq<char>
    decreases s.len(),
{
    if s.len() > 0 && is_white_space(s.last()) {
        trim_end(s.drop_last())
    } else {
        s
    }
}

/// `s` without leading and trailing white space, as `str::trim` gives it.
pub open spec fn trim(s: Seq<char>) -> Seq<char> {
    trim_end(trim_start(s))
}

/// The pieces of `s` between occurrences of `sep`, as `str::split` with a
/// character gives them: one more piece than there are separators.
pub open spec fn split_on<T>(s: Seq<T>, sep: T) -> Seq<Seq<T>>
    decreases s.len(),
{
    if s.len() == 0 {
        seq![Seq::empty()]
    } else {
        let rest = split_on(s.drop_last(), sep);
        if s.last() == sep {
            rest.push(Seq::empty())
        } else {
            rest.update(rest.len() - 1, rest.last().push(s.last()))
        }
    }
}

/// Whether `pat` occurs in `s` at index `i`.
pub open spec fn matches_at<T>(s: Seq<T>, pat: Seq<T>, i: int) -> bool {
    0 <= i && i + pat.len() <= s.len() && s.subrange(i, i + pat.len()) == pat
}

/// The first index at or after `i` where `pat` occurs in `s`.
pub open spec fn find_from<T>(s: Seq<T>, pat: Seq<T>, i: nat) -> Option<nat>
    decreases s.len() + 1 - i,
{
    if i + pat.len() > s.len() {
        None
    } else if matches_at(s, pat, i as int) {
        Some(i)
    } else {
        find_from(s, pat, i + 1)
    }
}

/// The first index where `pat` occurs in `s`.
pub open spec fn find<T>(s: Seq<T>, pat: Seq<T>) -> Option<nat> {
    find_from(s, pat, 0)
}

/// Whether `pat` occurs somewhere in `s`, as `str::contains` tests it.
pub open spec fn contains_seq<T>(s: Seq<T>, pat: Seq<T>) -> bool {
    find(s, pat) is Some
}

/// The parts of `s` before and after the first occurrence of `pat`, as `str::split_once` gives them.
pub open spec fn split_once<T>(s: Seq<T>, pat: Seq<T>) -> Option<(Seq<T>, Seq<T>)> {
    match find(s, pat) {
        Some(i) => Some((s.take(i as int), s.skip(i + pat.len() as int))),
        None => None,
    }
}

/// The text of `String::from_utf8_lossy` on `bytes`: valid UTF-8 sequences decoded,
/// each invalid sequence replaced by U+FFFD.
pub uninterp spec fn spec_utf8_lossy(bytes: Seq<u8>) -> Seq<char>;

/// The text that `format!("{:?}", s)` gives for a string: `s` quoted, with escapes.
pub uninterp spec fn spec_debug_str(s: Seq<char>) -> Seq<char>;

/// Calls `String::from_utf8_lossy`: the bytes as text, with U+FFFD in place of each
/// invalid UTF-8 sequence. Stated: it is a function of the bytes, and on valid
/// UTF-8 it is the decoded text; which replacement characters appear for invalid
/// input is not stated.
#[verifier::external_body]
pub fn utf8_lossy(bytes: &[u8]) -> (s: String)
    ensures
        s@ == spec_utf8_lossy(bytes@),
        vstd::utf8::valid_utf8(bytes@) ==> s@ == vstd::utf8::decode_utf8(bytes@),
{
    String::from_utf8_lossy(bytes).into_owned()
}

/// Calls `format!("{:?}", s)` on a string slice. Stated: the result is a function
/// of the characters of `s`; the quoting and escaping rules are not stated.
#[verifier::external_body]
pub fn debug_str(s: &str) -> (quoted: String)
    ensures
        quoted@ == spec_debug_str(s@),
{
    format!("{:?}", s)
}

/// Calls `std::str::from_utf8`: the bytes as a string slice when they are valid
/// UTF-8, nothing otherwise.
#[verifier::external_body]
pub fn str_from_utf8(bytes: &[u8]) -> (r: Option<&str>)
    ensures
        r is Some <==> vstd::utf8::valid_utf8(bytes@),
        r matches Some(s) ==> s.spec_bytes() == bytes@,
{
    std::str::from_utf8(bytes).ok()
}

/// Calls `String::push`: appends one character.
#[verifier::external_body]
pub fn push_char(s: &mut String, c: char)
    ensures
        final(s)@ == old(s)@.push(c),
{
    s.push(c)
}

/// The characters of `s`, in order.
pub fn str_chars(s: &str) -> (chars: Vec<char>)
    ensures
        chars@ == s@,
{
    broadcast use vstd::string::axiom_spec_iter;
    let mut v: Vec<char> = Vec::new();
    for c in it: s.chars()
        invariant
            v@.len() == it.index(),
            forall|i: int| 0 <= i < v@.len() ==> v@[i] == it.seq()[i],
    {
        v.push(c);
    }
    assert(v@ =~= s@);
    v
}

/// Appends the characters of `cs` to `s`.
pub fn push_chars(s: &mut String, cs: &[char])
    ensures
        final(s)@ == old(s)@ + cs@,
{
    let mut i: usize = 0;
    while i < cs.len()
        invariant
            i <= cs@.len(),
            s@ == old(s)@ + cs@.take(i as int),
        decreases cs@.len() - i,
    {
        push_char(s, cs[i]);
        i = i + 1;
        assert(cs@.take(i as int) =~= cs@.take(i - 1).push(cs@[i - 1]));
    }
    assert(cs@.take(cs@.len() as int) =~= cs@);
}

/// A string holding the characters of `cs`.
pub fn string_from_chars(cs: &[char]) -> (s: String)
    ensures
        s@ == cs@,
{
    let mut s = String::new();
    push_chars(&mut s, cs);
    s
}

/// A string holding the text of `t`.
pub fn string_of(t: &str) -> (s: String)
    ensures
        s@ == t@,
{
    String::from_str(t)
}

/// Appends the text of `t` to `s`.
pub fn push_str(s: &mut String, t: &str)
    ensures
        final(s)@ == old(s)@ + t@,
{
    s.append(t);
}

/// The character of digit `d`.
pub fn digit(d: u64) -> (c: char)
    requires
        d < 16,
    ensures
        c == digit_char(d as nat),
{
    if d < 10 {
        ((48 + d) as u8) as char
    } else {
        ((87 + d) as u8) as char
    }
}

/// The uppercase hexadecimal digit of `d`.
pub fn upper_digit(d: u64) -> (c: char)
    requires
        d < 16,
    ensures
        c == upper_digit_char(d as nat),
{
    if d < 10 {
        ((48 + d) as u8) as char
    } else {
        ((55 + d) as u8) as char
    }
}

/// The uppercase hexadecimal numeral of `n`.
pub fn upper_hex_chars(n: u64) -> (cs: Vec<char>)
    ensures
        cs@ == upper_hex(n as nat),
    decreases n,
{
    if n < 16 {
        let mut cs = Vec::new();
        cs.push(upper_digit(n));
        assert(cs@ =~= seq![upper_digit_char(n as nat)]);
        cs
    } else {
        let mut cs = upper_hex_chars(n / 16);
        cs.push(upper_digit(n % 16));
        cs
    }
}

/// Appends the uppercase hexadecimal numeral of `n` to `s`.
pub fn push_upper_hex(s: &mut String, n: u64)
    ensures
        final(s)@ == old(s)@ + upper_hex(n as nat),
{
    let cs = upper_hex_chars(n);
    push_chars(s, cs.as_slice());
}

/// The decimal numeral of `n`.
pub fn decimal_chars(n: u64) -> (cs: Vec<char>)
    ensures
        cs@ == decimal(n as nat),
    decreases n,
{
    if n < 10 {
        let mut cs = Vec::new();
        cs.push(digit(n));
        assert(cs@ =~= seq![digit_char(n as nat)]);
        cs
    } else {
        let mut cs = decimal_chars(n / 10);
        cs.push(digit(n % 10));
        cs
    }
}

/// Appends the decimal numeral of `n` to `s`.
pub fn push_decimal(s: &mut String, n: u64)
    ensures
        final(s)@ == old(s)@ + decimal(n as nat),
{
    let cs = decimal_chars(n);
    push_chars(s, cs.as_slice());
}

/// Appends the decimal numeral of the signed number `n` to `s`.
pub fn push_signed_decimal(s: &mut String, n: i64)
    ensures
        final(s)@ == old(s)@ + signed_decimal(n as int),
{
    if n < 0 {
        push_char(s, '-');
        let magnitude: u64 = if n == i64::MIN {
            0x8000_0000_0000_0000u64
        } else {
            (-n) as u64
        };
        let cs = decimal_chars(magnitude);
        push_chars(s, cs.as_slice());
        assert(final(s)@ =~= old(s)@ + signed_decimal(n as int));
    } else {
        push_decimal(s, n as u64);
    }
}

/// The lower-case hexadecimal numeral of `n`.
pub fn hex_chars(n: u64) -> (cs: Vec<char>)
    ensures
        cs@ == hex(n as nat),
    decreases n,
{
    if n < 16 {
        let mut cs = Vec::new();
        cs.push(digit(n));
        assert(cs@ =~= seq![digit_char(n as nat)]);
        cs
    } else {
        let mut cs = hex_chars(n / 16);
        cs.push(digit(n % 16));
        cs
    }
}

/// Appends `n` as `format!("{:04x}", n)` writes it: lower-case hexadecimal,
/// padded with zeros to at least four digits.
pub fn push_hex4(s: &mut String, n: u64)
    ensures
        final(s)@ == old(s)@ + zero_pad4(hex(n as nat)),
{
    let cs = hex_chars(n);
    let ghost start = s@;
    let mut k: usize = cs.len();
    while k < 4
        invariant
            cs@.len() <= k <= 4 || (k == cs@.len() && k >= 4),
            s@ == start + Seq::new((k - cs@.len()) as nat, |i: int| '0'),
        decreases 4 - k,
    {
        push_char(s, '0');
        k = k + 1;
        assert(s@ =~= start + Seq::new((k - cs@.len()) as nat, |i: int| '0'));
    }
    push_chars(s, cs.as_slice());
    assert(final(s)@ =~= old(s)@ + zero_pad4(hex(n as nat)));
}

/// Whether `c` is Unicode white space.
pub fn is_whitespace(c: char) -> (b: bool)
    ensures
        b == is_white_space(c),
{
    let u = c as u32;
    u == 0x20 || (0x09 <= u && u <= 0x0d) || u == 0x85 || u == 0xa0 || u == 0x1680 || (0x2000 <= u
        && u <= 0x200a) || u == 0x2028 || u == 0x2029 || u == 0x202f || u == 0x205f || u == 0x3000
}

proof fn lemma_trim_start_skip(s: Seq<char>, i: int)
    requires
        0 <= i <= s.len(),
        forall|j: int| 0 <= j < i ==> is_white_space(#[trigger] s[j]),
    ensures
        trim_start(s) == trim_start(s.skip(i)),
    decreases i,
{
    if i > 0 {
        assert(s.skip(1) =~= s.drop_first());
        lemma_trim_start_skip(s.drop_first(), i - 1);
        assert(s.drop_first().skip(i - 1) =~= s.skip(i));
    } else {
        assert(s.skip(0) =~= s);
    }
}

proof fn lemma_trim_end_take(s: Seq<char>, k: int)
    requires
        0 <= k <= s.len(),
        forall|j: int| k <= j < s.len() ==> is_white_space(#[trigger] s[j]),
    ensures
        trim_end(s) == trim_end(s.take(k)),
    decreases s.len() - k,
{
    if k < s.len() {
        assert(s.take(s.len() - 1) =~= s.drop_last());
        lemma_trim_end_take(s.drop_last(), k);
        assert(s.drop_last().take(k) =~= s.take(k));
    } else {
        assert(s.take(k) =~= s);
    }
}

/// The characters of `s` without leading and trailing white space.
pub fn trim_chars(s: &[char]) -> (t: Vec<char>)
    ensures
        t@ == trim(s@),
{
    let mut i: usize = 0;
    while i < s.len() && is_whitespace(s[i])
        invariant
            i <= s@.len(),
            forall|j: int| 0 <= j < i ==> is_white_space(#[trigger] s@[j]),
        decreases s@.len() - i,
    {
        i = i + 1;
    }
    proof {
        lemma_trim_start_skip(s@, i as int);
        assert(trim_start(s@.skip(i as int)) == s@.skip(i as int));
    }
    let mut k: usize = s.len();
    while k > i && is_whitespace(s[k - 1])
        invariant
            i <= k <= s@.len(),
            forall|j: int| k <= j < s@.len() ==> is_white_space(#[trigger] s@[j]),
        decreases k,
    {
        k = k - 1;
    }
    let ghost rest = s@.skip(i as int);
    proof {
        assert forall|j: int| k - i <= j < rest.len() implies is_white_space(#[trigger] rest[j]) by {
            assert(rest[j] == s@[j + i]);
        }
        lemma_trim_end_take(rest, k - i);
        assert(rest.take(k - i) =~= s@.subrange(i as int, k as int));
        if k > i {
            assert(s@.subrange(i as int, k as int).last() == s@[k - 1]);
        }
    }
    let mut t: Vec<char> = Vec::new();
    let mut p: usize = i;
    while p < k
        invariant
            i <= p <= k <= s@.len(),
            t@ =~= s@.subrange(i as int, p as int),
        decreases k - p,
    {
        t.push(s[p]);
        p = p + 1;
    }
    t
}

proof fn lemma_split_on_nonempty<T>(s: Seq<T>, sep: T)
    ensures
        split_on(s, sep).len() >= 1,
    decreases s.len(),
{
    if s.len() > 0 {
        lemma_split_on_nonempty(s.drop_last(), sep);
    }
}

/// The pieces of `s` between occurrences of `sep`.
pub fn split_chars(s: &[char], sep: char) -> (pieces: Vec<Vec<char>>)
    ensures
        pieces@.len() == split_on(s@, sep).len(),
        forall|k: int| 0 <= k < pieces@.len() ==> #[trigger] pieces@[k]@ == split_on(s@, sep)[k],
{
    let mut done: Vec<Vec<char>> = Vec::new();
    let mut cur: Vec<char> = Vec::new();
    let mut i: usize = 0;
    while i < s.len()
        invariant
            i <= s@.len(),
            done@.len() + 1 == split_on(s@.take(i as int), sep).len(),
            forall|k: int|
                0 <= k < done@.len() ==> #[trigger] done@[k]@ == split_on(s@.take(i as int), sep)[k],
            cur@ == split_on(s@.take(i as int), sep).last(),
        decreases s@.len() - i,
    {
        let c = s[i];
        proof {
            let t = s@.take(i + 1);
            assert(t.drop_last() =~= s@.take(i as int));
            assert(t.last() == c);
            lemma_split_on_nonempty(s@.take(i as int), sep);
        }
        if c == sep {
            let finished = cur;
            done.push(finished);
            cur = Vec::new();
        } else {
            cur.push(c);
        }
        i = i + 1;
    }
    assert(s@.take(s@.len() as int) =~= s@);
    done.push(cur);
    done
}

proof fn lemma_find_from_next<T>(s: Seq<T>, pat: Seq<T>, i: nat)
    requires
        i + pat.len() <= s.len(),
        !matches_at(s, pat, i as int),
    ensures
        find_from(s, pat, i) == find_from(s, pat, i + 1),
{
}

/// Whether `pat` occurs in `s` at index `i`.
pub fn matches_at_exec(s: &[char], pat: &[char], i: usize) -> (b: bool)
    requires
        i + pat@.len() <= s@.len(),
    ensures
        b == matches_at(s@, pat@, i as int),
{
    let mut j: usize = 0;
    while j < pat.len()
        invariant
            i + pat@.len() <= s@.len(),
            j <= pat@.len(),
            forall|k: int| 0 <= k < j ==> s@[i + k] == pat@[k],
        decreases pat@.len() - j,
    {
        assert(i + j < s@.len());
        assert(s@.len() == s.len());
        if s[i + j] != pat[j] {
            assert(s@.subrange(i as int, i + pat@.len())[j as int] != pat@[j as int]);
            return false;
        }
        j = j + 1;
    }
    assert(s@.subrange(i as int, i + pat@.len()) =~= pat@);
    true
}

/// The first index where `pat` occurs in `s`.
pub fn find_chars(s: &[char], pat: &[char]) -> (r: Option<usize>)
    ensures
        match r {
            Some(i) => find(s@, pat@) == Some(i as nat),
            None => find(s@, pat@) is None,
        },
{
    if pat.len() > s.len() {
        return None;
    }
    let last = s.len() - pat.len();
    let mut i: usize = 0;
    loop
        invariant
            last + pat@.len() == s@.len(),
            i <= last,
            find(s@, pat@) == find_from(s@, pat@, i as nat),
        decreases last - i,
    {
        if matches_at_exec(s, pat, i) {
            return Some(i);
        }
        proof {
            lemma_find_from_next(s@, pat@, i as nat);
        }
        if i == last {
            return None;
        }
        i = i + 1;
    }
}

proof fn lemma_find_from_matches<T>(s: Seq<T>, pat: Seq<T>, j: nat)
    ensures
        find_from(s, pat, j) matches Some(i) ==> j <= i && matches_at(s, pat, i as int),
    decreases s.len() + 1 - j,
{
    if j + pat.len() <= s.len() && !matches_at(s, pat, j as int) {
        lemma_find_from_matches(s, pat, j + 1);
    }
}

/// Whether `pat` occurs somewhere in `s`.
pub fn contains_chars(s: &[char], pat: &[char]) -> (b: bool)
    ensures
        b == contains_seq(s@, pat@),
{
    find_chars(s, pat).is_some()
}

/// Whether the text `pat` occurs somewhere in the text `s`, as `str::contains` tests it.
pub fn str_contains(s: &str, pat: &str) -> (b: bool)
    ensures
        b == contains_seq(s@, pat@),
{
    let sc = str_chars(s);
    let pc = str_chars(pat);
    contains_chars(sc.as_slice(), pc.as_slice())
}

/// The parts of `s` before and after the first occurrence of `pat`.
pub fn split_once_chars(s: &[char], pat: &[char]) -> (r: Option<(Vec<char>, Vec<char>)>)
    ensures
        match r {
            Some((a, b)) => split_once(s@, pat@) == Some((a@, b@)),
            None => split_once(s@, pat@) is None,
        },
{
    match find_chars(s, pat) {
        Some(i) => {
            proof {
                lemma_find_from_matches(s@, pat@, 0);
            }
            let mut a: Vec<char> = Vec::new();
            let mut p: usize = 0;
            while p < i
                invariant
                    p <= i,
                    i + pat@.len() <= s@.len(),
                    a@ =~= s@.take(p as int),
                decreases i - p,
            {
                a.push(s[p]);
                p = p + 1;
            }
            let mut b: Vec<char> = Vec::new();
            assert(s@.len() == s.len());
            let mut q: usize = i + pat.len();
            let ghost start = q;
            while q < s.len()
                invariant
                    start <= q <= s@.len(),
                    b@ =~= s@.subrange(start as int, q as int),
                decreases s@.len() - q,
            {
                b.push(s[q]);
                q = q + 1;
            }
            assert(b@ =~= s@.skip(i + pat@.len()));
            Some((a, b))
        },
        None => None,
    }
}

} // verus!
