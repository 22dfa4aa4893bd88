//! The `input` shell commands that simulate touches, swipes, keys and text.
use vstd::prelude::*;
use vstd::string::*;

use crate::error::AdbError;
use crate::shell::AdbShellResponse;
use crate::text::{decimal, push_char, push_decimal, push_signed_decimal, push_str, signed_decimal, str_chars, string_of};

verus! {

/// Direction for swipe operations.
#[derive(Debug, Clone, Copy, PartialEq, Eq)]
pub enum SwipeDirection {
    Up,
    Down,
    Left,
    Right,
}

/// Keycodes commonly used for system key events.
pub struct KeyCode;

impl KeyCode {
    pub const HOME: &'static str = "KEYCODE_HOME";
    pub const BACK: &'static str = "KEYCODE_BACK";
    pub const APP_SWITCH: &'static str = "KEYCODE_APP_SWITCH";
    pub const POWER: &'static str = "KEYCODE_POWER";
    pub const VOLUME_UP: &'static str = "KEYCODE_VOLUME_UP";
    pub const VOLUME_DOWN: &'static str = "KEYCODE_VOLUME_DOWN";
    pub const ENTER: &'static str = "KEYCODE_ENTER";
    pub const TAB: &'static str = "KEYCODE_TAB";
    pub const SPACE: &'static str = "KEYCODE_SPACE";
    pub const DEL: &'static str = "KEYCODE_DEL";
}

/// A space and the decimal numeral of `n`.
pub open spec fn arg(n: nat) -> Seq<char> {
    seq![' '] + decimal(n)
}

/// `input tap {x} {y}`.
pub open spec fn spec_tap(x: u32, y: u32) -> Seq<char> {
    "input tap"@ + arg(x as nat) + arg(y as nat)
}

/// `input {verb} {sx} {sy} {ex} {ey}` with ` {duration}` when a duration is given.
pub open spec fn spec_gesture(verb: Seq<char>, sx: u32, sy: u32, ex: u32, ey: u32, duration_ms: Option<u32>) -> Seq<char> {
    let base = "input "@ + verb + arg(sx as nat) + arg(sy as nat) + arg(ex as nat) + arg(ey as nat);
    match duration_ms {
        Some(d) => base + arg(d as nat),
        None => base,
    }
}

/// `input keyevent {keycode}`.
pub open spec fn spec_key(keycode: Seq<char>) -> Seq<char> {
    "input keyevent "@ + keycode
}

/// `text` with every space replaced by `%s`, as `adb shell input text` expects.
pub open spec fn escape_spaces(text: Seq<char>) -> Seq<char>
    decreases text.len(),
{
    if text.len() == 0 {
        Seq::empty()
    } else {
        escape_spaces(text.drop_last()) + if text.last() == ' ' {
            seq!['%', 's']
        } else {
            seq![text.last()]
        }
    }
}

/// `input text '{escaped}'`.
pub open spec fn spec_text(text: Seq<char>) -> Seq<char> {
    "input text '"@ + escape_spaces(text) + seq!['\'']
}

/// `input roll {dx} {dy}`.
pub open spec fn spec_roll(dx: i32, dy: i32) -> Seq<char> {
    "input roll"@ + seq![' '] + signed_decimal(dx as int) + seq![' '] + signed_decimal(dy as int)
}

/// Where a directional swipe from `(cx, cy)` ends: `distance` away, stopping at
/// zero when moving up or left.
pub open spec fn spec_swipe_end(cx: u32, cy: u32, distance: u32, direction: SwipeDirection) -> (u32, u32) {
    match direction {
        SwipeDirection::Up => (cx, if cy >= distance { (cy - distance) as u32 } else { 0 }),
        SwipeDirection::Down => (cx, (cy + distance) as u32),
        SwipeDirection::Left => (if cx >= distance { (cx - distance) as u32 } else { 0 }, cy),
        SwipeDirection::Right => ((cx + distance) as u32, cy),
    }
}

fn push_arg(s: &mut String, n: u32)
    ensures
        final(s)@ == old(s)@ + arg(n as nat),
{
    push_char(s, ' ');
    push_decimal(s, n as u64);
    assert(final(s)@ =~= old(s)@ + arg(n as nat));
}

/// The command for a tap at `(x, y)`.
pub fn tap_command(x: u32, y: u32) -> (c: String)
    ensures
        c@ == spec_tap(x, y),
{
    let mut c = string_of("input tap");
    push_arg(&mut c, x);
    push_arg(&mut c, y);
    assert(c@ =~= spec_tap(x, y));
    c
}

fn gesture_command(verb: &str, sx: u32, sy: u32, ex: u32, ey: u32, duration_ms: Option<u32>) -> (c: String)
    ensures
        c@ == spec_gesture(verb@, sx, sy, ex, ey, duration_ms),
{
    let mut c = string_of("input ");
    push_str(&mut c, verb);
    push_arg(&mut c, sx);
    push_arg(&mut c, sy);
    push_arg(&mut c, ex);
    push_arg(&mut c, ey);
    match duration_ms {
        Some(d) => {
            push_arg(&mut c, d);
        },
        None => {},
    }
    assert(c@ =~= spec_gesture(verb@, sx, sy, ex, ey, duration_ms));
    c
}

/// The command for a swipe from `(sx, sy)` to `(ex, ey)`, lasting `duration_ms` when given.
pub fn swipe_command(sx: u32, sy: u32, ex: u32, ey: u32, duration_ms: Option<u32>) -> (c: String)
    ensures
        c@ == spec_gesture("swipe"@, sx, sy, ex, ey, duration_ms),
{
    gesture_command("swipe", sx, sy, ex, ey, duration_ms)
}

/// The command for a long press at `(x, y)`: a swipe that does not move.
pub fn long_press_command(x: u32, y: u32, duration_ms: u32) -> (c: String)
    ensures
        c@ == spec_gesture("swipe"@, x, y, x, y, Some(duration_ms)),
{
    swipe_command(x, y, x, y, Some(duration_ms))
}

/// The command for dragging from `(sx, sy)` and dropping at `(ex, ey)`.
pub fn drag_and_drop_command(sx: u32, sy: u32, ex: u32, ey: u32, duration_ms: Option<u32>) -> (c: String)
    ensures
        c@ == spec_gesture("draganddrop"@, sx, sy, ex, ey, duration_ms),
{
    gesture_command("draganddrop", sx, sy, ex, ey, duration_ms)
}

/// Where a directional swipe from `(cx, cy)` ends.
pub fn swipe_end(cx: u32, cy: u32, distance: u32, direction: SwipeDirection) -> (end: (u32, u32))
    requires
        direction == SwipeDirection::Down ==> cy + distance <= u32::MAX,
        direction == SwipeDirection::Right ==> cx + distance <= u32::MAX,
    ensures
        end == spec_swipe_end(cx, cy, distance, direction),
{
    match direction {
        SwipeDirection::Up => (cx, cy.saturating_sub(distance)),
        SwipeDirection::Down => (cx, cy + distance),
        SwipeDirection::Left => (cx.saturating_sub(distance), cy),
        SwipeDirection::Right => (cx + distance, cy),
    }
}

/// The command for a swipe of `distance` from `(cx, cy)` in `direction`.
pub fn swipe_directional_command(cx: u32, cy: u32, distance: u32, direction: SwipeDirection, duration_ms: u32) -> (c: String)
    requires
        direction == SwipeDirection::Down ==> cy + distance <= u32::MAX,
        direction == SwipeDirection::Right ==> cx + distance <= u32::MAX,
    ensures
        c@ == spec_gesture(
            "swipe"@,
            cx,
            cy,
            spec_swipe_end(cx, cy, distance, direction).0,
            spec_swipe_end(cx, cy, distance, direction).1,
            Some(duration_ms),
        ),
{
    let (ex, ey) = swipe_end(cx, cy, distance, direction);
    swipe_command(cx, cy, ex, ey, Some(duration_ms))
}

/// The swipes that draw a path through `points`: one between each point and the next.
pub fn path_commands(points: &[(u32, u32)], step_duration_ms: u32) -> (cs: Vec<String>)
    ensures
        points@.len() < 2 ==> cs@.len() == 0,
        points@.len() >= 2 ==> cs@.len() == points@.len() - 1,
        forall|k: int|
            0 <= k < cs@.len() ==> (#[trigger] cs@[k])@ == spec_gesture(
                "swipe"@,
                points@[k].0,
                points@[k].1,
                points@[k + 1].0,
                points@[k + 1].1,
                Some(step_duration_ms),
            ),
{
    let mut cs: Vec<String> = Vec::new();
    if points.len() < 2 {
        return cs;
    }
    let mut k: usize = 0;
    while k < points.len() - 1
        invariant
            points@.len() >= 2,
            k + 1 <= points@.len(),
            cs@.len() == k,
            forall|j: int|
                0 <= j < k ==> (#[trigger] cs@[j])@ == spec_gesture(
                    "swipe"@,
                    points@[j].0,
                    points@[j].1,
                    points@[j + 1].0,
                    points@[j + 1].1,
                    Some(step_duration_ms),
                ),
        decreases points@.len() - k,
    {
        let (x1, y1) = points[k];
        let (x2, y2) = points[k + 1];
        cs.push(swipe_command(x1, y1, x2, y2, Some(step_duration_ms)));
        k = k + 1;
    }
    cs
}

/// The command for a key event.
pub fn key_command(keycode: &str) -> (c: String)
    ensures
        c@ == spec_key(keycode@),
{
    let mut c = string_of("input keyevent ");
    push_str(&mut c, keycode);
    c
}

/// The command that types `text` into the focused field.
pub fn text_command(text: &str) -> (c: String)
    ensures
        c@ == spec_text(text@),
{
    let mut c = string_of("input text '");
    let chars = str_chars(text);
    let ghost start = c@;
    let mut i: usize = 0;
    while i < chars.len()
        invariant
            i <= chars@.len(),
            chars@ == text@,
            c@ == start + escape_spaces(chars@.take(i as int)),
        decreases chars@.len() - i,
    {
        let ch = chars[i];
        proof {
            assert(chars@.take(i + 1).drop_last() =~= chars@.take(i as int));
        }
        if ch == ' ' {
            push_char(&mut c, '%');
            push_char(&mut c, 's');
        } else {
            push_char(&mut c, ch);
        }
        i = i + 1;
        assert(c@ =~= start + escape_spaces(chars@.take(i as int)));
    }
    push_char(&mut c, '\'');
    assert(chars@.take(chars@.len() as int) =~= chars@);
    assert(c@ =~= spec_text(text@));
    c
}

/// The command that rolls the trackball by `(dx, dy)`.
pub fn roll_command(dx: i32, dy: i32) -> (c: String)
    ensures
        c@ == spec_roll(dx, dy),
{
    let mut c = string_of("input roll");
    push_char(&mut c, ' ');
    push_signed_decimal(&mut c, dx as i64);
    push_char(&mut c, ' ');
    push_signed_decimal(&mut c, dy as i64);
    assert(c@ =~= spec_roll(dx, dy));
    c
}

/// The outcome of a double tap, given the first tap's response and the second
/// tap's outcome: the first response once the second tap succeeded, and the
/// second tap's error otherwise.
pub fn double_tap_outcome(
    first: AdbShellResponse,
    second: crate::error::Result<AdbShellResponse>,
) -> (r: crate::error::Result<AdbShellResponse>)
    ensures
        match second {
            Ok(_) => r == Ok::<AdbShellResponse, AdbError>(first),
            Err(e) => r == Err::<AdbShellResponse, AdbError>(e),
        },
{
    match second {
        Ok(_) => Ok(first),
        Err(e) => Err(e),
    }
}

/// A directional swipe moves along one axis only: up and down keep `x`, left and
/// right keep `y`; down and right move by exactly `distance`, up and left by
/// `distance` unless the edge at zero comes first, where they stop. Each end
/// coordinate depends only on the start on its own axis.
pub proof fn lemma_swipe_end_moves_along_its_axis(cx: u32, cy: u32, other: u32, distance: u32)
    ensures
        spec_swipe_end(cx, cy, distance, SwipeDirection::Up).0 == cx,
        cy - spec_swipe_end(cx, cy, distance, SwipeDirection::Up).1 == (if distance <= cy {
            distance as int
        } else {
            cy as int
        }),
        spec_swipe_end(cx, cy, distance, SwipeDirection::Left).1 == cy,
        cx - spec_swipe_end(cx, cy, distance, SwipeDirection::Left).0 == (if distance <= cx {
            distance as int
        } else {
            cx as int
        }),
        cy as int + distance <= u32::MAX ==> spec_swipe_end(cx, cy, distance, SwipeDirection::Down).0
            == cx && spec_swipe_end(cx, cy, distance, SwipeDirection::Down).1 - cy == distance,
        cx as int + distance <= u32::MAX ==> spec_swipe_end(cx, cy, distance, SwipeDirection::Right).1
            == cy && spec_swipe_end(cx, cy, distance, SwipeDirection::Right).0 - cx == distance,
        spec_swipe_end(cx, cy, distance, SwipeDirection::Left).0 == spec_swipe_end(
            cx,
            other,
            distance,
            SwipeDirection::Left,
        ).0,
        spec_swipe_end(cx, cy, distance, SwipeDirection::Up).1 == spec_swipe_end(
            other,
            cy,
            distance,
            SwipeDirection::Up,
        ).1,
{
}

/// Escaping spaces works piece by piece: the escape of a concatenation is the
/// concatenation of the escapes.
proof fn lemma_escape_spaces_concat(a: Seq<char>, b: Seq<char>)
    ensures
        escape_spaces(a + b) == escape_spaces(a) + escape_spaces(b),
    decreases b.len(),
{
    if b.len() == 0 {
        assert(a + b =~= a);
        assert(escape_spaces(a) + escape_spaces(b) =~= escape_spaces(a));
    } else {
        assert((a + b).drop_last() =~= a + b.drop_last());
        assert((a + b).last() == b.last());
        lemma_escape_spaces_concat(a, b.drop_last());
        let tail: Seq<char> = if b.last() == ' ' {
            seq!['%', 's']
        } else {
            seq![b.last()]
        };
        assert(escape_spaces(a) + escape_spaces(b.drop_last()) + tail =~= escape_spaces(a) + (
        escape_spaces(b.drop_last()) + tail));
    }
}

/// The number of spaces in `t`.
pub open spec fn space_count(t: Seq<char>) -> nat
    decreases t.len(),
{
    if t.len() == 0 {
        0
    } else {
        space_count(t.drop_last()) + if t.last() == ' ' {
            1nat
        } else {
            0nat
        }
    }
}

/// Text escaped for `input text` holds no space, and is longer than the text by
/// one character for each of its spaces.
proof fn lemma_escape_spaces_shape(t: Seq<char>)
    ensures
        !escape_spaces(t).contains(' '),
        escape_spaces(t).len() == t.len() + space_count(t),
    decreases t.len(),
{
    if t.len() > 0 {
        lemma_escape_spaces_shape(t.drop_last());
        let e = escape_spaces(t.drop_last());
        let tail: Seq<char> = if t.last() == ' ' {
            seq!['%', 's']
        } else {
            seq![t.last()]
        };
        assert(escape_spaces(t) == e + tail);
        assert forall|i: int| 0 <= i < (e + tail).len() implies (e + tail)[i] != ' ' by {
            if i < e.len() {
                assert((e + tail)[i] == e[i]);
                if e[i] == ' ' {
                    assert(e.contains(' '));
                }
            }
        }
    }
}

/// Every space of the text is escaped, wherever it stands: escaping `a`, a
/// space and `b` gives the escape of `a`, then `%s`, then the escape of `b`;
/// any other character is kept as it is. The result holds no space and is
/// longer than the text by one character per space.
pub proof fn lemma_every_space_is_escaped(a: Seq<char>, c: char, b: Seq<char>)
    ensures
        escape_spaces(a + seq![c] + b) == escape_spaces(a) + (if c == ' ' {
            seq!['%', 's']
        } else {
            seq![c]
        }) + escape_spaces(b),
        !escape_spaces(a).contains(' '),
        escape_spaces(a).len() == a.len() + space_count(a),
{
    lemma_escape_spaces_concat(a + seq![c], b);
    lemma_escape_spaces_concat(a, seq![c]);
    assert(seq![c].drop_last() =~= Seq::<char>::empty());
    assert(escape_spaces(Seq::<char>::empty()) =~= Seq::<char>::empty());
    lemma_escape_spaces_shape(a);
}

} // verus!
