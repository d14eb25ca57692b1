use vstd::prelude::*;
use crate::lsp::{digits_result, parse_usize, parse_digits};
use crate::request::{Request, Operator, Motion, MouseButton, MouseAction};
use crate::text::chars_of;

verus! {

/// The number of `;` in `s`.
pub open spec fn semi_count(s: Seq<char>) -> nat
    decreases s.len(),
{
    if s.len() == 0 {
        0
    } else {
        semi_count(s.drop_last()) + if s.last() == ';' { 1nat } else { 0nat }
    }
}

/// The index of the first `;` in `s`, or -1.
pub open spec fn first_semi(s: Seq<char>) -> int
    decreases s.len(),
{
    if s.len() == 0 {
        -1
    } else {
        let f = first_semi(s.drop_last());
        if f >= 0 {
            f
        } else if s.last() == ';' {
            s.len() - 1
        } else {
            -1
        }
    }
}

/// The index of the last `;` in `s`, or -1.
pub open spec fn last_semi(s: Seq<char>) -> int
    decreases s.len(),
{
    if s.len() == 0 {
        -1
    } else if s.last() == ';' {
        s.len() - 1
    } else {
        last_semi(s.drop_last())
    }
}

/// The three fields of `s` separated by `;`, where there are exactly three
/// (what splitting at `;` gives when it gives three parts).
pub open spec fn three_fields(s: Seq<char>) -> Option<(Seq<char>, Seq<char>, Seq<char>)> {
    if semi_count(s) == 2 {
        let f = first_semi(s);
        let l = last_semi(s);
        Some((s.take(f), s.subrange(f + 1, l), s.skip(l + 1)))
    } else {
        None
    }
}

/// What `i32::from_str` reads: an optional sign, then at least one ASCII
/// digit and nothing else, of a value that fits.
pub open spec fn parse_i32(t: Seq<char>) -> Option<i32> {
    if t.len() > 0 && t[0] == '-' {
        match digits_result(t.drop_first()) {
            Some(v) => if v <= 0x8000_0000 { Some((-(v as int)) as i32) } else { None },
            None => None,
        }
    } else {
        let d = if t.len() > 0 && t[0] == '+' { t.drop_first() } else { t };
        match digits_result(d) {
            Some(v) => if v <= 0x7fff_ffff { Some(v as i32) } else { None },
            None => None,
        }
    }
}

/// The button of an SGR mouse report's first field.
pub open spec fn mouse_button(pb: i32) -> MouseButton {
    let b = pb & 0x43i32;
    if b == 0 {
        MouseButton::Left
    } else if b == 1 {
        MouseButton::Middle
    } else if b == 2 {
        MouseButton::Right
    } else if b == 64 {
        MouseButton::WheelUp
    } else if b == 65 {
        MouseButton::WheelDown
    } else {
        MouseButton::NoButton
    }
}

/// The action of an SGR mouse report: a drag where bit 0x20 is set, else a
/// release where the report ends in `m`, else a press.
pub open spec fn mouse_action(pb: i32, release: bool) -> MouseAction {
    if pb & 0x20i32 != 0 {
        MouseAction::Drag
    } else if release {
        MouseAction::Release
    } else {
        MouseAction::Press
    }
}

/// A cursor move of one step.
pub open spec fn arrow(motion: Motion) -> Request {
    Request::OpMotion { op: Operator::Move, motion, count: 1 }
}

/// The request that a terminal sequence `ESC [ s` stands for: an SGR mouse
/// report `<b;x;y` ending in `M` or `m` (a field that is no number reads
/// as 0), or an arrow key `A`, `B`, `C`, `D`; `None` for anything else.
pub open spec fn csi_request(s: Seq<char>) -> Option<Request> {
    if s.len() > 0 && s[0] == '<' {
        match three_fields(s.subrange(1, s.len() - 1)) {
            Some((b, x, y)) => {
                let pb = match parse_i32(b) { Some(v) => v, None => 0i32 };
                Some(Request::MouseEvent {
                    button: mouse_button(pb),
                    action: mouse_action(pb, s.last() == 'm'),
                    row: match parse_usize(y) { Some(v) => v, None => 0usize },
                    col: match parse_usize(x) { Some(v) => v, None => 0usize },
                })
            },
            None => None,
        }
    } else if s == seq!['A'] {
        Some(arrow(Motion::Up))
    } else if s == seq!['B'] {
        Some(arrow(Motion::Down))
    } else if s == seq!['C'] {
        Some(arrow(Motion::Right))
    } else if s == seq!['D'] {
        Some(arrow(Motion::Left))
    } else {
        None
    }
}

proof fn lemma_semi(s: Seq<char>)
    ensures
        semi_count(s) == 0 ==> first_semi(s) == -1 && last_semi(s) == -1,
        semi_count(s) >= 1 ==> 0 <= first_semi(s) <= last_semi(s) < s.len(),
        semi_count(s) >= 2 ==> first_semi(s) < last_semi(s),
    decreases s.len(),
{
    if s.len() > 0 {
        lemma_semi(s.drop_last());
    }
}

/// What `usize::from_str` reads from `cs[a..b]`.
fn parse_usize_at(cs: &Vec<char>, a: usize, b: usize) -> (r: Option<usize>)
    requires
        a <= b <= cs@.len(),
    ensures
        r == parse_usize(cs@.subrange(a as int, b as int)),
{
    let ghost t = cs@.subrange(a as int, b as int);
    if a < b && cs[a] == '+' {
        assert(t.drop_first() =~= cs@.subrange(a + 1, b as int));
        parse_digits(cs, a + 1, b)
    } else {
        parse_digits(cs, a, b)
    }
}

/// What `i32::from_str` reads from `cs[a..b]`.
fn parse_i32_at(cs: &Vec<char>, a: usize, b: usize) -> (r: Option<i32>)
    requires
        a <= b <= cs@.len(),
    ensures
        r == parse_i32(cs@.subrange(a as int, b as int)),
{
    let ghost t = cs@.subrange(a as int, b as int);
    let neg = a < b && cs[a] == '-';
    let start = if a < b && (cs[a] == '-' || cs[a] == '+') { a + 1 } else { a };
    proof {
        if a < b {
            assert(t.drop_first() =~= cs@.subrange(a + 1, b as int));
        }
    }
    match parse_digits(cs, start, b) {
        Some(v) => {
            if neg {
                if v <= 0x8000_0000 {
                    let r: i64 = -(v as i64);
                    Some(r as i32)
                } else {
                    None
                }
            } else if v <= 0x7fff_ffff {
                Some(v as i32)
            } else {
                None
            }
        },
        None => None,
    }
}

/// Decodes what follows `ESC [` in terminal input (see [`csi_request`]).
/// An SGR mouse report must end in an ASCII character.
pub fn decode_csi(seq: &str) -> (r: Option<Request>)
    requires
        seq@.len() > 0 && seq@[0] == '<' ==> seq@.len() >= 2 && (seq@.last() as u32) < 128,
    ensures
        r == csi_request(seq@),
{
    let cs = chars_of(seq);
    let ghost s = cs@;
    let n = cs.len();
    if n > 0 && cs[0] == '<' {
        let ghost inner = s.subrange(1, n - 1);
        let release = cs[n - 1] == 'm';
        let mut count: usize = 0;
        let mut first: Option<usize> = None;
        let mut last: Option<usize> = None;
        let mut k: usize = 1;
        while k < n - 1
            invariant
                1 <= k <= n - 1,
                n == s.len(),
                s == cs@,
                inner == s.subrange(1, n - 1),
                count <= k,
                count == semi_count(inner.take(k - 1)),
                (match first { Some(f) => f as int, None => -1int }) == first_semi(inner.take(k - 1)),
                (match last { Some(l) => l as int, None => -1int }) == last_semi(inner.take(k - 1)),
            decreases n - 1 - k,
        {
            proof {
                assert(inner.take(k as int).drop_last() =~= inner.take(k - 1));
                assert(inner.take(k as int).last() == cs@[k as int]);
            }
            if cs[k] == ';' {
                count += 1;
                if first.is_none() {
                    first = Some(k - 1);
                }
                last = Some(k - 1);
            }
            k += 1;
        }
        proof {
            assert(inner.take(n - 2) =~= inner);
            lemma_semi(inner);
        }
        if count != 2 {
            return None;
        }
        let f = match first { Some(f) => f, None => 0 };
        let l = match last { Some(l) => l, None => 0 };
        proof {
            assert(inner.take(f as int) =~= s.subrange(1, 1 + f));
            assert(inner.subrange(f + 1, l as int) =~= s.subrange(f + 2, l + 1));
            assert(inner.skip(l + 1) =~= s.subrange(l + 2, n - 1));
        }
        let pb = match parse_i32_at(&cs, 1, 1 + f) {
            Some(v) => v,
            None => 0,
        };
        let px = match parse_usize_at(&cs, f + 2, l + 1) {
            Some(v) => v,
            None => 0,
        };
        let py = match parse_usize_at(&cs, l + 2, n - 1) {
            Some(v) => v,
            None => 0,
        };
        let button = match pb & 0x43 {
            0 => MouseButton::Left,
            1 => MouseButton::Middle,
            2 => MouseButton::Right,
            64 => MouseButton::WheelUp,
            65 => MouseButton::WheelDown,
            _ => MouseButton::NoButton,
        };
        let action = if pb & 0x20 != 0 {
            MouseAction::Drag
        } else if release {
            MouseAction::Release
        } else {
            MouseAction::Press
        };
        return Some(Request::MouseEvent { button, action, row: py, col: px });
    }
    if n == 1 {
        proof {
            assert(s =~= seq![s[0]]);
        }
        let c = cs[0];
        if c == 'A' {
            return Some(Request::OpMotion { op: Operator::Move, motion: Motion::Up, count: 1 });
        } else if c == 'B' {
            return Some(Request::OpMotion { op: Operator::Move, motion: Motion::Down, count: 1 });
        } else if c == 'C' {
            return Some(Request::OpMotion { op: Operator::Move, motion: Motion::Right, count: 1 });
        } else if c == 'D' {
            return Some(Request::OpMotion { op: Operator::Move, motion: Motion::Left, count: 1 });
        }
        return None;
    }
    proof {
        assert(s.len() != 1);
        assert(s != seq!['A']);
        assert(s != seq!['B']);
        assert(s != seq!['C']);
        assert(s != seq!['D']);
    }
    None
}

} // verus!
