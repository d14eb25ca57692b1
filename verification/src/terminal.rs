use vstd::prelude::*;
use crate::text::chars_of;

verus! {

/// An action read from terminal output.
#[derive(Debug, Clone, PartialEq, Eq, Structural)]

pub enum TermCommand {
    PutChar(char),
    SetFG(u8),
    SetBG(u8),
    ResetAttrs,
    ClearScreen,
    MoveCursor(usize, usize),
}

/// The state of an emulated terminal.
pub struct TerminalState {
    pub cursor_row: usize,
    pub cursor_col: usize,
    pub fg: u8,
    pub bg: u8,
}

/// The value of a string of decimal digits.
pub open spec fn decimal_value(s: Seq<char>) -> nat
    decreases s.len(),
{
    if s.len() == 0 {
        0
    } else {
        decimal_value(s.drop_last()) * 10 + ((s.last() as u32) - ('0' as u32)) as nat
    }
}

/// Every character is an ASCII digit.
pub open spec fn all_digits(s: Seq<char>) -> bool {
    forall|i: int| 0 <= i < s.len() ==> '0' <= #[trigger] s[i] && s[i] <= '9'
}

/// `u8::from_str` on a string of digits and semicolons: a non-empty string
/// of digits whose value is at most 255.
pub open spec fn parse_u8(s: Seq<char>) -> Option<u8> {
    if s.len() > 0 && all_digits(s) && decimal_value(s) <= 255 {
        Some(decimal_value(s) as u8)
    } else {
        None
    }
}

/// Parses an unsigned byte written in decimal digits.
fn parse_u8_digits(s: &Vec<char>, start: usize) -> (r: Option<u8>)
    requires
        start <= s@.len(),
    ensures
        r == parse_u8(s@.skip(start as int)),
{
    let ghost t = s@.skip(start as int);
    if start == s.len() {
        return None;
    }
    let mut value: u32 = 0;
    let mut i = start;
    while i < s.len()
        invariant
            start <= i <= s@.len(),
            t == s@.skip(start as int),
            start < s@.len(),
            all_digits(t.take(i - start)),
            value == decimal_value(t.take(i - start)),
            value <= 255,
        decreases s@.len() - i,
    {
        let c = s[i];
        assert(t.take(i - start + 1).drop_last() =~= t.take(i - start));
        assert(t[i - start] == c);
        if !('0' <= c && c <= '9') {
            assert(!all_digits(t)) by {
                assert(!('0' <= t[i - start] && t[i - start] <= '9'));
            }
            return None;
        }
        let d = (c as u32) - ('0' as u32);
        let next = value * 10 + d;
        if next > 255 {
            proof {
                lemma_decimal_prefix_le(t, i - start + 1);
            }
            return None;
        }
        value = next;
        i += 1;
    }
    assert(t.take(i - start) =~= t);
    Some(value as u8)
}

/// The value of a string of digits is at least the value of any prefix.
proof fn lemma_decimal_prefix_le(t: Seq<char>, k: int)
    requires
        0 <= k <= t.len(),
        all_digits(t.take(k)) || all_digits(t),
    ensures
        all_digits(t) ==> decimal_value(t.take(k)) <= decimal_value(t),
    decreases t.len() - k,
{
    if k < t.len() && all_digits(t) {
        lemma_decimal_prefix_le(t, k + 1);
        assert(t.take(k + 1).drop_last() =~= t.take(k));
        assert('0' <= t[k] && t[k] <= '9');
    } else if k == t.len() {
        assert(t.take(k) =~= t);
    }
}

/// The end of the run of digits and semicolons starting at `i`.
pub open spec fn params_end(s: Seq<char>, i: int) -> int
    decreases s.len() - i,
{
    if i < 0 || i >= s.len() {
        i
    } else if ('0' <= s[i] && s[i] <= '9') || s[i] == ';' {
        params_end(s, i + 1)
    } else {
        i
    }
}

/// Printing a character.
pub open spec fn printed(c: char) -> TermCommand {
    TermCommand::PutChar(c)
}

/// The escape character.
pub open spec fn is_esc(c: char) -> bool {
    c == '\x1B'
}

/// The commands read from `s[i..]`: a character other than ESC is printed;
/// ESC followed by `[`, digits and semicolons, and a final character is a
/// control sequence (see `csi_command`); ESC followed by anything else
/// drops that character.
pub open spec fn parsed_from(s: Seq<char>, i: int) -> Seq<TermCommand>
    decreases s.len() - i,
{
    if i < 0 || i >= s.len() {
        Seq::empty()
    } else if !is_esc(s[i]) {
        seq![printed(s[i])] + parsed_from(s, i + 1)
    } else if i + 1 >= s.len() {
        Seq::empty()
    } else if s[i + 1] != '[' {
        parsed_from(s, i + 2)
    } else {
        let j = params_end(s, i + 2);
        if j < i + 2 || j >= s.len() {
            Seq::empty()
        } else {
            csi_command(s.subrange(i + 2, j), s[j]) + parsed_from(s, j + 1)
        }
    }
}

/// What a complete control sequence with parameters `params` and final
/// character `cmd` produces.
pub open spec fn csi_command(params: Seq<char>, cmd: char) -> Seq<TermCommand> {
    if cmd == 'm' {
        if params == seq!['0'] || params.len() == 0 {
            seq![TermCommand::ResetAttrs]
        } else if params[0] == '3' {
            match parse_u8(params.skip(1)) {
                Some(v) => seq![TermCommand::SetFG(v)],
                None => Seq::empty(),
            }
        } else {
            Seq::empty()
        }
    } else if cmd == 'J' && params == seq!['2'] {
        seq![TermCommand::ClearScreen]
    } else {
        Seq::empty()
    }
}

proof fn lemma_params_end(s: Seq<char>, i: int)
    requires
        0 <= i <= s.len(),
    ensures
        i <= params_end(s, i) <= s.len(),
        forall|k: int| i <= k < params_end(s, i) ==> ('0' <= #[trigger] s[k] && s[k] <= '9') || s[k] == ';',
        params_end(s, i) < s.len() ==> !(('0' <= s[params_end(s, i)] && s[params_end(s, i)] <= '9')
            || s[params_end(s, i)] == ';'),
    decreases s.len() - i,
{
    if i < s.len() && (('0' <= s[i] && s[i] <= '9') || s[i] == ';') {
        lemma_params_end(s, i + 1);
    }
}

impl TerminalState {
    /// A terminal with the cursor at the origin, white on black.
    pub fn new() -> (t: TerminalState)
        ensures
            t.cursor_row == 0,
            t.cursor_col == 0,
            t.fg == 7,
            t.bg == 0,
    {
        TerminalState { cursor_row: 0, cursor_col: 0, fg: 7, bg: 0 }
    }

    /// Reads terminal output into commands.
    pub fn parse(&mut self, input: &str) -> (r: Vec<TermCommand>)
        ensures
            r@ == parsed_from(input@, 0),
            *final(self) == *old(self),
    {
        let s = chars_of(input);
        let mut commands: Vec<TermCommand> = Vec::new();
        let mut i: usize = 0;
        while i < s.len()
            invariant
                s@ == input@,
                i <= s@.len(),
                commands@ + parsed_from(s@, i as int) == parsed_from(s@, 0),
            decreases s@.len() - i,
        {
            let c = s[i];
            let ghost before = commands@;
            if c != '\x1B' {
                commands.push(TermCommand::PutChar(c));
                assert(before + parsed_from(s@, i as int) =~= commands@ + parsed_from(s@, i + 1));
                i += 1;
            } else if i + 1 >= s.len() {
                i += 1;
                assert(commands@ =~= commands@ + parsed_from(s@, i as int));
            } else if s[i + 1] != '[' {
                i += 2;
            } else {
                let start = i + 2;
                let mut j = start;
                while j < s.len() && (('0' <= s[j] && s[j] <= '9') || s[j] == ';')
                    invariant
                        s@ == input@,
                        start <= j <= s@.len(),
                        params_end(s@, start as int) == params_end(s@, j as int),
                    decreases s@.len() - j,
                {
                    j += 1;
                }
                proof {
                    lemma_params_end(s@, start as int);
                }
                assert(j == params_end(s@, start as int));
                if j >= s.len() {
                    i = j;
                    assert(commands@ =~= commands@ + parsed_from(s@, i as int));
                } else {
                    let cmd = s[j];
                    let ghost params = s@.subrange(start as int, j as int);
                    if cmd == 'm' {
                        if (j == start + 1 && s[start] == '0') || j == start {
                            commands.push(TermCommand::ResetAttrs);
                            proof {
                                if j == start + 1 {
                                    assert(params =~= seq!['0']);
                                }
                            }
                        } else if s[start] == '3' {
                            let sub = slice_to_vec(&s, start + 1, j);
                            assert(sub@ =~= params.skip(1));
                            match parse_u8_digits(&sub, 0) {
                                Some(color) => {
                                    commands.push(TermCommand::SetFG(color));
                                },
                                None => {},
                            }
                            assert(sub@.skip(0) =~= sub@);
                        } else {
                            proof {
                                if params =~= seq!['0'] {
                                    assert(params[0] == s@[start as int]);
                                }
                            }
                        }
                    } else if cmd == 'J' && j == start + 1 && s[start] == '2' {
                        commands.push(TermCommand::ClearScreen);
                        assert(params =~= seq!['2']);
                    } else {
                        proof {
                            if cmd == 'J' && params =~= seq!['2'] {
                                assert(params[0] == s@[start as int]);
                            }
                        }
                    }
                    assert(parsed_from(s@, i as int) == csi_command(params, cmd) + parsed_from(s@, j + 1));
                    assert(commands@ =~= before + csi_command(params, cmd));
                    assert(before + parsed_from(s@, i as int) =~= commands@ + parsed_from(s@, j + 1));
                    i = j + 1;
                }
            }
        }
        assert(commands@ =~= commands@ + parsed_from(s@, i as int));
        commands
    }
}

/// The characters `v[from..to]` as a new vector.
fn slice_to_vec(v: &Vec<char>, from: usize, to: usize) -> (r: Vec<char>)
    requires
        from <= to <= v@.len(),
    ensures
        r@ == v@.subrange(from as int, to as int),
{
    let mut r: Vec<char> = Vec::new();
    let mut k = from;
    while k < to
        invariant
            from <= k <= to,
            to <= v@.len(),
            r@ == v@.subrange(from as int, k as int),
        decreases to - k,
    {
        r.push(v[k]);
        assert(v@.subrange(from as int, k + 1) =~= v@.subrange(from as int, k as int).push(v@[k as int]));
        k += 1;
    }
    r
}

} // verus!
