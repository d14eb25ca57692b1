use vstd::prelude::*;
use crate::state::{AutoCmd, AutoCmdEvent};
use crate::statusline::opt_text;
use crate::text::str_eq;

verus! {

/// Whether an autocommand limited to `cmd_pattern` fires for `pattern`:
/// where a pattern is given, an autocommand with a pattern of its own
/// fires only for that very pattern.
pub open spec fn fires(cmd_pattern: Option<Seq<char>>, pattern: Option<Seq<char>>) -> bool {
    match (pattern, cmd_pattern) {
        (Some(p), Some(cp)) => cp == p,
        _ => true,
    }
}

/// The pattern of an autocommand.
pub open spec fn cmd_pattern(c: AutoCmd) -> Option<Seq<char>> {
    match c.pattern {
        Some(p) => Some(p@),
        None => None,
    }
}

/// The positions of the first `n` autocommands that fire, in order.
pub open spec fn fired_positions(cmds: Seq<AutoCmd>, pattern: Option<Seq<char>>, n: int) -> Seq<usize>
    decreases n,
{
    if n <= 0 {
        Seq::empty()
    } else if fires(cmd_pattern(cmds[n - 1]), pattern) {
        fired_positions(cmds, pattern, n - 1).push((n - 1) as usize)
    } else {
        fired_positions(cmds, pattern, n - 1)
    }
}

/// The positions of the first `n` autocommands that fire and run once.
pub open spec fn once_positions(cmds: Seq<AutoCmd>, pattern: Option<Seq<char>>, n: int) -> Seq<usize>
    decreases n,
{
    if n <= 0 {
        Seq::empty()
    } else if fires(cmd_pattern(cmds[n - 1]), pattern) && cmds[n - 1].once {
        once_positions(cmds, pattern, n - 1).push((n - 1) as usize)
    } else {
        once_positions(cmds, pattern, n - 1)
    }
}

fn fires_for(cmd: &AutoCmd, pattern: Option<&str>) -> (r: bool)
    ensures
        r == fires(cmd_pattern(*cmd), opt_text(pattern)),
{
    match (pattern, &cmd.pattern) {
        (Some(p), Some(cp)) => str_eq(cp.as_str(), p),
        _ => true,
    }
}

/// The autocommands of an event that fire for `pattern`, by position in
/// order, and those of them that run once and are to be removed.
pub fn select_autocmds(cmds: &Vec<AutoCmd>, pattern: Option<&str>) -> (r: (Vec<usize>, Vec<usize>))
    ensures
        r.0@ == fired_positions(cmds@, opt_text(pattern), cmds@.len() as int),
        r.1@ == once_positions(cmds@, opt_text(pattern), cmds@.len() as int),
{
    let mut fired: Vec<usize> = Vec::new();
    let mut once: Vec<usize> = Vec::new();
    let mut i: usize = 0;
    while i < cmds.len()
        invariant
            i <= cmds@.len(),
            fired@ == fired_positions(cmds@, opt_text(pattern), i as int),
            once@ == once_positions(cmds@, opt_text(pattern), i as int),
        decreases cmds.len() - i,
    {
        if fires_for(&cmds[i], pattern) {
            fired.push(i);
            if cmds[i].once {
                once.push(i);
            }
        }
        i = i + 1;
    }
    (fired, once)
}

/// The list after removing the autocommands at `positions`, the last
/// position first; a position past the end of the list is passed over.
pub open spec fn removed_at(cmds: Seq<AutoCmd>, positions: Seq<usize>) -> Seq<AutoCmd>
    decreases positions.len(),
{
    if positions.len() == 0 {
        cmds
    } else {
        let i = positions.last() as int;
        let rest = positions.drop_last();
        if i < cmds.len() { removed_at(cmds.remove(i), rest) } else { removed_at(cmds, rest) }
    }
}

/// Removes the one-shot autocommands that fired (see [`removed_at`]).
pub fn remove_fired_once(cmds: &mut Vec<AutoCmd>, positions: &Vec<usize>)
    ensures
        final(cmds)@ == removed_at(old(cmds)@, positions@),
{
    let mut k = positions.len();
    assert(positions@.take(k as int) =~= positions@);
    while k > 0
        invariant
            k <= positions@.len(),
            removed_at(old(cmds)@, positions@) == removed_at(cmds@, positions@.take(k as int)),
        decreases k,
    {
        let i = positions[k - 1];
        proof {
            assert(positions@.take(k as int).drop_last() =~= positions@.take(k - 1));
        }
        if i < cmds.len() {
            cmds.remove(i);
        }
        k = k - 1;
    }
    assert(positions@.take(0) =~= Seq::<usize>::empty());
}

/// The name of an event as a callback sees it; events without a name of
/// their own are called `User`.
pub open spec fn event_name_of(e: AutoCmdEvent) -> Seq<char> {
    match e {
        AutoCmdEvent::VimEnter => "VimEnter"@,
        AutoCmdEvent::UIEnter => "UIEnter"@,
        AutoCmdEvent::User => "User"@,
        AutoCmdEvent::BufReadPost => "BufReadPost"@,
        AutoCmdEvent::BufWritePost => "BufWritePost"@,
        AutoCmdEvent::FileType => "FileType"@,
        AutoCmdEvent::Syntax => "Syntax"@,
        AutoCmdEvent::SafeState => "SafeState"@,
        AutoCmdEvent::CursorHold => "CursorHold"@,
        AutoCmdEvent::CursorHoldI => "CursorHoldI"@,
        AutoCmdEvent::WinClosed => "WinClosed"@,
        AutoCmdEvent::WinResized => "WinResized"@,
        AutoCmdEvent::VimResized => "VimResized"@,
        AutoCmdEvent::ColorScheme => "ColorScheme"@,
        AutoCmdEvent::ColorSchemePre => "ColorSchemePre"@,
        _ => "User"@,
    }
}

/// The name of an event as a callback sees it (see [`event_name_of`]).
pub fn event_name(e: AutoCmdEvent) -> (r: &'static str)
    ensures
        r@ == event_name_of(e),
{
    match e {
        AutoCmdEvent::VimEnter => "VimEnter",
        AutoCmdEvent::UIEnter => "UIEnter",
        AutoCmdEvent::User => "User",
        AutoCmdEvent::BufReadPost => "BufReadPost",
        AutoCmdEvent::BufWritePost => "BufWritePost",
        AutoCmdEvent::FileType => "FileType",
        AutoCmdEvent::Syntax => "Syntax",
        AutoCmdEvent::SafeState => "SafeState",
        AutoCmdEvent::CursorHold => "CursorHold",
        AutoCmdEvent::CursorHoldI => "CursorHoldI",
        AutoCmdEvent::WinClosed => "WinClosed",
        AutoCmdEvent::WinResized => "WinResized",
        AutoCmdEvent::VimResized => "VimResized",
        AutoCmdEvent::ColorScheme => "ColorScheme",
        AutoCmdEvent::ColorSchemePre => "ColorSchemePre",
        _ => "User",
    }
}

} // verus!
