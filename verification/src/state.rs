use vstd::prelude::*;
use crate::window::Cursor;

verus! {

/// The editor's modes.
#[derive(Debug, Clone, Copy, PartialEq, Eq, Structural)]
pub enum Mode {
    Normal,
    Insert,
    Visual(VisualMode),
    CommandLine,
    Search,
    OperatorPending,
    Terminal,
    Replace,
    VirtualReplace,
    WaitMacroReg,
    WaitReplaceChar,
    BlockInsert { append: bool, anchor: Cursor, cursor: Cursor },
    InsertWaitRegister,
    InsertLiteral,
    InsertDigraph1(char),
    InsertOnce,
    CommandLineWaitRegister,
}

/// The kinds of visual selection.
#[derive(Debug, Clone, Copy, PartialEq, Eq, Structural)]
pub enum VisualMode {
    Char,
    Line,
    Block,
}

/// The attributes of a highlight group.
#[derive(Debug, Clone)]
pub struct HlAttrs {
    pub fg: Option<u32>,
    pub bg: Option<u32>,
    pub bold: bool,
    pub italic: bool,
    pub reverse: bool,
    pub underline: bool,
}

impl Default for HlAttrs {
    /// No colors and no attributes.
    fn default() -> (r: HlAttrs)
        ensures
            r.fg is None,
            r.bg is None,
            !r.bold,
            !r.italic,
            !r.reverse,
            !r.underline,
    {
        HlAttrs { fg: None, bg: None, bold: false, italic: false, reverse: false, underline: false }
    }
}

/// A timer of the event loop: the callback it runs, when it runs next (in
/// milliseconds of the loop's clock), and its period in milliseconds if it
/// repeats.
#[derive(Debug, Clone, Copy, PartialEq, Eq, Structural)]
pub struct UvEvent {
    pub callback_id: i32,
    pub next_run: u64,
    pub repeat: Option<u64>,
}

/// Whether a timer is due at time `now`.
pub open spec fn is_due(e: UvEvent, now: u64) -> bool {
    now >= e.next_run
}

/// The callbacks of the first `n` timers that are due at `now`, in order.
pub open spec fn due_callbacks(events: Seq<(i32, UvEvent)>, now: u64, n: int) -> Seq<i32>
    decreases n,
{
    if n <= 0 {
        Seq::empty()
    } else if is_due(events[n - 1].1, now) {
        due_callbacks(events, now, n - 1).push(events[n - 1].1.callback_id)
    } else {
        due_callbacks(events, now, n - 1)
    }
}

/// The first `n` timers after a step at `now`: a due timer that repeats
/// runs next a period after `now`, a due timer that does not is gone, the
/// others stay as they are.
pub open spec fn timers_after(events: Seq<(i32, UvEvent)>, now: u64, n: int) -> Seq<(i32, UvEvent)>
    decreases n,
{
    if n <= 0 {
        Seq::empty()
    } else {
        let rest = timers_after(events, now, n - 1);
        let (id, e) = events[n - 1];
        if !is_due(e, now) {
            rest.push((id, e))
        } else {
            match e.repeat {
                Some(r) => rest.push((id, UvEvent { next_run: (now + r) as u64, ..e })),
                None => rest,
            }
        }
    }
}

/// One step of the timers at time `now`: the callbacks of the due timers,
/// in the order of the list, then the callbacks run on every step; the
/// timers after the step (see [`timers_after`]).
pub fn step_timers(events: &mut Vec<(i32, UvEvent)>, checks: &Vec<i32>, now: u64) -> (to_run: Vec<i32>)
    requires
        forall|i: int| 0 <= i < old(events)@.len() && is_due(#[trigger] old(events)@[i].1, now)
            && old(events)@[i].1.repeat is Some ==> now + old(events)@[i].1.repeat->0 <= u64::MAX,
    ensures
        to_run@ == due_callbacks(old(events)@, now, old(events)@.len() as int) + checks@,
        final(events)@ == timers_after(old(events)@, now, old(events)@.len() as int),
{
    let mut to_run: Vec<i32> = Vec::new();
    let mut kept: Vec<(i32, UvEvent)> = Vec::new();
    let mut i: usize = 0;
    while i < events.len()
        invariant
            i <= events@.len(),
            forall|j: int| 0 <= j < events@.len() && is_due(#[trigger] events@[j].1, now)
                && events@[j].1.repeat is Some ==> now + events@[j].1.repeat->0 <= u64::MAX,
            to_run@ == due_callbacks(events@, now, i as int),
            kept@ == timers_after(events@, now, i as int),
        decreases events.len() - i,
    {
        let (id, e) = events[i];
        if now >= e.next_run {
            to_run.push(e.callback_id);
            match e.repeat {
                Some(r) => kept.push((id, UvEvent { next_run: now + r, ..e })),
                None => {},
            }
        } else {
            kept.push((id, e));
        }
        i = i + 1;
    }
    let ghost fired = to_run@;
    let mut k: usize = 0;
    while k < checks.len()
        invariant
            k <= checks@.len(),
            to_run@ == fired + checks@.take(k as int),
        decreases checks.len() - k,
    {
        to_run.push(checks[k]);
        k = k + 1;
        assert(to_run@ =~= fired + checks@.take(k as int));
    }
    assert(checks@.take(k as int) =~= checks@);
    *events = kept;
    to_run
}

/// What an autocommand runs: an Ex command or a registered callback.
#[derive(Clone)]
pub enum AutoCmdCallback {
    Command(String),
    Lua(i32),
}

/// An autocommand: what it runs, the pattern it is limited to, and
/// whether it runs once.
#[derive(Clone)]
pub struct AutoCmd {
    pub callback: AutoCmdCallback,
    pub pattern: Option<String>,
    pub once: bool,
}

/// The events that autocommands wait for.
#[derive(Debug, Clone, Copy, PartialEq, Eq, Hash, Structural)]
pub enum AutoCmdEvent {
    BufReadPre,
    BufReadPost,
    BufWritePre,
    BufWritePost,
    BufEnter,
    BufLeave,
    BufDelete,
    BufHidden,
    BufWinEnter,
    BufWinLeave,
    VimEnter,
    VimLeave,
    VimLeavePre,
    UIEnter,
    CursorMoved,
    CursorMovedI,
    TextChanged,
    TextChangedI,
    WinEnter,
    WinLeave,
    TabEnter,
    TabLeave,
    FileType,
    Syntax,
    InsertEnter,
    InsertLeave,
    User,
    ColorScheme,
    ColorSchemePre,
    SafeState,
    CursorHold,
    CursorHoldI,
    WinClosed,
    WinResized,
    VimResized,
}

/// The value of an option.
#[derive(Debug, Clone)]
pub enum OptionValue {
    Bool(bool),
    Int(i64),
    String(String),
}

/// What a change of mode does to the current buffer's undo groups.
#[derive(Debug, Clone, Copy, PartialEq, Eq, Structural)]
pub enum UndoGroupChange {
    Start,
    End,
    Keep,
}

/// Leaving normal mode for insert or visual mode starts an undo group;
/// going back to normal mode from insert, visual or block-insert mode ends
/// it; other changes leave the groups alone.
pub open spec fn undo_group_change_of(old: Mode, new: Mode) -> UndoGroupChange {
    if old == Mode::Normal && (new == Mode::Insert || new is Visual) {
        UndoGroupChange::Start
    } else if new == Mode::Normal && (old == Mode::Insert || old is Visual || old is BlockInsert) {
        UndoGroupChange::End
    } else {
        UndoGroupChange::Keep
    }
}

/// What changing the mode from `old` to `new` does to the undo groups.
pub fn undo_group_change(old: Mode, new: Mode) -> (r: UndoGroupChange)
    ensures
        r == undo_group_change_of(old, new),
{
    match (old, new) {
        (Mode::Normal, Mode::Insert) | (Mode::Normal, Mode::Visual(_)) => UndoGroupChange::Start,
        (Mode::Insert, Mode::Normal) | (Mode::Visual(_), Mode::Normal) | (Mode::BlockInsert { .. }, Mode::Normal) => UndoGroupChange::End,
        _ => UndoGroupChange::Keep,
    }
}

} // verus!
