use vstd::prelude::*;
use std::collections::HashMap;
use crate::memline::MemLine;
use crate::undo::{UndoTree, Action, ActionView, actions_view, lemma_actions_view_len, lemma_actions_view_index};
use crate::extmark::{ExtmarkManager, ExtmarkManagerView, Extmark, ExtmarkView, copy_extmark, marks_movable, moved_marks, opt_string_view, virt_text_view, marks_fit, lemma_marks_fit_left};
use crate::window::Cursor;
use crate::error::NvimError;
use crate::text::{chars_of, string_from_chars};
use vstd::string::StringExecFns;
use crate::assoc::{assoc_map, keys_unique, has_key, lemma_assoc_contains, lemma_assoc_get, lemma_assoc_update, lemma_assoc_push};

verus! {

broadcast use vstd::std_specs::hash::group_hash_axioms;

/// The row the cursor goes to when the line `lnum` goes away: the line
/// above, but not above the first.
pub open spec fn row_above(lnum: usize) -> usize {
    if lnum > 1 {
        (lnum - 1) as usize
    } else {
        1
    }
}

/// Undoing one change: the lines afterwards, and the cursor it reports,
/// or `None` where it fails (a line number out of range), the lines then
/// being as far as it came. A group is undone from its last change to its
/// first.
pub open spec fn undo_effect(a: ActionView, lines: Seq<Seq<char>>) -> (Seq<Seq<char>>, Option<Option<Cursor>>)
    decreases a,
{
    match a {
        ActionView::InsertLine { lnum, col, text } => {
            if 1 <= lnum <= lines.len() {
                (lines.remove(lnum - 1), Some(Some(Cursor { row: row_above(lnum), col })))
            } else {
                (lines, None)
            }
        },
        ActionView::DeleteLine { lnum, col, text } => {
            if 1 <= lnum <= lines.len() + 1 && lines.len() < usize::MAX {
                (lines.insert(lnum - 1, text), Some(Some(Cursor { row: lnum, col })))
            } else {
                (lines, None)
            }
        },
        ActionView::ReplaceLine { lnum, col, old_text, new_text } => {
            if 1 <= lnum <= lines.len() {
                (lines.update(lnum - 1, old_text), Some(Some(Cursor { row: lnum, col })))
            } else {
                (lines, None)
            }
        },
        ActionView::Group(acts) => undo_all(acts, lines),
    }
}

/// Undoing a sequence of changes, from the last to the first; the cursor
/// is that of the first change.
pub open spec fn undo_all(acts: Seq<ActionView>, lines: Seq<Seq<char>>) -> (Seq<Seq<char>>, Option<Option<Cursor>>)
    decreases acts,
{
    if acts.len() == 0 {
        (lines, Some(None))
    } else {
        let step = undo_effect(acts[acts.len() - 1], lines);
        if step.1 is None || acts.len() == 1 {
            step
        } else {
            undo_all(acts.subrange(0, acts.len() - 1), step.0)
        }
    }
}

/// Redoing one change: as [`undo_effect`], in the other direction. A group
/// is redone from its first change to its last.
pub open spec fn redo_effect(a: ActionView, lines: Seq<Seq<char>>) -> (Seq<Seq<char>>, Option<Option<Cursor>>)
    decreases a,
{
    match a {
        ActionView::InsertLine { lnum, col, text } => {
            if 1 <= lnum <= lines.len() + 1 && lines.len() < usize::MAX {
                (lines.insert(lnum - 1, text), Some(Some(Cursor { row: lnum, col })))
            } else {
                (lines, None)
            }
        },
        ActionView::DeleteLine { lnum, col, text } => {
            if 1 <= lnum <= lines.len() {
                (lines.remove(lnum - 1), Some(Some(Cursor { row: row_above(lnum), col })))
            } else {
                (lines, None)
            }
        },
        ActionView::ReplaceLine { lnum, col, old_text, new_text } => {
            if 1 <= lnum <= lines.len() {
                (lines.update(lnum - 1, new_text), Some(Some(Cursor { row: lnum, col })))
            } else {
                (lines, None)
            }
        },
        ActionView::Group(acts) => redo_all(acts, lines),
    }
}

/// Redoing a sequence of changes, from the first to the last; the cursor
/// is that of the last change.
pub open spec fn redo_all(acts: Seq<ActionView>, lines: Seq<Seq<char>>) -> (Seq<Seq<char>>, Option<Option<Cursor>>)
    decreases acts,
{
    if acts.len() == 0 {
        (lines, Some(None))
    } else {
        let step = redo_effect(acts[0], lines);
        if step.1 is None || acts.len() == 1 {
            step
        } else {
            redo_all(acts.subrange(1, acts.len() as int), step.0)
        }
    }
}

/// The history after a change `a` was recorded, from groups `g0` and
/// history `t0` to `g1` and `t1`: into the innermost open group if there is
/// one, else as a new current state of the history.
pub open spec fn recorded(g0: Seq<Seq<ActionView>>, t0: UndoTree, g1: Seq<Seq<ActionView>>, t1: UndoTree, a: ActionView) -> bool {
    if g0.len() > 0 {
        &&& g1 == g0.update(g0.len() - 1, g0.last().push(a))
        &&& t1 == t0
    } else {
        &&& g1 == g0
        &&& t1.nodes@.len() == t0.nodes@.len() + 1
        &&& t1.current_idx == t0.nodes@.len()
        &&& t1.undo_action() == Some(a)
        &&& t1.undo_target() == t0.current_idx
        &&& t1.nodes@[t0.current_idx as int].children@.len() > 0
        &&& t1.nodes@[t0.current_idx as int].children@.last() == t1.current_idx
    }
}

/// What is left of undoing a sequence after some of its last changes were
/// undone, the latest of them reporting cursor `pos`.
pub open spec fn undo_rest(acts: Seq<ActionView>, lines: Seq<Seq<char>>, pos: Option<Cursor>) -> (Seq<Seq<char>>, Option<Option<Cursor>>) {
    if acts.len() == 0 {
        (lines, Some(pos))
    } else {
        undo_all(acts, lines)
    }
}

/// What is left of redoing a sequence after some of its first changes were
/// redone, the latest of them reporting cursor `pos`.
pub open spec fn redo_rest(acts: Seq<ActionView>, lines: Seq<Seq<char>>, pos: Option<Cursor>) -> (Seq<Seq<char>>, Option<Option<Cursor>>) {
    if acts.len() == 0 {
        (lines, Some(pos))
    } else {
        redo_all(acts, lines)
    }
}

/// A line with character `c` put in at column `col`, or at its end where
/// `col` is past it.
pub open spec fn char_inserted(line: Seq<char>, col: usize, c: char) -> Seq<char> {
    if col <= line.len() {
        line.insert(col as int, c)
    } else {
        line.push(c)
    }
}

/// A line shifted right by `t` spaces, or left by the leading spaces that
/// [`spaces_to_remove`] counts.
pub open spec fn indented(line: Seq<char>, forward: bool, t: usize) -> Seq<char> {
    if forward {
        Seq::new(t as nat, |i: int| ' ') + line
    } else {
        line.skip(spaces_to_remove(line, t as nat) as int)
    }
}

/// The number of leading spaces of `line`, but at most `t`.
pub open spec fn spaces_to_remove(line: Seq<char>, t: nat) -> nat
    decreases t,
{
    if t == 0 || line.len() == 0 || line[0] != ' ' {
        0
    } else {
        1 + spaces_to_remove(line.drop_first(), (t - 1) as nat)
    }
}

/// A count that stops at `t`, at the end of the line or at a character
/// other than a space is the one [`spaces_to_remove`] gives.
pub proof fn lemma_spaces_to_remove(line: Seq<char>, t: nat, k: nat)
    requires
        k <= t,
        k <= line.len(),
        forall|i: int| 0 <= i < k ==> line[i] == ' ',
        k == t || k == line.len() || line[k as int] != ' ',
    ensures
        spaces_to_remove(line, t) == k,
    decreases k,
{
    if k > 0 {
        assert(line[0] == ' ');
        assert forall|i: int| 0 <= i < k - 1 implies line.drop_first()[i] == ' ' by {
            assert(line[i + 1] == ' ');
        }
        lemma_spaces_to_remove(line.drop_first(), (t - 1) as nat, (k - 1) as nat);
    }
}

/// The mark that [`Buffer::set_extmark`] sets: namespace 0, no end, no
/// decorations, drawn at the end of the line.
pub open spec fn plain_mark(id: i32, row: usize, col: usize) -> ExtmarkView {
    ExtmarkView {
        id: id,
        ns_id: 0,
        row: row,
        col: col,
        end_row: None,
        end_col: None,
        hl_group: None,
        virt_text: Seq::empty(),
        virt_text_pos: "eol"@,
        priority: 0,
    }
}

/// Undoing the replacement of line `lnum`, recorded with the line's old
/// text, gives back the old lines; redoing it gives the new ones again.
pub proof fn law_undo_redo_replace(lines: Seq<Seq<char>>, lnum: usize, col: usize, text: Seq<char>)
    requires
        1 <= lnum <= lines.len(),
    ensures
        ({
            let a = ActionView::ReplaceLine { lnum, col, old_text: lines[lnum - 1], new_text: text };
            let after = lines.update(lnum - 1, text);
            &&& redo_effect(a, lines) == (after, Some(Some(Cursor { row: lnum, col })))
            &&& undo_effect(a, after) == (lines, Some(Some(Cursor { row: lnum, col })))
        }),
{
    assert(lines.update(lnum - 1, text).update(lnum - 1, lines[lnum - 1]) =~= lines);
}

/// Undoing the insertion of a line gives back the lines before it; redoing
/// it inserts the line again.
pub proof fn law_undo_redo_insert(lines: Seq<Seq<char>>, lnum: usize, col: usize, text: Seq<char>)
    requires
        1 <= lnum <= lines.len() + 1,
        lines.len() < usize::MAX,
    ensures
        ({
            let a = ActionView::InsertLine { lnum, col, text };
            let after = lines.insert(lnum - 1, text);
            &&& redo_effect(a, lines) == (after, Some(Some(Cursor { row: lnum, col })))
            &&& undo_effect(a, after) == (lines, Some(Some(Cursor { row: row_above(lnum), col })))
        }),
{
    assert(lines.insert(lnum - 1, text).remove(lnum - 1) =~= lines);
}

/// Undoing the deletion of line `lnum`, recorded with its text, gives back
/// the lines before it; redoing it deletes the line again.
pub proof fn law_undo_redo_delete(lines: Seq<Seq<char>>, lnum: usize, col: usize)
    requires
        1 <= lnum <= lines.len(),
        lines.len() <= usize::MAX,
    ensures
        ({
            let a = ActionView::DeleteLine { lnum, col, text: lines[lnum - 1] };
            let after = lines.remove(lnum - 1);
            &&& redo_effect(a, lines) == (after, Some(Some(Cursor { row: row_above(lnum), col })))
            &&& undo_effect(a, after) == (lines, Some(Some(Cursor { row: lnum, col })))
        }),
{
    assert(lines.remove(lnum - 1).insert(lnum - 1, lines[lnum - 1]) =~= lines);
}

/// A change finds the text it expects: a deletion the line it deletes, a
/// replacement the line it replaces (as every change that the buffer
/// records does); a group, each of its changes in turn, each applying.
pub open spec fn consistent(a: ActionView, lines: Seq<Seq<char>>) -> bool
    decreases a,
{
    match a {
        ActionView::InsertLine { lnum, col, text } => true,
        ActionView::DeleteLine { lnum, col, text } => 1 <= lnum <= lines.len() && lines[lnum - 1] == text,
        ActionView::ReplaceLine { lnum, col, old_text, new_text } => 1 <= lnum <= lines.len() && lines[lnum - 1] == old_text,
        ActionView::Group(acts) => consistent_all(acts, lines),
    }
}

/// Each change of `acts` is consistent with the lines that the changes
/// before it leave, and applies.
pub open spec fn consistent_all(acts: Seq<ActionView>, lines: Seq<Seq<char>>) -> bool
    decreases acts,
{
    if acts.len() == 0 {
        true
    } else {
        &&& consistent(acts[0], lines)
        &&& redo_effect(acts[0], lines).1 is Some
        &&& consistent_all(acts.subrange(1, acts.len() as int), redo_effect(acts[0], lines).0)
    }
}

/// Undoing a sequence of changes is undoing all but the first, then the
/// first.
proof fn lemma_undo_all_split(acts: Seq<ActionView>, x: Seq<Seq<char>>)
    requires
        acts.len() >= 2,
    ensures
        ({
            let y = undo_all(acts.subrange(1, acts.len() as int), x);
            &&& y.1 is Some ==> undo_all(acts, x) == undo_effect(acts[0], y.0)
            &&& y.1 is None ==> undo_all(acts, x).1 is None
        }),
    decreases acts.len(),
{
    let n = acts.len() as int;
    let rest = acts.subrange(1, n);
    let front = acts.subrange(0, n - 1);
    assert(rest[n - 2] == acts[n - 1]);
    if n > 2 {
        lemma_undo_all_split(front, undo_effect(acts[n - 1], x).0);
        assert(front.subrange(1, n - 1) =~= rest.subrange(0, n - 2));
        assert(front[0] == acts[0]);
    } else {
        assert(front =~= seq![acts[0]]);
        assert(front[0] == acts[0]);
    }
}

/// Undoing a consistent change that applied gives back the lines it was
/// applied to, and succeeds.
pub proof fn law_undo_reverts(a: ActionView, lines: Seq<Seq<char>>)
    requires
        consistent(a, lines),
        redo_effect(a, lines).1 is Some,
        lines.len() <= usize::MAX,
    ensures
        redo_effect(a, lines).0.len() <= usize::MAX,
        undo_effect(a, redo_effect(a, lines).0).0 == lines,
        undo_effect(a, redo_effect(a, lines).0).1 is Some,
    decreases a,
{
    match a {
        ActionView::InsertLine { lnum, col, text } => {
            assert(lines.insert(lnum - 1, text).remove(lnum - 1) =~= lines);
        },
        ActionView::DeleteLine { lnum, col, text } => {
            assert(lines.remove(lnum - 1).insert(lnum - 1, text) =~= lines);
        },
        ActionView::ReplaceLine { lnum, col, old_text, new_text } => {
            assert(lines.update(lnum - 1, new_text).update(lnum - 1, old_text) =~= lines);
        },
        ActionView::Group(acts) => {
            law_undo_all_reverts(acts, lines);
        },
    }
}

/// Undoing a consistent sequence of changes that applied gives back the
/// lines it was applied to, and succeeds.
pub proof fn law_undo_all_reverts(acts: Seq<ActionView>, lines: Seq<Seq<char>>)
    requires
        consistent_all(acts, lines),
        lines.len() <= usize::MAX,
    ensures
        redo_all(acts, lines).1 is Some,
        redo_all(acts, lines).0.len() <= usize::MAX,
        undo_all(acts, redo_all(acts, lines).0).0 == lines,
        undo_all(acts, redo_all(acts, lines).0).1 is Some,
    decreases acts,
{
    let n = acts.len() as int;
    if n > 0 {
        let a0 = acts[0];
        law_undo_reverts(a0, lines);
        let l1 = redo_effect(a0, lines).0;
        if n > 1 {
            let rest = acts.subrange(1, n);
            law_undo_all_reverts(rest, l1);
            let r = redo_all(rest, l1).0;
            lemma_undo_all_split(acts, r);
        }
    }
}

/// The value of a [`Buffer`], apart from its public fields.
pub struct BufferView {
    pub id: i32,
    pub lines: Seq<Seq<char>>,
    pub full_name: Option<Seq<char>>,
    pub short_name: Option<Seq<char>>,
    pub modified: bool,
    pub readonly: bool,
    /// The open undo groups, innermost last, with the changes each holds.
    pub groups: Seq<Seq<ActionView>>,
    /// The undo history.
    pub history: UndoTree,
    /// The named marks.
    pub marks: Map<char, Cursor>,
    /// Virtual text, by line.
    pub virtual_text: Map<usize, String>,
    /// Signs, by line.
    pub signs: Map<usize, String>,
    /// The extended marks.
    pub extmarks: ExtmarkManagerView,
}

/// The value of each group of a stack of open undo groups.
pub open spec fn groups_view(g: Seq<Vec<Action>>) -> Seq<Seq<ActionView>> {
    Seq::new(g.len(), |i: int| actions_view(g[i]@))
}

/// `after` is `before` after the character before column `col` of line
/// `lnum` was deleted, answering `r` (see [`Buffer::delete_char`]).
pub open spec fn char_delete_done(before: BufferView, after: BufferView, lnum: usize, col: usize, r: Result<Option<usize>, NvimError>) -> bool {
    &&& (before.readonly ==> r == Err::<Option<usize>, NvimError>(NvimError::ReadOnly) && after == before)
    &&& (!before.readonly && !(1 <= lnum <= before.lines.len()) ==> (r matches Err(NvimError::Buffer(_)))
        && after == before)
    &&& (!before.readonly && lnum == 1 <= before.lines.len() && col == 0 ==> r == Ok::<Option<usize>, NvimError>(None)
        && after == before)
    &&& (!before.readonly && 2 <= lnum <= before.lines.len() && col == 0 ==> {
        let prev = before.lines[lnum - 2];
        let cur = before.lines[lnum - 1];
        &&& r == Ok::<Option<usize>, NvimError>(Some(prev.len() as usize))
        &&& after == (BufferView {
            lines: before.lines.update(lnum - 2, prev + cur).remove(lnum - 1),
            modified: true,
            groups: after.groups,
            history: after.history,
            extmarks: moved_marks(before.extmarks, lnum, 0, -1i32, 0),
            ..before
        })
        &&& exists|g: Seq<Seq<ActionView>>, h: UndoTree|
            recorded(before.groups, before.history, g, h,
                ActionView::ReplaceLine { lnum: (lnum - 1) as usize, col: 0, old_text: prev, new_text: prev + cur })
            && recorded(g, h, after.groups, after.history, ActionView::DeleteLine { lnum, col: 0, text: cur })
    })
    &&& (!before.readonly && 1 <= lnum <= before.lines.len() && col > 0 ==> {
        let line = before.lines[lnum - 1];
        &&& r == Ok::<Option<usize>, NvimError>(Some((col - 1) as usize))
        &&& col > line.len() ==> after == before
        &&& col <= line.len() ==> {
            &&& after == (BufferView {
                lines: before.lines.update(lnum - 1, line.remove(col - 1)),
                modified: true,
                groups: after.groups,
                history: after.history,
                extmarks: moved_marks(before.extmarks, lnum, col, 0, -1i32),
                ..before
            })
            &&& recorded(before.groups, before.history, after.groups, after.history,
                ActionView::ReplaceLine { lnum, col: (col - 1) as usize, old_text: line, new_text: line.remove(col - 1) })
        }
    })
}

/// `after` is `before` after `k` calls of [`Buffer::delete_char`] at line
/// `lnum` and column `col`, whatever each of them answered.
pub open spec fn chars_deleted(before: BufferView, after: BufferView, lnum: usize, col: usize, k: nat) -> bool
    decreases k,
{
    if k == 0 {
        after == before
    } else {
        exists|b1: BufferView, u: Result<Option<usize>, NvimError>| {
            &&& chars_deleted(before, b1, lnum, col, (k - 1) as nat)
            &&& #[trigger] char_delete_done(b1, after, lnum, col, u)
        }
    }
}

/// `line` with `k` characters cut from index `col` on (as many as there
/// are).
pub open spec fn cut_chars(line: Seq<char>, col: int, k: int) -> Seq<char> {
    if col < line.len() {
        line.take(col) + line.skip(if col + k < line.len() { col + k } else { line.len() as int })
    } else {
        line
    }
}

/// `after` is `before` once the `count` characters from column `col` of
/// line `lnum` on were deleted one by one (`x` with a count): the line
/// loses them, as many as it has; a read-only buffer, or one without that
/// line, stays as it was.
pub open spec fn chars_cut(before: BufferView, after: BufferView, lnum: usize, col: usize, count: nat) -> bool {
    &&& chars_deleted(before, after, lnum, (col + 1) as usize, count)
    &&& (before.readonly || !(1 <= lnum <= before.lines.len()) ==> after == before)
    &&& (!before.readonly && 1 <= lnum <= before.lines.len() ==> after == (BufferView {
        lines: before.lines.update(lnum - 1, cut_chars(before.lines[lnum - 1], col as int, count as int)),
        modified: before.modified || (count > 0 && col < before.lines[lnum - 1].len()),
        groups: after.groups,
        history: after.history,
        extmarks: after.extmarks,
        ..before
    }))
}

/// `after` is `before` after `k` deletes of line `lnum` (see
/// [`Buffer::delete_line`]), each of which succeeded.
pub open spec fn lines_deleted(before: BufferView, after: BufferView, lnum: usize, k: nat) -> bool
    decreases k,
{
    if k == 0 {
        after == before
    } else {
        exists|b1: BufferView| {
            &&& lines_deleted(before, b1, lnum, (k - 1) as nat)
            &&& #[trigger] line_delete_done(b1, after, lnum, Ok::<(), NvimError>(()))
        }
    }
}

/// The changes that `k` deletes of line `lnum` of `lines` record.
pub open spec fn line_deletes(lines: Seq<Seq<char>>, lnum: usize, k: nat) -> Seq<ActionView> {
    Seq::new(k, |j: int| ActionView::DeleteLine { lnum, col: 0, text: lines[lnum - 1 + j] })
}

/// What deletes of one line do inside an open undo group: the lines from
/// `lnum` on go, the group gains a change for each, and the undo history
/// is as it was.
pub proof fn lemma_lines_deleted(before: BufferView, after: BufferView, lnum: usize, k: nat)
    requires
        lines_deleted(before, after, lnum, k),
        before.groups.len() > 0,
    ensures
        k > 0 ==> !before.readonly && 1 <= lnum && lnum - 1 + k <= before.lines.len(),
        after == (BufferView {
            lines: before.lines.take(lnum - 1) + before.lines.skip(lnum - 1 + k),
            modified: before.modified || k > 0,
            groups: before.groups.update(before.groups.len() - 1, before.groups.last() + line_deletes(before.lines, lnum, k)),
            extmarks: after.extmarks,
            ..before
        }) || (k == 0 && after == before),
    decreases k,
{
    if k > 0 {
        let b1 = choose|b1: BufferView| {
            &&& lines_deleted(before, b1, lnum, (k - 1) as nat)
            &&& #[trigger] line_delete_done(b1, after, lnum, Ok::<(), NvimError>(()))
        };
        lemma_lines_deleted(before, b1, lnum, (k - 1) as nat);
        let l = before.lines;
        let m = lnum - 1;
        if k == 1 {
            assert(b1 == before);
        } else {
            assert(b1.lines == l.take(m) + l.skip(m + k - 1));
        }
        assert(b1.lines.len() == l.len() - (k - 1));
        assert(b1.lines.remove(m) =~= l.take(m) + l.skip(m + k));
        assert(b1.lines[m] == l[m + k - 1]);
        let g = before.groups;
        assert(line_deletes(l, lnum, (k - 1) as nat).push(ActionView::DeleteLine { lnum, col: 0, text: l[m + k - 1] })
            =~= line_deletes(l, lnum, k));
        if k == 1 {
            assert(g.last() + line_deletes(l, lnum, 0) =~= g.last());
            assert(g.update(g.len() - 1, g.last()) =~= g);
        }
        assert(after.groups =~= g.update(g.len() - 1, g.last() + line_deletes(l, lnum, k)));
        assert(after.lines =~= l.take(m) + l.skip(m + k));
    }
}

/// One delete of a character keeps the marks' columns fitting and adds one
/// undo step at most.
pub proof fn lemma_char_delete_bounds(before: BufferView, after: BufferView, lnum: usize, col: usize, u: Result<Option<usize>, NvimError>)
    requires
        char_delete_done(before, after, lnum, col, u),
        col >= 1,
        marks_fit(before.extmarks),
    ensures
        marks_fit(after.extmarks),
        after.history.nodes@.len() <= before.history.nodes@.len() + 1,
{
    lemma_marks_fit_left(before.extmarks, lnum, col);
}

/// What a run of deletes at one place does to the lines (see
/// [`chars_cut`]).
pub proof fn lemma_chars_deleted(before: BufferView, after: BufferView, lnum: usize, col: usize, k: nat)
    requires
        chars_deleted(before, after, lnum, (col + 1) as usize, k),
        col < usize::MAX,
    ensures
        chars_cut(before, after, lnum, col, k),
    decreases k,
{
    if k > 0 {
        let (b1, u) = choose|b1: BufferView, u: Result<Option<usize>, NvimError>| {
            &&& chars_deleted(before, b1, lnum, (col + 1) as usize, (k - 1) as nat)
            &&& #[trigger] char_delete_done(b1, after, lnum, (col + 1) as usize, u)
        };
        lemma_chars_deleted(before, b1, lnum, col, (k - 1) as nat);
        if !before.readonly && 1 <= lnum <= before.lines.len() {
            let l = before.lines[lnum - 1];
            let l1 = b1.lines[lnum - 1];
            let c = col as int;
            assert(l1 == cut_chars(l, c, k - 1));
            if c < l1.len() {
                assert(c < l.len());
                assert(l1.remove(c) =~= cut_chars(l, c, k as int));
                assert(after.lines =~= before.lines.update(lnum - 1, cut_chars(l, c, k as int)));
            } else {
                if c < l.len() {
                    assert(cut_chars(l, c, k as int) =~= l1);
                }
                assert(after.lines =~= before.lines.update(lnum - 1, cut_chars(l, c, k as int)));
            }
        }
    } else {
        if !before.readonly && 1 <= lnum <= before.lines.len() {
            let l = before.lines[lnum - 1];
            if (col as int) < l.len() {
                assert(cut_chars(l, col as int, 0) =~= l);
            }
            assert(before.lines.update(lnum - 1, cut_chars(l, col as int, 0)) =~= before.lines);
        }
    }
}

/// `after` is `before` after line `lnum` was deleted, answering `r` (see
/// [`Buffer::delete_line`]).
pub open spec fn line_delete_done(before: BufferView, after: BufferView, lnum: usize, r: Result<(), NvimError>) -> bool {
    &&& (before.readonly ==> r == Err::<(), NvimError>(NvimError::ReadOnly) && after == before)
    &&& (!before.readonly && !(1 <= lnum <= before.lines.len()) ==> (r matches Err(NvimError::Buffer(_)))
        && after == before)
    &&& (!before.readonly && 1 <= lnum <= before.lines.len() ==> {
        &&& r is Ok
        &&& after == (BufferView {
            lines: before.lines.remove(lnum - 1),
            modified: true,
            groups: after.groups,
            history: after.history,
            extmarks: moved_marks(before.extmarks, lnum, 0, -1i32, 0),
            ..before
        })
        &&& recorded(before.groups, before.history, after.groups, after.history,
            ActionView::DeleteLine { lnum, col: 0, text: before.lines[lnum - 1] })
    })
}

/// `after` is `before` after `text` was inserted as line `lnum`, answering
/// `r` (see [`Buffer::insert_line`]).
pub open spec fn line_insert_done(before: BufferView, after: BufferView, lnum: usize, text: Seq<char>, r: Result<(), NvimError>) -> bool {
    &&& (before.readonly ==> r == Err::<(), NvimError>(NvimError::ReadOnly) && after == before)
    &&& (!before.readonly && !(1 <= lnum <= before.lines.len() + 1) ==> (r matches Err(NvimError::Buffer(_)))
        && after == before)
    &&& (!before.readonly && 1 <= lnum <= before.lines.len() + 1 ==> {
        &&& r is Ok
        &&& after == (BufferView {
            lines: before.lines.insert(lnum - 1, text),
            modified: true,
            groups: after.groups,
            history: after.history,
            extmarks: moved_marks(before.extmarks, lnum, 0, 1, 0),
            ..before
        })
        &&& recorded(before.groups, before.history, after.groups, after.history,
            ActionView::InsertLine { lnum, col: 0, text: text })
    })
}

/// `after` is `before` after line `lnum` was set to `text`, answering `r`
/// (see [`Buffer::set_line`]).
pub open spec fn line_set_done(before: BufferView, after: BufferView, lnum: usize, col: usize, text: Seq<char>, r: Result<(), NvimError>) -> bool {
    &&& (before.readonly ==> r == Err::<(), NvimError>(NvimError::ReadOnly) && after == before)
    &&& (!before.readonly && !(1 <= lnum <= before.lines.len()) ==> (r matches Err(NvimError::Buffer(_)))
        && after == before)
    &&& (!before.readonly && 1 <= lnum <= before.lines.len() ==> {
        &&& r is Ok
        &&& after == (BufferView {
            lines: before.lines.update(lnum - 1, text),
            modified: true,
            groups: after.groups,
            history: after.history,
            ..before
        })
        &&& recorded(before.groups, before.history, after.groups, after.history,
            ActionView::ReplaceLine { lnum, col, old_text: before.lines[lnum - 1], new_text: text })
    })
}

/// `after` is `before` with its innermost undo group closed (see
/// [`Buffer::end_undo_group`]).
pub open spec fn group_ended(before: BufferView, after: BufferView) -> bool {
    &&& (before.groups.len() == 0 ==> after == before)
    &&& (before.groups.len() > 0 && before.groups.last().len() == 0 ==> after == (BufferView {
        groups: before.groups.drop_last(),
        ..before
    }))
    &&& (before.groups.len() > 0 && before.groups.last().len() > 0 ==> ({
        let popped = BufferView { groups: before.groups.drop_last(), ..before };
        &&& after == (BufferView { groups: after.groups, history: after.history, ..popped })
        &&& recorded(popped.groups, before.history, after.groups, after.history, ActionView::Group(before.groups.last()))
    }))
}

/// `after` is `before` after an undo that answered `r` (see
/// [`Buffer::undo`]).
pub open spec fn undo_done(before: BufferView, after: BufferView, r: Result<Option<Cursor>, NvimError>) -> bool {
    &&& (after.history == (UndoTree { current_idx: before.history.undo_target(), ..before.history }))
    &&& (match before.history.undo_action() {
        None => r == Ok::<Option<Cursor>, NvimError>(None)
            && after == (BufferView { history: after.history, ..before }),
        Some(a) => {
            &&& after == (BufferView {
                lines: undo_effect(a, before.lines).0,
                history: after.history,
                ..before
            })
            &&& match undo_effect(a, before.lines).1 {
                Some(c) => r == Ok::<Option<Cursor>, NvimError>(c),
                None => r matches Err(NvimError::Buffer(_)),
            }
        },
    })
}

/// `after` is `before` after a redo that answered `r` (see
/// [`Buffer::redo`]).
pub open spec fn redo_done(before: BufferView, after: BufferView, r: Result<Option<Cursor>, NvimError>) -> bool {
    &&& (match before.history.redo_target() {
        None => r == Ok::<Option<Cursor>, NvimError>(None) && after == before,
        Some(c) => {
            &&& after.history == (UndoTree { current_idx: c, ..before.history })
            &&& match before.history.action_at(c as int) {
                None => r == Ok::<Option<Cursor>, NvimError>(None)
                    && after == (BufferView { history: after.history, ..before }),
                Some(a) => {
                    &&& after == (BufferView {
                        lines: redo_effect(a, before.lines).0,
                        history: after.history,
                        ..before
                    })
                    &&& match redo_effect(a, before.lines).1 {
                        Some(p) => r == Ok::<Option<Cursor>, NvimError>(p),
                        None => r matches Err(NvimError::Buffer(_)),
                    }
                },
            }
        },
    })
}

/// `after` is `before` after `c` was put at `(lnum, col)`, answering `r`
/// (see [`Buffer::insert_char`]).
pub open spec fn char_insert_done(before: BufferView, after: BufferView, lnum: usize, col: usize, c: char, r: Result<(), NvimError>) -> bool {
    &&& (before.readonly ==> r == Err::<(), NvimError>(NvimError::ReadOnly) && after == before)
    &&& (!before.readonly && lnum == 0 ==> r is Ok && after == before)
    &&& (!before.readonly && 1 <= lnum <= before.lines.len() ==> {
        let line = before.lines[lnum - 1];
        &&& r is Ok
        &&& after == (BufferView {
            lines: before.lines.update(lnum - 1, char_inserted(line, col, c)),
            modified: true,
            groups: after.groups,
            history: after.history,
            extmarks: moved_marks(before.extmarks, lnum, col, 0, 1),
            ..before
        })
        &&& recorded(before.groups, before.history, after.groups, after.history,
            ActionView::ReplaceLine { lnum, col, old_text: line, new_text: char_inserted(line, col, c) })
    })
    &&& (!before.readonly && lnum > before.lines.len() ==> {
        &&& r is Ok
        &&& after == (BufferView {
            lines: before.lines.push(seq![c]),
            modified: true,
            groups: after.groups,
            history: after.history,
            extmarks: moved_marks(before.extmarks, lnum, 0, 0, 1),
            ..before
        })
        &&& recorded(before.groups, before.history, after.groups, after.history,
            ActionView::InsertLine { lnum: (before.lines.len() + 1) as usize, col: 0, text: seq![c] })
    })
}

/// `after` is `before` after line `lnum` was split at `col`, answering
/// `r` (see [`Buffer::insert_newline`]).
pub open spec fn newline_done(before: BufferView, after: BufferView, lnum: usize, col: usize, r: Result<(), NvimError>) -> bool {
    &&& (before.readonly ==> r == Err::<(), NvimError>(NvimError::ReadOnly) && after == before)
    &&& (!before.readonly && !(1 <= lnum <= before.lines.len()) ==> (r matches Err(NvimError::Buffer(_)))
        && after == before)
    &&& (!before.readonly && 1 <= lnum <= before.lines.len() ==> {
        let line = before.lines[lnum - 1];
        let k = if col < line.len() { col as int } else { line.len() as int };
        &&& r is Ok
        &&& after == (BufferView {
            lines: before.lines.update(lnum - 1, line.take(k)).insert(lnum as int, line.skip(k)),
            modified: true,
            groups: after.groups,
            history: after.history,
            ..before
        })
        &&& recorded(before.groups, before.history, after.groups, after.history,
            ActionView::ReplaceLine { lnum, col, old_text: line, new_text: line.take(k) })
    })
}

/// `after` is `before` after line `lnum` was indented, answering `r`
/// (see [`Buffer::indent_line`]).
pub open spec fn indent_done(before: BufferView, after: BufferView, lnum: usize, forward: bool, tabstop: usize, r: Result<(), NvimError>) -> bool {
    &&& (!(1 <= lnum <= before.lines.len()) ==> r is Ok && after == before)
    &&& (1 <= lnum <= before.lines.len() && before.readonly ==> r == Err::<(), NvimError>(NvimError::ReadOnly)
        && after == before)
    &&& (1 <= lnum <= before.lines.len() && !before.readonly ==> {
        let line = before.lines[lnum - 1];
        let new_line = indented(line, forward, tabstop);
        &&& r is Ok
        &&& after == (BufferView {
            lines: before.lines.update(lnum - 1, new_line),
            modified: true,
            groups: after.groups,
            history: after.history,
            ..before
        })
        &&& recorded(before.groups, before.history, after.groups, after.history,
            ActionView::ReplaceLine { lnum, col: 0, old_text: line, new_text: new_line })
    })
}

/// A buffer: its lines, history, marks and decorations.
pub struct Buffer {
    id: i32,
    memline: MemLine,
    full_name: Option<String>,
    short_name: Option<String>,
    /// The undo history.
    pub undo_tree: UndoTree,
    /// The named marks, by name.
    pub marks: Vec<(char, Cursor)>,
    /// Virtual text, by line.
    pub virtual_text: HashMap<usize, String>,
    /// Signs, by line.
    pub signs: HashMap<usize, String>,
    /// Extended marks.
    pub extmark_manager: ExtmarkManager,
    modified: bool,
    readonly: bool,
    undo_group_stack: Vec<Vec<Action>>,
}

impl View for Buffer {
    type V = BufferView;

    closed spec fn view(&self) -> BufferView {
        BufferView {
            id: self.id,
            lines: self.memline@,
            full_name: opt_string_view(self.full_name),
            short_name: opt_string_view(self.short_name),
            modified: self.modified,
            readonly: self.readonly,
            groups: groups_view(self.undo_group_stack@),
            history: self.undo_tree,
            marks: assoc_map(self.marks@),
            virtual_text: self.virtual_text@,
            signs: self.signs@,
            extmarks: self.extmark_manager@,
        }
    }
}

impl Buffer {
    /// Well-formedness: the lines, the history and the extended marks are
    /// well formed, the history collects no group of its own (the buffer
    /// keeps its groups), and no mark name occurs twice.
    pub closed spec fn wf(&self) -> bool {
        &&& self.memline.wf()
        &&& self.undo_tree.wf()
        &&& self.undo_tree.pending_group is None
        &&& self.undo_tree.group_depth == 0
        &&& self.extmark_manager.wf()
        &&& keys_unique(self.marks@)
    }

    /// An empty buffer with the given id.
    pub fn new(id: i32) -> (b: Buffer)
        ensures
            b.wf(),
            b@.id == id,
            b@.lines == Seq::<Seq<char>>::empty(),
            b@.full_name is None,
            b@.short_name is None,
            !b@.modified,
            !b@.readonly,
            b@.groups == Seq::<Seq<ActionView>>::empty(),
            b@.history.nodes@.len() == 1,
            b@.history.current_idx == 0,
            b@.marks == Map::<char, Cursor>::empty(),
            b@.virtual_text == Map::<usize, String>::empty(),
            b@.signs == Map::<usize, String>::empty(),
            b@.extmarks.marks == Map::<(i32, i32), ExtmarkView>::empty(),
            b@.extmarks.next_mark_id == 1,
    {
        let b = Buffer {
            id: id,
            memline: MemLine::new(),
            full_name: None,
            short_name: None,
            undo_tree: UndoTree::new(),
            marks: Vec::new(),
            virtual_text: HashMap::new(),
            signs: HashMap::new(),
            extmark_manager: ExtmarkManager::new(),
            modified: false,
            readonly: false,
            undo_group_stack: Vec::new(),
        };
        assert(groups_view(b.undo_group_stack@) =~= Seq::empty());
        assert(b@.marks =~= Map::<char, Cursor>::empty());
        b
    }

    /// Opens an undo group: changes until it closes form one step.
    pub fn start_undo_group(&mut self)
        ensures
            final(self)@ == (BufferView { groups: old(self)@.groups.push(Seq::empty()), ..old(self)@ }),
            final(self).wf() == old(self).wf(),
    {
        self.undo_group_stack.push(Vec::new());
        assert(groups_view(self.undo_group_stack@) =~= old(self)@.groups.push(Seq::empty()));
    }

    /// Records a change: into the innermost open group, or into the history.
    fn push_action(&mut self, action: Action)
        requires
            old(self).wf(),
            old(self)@.history.nodes@.len() < usize::MAX,
        ensures
            final(self).wf(),
            recorded(old(self)@.groups, old(self)@.history, final(self)@.groups, final(self)@.history, action@),
            final(self)@ == (BufferView { groups: final(self)@.groups, history: final(self)@.history, ..old(self)@ }),
    {
        let n = self.undo_group_stack.len();
        if n > 0 {
            let mut group = self.undo_group_stack.pop().unwrap();
            let ghost g0 = group@;
            group.push(action);
            self.undo_group_stack.push(group);
            proof {
                crate::undo::lemma_actions_view_push(g0, action);
                assert(groups_view(self.undo_group_stack@) =~= old(self)@.groups.update(
                    old(self)@.groups.len() - 1,
                    old(self)@.groups.last().push(action@),
                ));
            }
        } else {
            let ghost a = action@;
            self.undo_tree.push(action);
            proof {
                let t = self.undo_tree;
                let c = t.current_idx as int;
                assert(t.nodes@[c].parent matches Some(p) && p < c);
            }
        }
    }

    /// Closes the innermost undo group; its changes, if any, are recorded
    /// as one change.
    pub fn end_undo_group(&mut self)
        requires
            old(self).wf(),
            old(self)@.history.nodes@.len() < usize::MAX,
        ensures
            final(self).wf(),
            old(self)@.groups.len() == 0 ==> *final(self) == *old(self),
            group_ended(old(self)@, final(self)@),
    {
        if self.undo_group_stack.len() > 0 {
            let group = self.undo_group_stack.pop().unwrap();
            assert(groups_view(self.undo_group_stack@) =~= old(self)@.groups.drop_last());
            if group.len() > 0 {
                self.push_action(Action::Group(group));
            }
        }
    }

    /// The number of lines.
    pub fn line_count(&self) -> (r: usize)
        requires
            self.wf(),
        ensures
            r == self@.lines.len(),
    {
        self.memline.line_count()
    }

    /// Line `lnum`, counted from 1, if there is one.
    pub fn get_line(&self, lnum: usize) -> (r: Option<&str>)
        requires
            self.wf(),
        ensures
            r is Some <==> 1 <= lnum <= self@.lines.len(),
            r matches Some(s) ==> s@ == self@.lines[lnum - 1],
    {
        self.memline.get_line(lnum)
    }

    /// The named marks, each once, in the order they were first set.
    pub fn mark_list(&self) -> (r: &Vec<(char, Cursor)>)
        requires
            self.wf(),
        ensures
            keys_unique(r@),
            assoc_map(r@) == self@.marks,
    {
        &self.marks
    }

    /// Whether the buffer is read-only.
    pub fn is_readonly(&self) -> (r: bool)
        ensures
            r == self@.readonly,
    {
        self.readonly
    }

    /// The buffer's id.
    pub fn id(&self) -> (r: i32)
        ensures
            r == self@.id,
    {
        self.id
    }

    /// Whether the buffer changed since it was created or last marked as
    /// saved.
    pub fn is_modified(&self) -> (r: bool)
        ensures
            r == self@.modified,
    {
        self.modified
    }

    /// Marks the buffer as saved.
    pub fn clear_modified(&mut self)
        ensures
            final(self)@ == (BufferView { modified: false, ..old(self)@ }),
            final(self).wf() == old(self).wf(),
    {
        self.modified = false;
    }

    /// Names the buffer (both its full and its short name).
    pub fn set_name(&mut self, name: &str)
        ensures
            final(self)@ == (BufferView { full_name: Some(name@), short_name: Some(name@), ..old(self)@ }),
            final(self).wf() == old(self).wf(),
    {
        self.full_name = Some(name.to_owned());
        self.short_name = Some(name.to_owned());
    }

    /// The buffer's full name, if it has one.
    pub fn name(&self) -> (r: Option<&str>)
        ensures
            opt_str_view(r) == self@.full_name,
    {
        match &self.full_name {
            Some(s) => Some(s.as_str()),
            None => None,
        }
    }

    /// Sets the named mark `name`.
    pub fn set_mark(&mut self, name: char, cursor: Cursor)
        requires
            old(self).wf(),
        ensures
            final(self).wf(),
            final(self)@ == (BufferView { marks: old(self)@.marks.insert(name, cursor), ..old(self)@ }),
    {
        let ghost m0 = self.marks@;
        let mut i: usize = 0;
        while i < self.marks.len()
            invariant
                i <= self.marks@.len(),
                self.marks@ == m0,
                *self == *old(self),
                old(self).wf(),
                forall|j: int| 0 <= j < i ==> #[trigger] m0[j].0 != name,
            decreases self.marks@.len() - i,
        {
            if self.marks[i].0 == name {
                self.marks.set(i, (name, cursor));
                proof {
                    assert(self.marks@ == m0.update(i as int, (m0[i as int].0, cursor)));
                    lemma_assoc_update(m0, i as int, cursor);
                }
                return;
            }
            i += 1;
        }
        self.marks.push((name, cursor));
        proof {
            if has_key(m0, name) {
                let j = choose|j: int| 0 <= j < m0.len() && #[trigger] m0[j].0 == name;
                assert(m0[j].0 != name);
            }
            lemma_assoc_push(m0, name, cursor);
        }
    }

    /// The named mark `name`, if it is set.
    pub fn get_mark(&self, name: char) -> (r: Option<Cursor>)
        requires
            self.wf(),
        ensures
            r == (if self@.marks.contains_key(name) {
                Some(self@.marks[name])
            } else {
                None
            }),
    {
        let mut i: usize = 0;
        while i < self.marks.len()
            invariant
                i <= self.marks@.len(),
                keys_unique(self.marks@),
                forall|j: int| 0 <= j < i ==> #[trigger] self.marks@[j].0 != name,
            decreases self.marks@.len() - i,
        {
            if self.marks[i].0 == name {
                proof {
                    lemma_assoc_get(self.marks@, i as int);
                }
                return Some(self.marks[i].1);
            }
            i += 1;
        }
        proof {
            lemma_assoc_contains(self.marks@, name);
            if has_key(self.marks@, name) {
                let j = choose|j: int| 0 <= j < self.marks@.len() && #[trigger] self.marks@[j].0 == name;
                assert(self.marks@[j].0 != name);
            }
        }
        None
    }

    /// Sets the virtual text shown at line `lnum`.
    pub fn set_virtual_text(&mut self, lnum: usize, text: String)
        ensures
            final(self)@ == (BufferView { virtual_text: old(self)@.virtual_text.insert(lnum, text), ..old(self)@ }),
            final(self).wf() == old(self).wf(),
    {
        self.virtual_text.insert(lnum, text);
    }

    /// The virtual text at line `lnum`, if any.
    pub fn get_virtual_text(&self, lnum: usize) -> (r: Option<&String>)
        ensures
            r == (if self@.virtual_text.contains_key(lnum) {
                Some(&self@.virtual_text[lnum])
            } else {
                None
            }),
    {
        self.virtual_text.get(&lnum)
    }

    /// Sets the sign shown at line `lnum`.
    pub fn set_sign(&mut self, lnum: usize, text: &str)
        ensures
            final(self)@.signs.contains_key(lnum),
            final(self)@.signs[lnum]@ == text@,
            final(self)@.signs.remove(lnum) == old(self)@.signs.remove(lnum),
            final(self)@ == (BufferView { signs: final(self)@.signs, ..old(self)@ }),
            final(self).wf() == old(self).wf(),
    {
        self.signs.insert(lnum, text.to_owned());
    }

    /// The sign at line `lnum`, if any.
    pub fn get_sign(&self, lnum: usize) -> (r: Option<&String>)
        ensures
            r == (if self@.signs.contains_key(lnum) {
                Some(&self@.signs[lnum])
            } else {
                None
            }),
    {
        self.signs.get(&lnum)
    }

    /// All lines, in order.
    pub fn get_all_lines(&self) -> (r: Vec<String>)
        requires
            self.wf(),
        ensures
            r@.len() == self@.lines.len(),
            forall|i: int| 0 <= i < r@.len() ==> #[trigger] r@[i]@ == self@.lines[i],
    {
        let mut all: Vec<String> = Vec::new();
        let n = self.line_count();
        let mut i: usize = 0;
        while i < n
            invariant
                i <= n,
                n == self@.lines.len(),
                self.wf(),
                all@.len() == i,
                forall|j: int| 0 <= j < all@.len() ==> #[trigger] all@[j]@ == self@.lines[j],
            decreases n - i,
        {
            let line = self.get_line(i + 1).unwrap();
            all.push(line.to_owned());
            i += 1;
        }
        all
    }

    /// Replaces line `lnum` with `text`, recording the change with cursor
    /// column `col`.
    pub fn set_line(&mut self, lnum: usize, col: usize, text: &str) -> (r: Result<(), NvimError>)
        requires
            old(self).wf(),
            old(self)@.history.nodes@.len() < usize::MAX,
        ensures
            final(self).wf(),
            line_set_done(old(self)@, final(self)@, lnum, col, text@, r),
    {
        if self.readonly {
            return Err(NvimError::ReadOnly);
        }
        let old_text = match self.memline.get_line(lnum) {
            Some(t) => t.to_owned(),
            None => String::new(),
        };
        match self.memline.replace_line(lnum, text) {
            Ok(()) => {},
            Err(e) => {
                return Err(NvimError::Buffer(e.to_owned()));
            },
        }
        self.push_action(Action::ReplaceLine { lnum, col, old_text, new_text: text.to_owned() });
        self.modified = true;
        Ok(())
    }

    /// Appends `text` as a new last line.
    pub fn append_line(&mut self, text: &str) -> (r: Result<(), NvimError>)
        requires
            old(self).wf(),
            old(self)@.history.nodes@.len() < usize::MAX,
            old(self)@.lines.len() < usize::MAX,
        ensures
            final(self).wf(),
            old(self)@.readonly ==> r == Err::<(), NvimError>(NvimError::ReadOnly) && final(self)@ == old(self)@,
            !old(self)@.readonly ==> {
                &&& r is Ok
                &&& final(self)@ == (BufferView {
                    lines: old(self)@.lines.push(text@),
                    modified: true,
                    groups: final(self)@.groups,
                    history: final(self)@.history,
                    ..old(self)@
                })
                &&& recorded(old(self)@.groups, old(self)@.history, final(self)@.groups, final(self)@.history,
                    ActionView::InsertLine { lnum: (old(self)@.lines.len() + 1) as usize, col: 0, text: text@ })
            },
    {
        if self.readonly {
            return Err(NvimError::ReadOnly);
        }
        self.memline.append_line(text);
        let lnum = self.memline.line_count();
        self.push_action(Action::InsertLine { lnum, col: 0, text: text.to_owned() });
        self.modified = true;
        Ok(())
    }

    /// Inserts `text` so that it becomes line `lnum`; the extended marks
    /// at and below it move down.
    pub fn insert_line(&mut self, lnum: usize, text: &str) -> (r: Result<(), NvimError>)
        requires
            old(self).wf(),
            old(self)@.history.nodes@.len() < usize::MAX,
            old(self)@.lines.len() < usize::MAX,
            !old(self)@.readonly && 1 <= lnum <= old(self)@.lines.len() + 1 ==> marks_movable(old(self)@.extmarks, lnum, 0, 1, 0),
        ensures
            final(self).wf(),
            line_insert_done(old(self)@, final(self)@, lnum, text@, r),
    {
        if self.readonly {
            return Err(NvimError::ReadOnly);
        }
        match self.memline.insert_line(lnum, text) {
            Ok(()) => {},
            Err(e) => {
                return Err(NvimError::Buffer(e.to_owned()));
            },
        }
        self.extmark_manager.on_change(lnum, 0, 1, 0);
        self.push_action(Action::InsertLine { lnum, col: 0, text: text.to_owned() });
        self.modified = true;
        Ok(())
    }

    /// Removes line `lnum`; the extended marks below it move up.
    pub fn delete_line(&mut self, lnum: usize) -> (r: Result<(), NvimError>)
        requires
            old(self).wf(),
            old(self)@.history.nodes@.len() < usize::MAX,
            !old(self)@.readonly && 1 <= lnum <= old(self)@.lines.len() ==> marks_movable(old(self)@.extmarks, lnum, 0, -1i32, 0),
        ensures
            final(self).wf(),
            line_delete_done(old(self)@, final(self)@, lnum, r),
    {
        if self.readonly {
            return Err(NvimError::ReadOnly);
        }
        let text = match self.memline.get_line(lnum) {
            Some(t) => t.to_owned(),
            None => String::new(),
        };
        match self.memline.delete_line(lnum) {
            Ok(()) => {},
            Err(e) => {
                return Err(NvimError::Buffer(e.to_owned()));
            },
        }
        self.extmark_manager.on_change(lnum, 0, -1i32, 0);
        self.push_action(Action::DeleteLine { lnum, col: 0, text });
        self.modified = true;
        Ok(())
    }

    /// Undoes one change to the lines.
    fn apply_undo_action(&mut self, action: &Action) -> (r: Result<Option<Cursor>, NvimError>)
        requires
            old(self).wf(),
        ensures
            final(self).wf(),
            final(self)@ == (BufferView { lines: undo_effect(action@, old(self)@.lines).0, ..old(self)@ }),
            match undo_effect(action@, old(self)@.lines).1 {
                Some(c) => r == Ok::<Option<Cursor>, NvimError>(c),
                None => r matches Err(NvimError::Buffer(_)),
            },
        decreases action,
    {
        match action {
            Action::InsertLine { lnum, col, text } => {
                match self.memline.delete_line(*lnum) {
                    Ok(()) => {
                        let row = if *lnum > 1 { *lnum - 1 } else { 1 };
                        Ok(Some(Cursor { row, col: *col }))
                    },
                    Err(e) => Err(NvimError::Buffer(e.to_owned())),
                }
            },
            Action::DeleteLine { lnum, col, text } => {
                if self.memline.line_count() == usize::MAX {
                    return Err(NvimError::Buffer("Too many lines".to_owned()));
                }
                match self.memline.insert_line(*lnum, text.as_str()) {
                    Ok(()) => Ok(Some(Cursor { row: *lnum, col: *col })),
                    Err(e) => Err(NvimError::Buffer(e.to_owned())),
                }
            },
            Action::ReplaceLine { lnum, col, old_text, new_text } => {
                match self.memline.replace_line(*lnum, old_text.as_str()) {
                    Ok(()) => Ok(Some(Cursor { row: *lnum, col: *col })),
                    Err(e) => Err(NvimError::Buffer(e.to_owned())),
                }
            },
            Action::Group(v) => {
                let ghost acts = actions_view(v@);
                let ghost l0 = old(self)@.lines;
                proof {
                    lemma_actions_view_len(v@);
                    assert(acts.take(v@.len() as int) =~= acts);
                    assert(action@ == ActionView::Group(acts));
                }
                let mut last_pos: Option<Cursor> = None;
                let mut i: usize = v.len();
                while i > 0
                    invariant
                        i <= v@.len(),
                        acts == actions_view(v@),
                        acts.len() == v@.len(),
                        action@ == ActionView::Group(acts),
                        l0 == old(self)@.lines,
                        self.wf(),
                        self@ == (BufferView { lines: self@.lines, ..old(self)@ }),
                        undo_all(acts, l0) == undo_rest(acts.take(i as int), self@.lines, last_pos),
                        forall|j: int| 0 <= j < v@.len() ==> decreases_to!(*action => #[trigger] v@[j]),
                    decreases i,
                {
                    proof {
                        assert(decreases_to!(*action => v@[i - 1]));
                        lemma_actions_view_index(v@, i - 1);
                        assert(acts.take(i as int)[i - 1] == acts[i - 1]);
                        assert(acts.take(i as int).subrange(0, i - 1) =~= acts.take(i - 1));
                    }
                    let ghost before = self@.lines;
                    let res = self.apply_undo_action(&v[i - 1]);
                    proof {
                        assert(undo_rest(acts.take(i as int), before, last_pos) == undo_all(acts.take(i as int), before));
                        assert(v@[i - 1]@ == acts[i - 1]);
                    }
                    match res {
                        Ok(p) => {
                            last_pos = p;
                        },
                        Err(e) => {
                            proof {
                                let st = undo_effect(acts[i - 1], before);
                                assert(st.1 is None);
                                assert(undo_all(acts.take(i as int), before) == st);
                                assert(undo_effect(action@, l0) == undo_all(acts, l0));
                            }
                            return Err(e);
                        },
                    }
                    i -= 1;
                }
                Ok(last_pos)
            },
        }
    }

    /// Redoes one change to the lines.
    fn apply_redo_action(&mut self, action: &Action) -> (r: Result<Option<Cursor>, NvimError>)
        requires
            old(self).wf(),
        ensures
            final(self).wf(),
            final(self)@ == (BufferView { lines: redo_effect(action@, old(self)@.lines).0, ..old(self)@ }),
            match redo_effect(action@, old(self)@.lines).1 {
                Some(c) => r == Ok::<Option<Cursor>, NvimError>(c),
                None => r matches Err(NvimError::Buffer(_)),
            },
        decreases action,
    {
        match action {
            Action::InsertLine { lnum, col, text } => {
                if self.memline.line_count() == usize::MAX {
                    return Err(NvimError::Buffer("Too many lines".to_owned()));
                }
                match self.memline.insert_line(*lnum, text.as_str()) {
                    Ok(()) => Ok(Some(Cursor { row: *lnum, col: *col })),
                    Err(e) => Err(NvimError::Buffer(e.to_owned())),
                }
            },
            Action::DeleteLine { lnum, col, text } => {
                match self.memline.delete_line(*lnum) {
                    Ok(()) => {
                        let row = if *lnum > 1 { *lnum - 1 } else { 1 };
                        Ok(Some(Cursor { row, col: *col }))
                    },
                    Err(e) => Err(NvimError::Buffer(e.to_owned())),
                }
            },
            Action::ReplaceLine { lnum, col, old_text, new_text } => {
                match self.memline.replace_line(*lnum, new_text.as_str()) {
                    Ok(()) => Ok(Some(Cursor { row: *lnum, col: *col })),
                    Err(e) => Err(NvimError::Buffer(e.to_owned())),
                }
            },
            Action::Group(v) => {
                let ghost acts = actions_view(v@);
                let ghost l0 = old(self)@.lines;
                proof {
                    lemma_actions_view_len(v@);
                    assert(acts.skip(0) =~= acts);
                    assert(action@ == ActionView::Group(acts));
                }
                let mut last_pos: Option<Cursor> = None;
                let mut i: usize = 0;
                while i < v.len()
                    invariant
                        i <= v@.len(),
                        acts == actions_view(v@),
                        acts.len() == v@.len(),
                        action@ == ActionView::Group(acts),
                        l0 == old(self)@.lines,
                        self.wf(),
                        self@ == (BufferView { lines: self@.lines, ..old(self)@ }),
                        redo_all(acts, l0) == redo_rest(acts.skip(i as int), self@.lines, last_pos),
                        forall|j: int| 0 <= j < v@.len() ==> decreases_to!(*action => #[trigger] v@[j]),
                    decreases v@.len() - i,
                {
                    proof {
                        assert(decreases_to!(*action => v@[i as int]));
                        lemma_actions_view_index(v@, i as int);
                        assert(acts.skip(i as int)[0] == acts[i as int]);
                        assert(acts.skip(i as int).subrange(1, acts.skip(i as int).len() as int) =~= acts.skip(i + 1));
                    }
                    let ghost before = self@.lines;
                    let res = self.apply_redo_action(&v[i]);
                    proof {
                        assert(redo_rest(acts.skip(i as int), before, last_pos) == redo_all(acts.skip(i as int), before));
                        assert(action@ == ActionView::Group(acts));
                    }
                    match res {
                        Ok(p) => {
                            last_pos = p;
                        },
                        Err(e) => {
                            return Err(e);
                        },
                    }
                    i += 1;
                }
                proof {
                    assert(acts.skip(i as int) =~= Seq::<ActionView>::empty());
                }
                Ok(last_pos)
            },
        }
    }

    /// Undoes the current change of the history and reports where the
    /// cursor goes; nothing where there is no change to undo.
    pub fn undo(&mut self) -> (r: Result<Option<Cursor>, NvimError>)
        requires
            old(self).wf(),
            old(self)@.history.nodes@.len() < usize::MAX,
        ensures
            final(self).wf(),
            undo_done(old(self)@, final(self)@, r),
    {
        let popped = self.undo_tree.pop_undo();
        proof {
            assert(self.undo_tree == (UndoTree { current_idx: old(self)@.history.undo_target(), ..old(self)@.history }));
        }
        match popped {
            Some(a) => self.apply_undo_action(&a),
            None => Ok(None),
        }
    }

    /// Redoes the newest change reached from the current state of the
    /// history and reports where the cursor goes; nothing where there is
    /// none.
    pub fn redo(&mut self) -> (r: Result<Option<Cursor>, NvimError>)
        requires
            old(self).wf(),
        ensures
            final(self).wf(),
            redo_done(old(self)@, final(self)@, r),
    {
        let popped = self.undo_tree.pop_redo();
        match popped {
            Some(a) => self.apply_redo_action(&a),
            None => Ok(None),
        }
    }

    /// Puts character `c` into line `lnum` at column `col` (at the end of
    /// the line where `col` is past it); past the last line, appends a line
    /// holding `c`. The extended marks after the new character move right.
    pub fn insert_char(&mut self, lnum: usize, col: usize, c: char) -> (r: Result<(), NvimError>)
        requires
            old(self).wf(),
            old(self)@.history.nodes@.len() < usize::MAX,
            lnum > old(self)@.lines.len() ==> old(self)@.lines.len() < usize::MAX,
            !old(self)@.readonly && 1 <= lnum <= old(self)@.lines.len() ==> marks_movable(old(self)@.extmarks, lnum, col, 0, 1),
            !old(self)@.readonly && lnum > old(self)@.lines.len() ==> marks_movable(old(self)@.extmarks, lnum, 0, 0, 1),
        ensures
            final(self).wf(),
            char_insert_done(old(self)@, final(self)@, lnum, col, c, r),
    {
        if self.readonly {
            return Err(NvimError::ReadOnly);
        }
        let line_count = self.line_count();
        if lnum <= line_count {
            match self.get_line(lnum) {
                Some(line) => {
                    let mut chars = chars_of(line);
                    if col <= chars.len() {
                        chars.insert(col, c);
                    } else {
                        chars.push(c);
                    }
                    let new_line = string_from_chars(&chars);
                    let res = self.set_line(lnum, col, new_line.as_str());
                    match res {
                        Ok(()) => {},
                        Err(e) => {
                            return Err(e);
                        },
                    }
                    self.extmark_manager.on_change(lnum, col, 0, 1);
                },
                None => {},
            }
        } else {
            let mut s = String::new();
            crate::text::string_push(&mut s, c);
            let res = self.append_line(s.as_str());
            match res {
                Ok(()) => {},
                Err(e) => {
                    return Err(e);
                },
            }
            self.extmark_manager.on_change(lnum, 0, 0, 1);
        }
        Ok(())
    }

    /// Deletes the character before column `col` of line `lnum`; at column
    /// 0, joins the line to the one above it. Reports the column where the
    /// cursor goes: `None` at the very start of the buffer.
    pub fn delete_char(&mut self, lnum: usize, col: usize) -> (r: Result<Option<usize>, NvimError>)
        requires
            old(self).wf(),
            old(self)@.history.nodes@.len() + 1 < usize::MAX,
            !old(self)@.readonly && 2 <= lnum <= old(self)@.lines.len() && col == 0 ==> marks_movable(old(self)@.extmarks, lnum, 0, -1i32, 0),
            !old(self)@.readonly && 1 <= lnum <= old(self)@.lines.len() && 1 <= col <= old(self)@.lines[lnum - 1].len()
                ==> marks_movable(old(self)@.extmarks, lnum, col, 0, -1i32),
        ensures
            final(self).wf(),
            char_delete_done(old(self)@, final(self)@, lnum, col, r),
    {
        if self.readonly {
            return Err(NvimError::ReadOnly);
        }
        let line_count = self.line_count();
        if lnum == 0 || lnum > line_count {
            return Err(NvimError::Buffer("Invalid line number".to_owned()));
        }
        if col == 0 {
            if lnum == 1 {
                return Ok(None);
            }
            let prev_line = self.get_line(lnum - 1).unwrap().to_owned();
            let curr_line = self.get_line(lnum).unwrap().to_owned();
            let new_col = chars_of(prev_line.as_str()).len();
            let mut joined = prev_line;
            joined.append(curr_line.as_str());
            let ghost mid0 = self@;
            let res = self.set_line(lnum - 1, 0, joined.as_str());
            match res {
                Ok(()) => {},
                Err(e) => {
                    return Err(e);
                },
            }
            let ghost mid = self@;
            proof {
                assert(mid.lines[lnum - 1] == old(self)@.lines[lnum - 1]);
            }
            let res2 = self.delete_line(lnum);
            match res2 {
                Ok(()) => {},
                Err(e) => {
                    return Err(e);
                },
            }
            proof {
                assert(recorded(old(self)@.groups, old(self)@.history, mid.groups, mid.history,
                    ActionView::ReplaceLine { lnum: (lnum - 1) as usize, col: 0, old_text: old(self)@.lines[lnum - 2],
                        new_text: old(self)@.lines[lnum - 2] + old(self)@.lines[lnum - 1] }));
            }
            Ok(Some(new_col))
        } else {
            let line = self.get_line(lnum).unwrap();
            let mut chars = chars_of(line);
            if col <= chars.len() {
                chars.remove(col - 1);
                let new_line = string_from_chars(&chars);
                let res = self.set_line(lnum, col - 1, new_line.as_str());
                match res {
                    Ok(()) => {},
                    Err(e) => {
                        return Err(e);
                    },
                }
                self.extmark_manager.on_change(lnum, col, 0, -1);
            }
            Ok(Some(col - 1))
        }
    }

    /// Splits line `lnum` at column `col` (at its end where `col` is past
    /// it): the rest of the line becomes a new line below.
    pub fn insert_newline(&mut self, lnum: usize, col: usize) -> (r: Result<(), NvimError>)
        requires
            old(self).wf(),
            old(self)@.history.nodes@.len() < usize::MAX,
            old(self)@.lines.len() < usize::MAX,
        ensures
            final(self).wf(),
            newline_done(old(self)@, final(self)@, lnum, col, r),
    {
        if self.readonly {
            return Err(NvimError::ReadOnly);
        }
        let chars = match self.get_line(lnum) {
            Some(line) => chars_of(line),
            None => Vec::new(),
        };
        let k = if col < chars.len() { col } else { chars.len() };
        let mut first: Vec<char> = Vec::new();
        let mut second: Vec<char> = Vec::new();
        let mut i: usize = 0;
        while i < chars.len()
            invariant
                i <= chars@.len(),
                k <= chars@.len(),
                first@ == chars@.take(if i < k { i as int } else { k as int }),
                second@ == (if i <= k { Seq::<char>::empty() } else { chars@.subrange(k as int, i as int) }),
            decreases chars@.len() - i,
        {
            if i < k {
                first.push(chars[i]);
                assert(first@ =~= chars@.take(i as int + 1));
            } else {
                second.push(chars[i]);
                assert(second@ =~= chars@.subrange(k as int, i as int + 1));
            }
            i += 1;
        }
        assert(second@ =~= chars@.skip(k as int));
        let first_str = string_from_chars(&first);
        let second_str = string_from_chars(&second);
        let res = self.set_line(lnum, col, first_str.as_str());
        match res {
            Ok(()) => {},
            Err(e) => {
                return Err(e);
            },
        }
        match self.memline.insert_line(lnum + 1, second_str.as_str()) {
            Ok(()) => {},
            Err(e) => {
                return Err(NvimError::Buffer(e.to_owned()));
            },
        }
        self.modified = true;
        Ok(())
    }

    /// Shifts line `lnum` right by `tabstop` spaces, or left by removing up
    /// to `tabstop` leading spaces; nothing where there is no such line.
    pub fn indent_line(&mut self, lnum: usize, forward: bool, tabstop: usize) -> (r: Result<(), NvimError>)
        requires
            old(self).wf(),
            old(self)@.history.nodes@.len() < usize::MAX,
        ensures
            final(self).wf(),
            indent_done(old(self)@, final(self)@, lnum, forward, tabstop, r),
    {
        match self.get_line(lnum) {
            Some(line) => {
                let chars = chars_of(line);
                let mut new_chars: Vec<char> = Vec::new();
                if forward {
                    let mut i: usize = 0;
                    while i < tabstop
                        invariant
                            i <= tabstop,
                            new_chars@ == Seq::new(i as nat, |j: int| ' '),
                        decreases tabstop - i,
                    {
                        new_chars.push(' ');
                        assert(new_chars@ =~= Seq::new(i as nat + 1, |j: int| ' '));
                        i += 1;
                    }
                    let mut j: usize = 0;
                    while j < chars.len()
                        invariant
                            j <= chars@.len(),
                            new_chars@ == Seq::new(tabstop as nat, |t: int| ' ') + chars@.take(j as int),
                        decreases chars@.len() - j,
                    {
                        new_chars.push(chars[j]);
                        assert(new_chars@ =~= Seq::new(tabstop as nat, |t: int| ' ') + chars@.take(j as int + 1));
                        j += 1;
                    }
                    assert(chars@.take(chars@.len() as int) =~= chars@);
                } else {
                    let mut k: usize = 0;
                    while k < tabstop && k < chars.len() && chars[k] == ' '
                        invariant
                            k <= tabstop,
                            k <= chars@.len(),
                            forall|t: int| 0 <= t < k ==> chars@[t] == ' ',
                        decreases tabstop - k,
                    {
                        k += 1;
                    }
                    proof {
                        lemma_spaces_to_remove(chars@, tabstop as nat, k as nat);
                    }
                    let mut j: usize = k;
                    while j < chars.len()
                        invariant
                            k <= j <= chars@.len(),
                            new_chars@ == chars@.subrange(k as int, j as int),
                        decreases chars@.len() - j,
                    {
                        new_chars.push(chars[j]);
                        assert(new_chars@ =~= chars@.subrange(k as int, j as int + 1));
                        j += 1;
                    }
                }
                let new_line = string_from_chars(&new_chars);
                let res = self.set_line(lnum, 0, new_line.as_str());
                match res {
                    Ok(()) => Ok(()),
                    Err(e) => Err(e),
                }
            },
            None => Ok(()),
        }
    }

    /// Sets an extended mark at `(row, col)` with the next free id, and
    /// returns that id.
    pub fn set_extmark(&mut self, row: usize, col: usize) -> (r: i32)
        requires
            old(self).wf(),
            old(self)@.extmarks.next_mark_id < i32::MAX,
        ensures
            final(self).wf(),
            r == old(self)@.extmarks.next_mark_id,
            final(self)@ == (BufferView {
                extmarks: ExtmarkManagerView {
                    marks: old(self)@.extmarks.marks.insert((0, r), plain_mark(r, row, col)),
                    next_mark_id: (r + 1) as i32,
                },
                ..old(self)@
            }),
    {
        let r = self.extmark_manager.set_extmark(0, None, row, col, None, None, None, Vec::new(), "eol".to_owned(), 0);
        proof {
            assert(virt_text_view(Seq::<(String, String)>::empty()) =~= Seq::empty());
        }
        r
    }

    /// The extended mark `id` set by [`Buffer::set_extmark`], if any.
    pub fn get_extmark(&self, id: i32) -> (r: Option<Extmark>)
        requires
            self.wf(),
        ensures
            match r {
                Some(m) => self@.extmarks.marks.contains_key((0, id)) && m@ == self@.extmarks.marks[(0, id)],
                None => !self@.extmarks.marks.contains_key((0, id)),
            },
    {
        match self.extmark_manager.get_extmark(0, id) {
            Some(m) => Some(copy_extmark(m)),
            None => None,
        }
    }
}

/// The value of an optional string slice.
pub open spec fn opt_str_view(s: Option<&str>) -> Option<Seq<char>> {
    match s {
        Some(x) => Some(x@),
        None => None,
    }
}

} // verus!
