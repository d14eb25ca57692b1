use vstd::prelude::*;
use crate::assoc::{assoc_map, keys_unique, has_key, lemma_assoc_contains, lemma_assoc_get, lemma_assoc_update, lemma_assoc_push, lemma_assoc_remove, lemma_assoc_len};

verus! {

/// A mark in a buffer that moves with the text: a position (row counted
/// from 1, column from 0), an optional end, and decorations.
pub struct Extmark {
    pub id: i32,
    pub ns_id: i32,
    pub row: usize,
    pub col: usize,
    pub end_row: Option<usize>,
    pub end_col: Option<usize>,
    pub hl_group: Option<String>,
    pub virt_text: Vec<(String, String)>,
    pub virt_text_pos: String,
    pub priority: i32,
}

/// The value of an [`Extmark`].
pub struct ExtmarkView {
    pub id: i32,
    pub ns_id: i32,
    pub row: usize,
    pub col: usize,
    pub end_row: Option<usize>,
    pub end_col: Option<usize>,
    pub hl_group: Option<Seq<char>>,
    pub virt_text: Seq<(Seq<char>, Seq<char>)>,
    pub virt_text_pos: Seq<char>,
    pub priority: i32,
}

pub open spec fn opt_string_view(s: Option<String>) -> Option<Seq<char>> {
    match s {
        Some(x) => Some(x@),
        None => None,
    }
}

pub open spec fn virt_text_view(v: Seq<(String, String)>) -> Seq<(Seq<char>, Seq<char>)> {
    Seq::new(v.len(), |i: int| (v[i].0@, v[i].1@))
}

pub open spec fn extmark_view(m: Extmark) -> ExtmarkView {
    ExtmarkView {
        id: m.id,
        ns_id: m.ns_id,
        row: m.row,
        col: m.col,
        end_row: m.end_row,
        end_col: m.end_col,
        hl_group: opt_string_view(m.hl_group),
        virt_text: virt_text_view(m.virt_text@),
        virt_text_pos: m.virt_text_pos@,
        priority: m.priority,
    }
}

impl View for Extmark {
    type V = ExtmarkView;

    open spec fn view(&self) -> ExtmarkView {
        extmark_view(*self)
    }
}

/// A copy of an extmark with the same value.
pub fn copy_extmark(m: &Extmark) -> (r: Extmark)
    ensures
        r@ == m@,
{
    let mut vt: Vec<(String, String)> = Vec::new();
    let mut i: usize = 0;
    while i < m.virt_text.len()
        invariant
            i <= m.virt_text@.len(),
            vt@.len() == i,
            forall|j: int| 0 <= j < i ==> #[trigger] vt@[j] == m.virt_text@[j],
        decreases m.virt_text@.len() - i,
    {
        let pair = &m.virt_text[i];
        vt.push((pair.0.clone(), pair.1.clone()));
        i += 1;
    }
    assert(vt@ =~= m.virt_text@);
    let hl = match &m.hl_group {
        Some(h) => Some(h.clone()),
        None => None,
    };
    Extmark {
        id: m.id,
        ns_id: m.ns_id,
        row: m.row,
        col: m.col,
        end_row: m.end_row,
        end_col: m.end_col,
        hl_group: hl,
        virt_text: vt,
        virt_text_pos: m.virt_text_pos.clone(),
        priority: m.priority,
    }
}

/// The marks as key-value pairs, keyed by namespace and mark id.
pub open spec fn mark_pairs(v: Seq<Extmark>) -> Seq<((i32, i32), ExtmarkView)> {
    Seq::new(v.len(), |i: int| ((v[i].ns_id, v[i].id), extmark_view(v[i])))
}

/// The namespaces that hold at least one mark.
pub open spec fn namespaces_of(m: Map<(i32, i32), ExtmarkView>) -> Set<i32> {
    Set::new(|ns: i32| exists|id: i32| #[trigger] m.contains_key((ns, id)))
}

/// A mark lies between two positions, both included.
pub open spec fn in_range(m: ExtmarkView, start_row: usize, start_col: usize, end_row: usize, end_col: usize) -> bool {
    &&& !(m.row < start_row || m.row > end_row)
    &&& !(m.row == start_row && m.col < start_col)
    &&& !(m.row == end_row && m.col > end_col)
}

/// A mark is asked for: its namespace is `ns_id`, or `ns_id` is `-1` (all),
/// and it lies in the range.
pub open spec fn selected(m: ExtmarkView, ns_id: i32, start_row: usize, start_col: usize, end_row: usize, end_col: usize) -> bool {
    (ns_id == -1 || m.ns_id == ns_id) && in_range(m, start_row, start_col, end_row, end_col)
}

/// Ordered by row, then column.
pub open spec fn pos_le(a: ExtmarkView, b: ExtmarkView) -> bool {
    a.row < b.row || (a.row == b.row && a.col <= b.col)
}

/// A position moved by `d`, as `(v as i32 + d) as usize` computes it.
pub open spec fn shift(v: usize, d: i32) -> usize {
    ((v as i32) + d) as usize
}

/// The shift does not overflow an `i32`.
pub open spec fn shift_ok(v: usize, d: i32) -> bool {
    i32::MIN <= (v as i32) + d <= i32::MAX
}

/// The row of a position after `added_rows` rows appear at `row` (and
/// `added_cols` columns at `(row, col)`): rows below move; the row itself
/// moves where no columns were added.
pub open spec fn moved_row(r: usize, row: usize, added_rows: i32, added_cols: i32) -> usize {
    if added_rows != 0 && (r > row || (r == row && added_cols == 0)) {
        shift(r, added_rows)
    } else {
        r
    }
}

/// The column of a position on (moved) row `r` after the change: columns
/// at or after `col` on `row` move by `added_cols`.
pub open spec fn moved_col(r: usize, c: usize, row: usize, col: usize, added_cols: i32) -> usize {
    if r == row && added_cols != 0 && c >= col {
        shift(c, added_cols)
    } else {
        c
    }
}

/// A mark after a change of the text.
pub open spec fn moved_mark(m: ExtmarkView, row: usize, col: usize, added_rows: i32, added_cols: i32) -> ExtmarkView {
    let r = moved_row(m.row, row, added_rows, added_cols);
    let c = moved_col(r, m.col, row, col, added_cols);
    let (er, ec) = match m.end_row {
        Some(er0) => {
            let er1 = moved_row(er0, row, added_rows, added_cols);
            (Some(er1), match m.end_col {
                Some(ec0) => Some(moved_col(er1, ec0, row, col, added_cols)),
                None => None,
            })
        },
        None => (None, m.end_col),
    };
    ExtmarkView { row: r, col: c, end_row: er, end_col: ec, ..m }
}

/// Moving a mark computes no `i32` overflow.
pub open spec fn move_ok(m: ExtmarkView, row: usize, col: usize, added_rows: i32, added_cols: i32) -> bool {
    let r = moved_row(m.row, row, added_rows, added_cols);
    &&& (added_rows != 0 && (m.row > row || (m.row == row && added_cols == 0)) ==> shift_ok(m.row, added_rows))
    &&& (r == row && added_cols != 0 && m.col >= col ==> shift_ok(m.col, added_cols))
    &&& (m.end_row matches Some(er0) ==> {
        let er1 = moved_row(er0, row, added_rows, added_cols);
        &&& (added_rows != 0 && (er0 > row || (er0 == row && added_cols == 0)) ==> shift_ok(er0, added_rows))
        &&& (m.end_col matches Some(ec0) ==> (er1 == row && added_cols != 0 && ec0 >= col ==> shift_ok(ec0, added_cols)))
    })
}

/// A position plus `d`, as the text change computes it.
fn shifted(v: usize, d: i32) -> (r: usize)
    requires
        shift_ok(v, d),
    ensures
        r == shift(v, d),
{
    ((v as i32) + d) as usize
}

/// Moves one mark with a change of the text.
fn move_extmark(m: &mut Extmark, row: usize, col: usize, added_rows: i32, added_cols: i32)
    requires
        move_ok(old(m)@, row, col, added_rows, added_cols),
    ensures
        final(m)@ == moved_mark(old(m)@, row, col, added_rows, added_cols),
{
    if added_rows != 0 {
        if m.row > row {
            m.row = shifted(m.row, added_rows);
        } else if m.row == row && added_cols == 0 {
            m.row = shifted(m.row, added_rows);
        }
    }
    if m.row == row && added_cols != 0 {
        if m.col >= col {
            m.col = shifted(m.col, added_cols);
        }
    }
    match m.end_row {
        Some(er0) => {
            let mut er = er0;
            if added_rows != 0 {
                if er > row {
                    er = shifted(er, added_rows);
                } else if er == row && added_cols == 0 {
                    er = shifted(er, added_rows);
                }
            }
            m.end_row = Some(er);
            match m.end_col {
                Some(ec0) => {
                    if er == row && added_cols != 0 {
                        if ec0 >= col {
                            m.end_col = Some(shifted(ec0, added_cols));
                        }
                    }
                },
                None => {},
            }
        },
        None => {},
    }
}

/// Whether `v` holds `x`.
fn contains_i32(v: &Vec<i32>, x: i32) -> (r: bool)
    ensures
        r == v@.contains(x),
{
    let mut k: usize = 0;
    while k < v.len()
        invariant
            k <= v@.len(),
            forall|t: int| 0 <= t < k ==> v@[t] != x,
        decreases v@.len() - k,
    {
        if v[k] == x {
            return true;
        }
        k += 1;
    }
    false
}

/// Where a mark goes in a list ordered by position: after every mark at or
/// before its position, before every mark after it.
fn sorted_insert_pos(v: &Vec<Extmark>, m: &Extmark) -> (p: usize)
    requires
        forall|a: int, b: int| 0 <= a < b < v@.len() ==> pos_le(#[trigger] v@[a]@, #[trigger] v@[b]@),
    ensures
        p <= v@.len(),
        forall|k: int| 0 <= k < p ==> pos_le(#[trigger] v@[k]@, m@),
        forall|k: int| p <= k < v@.len() ==> !pos_le(#[trigger] v@[k]@, m@),
{
    let mut p: usize = 0;
    while p < v.len()
        invariant
            p <= v@.len(),
            forall|k: int| 0 <= k < p ==> pos_le(#[trigger] v@[k]@, m@),
            forall|a: int, b: int| 0 <= a < b < v@.len() ==> pos_le(#[trigger] v@[a]@, #[trigger] v@[b]@),
        decreases v@.len() - p,
    {
        let e = &v[p];
        if !(e.row < m.row || (e.row == m.row && e.col <= m.col)) {
            proof {
                assert forall|k: int| p <= k < v@.len() implies !pos_le(#[trigger] v@[k]@, m@) by {
                    if k > p {
                        assert(pos_le(v@[p as int]@, v@[k]@));
                    }
                }
            }
            return p;
        }
        p += 1;
    }
    p
}

/// Every mark can be moved with the change without `i32` overflow.
pub open spec fn marks_movable(m: ExtmarkManagerView, row: usize, col: usize, added_rows: i32, added_cols: i32) -> bool {
    forall|k: (i32, i32)| #[trigger] m.marks.contains_key(k) ==> move_ok(m.marks[k], row, col, added_rows, added_cols)
}

/// The marks after a change of the text: each moved.
pub open spec fn moved_marks(m: ExtmarkManagerView, row: usize, col: usize, added_rows: i32, added_cols: i32) -> ExtmarkManagerView {
    ExtmarkManagerView {
        marks: m.marks.map_values(|x: ExtmarkView| moved_mark(x, row, col, added_rows, added_cols)),
        next_mark_id: m.next_mark_id,
    }
}

/// The marks left when namespace `ns_id` is cleared: none where it is
/// `-1`, else those of the other namespaces.
pub open spec fn cleared(m: Map<(i32, i32), ExtmarkView>, ns_id: i32) -> Map<(i32, i32), ExtmarkView> {
    if ns_id == -1 {
        Map::<(i32, i32), ExtmarkView>::empty()
    } else {
        m.remove_keys(Set::new(|k: (i32, i32)| k.0 == ns_id))
    }
}

/// Every column of every mark fits an `i32`, so that the text changes can
/// move them.
pub open spec fn marks_fit(m: ExtmarkManagerView) -> bool {
    forall|k: (i32, i32)| #[trigger] m.marks.contains_key(k) ==> {
        &&& m.marks[k].col <= i32::MAX
        &&& (m.marks[k].end_col matches Some(c) ==> c <= i32::MAX)
    }
}

/// Marks whose columns fit can be moved one column left from any column
/// but the first, and their columns still fit afterwards.
pub proof fn lemma_marks_fit_left(m: ExtmarkManagerView, row: usize, col: usize)
    requires
        marks_fit(m),
        col >= 1,
    ensures
        marks_movable(m, row, col, 0, -1i32),
        marks_fit(moved_marks(m, row, col, 0, -1i32)),
{
    assert forall|k: (i32, i32)| #[trigger] moved_marks(m, row, col, 0, -1i32).marks.contains_key(k) implies {
        &&& moved_marks(m, row, col, 0, -1i32).marks[k].col <= i32::MAX
        &&& (moved_marks(m, row, col, 0, -1i32).marks[k].end_col matches Some(c) ==> c <= i32::MAX)
    } by {
        assert(m.marks.contains_key(k));
    }
}

/// Marks whose columns fit can be moved one column left from column
/// `col + 1` on and then one column right from `col` on, where `col` is less
/// than the greatest `i32` (a character replaced in place).
pub proof fn lemma_marks_fit_replace(m: ExtmarkManagerView, row: usize, col: usize)
    requires
        marks_fit(m),
        col < i32::MAX,
    ensures
        marks_movable(moved_marks(m, row, (col + 1) as usize, 0, -1i32), row, col, 0, 1),
{
    lemma_marks_fit_left(m, row, (col + 1) as usize);
    let m1 = moved_marks(m, row, (col + 1) as usize, 0, -1i32);
    assert forall|k: (i32, i32)| #[trigger] m1.marks.contains_key(k) implies move_ok(m1.marks[k], row, col, 0, 1) by {
        assert(m.marks.contains_key(k));
    }
}

/// Every row of every mark stays within an `i32` after `slack` more lines
/// appear above it.
pub open spec fn rows_fit(m: ExtmarkManagerView, slack: nat) -> bool {
    forall|k: (i32, i32)| #[trigger] m.marks.contains_key(k) ==> {
        &&& m.marks[k].row + slack <= i32::MAX
        &&& (m.marks[k].end_row matches Some(r) ==> r + slack <= i32::MAX)
    }
}

/// Marks whose rows fit can move down a line, with one line of slack
/// fewer afterwards.
pub proof fn lemma_rows_fit_down(m: ExtmarkManagerView, row: usize, slack: nat)
    requires
        rows_fit(m, slack),
        slack >= 1,
    ensures
        marks_movable(m, row, 0, 1, 0),
        rows_fit(moved_marks(m, row, 0, 1, 0), (slack - 1) as nat),
{
    assert forall|k: (i32, i32)| #[trigger] moved_marks(m, row, 0, 1, 0).marks.contains_key(k) implies {
        &&& moved_marks(m, row, 0, 1, 0).marks[k].row + (slack - 1) <= i32::MAX
        &&& (moved_marks(m, row, 0, 1, 0).marks[k].end_row matches Some(r) ==> r + (slack - 1) <= i32::MAX)
    } by {
        assert(m.marks.contains_key(k));
    }
}

/// Marks whose rows fit can move up a line from any line but the first,
/// and still fit afterwards.
pub proof fn lemma_rows_fit_up(m: ExtmarkManagerView, row: usize, slack: nat)
    requires
        rows_fit(m, slack),
        row >= 1,
    ensures
        marks_movable(m, row, 0, -1i32, 0),
        rows_fit(moved_marks(m, row, 0, -1i32, 0), slack),
{
    assert forall|k: (i32, i32)| #[trigger] moved_marks(m, row, 0, -1i32, 0).marks.contains_key(k) implies {
        &&& moved_marks(m, row, 0, -1i32, 0).marks[k].row + slack <= i32::MAX
        &&& (moved_marks(m, row, 0, -1i32, 0).marks[k].end_row matches Some(r) ==> r + slack <= i32::MAX)
    } by {
        assert(m.marks.contains_key(k));
    }
}

/// The marks of a buffer, by namespace and id.
pub struct ExtmarkManager {
    marks: Vec<Extmark>,
    next_mark_id: i32,
}

/// The value of an [`ExtmarkManager`]: the marks by (namespace, id), and
/// the id that the next mark without one gets.
pub struct ExtmarkManagerView {
    pub marks: Map<(i32, i32), ExtmarkView>,
    pub next_mark_id: i32,
}

impl View for ExtmarkManager {
    type V = ExtmarkManagerView;

    closed spec fn view(&self) -> ExtmarkManagerView {
        ExtmarkManagerView { marks: assoc_map(mark_pairs(self.marks@)), next_mark_id: self.next_mark_id }
    }
}

impl ExtmarkManager {
    /// Well-formedness: one entry per (namespace, id).
    pub closed spec fn wf(&self) -> bool {
        keys_unique(mark_pairs(self.marks@))
    }

    /// No marks; the first id handed out is 1.
    pub fn new() -> (m: ExtmarkManager)
        ensures
            m.wf(),
            m@.marks == Map::<(i32, i32), ExtmarkView>::empty(),
            m@.next_mark_id == 1,
    {
        let m = ExtmarkManager { marks: Vec::new(), next_mark_id: 1 };
        assert(mark_pairs(m.marks@) =~= Seq::empty());
        m
    }

    /// The number of namespaces that hold marks.
    pub fn ns_count(&self) -> (r: usize)
        requires
            self.wf(),
        ensures
            r == namespaces_of(self@.marks).len(),
    {
        let mut seen: Vec<i32> = Vec::new();
        let mut i: usize = 0;
        while i < self.marks.len()
            invariant
                i <= self.marks@.len(),
                seen@.no_duplicates(),
                forall|ns: i32| seen@.contains(ns) <==> exists|j: int| 0 <= j < i && #[trigger] self.marks@[j].ns_id == ns,
            decreases self.marks@.len() - i,
        {
            let ns = self.marks[i].ns_id;
            let ghost old_seen = seen@;
            if !contains_i32(&seen, ns) {
                seen.push(ns);
            }
            proof {
                assert forall|n: i32| seen@.contains(n) implies exists|j: int| 0 <= j < i + 1 && #[trigger] self.marks@[j].ns_id == n by {
                    if n == ns {
                        assert(self.marks@[i as int].ns_id == n);
                    } else {
                        let t = choose|t: int| 0 <= t < seen@.len() && seen@[t] == n;
                        assert(old_seen[t] == n);
                        assert(old_seen.contains(n));
                        let j = choose|j: int| 0 <= j < i && #[trigger] self.marks@[j].ns_id == n;
                        assert(self.marks@[j].ns_id == n);
                    }
                }
                assert forall|n: i32| (exists|j: int| 0 <= j < i + 1 && #[trigger] self.marks@[j].ns_id == n) implies seen@.contains(n) by {
                    let j = choose|j: int| 0 <= j < i + 1 && #[trigger] self.marks@[j].ns_id == n;
                    if j < i {
                        assert(old_seen.contains(n));
                        let t = choose|t: int| 0 <= t < old_seen.len() && old_seen[t] == n;
                        assert(seen@[t] == n);
                    } else if old_seen.contains(n) {
                        let t = choose|t: int| 0 <= t < old_seen.len() && old_seen[t] == n;
                        assert(seen@[t] == n);
                    } else {
                        assert(seen@[seen@.len() - 1] == n);
                    }
                }
            }
            i += 1;
        }
        proof {
            let mp = mark_pairs(self.marks@);
            assert forall|ns: i32| seen@.to_set().contains(ns) <==> #[trigger] namespaces_of(self@.marks).contains(ns) by {
                if seen@.contains(ns) {
                    let j = choose|j: int| 0 <= j < self.marks@.len() && #[trigger] self.marks@[j].ns_id == ns;
                    lemma_assoc_get(mp, j);
                    assert(self@.marks.contains_key((ns, self.marks@[j].id)));
                }
                if namespaces_of(self@.marks).contains(ns) {
                    let id = choose|id: i32| #[trigger] self@.marks.contains_key((ns, id));
                    lemma_assoc_contains(mp, (ns, id));
                    let j = choose|j: int| 0 <= j < mp.len() && #[trigger] mp[j].0 == (ns, id);
                    assert(self.marks@[j].ns_id == ns);
                }
            }
            assert(seen@.to_set() =~= namespaces_of(self@.marks));
            seen@.unique_seq_to_set();
        }
        seen.len()
    }

    /// A well-formed manager holds finitely many marks (so the counting laws,
    /// such as [`law_clear_namespace_counts`], apply to it).
    pub proof fn lemma_marks_finite(&self)
        requires
            self.wf(),
        ensures
            self@.marks.dom().finite(),
    {
        lemma_assoc_len(mark_pairs(self.marks@));
    }

    /// The number of marks in all namespaces.
    pub fn total_mark_count(&self) -> (r: usize)
        requires
            self.wf(),
        ensures
            r == self@.marks.dom().len(),
    {
        proof {
            lemma_assoc_len(mark_pairs(self.marks@));
        }
        self.marks.len()
    }

    /// The index of the mark with this namespace and id.
    fn find_mark(&self, ns_id: i32, id: i32) -> (r: Option<usize>)
        requires
            self.wf(),
        ensures
            match r {
                Some(i) => i < self.marks@.len() && self.marks@[i as int].ns_id == ns_id && self.marks@[i as int].id == id,
                None => !self@.marks.contains_key((ns_id, id)),
            },
    {
        let mut i: usize = 0;
        while i < self.marks.len()
            invariant
                i <= self.marks@.len(),
                forall|j: int| 0 <= j < i ==> !(#[trigger] self.marks@[j].ns_id == ns_id && self.marks@[j].id == id),
            decreases self.marks@.len() - i,
        {
            if self.marks[i].ns_id == ns_id && self.marks[i].id == id {
                return Some(i);
            }
            i += 1;
        }
        proof {
            let mp = mark_pairs(self.marks@);
            lemma_assoc_contains(mp, (ns_id, id));
            if has_key(mp, (ns_id, id)) {
                let j = choose|j: int| 0 <= j < mp.len() && #[trigger] mp[j].0 == (ns_id, id);
                assert(self.marks@[j].ns_id == ns_id);
            }
        }
        None
    }

    /// Sets the mark `mark_id` of namespace `ns_id`, or a new mark with the
    /// next free id where `mark_id` is `None`, and returns its id.
    pub fn set_extmark(
        &mut self,
        ns_id: i32,
        mark_id: Option<i32>,
        row: usize,
        col: usize,
        end_row: Option<usize>,
        end_col: Option<usize>,
        hl_group: Option<String>,
        virt_text: Vec<(String, String)>,
        virt_text_pos: String,
        priority: i32,
    ) -> (r: i32)
        requires
            old(self).wf(),
            mark_id is None ==> old(self)@.next_mark_id < i32::MAX,
        ensures
            final(self).wf(),
            r == (match mark_id {
                Some(x) => x,
                None => old(self)@.next_mark_id,
            }),
            final(self)@.next_mark_id == (if mark_id is None {
                old(self)@.next_mark_id + 1
            } else {
                old(self)@.next_mark_id as int
            }),
            final(self)@.marks == old(self)@.marks.insert(
                (ns_id, r),
                (ExtmarkView {
                    id: r,
                    ns_id: ns_id,
                    row: row,
                    col: col,
                    end_row: end_row,
                    end_col: end_col,
                    hl_group: opt_string_view(hl_group),
                    virt_text: virt_text_view(virt_text@),
                    virt_text_pos: virt_text_pos@,
                    priority: priority,
                }),
            ),
    {
        let id = match mark_id {
            Some(x) => x,
            None => {
                let nid = self.next_mark_id;
                self.next_mark_id = self.next_mark_id + 1;
                nid
            },
        };
        let mark = Extmark {
            id: id,
            ns_id: ns_id,
            row: row,
            col: col,
            end_row: end_row,
            end_col: end_col,
            hl_group: hl_group,
            virt_text: virt_text,
            virt_text_pos: virt_text_pos,
            priority: priority,
        };
        let ghost old_pairs = mark_pairs(self.marks@);
        let ghost mv = mark@;
        match self.find_mark(ns_id, id) {
            Some(i) => {
                self.marks.set(i, mark);
                proof {
                    assert(mark_pairs(self.marks@) =~= old_pairs.update(i as int, (old_pairs[i as int].0, mv)));
                    lemma_assoc_update(old_pairs, i as int, mv);
                }
            },
            None => {
                self.marks.push(mark);
                proof {
                    lemma_assoc_contains(old_pairs, (ns_id, id));
                    assert(mark_pairs(self.marks@) =~= old_pairs.push(((ns_id, id), mv)));
                    lemma_assoc_push(old_pairs, (ns_id, id), mv);
                }
            },
        }
        id
    }

    /// The mark `id` of namespace `ns_id`, if there is one.
    pub fn get_extmark(&self, ns_id: i32, id: i32) -> (r: Option<&Extmark>)
        requires
            self.wf(),
        ensures
            match r {
                Some(m) => self@.marks.contains_key((ns_id, id)) && m@ == self@.marks[(ns_id, id)],
                None => !self@.marks.contains_key((ns_id, id)),
            },
    {
        match self.find_mark(ns_id, id) {
            Some(i) => {
                proof {
                    lemma_assoc_get(mark_pairs(self.marks@), i as int);
                }
                Some(&self.marks[i])
            },
            None => None,
        }
    }

    /// The marks of namespace `ns_id` (of all namespaces where it is `-1`)
    /// between the two positions, both included, ordered by position.
    #[verifier::spinoff_prover]
    #[verifier::rlimit(60)]
    pub fn get_extmarks_in_range(
        &self,
        ns_id: i32,
        start_row: usize,
        start_col: usize,
        end_row: usize,
        end_col: usize,
    ) -> (r: Vec<Extmark>)
        requires
            self.wf(),
        ensures
            forall|a: int, b: int| 0 <= a < b < r@.len() ==> pos_le(#[trigger] r@[a]@, #[trigger] r@[b]@),
            keys_unique(mark_pairs(r@)),
            forall|k: int|
                0 <= k < r@.len() ==> {
                    &&& self@.marks.contains_key((#[trigger] r@[k].ns_id, r@[k].id))
                    &&& self@.marks[(r@[k].ns_id, r@[k].id)] == r@[k]@
                    &&& selected(r@[k]@, ns_id, start_row, start_col, end_row, end_col)
                },
            forall|key: (i32, i32)|
                #[trigger] self@.marks.contains_key(key) && selected(self@.marks[key], ns_id, start_row, start_col, end_row, end_col)
                    ==> exists|k: int| 0 <= k < r@.len() && (r@[k].ns_id, r@[k].id) == key,
    {
        let ghost mp = mark_pairs(self.marks@);
        let mut result: Vec<Extmark> = Vec::new();
        let mut i: usize = 0;
        while i < self.marks.len()
            invariant
                i <= self.marks@.len(),
                mp == mark_pairs(self.marks@),
                keys_unique(mp),
                forall|a: int, b: int| 0 <= a < b < result@.len() ==> pos_le(#[trigger] result@[a]@, #[trigger] result@[b]@),
                keys_unique(mark_pairs(result@)),
                forall|k: int|
                    0 <= k < result@.len() ==> exists|j: int|
                        0 <= j < i && #[trigger] result@[k]@ == #[trigger] self.marks@[j]@
                            && selected(self.marks@[j]@, ns_id, start_row, start_col, end_row, end_col),
                forall|j: int|
                    0 <= j < i && selected(#[trigger] self.marks@[j]@, ns_id, start_row, start_col, end_row, end_col)
                        ==> exists|k: int| 0 <= k < result@.len() && #[trigger] result@[k]@ == self.marks@[j]@,
            decreases self.marks@.len() - i,
        {
            let m = &self.marks[i];
            let sel = (ns_id == -1 || m.ns_id == ns_id) && !(m.row < start_row || m.row > end_row)
                && !(m.row == start_row && m.col < start_col) && !(m.row == end_row && m.col > end_col);
            if sel {
                let p = sorted_insert_pos(&result, m);
                let c = copy_extmark(m);
                let ghost old_res = result@;
                result.insert(p, c);
                proof {
                    old_res.insert_ensures(p as int, c);
                    assert(result@ == old_res.insert(p as int, c));
                    assert forall|a: int, b: int| 0 <= a < b < result@.len() implies pos_le(#[trigger] result@[a]@, #[trigger] result@[b]@) by {
                        if a < p && b < p {
                            assert(result@[a] == old_res[a] && result@[b] == old_res[b]);
                        } else if a < p && b == p {
                            assert(result@[a] == old_res[a]);
                        } else if a < p {
                            assert(result@[a] == old_res[a] && result@[b] == old_res[b - 1]);
                        } else if a == p {
                            assert(result@[b] == old_res[b - 1]);
                        } else {
                            assert(result@[a] == old_res[a - 1] && result@[b] == old_res[b - 1]);
                        }
                    }
                    assert forall|a: int, b: int| 0 <= a < result@.len() && 0 <= b < result@.len() && a != b
                        implies #[trigger] mark_pairs(result@)[a].0 != #[trigger] mark_pairs(result@)[b].0 by {
                        let rp = mark_pairs(result@);
                        let op = mark_pairs(old_res);
                        assert(rp[a].0 == (result@[a].ns_id, result@[a].id));
                        assert(rp[b].0 == (result@[b].ns_id, result@[b].id));
                        if a != p && b != p {
                            let a0 = if a < p { a } else { a - 1 };
                            let b0 = if b < p { b } else { b - 1 };
                            assert(result@[a] == old_res[a0] && result@[b] == old_res[b0]);
                            assert(op[a0].0 != op[b0].0);
                        } else {
                            let o = if a == p { b } else { a };
                            let o0 = if o < p { o } else { o - 1 };
                            assert(result@[o] == old_res[o0]);
                            let j = choose|j: int|
                                0 <= j < i && #[trigger] old_res[o0]@ == #[trigger] self.marks@[j]@
                                    && selected(self.marks@[j]@, ns_id, start_row, start_col, end_row, end_col);
                            assert(mp[j].0 != mp[i as int].0);
                        }
                    }
                    assert forall|k: int| 0 <= k < result@.len() implies exists|j: int|
                        0 <= j < i + 1 && #[trigger] result@[k]@ == #[trigger] self.marks@[j]@
                            && selected(self.marks@[j]@, ns_id, start_row, start_col, end_row, end_col) by {
                        if k == p {
                            assert(result@[k]@ == self.marks@[i as int]@);
                        } else {
                            let k0 = if k < p { k } else { k - 1 };
                            assert(result@[k] == old_res[k0]);
                            let j = choose|j: int|
                                0 <= j < i && #[trigger] old_res[k0]@ == #[trigger] self.marks@[j]@
                                    && selected(self.marks@[j]@, ns_id, start_row, start_col, end_row, end_col);
                            assert(result@[k]@ == self.marks@[j]@);
                        }
                    }
                    assert forall|j: int|
                        0 <= j < i + 1 && selected(#[trigger] self.marks@[j]@, ns_id, start_row, start_col, end_row, end_col)
                        implies exists|k: int| 0 <= k < result@.len() && #[trigger] result@[k]@ == self.marks@[j]@ by {
                        if j == i {
                            assert(result@[p as int]@ == self.marks@[j]@);
                        } else {
                            let k0 = choose|k: int| 0 <= k < old_res.len() && #[trigger] old_res[k]@ == self.marks@[j]@;
                            let k = if k0 < p { k0 } else { k0 + 1 };
                            assert(result@[k] == old_res[k0]);
                        }
                    }
                }
            } else {
                proof {
                    assert forall|j: int|
                        0 <= j < i + 1 && selected(#[trigger] self.marks@[j]@, ns_id, start_row, start_col, end_row, end_col)
                        implies exists|k: int| 0 <= k < result@.len() && #[trigger] result@[k]@ == self.marks@[j]@ by {
                        assert(j != i);
                    }
                }
            }
            i += 1;
        }
        proof {
            assert forall|k: int| 0 <= k < result@.len() implies {
                &&& self@.marks.contains_key((#[trigger] result@[k].ns_id, result@[k].id))
                &&& self@.marks[(result@[k].ns_id, result@[k].id)] == result@[k]@
                &&& selected(result@[k]@, ns_id, start_row, start_col, end_row, end_col)
            } by {
                let j = choose|j: int|
                    0 <= j < i && #[trigger] result@[k]@ == #[trigger] self.marks@[j]@
                        && selected(self.marks@[j]@, ns_id, start_row, start_col, end_row, end_col);
                lemma_assoc_get(mp, j);
            }
            assert forall|key: (i32, i32)|
                #[trigger] self@.marks.contains_key(key) && selected(self@.marks[key], ns_id, start_row, start_col, end_row, end_col)
                implies exists|k: int| 0 <= k < result@.len() && (result@[k].ns_id, result@[k].id) == key by {
                lemma_assoc_contains(mp, key);
                let j = choose|j: int| 0 <= j < mp.len() && #[trigger] mp[j].0 == key;
                lemma_assoc_get(mp, j);
                assert(selected(self.marks@[j]@, ns_id, start_row, start_col, end_row, end_col));
                let k = choose|k: int| 0 <= k < result@.len() && #[trigger] result@[k]@ == self.marks@[j]@;
                assert((result@[k].ns_id, result@[k].id) == key);
            }
        }
        result
    }

    /// Removes the marks of namespace `ns_id`, or all marks where it is `-1`.
    pub fn clear_namespace(&mut self, ns_id: i32)
        requires
            old(self).wf(),
        ensures
            final(self).wf(),
            final(self)@.next_mark_id == old(self)@.next_mark_id,
            final(self)@.marks == cleared(old(self)@.marks, ns_id),
    {
        if ns_id == -1 {
            self.marks = Vec::new();
            assert(mark_pairs(self.marks@) =~= Seq::empty());
            return;
        }
        let ghost gone = Set::new(|k: (i32, i32)| k.0 == ns_id);
        let ghost orig = old(self)@.marks;
        let mut i: usize = 0;
        while i < self.marks.len()
            invariant
                i <= self.marks@.len(),
                keys_unique(mark_pairs(self.marks@)),
                gone == Set::new(|k: (i32, i32)| k.0 == ns_id),
                assoc_map(mark_pairs(self.marks@)).remove_keys(gone) == orig.remove_keys(gone),
                forall|k: int| 0 <= k < i ==> #[trigger] self.marks@[k].ns_id != ns_id,
                self.next_mark_id == old(self).next_mark_id,
            decreases self.marks@.len() - i,
        {
            if self.marks[i].ns_id == ns_id {
                let ghost op = mark_pairs(self.marks@);
                self.marks.remove(i);
                proof {
                    assert(mark_pairs(self.marks@) =~= op.remove(i as int));
                    lemma_assoc_remove(op, i as int);
                    assert(assoc_map(op).remove(op[i as int].0).remove_keys(gone) =~= assoc_map(op).remove_keys(gone));
                }
            } else {
                i += 1;
            }
        }
        proof {
            let mp = mark_pairs(self.marks@);
            assert forall|key: (i32, i32)| assoc_map(mp).contains_key(key) implies !gone.contains(key) by {
                lemma_assoc_contains(mp, key);
                let j = choose|j: int| 0 <= j < mp.len() && #[trigger] mp[j].0 == key;
                assert(self.marks@[j].ns_id != ns_id);
            }
            assert(assoc_map(mp).remove_keys(gone) =~= assoc_map(mp));
        }
    }

    /// Moves the marks with a change of the text: `added_rows` rows at
    /// `row` and `added_cols` columns at `(row, col)`.
    pub fn on_change(&mut self, row: usize, col: usize, added_rows: i32, added_cols: i32)
        requires
            old(self).wf(),
            marks_movable(old(self)@, row, col, added_rows, added_cols),
        ensures
            final(self).wf(),
            final(self)@ == moved_marks(old(self)@, row, col, added_rows, added_cols),
    {
        let ghost orig = self.marks@;
        let ghost op = mark_pairs(orig);
        proof {
            assert forall|j: int| 0 <= j < orig.len() implies move_ok(#[trigger] orig[j]@, row, col, added_rows, added_cols) by {
                lemma_assoc_get(op, j);
                assert(old(self)@.marks.contains_key(op[j].0));
                assert(old(self)@.marks[op[j].0] == orig[j]@);
            }
        }
        let mut i: usize = 0;
        while i < self.marks.len()
            invariant
                i <= self.marks@.len(),
                self.marks@.len() == orig.len(),
                op == mark_pairs(orig),
                forall|j: int| 0 <= j < orig.len() ==> move_ok(#[trigger] orig[j]@, row, col, added_rows, added_cols),
                forall|j: int| 0 <= j < i ==> #[trigger] self.marks@[j]@ == moved_mark(orig[j]@, row, col, added_rows, added_cols),
                forall|j: int| i <= j < orig.len() ==> #[trigger] self.marks@[j] == orig[j],
                self.next_mark_id == old(self).next_mark_id,
            decreases orig.len() - i,
        {
            move_extmark(&mut self.marks[i], row, col, added_rows, added_cols);
            i += 1;
        }
        proof {
            let np = mark_pairs(self.marks@);
            assert forall|j: int| 0 <= j < np.len() implies #[trigger] np[j] == (op[j].0, moved_mark(op[j].1, row, col, added_rows, added_cols)) by {
                assert(self.marks@[j]@ == moved_mark(orig[j]@, row, col, added_rows, added_cols));
            }
            assert forall|a: int, b: int| 0 <= a < np.len() && 0 <= b < np.len() && a != b implies #[trigger] np[a].0 != #[trigger] np[b].0 by {
                assert(np[a].0 == op[a].0 && np[b].0 == op[b].0);
            }
            let target = assoc_map(op).map_values(|m: ExtmarkView| moved_mark(m, row, col, added_rows, added_cols));
            assert forall|key: (i32, i32)| #[trigger] assoc_map(np).contains_key(key) <==> target.contains_key(key) by {
                lemma_assoc_contains(np, key);
                lemma_assoc_contains(op, key);
                if has_key(np, key) {
                    let j = choose|j: int| 0 <= j < np.len() && #[trigger] np[j].0 == key;
                    assert(op[j].0 == key);
                }
                if has_key(op, key) {
                    let j = choose|j: int| 0 <= j < op.len() && #[trigger] op[j].0 == key;
                    assert(np[j].0 == key);
                }
            }
            assert forall|key: (i32, i32)| #[trigger] assoc_map(np).contains_key(key) implies assoc_map(np)[key] == target[key] by {
                lemma_assoc_contains(np, key);
                let j = choose|j: int| 0 <= j < np.len() && #[trigger] np[j].0 == key;
                lemma_assoc_get(np, j);
                lemma_assoc_get(op, j);
            }
            assert(assoc_map(np) =~= target);
            assert(self@ == moved_marks(old(self)@, row, col, added_rows, added_cols));
        }
    }
}

/// A mark that was set is what a lookup of its namespace and id gives.
pub proof fn law_set_then_get(m: ExtmarkManagerView, ns_id: i32, id: i32, mark: ExtmarkView)
    ensures
        ({
            let marks = m.marks.insert((ns_id, id), mark);
            marks.contains_key((ns_id, id)) && marks[(ns_id, id)] == mark
        }),
{
}

/// Lines inserted above a mark move it down by their number; columns
/// inserted before a mark on its line move it right by theirs.
pub proof fn law_marks_follow_text(m: ExtmarkView, row: usize, col: usize, added: i32)
    requires
        move_ok(m, row, col, added, 0),
        move_ok(m, row, col, 0, added),
        m.row < i32::MAX,
        m.col < i32::MAX,
        m.row + added >= 0,
        m.col + added >= 0,
    ensures
        m.row > row ==> moved_mark(m, row, col, added, 0).row == m.row + added,
        m.row == row && m.col >= col ==> moved_mark(m, row, col, 0, added).col == m.col + added,
        m.row < row ==> moved_mark(m, row, col, added, 0).row == m.row,
        m.row == row && m.col < col ==> moved_mark(m, row, col, 0, added).col == m.col,
{
    if m.row > row && added != 0 {
        assert((m.row as i32) == m.row);
    }
    if m.row == row && m.col >= col && added != 0 {
        assert((m.col as i32) == m.col);
    }
}

/// Clearing a namespace leaves exactly the marks of the other namespaces.
pub proof fn law_clear_namespace(m: Map<(i32, i32), ExtmarkView>, ns_id: i32, key: (i32, i32))
    ensures
        ({
            let cleared = m.remove_keys(Set::new(|k: (i32, i32)| k.0 == ns_id));
            &&& cleared.contains_key(key) <==> (m.contains_key(key) && key.0 != ns_id)
            &&& cleared.contains_key(key) ==> cleared[key] == m[key]
        }),
{
}

/// The id that `set_extmark` gives for a mark id it is handed, where the
/// next free id is `next`; and the next free id after the call.
pub open spec fn set_step(before: ExtmarkManagerView, mark_id: Option<i32>, r: i32, after: ExtmarkManagerView) -> bool {
    &&& r == (match mark_id {
        Some(x) => x,
        None => before.next_mark_id,
    })
    &&& after.next_mark_id == (if mark_id is None {
        before.next_mark_id + 1
    } else {
        before.next_mark_id as int
    })
}

/// The number of calls without a mark id.
pub open spec fn fresh_count(ids: Seq<Option<i32>>) -> nat
    decreases ids.len(),
{
    if ids.len() == 0 {
        0
    } else {
        fresh_count(ids.drop_last()) + if ids.last() is None { 1nat } else { 0nat }
    }
}

proof fn lemma_next_ids(states: Seq<ExtmarkManagerView>, ids: Seq<Option<i32>>, results: Seq<i32>, k: int)
    requires
        states.len() == ids.len() + 1,
        results.len() == ids.len(),
        states[0].next_mark_id == 1,
        forall|i: int| 0 <= i < ids.len() ==> #[trigger] set_step(states[i], ids[i], results[i], states[i + 1]),
        0 <= k <= ids.len(),
    ensures
        states[k].next_mark_id == 1 + fresh_count(ids.take(k)),
    decreases k,
{
    if k > 0 {
        lemma_next_ids(states, ids, results, k - 1);
        assert(ids.take(k).drop_last() =~= ids.take(k - 1));
        let j = k - 1;
        assert(set_step(states[j], ids[j], results[j], states[j + 1]));
    } else {
        assert(ids.take(0) =~= Seq::<Option<i32>>::empty());
    }
}

/// Mark ids count up from 1: from a new manager (next id 1), the marks set
/// without an id get 1, 2, 3, ... in the order of the calls, whatever the
/// calls with an id in between.
pub proof fn law_fresh_ids_count_up(states: Seq<ExtmarkManagerView>, ids: Seq<Option<i32>>, results: Seq<i32>)
    requires
        states.len() == ids.len() + 1,
        results.len() == ids.len(),
        states[0].next_mark_id == 1,
        forall|i: int| 0 <= i < ids.len() ==> #[trigger] set_step(states[i], ids[i], results[i], states[i + 1]),
    ensures
        forall|i: int| 0 <= i < ids.len() && ids[i] is None ==> #[trigger] results[i] == 1 + fresh_count(ids.take(i)),
        states.last().next_mark_id == 1 + fresh_count(ids),
{
    assert forall|i: int| 0 <= i < ids.len() && ids[i] is None implies #[trigger] results[i] == 1 + fresh_count(ids.take(i)) by {
        lemma_next_ids(states, ids, results, i);
        assert(set_step(states[i], ids[i], results[i], states[i + 1]));
    }
    lemma_next_ids(states, ids, results, ids.len() as int);
    assert(ids.take(ids.len() as int) =~= ids);
}

/// After a clear the counts follow: clearing all (`-1`) leaves no
/// namespace and no mark; clearing one namespace removes it from the
/// namespaces and removes exactly its marks from the count.
pub proof fn law_clear_namespace_counts(m: Map<(i32, i32), ExtmarkView>, ns_id: i32)
    requires
        m.dom().finite(),
    ensures
        namespaces_of(m).finite(),
        namespaces_of(cleared(m, ns_id)).finite(),
        ns_id == -1 ==> namespaces_of(cleared(m, ns_id)).len() == 0 && cleared(m, ns_id).dom().len() == 0,
        ns_id != -1 ==> {
            &&& namespaces_of(cleared(m, ns_id)) == namespaces_of(m).remove(ns_id)
            &&& namespaces_of(cleared(m, ns_id)).len() == namespaces_of(m).len() - (if namespaces_of(m).contains(ns_id) { 1int } else { 0int })
            &&& cleared(m, ns_id).dom().len() == m.dom().len() - m.dom().filter(|k: (i32, i32)| k.0 == ns_id).len()
        },
{
    let f = |k: (i32, i32)| k.0;
    assert(namespaces_of(m) =~= m.dom().map(f)) by {
        assert forall|ns: i32| namespaces_of(m).contains(ns) implies m.dom().map(f).contains(ns) by {
            let id = choose|id: i32| #[trigger] m.contains_key((ns, id));
            assert(f((ns, id)) == ns);
        }
        assert forall|ns: i32| m.dom().map(f).contains(ns) implies namespaces_of(m).contains(ns) by {
            let key = choose|key: (i32, i32)| m.dom().contains(key) && f(key) == ns;
            assert(m.contains_key((ns, key.1)));
        }
    }
    m.dom().lemma_map_finite(f);
    let c = cleared(m, ns_id);
    if ns_id == -1 {
        assert(namespaces_of(c) =~= Set::<i32>::empty());
        assert(c.dom() =~= Set::<(i32, i32)>::empty());
    } else {
        assert(namespaces_of(c) =~= namespaces_of(m).remove(ns_id)) by {
            assert forall|ns: i32| namespaces_of(m).remove(ns_id).contains(ns) implies namespaces_of(c).contains(ns) by {
                let id = choose|id: i32| #[trigger] m.contains_key((ns, id));
                assert(c.contains_key((ns, id)));
            }
        }
        let g = m.dom().filter(|k: (i32, i32)| k.0 == ns_id);
        m.dom().lemma_len_filter(|k: (i32, i32)| k.0 == ns_id);
        assert(c.dom() =~= m.dom().difference(g));
        assert(m.dom().intersect(g) =~= g);
        vstd::set_lib::lemma_set_difference_len(m.dom(), g);
    }
}

/// Columns added on a line move the marks on it at or after the column,
/// and nothing else: every mark keeps its row, id and namespace, a mark on
/// the line at or after the column moves right by the added columns (so do
/// mark ends there), and the set of marks and of namespaces stays.
pub proof fn law_column_shift(m: ExtmarkManagerView, row: usize, col: usize, added_cols: i32, k: (i32, i32))
    requires
        added_cols != 0,
        m.marks.contains_key(k),
    ensures
        ({
            let after = moved_marks(m, row, col, 0, added_cols).marks;
            let before = m.marks[k];
            &&& after.dom() == m.marks.dom()
            &&& namespaces_of(after) == namespaces_of(m.marks)
            &&& after[k].row == before.row
            &&& after[k].id == before.id
            &&& after[k].ns_id == before.ns_id
            &&& after[k].col == (if before.row == row && before.col >= col { shift(before.col, added_cols) } else { before.col })
            &&& after[k].end_row == before.end_row
            &&& after[k].end_col == (match (before.end_row, before.end_col) {
                (Some(er), Some(ec)) => Some(if er == row && ec >= col { shift(ec, added_cols) } else { ec }),
                _ => before.end_col,
            })
        }),
{
    let after = moved_marks(m, row, col, 0, added_cols).marks;
    assert(after.dom() =~= m.marks.dom());
    assert(namespaces_of(after) =~= namespaces_of(m.marks));
}

} // verus!
