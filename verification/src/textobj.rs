use vstd::prelude::*;
use crate::buffer::Buffer;
use crate::charset::{spec_is_alphanumeric, spec_is_whitespace, char_is_whitespace, vim_isident};
use crate::text::chars_of;
use crate::window::Cursor;

verus! {

/// White space in the sense of `char::is_whitespace`.
pub open spec fn ws(c: char) -> bool {
    spec_is_whitespace(c)
}

/// A line of white space only (what `str::trim` empties).
pub open spec fn blank(line: Seq<char>) -> bool {
    forall|i: int| 0 <= i < line.len() ==> ws(#[trigger] line[i])
}

/// A character of a word of kind `kind`: of a WORD (anything but white
/// space) where `kind` is `None`; of a word made of identifier characters
/// (`Some(true)`) or of other characters (`Some(false)`), never white space.
pub open spec fn of_kind(c: char, kind: Option<bool>) -> bool {
    match kind {
        None => !ws(c),
        Some(w) => (spec_is_alphanumeric(c) || c == '_') == w && !ws(c),
    }
}

/// The start of the run of characters of kind `kind` that reaches `i`.
pub open spec fn run_start(line: Seq<char>, i: int, kind: Option<bool>) -> int
    decreases i,
{
    if i > 0 && of_kind(line[i - 1], kind) {
        run_start(line, i - 1, kind)
    } else {
        i
    }
}

/// The end (last index) of the run of characters of kind `kind` from `i`.
pub open spec fn run_end(line: Seq<char>, i: int, kind: Option<bool>) -> int
    decreases line.len() - i,
{
    if 0 <= i && i + 1 < line.len() && of_kind(line[i + 1], kind) {
        run_end(line, i + 1, kind)
    } else {
        i
    }
}

/// The last index of the white space that follows `i`.
pub open spec fn space_end(line: Seq<char>, i: int) -> int
    decreases line.len() - i,
{
    if 0 <= i && i + 1 < line.len() && ws(line[i + 1]) {
        space_end(line, i + 1)
    } else {
        i
    }
}

/// A range of one line: from `(lnum, a)` to `(lnum, b)`.
pub open spec fn line_range(lnum: usize, a: int, b: int) -> (Cursor, Cursor) {
    (Cursor { row: lnum, col: a as usize }, Cursor { row: lnum, col: b as usize })
}

/// The first `i` in `lo..=hi` with `p(i)`, or `hi + 1` where there is none.
pub open spec fn first_in(lo: int, hi: int, p: spec_fn(int) -> bool) -> int
    decreases hi - lo + 1,
{
    if lo > hi {
        hi + 1
    } else if p(lo) {
        lo
    } else {
        first_in(lo + 1, hi, p)
    }
}

/// The last `i` in `lo..=hi` with `p(i)`, or `lo - 1` where there is none.
pub open spec fn last_in(lo: int, hi: int, p: spec_fn(int) -> bool) -> int
    decreases hi - lo + 1,
{
    if lo > hi {
        lo - 1
    } else if p(hi) {
        hi
    } else {
        last_in(lo, hi - 1, p)
    }
}

pub proof fn lemma_first_in(lo: int, hi: int, p: spec_fn(int) -> bool)
    ensures
        lo <= first_in(lo, hi, p) <= hi + 1 || (lo > hi && first_in(lo, hi, p) == hi + 1),
        first_in(lo, hi, p) <= hi ==> p(first_in(lo, hi, p)),
        forall|i: int| lo <= i < first_in(lo, hi, p) && i <= hi ==> !#[trigger] p(i),
    decreases hi - lo + 1,
{
    if lo <= hi && !p(lo) {
        lemma_first_in(lo + 1, hi, p);
    }
}

pub proof fn lemma_last_in(lo: int, hi: int, p: spec_fn(int) -> bool)
    ensures
        lo - 1 <= last_in(lo, hi, p) <= hi || (lo > hi && last_in(lo, hi, p) == lo - 1),
        last_in(lo, hi, p) >= lo ==> p(last_in(lo, hi, p)),
        forall|i: int| last_in(lo, hi, p) < i <= hi && i >= lo ==> !#[trigger] p(i),
    decreases hi - lo + 1,
{
    if lo <= hi && !p(hi) {
        lemma_last_in(lo, hi - 1, p);
    }
}

/// A line that starts a section: it begins with `target` or a form feed.
pub open spec fn section_start(line: Seq<char>, target: char) -> bool {
    line.len() > 0 && (line[0] == target || line[0] == '\x0c')
}

/// The last row, or 1 for an empty buffer.
pub open spec fn last_row(lines: Seq<Seq<char>>) -> usize {
    if lines.len() >= 1 {
        lines.len() as usize
    } else {
        1
    }
}

/// The last column of the last line, or 0.
pub open spec fn last_col(lines: Seq<Seq<char>>) -> usize {
    if lines.len() >= 1 && lines.last().len() >= 1 {
        (lines.last().len() - 1) as usize
    } else {
        0
    }
}

/// Whether row `r` (counted from 1) is a line of white space only, or
/// does not exist.
pub open spec fn row_blank(lines: Seq<Seq<char>>, r: int) -> bool {
    !(1 <= r <= lines.len()) || blank(lines[r - 1])
}

/// A blank line that ends a paragraph when a line with text was seen
/// between `lnum` and it (or `lnum` itself has text).
pub open spec fn para_stop(lines: Seq<Seq<char>>, lnum: int, r: int) -> bool {
    &&& 1 <= r <= lines.len()
    &&& blank(lines[r - 1])
    &&& (!row_blank(lines, lnum) || exists|q: int| #![trigger lines[q - 1]]
        (lnum < q < r || r < q < lnum) && 1 <= q <= lines.len() && !blank(lines[q - 1]))
}

/// The rows that end a paragraph for the motion from `lnum`.
pub open spec fn para_pred(lines: Seq<Seq<char>>, lnum: int) -> spec_fn(int) -> bool {
    |r: int| para_stop(lines, lnum, r)
}

/// The rows that start a section.
pub open spec fn section_pred(lines: Seq<Seq<char>>, t: char) -> spec_fn(int) -> bool {
    |q: int| 1 <= q <= lines.len() && section_start(lines[q - 1], t)
}

/// Where the paragraph motion goes from row `lnum`.
pub open spec fn para_boundary(lines: Seq<Seq<char>>, lnum: int, forward: bool) -> Cursor {
    if forward {
        let r = first_in(lnum + 1, lines.len() as int, para_pred(lines, lnum));
        if r <= lines.len() {
            Cursor { row: r as usize, col: 0 }
        } else {
            Cursor { row: last_row(lines), col: last_col(lines) }
        }
    } else {
        let r = last_in(1, lnum - 1, para_pred(lines, lnum));
        if r >= 1 {
            Cursor { row: r as usize, col: 0 }
        } else {
            Cursor { row: 1, col: 0 }
        }
    }
}

/// The character count of a line as the cursor column of its last
/// character, or 0.
pub open spec fn last_index(line: Seq<char>) -> usize {
    if line.len() >= 1 {
        (line.len() - 1) as usize
    } else {
        0
    }
}

/// The positions of a line that hold `target`.
pub open spec fn char_at_pred(line: Seq<char>, target: char) -> spec_fn(int) -> bool {
    |i: int| 0 <= i < line.len() && line[i] == target
}

/// The column where the forward search starts in row `r`: after `col` in
/// the row of the cursor, at 0 below it.
pub open spec fn fwd_start(lnum: int, col: int, r: int) -> int {
    if r == lnum {
        col + 1
    } else {
        0
    }
}

/// The rows where the forward search for `target` finds it.
pub open spec fn char_row_fwd(lines: Seq<Seq<char>>, lnum: int, col: int, target: char) -> spec_fn(int) -> bool {
    |r: int| 1 <= r <= lines.len() && first_in(fwd_start(lnum, col, r), lines[r - 1].len() - 1, char_at_pred(lines[r - 1], target))
        < lines[r - 1].len()
}

/// The column where the backward search starts in row `r`: before `col`
/// in the row of the cursor, at the last character above it.
pub open spec fn back_start(lnum: int, col: int, r: int, len: int) -> int {
    if r == lnum {
        if col >= 1 { col - 1 } else { 0 }
    } else {
        if len >= 1 { len - 1 } else { 0 }
    }
}

/// The rows where the backward search for `target` finds it (the row of
/// the cursor is passed over at column 0).
pub open spec fn char_row_back(lines: Seq<Seq<char>>, lnum: int, col: int, target: char) -> spec_fn(int) -> bool {
    |r: int| 1 <= r <= lines.len() && !(r == lnum && col == 0)
        && last_in(0, back_start(lnum, col, r, lines[r - 1].len() as int), char_at_pred(lines[r - 1], target)) >= 0
}

/// The last row the backward search looks at: the cursor's, or the last.
pub open spec fn back_top(lines: Seq<Seq<char>>, lnum: int) -> int {
    if lnum <= lines.len() { lnum } else { lines.len() as int }
}

/// The backward search reads no column past the end of a line: each row
/// it passes, down to the one where it finds `target`, holds its start
/// column.
pub open spec fn back_search_in_bounds(lines: Seq<Seq<char>>, lnum: int, col: int, target: char) -> bool {
    let h = last_in(1, back_top(lines, lnum), char_row_back(lines, lnum, col, target));
    forall|r: int| #![trigger lines[r - 1]]
        (if h >= 1 { h } else { 1 }) <= r <= back_top(lines, lnum) && !(r == lnum && col == 0)
            ==> back_start(lnum, col, r, lines[r - 1].len() as int) < lines[r - 1].len()
}

/// Where the character search finds `target` from `(lnum, col)`.
pub open spec fn char_pos(lines: Seq<Seq<char>>, lnum: int, col: int, target: char, forward: bool) -> Option<Cursor> {
    if forward {
        let r = first_in(lnum, lines.len() as int, char_row_fwd(lines, lnum, col, target));
        if r <= lines.len() {
            let line = lines[r - 1];
            Some(Cursor { row: r as usize, col: first_in(fwd_start(lnum, col, r), line.len() - 1, char_at_pred(line, target)) as usize })
        } else {
            None
        }
    } else {
        let r = last_in(1, back_top(lines, lnum), char_row_back(lines, lnum, col, target));
        if r >= 1 {
            let line = lines[r - 1];
            Some(Cursor { row: r as usize, col: last_in(0, back_start(lnum, col, r, line.len() as int), char_at_pred(line, target)) as usize })
        } else {
            None
        }
    }
}

/// The number of positions in `a..b` that hold `c`, counted from the
/// right end.
pub open spec fn count_r(line: Seq<char>, c: char, a: int, b: int) -> int
    decreases b - a,
{
    if b <= a {
        0
    } else {
        count_r(line, c, a, b - 1) + if line[b - 1] == c { 1int } else { 0 }
    }
}

/// The number of positions in `a..b` that hold `c`, counted from the left
/// end.
pub open spec fn count_l(line: Seq<char>, c: char, a: int, b: int) -> int
    decreases b - a,
{
    if b <= a {
        0
    } else {
        count_l(line, c, a + 1, b) + if line[a] == c { 1int } else { 0 }
    }
}

/// The bracket that matches `c`, and whether it lies forward.
pub open spec fn bracket_pair(c: char) -> Option<(char, bool)> {
    if c == '(' {
        Some((')', true))
    } else if c == '[' {
        Some((']', true))
    } else if c == '{' {
        Some(('}', true))
    } else if c == ')' {
        Some(('(', false))
    } else if c == ']' {
        Some(('[', false))
    } else if c == '}' {
        Some(('{', false))
    } else {
        None
    }
}

/// Forward: the positions `i` that close the bracket `c` at `col`: `pair`
/// with as many `c` as `pair` in `col..=i`.
pub open spec fn closes_fwd(line: Seq<char>, col: int, c: char, pair: char) -> spec_fn(int) -> bool {
    |i: int| 0 <= i < line.len() && line[i] == pair && count_r(line, c, col, i + 1) - count_r(line, pair, col, i + 1) == 0
}

/// Backward: the positions `i` that close the bracket `c` at `col`: `pair`
/// with as many `c` as `pair` in `i..=col`.
pub open spec fn closes_back(line: Seq<char>, col: int, c: char, pair: char) -> spec_fn(int) -> bool {
    |i: int| 0 <= i < line.len() && line[i] == pair && count_l(line, c, i, col + 1) - count_l(line, pair, i, col + 1) == 0
}

/// Where `%` jumps from column `col` of `line`.
pub open spec fn matching_pair(line: Seq<char>, col: int) -> Option<int> {
    if 0 <= col < line.len() {
        match bracket_pair(line[col]) {
            Some((pair, true)) => {
                let j = first_in(col, line.len() - 1, closes_fwd(line, col, line[col], pair));
                if j < line.len() { Some(j) } else { None }
            },
            Some((pair, false)) => {
                let j = last_in(0, col, closes_back(line, col, line[col], pair));
                if j >= 0 { Some(j) } else { None }
            },
            None => None,
        }
    } else {
        None
    }
}

/// The opening brackets that a backward search from `m` takes as the start
/// of the pair: `open` (not also `close`) with as many `close` as unmatched
/// `open` after it, up to `m`.
pub open spec fn opens_back(line: Seq<char>, m: int, open: char, close: char) -> spec_fn(int) -> bool {
    |i: int| 0 <= i < line.len() && line[i] == open && open != close
        && count_l(line, close, i + 1, m + 1) - count_l(line, open, i + 1, m + 1) == 0
}

/// The closing brackets that end the pair opened at `start`.
pub open spec fn closes_pair(line: Seq<char>, start: int, open: char, close: char) -> spec_fn(int) -> bool {
    |i: int| 0 <= i < line.len() && line[i] == close && count_r(line, open, start, i) - count_r(line, close, start, i) == 1
}

/// The bracket pair `open`..`close` around column `col` of a line that is
/// not empty, as the columns of the two brackets.
pub open spec fn pair_range(line: Seq<char>, col: int, open: char, close: char) -> Option<(int, int)> {
    let m = if col < line.len() - 1 { col } else { line.len() - 1 };
    let s = last_in(0, m, opens_back(line, m, open, close));
    if s >= 0 {
        let e = first_in(s, line.len() - 1, closes_pair(line, s, open, close));
        if e < line.len() { Some((s, e)) } else { None }
    } else {
        None
    }
}

/// The quotes that close a pair (an odd number of quotes before them) at
/// or after column `col`.
pub open spec fn closing_quote_pred(line: Seq<char>, quote: char, col: int) -> spec_fn(int) -> bool {
    |e: int| 0 <= e < line.len() && line[e] == quote && count_r(line, quote, 0, e) % 2 == 1 && e >= col
}

/// The quotes of a line pair up from its start; the pair around column
/// `col` is the first whose closing quote is at or after `col`, as the
/// columns of its two quotes.
pub open spec fn quote_range(line: Seq<char>, col: int, quote: char) -> Option<(int, int)> {
    let e = first_in(0, line.len() - 1, closing_quote_pred(line, quote, col));
    if e < line.len() {
        Some((last_in(0, e - 1, char_at_pred(line, quote)), e))
    } else {
        None
    }
}

/// The characters of a line that are not white space.
pub open spec fn non_ws_pred(line: Seq<char>) -> spec_fn(int) -> bool {
    |i: int| 0 <= i < line.len() && !ws(line[i])
}

/// The positions after `col` that start a word: not white space, with
/// white space between `col` and them.
pub open spec fn word_after_pred(line: Seq<char>, col: int) -> spec_fn(int) -> bool {
    |i: int| 0 <= i < line.len() && !ws(line[i]) && exists|j: int| col + 1 <= j < i && ws(#[trigger] line[j])
}

/// The white space before `col` that ends a gap after a word: there is a
/// character other than white space between it and `col`.
pub open spec fn gap_before_pred(line: Seq<char>, col: int) -> spec_fn(int) -> bool {
    |i: int| 0 <= i < col && i < line.len() && ws(line[i]) && exists|j: int| i < j < col && !ws(#[trigger] line[j])
}

/// Where the word motion goes from `(lnum, col)`.
pub open spec fn word_boundary(lines: Seq<Seq<char>>, lnum: int, col: int, forward: bool) -> Cursor {
    if !(1 <= lnum <= lines.len()) {
        Cursor { row: lnum as usize, col: col as usize }
    } else {
        let line = lines[lnum - 1];
        if forward {
            let i = first_in(col + 1, line.len() - 1, word_after_pred(line, col));
            if i < line.len() {
                Cursor { row: lnum as usize, col: i as usize }
            } else if lnum < lines.len() {
                Cursor { row: (lnum + 1) as usize, col: 0 }
            } else {
                Cursor { row: lnum as usize, col: last_index(line) }
            }
        } else {
            let i = last_in(0, col - 1, gap_before_pred(line, col));
            if i >= 0 {
                Cursor { row: lnum as usize, col: (i + 1) as usize }
            } else {
                Cursor { row: lnum as usize, col: 0 }
            }
        }
    }
}

/// Where the word-end motion goes forward from `(lnum, col)`: the end of
/// the next run of characters other than white space after `col`; where
/// the line has none, on from the start of the next line.
pub open spec fn word_end_fwd(lines: Seq<Seq<char>>, lnum: int, col: int) -> Cursor
    decreases lines.len() - lnum,
{
    if !(1 <= lnum <= lines.len()) {
        Cursor { row: lnum as usize, col: col as usize }
    } else {
        let line = lines[lnum - 1];
        let i = first_in(col + 1, line.len() - 1, non_ws_pred(line));
        if i < line.len() {
            Cursor { row: lnum as usize, col: run_end(line, i, None) as usize }
        } else if lnum < lines.len() {
            word_end_fwd(lines, lnum + 1, 0)
        } else {
            Cursor { row: lnum as usize, col: last_index(line) }
        }
    }
}

/// Where the word-end motion goes backward from `(lnum, col)`: the start
/// of the run of characters other than white space at or before `col - 1`
/// (skipping white space); from column 0, on from the end of the line
/// above.
pub open spec fn word_end_back(lines: Seq<Seq<char>>, lnum: int, col: int) -> Cursor
    decreases lnum,
{
    if !(1 <= lnum <= lines.len()) {
        Cursor { row: lnum as usize, col: col as usize }
    } else if col == 0 {
        if lnum > 1 {
            word_end_back(lines, lnum - 1, lines[lnum - 2].len() as int)
        } else {
            Cursor { row: 1, col: 0 }
        }
    } else {
        let line = lines[lnum - 1];
        let i = last_in(1, col - 1, non_ws_pred(line));
        Cursor { row: lnum as usize, col: run_start(line, if i >= 1 { i } else { 0 }, None) as usize }
    }
}

/// Punctuation that ends a sentence.
pub open spec fn is_punct(c: char) -> bool {
    c == '.' || c == '!' || c == '?'
}

/// Forward: the punctuation that ends a sentence, followed by white space
/// or at the end of the line.
pub open spec fn sent_end_pred(line: Seq<char>) -> spec_fn(int) -> bool {
    |i: int| 0 <= i < line.len() && is_punct(line[i]) && ((i + 1 < line.len() && ws(line[i + 1])) || i + 1 == line.len())
}

/// Forward: the first end of a sentence in row `r` from where the search
/// starts there.
pub open spec fn sent_col_fwd(lines: Seq<Seq<char>>, lnum: int, col: int, r: int) -> int {
    first_in(fwd_start(lnum, col, r), lines[r - 1].len() - 1, sent_end_pred(lines[r - 1]))
}

/// Forward: the rows where the sentence motion stops: at the end of a
/// sentence, or at a blank line below the cursor.
pub open spec fn sent_row_fwd(lines: Seq<Seq<char>>, lnum: int, col: int) -> spec_fn(int) -> bool {
    |r: int| 1 <= r <= lines.len() && (sent_col_fwd(lines, lnum, col, r) < lines[r - 1].len() || (blank(lines[r - 1]) && r > lnum))
}

/// Where the sentence motion goes forward from `(lnum, col)`: after the
/// next sentence end (onto the white space after it, or onto the
/// punctuation at the end of a line), or to the next blank line; the end
/// of the buffer where there is none.
pub open spec fn sentence_fwd(lines: Seq<Seq<char>>, lnum: int, col: int) -> Cursor {
    let r = first_in(lnum, lines.len() as int, sent_row_fwd(lines, lnum, col));
    if r <= lines.len() {
        let line = lines[r - 1];
        let i = sent_col_fwd(lines, lnum, col, r);
        if i < line.len() {
            Cursor { row: r as usize, col: (if i + 1 < line.len() { i + 1 } else { i }) as usize }
        } else {
            Cursor { row: r as usize, col: 0 }
        }
    } else {
        Cursor { row: last_row(lines), col: last_col(lines) }
    }
}

/// Backward: the punctuation that ends a sentence, followed by white
/// space, or at the end of a line above the cursor's.
pub open spec fn sent_ev_pred(line: Seq<char>, above: bool) -> spec_fn(int) -> bool {
    |i: int| 0 <= i < line.len() && is_punct(line[i]) && ((i + 1 < line.len() && ws(line[i + 1])) || (i + 1 == line.len() && above))
}

/// Backward: the last end of a sentence in row `r` before where the search
/// starts there.
pub open spec fn sent_col_back(lines: Seq<Seq<char>>, lnum: int, col: int, r: int) -> int {
    last_in(0, back_start(lnum, col, r, lines[r - 1].len() as int), sent_ev_pred(lines[r - 1], r < lnum))
}

/// Backward: the rows where the sentence motion stops.
pub open spec fn sent_row_back(lines: Seq<Seq<char>>, lnum: int, col: int) -> spec_fn(int) -> bool {
    |r: int| 1 <= r <= lines.len() && (sent_col_back(lines, lnum, col, r) >= 0 || (blank(lines[r - 1]) && r < lnum))
}

/// Where the sentence motion goes backward from `(lnum, col)`: to the
/// start of the sentence (after the white space that follows the previous
/// sentence end), or to the line after a blank line or after a line that
/// ends a sentence; the start of the buffer where there is none.
pub open spec fn sentence_back(lines: Seq<Seq<char>>, lnum: int, col: int) -> Cursor {
    let r = last_in(1, back_top(lines, lnum), sent_row_back(lines, lnum, col));
    if r >= 1 {
        let line = lines[r - 1];
        let i = sent_col_back(lines, lnum, col, r);
        if i >= 0 && i + 1 < line.len() && ws(line[i + 1]) {
            Cursor { row: r as usize, col: first_in(i + 1, line.len() - 1, non_ws_pred(line)) as usize }
        } else {
            Cursor { row: (r + 1) as usize, col: 0 }
        }
    } else {
        Cursor { row: 1, col: 0 }
    }
}

/// The backward sentence search reads no column past the end of a line:
/// each row it passes, down to the one where it stops, holds its start
/// column.
pub open spec fn sentence_back_in_bounds(lines: Seq<Seq<char>>, lnum: int, col: int) -> bool {
    let h = last_in(1, back_top(lines, lnum), sent_row_back(lines, lnum, col));
    forall|r: int| #![trigger lines[r - 1]]
        (if h >= 1 { h } else { 1 }) <= r <= back_top(lines, lnum)
            ==> back_start(lnum, col, r, lines[r - 1].len() as int) < lines[r - 1].len()
}

/// The column moved left over white space, staying within the line and
/// not below 0.
pub open spec fn ws_back(line: Seq<char>, c: int) -> int
    decreases c,
{
    if 0 < c < line.len() && ws(line[c]) {
        ws_back(line, c - 1)
    } else {
        c
    }
}

/// Whether every character is white space.
fn is_blank(chars: &Vec<char>) -> (r: bool)
    ensures
        r == blank(chars@),
{
    let mut i: usize = 0;
    while i < chars.len()
        invariant
            i <= chars@.len(),
            forall|k: int| 0 <= k < i ==> ws(#[trigger] chars@[k]),
        decreases chars@.len() - i,
    {
        if !char_is_whitespace(chars[i]) {
            return false;
        }
        i += 1;
    }
    true
}

/// Whether `c` belongs to words of kind `kind`.
fn is_of_kind(c: char, kind: Option<bool>) -> (r: bool)
    ensures
        r == of_kind(c, kind),
{
    match kind {
        None => !char_is_whitespace(c),
        Some(w) => vim_isident(c) == w && !char_is_whitespace(c),
    }
}

/// The range of the word of kind `kind` at column `col`, with the white
/// space after it unless `inner`.
fn word_range_of_kind(chars: &Vec<char>, col: usize, kind: Option<bool>, inner: bool) -> (r: (usize, usize))
    requires
        col < chars@.len(),
    ensures
        r.0 == run_start(chars@, col as int, kind),
        r.1 == (if inner {
            run_end(chars@, col as int, kind)
        } else {
            space_end(chars@, run_end(chars@, col as int, kind))
        }),
{
    let mut start = col;
    while start > 0 && is_of_kind(chars[start - 1], kind)
        invariant
            start <= col,
            col < chars@.len(),
            run_start(chars@, col as int, kind) == run_start(chars@, start as int, kind),
        decreases start,
    {
        start -= 1;
    }
    let mut end = col;
    while end + 1 < chars.len() && is_of_kind(chars[end + 1], kind)
        invariant
            col <= end < chars.len(),
            run_end(chars@, col as int, kind) == run_end(chars@, end as int, kind),
        decreases chars@.len() - end,
    {
        end += 1;
    }
    if !inner {
        let ghost e0 = end as int;
        while end + 1 < chars.len() && char_is_whitespace(chars[end + 1])
            invariant
                e0 <= end < chars.len(),
                space_end(chars@, e0) == space_end(chars@, end as int),
            decreases chars@.len() - end,
        {
            end += 1;
        }
    }
    (start, end)
}

/// The end of the pair of brackets opened at `start`, and the range of
/// the pair.
fn pair_end(chars: &Vec<char>, start: usize, open: char, close: char, lnum: usize, inner: bool) -> (r: Option<(Cursor, Cursor)>)
    requires
        start < chars@.len(),
        chars@[start as int] == open,
        open != close,
    ensures
        ({
            let line = chars@;
            let e = first_in(start as int, line.len() - 1, closes_pair(line, start as int, open, close));
            r == (if e < line.len() {
                Some(if inner { line_range(lnum, start + 1, e - 1) } else { line_range(lnum, start as int, e) })
            } else {
                None
            })
        }),
{
    let ghost line = chars@;
    let ghost pf = closes_pair(line, start as int, open, close);
    let mut depth: usize = 0;
    let mut i: usize = start;
    while i < chars.len()
        invariant
            start <= i <= line.len(),
            start < line.len(),
            line == chars@,
            line[start as int] == open,
            open != close,
            pf == closes_pair(line, start as int, open, close),
            depth == count_r(line, open, start as int, i as int) - count_r(line, close, start as int, i as int),
            i > start ==> depth >= 1,
            depth <= i - start,
            first_in(start as int, line.len() - 1, pf) == first_in(i as int, line.len() - 1, pf),
        decreases chars@.len() - i,
    {
        if chars[i] == open {
            depth += 1;
            assert(!pf(i as int));
        } else if chars[i] == close {
            if depth == 1 {
                assert(pf(i as int));
                if inner {
                    return Some((Cursor { row: lnum, col: start + 1 }, Cursor { row: lnum, col: i - 1 }));
                } else {
                    return Some((Cursor { row: lnum, col: start }, Cursor { row: lnum, col: i }));
                }
            } else {
                depth -= 1;
                assert(!pf(i as int));
            }
        } else {
            assert(!pf(i as int));
        }
        i += 1;
    }
    assert(first_in(i as int, line.len() - 1, pf) == line.len());
    None
}

impl Buffer {
    /// The characters of line `lnum`, if there is one.
    fn line_chars(&self, lnum: usize) -> (r: Option<Vec<char>>)
        requires
            self.wf(),
        ensures
            r is Some <==> 1 <= lnum <= self@.lines.len(),
            r matches Some(v) ==> v@ == self@.lines[lnum - 1],
    {
        match self.get_line(lnum) {
            Some(line) => Some(chars_of(line)),
            None => None,
        }
    }

    /// The column of the first character of line `lnum` that is not white
    /// space (the length of the line where there is none); 0 where there is
    /// no such line.
    pub fn find_line_first_char(&self, lnum: usize) -> (r: usize)
        requires
            self.wf(),
        ensures
            !(1 <= lnum <= self@.lines.len()) ==> r == 0,
            1 <= lnum <= self@.lines.len() ==> {
                let line = self@.lines[lnum - 1];
                &&& r <= line.len()
                &&& forall|k: int| 0 <= k < r ==> ws(#[trigger] line[k])
                &&& r == line.len() || !ws(line[r as int])
            },
    {
        match self.line_chars(lnum) {
            Some(chars) => {
                let mut i: usize = 0;
                while i < chars.len() && char_is_whitespace(chars[i])
                    invariant
                        i <= chars@.len(),
                        forall|k: int| 0 <= k < i ==> ws(#[trigger] chars@[k]),
                    decreases chars@.len() - i,
                {
                    i += 1;
                }
                i
            },
            None => 0,
        }
    }

    /// The column of the last character of line `lnum` that is not white
    /// space, but at least 0; 0 where there is no such line.
    pub fn find_line_last_char(&self, lnum: usize) -> (r: usize)
        requires
            self.wf(),
        ensures
            !(1 <= lnum <= self@.lines.len()) ==> r == 0,
            1 <= lnum <= self@.lines.len() ==> {
                let line = self@.lines[lnum - 1];
                &&& line.len() == 0 ==> r == 0
                &&& line.len() > 0 ==> r < line.len() && (r == 0 || !ws(line[r as int]))
                    && forall|k: int| r < k < line.len() ==> ws(#[trigger] line[k])
            },
    {
        match self.line_chars(lnum) {
            Some(chars) => {
                let mut i: usize = if chars.len() > 0 { chars.len() - 1 } else { 0 };
                while i > 0 && char_is_whitespace(chars[i])
                    invariant
                        chars@.len() == 0 ==> i == 0,
                        chars@.len() > 0 ==> i < chars@.len(),
                        forall|k: int| i < k < chars@.len() ==> ws(#[trigger] chars@[k]),
                    decreases i,
                {
                    i -= 1;
                }
                i
            },
            None => 0,
        }
    }

    /// The WORD (a run of characters other than white space) at `(lnum,
    /// col)`, with the white space after it unless `inner`; `None` where
    /// there is no character there or it is white space.
    pub fn get_big_word_range(&self, lnum: usize, col: usize, inner: bool) -> (r: Option<(Cursor, Cursor)>)
        requires
            self.wf(),
        ensures
            r is Some <==> 1 <= lnum <= self@.lines.len() && col < self@.lines[lnum - 1].len()
                && !ws(self@.lines[lnum - 1][col as int]),
            r is Some ==> {
                let line = self@.lines[lnum - 1];
                let e = run_end(line, col as int, None);
                r == Some(line_range(lnum, run_start(line, col as int, None), if inner { e } else { space_end(line, e) }))
            },
    {
        let chars = match self.line_chars(lnum) {
            Some(c) => c,
            None => {
                return None;
            },
        };
        if col >= chars.len() {
            return None;
        }
        if char_is_whitespace(chars[col]) {
            return None;
        }
        let (start, end) = word_range_of_kind(&chars, col, None, inner);
        Some((Cursor { row: lnum, col: start }, Cursor { row: lnum, col: end }))
    }

    /// The word at `(lnum, col)`: a run of identifier characters, or of
    /// other characters that are not white space, as the character at
    /// `col` is; with the white space after it unless `inner`. `None` where
    /// there is no character there or it is white space.
    pub fn get_word_range(&self, lnum: usize, col: usize, inner: bool) -> (r: Option<(Cursor, Cursor)>)
        requires
            self.wf(),
        ensures
            r is Some <==> 1 <= lnum <= self@.lines.len() && col < self@.lines[lnum - 1].len()
                && !ws(self@.lines[lnum - 1][col as int]),
            r is Some ==> {
                let line = self@.lines[lnum - 1];
                let c = line[col as int];
                let kind = Some(spec_is_alphanumeric(c) || c == '_');
                let e = run_end(line, col as int, kind);
                r == Some(line_range(lnum, run_start(line, col as int, kind), if inner { e } else { space_end(line, e) }))
            },
    {
        let chars = match self.line_chars(lnum) {
            Some(c) => c,
            None => {
                return None;
            },
        };
        if col >= chars.len() {
            return None;
        }
        let c = chars[col];
        if char_is_whitespace(c) {
            return None;
        }
        let target_is_word = vim_isident(c);
        let (start, end) = word_range_of_kind(&chars, col, Some(target_is_word), inner);
        Some((Cursor { row: lnum, col: start }, Cursor { row: lnum, col: end }))
    }
    /// The next (or previous) line that starts with `{` (`}` where
    /// `close_brace`) or a form feed, at column 0; the last (first) line
    /// where there is none.
    pub fn find_section_boundary(&self, lnum: usize, _col: usize, forward: bool, close_brace: bool) -> (r: Cursor)
        requires
            self.wf(),
            forward ==> lnum < usize::MAX,
        ensures
            ({
                let lines = self@.lines;
                let t = if close_brace { '}' } else { '{' };
                let p = section_pred(lines, t);
                if forward {
                    let f = first_in(lnum + 1, lines.len() as int, p);
                    r == (if f <= lines.len() { Cursor { row: f as usize, col: 0 } } else { Cursor { row: last_row(lines), col: 0 } })
                } else {
                    let b = last_in(1, lnum - 1, p);
                    r == (if b >= 1 { Cursor { row: b as usize, col: 0 } } else { Cursor { row: 1, col: 0 } })
                }
            }),
    {
        let target = if close_brace { '}' } else { '{' };
        let ghost lines = self@.lines;
        let ghost p = section_pred(lines, target);
        let n = self.line_count();
        if forward {
            let mut r: usize = lnum;
            while r < n
                invariant
                    lnum <= r,
                    forward,
                    n == lines.len(),
                    lines == self@.lines,
                    self.wf(),
                    p == section_pred(lines, target),
                    target == (if close_brace { '}' } else { '{' }),
                    first_in(lnum + 1, n as int, p) == first_in(r + 1, n as int, p),
                decreases n - r,
            {
                r += 1;
                let chars = self.line_chars(r).unwrap();
                if chars.len() > 0 && (chars[0] == target || chars[0] == '\x0c') {
                    assert(p(r as int));
                    return Cursor { row: r, col: 0 };
                }
                assert(!p(r as int));
            }
            Cursor { row: if n >= 1 { n } else { 1 }, col: 0 }
        } else {
            let mut r: usize = lnum;
            while r > 1
                invariant
                    r <= lnum,
                    !forward,
                    n == lines.len(),
                    lines == self@.lines,
                    self.wf(),
                    p == section_pred(lines, target),
                    target == (if close_brace { '}' } else { '{' }),
                    last_in(1, lnum - 1, p) == last_in(1, r - 1, p),
                decreases r,
            {
                r -= 1;
                match self.line_chars(r) {
                    Some(chars) => {
                        if chars.len() > 0 && (chars[0] == target || chars[0] == '\x0c') {
                            assert(p(r as int));
                            return Cursor { row: r, col: 0 };
                        }
                        assert(!p(r as int));
                    },
                    None => {
                        assert(!p(r as int));
                    },
                }
            }
            Cursor { row: 1, col: 0 }
        }
    }

    /// Where the paragraph motion goes from row `lnum`: the next (or
    /// previous) blank line once a line with text was passed (or `lnum` has
    /// text); the end (start) of the buffer where there is none.
    pub fn find_paragraph_boundary(&self, lnum: usize, _col: usize, forward: bool) -> (r: Cursor)
        requires
            self.wf(),
            forward ==> lnum < usize::MAX,
        ensures
            r == para_boundary(self@.lines, lnum as int, forward),
    {
        let ghost lines = self@.lines;
        let ghost p = para_pred(lines, lnum as int);
        let start_line_empty = match self.line_chars(lnum) {
            Some(chars) => is_blank(&chars),
            None => true,
        };
        let mut found_non_empty = !start_line_empty;
        let n = self.line_count();
        if forward {
            let mut r: usize = lnum;
            while r < n
                invariant
                    lnum <= r,
                    forward,
                    n == lines.len(),
                    lines == self@.lines,
                    self.wf(),
                    p == para_pred(lines, lnum as int),
                    found_non_empty == (!row_blank(lines, lnum as int) || exists|q: int| #![trigger lines[q - 1]]
                        lnum < q <= r && 1 <= q <= lines.len() && !blank(lines[q - 1])),
                    first_in(lnum + 1, n as int, p) == first_in(r + 1, n as int, p),
                decreases n - r,
            {
                r += 1;
                let chars = self.line_chars(r).unwrap();
                let is_empty = is_blank(&chars);
                if !is_empty {
                    found_non_empty = true;
                    assert(!p(r as int));
                } else if found_non_empty {
                    assert(p(r as int));
                    return Cursor { row: r, col: 0 };
                } else {
                    assert(!p(r as int));
                }
            }
            let last = match self.line_chars(n) {
                Some(chars) => if chars.len() >= 1 { chars.len() - 1 } else { 0 },
                None => 0,
            };
            Cursor { row: if n >= 1 { n } else { 1 }, col: last }
        } else {
            if lnum > 1 {
                let mut r: usize = lnum;
                while r > 1
                    invariant
                        r <= lnum,
                        !forward,
                        n == lines.len(),
                        lines == self@.lines,
                        self.wf(),
                        p == para_pred(lines, lnum as int),
                        found_non_empty == (!row_blank(lines, lnum as int) || exists|q: int| #![trigger lines[q - 1]]
                            r <= q < lnum && 1 <= q <= lines.len() && !blank(lines[q - 1])),
                        last_in(1, lnum - 1, p) == last_in(1, r - 1, p),
                    decreases r,
                {
                    r -= 1;
                    match self.line_chars(r) {
                        Some(chars) => {
                            let is_empty = is_blank(&chars);
                            if !is_empty {
                                found_non_empty = true;
                                assert(!p(r as int));
                            } else if found_non_empty {
                                assert(p(r as int));
                                return Cursor { row: r, col: 0 };
                            } else {
                                assert(!p(r as int));
                            }
                        },
                        None => {
                            assert(!p(r as int));
                        },
                    }
                }
            }
            Cursor { row: 1, col: 0 }
        }
    }

    /// The paragraph around row `lnum`: from the paragraph boundary before
    /// it to the one after it; unless `inner`, without the blank lines that
    /// bound it.
    pub fn get_paragraph_range(&self, lnum: usize, col: usize, inner: bool) -> (r: Option<(Cursor, Cursor)>)
        requires
            self.wf(),
            lnum < usize::MAX,
        ensures
            ({
                let lines = self@.lines;
                let s = para_boundary(lines, lnum as int, false);
                let e = para_boundary(lines, lnum as int, true);
                let s2 = if inner && s.row < lnum && 1 <= s.row <= lines.len() && blank(lines[s.row - 1]) {
                    Cursor { row: (s.row + 1) as usize, col: 0 }
                } else {
                    s
                };
                let e2 = if inner && e.row > lnum && 1 <= e.row <= lines.len() && blank(lines[e.row - 1]) {
                    Cursor {
                        row: (e.row - 1) as usize,
                        col: if 1 <= e.row - 1 <= lines.len() { last_index(lines[e.row - 2]) } else { e.col },
                    }
                } else {
                    e
                };
                r == Some((s2, e2))
            }),
    {
        let mut start = self.find_paragraph_boundary(lnum, col, false);
        let mut end = self.find_paragraph_boundary(lnum, col, true);
        if inner {
            if start.row < lnum {
                match self.line_chars(start.row) {
                    Some(chars) => {
                        if is_blank(&chars) {
                            start.row = start.row + 1;
                            start.col = 0;
                        }
                    },
                    None => {},
                }
            }
            if end.row > lnum {
                match self.line_chars(end.row) {
                    Some(chars) => {
                        if is_blank(&chars) {
                            end.row = end.row - 1;
                            match self.line_chars(end.row) {
                                Some(c2) => {
                                    end.col = if c2.len() >= 1 { c2.len() - 1 } else { 0 };
                                },
                                None => {},
                            }
                        }
                    },
                    None => {},
                }
            }
        }
        Some((start, end))
    }
    /// The next (or previous) position that holds `target`, searching from
    /// `(lnum, col)` across lines; `None` where there is none.
    pub fn find_char_pos(&self, lnum: usize, col: usize, target: char, forward: bool) -> (r: Option<Cursor>)
        requires
            self.wf(),
            forward && 1 <= lnum <= self@.lines.len() ==> col < usize::MAX,
            !forward ==> back_search_in_bounds(self@.lines, lnum as int, col as int, target),
        ensures
            r == char_pos(self@.lines, lnum as int, col as int, target, forward),
    {
        let ghost lines = self@.lines;
        let n = self.line_count();
        if forward {
            let ghost p = char_row_fwd(lines, lnum as int, col as int, target);
            if lnum > n {
                return None;
            }
            let mut r: usize = lnum;
            while r <= n
                invariant
                    lnum <= r <= n,
                    forward,
                    n == lines.len(),
                    lines == self@.lines,
                    self.wf(),
                    1 <= lnum <= lines.len() ==> col < usize::MAX,
                    p == char_row_fwd(lines, lnum as int, col as int, target),
                    first_in(lnum as int, n as int, p) == first_in(r as int, n as int, p),
                decreases n - r,
            {
                match self.line_chars(r) {
                    Some(chars) => {
                        let ghost cp = char_at_pred(chars@, target);
                        let start_c = if r == lnum { col + 1 } else { 0 };
                        let mut i: usize = start_c;
                        proof {
                            if start_c > chars@.len() {
                                assert(first_in(start_c as int, chars@.len() - 1, cp) == chars@.len() - 1 + 1);
                            }
                        }
                        while i < chars.len()
                            invariant
                                start_c <= i,
                                forward,
                                lnum <= r <= n,
                                n == lines.len(),
                                lines == self@.lines,
                                first_in(lnum as int, n as int, p) == first_in(r as int, n as int, p),
                                1 <= r <= lines.len(),
                                p == char_row_fwd(lines, lnum as int, col as int, target),
                                chars@ == lines[r - 1],
                                cp == char_at_pred(chars@, target),
                                start_c as int == fwd_start(lnum as int, col as int, r as int),
                                first_in(start_c as int, chars@.len() - 1, cp) == first_in(i as int, chars@.len() - 1, cp),
                            decreases chars@.len() - i,
                        {
                            if chars[i] == target {
                                proof {
                                    assert(cp(i as int));
                                    assert(first_in(i as int, chars@.len() - 1, cp) == i);
                                    assert(p(r as int));
                                }
                                return Some(Cursor { row: r, col: i });
                            }
                            i += 1;
                        }
                        proof {
                            assert(!p(r as int));
                        }
                    },
                    None => {
                        assert(!p(r as int));
                    },
                }
                if r == n {
                    assert(first_in(r as int + 1, n as int, p) == n + 1);
                    return None;
                }
                r += 1;
            }
            None
        } else {
            let ghost p = char_row_back(lines, lnum as int, col as int, target);
            let top = if lnum <= n { lnum } else { n };
            let mut r: usize = top;
            proof {
                lemma_last_in(1, top as int, p);
            }
            while r >= 1
                invariant
                    r <= top,
                    top as int == back_top(lines, lnum as int),
                    !forward,
                    n == lines.len(),
                    lines == self@.lines,
                    self.wf(),
                    back_search_in_bounds(lines, lnum as int, col as int, target),
                    p == char_row_back(lines, lnum as int, col as int, target),
                    last_in(1, top as int, p) == last_in(1, r as int, p),
                    forall|q: int| r < q <= top && q >= 1 ==> !#[trigger] p(q),
                decreases r,
            {
                let chars = self.line_chars(r).unwrap();
                if !(r == lnum && col == 0) {
                    let ghost cp = char_at_pred(chars@, target);
                    let start_c = if r == lnum {
                        if col >= 1 { col - 1 } else { 0 }
                    } else {
                        if chars.len() >= 1 { chars.len() - 1 } else { 0 }
                    };
                    proof {
                        let h = last_in(1, top as int, p);
                        lemma_last_in(1, top as int, p);
                        assert(h <= r);
                        assert(lines[r - 1] == chars@);
                    }
                    let mut k: usize = start_c + 1;
                    while k > 0
                        invariant
                            k <= start_c + 1,
                            start_c < chars@.len(),
                            !forward,
                            r <= top,
                            top as int == back_top(lines, lnum as int),
                            n == lines.len(),
                            lines == self@.lines,
                            last_in(1, top as int, p) == last_in(1, r as int, p),
                            1 <= r <= lines.len(),
                            !(r == lnum && col == 0),
                            p == char_row_back(lines, lnum as int, col as int, target),
                            chars@ == lines[r - 1],
                            cp == char_at_pred(chars@, target),
                            start_c as int == back_start(lnum as int, col as int, r as int, chars@.len() as int),
                            last_in(0, start_c as int, cp) == last_in(0, k - 1, cp),
                        decreases k,
                    {
                        k -= 1;
                        if chars[k] == target {
                            proof {
                                assert(cp(k as int));
                                assert(p(r as int));
                            }
                            return Some(Cursor { row: r, col: k });
                        }
                    }
                    proof {
                        assert(!p(r as int));
                    }
                } else {
                    assert(!p(r as int));
                }
                if r == 1 {
                    assert(last_in(1, 0, p) == 0);
                    return None;
                }
                r -= 1;
            }
            None
        }
    }
    /// Where `%` jumps from `(lnum, col)`: the bracket that matches the one
    /// there; `None` where there is none or no bracket there.
    pub fn find_matching_pair(&self, lnum: usize, col: usize) -> (r: Option<Cursor>)
        requires
            self.wf(),
        ensures
            !(1 <= lnum <= self@.lines.len()) ==> r is None,
            1 <= lnum <= self@.lines.len() ==> r == (match matching_pair(self@.lines[lnum - 1], col as int) {
                Some(j) => Some(Cursor { row: lnum, col: j as usize }),
                None => None,
            }),
    {
        let chars = match self.line_chars(lnum) {
            Some(c) => c,
            None => {
                return None;
            },
        };
        if col >= chars.len() {
            return None;
        }
        let c = chars[col];
        let (pair, forward) = if c == '(' {
            (')', true)
        } else if c == '[' {
            (']', true)
        } else if c == '{' {
            ('}', true)
        } else if c == ')' {
            ('(', false)
        } else if c == ']' {
            ('[', false)
        } else if c == '}' {
            ('{', false)
        } else {
            return None;
        };
        let ghost line = chars@;
        let mut depth: usize = 0;
        if forward {
            let ghost p = closes_fwd(line, col as int, c, pair);
            let mut i: usize = col;
            while i < chars.len()
                invariant
                    col <= i <= chars@.len(),
                    line == chars@,
                    1 <= lnum <= self@.lines.len(),
                    line == self@.lines[lnum - 1],
                    bracket_pair(c) == Some((pair, true)),
                    col < line.len(),
                    line[col as int] == c,
                    c != pair,
                    p == closes_fwd(line, col as int, c, pair),
                    depth == count_r(line, c, col as int, i as int) - count_r(line, pair, col as int, i as int),
                    i > col ==> depth >= 1,
                    depth <= i - col,
                    first_in(col as int, line.len() - 1, p) == first_in(i as int, line.len() - 1, p),
                decreases chars@.len() - i,
            {
                if chars[i] == c {
                    depth += 1;
                    assert(!p(i as int));
                } else if chars[i] == pair {
                    depth -= 1;
                    if depth == 0 {
                        assert(p(i as int));
                        return Some(Cursor { row: lnum, col: i });
                    }
                    assert(!p(i as int));
                } else {
                    assert(!p(i as int));
                }
                i += 1;
            }
            assert(first_in(i as int, line.len() - 1, p) == line.len());
            None
        } else {
            let ghost p = closes_back(line, col as int, c, pair);
            let mut k: usize = col + 1;
            while k > 0
                invariant
                    k <= col + 1,
                    line == chars@,
                    col < chars.len(),
                    1 <= lnum <= self@.lines.len(),
                    line == self@.lines[lnum - 1],
                    bracket_pair(c) == Some((pair, false)),
                    col < line.len(),
                    line[col as int] == c,
                    c != pair,
                    p == closes_back(line, col as int, c, pair),
                    depth == count_l(line, c, k as int, col + 1) - count_l(line, pair, k as int, col + 1),
                    k <= col ==> depth >= 1,
                    depth <= col + 1 - k,
                    last_in(0, col as int, p) == last_in(0, k - 1, p),
                decreases k,
            {
                k -= 1;
                if chars[k] == c {
                    depth += 1;
                    assert(!p(k as int));
                } else if chars[k] == pair {
                    depth -= 1;
                    if depth == 0 {
                        assert(p(k as int));
                        return Some(Cursor { row: lnum, col: k });
                    }
                    assert(!p(k as int));
                } else {
                    assert(!p(k as int));
                }
            }
            assert(last_in(0, -1, p) == -1);
            None
        }
    }

    /// The pair of brackets `open` .. `close` around `(lnum, col)` on its
    /// line: the brackets themselves, or, where `inner`, what is between.
    /// `None` where there is no such pair.
    pub fn get_pair_range(&self, lnum: usize, col: usize, open: char, close: char, inner: bool) -> (r: Option<(Cursor, Cursor)>)
        requires
            self.wf(),
            1 <= lnum <= self@.lines.len() ==> self@.lines[lnum - 1].len() > 0,
        ensures
            !(1 <= lnum <= self@.lines.len()) ==> r is None,
            1 <= lnum <= self@.lines.len() ==> r == (match pair_range(self@.lines[lnum - 1], col as int, open, close) {
                Some((s, e)) => Some(if inner { line_range(lnum, s + 1, e - 1) } else { line_range(lnum, s, e) }),
                None => None,
            }),
    {
        let chars = match self.line_chars(lnum) {
            Some(c) => c,
            None => {
                return None;
            },
        };
        let ghost line = chars@;
        let m = if col < chars.len() - 1 { col } else { chars.len() - 1 };
        if open == close {
            proof {
                let pb0 = opens_back(line, m as int, open, close);
                lemma_last_in(0, m as int, pb0);
            }
            return None;
        }
        let ghost pb = opens_back(line, m as int, open, close);
        let mut depth: usize = 0;
        let mut k: usize = m + 1;
        while k > 0
            invariant
                k <= m + 1,
                m < line.len(),
                m < chars.len(),
                line == chars@,
                1 <= lnum <= self@.lines.len(),
                line == self@.lines[lnum - 1],
                m as int == (if col < line.len() - 1 { col as int } else { line.len() - 1 }),
                pb == opens_back(line, m as int, open, close),
                open != close,
                depth == count_l(line, close, k as int, m + 1) - count_l(line, open, k as int, m + 1),
                depth <= m + 1 - k,
                last_in(0, m as int, pb) == last_in(0, k - 1, pb),
            decreases k,
        {
            k -= 1;
            if chars[k] == close {
                depth += 1;
                assert(!pb(k as int));
            } else if chars[k] == open {
                if depth == 0 {
                    assert(pb(k as int));
                    assert(last_in(0, m as int, pb) == k);
                    return pair_end(&chars, k, open, close, lnum, inner);
                } else {
                    depth -= 1;
                    assert(!pb(k as int));
                }
            } else {
                assert(!pb(k as int));
            }
        }
        assert(last_in(0, -1, pb) == -1);
        None
    }

    /// The pair of `quote` characters around `(lnum, col)` on its line:
    /// the quotes themselves, or, where `inner`, what is between. `None`
    /// where there is no such pair.
    pub fn get_quote_range(&self, lnum: usize, col: usize, quote: char, inner: bool) -> (r: Option<(Cursor, Cursor)>)
        requires
            self.wf(),
        ensures
            !(1 <= lnum <= self@.lines.len()) ==> r is None,
            1 <= lnum <= self@.lines.len() ==> r == (match quote_range(self@.lines[lnum - 1], col as int, quote) {
                Some((s, e)) => Some(if inner { line_range(lnum, s + 1, e - 1) } else { line_range(lnum, s, e) }),
                None => None,
            }),
    {
        let chars = match self.line_chars(lnum) {
            Some(c) => c,
            None => {
                return None;
            },
        };
        let ghost line = chars@;
        let ghost pe = closing_quote_pred(line, quote, col as int);
        let ghost pq = char_at_pred(line, quote);
        let mut first: Option<usize> = None;
        let mut i: usize = 0;
        while i < chars.len()
            invariant
                i <= line.len(),
                line == chars@,
                1 <= lnum <= self@.lines.len(),
                line == self@.lines[lnum - 1],
                pe == closing_quote_pred(line, quote, col as int),
                pq == char_at_pred(line, quote),
                first_in(0, line.len() - 1, pe) == first_in(i as int, line.len() - 1, pe),
                count_r(line, quote, 0, i as int) % 2 == 0 ==> first is None,
                count_r(line, quote, 0, i as int) % 2 == 1 ==> (first matches Some(f) && f < i
                    && f == last_in(0, i - 1, pq)),
            decreases chars@.len() - i,
        {
            if chars[i] == quote {
                match first {
                    None => {
                        first = Some(i);
                        assert(last_in(0, i as int, pq) == i);
                        assert(!pe(i as int));
                    },
                    Some(f) => {
                        if i >= col {
                            assert(pe(i as int));
                            assert(quote_range(line, col as int, quote) == Some((f as int, i as int)));
                            if inner {
                                return Some((Cursor { row: lnum, col: f + 1 }, Cursor { row: lnum, col: i - 1 }));
                            } else {
                                return Some((Cursor { row: lnum, col: f }, Cursor { row: lnum, col: i }));
                            }
                        }
                        first = None;
                        assert(!pe(i as int));
                    },
                }
            } else {
                assert(!pe(i as int));
                proof {
                    if count_r(line, quote, 0, i as int) % 2 == 1 {
                        assert(last_in(0, i as int, pq) == last_in(0, i - 1, pq));
                    }
                }
            }
            i += 1;
        }
        assert(first_in(i as int, line.len() - 1, pe) == line.len());
        None
    }
    /// Where the word motion goes from `(lnum, col)`: forward, to the next
    /// character after white space on the line, else to the start of the
    /// next line (the last character of the last line); backward, to the
    /// start of the word before `col`, else to column 0.
    pub fn find_word_boundary(&self, lnum: usize, col: usize, forward: bool) -> (r: Cursor)
        requires
            self.wf(),
            forward && 1 <= lnum <= self@.lines.len() ==> col < usize::MAX,
            !forward && 1 <= lnum <= self@.lines.len() ==> col <= self@.lines[lnum - 1].len(),
        ensures
            r == word_boundary(self@.lines, lnum as int, col as int, forward),
    {
        let chars = match self.line_chars(lnum) {
            Some(c) => c,
            None => {
                return Cursor { row: lnum, col };
            },
        };
        let ghost line = chars@;
        if forward {
            let ghost p = word_after_pred(line, col as int);
            let mut found_space = false;
            let mut i: usize = col + 1;
            proof {
                if col + 1 > line.len() {
                    assert(first_in(col + 1, line.len() - 1, p) == line.len());
                }
            }
            while i < chars.len()
                invariant
                    col + 1 <= i,
                    line == chars@,
                    forward,
                    1 <= lnum <= self@.lines.len(),
                    line == self@.lines[lnum - 1],
                    p == word_after_pred(line, col as int),
                    found_space == exists|j: int| col + 1 <= j < i && ws(#[trigger] line[j]),
                    first_in(col + 1, line.len() - 1, p) == first_in(i as int, line.len() - 1, p),
                decreases chars@.len() - i,
            {
                let c = chars[i];
                if char_is_whitespace(c) {
                    found_space = true;
                    assert(!p(i as int));
                } else if found_space {
                    assert(p(i as int));
                    return Cursor { row: lnum, col: i };
                } else {
                    assert(!p(i as int));
                }
                i += 1;
            }
            assert(first_in(i as int, line.len() - 1, p) == line.len());
            if lnum < self.line_count() {
                return Cursor { row: lnum + 1, col: 0 };
            }
            Cursor { row: lnum, col: if chars.len() >= 1 { chars.len() - 1 } else { 0 } }
        } else {
            let ghost p = gap_before_pred(line, col as int);
            let mut found_non_space = false;
            let mut k: usize = col;
            while k > 0
                invariant
                    k <= col <= line.len(),
                    line == chars@,
                    !forward,
                    1 <= lnum <= self@.lines.len(),
                    line == self@.lines[lnum - 1],
                    p == gap_before_pred(line, col as int),
                    found_non_space == exists|j: int| k <= j < col && !ws(#[trigger] line[j]),
                    last_in(0, col - 1, p) == last_in(0, k - 1, p),
                decreases k,
            {
                k -= 1;
                if !char_is_whitespace(chars[k]) {
                    found_non_space = true;
                    assert(!p(k as int));
                } else if found_non_space {
                    assert(p(k as int));
                    return Cursor { row: lnum, col: k + 1 };
                } else {
                    assert(!p(k as int));
                }
            }
            assert(last_in(0, -1, p) == -1);
            Cursor { row: lnum, col: 0 }
        }
    }

    /// Where the word-end motion goes from `(lnum, col)` (see
    /// [`word_end_fwd`] and [`word_end_back`]).
    pub fn find_word_end(&self, lnum: usize, col: usize, forward: bool) -> (r: Cursor)
        requires
            self.wf(),
            forward && 1 <= lnum <= self@.lines.len() ==> col < usize::MAX,
            !forward && 1 <= lnum <= self@.lines.len() && col >= 2 ==> col <= self@.lines[lnum - 1].len(),
        ensures
            r == (if forward {
                word_end_fwd(self@.lines, lnum as int, col as int)
            } else {
                word_end_back(self@.lines, lnum as int, col as int)
            }),
        decreases (if forward { self@.lines.len() - lnum } else { lnum as int }),
    {
        let chars = match self.line_chars(lnum) {
            Some(c) => c,
            None => {
                return Cursor { row: lnum, col };
            },
        };
        let ghost line = chars@;
        if forward {
            let ghost p = non_ws_pred(line);
            let mut i: usize = col + 1;
            proof {
                if col + 1 > line.len() {
                    assert(first_in(col + 1, line.len() - 1, p) == line.len());
                }
            }
            while i < chars.len() && char_is_whitespace(chars[i])
                invariant
                    col + 1 <= i,
                    line == chars@,
                    p == non_ws_pred(line),
                    first_in(col + 1, line.len() - 1, p) == first_in(i as int, line.len() - 1, p),
                decreases chars@.len() - i,
            {
                assert(!p(i as int));
                i += 1;
            }
            if i >= chars.len() {
                assert(first_in(i as int, line.len() - 1, p) == line.len());
                if lnum < self.line_count() {
                    return self.find_word_end(lnum + 1, 0, true);
                }
                return Cursor { row: lnum, col: if chars.len() >= 1 { chars.len() - 1 } else { 0 } };
            }
            assert(p(i as int));
            let ghost i0 = i as int;
            while i + 1 < chars.len() && !char_is_whitespace(chars[i + 1])
                invariant
                    i0 <= i < chars.len(),
                    line == chars@,
                    run_end(line, i0, None) == run_end(line, i as int, None),
                decreases chars@.len() - i,
            {
                i += 1;
            }
            Cursor { row: lnum, col: i }
        } else {
            if col == 0 {
                if lnum > 1 {
                    let prev_chars_count = match self.line_chars(lnum - 1) {
                        Some(pc) => pc.len(),
                        None => 1,
                    };
                    return self.find_word_end(lnum - 1, prev_chars_count, false);
                }
                return Cursor { row: 1, col: 0 };
            }
            let ghost p = non_ws_pred(line);
            let mut i: usize = col - 1;
            proof {
                if col - 1 == 0 {
                    assert(last_in(1, 0, p) == 0);
                }
            }
            while i > 0 && char_is_whitespace(chars[i])
                invariant
                    i <= col - 1,
                    col >= 2 ==> col <= line.len(),
                    line == chars@,
                    p == non_ws_pred(line),
                    last_in(1, col - 1, p) == last_in(1, i as int, p),
                decreases i,
            {
                assert(!p(i as int));
                i -= 1;
            }
            proof {
                if i >= 1 {
                    assert(p(i as int));
                    assert(last_in(1, i as int, p) == i);
                } else {
                    assert(last_in(1, 0, p) == 0);
                }
            }
            let ghost i1 = i as int;
            while i > 0 && !char_is_whitespace(chars[i - 1])
                invariant
                    i <= i1,
                    i1 < line.len() || i1 == 0,
                    line == chars@,
                    run_start(line, i1, None) == run_start(line, i as int, None),
                decreases i,
            {
                i -= 1;
            }
            Cursor { row: lnum, col: i }
        }
    }
    /// Where the sentence motion goes from `(lnum, col)` (see
    /// [`sentence_fwd`] and [`sentence_back`]).
    pub fn find_sentence_boundary(&self, lnum: usize, col: usize, forward: bool) -> (r: Cursor)
        requires
            self.wf(),
            forward && 1 <= lnum <= self@.lines.len() ==> col < usize::MAX,
            !forward ==> sentence_back_in_bounds(self@.lines, lnum as int, col as int),
        ensures
            r == (if forward {
                sentence_fwd(self@.lines, lnum as int, col as int)
            } else {
                sentence_back(self@.lines, lnum as int, col as int)
            }),
    {
        if forward {
            self.sentence_forward(lnum, col)
        } else {
            self.sentence_backward(lnum, col)
        }
    }

    fn sentence_forward(&self, lnum: usize, col: usize) -> (r: Cursor)
        requires
            self.wf(),
            1 <= lnum <= self@.lines.len() ==> col < usize::MAX,
        ensures
            r == sentence_fwd(self@.lines, lnum as int, col as int),
    {
        let ghost lines = self@.lines;
        let ghost p = sent_row_fwd(lines, lnum as int, col as int);
        let n = self.line_count();
        if lnum <= n {
            let mut r: usize = lnum;
            while r <= n
                invariant
                    lnum <= r <= n,
                    n == lines.len(),
                    lines == self@.lines,
                    self.wf(),
                    1 <= lnum <= lines.len() ==> col < usize::MAX,
                    p == sent_row_fwd(lines, lnum as int, col as int),
                    first_in(lnum as int, n as int, p) == first_in(r as int, n as int, p),
                decreases n - r,
            {
                match self.line_chars(r) {
                    Some(chars) => {
                        let ghost line = chars@;
                        let ghost sp = sent_end_pred(line);
                        let start_c = if r == lnum { col + 1 } else { 0 };
                        let mut i: usize = start_c;
                        proof {
                            if start_c > line.len() {
                                assert(first_in(start_c as int, line.len() - 1, sp) == line.len());
                            }
                        }
                        while i < chars.len()
                            invariant
                                start_c <= i,
                                lnum <= r <= n,
                                n == lines.len(),
                                lines == self@.lines,
                                1 <= r <= lines.len(),
                                line == lines[r - 1],
                                line == chars@,
                                sp == sent_end_pred(line),
                                p == sent_row_fwd(lines, lnum as int, col as int),
                                first_in(lnum as int, n as int, p) == first_in(r as int, n as int, p),
                                start_c as int == fwd_start(lnum as int, col as int, r as int),
                                first_in(start_c as int, line.len() - 1, sp) == first_in(i as int, line.len() - 1, sp),
                            decreases chars@.len() - i,
                        {
                            let c = chars[i];
                            if c == '.' || c == '!' || c == '?' {
                                if i + 1 < chars.len() && char_is_whitespace(chars[i + 1]) {
                                    assert(sp(i as int));
                                    assert(p(r as int));
                                    return Cursor { row: r, col: i + 1 };
                                } else if i + 1 == chars.len() {
                                    assert(sp(i as int));
                                    assert(p(r as int));
                                    return Cursor { row: r, col: i };
                                }
                            }
                            assert(!sp(i as int));
                            i += 1;
                        }
                        assert(first_in(i as int, line.len() - 1, sp) == line.len());
                        if r > lnum && is_blank(&chars) {
                            assert(p(r as int));
                            return Cursor { row: r, col: 0 };
                        }
                        assert(!p(r as int));
                    },
                    None => {
                        assert(!p(r as int));
                    },
                }
                if r == n {
                    assert(first_in(r as int + 1, n as int, p) == n + 1);
                    return self.end_cursor();
                }
                r += 1;
            }
            self.end_cursor()
        } else {
            assert(first_in(lnum as int, n as int, p) == n + 1);
            self.end_cursor()
        }
    }

    /// The last character of the buffer.
    fn end_cursor(&self) -> (r: Cursor)
        requires
            self.wf(),
        ensures
            r == (Cursor { row: last_row(self@.lines), col: last_col(self@.lines) }),
    {
        let n = self.line_count();
        let last = match self.line_chars(n) {
            Some(chars) => if chars.len() >= 1 { chars.len() - 1 } else { 0 },
            None => 0,
        };
        Cursor { row: if n >= 1 { n } else { 1 }, col: last }
    }

    fn sentence_backward(&self, lnum: usize, col: usize) -> (r: Cursor)
        requires
            self.wf(),
            sentence_back_in_bounds(self@.lines, lnum as int, col as int),
        ensures
            r == sentence_back(self@.lines, lnum as int, col as int),
    {
        let ghost lines = self@.lines;
        let ghost p = sent_row_back(lines, lnum as int, col as int);
        let n = self.line_count();
        let top = if lnum <= n { lnum } else { n };
        let mut r: usize = top;
        while r >= 1
            invariant
                r <= top,
                top as int == back_top(lines, lnum as int),
                n == lines.len(),
                lines == self@.lines,
                self.wf(),
                sentence_back_in_bounds(lines, lnum as int, col as int),
                p == sent_row_back(lines, lnum as int, col as int),
                last_in(1, top as int, p) == last_in(1, r as int, p),
                forall|q: int| r < q <= top && q >= 1 ==> !#[trigger] p(q),
            decreases r,
        {
            let chars = self.line_chars(r).unwrap();
            let ghost line = chars@;
            let ghost ep = sent_ev_pred(line, r < lnum);
            let start_c = if r == lnum {
                if col >= 1 { col - 1 } else { 0 }
            } else {
                if chars.len() >= 1 { chars.len() - 1 } else { 0 }
            };
            proof {
                let h = last_in(1, top as int, p);
                lemma_last_in(1, top as int, p);
                assert(h <= r);
                assert(lines[r - 1] == chars@);
            }
            let mut k: usize = start_c + 1;
            while k > 0
                invariant
                    k <= start_c + 1,
                    start_c < line.len(),
                    r <= top,
                    top as int == back_top(lines, lnum as int),
                    n == lines.len(),
                    lines == self@.lines,
                    1 <= r <= lines.len(),
                    line == lines[r - 1],
                    line == chars@,
                    ep == sent_ev_pred(line, r < lnum),
                    p == sent_row_back(lines, lnum as int, col as int),
                    last_in(1, top as int, p) == last_in(1, r as int, p),
                    start_c as int == back_start(lnum as int, col as int, r as int, line.len() as int),
                    last_in(0, start_c as int, ep) == last_in(0, k - 1, ep),
                decreases k,
            {
                k -= 1;
                let c = chars[k];
                if c == '.' || c == '!' || c == '?' {
                    if k + 1 < chars.len() && char_is_whitespace(chars[k + 1]) {
                        assert(ep(k as int));
                        assert(p(r as int));
                        let mut s: usize = k + 1;
                        let ghost np = non_ws_pred(line);
                        while s < chars.len() && char_is_whitespace(chars[s])
                            invariant
                                k + 1 <= s <= line.len(),
                                line == chars@,
                                np == non_ws_pred(line),
                                first_in(k + 1, line.len() - 1, np) == first_in(s as int, line.len() - 1, np),
                            decreases chars@.len() - s,
                        {
                            assert(!np(s as int));
                            s += 1;
                        }
                        proof {
                            if s < line.len() {
                                assert(np(s as int));
                            } else {
                                assert(first_in(s as int, line.len() - 1, np) == line.len());
                            }
                        }
                        return Cursor { row: r, col: s };
                    } else if k + 1 == chars.len() && r < lnum {
                        assert(ep(k as int));
                        assert(p(r as int));
                        return Cursor { row: r + 1, col: 0 };
                    }
                }
                assert(!ep(k as int));
            }
            assert(last_in(0, -1, ep) == -1);
            if r < lnum && is_blank(&chars) {
                assert(p(r as int));
                return Cursor { row: r + 1, col: 0 };
            }
            assert(!p(r as int));
            if r == 1 {
                assert(last_in(1, 0, p) == 0);
                return Cursor { row: 1, col: 0 };
            }
            r -= 1;
        }
        Cursor { row: 1, col: 0 }
    }

    /// The sentence around `(lnum, col)`: from where the backward sentence
    /// motion goes to where the forward one goes; where `inner`, the end
    /// moves back over white space.
    pub fn get_sentence_range(&self, lnum: usize, col: usize, inner: bool) -> (r: Option<(Cursor, Cursor)>)
        requires
            self.wf(),
            1 <= lnum <= self@.lines.len() ==> col < usize::MAX,
            sentence_back_in_bounds(self@.lines, lnum as int, col as int),
        ensures
            ({
                let lines = self@.lines;
                let s = sentence_back(lines, lnum as int, col as int);
                let e = sentence_fwd(lines, lnum as int, col as int);
                let e2 = if inner && 1 <= e.row <= lines.len() {
                    Cursor { row: e.row, col: ws_back(lines[e.row - 1], e.col as int) as usize }
                } else {
                    e
                };
                r == Some((s, e2))
            }),
    {
        let start = self.find_sentence_boundary(lnum, col, false);
        let mut end = self.find_sentence_boundary(lnum, col, true);
        if inner {
            match self.line_chars(end.row) {
                Some(chars) => {
                    let ghost line = chars@;
                    let ghost c0 = end.col as int;
                    let ghost row0 = end.row;
                    while end.col > 0 && end.col < chars.len() && char_is_whitespace(chars[end.col])
                        invariant
                            line == chars@,
                            end.row == row0,
                            ws_back(line, c0) == ws_back(line, end.col as int),
                        decreases end.col,
                    {
                        end.col = end.col - 1;
                    }
                },
                None => {},
            }
        }
        Some((start, end))
    }
}

/// The forward sentence motion stops at the first end of a sentence after
/// the cursor: a `.`, `!` or `?` followed by white space. Where the
/// cursor's line has such an end at `j`, after the cursor, the motion stays
/// on that line and lands on the white space right after an end of a
/// sentence at or before `j`, passing over no other end of a sentence.
pub proof fn law_sentence_forward_stops_at_end(lines: Seq<Seq<char>>, lnum: int, col: int, j: int)
    requires
        1 <= lnum <= lines.len() <= usize::MAX,
        lines[lnum - 1].len() <= usize::MAX,
        0 <= col < j,
        j + 1 < lines[lnum - 1].len(),
        lines[lnum - 1][j] == '.' || lines[lnum - 1][j] == '!' || lines[lnum - 1][j] == '?',
        ws(lines[lnum - 1][j + 1]),
    ensures
        ({
            let line = lines[lnum - 1];
            let c = sentence_fwd(lines, lnum, col);
            &&& c.row == lnum
            &&& col + 1 < c.col <= j + 1
            &&& (line[c.col - 1] == '.' || line[c.col - 1] == '!' || line[c.col - 1] == '?')
            &&& ws(line[c.col as int])
            &&& forall|k: int| col < k < c.col - 1 ==> !((line[k] == '.' || line[k] == '!' || line[k] == '?') && ws(#[trigger] line[k + 1]))
        }),
{
    let line = lines[lnum - 1];
    let p = sent_end_pred(line);
    assert(p(j));
    lemma_first_in(col + 1, line.len() - 1, p);
    let i = sent_col_fwd(lines, lnum, col, lnum);
    assert(fwd_start(lnum, col, lnum) == col + 1);
    assert(i == first_in(col + 1, line.len() - 1, p));
    assert(col + 1 <= i <= j);
    assert(p(i));
    assert(sent_row_fwd(lines, lnum, col)(lnum));
    assert(first_in(lnum, lines.len() as int, sent_row_fwd(lines, lnum, col)) == lnum);
    assert forall|k: int| col < k < i implies !((line[k] == '.' || line[k] == '!' || line[k] == '?') && ws(#[trigger] line[k + 1])) by {
        assert(!p(k));
    }
    assert(sentence_fwd(lines, lnum, col) == Cursor { row: lnum as usize, col: (i + 1) as usize });
}

/// The backward sentence motion goes back to the start of the sentence
/// the cursor is in: after the last `.`, `!` or `?` before the cursor that
/// white space follows, and past that white space. Where the cursor's line
/// has such an end at `j`, before the cursor, the motion stays on that line
/// and lands after that end or a later one, on the first character that
/// is not white space after white space.
pub proof fn law_sentence_backward_stops_after_end(lines: Seq<Seq<char>>, lnum: int, col: int, j: int)
    requires
        1 <= lnum <= lines.len() <= usize::MAX,
        lines[lnum - 1].len() <= usize::MAX,
        0 <= j < col,
        col <= lines[lnum - 1].len(),
        j + 1 < lines[lnum - 1].len(),
        lines[lnum - 1][j] == '.' || lines[lnum - 1][j] == '!' || lines[lnum - 1][j] == '?',
        ws(lines[lnum - 1][j + 1]),
    ensures
        ({
            let line = lines[lnum - 1];
            let c = sentence_back(lines, lnum, col);
            &&& c.row == lnum
            &&& j + 1 < c.col + 1 <= line.len() + 1
            &&& j < c.col
            &&& ws(line[c.col - 1])
            &&& (c.col == line.len() || !ws(line[c.col as int]))
        }),
{
    let line = lines[lnum - 1];
    let p = sent_ev_pred(line, false);
    assert(back_start(lnum, col, lnum, line.len() as int) == col - 1);
    assert(sent_ev_pred(line, lnum < lnum) == p);
    assert(p(j));
    lemma_last_in(0, col - 1, p);
    let i = sent_col_back(lines, lnum, col, lnum);
    assert(i == last_in(0, col - 1, p));
    assert(j <= i <= col - 1);
    assert(p(i));
    assert(back_top(lines, lnum) == lnum);
    assert(sent_row_back(lines, lnum, col)(lnum));
    assert(last_in(1, lnum, sent_row_back(lines, lnum, col)) == lnum);
    lemma_first_in(i + 1, line.len() - 1, non_ws_pred(line));
    let f = first_in(i + 1, line.len() - 1, non_ws_pred(line));
    assert(i + 1 < line.len() && ws(line[i + 1]));
    assert(i + 1 <= f <= line.len());
    if f - 1 > i + 1 {
        assert(!non_ws_pred(line)(f - 1));
    }
    if f < line.len() {
        assert(non_ws_pred(line)(f));
    }
    assert(sentence_back(lines, lnum, col) == Cursor { row: lnum as usize, col: f as usize });
}

proof fn lemma_count_r_first(line: Seq<char>, c: char, a: int, k: int)
    requires
        a < k,
        forall|x: int| a < x < k ==> line[x] != c,
    ensures
        count_r(line, c, a, k) == (if line[a] == c { 1int } else { 0 }),
    decreases k - a,
{
    if k > a + 1 {
        lemma_count_r_first(line, c, a, k - 1);
        assert(line[k - 1] != c);
    } else {
        assert(count_r(line, c, a, a) == 0);
    }
}

proof fn lemma_count_l_last(line: Seq<char>, c: char, i: int, k: int)
    requires
        i < k,
        forall|x: int| i <= x < k - 1 ==> line[x] != c,
    ensures
        count_l(line, c, i, k) == (if line[k - 1] == c { 1int } else { 0 }),
    decreases k - i,
{
    if i < k - 1 {
        lemma_count_l_last(line, c, i + 1, k);
        assert(line[i] != c);
    } else {
        assert(count_l(line, c, k, k) == 0);
    }
}

/// `%` on a bracket jumps to the one that closes or opens it: `(` with
/// `)`, `[` with `]`, `{` with `}`. Where an opening bracket at `a` and
/// its closing one at `b` enclose no bracket of that kind, `%` goes from
/// `a` to `b` and from `b` back to `a`.
pub proof fn law_matching_pair_jumps(line: Seq<char>, a: int, b: int, open: char, close: char)
    requires
        (open == '(' && close == ')') || (open == '[' && close == ']') || (open == '{' && close == '}'),
        0 <= a < b < line.len(),
        line[a] == open,
        line[b] == close,
        forall|k: int| a < k < b ==> line[k] != open && line[k] != close,
    ensures
        matching_pair(line, a) == Some(b),
        matching_pair(line, b) == Some(a),
{
    let pf = closes_fwd(line, a, open, close);
    lemma_count_r_first(line, open, a, b + 1);
    lemma_count_r_first(line, close, a, b);
    assert(count_r(line, close, a, b + 1) == 1);
    assert(pf(b));
    lemma_first_in(a, line.len() - 1, pf);
    let f = first_in(a, line.len() - 1, pf);
    assert(f <= b);
    assert(line[f] == close);
    assert(f == b);
    let pb = closes_back(line, b, close, open);
    lemma_count_l_last(line, close, a, b + 1);
    lemma_count_l_last(line, open, a + 1, b + 1);
    assert(count_l(line, open, a, b + 1) == 1);
    assert(pb(a));
    lemma_last_in(0, b, pb);
    let l = last_in(0, b, pb);
    assert(l >= a);
    assert(line[l] == open);
    assert(l == a);
}

} // verus!
