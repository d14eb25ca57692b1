use vstd::prelude::*;
use vstd::utf8::{encode_utf8, encode_scalar};
use crate::text::{byte_offset, chars_of, string_from_chars, utf8_len, lemma_byte_offset_step, lemma_encode_utf8_concat};
use crate::syntax::{spec_regex_find_all, regex_find_all};
use crate::regexp::{converted, convert_vim_regex};
use crate::buffer::Buffer;
use crate::window::Cursor;

verus! {

/// Whether a character of `line` starts at byte `b`, or `b` is its end.
pub open spec fn is_char_boundary(line: Seq<char>, b: int) -> bool {
    exists|k: int| 0 <= k <= line.len() && byte_offset(line, k) == b
}

/// The characters of `line` from byte `b` on.
pub open spec fn tail_from_byte(line: Seq<char>, b: int) -> Seq<char> {
    line.skip(choose|k: int| 0 <= k <= line.len() && byte_offset(line, k) == b)
}

/// Where the first match of `pattern` in `text` starts, in bytes; `None`
/// where nothing matches or the pattern does not compile.
pub open spec fn first_match(pattern: Seq<char>, text: Seq<char>) -> Option<usize> {
    match spec_regex_find_all(pattern, text) {
        Some(ms) => if ms.len() > 0 { Some(ms[0].0) } else { None },
        None => None,
    }
}

/// The first match of `pattern` in the rows from `lnum` on, as row and
/// byte column: on row `row` the search starts at byte `start`, on the
/// rows after it at the start of the line. Row 0 is no line and is passed
/// over. Where `strict` holds, a line is passed over when the search would
/// start at or past its end.
pub open spec fn search_rows(lines: Seq<Seq<char>>, pattern: Seq<char>, lnum: int, row: int, start: int, strict: bool) -> Option<(usize, usize)>
    decreases lines.len() + 1 - lnum,
{
    if lnum < 0 || lnum > lines.len() {
        None
    } else if lnum == 0 {
        search_rows(lines, pattern, lnum + 1, row, start, strict)
    } else {
        let line = lines[lnum - 1];
        let b = if lnum == row { start } else { 0 };
        if strict && b >= encode_utf8(line).len() {
            search_rows(lines, pattern, lnum + 1, row, start, strict)
        } else {
            match first_match(pattern, tail_from_byte(line, b)) {
                Some(m) => Some((lnum as usize, (b + m) as usize)),
                None => search_rows(lines, pattern, lnum + 1, row, start, strict),
            }
        }
    }
}

/// A search never lands above the row it starts from.
pub proof fn law_search_lands_at_or_below(lines: Seq<Seq<char>>, pattern: Seq<char>, lnum: int, row: int, start: int, strict: bool)
    requires
        0 <= lnum,
        lines.len() <= usize::MAX,
    ensures
        search_rows(lines, pattern, lnum, row, start, strict) matches Some(p) ==> p.0 >= lnum,
    decreases lines.len() + 1 - lnum,
{
    if lnum <= lines.len() {
        law_search_lands_at_or_below(lines, pattern, lnum + 1, row, start, strict);
    }
}

/// Each line's length in bytes fits in `usize`.
pub open spec fn lines_fit(lines: Seq<Seq<char>>) -> bool {
    forall|i: int| 0 <= i < lines.len() ==> #[trigger] encode_utf8(lines[i]).len() <= usize::MAX
}

proof fn lemma_byte_offset_strict(s: Seq<char>, j: int, k: int)
    requires
        0 <= j < k <= s.len(),
    ensures
        byte_offset(s, j) < byte_offset(s, k),
    decreases k - j,
{
    lemma_byte_offset_step(s, k - 1);
    assert(encode_scalar(s[k - 1] as u32).len() >= 1);
    if j < k - 1 {
        lemma_byte_offset_strict(s, j, k - 1);
    }
}

/// The character that starts at byte `b` is the one the tail is taken
/// from.
proof fn lemma_tail_from_byte(s: Seq<char>, k: int)
    requires
        0 <= k <= s.len(),
    ensures
        is_char_boundary(s, byte_offset(s, k) as int),
        tail_from_byte(s, byte_offset(s, k) as int) == s.skip(k),
{
    let b = byte_offset(s, k) as int;
    assert(0 <= k <= s.len() && byte_offset(s, k) == b);
    let c = choose|c: int| 0 <= c <= s.len() && byte_offset(s, c) == b;
    if c < k {
        lemma_byte_offset_strict(s, c, k);
    } else if k < c {
        lemma_byte_offset_strict(s, k, c);
    }
}

/// The index of the character that starts at byte `b` of `chars`, or its
/// length where `b` is the end; `None` where no character starts there.
fn char_index_at_byte(chars: &Vec<char>, b: usize) -> (r: Option<usize>)
    ensures
        match r {
            Some(k) => k <= chars.len() && byte_offset(chars@, k as int) == b,
            None => !is_char_boundary(chars@, b as int),
        },
{
    let mut k: usize = 0;
    let mut sum: usize = 0;
    assert(chars@.take(0) =~= Seq::<char>::empty());
    while k < chars.len() && sum < b
        invariant
            k <= chars.len(),
            sum == byte_offset(chars@, k as int),
            sum <= b,
        decreases chars.len() - k,
    {
        let w = utf8_len(chars[k]);
        proof {
            lemma_byte_offset_step(chars@, k as int);
        }
        if w > b - sum {
            proof {
                assert forall|j: int| 0 <= j <= chars@.len() implies byte_offset(chars@, j) != b by {
                    if j < k + 1 && j < k {
                        lemma_byte_offset_strict(chars@, j, k as int);
                    } else if j > k + 1 {
                        lemma_byte_offset_strict(chars@, k as int + 1, j);
                    }
                }
            }
            return None;
        }
        sum = sum + w;
        k = k + 1;
    }
    if sum == b {
        Some(k)
    } else {
        proof {
            assert forall|j: int| 0 <= j <= chars@.len() implies byte_offset(chars@, j) != b by {
                if j < k {
                    lemma_byte_offset_strict(chars@, j, k as int);
                }
            }
        }
        None
    }
}

/// The first match of `pattern` in `line` from byte `b` on, as a byte
/// column of the line.
fn match_in_line(line: &str, pattern: &str, b: usize) -> (r: Option<usize>)
    requires
        is_char_boundary(line@, b as int),
        encode_utf8(line@).len() <= usize::MAX,
    ensures
        r == (match first_match(pattern@, tail_from_byte(line@, b as int)) {
            Some(m) => Some((b + m) as usize),
            None => None,
        }),
{
    let chars = chars_of(line);
    let k = match char_index_at_byte(&chars, b) {
        Some(k) => k,
        None => {
            return None;
        },
    };
    proof {
        lemma_tail_from_byte(line@, k as int);
    }
    let mut tail: Vec<char> = Vec::new();
    let mut i: usize = k;
    while i < chars.len()
        invariant
            k <= i <= chars.len(),
            tail@ == chars@.subrange(k as int, i as int),
        decreases chars.len() - i,
    {
        tail.push(chars[i]);
        i = i + 1;
        assert(tail@ =~= chars@.subrange(k as int, i as int));
    }
    assert(tail@ =~= line@.skip(k as int));
    let text = string_from_chars(&tail);
    match regex_find_all(pattern, text.as_str()) {
        Some(ms) => {
            if ms.len() > 0 {
                proof {
                    assert(line@ =~= line@.take(k as int) + line@.skip(k as int));
                    lemma_encode_utf8_concat(line@.take(k as int), line@.skip(k as int));
                }
                Some(b + ms[0].0)
            } else {
                None
            }
        },
        None => None,
    }
}

/// The search from `cursor` for `query`: the first match at or after the
/// cursor, on its line from its column on and then on the lines below;
/// nothing for an empty query.
pub fn search_forward(buf: &Buffer, query: &str, cursor: Cursor) -> (r: Option<(usize, usize)>)
    requires
        buf.wf(),
        lines_fit(buf@.lines),
        query@.len() > 0 && 1 <= cursor.row <= buf@.lines.len()
            ==> is_char_boundary(buf@.lines[cursor.row - 1], cursor.col as int),
    ensures
        r == (if query@.len() == 0 {
            None
        } else {
            search_rows(buf@.lines, query@, cursor.row as int, cursor.row as int, cursor.col as int, false)
        }),
{
    if query.is_empty() {
        return None;
    }
    search_from(buf, query, cursor.row, cursor.col, false)
}

/// `search_rows` from row `row`, where the search starts at byte `start`.
fn search_from(buf: &Buffer, pattern: &str, row: usize, start: usize, strict: bool) -> (r: Option<(usize, usize)>)
    requires
        buf.wf(),
        lines_fit(buf@.lines),
        1 <= row <= buf@.lines.len() && !(strict && start >= encode_utf8(buf@.lines[row - 1]).len())
            ==> is_char_boundary(buf@.lines[row - 1], start as int),
    ensures
        r == search_rows(buf@.lines, pattern@, row as int, row as int, start as int, strict),
{
    let count = buf.line_count();
    if row > count {
        return None;
    }
    let mut lnum: usize = row;
    while lnum <= count
        invariant
            buf.wf(),
            lines_fit(buf@.lines),
            count == buf@.lines.len(),
            row <= lnum <= count,
            1 <= row <= buf@.lines.len() && !(strict && start >= encode_utf8(buf@.lines[row - 1]).len())
                ==> is_char_boundary(buf@.lines[row - 1], start as int),
            search_rows(buf@.lines, pattern@, row as int, row as int, start as int, strict)
                == search_rows(buf@.lines, pattern@, lnum as int, row as int, start as int, strict),
        decreases count - lnum,
    {
        if lnum >= 1 {
            let line = buf.get_line(lnum).unwrap();
            let b: usize = if lnum == row { start } else { 0 };
            proof {
                assert(encode_utf8(buf@.lines[lnum - 1]).len() <= usize::MAX);
                if lnum != row {
                    assert(byte_offset(line@, 0) == 0) by {
                        assert(line@.take(0) =~= Seq::<char>::empty());
                    }
                }
            }
            if !(strict && b >= line.len()) {
                match match_in_line(line, pattern, b) {
                    Some(c) => {
                        return Some((lnum, c));
                    },
                    None => {},
                }
            }
        }
        assert(search_rows(buf@.lines, pattern@, lnum as int, row as int, start as int, strict)
            == search_rows(buf@.lines, pattern@, lnum as int + 1, row as int, start as int, strict));
        if lnum == count {
            return None;
        }
        lnum = lnum + 1;
    }
    None
}

/// The search for the next match of a Vim pattern: forward, from the
/// column after the cursor on its line and then on the lines below,
/// passing over lines where the search would start at or past the end;
/// nothing backward.
pub fn search_next(buf: &Buffer, query: &str, cursor: Cursor, forward: bool) -> (r: Option<(usize, usize)>)
    requires
        buf.wf(),
        lines_fit(buf@.lines),
        cursor.col < usize::MAX,
        forward && 1 <= cursor.row <= buf@.lines.len() && cursor.col + 1 < encode_utf8(buf@.lines[cursor.row - 1]).len()
            ==> is_char_boundary(buf@.lines[cursor.row - 1], cursor.col + 1),
    ensures
        r == (if forward {
            search_rows(buf@.lines, converted(query@, 0, false), cursor.row as int, cursor.row as int, cursor.col + 1, true)
        } else {
            None
        }),
{
    let pattern = convert_vim_regex(query);
    if !forward {
        return None;
    }
    search_from(buf, pattern.as_str(), cursor.row, cursor.col + 1, true)
}

} // verus!
