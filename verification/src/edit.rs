use vstd::prelude::*;
use vstd::string::StringExecFns;
use crate::assoc::{assoc_map, keys_unique, has_key, lemma_assoc_contains, lemma_assoc_get, lemma_assoc_update, lemma_assoc_push};
use crate::charset::{is_ascii_digit, spec_is_alphanumeric, spec_is_whitespace, char_is_alphanumeric, char_is_whitespace};
use crate::lsp::{decimal, digit_char, digits_value, digit};
use crate::text::{chars_of, string_from_chars, str_eq};
use crate::window::Cursor;

verus! {

/// Where the number that `<C-A>` and `<C-X>` change begins: the first
/// digit or `-` at or after `col`; the end of the line where there is none.
pub open spec fn number_start(chars: Seq<char>, i: int) -> int
    decreases chars.len() - i,
{
    if i >= chars.len() {
        i
    } else if is_ascii_digit(chars[i]) || chars[i] == '-' {
        i
    } else {
        number_start(chars, i + 1)
    }
}

/// The end of the run of digits that starts at `i`.
pub open spec fn digits_end(chars: Seq<char>, i: int) -> int
    decreases chars.len() - i,
{
    if i >= chars.len() || !is_ascii_digit(chars[i]) {
        i
    } else {
        digits_end(chars, i + 1)
    }
}

/// The `i32` that digits, or a minus and digits, spell; `None` where no
/// digit follows the minus or the value does not fit.
pub open spec fn parse_number(s: Seq<char>) -> Option<i32> {
    if s.len() > 0 && s[0] == '-' {
        let d = s.drop_first();
        if d.len() == 0 || digits_value(d) > 0x8000_0000 {
            None
        } else {
            Some((-(digits_value(d) as int)) as i32)
        }
    } else if s.len() == 0 || digits_value(s) > 0x7fff_ffff {
        None
    } else {
        Some(digits_value(s) as i32)
    }
}

/// A number in decimal, with a minus where it is negative.
pub open spec fn signed_decimal(v: int) -> Seq<char> {
    if v < 0 { seq!['-'] + decimal((-v) as nat) } else { decimal(v as nat) }
}

/// `a + b`, held to the range of `i32`.
pub open spec fn saturating_sum(a: i32, b: i32) -> i32 {
    if a + b > i32::MAX { i32::MAX } else if a + b < i32::MIN { i32::MIN } else { (a + b) as i32 }
}

/// The line after `<C-A>` (or `<C-X>`, with a negative offset) at column
/// `col`: the number at or after the column gets the offset added, held to
/// the range of `i32`; with where the number starts and the column of its
/// last character. `None` where no number is there or it does not fit.
pub open spec fn incremented(chars: Seq<char>, col: int, offset: i32) -> Option<(Seq<char>, int, int)> {
    let start = number_start(chars, col);
    if start >= chars.len() {
        None
    } else {
        let end = digits_end(chars, start + 1);
        match parse_number(chars.subrange(start, end)) {
            None => None,
            Some(n) => {
                let s = signed_decimal(saturating_sum(n, offset) as int);
                Some((chars.take(start) + s + chars.skip(end), start, start + s.len() - 1))
            },
        }
    }
}

proof fn lemma_number_start(chars: Seq<char>, i: int)
    requires
        0 <= i,
    ensures
        number_start(chars, i) >= i,
        number_start(chars, i) < chars.len() ==> is_ascii_digit(chars[number_start(chars, i)]) || chars[number_start(chars, i)] == '-',
    decreases chars.len() - i,
{
    if i < chars.len() && !(is_ascii_digit(chars[i]) || chars[i] == '-') {
        lemma_number_start(chars, i + 1);
    }
}

proof fn lemma_digits_end(chars: Seq<char>, i: int)
    requires
        0 <= i,
    ensures
        i <= digits_end(chars, i),
        i <= chars.len() ==> digits_end(chars, i) <= chars.len(),
        forall|j: int| i <= j < digits_end(chars, i) ==> is_ascii_digit(#[trigger] chars[j]),
        digits_end(chars, i) < chars.len() ==> !is_ascii_digit(chars[digits_end(chars, i)]),
    decreases chars.len() - i,
{
    if i < chars.len() && is_ascii_digit(chars[i]) {
        lemma_digits_end(chars, i + 1);
    }
}

/// Digits only grow in value as more are read.
proof fn lemma_digits_value_grows(d: Seq<char>, i: int)
    requires
        0 <= i <= d.len(),
    ensures
        digits_value(d.take(i)) <= digits_value(d),
    decreases d.len() - i,
{
    if i < d.len() {
        lemma_digits_value_grows(d, i + 1);
        assert(d.take(i + 1).drop_last() =~= d.take(i));
    } else {
        assert(d.take(i) =~= d);
    }
}

fn is_digit(c: char) -> (r: bool)
    ensures
        r == is_ascii_digit(c),
{
    '0' <= c && c <= '9'
}

/// Appends the decimal digits of `n`.
fn push_decimal_chars(v: &mut Vec<char>, n: u64)
    ensures
        final(v)@ == old(v)@ + decimal(n as nat),
    decreases n,
{
    if n >= 10 {
        push_decimal_chars(v, n / 10);
    }
    v.push(digit((n % 10) as usize));
    proof {
        if n >= 10 {
            assert(old(v)@ + decimal(n as nat) =~= old(v)@ + decimal((n / 10) as nat) + seq![digit_char((n % 10) as nat)]);
        } else {
            assert(old(v)@ + decimal(n as nat) =~= old(v)@ + seq![digit_char(n as nat)]);
        }
    }
}

/// The value of the digits `chars[from..to]`, if it is at most `bound`.
fn digits_up_to(chars: &Vec<char>, from: usize, to: usize, bound: u64) -> (r: Option<u64>)
    requires
        from <= to <= chars.len(),
        bound <= 0x1_0000_0000,
        forall|j: int| from <= j < to ==> is_ascii_digit(#[trigger] chars@[j]),
    ensures
        match r {
            Some(v) => v == digits_value(chars@.subrange(from as int, to as int)) && v <= bound,
            None => digits_value(chars@.subrange(from as int, to as int)) > bound,
        },
{
    let ghost d = chars@.subrange(from as int, to as int);
    let mut acc: u64 = 0;
    let mut i: usize = from;
    assert(d.take(0) =~= Seq::<char>::empty());
    while i < to
        invariant
            from <= i <= to <= chars.len(),
            bound <= 0x1_0000_0000,
            d == chars@.subrange(from as int, to as int),
            forall|j: int| from <= j < to ==> is_ascii_digit(#[trigger] chars@[j]),
            acc == digits_value(d.take(i - from)),
            acc <= bound,
        decreases to - i,
    {
        let c = chars[i];
        assert(is_ascii_digit(chars@[i as int]));
        let dv: u64 = (c as u32 - 48) as u64;
        assert(d.take(i - from + 1).drop_last() =~= d.take(i - from));
        assert(d.take(i - from + 1).last() == c);
        let next = acc * 10 + dv;
        if next > bound {
            proof {
                lemma_digits_value_grows(d, i - from + 1);
            }
            return None;
        }
        acc = next;
        i = i + 1;
    }
    assert(d.take(to - from) =~= d);
    Some(acc)
}

/// `<C-A>` and `<C-X>` on one line: the line with the number at or after
/// column `col` changed by `offset` (see [`incremented`]), where the number
/// starts, and the column of its last character.
pub fn increment_number_in_line(line: &str, col: usize, offset: i32) -> (r: Option<(String, usize, usize)>)
    ensures
        match incremented(line@, col as int, offset) {
            None => r is None,
            Some((t, s, c)) => r matches Some(x) && x.0@ == t && x.1 == s && x.2 == c,
        },
{
    let chars = chars_of(line);
    let mut start = col;
    proof {
        lemma_number_start(line@, col as int);
    }
    while start < chars.len() && !(is_digit(chars[start]) || chars[start] == '-')
        invariant
            col <= start,
            chars@ == line@,
            number_start(line@, col as int) == number_start(line@, start as int),
        decreases chars.len() - start,
    {
        start = start + 1;
    }
    if start >= chars.len() {
        return None;
    }
    let mut end = start + 1;
    proof {
        lemma_digits_end(line@, start as int + 1);
    }
    while end < chars.len() && is_digit(chars[end])
        invariant
            start < end <= chars.len(),
            chars@ == line@,
            digits_end(line@, start as int + 1) == digits_end(line@, end as int),
        decreases chars.len() - end,
    {
        end = end + 1;
    }
    let ghost s = line@.subrange(start as int, end as int);
    let negative = chars[start] == '-';
    let n: i64 = if negative {
        if end == start + 1 {
            return None;
        }
        assert(s.drop_first() =~= chars@.subrange(start + 1, end as int));
        match digits_up_to(&chars, start + 1, end, 0x8000_0000) {
            Some(v) => -(v as i64),
            None => {
                return None;
            },
        }
    } else {
        assert(is_ascii_digit(chars@[start as int]));
        match digits_up_to(&chars, start, end, 0x7fff_ffff) {
            Some(v) => v as i64,
            None => {
                return None;
            },
        }
    };
    assert(parse_number(s) == Some(n as i32));
    let sum: i64 = n + offset as i64;
    let new_num: i64 = if sum > 0x7fff_ffff { 0x7fff_ffff } else if sum < -0x8000_0000 { -0x8000_0000 } else { sum };
    assert(new_num == saturating_sum(n as i32, offset));
    let mut v: Vec<char> = Vec::new();
    let mut i: usize = 0;
    while i < start
        invariant
            i <= start < chars.len(),
            v@ == chars@.take(i as int),
        decreases start - i,
    {
        v.push(chars[i]);
        i = i + 1;
        assert(v@ =~= chars@.take(i as int));
    }
    if new_num < 0 {
        v.push('-');
        push_decimal_chars(&mut v, (-new_num) as u64);
    } else {
        push_decimal_chars(&mut v, new_num as u64);
    }
    assert(v@ =~= chars@.take(start as int) + signed_decimal(new_num as int));
    proof {
        let t = decimal(if new_num < 0 { (-new_num) as nat } else { new_num as nat });
        assert(t.len() >= 1) by {
            reveal_with_fuel(decimal, 2);
        }
    }
    let cursor_col = v.len() - 1;
    let mut j: usize = end;
    while j < chars.len()
        invariant
            end <= j <= chars.len(),
            v@ == chars@.take(start as int) + signed_decimal(new_num as int) + chars@.subrange(end as int, j as int),
        decreases chars.len() - j,
    {
        v.push(chars[j]);
        j = j + 1;
        assert(v@ =~= chars@.take(start as int) + signed_decimal(new_num as int) + chars@.subrange(end as int, j as int));
    }
    assert(chars@.subrange(end as int, j as int) =~= chars@.skip(end as int));
    Some((string_from_chars(&v), start, cursor_col))
}

proof fn lemma_decimal_digits(n: nat)
    ensures
        decimal(n).len() >= 1,
        forall|i: int| 0 <= i < decimal(n).len() ==> is_ascii_digit(#[trigger] decimal(n)[i]),
        digits_value(decimal(n)) == n,
    decreases n,
{
    if n >= 10 {
        lemma_decimal_digits(n / 10);
        let d = decimal(n);
        assert(d.drop_last() =~= decimal(n / 10));
        vstd::arithmetic::div_mod::lemma_fundamental_div_mod(n as int, 10);
        assert(d.last() == digit_char(n % 10));
        assert((d.last() as u32) - ('0' as u32) == n % 10);
        assert(digits_value(d.drop_last()) == n / 10);
        assert(digits_value(d) == digits_value(d.drop_last()) * 10 + ((d.last() as u32) - ('0' as u32)) as nat);
        assert(n == (n / 10) * 10 + n % 10);
        assert forall|i: int| 0 <= i < d.len() implies is_ascii_digit(#[trigger] d[i]) by {
            if i < d.len() - 1 {
                assert(d[i] == decimal(n / 10)[i]);
            }
        }
    } else {
        let d = decimal(n);
        assert(d =~= seq![digit_char(n)]);
        assert(d.drop_last() =~= Seq::<char>::empty());
        assert((d.last() as u32) - ('0' as u32) == n);
        assert(digits_value(d) == digits_value(d.drop_last()) * 10 + ((d.last() as u32) - ('0' as u32)) as nat);
    }
}

/// The decimal text of a number in the range of `i32` reads back as it.
proof fn lemma_signed_decimal(v: int)
    requires
        i32::MIN <= v <= i32::MAX,
    ensures
        signed_decimal(v).len() >= 1,
        is_ascii_digit(signed_decimal(v)[0]) || signed_decimal(v)[0] == '-',
        forall|i: int| 1 <= i < signed_decimal(v).len() ==> is_ascii_digit(#[trigger] signed_decimal(v)[i]),
        parse_number(signed_decimal(v)) == Some(v as i32),
{
    if v < 0 {
        lemma_decimal_digits((-v) as nat);
        let d = signed_decimal(v);
        assert(d.drop_first() =~= decimal((-v) as nat));
        assert forall|i: int| 1 <= i < d.len() implies is_ascii_digit(#[trigger] d[i]) by {
            assert(d[i] == decimal((-v) as nat)[i - 1]);
        }
    } else {
        lemma_decimal_digits(v as nat);
    }
}

proof fn lemma_digits_end_of_run(t: Seq<char>, i: int, j: int)
    requires
        0 <= i <= j <= t.len(),
        forall|k: int| i <= k < j ==> is_ascii_digit(#[trigger] t[k]),
        j == t.len() || !is_ascii_digit(t[j]),
    ensures
        digits_end(t, i) == j,
    decreases j - i,
{
    if i < j {
        lemma_digits_end_of_run(t, i + 1, j);
    }
}

/// The number that `<C-A>` finds at or after `col` is written as its value
/// reads: no leading zeros and no `-0`.
pub open spec fn number_is_canonical(chars: Seq<char>, col: int) -> bool {
    let start = number_start(chars, col);
    let end = digits_end(chars, start + 1);
    match parse_number(chars.subrange(start, end)) {
        Some(n) => chars.subrange(start, end) == signed_decimal(n as int),
        None => false,
    }
}

/// Changing a number by `k` and then by `-k`, at the column where it
/// starts, gives back the line, where the number is written as its value
/// reads and neither change goes past the range of `i32`.
pub proof fn law_increment_then_decrement(chars: Seq<char>, col: int, k: i32)
    requires
        0 <= col,
        incremented(chars, col, k) is Some,
        number_is_canonical(chars, col),
        k != i32::MIN,
        i32::MIN <= parse_number(chars.subrange(number_start(chars, col), digits_end(chars, number_start(chars, col) + 1)))->0 + k <= i32::MAX,
    ensures
        ({
            let (t, s, _) = incremented(chars, col, k)->0;
            incremented(t, s, (-k) as i32) matches Some((back, s2, _)) && back == chars && s2 == s
        }),
{
    let start = number_start(chars, col);
    lemma_number_start(chars, col);
    let end = digits_end(chars, start + 1);
    lemma_digits_end(chars, start + 1);
    let n = parse_number(chars.subrange(start, end))->0;
    let v = saturating_sum(n, k);
    assert(v == n + k);
    let d = signed_decimal(v as int);
    lemma_signed_decimal(v as int);
    let t = chars.take(start) + d + chars.skip(end);
    assert(t.len() == start + d.len() + (chars.len() - end));
    assert(t[start] == d[0]);
    lemma_number_start(t, start);
    assert(number_start(t, start) == start);
    let e2 = start + d.len();
    assert forall|i: int| start + 1 <= i < e2 implies is_ascii_digit(#[trigger] t[i]) by {
        assert(t[i] == d[i - start]);
    }
    if e2 < t.len() {
        assert(t[e2] == chars[end]);
    }
    lemma_digits_end_of_run(t, start + 1, e2);
    assert(t.subrange(start, e2) =~= d);
    let back = saturating_sum(v, (-k) as i32);
    assert(back == n);
    assert(t.take(start) =~= chars.take(start));
    assert(t.skip(e2) =~= chars.skip(end));
    assert(chars.take(start) + chars.subrange(start, end) + chars.skip(end) =~= chars);
}

/// Abbreviations of insert mode: a word and the text it expands to.
pub struct Abbreviations {
    entries: Vec<(String, String)>,
}

pub open spec fn abbrev_entries(e: Seq<(String, String)>) -> Seq<(Seq<char>, Seq<char>)> {
    Seq::new(e.len(), |i: int| (e[i].0@, e[i].1@))
}

impl View for Abbreviations {
    type V = Map<Seq<char>, Seq<char>>;

    closed spec fn view(&self) -> Map<Seq<char>, Seq<char>> {
        assoc_map(abbrev_entries(self.entries@))
    }
}

impl Abbreviations {
    pub closed spec fn wf(&self) -> bool {
        keys_unique(abbrev_entries(self.entries@))
    }

    /// No abbreviations.
    pub fn new() -> (r: Abbreviations)
        ensures
            r.wf(),
            r@ == Map::<Seq<char>, Seq<char>>::empty(),
    {
        let r = Abbreviations { entries: Vec::new() };
        assert(abbrev_entries(r.entries@) =~= Seq::empty());
        r
    }

    fn find(&self, word: &str) -> (r: Option<usize>)
        requires
            self.wf(),
        ensures
            match r {
                Some(i) => i < self.entries@.len() && self.entries@[i as int].0@ == word@,
                None => !has_key(abbrev_entries(self.entries@), word@),
            },
    {
        let mut i: usize = 0;
        while i < self.entries.len()
            invariant
                i <= self.entries@.len(),
                forall|j: int| 0 <= j < i ==> #[trigger] self.entries@[j].0@ != word@,
            decreases self.entries.len() - i,
        {
            if str_eq(self.entries[i].0.as_str(), word) {
                return Some(i);
            }
            i = i + 1;
        }
        proof {
            let ev = abbrev_entries(self.entries@);
            assert forall|j: int| 0 <= j < ev.len() implies #[trigger] ev[j].0 != word@ by {
                assert(self.entries@[j].0@ != word@);
            }
        }
        None
    }

    /// Makes `word` expand to `text`, in place of what it expanded to.
    pub fn insert(&mut self, word: &str, text: &str)
        requires
            old(self).wf(),
        ensures
            final(self).wf(),
            final(self)@ == old(self)@.insert(word@, text@),
    {
        let ghost ev = abbrev_entries(self.entries@);
        match self.find(word) {
            Some(i) => {
                let key = self.entries[i].0.clone();
                self.entries.set(i, (key, String::from_str(text)));
                proof {
                    lemma_assoc_update(ev, i as int, text@);
                    assert(abbrev_entries(self.entries@) =~= ev.update(i as int, (ev[i as int].0, text@)));
                }
            },
            None => {
                self.entries.push((String::from_str(word), String::from_str(text)));
                proof {
                    lemma_assoc_push(ev, word@, text@);
                    assert(abbrev_entries(self.entries@) =~= ev.push((word@, text@)));
                }
            },
        }
    }

    /// What `word` expands to, if it is an abbreviation.
    pub fn get(&self, word: &str) -> (r: Option<&String>)
        requires
            self.wf(),
        ensures
            r is Some <==> self@.contains_key(word@),
            r matches Some(t) ==> t@ == self@[word@],
    {
        proof {
            lemma_assoc_contains(abbrev_entries(self.entries@), word@);
        }
        match self.find(word) {
            Some(i) => {
                proof {
                    lemma_assoc_get(abbrev_entries(self.entries@), i as int);
                }
                Some(&self.entries[i].1)
            },
            None => None,
        }
    }
}

/// The number of characters at the end of `s` that are not white space.
pub open spec fn trailing_word_len(s: Seq<char>) -> nat
    decreases s.len(),
{
    if s.len() > 0 && !spec_is_whitespace(s.last()) {
        1 + trailing_word_len(s.drop_last())
    } else {
        0
    }
}

/// The number of characters at the end of `s` that are white space.
pub open spec fn trailing_space_len(s: Seq<char>) -> nat
    decreases s.len(),
{
    if s.len() > 0 && spec_is_whitespace(s.last()) {
        1 + trailing_space_len(s.drop_last())
    } else {
        0
    }
}

/// Where the last word of `s` (its last run of characters that are not
/// white space) starts and ends.
pub open spec fn last_word_bounds(s: Seq<char>) -> (int, int) {
    let e = s.len() - trailing_space_len(s);
    (e - trailing_word_len(s.take(e)), e)
}

/// The expansion that typing a character that is no letter or digit at
/// column `col` makes: where the last word before the column is an
/// abbreviation, the line with that word replaced by its text, and the
/// column after the text.
pub open spec fn abbreviation_expansion(line: Seq<char>, col: int, abbrevs: Map<Seq<char>, Seq<char>>, c: char) -> Option<(Seq<char>, int)> {
    let before = line.take(if col < line.len() { col } else { line.len() as int });
    let (s, e) = last_word_bounds(before);
    let word = before.subrange(s, e);
    if spec_is_alphanumeric(c) || s == e || !abbrevs.contains_key(word) {
        None
    } else {
        let text = abbrevs[word];
        Some((line.take(s) + text + line.skip(col), s + text.len()))
    }
}

proof fn lemma_trailing_space_len(s: Seq<char>, n: nat)
    requires
        n <= s.len(),
        forall|i: int| s.len() - n <= i < s.len() ==> spec_is_whitespace(#[trigger] s[i]),
        n == s.len() || !spec_is_whitespace(s[s.len() - n - 1]),
    ensures
        trailing_space_len(s) == n,
    decreases n,
{
    if n > 0 {
        assert(spec_is_whitespace(s[s.len() - 1]));
        assert forall|i: int| s.drop_last().len() - (n - 1) <= i < s.drop_last().len() implies spec_is_whitespace(
            #[trigger] s.drop_last()[i],
        ) by {
            assert(spec_is_whitespace(s[i]));
        }
        lemma_trailing_space_len(s.drop_last(), (n - 1) as nat);
    }
}

proof fn lemma_trailing_word_len(s: Seq<char>, n: nat)
    requires
        n <= s.len(),
        forall|i: int| s.len() - n <= i < s.len() ==> !spec_is_whitespace(#[trigger] s[i]),
        n == s.len() || spec_is_whitespace(s[s.len() - n - 1]),
    ensures
        trailing_word_len(s) == n,
    decreases n,
{
    if n > 0 {
        assert(!spec_is_whitespace(s[s.len() - 1]));
        assert forall|i: int| s.drop_last().len() - (n - 1) <= i < s.drop_last().len() implies !spec_is_whitespace(
            #[trigger] s.drop_last()[i],
        ) by {
            assert(!spec_is_whitespace(s[i]));
        }
        lemma_trailing_word_len(s.drop_last(), (n - 1) as nat);
    }
}

/// Before a character that is no letter or digit is typed at column `col`:
/// the line and the cursor column after expanding the abbreviation before
/// the column, if there is one (see [`abbreviation_expansion`]).
pub fn expand_abbreviation(line: &str, col: usize, abbrevs: &Abbreviations, c: char) -> (r: Option<(String, usize)>)
    requires
        abbrevs.wf(),
        abbreviation_expansion(line@, col as int, abbrevs@, c) is Some ==> col <= line@.len(),
    ensures
        match abbreviation_expansion(line@, col as int, abbrevs@, c) {
            Some((t, k)) => r matches Some(x) && x.0@ == t && x.1 == k,
            None => r is None,
        },
{
    if char_is_alphanumeric(c) {
        return None;
    }
    let chars = chars_of(line);
    let bl: usize = if col < chars.len() { col } else { chars.len() };
    let ghost before = line@.take(bl as int);
    let mut e = bl;
    while e > 0 && char_is_whitespace(chars[e - 1])
        invariant
            e <= bl <= chars@.len(),
            forall|i: int| e <= i < bl ==> spec_is_whitespace(#[trigger] chars@[i]),
        decreases e,
    {
        e = e - 1;
    }
    proof {
        assert forall|i: int| before.len() - (bl - e) <= i < before.len() implies spec_is_whitespace(#[trigger] before[i]) by {
            assert(before[i] == chars@[i]);
        }
        if e > 0 {
            assert(before[e - 1] == chars@[e - 1]);
        }
        lemma_trailing_space_len(before, (bl - e) as nat);
    }
    let mut s = e;
    while s > 0 && !char_is_whitespace(chars[s - 1])
        invariant
            s <= e <= bl <= chars@.len(),
            forall|i: int| s <= i < e ==> !spec_is_whitespace(#[trigger] chars@[i]),
        decreases s,
    {
        s = s - 1;
    }
    proof {
        let t = before.take(e as int);
        assert forall|i: int| t.len() - (e - s) <= i < t.len() implies !spec_is_whitespace(#[trigger] t[i]) by {
            assert(t[i] == chars@[i]);
        }
        if s > 0 {
            assert(t[s - 1] == chars@[s - 1]);
        }
        lemma_trailing_word_len(t, (e - s) as nat);
    }
    if s == e {
        return None;
    }
    let mut w: Vec<char> = Vec::new();
    let mut k = s;
    while k < e
        invariant
            s <= k <= e <= chars@.len(),
            w@ == chars@.subrange(s as int, k as int),
        decreases e - k,
    {
        w.push(chars[k]);
        k = k + 1;
        assert(w@ =~= chars@.subrange(s as int, k as int));
    }
    let word = string_from_chars(&w);
    assert(word@ =~= before.subrange(s as int, e as int));
    let text = match abbrevs.get(word.as_str()) {
        Some(t) => t,
        None => {
            return None;
        },
    };
    let tc = chars_of(text.as_str());
    let mut out: Vec<char> = Vec::new();
    let mut i: usize = 0;
    while i < s
        invariant
            i <= s <= chars@.len(),
            out@ == chars@.take(i as int),
        decreases s - i,
    {
        out.push(chars[i]);
        i = i + 1;
        assert(out@ =~= chars@.take(i as int));
    }
    let mut j: usize = 0;
    while j < tc.len()
        invariant
            j <= tc@.len(),
            out@ == chars@.take(s as int) + tc@.take(j as int),
        decreases tc.len() - j,
    {
        out.push(tc[j]);
        j = j + 1;
        assert(out@ =~= chars@.take(s as int) + tc@.take(j as int));
    }
    assert(tc@.take(j as int) =~= tc@);
    let new_col = out.len();
    let mut m: usize = col;
    while m < chars.len()
        invariant
            col <= m <= chars@.len(),
            out@ == chars@.take(s as int) + tc@ + chars@.subrange(col as int, m as int),
        decreases chars.len() - m,
    {
        out.push(chars[m]);
        m = m + 1;
        assert(out@ =~= chars@.take(s as int) + tc@ + chars@.subrange(col as int, m as int));
    }
    assert(chars@.subrange(col as int, m as int) =~= chars@.skip(col as int));
    Some((string_from_chars(&out), new_col))
}

/// Where a block insert types: the rows from the upper to the lower of
/// anchor and cursor, and the column left of the block (right of it,
/// when appending).
pub open spec fn block_insert_target(append: bool, anchor: Cursor, cursor: Cursor) -> (int, int, int) {
    let top = if anchor.row < cursor.row { anchor.row } else { cursor.row };
    let bottom = if anchor.row < cursor.row { cursor.row } else { anchor.row };
    let col: int = if append {
        (if anchor.col < cursor.col { cursor.col } else { anchor.col }) + 1
    } else {
        (if anchor.col < cursor.col { anchor.col } else { cursor.col }) as int
    };
    (top as int, bottom as int, col)
}

/// The rows and column of a block insert (see [`block_insert_target`]).
pub fn block_insert_rows(append: bool, anchor: Cursor, cursor: Cursor) -> (r: (usize, usize, usize))
    requires
        append ==> anchor.col < usize::MAX && cursor.col < usize::MAX,
    ensures
        (r.0 as int, r.1 as int, r.2 as int) == block_insert_target(append, anchor, cursor),
{
    let top = if anchor.row < cursor.row { anchor.row } else { cursor.row };
    let bottom = if anchor.row < cursor.row { cursor.row } else { anchor.row };
    let col = if append {
        (if anchor.col < cursor.col { cursor.col } else { anchor.col }) + 1
    } else if anchor.col < cursor.col {
        anchor.col
    } else {
        cursor.col
    };
    (top, bottom, col)
}

} // verus!
