use vstd::prelude::*;
use vstd::string::StringExecFns;
use crate::charset::{spec_is_whitespace, char_is_whitespace};
use crate::lsp::{leading_ws, trailing_ws, trimmed, lemma_leading_ws, lemma_trailing_ws};
use crate::text::{chars_of, string_from_chars, joined_with};

verus! {

/// The length of the run of characters that are not white space at the
/// start of `s`.
pub open spec fn word_len(s: Seq<char>) -> nat
    decreases s.len(),
{
    if s.len() == 0 || spec_is_whitespace(s[0]) {
        0
    } else {
        1 + word_len(s.drop_first())
    }
}

/// The words of `s`: its runs of characters that are not white space, in
/// order (what `str::split_whitespace` yields).
pub open spec fn words(s: Seq<char>) -> Seq<Seq<char>>
    decreases s.len(),
{
    if s.len() == 0 {
        Seq::empty()
    } else if spec_is_whitespace(s[0]) {
        words(s.drop_first())
    } else {
        proof {
            lemma_word_len_bound(s);
        }
        seq![s.take(word_len(s) as int)] + words(s.skip(word_len(s) as int))
    }
}

/// A word is no longer than the text, and at least one character long
/// where the text starts with one that is not white space.
pub proof fn lemma_word_len_bound(s: Seq<char>)
    ensures
        word_len(s) <= s.len(),
        s.len() > 0 && !spec_is_whitespace(s[0]) ==> word_len(s) >= 1,
    decreases s.len(),
{
    if s.len() > 0 && !spec_is_whitespace(s[0]) {
        lemma_word_len_bound(s.drop_first());
    }
}

proof fn lemma_word_chars(s: Seq<char>)
    ensures
        forall|i: int| 0 <= i < word_len(s) ==> !spec_is_whitespace(#[trigger] s[i]),
    decreases s.len(),
{
    lemma_word_len_bound(s);
    if s.len() > 0 && !spec_is_whitespace(s[0]) {
        lemma_word_chars(s.drop_first());
        assert forall|i: int| 0 <= i < word_len(s) implies !spec_is_whitespace(#[trigger] s[i]) by {
            if i > 0 {
                assert(s[i] == s.drop_first()[i - 1]);
            }
        }
    }
}

/// The words of a text are not empty and hold no white space.
pub proof fn law_words_have_no_blanks(s: Seq<char>)
    ensures
        forall|i: int| 0 <= i < words(s).len() ==> #[trigger] words(s)[i].len() > 0,
        forall|i: int, j: int| 0 <= i < words(s).len() && 0 <= j < words(s)[i].len() ==> !spec_is_whitespace(#[trigger] words(s)[i][j]),
    decreases s.len(),
{
    if s.len() > 0 {
        if spec_is_whitespace(s[0]) {
            law_words_have_no_blanks(s.drop_first());
            assert(words(s) == words(s.drop_first()));
        } else {
            lemma_word_len_bound(s);
            lemma_word_chars(s);
            let n = word_len(s) as int;
            law_words_have_no_blanks(s.skip(n));
            let w = words(s);
            assert(w == seq![s.take(n)] + words(s.skip(n)));
            assert forall|i: int| 0 <= i < w.len() implies #[trigger] w[i].len() > 0 by {
                if i > 0 {
                    assert(w[i] == words(s.skip(n))[i - 1]);
                }
            }
            assert forall|i: int, j: int| 0 <= i < w.len() && 0 <= j < w[i].len() implies !spec_is_whitespace(#[trigger] w[i][j]) by {
                if i > 0 {
                    assert(w[i] == words(s.skip(n))[i - 1]);
                } else {
                    assert(w[0] == s.take(n));
                    assert(w[0][j] == s[j]);
                }
            }
        }
    }
}

/// The text of an Ex command line: trimmed, and a leading `:` dropped
/// with the white space after it.
pub open spec fn command_text(cmd: Seq<char>) -> Seq<char> {
    let t = trimmed(cmd);
    if t.len() > 0 && t[0] == ':' { trimmed(t.drop_first()) } else { t }
}

proof fn lemma_word_len(s: Seq<char>, n: nat)
    requires
        n <= s.len(),
        forall|i: int| 0 <= i < n ==> !spec_is_whitespace(#[trigger] s[i]),
        n == s.len() || spec_is_whitespace(s[n as int]),
    ensures
        word_len(s) == n,
    decreases n,
{
    if n > 0 {
        assert(!spec_is_whitespace(s[0]));
        assert forall|i: int| 0 <= i < n - 1 implies !spec_is_whitespace(#[trigger] s.drop_first()[i]) by {
            assert(!spec_is_whitespace(s[i + 1]));
        }
        lemma_word_len(s.drop_first(), (n - 1) as nat);
    }
}

/// The part `v[from..to]` without the white space at its ends, as bounds.
fn trim_bounds(v: &Vec<char>, from: usize, to: usize) -> (r: (usize, usize))
    requires
        from <= to <= v.len(),
    ensures
        from <= r.0 <= r.1 <= to,
        v@.subrange(r.0 as int, r.1 as int) == trimmed(v@.subrange(from as int, to as int)),
{
    let ghost s = v@.subrange(from as int, to as int);
    let mut a = from;
    while a < to && char_is_whitespace(v[a])
        invariant
            from <= a <= to <= v.len(),
            s == v@.subrange(from as int, to as int),
            forall|i: int| from <= i < a ==> spec_is_whitespace(#[trigger] v@[i]),
        decreases to - a,
    {
        a = a + 1;
    }
    proof {
        assert forall|i: int| 0 <= i < a - from implies spec_is_whitespace(#[trigger] s[i]) by {
            assert(s[i] == v@[from + i]);
        }
        lemma_leading_ws(s, (a - from) as nat);
    }
    let mut b = to;
    while b > a && char_is_whitespace(v[b - 1])
        invariant
            from <= a <= b <= to <= v.len(),
            forall|i: int| b <= i < to ==> spec_is_whitespace(#[trigger] v@[i]),
        decreases b - a,
    {
        b = b - 1;
    }
    proof {
        let rest = s.skip((a - from) as int);
        assert(rest =~= v@.subrange(a as int, to as int));
        assert forall|i: int| rest.len() - (to - b) <= i < rest.len() implies spec_is_whitespace(#[trigger] rest[i]) by {
            assert(rest[i] == v@[a + i]);
        }
        lemma_trailing_ws(rest, (to - b) as nat);
        assert(rest.take(rest.len() - (to - b)) =~= v@.subrange(a as int, b as int));
    }
    (a, b)
}

/// The words of an Ex command line (see [`command_text`] and [`words`]):
/// the command's name and its arguments; none for an empty line.
pub fn parse_ex_command(cmd: &str) -> (r: Vec<String>)
    ensures
        r@.len() == words(command_text(cmd@)).len(),
        forall|i: int| 0 <= i < r@.len() ==> #[trigger] r@[i]@ == words(command_text(cmd@))[i],
{
    let v = chars_of(cmd);
    let (a, b) = trim_bounds(&v, 0, v.len());
    assert(v@.subrange(0, v@.len() as int) =~= cmd@);
    let (a, b) = if a < b && v[a] == ':' {
        let (c, d) = trim_bounds(&v, a + 1, b);
        assert(v@.subrange(a as int, b as int).drop_first() =~= v@.subrange(a + 1, b as int));
        (c, d)
    } else {
        (a, b)
    };
    let ghost t = v@.subrange(a as int, b as int);
    assert(t == command_text(cmd@));
    let mut out: Vec<String> = Vec::new();
    let ghost mut done: Seq<Seq<char>> = Seq::empty();
    let mut i = a;
    assert(t.skip(0) =~= t);
    while i < b
        invariant
            a <= i <= b <= v.len(),
            t == v@.subrange(a as int, b as int),
            out@.len() == done.len(),
            forall|k: int| 0 <= k < out@.len() ==> #[trigger] out@[k]@ == done[k],
            done + words(t.skip(i - a)) == words(t),
        decreases b - i,
    {
        let ghost rest = t.skip(i - a);
        assert(rest[0] == v@[i as int]);
        if char_is_whitespace(v[i]) {
            assert(rest.drop_first() =~= t.skip(i + 1 - a));
            i = i + 1;
        } else {
            let mut j = i;
            while j < b && !char_is_whitespace(v[j])
                invariant
                    i <= j <= b <= v.len(),
                    forall|k: int| i <= k < j ==> !spec_is_whitespace(#[trigger] v@[k]),
                decreases b - j,
            {
                j = j + 1;
            }
            proof {
                assert forall|k: int| 0 <= k < j - i implies !spec_is_whitespace(#[trigger] rest[k]) by {
                    assert(rest[k] == v@[i + k]);
                }
                if j < b {
                    assert(rest[j - i] == v@[j as int]);
                }
                lemma_word_len(rest, (j - i) as nat);
            }
            let mut w: Vec<char> = Vec::new();
            let mut k = i;
            while k < j
                invariant
                    i <= k <= j <= v.len(),
                    w@ == v@.subrange(i as int, k as int),
                decreases j - k,
            {
                w.push(v[k]);
                k = k + 1;
                assert(w@ =~= v@.subrange(i as int, k as int));
            }
            let word = string_from_chars(&w);
            proof {
                assert(rest.take((j - i) as int) =~= w@);
                assert(rest.skip((j - i) as int) =~= t.skip(j - a));
                assert(done.push(w@) + words(t.skip(j - a)) =~= done + words(rest));
                done = done.push(w@);
            }
            out.push(word);
            i = j;
        }
    }
    assert(t.skip(i - a) =~= Seq::<char>::empty());
    assert(done + Seq::<Seq<char>>::empty() =~= done);
    out
}

/// `:bnext` and `:bprevious`: the position of the next or previous buffer
/// in the list, wrapping around.
pub fn cycle_buffer(pos: usize, len: usize, forward: bool) -> (r: usize)
    requires
        pos < len,
        !forward ==> pos + len <= usize::MAX,
    ensures
        r == if forward { (pos + 1) % (len as int) } else { (pos + len - 1) % (len as int) },
        r < len,
{
    if forward { (pos + 1) % len } else { (pos + len - 1) % len }
}

/// `:bdelete`: the position, in the list without the deleted buffer, of
/// the buffer shown next.
pub fn buffer_after_delete(pos: usize, len_after: usize) -> (r: usize)
    requires
        len_after > 0,
    ensures
        r == pos % len_after,
        r < len_after,
{
    pos % len_after
}

/// `:tabnext`: the next tab page, wrapping around.
pub fn next_tab(idx: usize, len: usize) -> (r: usize)
    requires
        idx < len,
    ensures
        r == (idx + 1) % (len as int),
        r < len,
{
    (idx + 1) % len
}

/// `:tabprevious`: the previous tab page, wrapping around.
pub fn prev_tab(idx: usize, len: usize) -> (r: usize)
    requires
        len > 0,
    ensures
        r == if idx == 0 { len - 1 } else { idx - 1 },
{
    if idx == 0 { len - 1 } else { idx - 1 }
}

/// `:tabclose`: the tab page shown after the current one is closed: the
/// same position, or the last where it was the last.
pub fn tab_after_close(idx: usize, len_after: usize) -> (r: usize)
    requires
        len_after > 0,
    ensures
        r == if idx < len_after - 1 { idx as int } else { len_after - 1 },
        r < len_after,
{
    if idx < len_after - 1 { idx } else { len_after - 1 }
}

/// Two lines joined as `:join` joins them: the first without its trailing
/// white space, a space, the second without its leading white space.
pub open spec fn joined_lines(l1: Seq<char>, l2: Seq<char>) -> Seq<char> {
    l1.take(l1.len() - trailing_ws(l1)) + seq![' '] + l2.skip(leading_ws(l2) as int)
}

/// Joins two lines as `:join` does (see [`joined_lines`]).
pub fn join_lines(l1: &str, l2: &str) -> (r: String)
    ensures
        r@ == joined_lines(l1@, l2@),
{
    let a = chars_of(l1);
    let b = chars_of(l2);
    let mut e = a.len();
    while e > 0 && char_is_whitespace(a[e - 1])
        invariant
            e <= a.len(),
            forall|i: int| e <= i < a.len() ==> spec_is_whitespace(#[trigger] a@[i]),
        decreases e,
    {
        e = e - 1;
    }
    proof {
        lemma_trailing_ws(a@, (a.len() - e) as nat);
    }
    let mut st: usize = 0;
    while st < b.len() && char_is_whitespace(b[st])
        invariant
            st <= b.len(),
            forall|i: int| 0 <= i < st ==> spec_is_whitespace(#[trigger] b@[i]),
        decreases b.len() - st,
    {
        st = st + 1;
    }
    proof {
        lemma_leading_ws(b@, st as nat);
    }
    let mut v: Vec<char> = Vec::new();
    let mut i: usize = 0;
    while i < e
        invariant
            i <= e <= a.len(),
            v@ == a@.take(i as int),
        decreases e - i,
    {
        v.push(a[i]);
        i = i + 1;
        assert(v@ =~= a@.take(i as int));
    }
    v.push(' ');
    let mut j: usize = st;
    while j < b.len()
        invariant
            st <= j <= b.len(),
            v@ == a@.take(e as int) + seq![' '] + b@.subrange(st as int, j as int),
        decreases b.len() - j,
    {
        v.push(b[j]);
        j = j + 1;
        assert(v@ =~= a@.take(e as int) + seq![' '] + b@.subrange(st as int, j as int));
    }
    assert(b@.subrange(st as int, j as int) =~= b@.skip(st as int));
    string_from_chars(&v)
}

/// The first position from `i` on of a word that is no flag (does not
/// start with `-`).
pub open spec fn first_non_flag(parts: Seq<Seq<char>>, i: int) -> int
    decreases parts.len() - i,
{
    if i >= parts.len() || !(parts[i].len() > 0 && parts[i][0] == '-') {
        i
    } else {
        first_non_flag(parts, i + 1)
    }
}

/// What `:command` defines, from the words of the command line (its own
/// name first): past the flags, the new command's name and its body, the
/// rest of the words joined with spaces; `None` where no body follows the
/// name.
pub open spec fn command_definition(parts: Seq<Seq<char>>) -> Option<(Seq<char>, Seq<char>)> {
    let i = first_non_flag(parts, 1);
    if i + 1 < parts.len() {
        Some((parts[i], joined_with(parts.subrange(i + 1, parts.len() as int), ' ')))
    } else {
        None
    }
}

fn is_flag(w: &String) -> (r: bool)
    ensures
        r == (w@.len() > 0 && w@[0] == '-'),
{
    let cs = chars_of(w.as_str());
    cs.len() > 0 && cs[0] == '-'
}

/// The name and body that `:command` defines (see [`command_definition`]).
pub fn parse_command_definition(parts: &Vec<String>) -> (r: Option<(String, String)>)
    ensures
        match command_definition(Seq::new(parts@.len(), |k: int| parts@[k]@)) {
            Some((n, b)) => r matches Some(x) && x.0@ == n && x.1@ == b,
            None => r is None,
        },
{
    let ghost ps = Seq::new(parts@.len(), |k: int| parts@[k]@);
    let mut i: usize = 1;
    while i < parts.len() && is_flag(&parts[i])
        invariant
            1 <= i,
            ps == Seq::new(parts@.len(), |k: int| parts@[k]@),
            first_non_flag(ps, 1) == first_non_flag(ps, i as int),
        decreases parts.len() - i,
    {
        i = i + 1;
    }
    if i >= parts.len() || parts.len() - i < 2 {
        return None;
    }
    let name = parts[i].clone();
    let mut body = parts[i + 1].clone();
    let mut k = i + 2;
    assert(ps.subrange(i + 1, i + 2) =~= seq![ps[i + 1]]);
    while k < parts.len()
        invariant
            i + 2 <= k <= parts.len(),
            ps == Seq::new(parts@.len(), |k: int| parts@[k]@),
            body@ == joined_with(ps.subrange(i + 1, k as int), ' '),
        decreases parts.len() - k,
    {
        body.append(" ");
        body.append(parts[k].as_str());
        proof {
            reveal_strlit(" ");
            assert(ps.subrange(i + 1, k + 1).drop_last() =~= ps.subrange(i + 1, k as int));
        }
        k = k + 1;
    }
    assert(ps.subrange(i + 1, k as int) =~= ps.subrange(i + 1, ps.len() as int));
    Some((name, body))
}

/// The commands of a configuration file: its lines, as they are, but those
/// blank once trimmed and those that start with `"`.
pub open spec fn config_commands(lines: Seq<Seq<char>>) -> Seq<Seq<char>>
    decreases lines.len(),
{
    if lines.len() == 0 {
        Seq::empty()
    } else {
        let rest = config_commands(lines.drop_last());
        let l = lines.last();
        if trimmed(l).len() == 0 || (l.len() > 0 && l[0] == '"') { rest } else { rest.push(l) }
    }
}

/// The commands of a sourced script: its lines trimmed, but those empty
/// and those that start with `"`.
pub open spec fn script_commands(lines: Seq<Seq<char>>) -> Seq<Seq<char>>
    decreases lines.len(),
{
    if lines.len() == 0 {
        Seq::empty()
    } else {
        let rest = script_commands(lines.drop_last());
        let t = trimmed(lines.last());
        if t.len() == 0 || t[0] == '"' { rest } else { rest.push(t) }
    }
}

/// The text of each string.
pub open spec fn texts(v: Seq<String>) -> Seq<Seq<char>> {
    Seq::new(v.len(), |i: int| v[i]@)
}

/// A string without the white space at its ends.
pub fn trim_str(s: &str) -> (r: String)
    ensures
        r@ == trimmed(s@),
{
    let v = chars_of(s);
    let (a, b) = trim_bounds(&v, 0, v.len());
    assert(v@.subrange(0, v@.len() as int) =~= s@);
    let mut w: Vec<char> = Vec::new();
    let mut i = a;
    while i < b
        invariant
            a <= i <= b <= v.len(),
            w@ == v@.subrange(a as int, i as int),
        decreases b - i,
    {
        w.push(v[i]);
        i = i + 1;
        assert(w@ =~= v@.subrange(a as int, i as int));
    }
    string_from_chars(&w)
}

/// The commands of a configuration file (see [`config_commands`]).
pub fn config_lines(lines: &Vec<String>) -> (r: Vec<String>)
    ensures
        texts(r@) == config_commands(texts(lines@)),
{
    let mut out: Vec<String> = Vec::new();
    let mut i: usize = 0;
    while i < lines.len()
        invariant
            i <= lines@.len(),
            texts(out@) == config_commands(texts(lines@).take(i as int)),
        decreases lines.len() - i,
    {
        let l = lines[i].as_str();
        let t = trim_str(l);
        let cs = chars_of(l);
        proof {
            assert(texts(lines@).take(i + 1).drop_last() =~= texts(lines@).take(i as int));
            assert(texts(lines@).take(i + 1).last() == l@);
        }
        if !(t.as_str().is_empty() || (cs.len() > 0 && cs[0] == '"')) {
            out.push(lines[i].clone());
            assert(texts(out@) =~= config_commands(texts(lines@).take(i as int)).push(l@));
        }
        i = i + 1;
    }
    assert(texts(lines@).take(i as int) =~= texts(lines@));
    out
}

/// The commands of a sourced script (see [`script_commands`]).
pub fn script_lines(lines: &Vec<String>) -> (r: Vec<String>)
    ensures
        texts(r@) == script_commands(texts(lines@)),
{
    let mut out: Vec<String> = Vec::new();
    let mut i: usize = 0;
    while i < lines.len()
        invariant
            i <= lines@.len(),
            texts(out@) == script_commands(texts(lines@).take(i as int)),
        decreases lines.len() - i,
    {
        let t = trim_str(lines[i].as_str());
        let cs = chars_of(t.as_str());
        proof {
            assert(texts(lines@).take(i + 1).drop_last() =~= texts(lines@).take(i as int));
            assert(texts(lines@).take(i + 1).last() == lines@[i as int]@);
        }
        if !(cs.len() == 0 || cs[0] == '"') {
            let ghost tv = t@;
            out.push(t);
            assert(texts(out@) =~= script_commands(texts(lines@).take(i as int)).push(tv));
        }
        i = i + 1;
    }
    assert(texts(lines@).take(i as int) =~= texts(lines@));
    out
}

} // verus!
