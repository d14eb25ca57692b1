use vstd::prelude::*;
use crate::text::{chars_of, string_push};

verus! {

/// A character that normal ("magic") Vim patterns take literally but the
/// standard syntax treats as special.
pub open spec fn is_magic_literal(c: char) -> bool {
    c == '(' || c == ')' || c == '{' || c == '}' || c == '+' || c == '?' || c == '|'
}


/// The standard form of the Vim pattern `p[i..]`, `very_magic` telling
/// whether `\v` has been seen. `\v` switches to very-magic and is dropped;
/// `\zs` and `\ze` (and a bare `\z`) are dropped; `\d \D \s \S \w \W` are
/// kept; `\|` becomes `|`; any other escaped character stays escaped; a
/// trailing backslash stays. Outside very-magic, `( ) { } + ? |` are
/// escaped.
pub open spec fn converted(p: Seq<char>, i: int, very_magic: bool) -> Seq<char>
    decreases p.len() - i,
{
    if i < 0 || i >= p.len() {
        Seq::empty()
    } else if p[i] == '\\' {
        if i + 1 < p.len() {
            let next = p[i + 1];
            if next == 'v' {
                converted(p, i + 2, true)
            } else if next == 'z' {
                if i + 2 < p.len() && (p[i + 2] == 's' || p[i + 2] == 'e') {
                    converted(p, i + 3, very_magic)
                } else {
                    converted(p, i + 2, very_magic)
                }
            } else if next == '|' {
                seq!['|'] + converted(p, i + 2, very_magic)
            } else {
                seq!['\\', next] + converted(p, i + 2, very_magic)
            }
        } else {
            seq!['\\']
        }
    } else if is_magic_literal(p[i]) && !very_magic {
        seq!['\\', p[i]] + converted(p, i + 1, very_magic)
    } else {
        seq![p[i]] + converted(p, i + 1, very_magic)
    }
}

/// Converts a Vim pattern to the standard regular-expression syntax.
pub fn convert_vim_regex(pattern: &str) -> (r: String)
    ensures
        r@ == converted(pattern@, 0, false),
{
    let p = chars_of(pattern);
    let mut res = String::new();
    let mut very_magic = false;
    let mut i: usize = 0;
    while i < p.len()
        invariant
            p@ == pattern@,
            i <= p@.len(),
            res@ + converted(p@, i as int, very_magic) == converted(p@, 0, false),
        decreases p@.len() - i,
    {
        let c = p[i];
        let ghost before = res@;
        let ghost vm = very_magic;
        if c == '\\' {
            if i + 1 < p.len() {
                let next = p[i + 1];
                if next == 'v' {
                    very_magic = true;
                    i += 2;
                } else if next == 'z' {
                    if i + 2 < p.len() && (p[i + 2] == 's' || p[i + 2] == 'e') {
                        i += 3;
                    } else {
                        i += 2;
                    }
                } else if next == '|' {
                    string_push(&mut res, '|');
                    assert(before + converted(p@, i as int, vm) =~= res@ + converted(p@, i + 2, vm));
                    i += 2;
                } else {
                    string_push(&mut res, '\\');
                    string_push(&mut res, next);
                    assert(before + converted(p@, i as int, vm) =~= res@ + converted(p@, i + 2, vm));
                    i += 2;
                }
            } else {
                string_push(&mut res, '\\');
                assert(before + converted(p@, i as int, vm) =~= res@ + converted(p@, i + 1, vm));
                i += 1;
            }
        } else if (c == '(' || c == ')' || c == '{' || c == '}' || c == '+' || c == '?' || c == '|') && !very_magic {
            string_push(&mut res, '\\');
            string_push(&mut res, c);
            assert(before + converted(p@, i as int, vm) =~= res@ + converted(p@, i + 1, vm));
            i += 1;
        } else {
            string_push(&mut res, c);
            assert(before + converted(p@, i as int, vm) =~= res@ + converted(p@, i + 1, vm));
            i += 1;
        }
    }
    assert(res@ =~= res@ + converted(p@, i as int, very_magic));
    res
}

/// Where `q` follows a part `p` of a pattern, the conversion of the
/// whole reads `q` from where it starts just as the conversion of `q` does.
proof fn lemma_converted_shift(p: Seq<char>, q: Seq<char>, k: int, vm: bool)
    requires
        0 <= k,
    ensures
        converted(p + q, p.len() + k, vm) == converted(q, k, vm),
    decreases q.len() - k,
{
    let pq = p + q;
    if k < q.len() {
        assert(pq[p.len() + k] == q[k]);
        if k + 1 < q.len() {
            assert(pq[p.len() + k + 1] == q[k + 1]);
        }
        if k + 2 < q.len() {
            assert(pq[p.len() + k + 2] == q[k + 2]);
        }
        lemma_converted_shift(p, q, k + 1, vm);
        if k + 2 <= q.len() {
            lemma_converted_shift(p, q, k + 2, vm);
            lemma_converted_shift(p, q, k + 2, true);
        }
        if k + 3 <= q.len() {
            lemma_converted_shift(p, q, k + 3, vm);
        }
    }
}

/// A pattern without backslashes converts one character at a time:
/// converting `p` followed by `q` gives the conversion of `p` followed by
/// that of `q`.
pub proof fn law_convert_concat(p: Seq<char>, q: Seq<char>)
    requires
        forall|i: int| 0 <= i < p.len() ==> p[i] != '\\',
    ensures
        converted(p + q, 0, false) == converted(p, 0, false) + converted(q, 0, false),
{
    lemma_converted_prefix(p, q, 0);
}

proof fn lemma_converted_prefix(p: Seq<char>, q: Seq<char>, i: int)
    requires
        forall|x: int| 0 <= x < p.len() ==> p[x] != '\\',
        0 <= i <= p.len(),
    ensures
        converted(p + q, i, false) == converted(p, i, false) + converted(q, 0, false),
    decreases p.len() - i,
{
    if i == p.len() {
        lemma_converted_shift(p, q, 0, false);
        assert(converted(p, i, false) =~= Seq::<char>::empty());
        assert(converted(p, i, false) + converted(q, 0, false) =~= converted(q, 0, false));
    } else {
        assert((p + q)[i] == p[i]);
        lemma_converted_prefix(p, q, i + 1);
        let a = converted(p + q, i + 1, false);
        let b = converted(p, i + 1, false);
        let c = converted(q, 0, false);
        if is_magic_literal(p[i]) {
            assert(seq!['\\', p[i]] + a =~= (seq!['\\', p[i]] + b) + c);
        } else {
            assert(seq![p[i]] + a =~= (seq![p[i]] + b) + c);
        }
    }
}

/// In a normal ("magic") pattern each of `( ) { } + ? |` matches itself:
/// the conversion escapes it with a backslash; every other character but
/// the backslash is kept as it is.
pub proof fn law_convert_char(c: char)
    requires
        c != '\\',
    ensures
        converted(seq![c], 0, false) == (if c == '(' || c == ')' || c == '{' || c == '}' || c == '+' || c == '?' || c == '|' {
            seq!['\\', c]
        } else {
            seq![c]
        }),
{
    assert(converted(seq![c], 1, false) =~= Seq::<char>::empty());
    assert(seq!['\\', c] + Seq::<char>::empty() =~= seq!['\\', c]);
    assert(seq![c] + Seq::<char>::empty() =~= seq![c]);
}

/// After `\v` (very magic) a pattern without backslashes is taken as it
/// is: nothing is escaped.
pub proof fn law_convert_very_magic(p: Seq<char>)
    requires
        forall|i: int| 0 <= i < p.len() ==> p[i] != '\\',
    ensures
        converted(seq!['\\', 'v'] + p, 0, false) == p,
{
    lemma_converted_shift(seq!['\\', 'v'], p, 0, true);
    lemma_very_magic_plain(p, 0);
    assert(p.skip(0) =~= p);
    assert((seq!['\\', 'v'] + p)[0] == '\\');
    assert((seq!['\\', 'v'] + p)[1] == 'v');
}

proof fn lemma_very_magic_plain(p: Seq<char>, i: int)
    requires
        forall|x: int| 0 <= x < p.len() ==> p[x] != '\\',
        0 <= i <= p.len(),
    ensures
        converted(p, i, true) == p.skip(i),
    decreases p.len() - i,
{
    if i < p.len() {
        lemma_very_magic_plain(p, i + 1);
        assert(seq![p[i]] + p.skip(i + 1) =~= p.skip(i));
    } else {
        assert(p.skip(i) =~= Seq::<char>::empty());
    }
}

/// The escapes of a Vim pattern: `\|` is the alternative `|`, `\zs` and
/// `\ze` (where the match starts and ends) are dropped, and the classes
/// `\d \D \s \S \w \W`, like an escaped `.`, stay escaped; the rest of the
/// pattern converts on its own.
pub proof fn law_convert_escapes(q: Seq<char>, x: char)
    requires
        x == 'd' || x == 'D' || x == 's' || x == 'S' || x == 'w' || x == 'W' || x == '.',
    ensures
        converted(seq!['\\', '|'] + q, 0, false) == seq!['|'] + converted(q, 0, false),
        converted(seq!['\\', 'z', 's'] + q, 0, false) == converted(q, 0, false),
        converted(seq!['\\', 'z', 'e'] + q, 0, false) == converted(q, 0, false),
        converted(seq!['\\', x] + q, 0, false) == seq!['\\', x] + converted(q, 0, false),
{
    let a = seq!['\\', '|'];
    let b = seq!['\\', 'z', 's'];
    let c = seq!['\\', 'z', 'e'];
    let d = seq!['\\', x];
    lemma_converted_shift(a, q, 0, false);
    lemma_converted_shift(b, q, 0, false);
    lemma_converted_shift(c, q, 0, false);
    lemma_converted_shift(d, q, 0, false);
    assert((a + q)[0] == '\\' && (a + q)[1] == '|');
    assert((b + q)[0] == '\\' && (b + q)[1] == 'z' && (b + q)[2] == 's');
    assert((c + q)[0] == '\\' && (c + q)[1] == 'z' && (c + q)[2] == 'e');
    assert((d + q)[0] == '\\' && (d + q)[1] == x);
}

} // verus!
