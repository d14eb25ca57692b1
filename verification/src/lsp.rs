use vstd::prelude::*;
use vstd::string::StringExecFns;
use vstd::utf8::encode_utf8;
use crate::charset::{spec_is_whitespace, char_is_whitespace, is_ascii_digit};
use crate::text::{chars_of, string_push};

verus! {

/// The character of a decimal digit.
pub open spec fn digit_char(d: nat) -> char {
    (('0' as u32) + d) as char
}

/// The decimal digits of a number, without leading zeros.
pub open spec fn decimal(n: nat) -> Seq<char>
    decreases n,
{
    if n < 10 {
        seq![digit_char(n)]
    } else {
        decimal(n / 10).push(digit_char(n % 10))
    }
}

/// The value of a sequence of ASCII decimal digits.
pub open spec fn digits_value(d: Seq<char>) -> nat
    decreases d.len(),
{
    if d.len() == 0 {
        0
    } else {
        digits_value(d.drop_last()) * 10 + ((d.last() as u32) - ('0' as u32)) as nat
    }
}

/// The value of at least one ASCII digit and nothing else, where it fits.
pub open spec fn digits_result(d: Seq<char>) -> Option<usize> {
    if d.len() > 0 && (forall|i: int| 0 <= i < d.len() ==> is_ascii_digit(#[trigger] d[i])) && digits_value(d) <= usize::MAX {
        Some(digits_value(d) as usize)
    } else {
        None
    }
}

/// What `usize::from_str` reads: an optional `+`, then at least one ASCII
/// digit and nothing else, of a value that fits.
pub open spec fn parse_usize(t: Seq<char>) -> Option<usize> {
    digits_result(if t.len() > 0 && t[0] == '+' { t.drop_first() } else { t })
}

/// The number of leading characters that are white space.
pub open spec fn leading_ws(s: Seq<char>) -> nat
    decreases s.len(),
{
    if s.len() > 0 && spec_is_whitespace(s[0]) {
        1 + leading_ws(s.drop_first())
    } else {
        0
    }
}

/// The number of trailing characters that are white space.
pub open spec fn trailing_ws(s: Seq<char>) -> nat
    decreases s.len(),
{
    if s.len() > 0 && spec_is_whitespace(s.last()) {
        1 + trailing_ws(s.drop_last())
    } else {
        0
    }
}

/// A string without the white space at its ends (what `str::trim` gives).
pub open spec fn trimmed(s: Seq<char>) -> Seq<char> {
    let a = leading_ws(s);
    let rest = s.skip(a as int);
    rest.take(rest.len() - trailing_ws(rest))
}

/// The start of a message header.
pub open spec fn header_prefix() -> Seq<char> {
    "Content-Length: "@
}

/// The length that a header line announces: the line starts with
/// `Content-Length: ` and the rest, trimmed, is a length.
pub open spec fn content_length(line: Seq<char>) -> Option<usize> {
    let p = header_prefix();
    if line.len() >= p.len() && line.take(p.len() as int) == p {
        parse_usize(trimmed(line.skip(p.len() as int)))
    } else {
        None
    }
}

/// A message as it is sent: the header with the body's length in bytes,
/// a blank line, and the body.
pub open spec fn framed(body: Seq<char>) -> Seq<char> {
    header_prefix() + decimal(encode_utf8(body).len()) + "\r\n\r\n"@ + body
}

pub(crate) proof fn lemma_leading_ws(s: Seq<char>, k: nat)
    requires
        k <= s.len(),
        forall|i: int| 0 <= i < k ==> spec_is_whitespace(#[trigger] s[i]),
        k == s.len() || !spec_is_whitespace(s[k as int]),
    ensures
        leading_ws(s) == k,
    decreases k,
{
    if k > 0 {
        assert(spec_is_whitespace(s[0]));
        assert forall|i: int| 0 <= i < k - 1 implies spec_is_whitespace(#[trigger] s.drop_first()[i]) by {
            assert(spec_is_whitespace(s[i + 1]));
        }
        lemma_leading_ws(s.drop_first(), (k - 1) as nat);
    }
}

pub(crate) proof fn lemma_trailing_ws(s: Seq<char>, k: nat)
    requires
        k <= s.len(),
        forall|i: int| s.len() - k <= i < s.len() ==> spec_is_whitespace(#[trigger] s[i]),
        k == s.len() || !spec_is_whitespace(s[s.len() - k - 1]),
    ensures
        trailing_ws(s) == k,
    decreases k,
{
    if k > 0 {
        assert(spec_is_whitespace(s[s.len() - 1]));
        assert forall|i: int| s.drop_last().len() - (k - 1) <= i < s.drop_last().len() implies spec_is_whitespace(
            #[trigger] s.drop_last()[i],
        ) by {
            assert(spec_is_whitespace(s[i]));
        }
        lemma_trailing_ws(s.drop_last(), (k - 1) as nat);
    }
}

/// The character of digit `d`.
pub(crate) fn digit(d: usize) -> (c: char)
    requires
        d < 10,
    ensures
        c == digit_char(d as nat),
{
    match d {
        0 => '0',
        1 => '1',
        2 => '2',
        3 => '3',
        4 => '4',
        5 => '5',
        6 => '6',
        7 => '7',
        8 => '8',
        _ => '9',
    }
}

/// Appends the decimal digits of `n`.
pub(crate) fn push_decimal(s: &mut String, n: usize)
    ensures
        final(s)@ == old(s)@ + decimal(n as nat),
    decreases n,
{
    if n >= 10 {
        push_decimal(s, n / 10);
    }
    let ghost mid = s@;
    string_push(s, digit(n % 10));
    proof {
        if n >= 10 {
            assert(old(s)@ + decimal(n as nat) =~= old(s)@ + decimal((n / 10) as nat) + seq![digit_char((n % 10) as nat)]);
        } else {
            assert(old(s)@ + decimal(n as nat) =~= old(s)@ + seq![digit_char(n as nat)]);
        }
    }
}

/// Frames a message body for the language server: `Content-Length`, the
/// length of the body in bytes, a blank line, then the body.
pub fn frame_message(body: &str) -> (r: String)
    ensures
        r@ == framed(body@),
{
    let n = body.as_bytes().len();
    let mut s = String::new();
    s.append("Content-Length: ");
    push_decimal(&mut s, n);
    s.append("\r\n\r\n");
    s.append(body);
    proof {
        assert(s@ =~= framed(body@));
    }
    s
}

/// The length that a header line of the language server announces, if it
/// is such a line (see [`content_length`]).
pub fn parse_content_length(line: &str) -> (r: Option<usize>)
    ensures
        r == content_length(line@),
{
    let cs = chars_of(line);
    let prefix = chars_of("Content-Length: ");
    let ghost l = cs@;
    let ghost p = prefix@;
    proof {
        reveal_strlit("Content-Length: ");
    }
    if cs.len() < prefix.len() {
        return None;
    }
    let mut i: usize = 0;
    while i < prefix.len()
        invariant
            i <= p.len() <= l.len(),
            l == cs@,
            l == line@,
            p == prefix@,
            p == header_prefix(),
            forall|k: int| 0 <= k < i ==> l[k] == p[k],
        decreases p.len() - i,
    {
        if cs[i] != prefix[i] {
            proof {
                assert(l.take(p.len() as int)[i as int] != p[i as int]);
            }
            return None;
        }
        i += 1;
    }
    assert(l.take(p.len() as int) =~= p);
    let ghost rest = l.skip(p.len() as int);
    let mut a: usize = prefix.len();
    while a < cs.len() && char_is_whitespace(cs[a])
        invariant
            p.len() <= a <= l.len(),
            l == cs@,
            rest == l.skip(p.len() as int),
            forall|k: int| p.len() <= k < a ==> spec_is_whitespace(#[trigger] l[k]),
        decreases l.len() - a,
    {
        a += 1;
    }
    proof {
        assert forall|k: int| 0 <= k < a - p.len() implies spec_is_whitespace(#[trigger] rest[k]) by {
            assert(rest[k] == l[k + p.len()]);
        }
        if a < l.len() {
            assert(rest[a - p.len()] == l[a as int]);
        }
        lemma_leading_ws(rest, (a - p.len()) as nat);
    }
    let ghost mid = rest.skip(a - p.len());
    let mut b: usize = cs.len();
    while b > a && char_is_whitespace(cs[b - 1])
        invariant
            a <= b <= l.len(),
            l == cs@,
            mid == l.subrange(a as int, l.len() as int),
            forall|k: int| b <= k < l.len() ==> spec_is_whitespace(#[trigger] l[k]),
        decreases b,
    {
        b -= 1;
    }
    proof {
        assert(mid =~= l.subrange(a as int, l.len() as int));
        let k = (l.len() - b) as nat;
        assert forall|i: int| mid.len() - k <= i < mid.len() implies spec_is_whitespace(#[trigger] mid[i]) by {
            assert(mid[i] == l[i + a]);
        }
        if b > a {
            assert(mid[mid.len() - k - 1] == l[b - 1]);
        }
        lemma_trailing_ws(mid, k);
        assert(trimmed(rest) =~= l.subrange(a as int, b as int));
    }
    let ghost t = l.subrange(a as int, b as int);
    let mut start = a;
    if start < b && cs[start] == '+' {
        start += 1;
    }
    let ghost d = l.subrange(start as int, b as int);
    proof {
        if a < b && l[a as int] == '+' {
            assert(t.drop_first() =~= d);
        } else {
            assert(t =~= d);
        }
        assert(content_length(line@) == digits_result(d));
    }
    parse_digits(&cs, start, b)
}

/// The value of the digits `cs[start..end]`: `None` unless there is at
/// least one, all are ASCII digits and the value fits.
pub(crate) fn parse_digits(cs: &Vec<char>, start: usize, b: usize) -> (r: Option<usize>)
    requires
        start <= b <= cs@.len(),
    ensures
        r == digits_result(cs@.subrange(start as int, b as int)),
{
    let ghost l = cs@;
    let ghost d = l.subrange(start as int, b as int);
    if start >= b {
        return None;
    }
    let mut value: usize = 0;
    let mut k: usize = start;
    while k < b
        invariant
            start <= k <= b <= l.len(),
            l == cs@,
            d == l.subrange(start as int, b as int),
            forall|j: int| start <= j < k ==> is_ascii_digit(#[trigger] l[j]),
            value as nat == digits_value(l.subrange(start as int, k as int)),
        decreases b - k,
    {
        let c = cs[k];
        if !('0' <= c && c <= '9') {
            proof {
                assert(d[k - start] == c);
            }
            return None;
        }
        let dv: usize = ((c as u32) - ('0' as u32)) as usize;
        proof {
            assert(l.subrange(start as int, k + 1).drop_last() =~= l.subrange(start as int, k as int));
            assert(l.subrange(start as int, k + 1).last() == c);
        }
        match value.checked_mul(10) {
            Some(v10) => match v10.checked_add(dv) {
                Some(v) => {
                    value = v;
                },
                None => {
                    proof {
                        if forall|i: int| 0 <= i < d.len() ==> is_ascii_digit(#[trigger] d[i]) {
                            lemma_digits_value_prefix(d, (k + 1 - start) as nat);
                            assert(d.take(k + 1 - start) =~= l.subrange(start as int, k + 1));
                        }
                    }
                    return None;
                },
            },
            None => {
                proof {
                    if forall|i: int| 0 <= i < d.len() ==> is_ascii_digit(#[trigger] d[i]) {
                        lemma_digits_value_prefix(d, (k + 1 - start) as nat);
                        assert(d.take(k + 1 - start) =~= l.subrange(start as int, k + 1));
                    }
                }
                return None;
            },
        }
        k += 1;
    }
    proof {
        assert(l.subrange(start as int, b as int) =~= d);
        assert forall|i: int| 0 <= i < d.len() implies is_ascii_digit(#[trigger] d[i]) by {
            assert(d[i] == l[i + start]);
        }
    }
    Some(value)
}

/// A longer run of digits is worth at least as much as its start.
proof fn lemma_digits_value_prefix(d: Seq<char>, k: nat)
    requires
        k <= d.len(),
        forall|i: int| 0 <= i < d.len() ==> is_ascii_digit(#[trigger] d[i]),
    ensures
        digits_value(d.take(k as int)) <= digits_value(d),
    decreases d.len() - k,
{
    if k < d.len() {
        lemma_digits_value_prefix(d, k + 1);
        assert(d.take(k as int + 1).drop_last() =~= d.take(k as int));
        assert(is_ascii_digit(d.take(k as int + 1).last()));
    } else {
        assert(d.take(k as int) =~= d);
    }
}

/// A path from a `file://` URI (other URIs as they are).
pub fn uri_to_path(uri: &str) -> (r: String)
    ensures
        r@ == (if uri@.len() >= 7 && uri@.take(7) == "file://"@ { uri@.skip(7) } else { uri@ }),
{
    let cs = chars_of(uri);
    let scheme = chars_of("file://");
    proof {
        reveal_strlit("file://");
    }
    let mut is_file = cs.len() >= scheme.len();
    let mut i: usize = 0;
    while is_file && i < scheme.len()
        invariant
            i <= scheme@.len(),
            is_file ==> scheme@.len() <= cs@.len(),
            is_file ==> forall|k: int| 0 <= k < i ==> cs@[k] == scheme@[k],
            !is_file ==> !(cs@.len() >= scheme@.len() && cs@.take(scheme@.len() as int) == scheme@),
        decreases scheme@.len() - i + (if is_file { 1int } else { 0 }),
    {
        if cs[i] != scheme[i] {
            proof {
                assert(cs@.take(scheme@.len() as int)[i as int] != scheme@[i as int]);
            }
            is_file = false;
        } else {
            i += 1;
        }
    }
    let mut out = String::new();
    let from = if is_file { scheme.len() } else { 0 };
    let mut j: usize = from;
    while j < cs.len()
        invariant
            from <= j <= cs@.len(),
            out@ == cs@.subrange(from as int, j as int),
        decreases cs@.len() - j,
    {
        string_push(&mut out, cs[j]);
        assert(out@ =~= cs@.subrange(from as int, j + 1));
        j += 1;
    }
    proof {
        if is_file {
            assert(cs@.take(scheme@.len() as int) =~= scheme@);
        }
        assert(cs@.subrange(from as int, cs@.len() as int) =~= cs@.skip(from as int));
        assert(cs@.skip(0) =~= cs@);
    }
    out
}

} // verus!
