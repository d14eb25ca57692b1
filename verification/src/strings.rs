use vstd::prelude::*;
use vstd::string::StringExecFns;
use crate::text::{chars_of, string_push};

verus! {

/// `String::with_capacity`: an empty string with room reserved.
#[verifier::external_body]
fn string_with_capacity(capacity: usize) -> (s: String)
    ensures
        s@ == Seq::<char>::empty(),
{
    String::with_capacity(capacity)
}

/// A string that grows by appending.
pub struct StringBuilder {
    inner: String,
}

impl View for StringBuilder {
    type V = Seq<char>;

    closed spec fn view(&self) -> Seq<char> {
        self.inner@
    }
}

impl StringBuilder {
    /// An empty builder.
    pub fn new() -> (b: StringBuilder)
        ensures
            b@ == Seq::<char>::empty(),
    {
        StringBuilder { inner: String::new() }
    }

    /// An empty builder with room reserved for `capacity` bytes.
    pub fn with_capacity(capacity: usize) -> (b: StringBuilder)
        ensures
            b@ == Seq::<char>::empty(),
    {
        StringBuilder { inner: string_with_capacity(capacity) }
    }

    /// Appends a string.
    pub fn append(&mut self, s: &str)
        ensures
            final(self)@ == old(self)@ + s@,
    {
        self.inner.append(s);
    }

    /// Appends a character.
    pub fn append_char(&mut self, c: char)
        ensures
            final(self)@ == old(self)@.push(c),
    {
        string_push(&mut self.inner, c);
    }

    /// The text built so far.
    pub fn as_str(&self) -> (s: &str)
        ensures
            s@ == self@,
    {
        self.inner.as_str()
    }

    /// The text built, as a `String`.
    pub fn to_string(self) -> (s: String)
        ensures
            s@ == self@,
    {
        self.inner
    }

    /// The length of the text in bytes (of its UTF-8 encoding).
    pub fn len(&self) -> (n: usize)
        ensures
            n == vstd::utf8::encode_utf8(self@).len() as usize,
    {
        self.inner.as_str().len()
    }

    /// Whether the text is empty.
    pub fn is_empty(&self) -> (b: bool)
        ensures
            b == (self@.len() == 0),
    {
        self.inner.as_str().is_empty()
    }
}

/// `s` with a backslash put before every character that occurs in `chars`.
pub open spec fn escaped(s: Seq<char>, chars: Seq<char>) -> Seq<char>
    decreases s.len(),
{
    if s.len() == 0 {
        Seq::empty()
    } else {
        escaped(s.drop_last(), chars) + if chars.contains(s.last()) {
            seq!['\\', s.last()]
        } else {
            seq![s.last()]
        }
    }
}

fn contains_char(v: &Vec<char>, c: char) -> (r: bool)
    ensures
        r == v@.contains(c),
{
    let mut i: usize = 0;
    while i < v.len()
        invariant
            i <= v@.len(),
            forall|j: int| 0 <= j < i ==> v@[j] != c,
        decreases v@.len() - i,
    {
        if v[i] == c {
            return true;
        }
        i += 1;
    }
    false
}

/// Puts a backslash before every character of `s` that occurs in `chars`.
pub fn vim_strsave_escaped(s: &str, chars: &str) -> (r: String)
    ensures
        r@ == escaped(s@, chars@),
{
    let sv = chars_of(s);
    let cv = chars_of(chars);
    let mut res = string_with_capacity(s.len());
    let mut i: usize = 0;
    while i < sv.len()
        invariant
            sv@ == s@,
            cv@ == chars@,
            i <= sv@.len(),
            res@ == escaped(sv@.take(i as int), cv@),
        decreases sv@.len() - i,
    {
        let c = sv[i];
        assert(sv@.take(i as int + 1).drop_last() =~= sv@.take(i as int));
        if contains_char(&cv, c) {
            string_push(&mut res, '\\');
        }
        string_push(&mut res, c);
        assert(res@ =~= escaped(sv@.take(i as int + 1), cv@));
        i += 1;
    }
    assert(sv@.take(sv@.len() as int) =~= sv@);
    res
}

/// The result of removing quotes from `s[i..]`, `in_quotes` telling whether
/// the position `i` is inside quotes: a double quote toggles quoting and is
/// dropped; inside quotes a backslash before a double quote or a backslash
/// is dropped and the next character kept; everything else is kept.
pub open spec fn unquoted_from(s: Seq<char>, i: int, in_quotes: bool) -> Seq<char>
    decreases s.len() - i,
{
    if i >= s.len() || i < 0 {
        Seq::empty()
    } else if s[i] == '"' {
        unquoted_from(s, i + 1, !in_quotes)
    } else if s[i] == '\\' && in_quotes && i + 1 < s.len() && (s[i + 1] == '"' || s[i + 1] == '\\') {
        seq![s[i + 1]] + unquoted_from(s, i + 2, in_quotes)
    } else {
        seq![s[i]] + unquoted_from(s, i + 1, in_quotes)
    }
}

/// Removes double quotes from `s`, unescaping `\"` and `\\` inside them.
pub fn vim_strnsave_unquoted(s: &str) -> (r: String)
    ensures
        r@ == unquoted_from(s@, 0, false),
{
    let sv = chars_of(s);
    let mut res = string_with_capacity(s.len());
    let mut in_quotes = false;
    let mut i: usize = 0;
    while i < sv.len()
        invariant
            sv@ == s@,
            i <= sv@.len(),
            res@ + unquoted_from(sv@, i as int, in_quotes) == unquoted_from(sv@, 0, false),
        decreases sv@.len() - i,
    {
        let c = sv[i];
        if c == '"' {
            in_quotes = !in_quotes;
            i += 1;
        } else if c == '\\' && in_quotes && i + 1 < sv.len() && (sv[i + 1] == '"' || sv[i + 1] == '\\') {
            let ghost before = res@;
            string_push(&mut res, sv[i + 1]);
            assert(before + unquoted_from(sv@, i as int, in_quotes) =~= res@ + unquoted_from(sv@, i + 2, in_quotes));
            i += 2;
        } else {
            let ghost before = res@;
            string_push(&mut res, c);
            assert(before + unquoted_from(sv@, i as int, in_quotes) =~= res@ + unquoted_from(sv@, i + 1, in_quotes));
            i += 1;
        }
    }
    assert(res@ =~= res@ + unquoted_from(sv@, i as int, in_quotes));
    res
}

} // verus!
