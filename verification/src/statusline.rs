use vstd::prelude::*;
use vstd::string::StringExecFns;
use crate::lsp::{decimal, push_decimal};
use crate::text::{chars_of, string_from_chars};
use crate::window::Cursor;

verus! {

/// Every occurrence of `pat` in `s` replaced by `with`, left to right and
/// without overlap.
pub open spec fn replace_all(s: Seq<char>, pat: Seq<char>, with: Seq<char>) -> Seq<char>
    decreases s.len(),
{
    if pat.len() == 0 || s.len() < pat.len() {
        s
    } else if s.take(pat.len() as int) == pat {
        with + replace_all(s.skip(pat.len() as int), pat, with)
    } else {
        seq![s[0]] + replace_all(s.skip(1), pat, with)
    }
}

/// `str::replace` for a pattern that is not empty: each occurrence of
/// `pat`, left to right and without overlap, replaced by `with`.
pub fn replace_str(s: &str, pat: &str, with: &str) -> (r: String)
    requires
        pat@.len() > 0,
    ensures
        r@ == replace_all(s@, pat@, with@),
{
    let cs = chars_of(s);
    let ps = chars_of(pat);
    let ws = chars_of(with);
    let mut out: Vec<char> = Vec::new();
    let mut i: usize = 0;
    assert(cs@.skip(0) =~= cs@);
    while i < cs.len()
        invariant
            i <= cs.len(),
            ps@ == pat@,
            ps@.len() > 0,
            ws@ == with@,
            out@ + replace_all(cs@.skip(i as int), ps@, ws@) == replace_all(s@, pat@, with@),
            cs@ == s@,
        decreases cs.len() - i,
    {
        let ghost t = cs@.skip(i as int);
        let n = ps.len();
        let mut matches = n <= cs.len() - i;
        if matches {
            let mut j: usize = 0;
            while j < n
                invariant
                    n == ps@.len(),
                    i + n <= cs.len(),
                    j <= n,
                    t == cs@.skip(i as int),
                    matches == (forall|k: int| 0 <= k < j ==> cs@[i + k] == ps@[k]),
                decreases n - j,
            {
                if cs[i + j] != ps[j] {
                    matches = false;
                }
                j = j + 1;
            }
            proof {
                if matches {
                    assert(t.take(n as int) =~= ps@);
                } else {
                    let k = choose|k: int| 0 <= k < n && cs@[i + k] != ps@[k];
                    assert(t.take(n as int)[k] != ps@[k]);
                }
            }
        }
        let ghost base = out@;
        if matches {
            let mut k: usize = 0;
            while k < ws.len()
                invariant
                    k <= ws.len(),
                    out@ == base + ws@.take(k as int),
                decreases ws.len() - k,
            {
                out.push(ws[k]);
                k = k + 1;
                assert(out@ =~= base + ws@.take(k as int));
            }
            assert(ws@.take(k as int) =~= ws@);
            assert(t.skip(n as int) =~= cs@.skip(i + n));
            assert(replace_all(t, ps@, ws@) == ws@ + replace_all(t.skip(n as int), ps@, ws@));
            assert(out@ + replace_all(t.skip(n as int), ps@, ws@) =~= base + replace_all(t, ps@, ws@));
            i = i + n;
        } else {
            out.push(cs[i]);
            assert(t.skip(1) =~= cs@.skip(i + 1));
            assert(t =~= seq![cs@[i as int]] + t.skip(1));
            assert(replace_all(t, ps@, ws@) == seq![cs@[i as int]] + replace_all(t.skip(1), ps@, ws@));
            assert(out@ + replace_all(t.skip(1), ps@, ws@) =~= base + replace_all(t, ps@, ws@));
            i = i + 1;
        }
    }
    assert(cs@.skip(i as int) =~= Seq::<char>::empty());
    assert(out@ + Seq::<char>::empty() =~= out@);
    string_from_chars(&out)
}

/// `std::path::Path::extension` of a path: what its file name holds after
/// the last `.`, if anything does.
pub uninterp spec fn spec_path_extension(path: Seq<char>) -> Option<Seq<char>>;

/// `std::path::Path::new(path).extension()`, as text. The result is named
/// by `spec_path_extension`; std documents it as a function of the path
/// alone, which does not look at the file system. Paths are read with the
/// separators of Unix, where this library runs.
#[verifier::external_body]
fn path_extension(path: &str) -> (r: Option<String>)
    ensures
        match r {
            Some(e) => spec_path_extension(path@) == Some(e@),
            None => spec_path_extension(path@) is None,
        },
{
    match std::path::Path::new(path).extension() {
        Some(e) => match e.to_str() {
            Some(t) => Some(t.to_string()),
            None => None,
        },
        None => None,
    }
}

/// The text of an optional string.
pub open spec fn opt_text(o: Option<&str>) -> Option<Seq<char>> {
    match o {
        Some(s) => Some(s@),
        None => None,
    }
}

/// Text in square brackets.
pub open spec fn bracketed(t: Seq<char>) -> Seq<char> {
    seq!['['] + t + seq![']']
}

/// The file type that the status line shows: the `filetype` option in
/// brackets where it is set (nothing where it is set empty), else the
/// extension of the buffer's name in brackets, else nothing.
pub open spec fn filetype_tag_of(filetype: Option<Seq<char>>, name: Option<Seq<char>>) -> Seq<char> {
    match filetype {
        Some(f) => if f.len() == 0 { Seq::empty() } else { bracketed(f) },
        None => match name {
            Some(n) => match spec_path_extension(n) {
                Some(e) => bracketed(e),
                None => Seq::empty(),
            },
            None => Seq::empty(),
        },
    }
}

fn push_bracketed(out: &mut String, t: &str)
    ensures
        final(out)@ == old(out)@ + bracketed(t@),
{
    out.append("[");
    out.append(t);
    out.append("]");
    proof {
        reveal_strlit("[");
        reveal_strlit("]");
    }
    assert(out@ =~= old(out)@ + bracketed(t@));
}

/// The file type that the status line shows (see [`filetype_tag_of`]).
pub fn filetype_tag(filetype: Option<&str>, name: Option<&str>) -> (r: String)
    ensures
        r@ == filetype_tag_of(opt_text(filetype), opt_text(name)),
{
    let mut out = String::new();
    match filetype {
        Some(f) => {
            if !f.is_empty() {
                push_bracketed(&mut out, f);
            }
        },
        None => match name {
            Some(n) => match path_extension(n) {
                Some(e) => push_bracketed(&mut out, e.as_str()),
                None => {},
            },
            None => {},
        },
    }
    assert(out@ =~= filetype_tag_of(opt_text(filetype), opt_text(name)));
    out
}

/// The status line when no `statusline` option is set: the buffer's name
/// (`[No Name]` where it has none) and the items line count, file type,
/// read-only state, modified flag, percentage, line and column.
pub open spec fn default_statusline(name: Option<Seq<char>>) -> Seq<char> {
    " "@ + (match name { Some(n) => n, None => "[No Name]"@ }) + " [%L] %y %r %m  %p%%  %l:%c "@
}

/// How far through the buffer row `row` is, in percent: 100 for a single
/// line, 0 for none.
pub open spec fn percent_through(row: usize, n: usize) -> nat {
    if n > 1 {
        (((row - 1) * 100) / (n - 1)) as nat
    } else if n == 1 {
        100
    } else {
        0
    }
}

/// The status line: the template (the `statusline` option, else the
/// default) with `%L` the line count, `%l` the line, `%c` the column, `%m`
/// `[+]` where modified, `%y` the file type, `%r` `[RO]` or `[RW]`, `%p`
/// the percentage and `%%` a percent sign, replaced in that order.
pub open spec fn statusline_of(
    template: Option<Seq<char>>,
    name: Option<Seq<char>>,
    line_count: usize,
    cursor: Cursor,
    modified: bool,
    readonly: bool,
    filetype: Seq<char>,
) -> Seq<char> {
    let t0 = match template { Some(t) => t, None => default_statusline(name) };
    let t1 = replace_all(t0, "%L"@, decimal(line_count as nat));
    let t2 = replace_all(t1, "%l"@, decimal(cursor.row as nat));
    let t3 = replace_all(t2, "%c"@, decimal(cursor.col as nat));
    let t4 = replace_all(t3, "%m"@, if modified { "[+]"@ } else { Seq::empty() });
    let t5 = replace_all(t4, "%y"@, filetype);
    let t6 = replace_all(t5, "%r"@, if readonly { "[RO]"@ } else { "[RW]"@ });
    let t7 = replace_all(t6, "%p"@, decimal(percent_through(cursor.row, line_count)));
    replace_all(t7, "%%"@, "%"@)
}

fn decimal_string(n: usize) -> (r: String)
    ensures
        r@ == decimal(n as nat),
{
    let mut s = String::new();
    push_decimal(&mut s, n);
    assert(s@ =~= decimal(n as nat));
    s
}

/// Builds the status line (see [`statusline_of`]) from the template, the
/// buffer's name, line count, modified and read-only state, the cursor and
/// the file type shown.
pub fn build_statusline(
    template: Option<&str>,
    name: Option<&str>,
    line_count: usize,
    cursor: Cursor,
    modified: bool,
    readonly: bool,
    filetype: &str,
) -> (r: String)
    requires
        line_count > 1 ==> cursor.row >= 1 && (cursor.row - 1) * 100 <= usize::MAX,
    ensures
        r@ == statusline_of(opt_text(template), opt_text(name), line_count, cursor, modified, readonly, filetype@),
{
    proof {
        reveal_strlit("%L");
        reveal_strlit("%l");
        reveal_strlit("%c");
        reveal_strlit("%m");
        reveal_strlit("%y");
        reveal_strlit("%r");
        reveal_strlit("%p");
        reveal_strlit("%%");
    }
    let mut t = match template {
        Some(t) => t.to_owned(),
        None => {
            let mut d = String::new();
            d.append(" ");
            match name {
                Some(n) => d.append(n),
                None => d.append("[No Name]"),
            }
            d.append(" [%L] %y %r %m  %p%%  %l:%c ");
            d
        },
    };
    assert(t@ == (match opt_text(template) { Some(x) => x, None => default_statusline(opt_text(name)) }));
    t = replace_str(t.as_str(), "%L", decimal_string(line_count).as_str());
    t = replace_str(t.as_str(), "%l", decimal_string(cursor.row).as_str());
    t = replace_str(t.as_str(), "%c", decimal_string(cursor.col).as_str());
    let flag: &str = if modified { "[+]" } else { "" };
    proof {
        reveal_strlit("");
        assert(flag@ == if modified { "[+]"@ } else { Seq::<char>::empty() });
    }
    t = replace_str(t.as_str(), "%m", flag);
    t = replace_str(t.as_str(), "%y", filetype);
    t = replace_str(t.as_str(), "%r", if readonly { "[RO]" } else { "[RW]" });
    let pct: usize = if line_count > 1 {
        ((cursor.row - 1) * 100) / (line_count - 1)
    } else if line_count == 1 {
        100
    } else {
        0
    };
    assert(pct == percent_through(cursor.row, line_count));
    t = replace_str(t.as_str(), "%p", decimal_string(pct).as_str());
    t = replace_str(t.as_str(), "%%", "%");
    t
}

} // verus!
