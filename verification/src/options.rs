use vstd::prelude::*;
use vstd::string::StringExecFns;
use crate::assoc::{assoc_map, keys_unique, has_key, lemma_assoc_contains, lemma_assoc_get, lemma_assoc_update, lemma_assoc_push};
use crate::state::OptionValue;
use crate::text::{str_eq, chars_of, string_from_chars, joined_with, string_push};
use crate::statusline::opt_text;

verus! {

/// The value of an [`OptionValue`].
pub enum OptionValueView {
    Bool(bool),
    Int(i64),
    String(Seq<char>),
}

pub open spec fn option_value_view(v: OptionValue) -> OptionValueView {
    match v {
        OptionValue::Bool(b) => OptionValueView::Bool(b),
        OptionValue::Int(n) => OptionValueView::Int(n),
        OptionValue::String(s) => OptionValueView::String(s@),
    }
}

/// The editor's options, each name set at most once.
pub struct Options {
    entries: Vec<(String, OptionValue)>,
}

pub open spec fn entries_view(e: Seq<(String, OptionValue)>) -> Seq<(Seq<char>, OptionValueView)> {
    Seq::new(e.len(), |i: int| (e[i].0@, option_value_view(e[i].1)))
}

impl View for Options {
    type V = Map<Seq<char>, OptionValueView>;

    closed spec fn view(&self) -> Map<Seq<char>, OptionValueView> {
        assoc_map(entries_view(self.entries@))
    }
}

fn copy_value(v: &OptionValue) -> (r: OptionValue)
    ensures
        option_value_view(r) == option_value_view(*v),
{
    match v {
        OptionValue::Bool(b) => OptionValue::Bool(*b),
        OptionValue::Int(n) => OptionValue::Int(*n),
        OptionValue::String(s) => OptionValue::String(s.clone()),
    }
}

impl Options {
    pub closed spec fn wf(&self) -> bool {
        keys_unique(entries_view(self.entries@))
    }

    /// No option set.
    pub fn new() -> (r: Options)
        ensures
            r.wf(),
            r@ == Map::<Seq<char>, OptionValueView>::empty(),
    {
        let r = Options { entries: Vec::new() };
        assert(entries_view(r.entries@) =~= Seq::empty());
        r
    }

    /// Where option `name` is, if it is set.
    fn find(&self, name: &str) -> (r: Option<usize>)
        requires
            self.wf(),
        ensures
            match r {
                Some(i) => i < self.entries@.len() && self.entries@[i as int].0@ == name@,
                None => !has_key(entries_view(self.entries@), name@),
            },
    {
        let mut i: usize = 0;
        while i < self.entries.len()
            invariant
                i <= self.entries@.len(),
                forall|j: int| 0 <= j < i ==> #[trigger] self.entries@[j].0@ != name@,
            decreases self.entries.len() - i,
        {
            if str_eq(self.entries[i].0.as_str(), name) {
                return Some(i);
            }
            i = i + 1;
        }
        proof {
            let ev = entries_view(self.entries@);
            assert forall|j: int| 0 <= j < ev.len() implies #[trigger] ev[j].0 != name@ by {
                assert(self.entries@[j].0@ != name@);
            }
        }
        None
    }

    /// Sets option `name` to `value`, in place of any value it had.
    pub fn insert(&mut self, name: &str, value: OptionValue)
        requires
            old(self).wf(),
        ensures
            final(self).wf(),
            final(self)@ == old(self)@.insert(name@, option_value_view(value)),
    {
        let ghost ev = entries_view(self.entries@);
        let ghost val = option_value_view(value);
        match self.find(name) {
            Some(i) => {
                let key = self.entries[i].0.clone();
                self.entries.set(i, (key, value));
                proof {
                    lemma_assoc_update(ev, i as int, val);
                    assert(entries_view(self.entries@) =~= ev.update(i as int, (ev[i as int].0, val)));
                }
            },
            None => {
                self.entries.push((String::from_str(name), value));
                proof {
                    lemma_assoc_push(ev, name@, val);
                    assert(entries_view(self.entries@) =~= ev.push((name@, val)));
                }
            },
        }
    }

    /// The value of option `name`, if it is set.
    pub fn get(&self, name: &str) -> (r: Option<&OptionValue>)
        requires
            self.wf(),
        ensures
            r is Some <==> self@.contains_key(name@),
            r matches Some(v) ==> option_value_view(*v) == self@[name@],
    {
        proof {
            lemma_assoc_contains(entries_view(self.entries@), name@);
        }
        match self.find(name) {
            Some(i) => {
                proof {
                    lemma_assoc_get(entries_view(self.entries@), i as int);
                }
                Some(&self.entries[i].1)
            },
            None => None,
        }
    }

    /// Whether option `name` is set to `true`; `false` where it is unset
    /// or not a flag.
    pub fn get_bool(&self, name: &str) -> (r: bool)
        requires
            self.wf(),
        ensures
            r == (self@.contains_key(name@) && self@[name@] == OptionValueView::Bool(true)),
    {
        match self.get(name) {
            Some(OptionValue::Bool(b)) => *b,
            _ => false,
        }
    }

    /// The number option `name` is set to, or `default` where it is unset
    /// or not a number.
    pub fn get_int(&self, name: &str, default: i64) -> (r: i64)
        requires
            self.wf(),
        ensures
            r == (if self@.contains_key(name@) && self@[name@] is Int { self@[name@]->Int_0 } else { default }),
    {
        match self.get(name) {
            Some(OptionValue::Int(n)) => *n,
            _ => default,
        }
    }

    /// The text option `name` is set to, where it is set to text.
    pub fn get_string(&self, name: &str) -> (r: Option<String>)
        requires
            self.wf(),
        ensures
            match r {
                Some(s) => self@.contains_key(name@) && self@[name@] == OptionValueView::String(s@),
                None => !(self@.contains_key(name@) && self@[name@] is String),
            },
    {
        match self.get(name) {
            Some(v) => match copy_value(v) {
                OptionValue::String(s) => Some(s),
                _ => None,
            },
            None => None,
        }
    }
}

/// The options the editor starts with, `runtimepath` set to `rtp`.
pub open spec fn default_options(rtp: Seq<char>) -> Map<Seq<char>, OptionValueView> {
    Map::empty()
        .insert("number"@, OptionValueView::Bool(false))
        .insert("relativenumber"@, OptionValueView::Bool(false))
        .insert("expandtab"@, OptionValueView::Bool(false))
        .insert("tabstop"@, OptionValueView::Int(8))
        .insert("shiftwidth"@, OptionValueView::Int(8))
        .insert("autoindent"@, OptionValueView::Bool(false))
        .insert("incsearch"@, OptionValueView::Bool(true))
        .insert("hlsearch"@, OptionValueView::Bool(true))
        .insert("ignorecase"@, OptionValueView::Bool(false))
        .insert("smartcase"@, OptionValueView::Bool(false))
        .insert("wrap"@, OptionValueView::Bool(true))
        .insert("scrolloff"@, OptionValueView::Int(0))
        .insert("sidescrolloff"@, OptionValueView::Int(0))
        .insert("laststatus"@, OptionValueView::Int(2))
        .insert("showmode"@, OptionValueView::Bool(true))
        .insert("cursorline"@, OptionValueView::Bool(false))
        .insert("signcolumn"@, OptionValueView::String("auto"@))
        .insert("loadplugins"@, OptionValueView::Bool(true))
        .insert("headless"@, OptionValueView::Bool(false))
        .insert("termguicolors"@, OptionValueView::Bool(true))
        .insert("runtimepath"@, OptionValueView::String(rtp))
        .insert("columns"@, OptionValueView::Int(80))
        .insert("lines"@, OptionValueView::Int(24))
}

impl Options {
    /// The options the editor starts with (see [`default_options`]).
    pub fn defaults(rtp: &str) -> (r: Options)
        ensures
            r.wf(),
            r@ == default_options(rtp@),
    {
        let mut o = Options::new();
        o.insert("number", OptionValue::Bool(false));
        o.insert("relativenumber", OptionValue::Bool(false));
        o.insert("expandtab", OptionValue::Bool(false));
        o.insert("tabstop", OptionValue::Int(8));
        o.insert("shiftwidth", OptionValue::Int(8));
        o.insert("autoindent", OptionValue::Bool(false));
        o.insert("incsearch", OptionValue::Bool(true));
        o.insert("hlsearch", OptionValue::Bool(true));
        o.insert("ignorecase", OptionValue::Bool(false));
        o.insert("smartcase", OptionValue::Bool(false));
        o.insert("wrap", OptionValue::Bool(true));
        o.insert("scrolloff", OptionValue::Int(0));
        o.insert("sidescrolloff", OptionValue::Int(0));
        o.insert("laststatus", OptionValue::Int(2));
        o.insert("showmode", OptionValue::Bool(true));
        o.insert("cursorline", OptionValue::Bool(false));
        o.insert("signcolumn", OptionValue::String(String::from_str("auto")));
        o.insert("loadplugins", OptionValue::Bool(true));
        o.insert("headless", OptionValue::Bool(false));
        o.insert("termguicolors", OptionValue::Bool(true));
        o.insert("runtimepath", OptionValue::String(String::from_str(rtp)));
        o.insert("columns", OptionValue::Int(80));
        o.insert("lines", OptionValue::Int(24));
        o
    }
}

/// A relative path joined onto a directory as `Path::join` joins it on
/// Unix: with a `/` between them unless the directory is empty or already
/// ends with one.
pub open spec fn joined_path(base: Seq<char>, rel: Seq<char>) -> Seq<char> {
    if base.len() == 0 || base.last() == '/' { base + rel } else { base + seq!['/'] + rel }
}

/// Joins the relative path `rel` onto `base` (see [`joined_path`]).
pub fn join_path(base: &str, rel: &str) -> (r: String)
    ensures
        r@ == joined_path(base@, rel@),
{
    let b = chars_of(base);
    let mut s = String::from_str(base);
    if b.len() > 0 && b[b.len() - 1] != '/' {
        string_push(&mut s, '/');
    }
    s.append(rel);
    s
}

/// The path `rel` under a directory, where the directory is known.
pub open spec fn dir_entry(dir: Option<Seq<char>>, rel: Seq<char>) -> Seq<Seq<char>> {
    match dir {
        Some(d) => seq![joined_path(d, rel)],
        None => Seq::empty(),
    }
}

/// The directories of the runtime path, in order: the user's
/// configuration, the user's data, the runtime of a source tree under the
/// working directory, the system's directories, the user's local data, and
/// the user's `after` directory; those under directories not known are
/// left out.
pub open spec fn runtime_dirs(config: Option<Seq<char>>, data: Option<Seq<char>>, cwd: Option<Seq<char>>, home: Option<Seq<char>>) -> Seq<Seq<char>> {
    dir_entry(config, "rneovim"@) + dir_entry(data, "rneovim/site"@) + dir_entry(cwd, "neovim-src/runtime"@)
        + seq![
            "/usr/local/share/rneovim/site"@,
            "/usr/share/rneovim/site"@,
            "/usr/local/share/rneovim/runtime"@,
            "/usr/share/rneovim/runtime"@,
        ] + dir_entry(home, ".local/share/rneovim/site"@) + dir_entry(config, "rneovim/after"@)
}

fn push_dir(parts: &mut Vec<String>, dir: Option<&str>, rel: &str)
    ensures
        Seq::new(final(parts)@.len(), |i: int| final(parts)@[i]@)
            == Seq::new(old(parts)@.len(), |i: int| old(parts)@[i]@) + dir_entry(opt_text(dir), rel@),
{
    match dir {
        Some(d) => parts.push(join_path(d, rel)),
        None => {},
    }
    assert(Seq::new(parts@.len(), |i: int| parts@[i]@)
        =~= Seq::new(old(parts)@.len(), |i: int| old(parts)@[i]@) + dir_entry(opt_text(dir), rel@));
}

/// Strings joined with `sep` between each two.
pub fn join_strings(parts: &Vec<String>, sep: char) -> (r: String)
    ensures
        r@ == joined_with(Seq::new(parts@.len(), |i: int| parts@[i]@), sep),
{
    let ghost ps = Seq::new(parts@.len(), |i: int| parts@[i]@);
    let mut s = String::new();
    let mut i: usize = 0;
    while i < parts.len()
        invariant
            i <= parts@.len(),
            ps == Seq::new(parts@.len(), |i: int| parts@[i]@),
            s@ == joined_with(ps.take(i as int), sep),
        decreases parts.len() - i,
    {
        if i > 0 {
            string_push(&mut s, sep);
        }
        s.append(parts[i].as_str());
        proof {
            assert(ps.take(i + 1).drop_last() =~= ps.take(i as int));
            if i == 0 {
                assert(ps.take(1) =~= seq![ps[0]]);
            }
        }
        i = i + 1;
    }
    assert(ps.take(i as int) =~= ps);
    s
}

/// The runtime path: the directories of [`runtime_dirs`] joined with
/// commas.
pub fn runtime_path(config: Option<&str>, data: Option<&str>, cwd: Option<&str>, home: Option<&str>) -> (r: String)
    ensures
        r@ == joined_with(runtime_dirs(opt_text(config), opt_text(data), opt_text(cwd), opt_text(home)), ','),
{
    let mut parts: Vec<String> = Vec::new();
    push_dir(&mut parts, config, "rneovim");
    push_dir(&mut parts, data, "rneovim/site");
    push_dir(&mut parts, cwd, "neovim-src/runtime");
    parts.push(String::from_str("/usr/local/share/rneovim/site"));
    parts.push(String::from_str("/usr/share/rneovim/site"));
    parts.push(String::from_str("/usr/local/share/rneovim/runtime"));
    parts.push(String::from_str("/usr/share/rneovim/runtime"));
    push_dir(&mut parts, home, ".local/share/rneovim/site");
    push_dir(&mut parts, config, "rneovim/after");
    proof {
        assert(Seq::new(parts@.len(), |i: int| parts@[i]@)
            =~= runtime_dirs(opt_text(config), opt_text(data), opt_text(cwd), opt_text(home)));
    }
    join_strings(&parts, ',')
}

} // verus!
