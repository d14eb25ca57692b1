use vstd::prelude::*;
use vstd::utf8::encode_utf8;
use crate::charset::{spec_is_alphabetic, char_is_alphabetic};
use crate::text::{chars_of, string_from_chars, byte_offset, utf8_len, lemma_byte_offset_step, lemma_byte_offset_bound};

verus! {

/// What `str::to_lowercase` gives for a string (Unicode lower-case
/// mapping, which may change the number of characters).
pub uninterp spec fn spec_to_lowercase(s: Seq<char>) -> Seq<char>;

/// `str::to_lowercase`. Its result is named by `spec_to_lowercase`, a
/// function of the characters alone.
#[verifier::external_body]
fn str_to_lowercase(s: &str) -> (r: String)
    ensures
        r@ == spec_to_lowercase(s@),
{
    s.to_lowercase()
}

/// No character of `w` is a letter.
pub open spec fn no_letters(w: Seq<char>) -> bool {
    forall|i: int| 0 <= i < w.len() ==> !spec_is_alphabetic(#[trigger] w[i])
}

/// A word is misspelled when it holds a letter and its lower-case form is
/// not in the dictionary.
pub open spec fn misspelled(dict: Set<Seq<char>>, w: Seq<char>) -> bool {
    !(w.len() == 0 || no_letters(w)) && !dict.contains(spec_to_lowercase(w))
}

/// The end of the run of letters that starts at `i`.
pub open spec fn run_end(line: Seq<char>, i: int) -> int
    decreases line.len() - i,
{
    if i < 0 || i >= line.len() || !spec_is_alphabetic(line[i]) {
        i
    } else {
        run_end(line, i + 1)
    }
}

pub proof fn lemma_run_end(line: Seq<char>, i: int)
    requires
        0 <= i <= line.len(),
    ensures
        i <= run_end(line, i) <= line.len(),
        run_end(line, i) == line.len() || !spec_is_alphabetic(line[run_end(line, i)]),
        forall|k: int| i <= k < run_end(line, i) ==> spec_is_alphabetic(#[trigger] line[k]),
    decreases line.len() - i,
{
    if i < line.len() && spec_is_alphabetic(line[i]) {
        lemma_run_end(line, i + 1);
    }
}

/// Within a run of letters, the run ends at the same place.
pub proof fn lemma_run_end_same(line: Seq<char>, s: int, i: int)
    requires
        0 <= s <= i <= line.len(),
        forall|k: int| s <= k < i ==> spec_is_alphabetic(#[trigger] line[k]),
    ensures
        run_end(line, s) == run_end(line, i),
    decreases i - s,
{
    if s < i {
        assert(spec_is_alphabetic(line[s]));
        lemma_run_end_same(line, s + 1, i);
    }
}

/// The misspelled words of `line` from character `i` on, as byte ranges:
/// characters that are not letters are skipped; a run of letters is a
/// word, reported where it is misspelled.
pub open spec fn misspellings_from(dict: Set<Seq<char>>, line: Seq<char>, i: int) -> Seq<(int, int)>
    decreases line.len() - i,
{
    if i < 0 || i >= line.len() {
        Seq::empty()
    } else if !spec_is_alphabetic(line[i]) {
        misspellings_from(dict, line, i + 1)
    } else {
        let e = run_end(line, i);
        proof {
            lemma_run_end(line, i + 1);
        }
        let rest = misspellings_from(dict, line, e);
        if misspelled(dict, line.subrange(i, e)) {
            seq![(byte_offset(line, i) as int, byte_offset(line, e) as int)] + rest
        } else {
            rest
        }
    }
}

/// The pairs as mathematical integers.
pub open spec fn int_pairs(v: Seq<(usize, usize)>) -> Seq<(int, int)> {
    Seq::new(v.len(), |k: int| (v[k].0 as int, v[k].1 as int))
}

/// A dictionary of correctly spelled words, kept in lower case.
pub struct SpellChecker {
    dictionary: Vec<String>,
}

impl View for SpellChecker {
    type V = Set<Seq<char>>;

    closed spec fn view(&self) -> Set<Seq<char>> {
        Set::new(|w: Seq<char>| exists|i: int| 0 <= i < self.dictionary@.len() && #[trigger] self.dictionary@[i]@ == w)
    }
}

impl SpellChecker {
    /// An empty dictionary.
    pub fn new() -> (r: SpellChecker)
        ensures
            r@ == Set::<Seq<char>>::empty(),
    {
        let r = SpellChecker { dictionary: Vec::new() };
        assert(r@ =~= Set::<Seq<char>>::empty());
        r
    }

    fn contains_word(&self, w: &String) -> (r: bool)
        ensures
            r == self@.contains(w@),
    {
        let mut k: usize = 0;
        while k < self.dictionary.len()
            invariant
                k <= self.dictionary@.len(),
                forall|t: int| 0 <= t < k ==> #[trigger] self.dictionary@[t]@ != w@,
            decreases self.dictionary@.len() - k,
        {
            if self.dictionary[k] == *w {
                return true;
            }
            k += 1;
        }
        false
    }

    /// Adds the lower-case form of `word`.
    pub fn add_word(&mut self, word: &str)
        ensures
            final(self)@ == old(self)@.insert(spec_to_lowercase(word@)),
    {
        let lower = str_to_lowercase(word);
        if !self.contains_word(&lower) {
            self.dictionary.push(lower);
        }
        proof {
            let l = spec_to_lowercase(word@);
            assert forall|w: Seq<char>| #[trigger] final(self)@.contains(w) <==> old(self)@.insert(l).contains(w) by {
                if old(self)@.contains(w) {
                    let i = choose|i: int| 0 <= i < old(self).dictionary@.len() && #[trigger] old(self).dictionary@[i]@ == w;
                    assert(self.dictionary@[i]@ == w);
                }
                if w == l && !old(self)@.contains(w) {
                    assert(self.dictionary@[self.dictionary@.len() - 1]@ == w);
                }
                if final(self)@.contains(w) {
                    let i = choose|i: int| 0 <= i < self.dictionary@.len() && #[trigger] self.dictionary@[i]@ == w;
                    if i < old(self).dictionary@.len() {
                        assert(old(self).dictionary@[i]@ == w);
                    }
                }
            }
            assert(final(self)@ =~= old(self)@.insert(l));
        }
    }

    /// Whether `word` holds a letter and is not in the dictionary.
    pub fn is_misspelled(&self, word: &str) -> (r: bool)
        ensures
            r == misspelled(self@, word@),
    {
        let cs = chars_of(word);
        let mut any_letter = false;
        let mut i: usize = 0;
        while i < cs.len()
            invariant
                i <= cs@.len(),
                cs@ == word@,
                any_letter == !no_letters(cs@.take(i as int)),
            decreases cs@.len() - i,
        {
            proof {
                assert forall|k: int| 0 <= k < i implies #[trigger] cs@.take(i as int + 1)[k] == cs@.take(i as int)[k] by {}
            }
            if char_is_alphabetic(cs[i]) {
                any_letter = true;
                proof {
                    assert(cs@.take(i as int + 1)[i as int] == cs@[i as int]);
                }
            } else {
                proof {
                    if no_letters(cs@.take(i as int)) {
                        assert forall|k: int| 0 <= k < i + 1 implies !spec_is_alphabetic(#[trigger] cs@.take(i as int + 1)[k]) by {
                            if k < i {
                                assert(cs@.take(i as int)[k] == cs@.take(i as int + 1)[k]);
                            }
                        }
                    } else {
                        let k = choose|k: int| 0 <= k < i && spec_is_alphabetic(#[trigger] cs@.take(i as int)[k]);
                        assert(cs@.take(i as int + 1)[k] == cs@.take(i as int)[k]);
                    }
                }
            }
            i += 1;
        }
        assert(cs@.take(cs@.len() as int) =~= cs@);
        if cs.len() == 0 || !any_letter {
            return false;
        }
        let lower = str_to_lowercase(word);
        !self.contains_word(&lower)
    }

    /// The misspelled words of `line`, as byte ranges in order: the words
    /// are the runs of letters.
    pub fn check_line(&self, line: &str) -> (r: Vec<(usize, usize)>)
        ensures
            int_pairs(r@) == misspellings_from(self@, line@, 0),
    {
        let cs = chars_of(line);
        let total = line.as_bytes().len();
        let ghost l = line@;
        let ghost d = self@;
        let mut out: Vec<(usize, usize)> = Vec::new();
        let mut word: Vec<char> = Vec::new();
        let mut start: Option<(usize, usize)> = None;
        let mut byte: usize = 0;
        let mut i: usize = 0;
        proof {
            assert(l.take(0) =~= Seq::<char>::empty());
            lemma_byte_offset_bound(l, l.len() as int);
        }
        while i < cs.len()
            invariant
                i <= cs@.len(),
                cs@ == l,
                l == line@,
                d == self@,
                total as int == encode_utf8(l).len(),
                byte as int == byte_offset(l, i as int),
                match start {
                    None => misspellings_from(d, l, 0) == int_pairs(out@) + misspellings_from(d, l, i as int),
                    Some((s, sb)) => {
                        &&& s < i
                        &&& sb as int == byte_offset(l, s as int)
                        &&& word@ == l.subrange(s as int, i as int)
                        &&& forall|k: int| s <= k < i ==> spec_is_alphabetic(#[trigger] l[k])
                        &&& misspellings_from(d, l, 0) == int_pairs(out@) + misspellings_from(d, l, s as int)
                    },
                },
            decreases cs@.len() - i,
        {
            let c = cs[i];
            let ghost old_out = out@;
            proof {
                lemma_byte_offset_step(l, i as int);
                lemma_byte_offset_bound(l, i as int + 1);
            }
            if char_is_alphabetic(c) {
                match start {
                    None => {
                        start = Some((i, byte));
                        word = Vec::new();
                        word.push(c);
                        proof {
                            assert(word@ =~= l.subrange(i as int, i as int + 1));
                        }
                    },
                    Some(_) => {
                        word.push(c);
                        proof {
                            let s = start.unwrap().0;
                            assert(word@ =~= l.subrange(s as int, i as int + 1));
                        }
                    },
                }
            } else {
                match start {
                    Some((s, sb)) => {
                        let w = string_from_chars(&word);
                        let bad = self.is_misspelled(w.as_str());
                        proof {
                            lemma_run_end_same(l, s as int, i as int);
                            lemma_run_end(l, s as int);
                            assert(run_end(l, i as int) == i);
                            assert(spec_is_alphabetic(l[s as int]));
                        }
                        if bad {
                            out.push((sb, byte));
                            proof {
                                assert(int_pairs(out@) =~= int_pairs(old_out) + seq![(byte_offset(l, s as int) as int, byte_offset(l, i as int) as int)]);
                            }
                        }
                        proof {
                            assert(misspellings_from(d, l, i as int) == misspellings_from(d, l, i as int + 1));
                        }
                        start = None;
                    },
                    None => {
                        proof {
                            assert(misspellings_from(d, l, i as int) == misspellings_from(d, l, i as int + 1));
                        }
                    },
                }
            }
            byte = byte + utf8_len(c);
            i += 1;
        }
        proof {
            lemma_byte_offset_bound(l, l.len() as int);
        }
        match start {
            Some((s, sb)) => {
                let ghost old_out = out@;
                let w = string_from_chars(&word);
                let bad = self.is_misspelled(w.as_str());
                proof {
                    lemma_run_end_same(l, s as int, i as int);
                    assert(run_end(l, i as int) == i);
                    assert(spec_is_alphabetic(l[s as int]));
                    assert(misspellings_from(d, l, i as int) =~= Seq::<(int, int)>::empty());
                    assert(w@ == l.subrange(s as int, i as int));
                }
                if bad {
                    out.push((sb, byte));
                    proof {
                        assert(int_pairs(out@) =~= int_pairs(old_out) + seq![(byte_offset(l, s as int) as int, byte_offset(l, i as int) as int)]);
                    }
                }
                proof {
                    assert(int_pairs(out@) =~= int_pairs(out@) + Seq::<(int, int)>::empty());
                }
            },
            None => {
                proof {
                    assert(misspellings_from(d, l, i as int) =~= Seq::<(int, int)>::empty());
                    assert(int_pairs(out@) =~= int_pairs(out@) + Seq::<(int, int)>::empty());
                }
            },
        }
        out
    }
}

/// A word just added is no longer misspelled.
pub proof fn law_added_word_is_spelled(dict: Set<Seq<char>>, w: Seq<char>)
    ensures
        !misspelled(dict.insert(spec_to_lowercase(w)), w),
{
}

/// The dictionary after `add_word` of each of `words`, in order, on a new
/// checker.
pub open spec fn dictionary_of(words: Seq<Seq<char>>) -> Set<Seq<char>>
    decreases words.len(),
{
    if words.len() == 0 {
        Set::empty()
    } else {
        dictionary_of(words.drop_last()).insert(spec_to_lowercase(words.last()))
    }
}

proof fn lemma_dictionary_of(words: Seq<Seq<char>>, x: Seq<char>)
    ensures
        dictionary_of(words).contains(x) <==> exists|i: int| 0 <= i < words.len() && spec_to_lowercase(#[trigger] words[i]) == x,
    decreases words.len(),
{
    if words.len() > 0 {
        let d = words.drop_last();
        lemma_dictionary_of(d, x);
        if exists|i: int| 0 <= i < words.len() && spec_to_lowercase(#[trigger] words[i]) == x {
            let i = choose|i: int| 0 <= i < words.len() && spec_to_lowercase(#[trigger] words[i]) == x;
            if i < words.len() - 1 {
                assert(d[i] == words[i]);
            }
        }
        if exists|i: int| 0 <= i < d.len() && spec_to_lowercase(#[trigger] d[i]) == x {
            let i = choose|i: int| 0 <= i < d.len() && spec_to_lowercase(#[trigger] d[i]) == x;
            assert(words[i] == d[i]);
        }
    }
}

/// A checker built from the words added to a new one rejects exactly the
/// words with a letter whose lower-case form is none of theirs; a word
/// without letters, or the empty word, is never misspelled.
pub proof fn law_dictionary_of_added_words(words: Seq<Seq<char>>, w: Seq<char>)
    ensures
        misspelled(dictionary_of(words), w) <==> (!(w.len() == 0 || no_letters(w)) && forall|i: int|
            0 <= i < words.len() ==> spec_to_lowercase(#[trigger] words[i]) != spec_to_lowercase(w)),
{
    lemma_dictionary_of(words, spec_to_lowercase(w));
}

} // verus!
