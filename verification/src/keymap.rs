use vstd::prelude::*;
use crate::assoc::{assoc_map, keys_unique, has_key, lemma_assoc_contains, lemma_assoc_get, lemma_assoc_update, lemma_assoc_push, lemma_assoc_remove};
use crate::text::{chars_of, chars_eq};

verus! {

/// What a mapping produces: keys, or a Lua callback by its id.
pub enum MappingTarget {
    String(String),
    Lua(i32),
}

/// A key mapping.
pub struct Mapping {
    pub from: String,
    pub target: MappingTarget,
    pub recursive: bool,
    pub silent: bool,
    pub expr: bool,
}

/// The value of a [`MappingTarget`].
pub enum MappingTargetView {
    String(Seq<char>),
    Lua(i32),
}

/// The value of a [`Mapping`].
pub struct MappingView {
    pub from: Seq<char>,
    pub target: MappingTargetView,
    pub recursive: bool,
    pub silent: bool,
    pub expr: bool,
}

pub open spec fn target_view(t: MappingTarget) -> MappingTargetView {
    match t {
        MappingTarget::String(s) => MappingTargetView::String(s@),
        MappingTarget::Lua(id) => MappingTargetView::Lua(id),
    }
}

pub open spec fn mapping_view(m: Mapping) -> MappingView {
    MappingView {
        from: m.from@,
        target: target_view(m.target),
        recursive: m.recursive,
        silent: m.silent,
        expr: m.expr,
    }
}

impl View for Mapping {
    type V = MappingView;

    open spec fn view(&self) -> MappingView {
        mapping_view(*self)
    }
}

/// The mappings of one mode as key-value pairs, keyed by the keys they map.
pub open spec fn mapping_pairs(v: Seq<Mapping>) -> Seq<(Seq<char>, MappingView)> {
    Seq::new(v.len(), |i: int| (v[i].from@, mapping_view(v[i])))
}

/// The modes as key-value pairs, each mode with the map of its mappings.
pub open spec fn mode_pairs(v: Seq<(String, Vec<Mapping>)>) -> Seq<(Seq<char>, Map<Seq<char>, MappingView>)> {
    Seq::new(v.len(), |i: int| (v[i].0@, assoc_map(mapping_pairs(v[i].1@))))
}

/// `p` is a prefix of `s`.
pub open spec fn is_prefix(p: Seq<char>, s: Seq<char>) -> bool {
    p.len() <= s.len() && s.take(p.len() as int) == p
}

/// A non-empty key of `m` that is a prefix of `input` and as long as any
/// such key.
pub open spec fn is_longest_match(m: Map<Seq<char>, MappingView>, input: Seq<char>, k: Seq<char>) -> bool {
    &&& m.dom().contains(k)
    &&& k.len() > 0
    &&& is_prefix(k, input)
    &&& forall|k2: Seq<char>|
        #![trigger m.dom().contains(k2)]
        m.dom().contains(k2) && k2.len() > 0 && is_prefix(k2, input) ==> k2.len() <= k.len()
}

/// Some key of `m` other than `input` starts with `input`: more keys may
/// complete a mapping.
pub open spec fn has_longer_key(m: Map<Seq<char>, MappingView>, input: Seq<char>) -> bool {
    exists|k: Seq<char>| #[trigger] m.dom().contains(k) && k != input && is_prefix(input, k)
}

/// How the mappings `m` of a mode resolve `input`: the longest mapping whose
/// keys begin the input, with the number of bytes it consumes; `(None, 0)`
/// where no mapping matches yet but one may with more input; `None` where
/// neither holds.
pub open spec fn resolve_spec(m: Map<Seq<char>, MappingView>, input: Seq<char>) -> Option<(Option<MappingView>, nat)> {
    if exists|k: Seq<char>| is_longest_match(m, input, k) {
        let k = choose|k: Seq<char>| is_longest_match(m, input, k);
        Some((Some(m[k]), vstd::utf8::encode_utf8(k).len()))
    } else if has_longer_key(m, input) {
        Some((None, 0))
    } else {
        None
    }
}

/// Two prefixes of the same sequence with the same length are equal.
proof fn lemma_prefix_unique(a: Seq<char>, b: Seq<char>, s: Seq<char>)
    requires
        is_prefix(a, s),
        is_prefix(b, s),
        a.len() == b.len(),
    ensures
        a == b,
{
}

/// The value of an optional mapping.
pub open spec fn opt_mapping_view(m: Option<Mapping>) -> Option<MappingView> {
    match m {
        Some(x) => Some(mapping_view(x)),
        None => None,
    }
}

/// What a scan of a mode's list finds is what `resolve_spec` says of the
/// mode's map.
proof fn lemma_resolve_scan(
    lp: Seq<(Seq<char>, MappingView)>,
    m: Map<Seq<char>, MappingView>,
    input: Seq<char>,
    longest: Option<usize>,
    longest_len: usize,
    pending: bool,
    list: Seq<Mapping>,
)
    requires
        lp == mapping_pairs(list),
        keys_unique(lp),
        m == assoc_map(lp),
        longest matches Some(l) ==> {
            &&& l < list.len()
            &&& longest_len == list[l as int].from@.len()
            &&& longest_len > 0
            &&& is_prefix(list[l as int].from@, input)
        },
        longest is None ==> longest_len == 0,
        forall|j: int|
            0 <= j < list.len() && list[j].from@.len() > 0 && is_prefix(#[trigger] list[j].from@, input)
                ==> list[j].from@.len() <= longest_len,
        pending == exists|j: int| 0 <= j < list.len() && #[trigger] list[j].from@ != input && is_prefix(input, list[j].from@),
    ensures
        match resolve_spec(m, input) {
            Some((mv, n)) => match longest {
                Some(l) => mv == Some(mapping_view(list[l as int])) && n == vstd::utf8::encode_utf8(list[l as int].from@).len(),
                None => pending && mv is None && n == 0,
            },
            None => longest is None && !pending,
        },
{
    // Every key of the map is the key of some entry, with that entry's value.
    assert forall|k: Seq<char>| #[trigger] m.dom().contains(k) implies exists|j: int|
        0 <= j < list.len() && list[j].from@ == k && m[k] == mapping_view(list[j]) by {
        lemma_assoc_contains(lp, k);
        let j = choose|j: int| 0 <= j < lp.len() && #[trigger] lp[j].0 == k;
        lemma_assoc_get(lp, j);
        assert(lp[j].0 == list[j].from@);
    }
    // Every entry's key is a key of the map.
    assert forall|j: int| 0 <= j < list.len() implies #[trigger] m.dom().contains(list[j].from@)
        && m[list[j].from@] == mapping_view(list[j]) by {
        lemma_assoc_get(lp, j);
        assert(lp[j].0 == list[j].from@);
    }
    match longest {
        Some(l) => {
            let kl = list[l as int].from@;
            assert(m.dom().contains(kl));
            assert(is_longest_match(m, input, kl)) by {
                assert forall|k2: Seq<char>|
                    #![trigger m.dom().contains(k2)]
                    m.dom().contains(k2) && k2.len() > 0 && is_prefix(k2, input) implies k2.len() <= kl.len() by {
                    let j = choose|j: int| 0 <= j < list.len() && list[j].from@ == k2 && m[k2] == mapping_view(list[j]);
                    assert(list[j].from@.len() <= longest_len);
                }
            }
            let k = choose|k: Seq<char>| is_longest_match(m, input, k);
            assert(k.len() <= kl.len());
            assert(kl.len() <= k.len());
            lemma_prefix_unique(k, kl, input);
        },
        None => {
            assert(!exists|k: Seq<char>| is_longest_match(m, input, k)) by {
                if exists|k: Seq<char>| is_longest_match(m, input, k) {
                    let k = choose|k: Seq<char>| is_longest_match(m, input, k);
                    let j = choose|j: int| 0 <= j < list.len() && list[j].from@ == k && m[k] == mapping_view(list[j]);
                    assert(list[j].from@.len() <= longest_len);
                }
            }
            if pending {
                let j = choose|j: int| 0 <= j < list.len() && #[trigger] list[j].from@ != input && is_prefix(input, list[j].from@);
                assert(m.dom().contains(list[j].from@));
                assert(has_longer_key(m, input));
            } else {
                assert(!has_longer_key(m, input)) by {
                    if has_longer_key(m, input) {
                        let k = choose|k: Seq<char>| #[trigger] m.dom().contains(k) && k != input && is_prefix(input, k);
                        let j = choose|j: int| 0 <= j < list.len() && list[j].from@ == k && m[k] == mapping_view(list[j]);
                        assert(list[j].from@ != input && is_prefix(input, list[j].from@));
                    }
                }
            }
        },
    }
}

/// Mappings, per mode and per keys.
pub struct KeymapEngine {
    mappings: Vec<(String, Vec<Mapping>)>,
}

impl View for KeymapEngine {
    type V = Map<Seq<char>, Map<Seq<char>, MappingView>>;

    closed spec fn view(&self) -> Map<Seq<char>, Map<Seq<char>, MappingView>> {
        assoc_map(mode_pairs(self.mappings@))
    }
}

/// Whether `p` is a prefix of `s`.
fn chars_is_prefix(p: &Vec<char>, s: &Vec<char>) -> (r: bool)
    ensures
        r == is_prefix(p@, s@),
{
    if p.len() > s.len() {
        return false;
    }
    let mut i: usize = 0;
    while i < p.len()
        invariant
            p@.len() <= s@.len(),
            i <= p@.len(),
            forall|j: int| 0 <= j < i ==> p@[j] == s@[j],
        decreases p@.len() - i,
    {
        if p[i] != s[i] {
            assert(s@.take(p@.len() as int)[i as int] != p@[i as int]);
            return false;
        }
        i += 1;
    }
    assert(s@.take(p@.len() as int) =~= p@);
    true
}

fn copy_target(t: &MappingTarget) -> (r: MappingTarget)
    ensures
        target_view(r) == target_view(*t),
{
    match t {
        MappingTarget::String(s) => MappingTarget::String(s.clone()),
        MappingTarget::Lua(id) => MappingTarget::Lua(*id),
    }
}

/// A copy of a mapping with the same value.
pub fn copy_mapping(m: &Mapping) -> (r: Mapping)
    ensures
        r@ == m@,
{
    Mapping {
        from: m.from.clone(),
        target: copy_target(&m.target),
        recursive: m.recursive,
        silent: m.silent,
        expr: m.expr,
    }
}

/// The position of the mapping of `key` in a mode's list, if it is there.
fn find_mapping(list: &Vec<Mapping>, key: &Vec<char>) -> (r: Option<usize>)
    ensures
        r matches Some(i) ==> i < list@.len() && list@[i as int].from@ == key@,
        r is None ==> !has_key(mapping_pairs(list@), key@),
{
    let mut i: usize = 0;
    while i < list.len()
        invariant
            i <= list@.len(),
            forall|j: int| 0 <= j < i ==> list@[j].from@ != key@,
        decreases list@.len() - i,
    {
        let name = chars_of(list[i].from.as_str());
        if chars_eq(&name, key) {
            return Some(i);
        }
        i += 1;
    }
    proof {
        let mp = mapping_pairs(list@);
        if has_key(mp, key@) {
            let j = choose|j: int| 0 <= j < mp.len() && #[trigger] mp[j].0 == key@;
            assert(mp[j].0 == list@[j].from@);
        }
    }
    None
}

impl KeymapEngine {
    /// Well-formedness: no mode occurs twice, and within a mode no keys do.
    pub closed spec fn wf(&self) -> bool {
        &&& keys_unique(mode_pairs(self.mappings@))
        &&& forall|i: int| 0 <= i < self.mappings@.len() ==> keys_unique(mapping_pairs(#[trigger] self.mappings@[i].1@))
    }

    /// No mappings.
    pub fn new() -> (e: KeymapEngine)
        ensures
            e.wf(),
            e@ == Map::<Seq<char>, Map<Seq<char>, MappingView>>::empty(),
    {
        let e = KeymapEngine { mappings: Vec::new() };
        assert(mode_pairs(e.mappings@) =~= Seq::empty());
        e
    }

    /// The position of a mode in the list, if it is there.
    fn find_mode(&self, mode: &Vec<char>) -> (r: Option<usize>)
        requires
            self.wf(),
        ensures
            r matches Some(i) ==> i < self.mappings@.len() && self.mappings@[i as int].0@ == mode@,
            r is None ==> !has_key(mode_pairs(self.mappings@), mode@),
    {
        let mut i: usize = 0;
        while i < self.mappings.len()
            invariant
                i <= self.mappings@.len(),
                forall|j: int| 0 <= j < i ==> self.mappings@[j].0@ != mode@,
            decreases self.mappings@.len() - i,
        {
            let name = chars_of(self.mappings[i].0.as_str());
            if chars_eq(&name, mode) {
                return Some(i);
            }
            i += 1;
        }
        proof {
            let mp = mode_pairs(self.mappings@);
            if has_key(mp, mode@) {
                let j = choose|j: int| 0 <= j < mp.len() && #[trigger] mp[j].0 == mode@;
                assert(mp[j].0 == self.mappings@[j].0@);
            }
        }
        None
    }

    /// Maps `from` to `target` in `mode`, replacing an earlier mapping of
    /// the same keys there.
    pub fn add_mapping(
        &mut self,
        mode: &str,
        from: &str,
        target: MappingTarget,
        recursive: bool,
        silent: bool,
        expr: bool,
    )
        requires
            old(self).wf(),
        ensures
            final(self).wf(),
            final(self)@ == old(self)@.insert(
                mode@,
                (if old(self)@.contains_key(mode@) {
                    old(self)@[mode@]
                } else {
                    Map::empty()
                }).insert(
                    from@,
                    MappingView { from: from@, target: target_view(target), recursive, silent, expr },
                ),
            ),
    {
        let ghost tv = target_view(target);
        let mapping = Mapping { from: from.to_owned(), target, recursive, silent, expr };
        let ghost mv = mapping_view(mapping);
        let mode_chars = chars_of(mode);
        let from_chars = chars_of(from);
        let ghost old_pairs = mode_pairs(self.mappings@);
        proof {
            lemma_assoc_contains(old_pairs, mode@);
        }
        match self.find_mode(&mode_chars) {
            Some(idx) => {
                let (name, mut list) = self.mappings.remove(idx);
                let ghost old_list = list@;
                let ghost lp = mapping_pairs(old_list);
                proof {
                    assert(keys_unique(mapping_pairs(old(self).mappings@[idx as int].1@)));
                    lemma_assoc_get(old_pairs, idx as int);
                    assert(old_pairs[idx as int].1 == assoc_map(lp));
                }
                let found_at = find_mapping(&list, &from_chars);
                if let Some(k) = found_at {
                    list.set(k, mapping);
                    proof {
                        assert(mapping_pairs(list@) =~= lp.update(k as int, (lp[k as int].0, mv)));
                        lemma_assoc_update(lp, k as int, mv);
                    }
                } else {
                    list.push(mapping);
                    proof {
                        if has_key(lp, from@) {
                            let j = choose|j: int| 0 <= j < lp.len() && #[trigger] lp[j].0 == from@;
                        }
                        assert(mapping_pairs(list@) =~= lp.push((from@, mv)));
                        lemma_assoc_push(lp, from@, mv);
                    }
                }
                self.mappings.insert(idx, (name, list));
                proof {
                    let np = mode_pairs(self.mappings@);
                    assert(np =~= old_pairs.update(idx as int, (old_pairs[idx as int].0, assoc_map(mapping_pairs(list@)))));
                    lemma_assoc_update(old_pairs, idx as int, assoc_map(mapping_pairs(list@)));
                    assert forall|i: int| 0 <= i < self.mappings@.len() implies keys_unique(
                        mapping_pairs(#[trigger] self.mappings@[i].1@),
                    ) by {
                        if i != idx {
                            assert(self.mappings@[i] == old(self).mappings@[i]);
                        }
                    }
                }
            },
            None => {
                let mut list: Vec<Mapping> = Vec::new();
                list.push(mapping);
                self.mappings.push((mode.to_owned(), list));
                proof {
                    assert(mapping_pairs(list@) =~= Seq::<(Seq<char>, MappingView)>::empty().push((from@, mv)));
                    lemma_assoc_push(Seq::<(Seq<char>, MappingView)>::empty(), from@, mv);
                    assert(assoc_map(Seq::<(Seq<char>, MappingView)>::empty()) =~= Map::<Seq<char>, MappingView>::empty());
                    assert(mode_pairs(self.mappings@) =~= old_pairs.push((mode@, assoc_map(mapping_pairs(list@)))));
                    lemma_assoc_push(old_pairs, mode@, assoc_map(mapping_pairs(list@)));
                    assert forall|i: int| 0 <= i < self.mappings@.len() implies keys_unique(
                        mapping_pairs(#[trigger] self.mappings@[i].1@),
                    ) by {
                        if i < old(self).mappings@.len() {
                            assert(self.mappings@[i] == old(self).mappings@[i]);
                        } else {
                            assert(mapping_pairs(self.mappings@[i].1@).len() == 1);
                        }
                    }
                }
            },
        }
    }

    /// Removes the mapping of `from` in `mode`, if there is one.
    pub fn del_mapping(&mut self, mode: &str, from: &str)
        requires
            old(self).wf(),
        ensures
            final(self).wf(),
            old(self)@.contains_key(mode@) ==> final(self)@ == old(self)@.insert(mode@, old(self)@[mode@].remove(from@)),
            !old(self)@.contains_key(mode@) ==> final(self)@ == old(self)@,
    {
        let mode_chars = chars_of(mode);
        let from_chars = chars_of(from);
        let ghost old_pairs = mode_pairs(self.mappings@);
        proof {
            lemma_assoc_contains(old_pairs, mode@);
        }
        match self.find_mode(&mode_chars) {
            Some(idx) => {
                let (name, mut list) = self.mappings.remove(idx);
                let ghost lp = mapping_pairs(list@);
                proof {
                    assert(keys_unique(mapping_pairs(old(self).mappings@[idx as int].1@)));
                    lemma_assoc_get(old_pairs, idx as int);
                    lemma_assoc_contains(lp, from@);
                }
                match find_mapping(&list, &from_chars) {
                    Some(k) => {
                        list.remove(k);
                        proof {
                            assert(mapping_pairs(list@) =~= lp.remove(k as int));
                            lemma_assoc_remove(lp, k as int);
                        }
                    },
                    None => {
                        proof {
                            assert(assoc_map(lp) =~= assoc_map(lp).remove(from@));
                        }
                    },
                }
                self.mappings.insert(idx, (name, list));
                proof {
                    let np = mode_pairs(self.mappings@);
                    assert(np =~= old_pairs.update(idx as int, (old_pairs[idx as int].0, assoc_map(mapping_pairs(list@)))));
                    lemma_assoc_update(old_pairs, idx as int, assoc_map(mapping_pairs(list@)));
                    assert forall|i: int| 0 <= i < self.mappings@.len() implies keys_unique(
                        mapping_pairs(#[trigger] self.mappings@[i].1@),
                    ) by {
                        if i != idx {
                            assert(self.mappings@[i] == old(self).mappings@[i]);
                        }
                    }
                }
            },
            None => {},
        }
    }

    /// Resolves `input` in `mode`, falling back to the mappings for all
    /// modes (the empty mode name): the mapping whose keys begin the input
    /// and are the longest such, with the number of bytes they take;
    /// `(None, 0)` where none matches (yet).
    pub fn resolve(&self, mode: &str, input: &str) -> (r: (Option<Mapping>, usize))
        requires
            self.wf(),
        ensures
            ({
                let first = if self@.contains_key(mode@) { resolve_spec(self@[mode@], input@) } else { None };
                let fallback = if self@.contains_key(Seq::<char>::empty()) {
                    resolve_spec(self@[Seq::<char>::empty()], input@)
                } else {
                    None
                };
                let expected = if first is Some { first } else { fallback };
                match expected {
                    Some((m, n)) => opt_mapping_view(r.0) == m && r.1 == n as usize,
                    None => r.0 is None && r.1 == 0,
                }
            }),
    {
        let input_chars = chars_of(input);
        let mode_chars = chars_of(mode);
        if let Some(res) = self.resolve_in_mode(&mode_chars, &input_chars) {
            return res;
        }
        let all: Vec<char> = Vec::new();
        assert(all@ =~= Seq::<char>::empty());
        match self.resolve_in_mode(&all, &input_chars) {
            Some(res) => res,
            None => (None, 0),
        }
    }

    /// Resolves `input` among the mappings of `mode`; `None` where the mode
    /// has none that match or could match.
    fn resolve_in_mode(&self, mode: &Vec<char>, input: &Vec<char>) -> (r: Option<(Option<Mapping>, usize)>)
        requires
            self.wf(),
        ensures
            !self@.contains_key(mode@) ==> r is None,
            self@.contains_key(mode@) ==> match resolve_spec(self@[mode@], input@) {
                Some((m, n)) => r matches Some(x) && opt_mapping_view(x.0) == m && x.1 == n as usize,
                None => r is None,
            },
    {
        let ghost pairs = mode_pairs(self.mappings@);
        proof {
            lemma_assoc_contains(pairs, mode@);
        }
        let idx = match self.find_mode(mode) {
            Some(i) => i,
            None => {
                return None;
            },
        };
        let list = &self.mappings[idx].1;
        let ghost lp = mapping_pairs(list@);
        let ghost m = assoc_map(lp);
        proof {
            lemma_assoc_get(pairs, idx as int);
            assert(self@[mode@] == m);
            assert(keys_unique(lp));
        }
        let mut longest: Option<usize> = None;
        let mut longest_len: usize = 0;
        let mut pending = false;
        let mut i: usize = 0;
        while i < list.len()
            invariant
                lp == mapping_pairs(list@),
                keys_unique(lp),
                i <= list@.len(),
                longest matches Some(l) ==> {
                    &&& l < i
                    &&& longest_len == list@[l as int].from@.len()
                    &&& longest_len > 0
                    &&& is_prefix(list@[l as int].from@, input@)
                },
                longest is None ==> longest_len == 0,
                forall|j: int|
                    0 <= j < i && list@[j].from@.len() > 0 && is_prefix(#[trigger] list@[j].from@, input@)
                        ==> list@[j].from@.len() <= longest_len,
                pending == exists|j: int| 0 <= j < i && #[trigger] list@[j].from@ != input@ && is_prefix(input@, list@[j].from@),
            decreases list@.len() - i,
        {
            let from = chars_of(list[i].from.as_str());
            if chars_eq(&from, input) {
                if from.len() > longest_len {
                    longest_len = from.len();
                    longest = Some(i);
                }
            } else if chars_is_prefix(input, &from) {
                pending = true;
            } else if chars_is_prefix(&from, input) {
                if from.len() > longest_len {
                    longest_len = from.len();
                    longest = Some(i);
                }
            }
            proof {
                assert(from@ == list@[i as int].from@);
                if from@ == input@ {
                    assert(is_prefix(from@, input@)) by {
                        assert(input@.take(from@.len() as int) =~= input@);
                    }
                }
                if is_prefix(input@, from@) && is_prefix(from@, input@) {
                    assert(from@.len() == input@.len());
                    assert(from@ =~= input@.take(from@.len() as int));
                    assert(from@ =~= input@);
                }
            }
            i += 1;
        }
        proof {
            lemma_resolve_scan(lp, m, input@, longest, longest_len, pending, list@);
        }
        match longest {
            Some(l) => Some((Some(copy_mapping(&list[l])), list[l].from.as_str().len())),
            None => {
                if pending {
                    Some((None, 0))
                } else {
                    None
                }
            },
        }
    }
}

/// A mapping just added is what its own keys resolve to: the longest key
/// that starts the input `from` is `from` itself.
pub proof fn law_added_mapping_resolves(m: Map<Seq<char>, MappingView>, from: Seq<char>, v: MappingView)
    requires
        from.len() > 0,
    ensures
        resolve_spec(m.insert(from, v), from) == Some((Some(v), vstd::utf8::encode_utf8(from).len())),
{
    let m2 = m.insert(from, v);
    assert(from.take(from.len() as int) =~= from);
    assert forall|k2: Seq<char>| #![trigger m2.dom().contains(k2)]
        m2.dom().contains(k2) && k2.len() > 0 && is_prefix(k2, from) implies k2.len() <= from.len() by {}
    assert(is_longest_match(m2, from, from));
    let k = choose|k: Seq<char>| is_longest_match(m2, from, k);
    assert(k.len() == from.len());
    lemma_prefix_unique(k, from, from);
}

} // verus!
