use vstd::prelude::*;

verus! {

/// The largest number of entries that one node holds before it splits.
pub const MAX_CAPACITY: usize = 128;

/// A node of the line tree: a leaf holds lines, an internal node holds
/// children together with the number of lines below each child.
pub enum Node {
    Leaf(Vec<String>),
    Internal { children: Vec<Node>, line_counts: Vec<usize> },
}

/// The lines below a node, in order.
pub open spec fn node_lines(n: Node) -> Seq<Seq<char>>
    decreases n,
{
    match n {
        Node::Leaf(v) => v@.map_values(|s: String| s@),
        Node::Internal { children, line_counts } => {
            proof {
                assert(decreases_to!(children => children@));
            }
            seq_lines(children@)
        },
    }
}

/// The lines below a sequence of nodes, concatenated in order.
pub open spec fn seq_lines(s: Seq<Node>) -> Seq<Seq<char>>
    decreases s,
{
    if s.len() == 0 {
        Seq::empty()
    } else {
        seq_lines(s.drop_last()) + node_lines(s.last())
    }
}

/// Well-formedness of a node: no node holds more than `MAX_CAPACITY`
/// entries; an internal node has one count per child, each count equal to
/// the child's number of lines and positive (so no child is empty), and
/// well-formed children.
pub open spec fn node_wf(n: Node) -> bool
    decreases n,
{
    match n {
        Node::Leaf(v) => v@.len() <= MAX_CAPACITY,
        Node::Internal { children, line_counts } => {
            proof {
                assert(decreases_to!(children => children@));
            }
            &&& children@.len() <= MAX_CAPACITY
            &&& children@.len() == line_counts@.len()
            &&& forall|i: int|
                0 <= i < children@.len() ==> {
                    &&& #[trigger] line_counts@[i] == node_lines(children@[i]).len()
                    &&& line_counts@[i] > 0
                    &&& node_wf(children@[i])
                }
        },
    }
}

/// The sum of a sequence of counts.
pub open spec fn sum_counts(c: Seq<usize>) -> int
    decreases c.len(),
{
    if c.len() == 0 {
        0
    } else {
        sum_counts(c.drop_last()) + c.last()
    }
}

/// The lines of a concatenation are the concatenation of the lines.
pub proof fn lemma_seq_lines_append(a: Seq<Node>, b: Seq<Node>)
    ensures
        seq_lines(a + b) == seq_lines(a) + seq_lines(b),
    decreases b.len(),
{
    if b.len() == 0 {
        assert(a + b =~= a);
        assert(seq_lines(b) =~= Seq::<Seq<char>>::empty());
        assert(seq_lines(a) + seq_lines(b) =~= seq_lines(a));
    } else {
        lemma_seq_lines_append(a, b.drop_last());
        assert((a + b).drop_last() =~= a + b.drop_last());
        assert((a + b).last() == b.last());
        assert(seq_lines(a + b) == seq_lines(a + b.drop_last()) + node_lines(b.last()));
        assert(seq_lines(a) + seq_lines(b) =~= seq_lines(a) + seq_lines(b.drop_last()) + node_lines(
            b.last(),
        ));
    }
}

proof fn lemma_seq_lines_single(n: Node)
    ensures
        seq_lines(seq![n]) == node_lines(n),
{
    assert(seq![n].drop_last() =~= Seq::<Node>::empty());
    assert(seq_lines(Seq::<Node>::empty()) + node_lines(n) =~= node_lines(n));
}

/// Splitting a sequence of nodes around position `i`.
proof fn lemma_seq_lines_at(s: Seq<Node>, i: int)
    requires
        0 <= i < s.len(),
    ensures
        seq_lines(s) == seq_lines(s.take(i)) + node_lines(s[i]) + seq_lines(s.skip(i + 1)),
{
    assert(s =~= s.take(i) + seq![s[i]] + s.skip(i + 1));
    lemma_seq_lines_append(s.take(i) + seq![s[i]], s.skip(i + 1));
    lemma_seq_lines_append(s.take(i), seq![s[i]]);
    lemma_seq_lines_single(s[i]);
}

/// In a well-formed internal node, the lines below the first `k` children
/// number the sum of the first `k` counts.
proof fn lemma_prefix_count(children: Seq<Node>, counts: Seq<usize>, k: int)
    requires
        children.len() == counts.len(),
        0 <= k <= children.len(),
        forall|i: int| 0 <= i < children.len() ==> #[trigger] counts[i] == node_lines(children[i]).len(),
    ensures
        seq_lines(children.take(k)).len() == sum_counts(counts.take(k)),
    decreases k,
{
    if k > 0 {
        lemma_prefix_count(children, counts, k - 1);
        assert(children.take(k).drop_last() =~= children.take(k - 1));
        assert(counts.take(k).drop_last() =~= counts.take(k - 1));
        assert(children.take(k).last() == children[k - 1]);
        assert(counts.take(k).last() == counts[k - 1]);
    } else {
        assert(children.take(0) =~= Seq::<Node>::empty());
        assert(counts.take(0) =~= Seq::<usize>::empty());
    }
}

proof fn lemma_sum_counts_take_step(counts: Seq<usize>, k: int)
    requires
        0 <= k < counts.len(),
    ensures
        sum_counts(counts.take(k + 1)) == sum_counts(counts.take(k)) + counts[k],
{
    assert(counts.take(k + 1).drop_last() =~= counts.take(k));
}

proof fn lemma_sum_counts_nonneg(counts: Seq<usize>)
    ensures
        sum_counts(counts) >= 0,
    decreases counts.len(),
{
    if counts.len() > 0 {
        lemma_sum_counts_nonneg(counts.drop_last());
    }
}

/// Where line `lnum` falls among the children of a well-formed internal node.
proof fn lemma_locate(cs: Seq<Node>, ct: Seq<usize>, i: int)
    requires
        cs.len() == ct.len(),
        0 <= i < cs.len(),
        forall|j: int| 0 <= j < cs.len() ==> #[trigger] ct[j] == node_lines(cs[j]).len(),
    ensures
        seq_lines(cs) == seq_lines(cs.take(i)) + node_lines(cs[i]) + seq_lines(cs.skip(i + 1)),
        seq_lines(cs.take(i)).len() == sum_counts(ct.take(i)),
        seq_lines(cs).len() == sum_counts(ct.take(i)) + ct[i] + seq_lines(cs.skip(i + 1)).len(),
{
    lemma_seq_lines_at(cs, i);
    lemma_prefix_count(cs, ct, i);
}

/// The total number of lines equals the sum of the counts.
proof fn lemma_total(cs: Seq<Node>, ct: Seq<usize>)
    requires
        cs.len() == ct.len(),
        forall|j: int| 0 <= j < cs.len() ==> #[trigger] ct[j] == node_lines(cs[j]).len(),
    ensures
        seq_lines(cs).len() == sum_counts(ct),
{
    lemma_prefix_count(cs, ct, cs.len() as int);
    assert(cs.take(cs.len() as int) =~= cs);
    assert(ct.take(ct.len() as int) =~= ct);
}

/// Each child is well-formed and counted by the count beside it.
pub open spec fn children_ok(cs: Seq<Node>, ct: Seq<usize>) -> bool {
    &&& cs.len() == ct.len()
    &&& forall|i: int|
        0 <= i < cs.len() ==> {
            &&& #[trigger] ct[i] == node_lines(cs[i]).len()
            &&& ct[i] > 0
            &&& node_wf(cs[i])
        }
}

proof fn lemma_internal_wf(children: Vec<Node>, line_counts: Vec<usize>)
    ensures
        node_wf(Node::Internal { children, line_counts }) <==> (children@.len() <= MAX_CAPACITY
            && children_ok(children@, line_counts@)),
{
}

proof fn lemma_sum_pos(ct: Seq<usize>)
    requires
        ct.len() > 0,
        forall|j: int| 0 <= j < ct.len() ==> #[trigger] ct[j] > 0,
    ensures
        sum_counts(ct) > 0,
    decreases ct.len(),
{
    lemma_sum_counts_nonneg(ct.drop_last());
}

/// A well-formed internal node has at least one line.
proof fn lemma_internal_nonempty(cs: Seq<Node>, ct: Seq<usize>)
    requires
        cs.len() >= 1,
        children_ok(cs, ct),
    ensures
        seq_lines(cs).len() > 0,
{
    lemma_total(cs, ct);
    assert forall|j: int| 0 <= j < ct.len() implies #[trigger] ct[j] > 0 by {
        assert(ct[j] == node_lines(cs[j]).len());
    }
    lemma_sum_pos(ct);
}

proof fn lemma_insert_mid<A>(p: Seq<A>, m: Seq<A>, q: Seq<A>, k: int, x: A)
    requires
        0 <= k <= m.len(),
    ensures
        p + m.insert(k, x) + q == (p + m + q).insert(p.len() + k, x),
{
    assert(p + m.insert(k, x) + q =~= (p + m + q).insert(p.len() + k, x));
}

/// Replacing one child, with a count that matches it.
proof fn lemma_replace_child(cs: Seq<Node>, ct: Seq<usize>, i: int, c: Node, k: usize)
    requires
        children_ok(cs, ct),
        0 <= i < cs.len(),
        node_wf(c),
        k == node_lines(c).len(),
        k > 0,
    ensures
        children_ok(cs.update(i, c), ct.update(i, k)),
        seq_lines(cs.update(i, c)) == seq_lines(cs.take(i)) + node_lines(c) + seq_lines(cs.skip(i + 1)),
        seq_lines(cs) == seq_lines(cs.take(i)) + node_lines(cs[i]) + seq_lines(cs.skip(i + 1)),
{
    let ncs = cs.update(i, c);
    let nct = ct.update(i, k);
    assert forall|j: int| 0 <= j < ncs.len() implies {
        &&& #[trigger] nct[j] == node_lines(ncs[j]).len()
        &&& nct[j] > 0
        &&& node_wf(ncs[j])
    } by {
        if j != i {
            assert(ncs[j] == cs[j]);
            assert(nct[j] == ct[j]);
        }
    }
    lemma_seq_lines_at(ncs, i);
    lemma_seq_lines_at(cs, i);
    assert(ncs.take(i) =~= cs.take(i));
    assert(ncs.skip(i + 1) =~= cs.skip(i + 1));
}

/// Replacing one child by two, each with a count that matches it.
proof fn lemma_split_child(cs: Seq<Node>, ct: Seq<usize>, i: int, a: Node, ka: usize, b: Node, kb: usize)
    requires
        children_ok(cs, ct),
        0 <= i < cs.len(),
        node_wf(a),
        node_wf(b),
        ka == node_lines(a).len(),
        kb == node_lines(b).len(),
        ka > 0,
        kb > 0,
    ensures
        children_ok(cs.update(i, a).insert(i + 1, b), ct.update(i, ka).insert(i + 1, kb)),
        seq_lines(cs.update(i, a).insert(i + 1, b)) == seq_lines(cs.take(i)) + node_lines(a)
            + node_lines(b) + seq_lines(cs.skip(i + 1)),
{
    let ncs = cs.update(i, a).insert(i + 1, b);
    let nct = ct.update(i, ka).insert(i + 1, kb);
    assert forall|j: int| 0 <= j < ncs.len() implies {
        &&& #[trigger] nct[j] == node_lines(ncs[j]).len()
        &&& nct[j] > 0
        &&& node_wf(ncs[j])
    } by {
        if j < i {
            assert(ncs[j] == cs[j]);
            assert(nct[j] == ct[j]);
        } else if j > i + 1 {
            assert(ncs[j] == cs[j - 1]);
            assert(nct[j] == ct[j - 1]);
        }
    }
    assert(ncs =~= cs.take(i) + (seq![a] + seq![b]) + cs.skip(i + 1));
    lemma_seq_lines_append(cs.take(i) + (seq![a] + seq![b]), cs.skip(i + 1));
    lemma_seq_lines_append(cs.take(i), seq![a] + seq![b]);
    lemma_seq_lines_append(seq![a], seq![b]);
    lemma_seq_lines_single(a);
    lemma_seq_lines_single(b);
}

/// Splitting a list of children in two halves.
proof fn lemma_halves(cs: Seq<Node>, ct: Seq<usize>, mid: int)
    requires
        children_ok(cs, ct),
        0 < mid < cs.len(),
    ensures
        children_ok(cs.take(mid), ct.take(mid)),
        children_ok(cs.skip(mid), ct.skip(mid)),
        seq_lines(cs) == seq_lines(cs.take(mid)) + seq_lines(cs.skip(mid)),
        seq_lines(cs.take(mid)).len() > 0,
        seq_lines(cs.skip(mid)).len() > 0,
{
    assert forall|j: int| 0 <= j < mid implies {
        &&& #[trigger] ct.take(mid)[j] == node_lines(cs.take(mid)[j]).len()
        &&& ct.take(mid)[j] > 0
        &&& node_wf(cs.take(mid)[j])
    } by {
        assert(ct[j] == node_lines(cs[j]).len());
    }
    assert forall|j: int| 0 <= j < cs.len() - mid implies {
        &&& #[trigger] ct.skip(mid)[j] == node_lines(cs.skip(mid)[j]).len()
        &&& ct.skip(mid)[j] > 0
        &&& node_wf(cs.skip(mid)[j])
    } by {
        assert(ct[j + mid] == node_lines(cs[j + mid]).len());
    }
    assert(cs =~= cs.take(mid) + cs.skip(mid));
    lemma_seq_lines_append(cs.take(mid), cs.skip(mid));
    lemma_internal_nonempty(cs.take(mid), ct.take(mid));
    lemma_internal_nonempty(cs.skip(mid), ct.skip(mid));
}

impl Node {
    /// A leaf with no lines.
    pub fn new_leaf() -> (n: Node)
        ensures
            node_lines(n) == Seq::<Seq<char>>::empty(),
            node_wf(n),
            n is Leaf,
    {
        let n = Node::Leaf(Vec::new());
        assert(node_lines(n) =~= Seq::<Seq<char>>::empty());
        n
    }

    /// The number of lines below this node.
    pub fn line_count(&self) -> (r: usize)
        requires
            node_wf(*self),
            node_lines(*self).len() <= usize::MAX,
        ensures
            r == node_lines(*self).len(),
    {
        match self {
            Node::Leaf(lines) => lines.len(),
            Node::Internal { children, line_counts } => {
                let ghost cs = children@;
                let ghost ct = line_counts@;
                proof {
                    lemma_prefix_count(cs, ct, cs.len() as int);
                    assert(cs.take(cs.len() as int) =~= cs);
                    assert(ct.take(ct.len() as int) =~= ct);
                }
                let mut total: usize = 0;
                let mut i: usize = 0;
                while i < line_counts.len()
                    invariant
                        node_wf(*self),
                        *self == (Node::Internal { children: *children, line_counts: *line_counts }),
                        cs == children@,
                        ct == line_counts@,
                        i <= ct.len(),
                        total == sum_counts(ct.take(i as int)),
                        sum_counts(ct) == node_lines(*self).len(),
                        node_lines(*self).len() <= usize::MAX,
                    decreases ct.len() - i,
                {
                    proof {
                        lemma_sum_counts_take_step(ct, i as int);
                        lemma_prefix_count(cs, ct, i as int + 1);
                        lemma_seq_lines_append(cs.take(i as int + 1), cs.skip(i as int + 1));
                        assert(cs.take(i as int + 1) + cs.skip(i as int + 1) =~= cs);
                    }
                    total = total + line_counts[i];
                    i = i + 1;
                }
                total
            },
        }
    }

    /// Line `lnum` (counted from 1), if there is one.
    pub fn get_line(&self, lnum: usize) -> (r: Option<&str>)
        requires
            node_wf(*self),
        ensures
            r is Some <==> 1 <= lnum <= node_lines(*self).len(),
            r matches Some(s) ==> s@ == node_lines(*self)[lnum - 1],
        decreases *self,
    {
        match self {
            Node::Leaf(lines) => {
                if lnum == 0 || lnum > lines.len() {
                    None
                } else {
                    Some(lines[lnum - 1].as_str())
                }
            },
            Node::Internal { children, line_counts } => {
                let ghost cs = children@;
                let ghost ct = line_counts@;
                let mut remaining = lnum;
                let mut i: usize = 0;
                while i < line_counts.len()
                    invariant
                        node_wf(*self),
                        *self == (Node::Internal { children: *children, line_counts: *line_counts }),
                        cs == children@,
                        ct == line_counts@,
                        i <= ct.len(),
                        remaining + sum_counts(ct.take(i as int)) == lnum,
                        i > 0 ==> remaining >= 1,
                    decreases ct.len() - i,
                {
                    proof {
                        lemma_locate(cs, ct, i as int);
                        lemma_sum_counts_take_step(ct, i as int);
                    }
                    if remaining <= line_counts[i] {
                        assert(decreases_to!(*self => children[i as int]));
                        let r = children[i].get_line(remaining);
                        return r;
                    }
                    remaining -= line_counts[i];
                    i += 1;
                }
                proof {
                    lemma_total(cs, ct);
                    assert(ct.take(ct.len() as int) =~= ct);
                }
                None
            },
        }
    }

    /// Moves the node out of `slot`, leaving an empty leaf behind.
    fn take(slot: &mut Node) -> (n: Node)
        ensures
            n == *old(slot),
    {
        let mut n = Node::Leaf(Vec::new());
        std::mem::swap(slot, &mut n);
        n
    }

    /// Replaces line `lnum` (counted from 1) with `text`; fails, and changes
    /// nothing, where there is no such line.
    pub fn set_line(&mut self, lnum: usize, text: &str) -> (r: Result<(), &'static str>)
        requires
            node_wf(*old(self)),
        ensures
            node_wf(*final(self)),
            r is Ok <==> 1 <= lnum <= node_lines(*old(self)).len(),
            r is Ok ==> node_lines(*final(self)) == node_lines(*old(self)).update(lnum - 1, text@),
            r is Err ==> node_lines(*final(self)) == node_lines(*old(self)),
            (*final(self) is Internal) == (*old(self) is Internal),
        decreases *old(self),
    {
        let ghost orig: Node = *self;
        let node = Node::take(self);
        match node {
            Node::Leaf(mut lines) => {
                if lnum == 0 || lnum > lines.len() {
                    *self = Node::Leaf(lines);
                    return Err("Invalid line number");
                }
                let ghost before = lines@;
                lines.set(lnum - 1, text.to_owned());
                proof {
                    assert(lines@.map_values(|s: String| s@) =~= before.map_values(|s: String| s@).update(lnum - 1, text@));
                }
                *self = Node::Leaf(lines);
                Ok(())
            },
            Node::Internal { mut children, line_counts } => {
                let ghost cs = children@;
                let ghost ct = line_counts@;
                let mut remaining = lnum;
                let mut i: usize = 0;
                while i < line_counts.len()
                    invariant
                        node_wf(Node::Internal { children, line_counts }),
                        orig == (Node::Internal { children, line_counts }),
                        orig == *old(self),
                        cs == children@,
                        ct == line_counts@,
                        i <= ct.len(),
                        remaining + sum_counts(ct.take(i as int)) == lnum,
                        i > 0 ==> remaining >= 1,
                    decreases ct.len() - i,
                {
                    proof {
                        lemma_locate(cs, ct, i as int);
                        lemma_sum_counts_take_step(ct, i as int);
                    }
                    if remaining <= line_counts[i] {
                        let mut child = children.remove(i);
                        assert(child == cs[i as int]);
                        assert(decreases_to!(orig => cs[i as int]));
                        let r = child.set_line(remaining, text);
                        children.insert(i, child);
                        proof {
                            let ncs = children@;
                            assert(ncs.take(i as int) =~= cs.take(i as int));
                            assert(ncs.skip(i as int + 1) =~= cs.skip(i as int + 1));
                            assert forall|j: int| 0 <= j < ncs.len() implies {
                                &&& #[trigger] ct[j] == node_lines(ncs[j]).len()
                                &&& ct[j] > 0
                                &&& node_wf(ncs[j])
                            } by {
                                if j != i {
                                    assert(ncs[j] == cs[j]);
                                }
                            }
                            lemma_locate(ncs, ct, i as int);
                            if r is Ok {
                                assert(seq_lines(ncs) =~= seq_lines(cs).update(lnum - 1, text@));
                            } else {
                                assert(seq_lines(ncs) =~= seq_lines(cs));
                            }
                        }
                        *self = Node::Internal { children, line_counts };
                        return r;
                    }
                    remaining -= line_counts[i];
                    i += 1;
                }
                proof {
                    lemma_total(cs, ct);
                    assert(ct.take(ct.len() as int) =~= ct);
                }
                *self = Node::Internal { children, line_counts };
                Err("Invalid line number")
            },
        }
    }
}

/// Finds the child that holds line `lnum`: its index and the position of the
/// line inside it. With `at_end`, a position just past the last line counts
/// too (for insertion).
fn find_child(line_counts: &Vec<usize>, lnum: usize, at_end: bool) -> (r: Option<(usize, usize)>)
    requires
        line_counts@.len() >= 1,
        sum_counts(line_counts@) <= usize::MAX,
        at_end ==> sum_counts(line_counts@) < usize::MAX,
    ensures
        r is None <==> lnum > sum_counts(line_counts@) + (if at_end { 1int } else { 0int }),
        r matches Some((i, rem)) ==> {
            &&& i < line_counts@.len()
            &&& rem + sum_counts(line_counts@.take(i as int)) == lnum
            &&& (i > 0 ==> rem >= 1)
            &&& (rem <= line_counts@[i as int] || (at_end && i + 1 == line_counts@.len() && rem
                == line_counts@[i as int] + 1))
        },
{
    let ghost ct = line_counts@;
    let n = line_counts.len();
    let mut remaining = lnum;
    let mut i: usize = 0;
    while i < n
        invariant
            n == ct.len(),
            n >= 1,
            ct == line_counts@,
            sum_counts(ct) <= usize::MAX,
            at_end ==> sum_counts(ct) < usize::MAX,
            i <= n,
            remaining + sum_counts(ct.take(i as int)) == lnum,
            i > 0 ==> remaining >= 1,
            i == n ==> remaining >= (if at_end { 2int } else { 1int }),
        decreases n - i,
    {
        proof {
            lemma_sum_counts_take_step(ct, i as int);
            lemma_sum_prefix_le(ct, i as int + 1);
        }
        if remaining <= line_counts[i] || (at_end && i + 1 == n && remaining == line_counts[i] + 1) {
            return Some((i, remaining));
        }
        remaining -= line_counts[i];
        i += 1;
    }
    assert(ct.take(n as int) =~= ct);
    None
}

proof fn lemma_sum_prefix_le(ct: Seq<usize>, k: int)
    requires
        0 <= k <= ct.len(),
    ensures
        sum_counts(ct.take(k)) <= sum_counts(ct),
        k > 0 ==> ct[k - 1] <= sum_counts(ct),
    decreases ct.len() - k,
{
    if k < ct.len() {
        lemma_sum_prefix_le(ct, k + 1);
        lemma_sum_counts_take_step(ct, k);
        lemma_sum_counts_nonneg(ct.take(k));
        if k > 0 {
            lemma_sum_counts_take_step(ct, k - 1);
            lemma_sum_counts_nonneg(ct.take(k - 1));
        }
    } else {
        assert(ct.take(k) =~= ct);
        if k > 0 {
            assert(ct.take(k).drop_last() =~= ct.take(k - 1));
            lemma_sum_counts_nonneg(ct.take(k - 1));
        }
    }
}

/// Inserts into a leaf's lines, splitting them where they grow past capacity.
fn leaf_insert(lines: &mut Vec<String>, lnum: usize, text: &str) -> (r: Result<Option<Node>, &'static str>)
    requires
        old(lines)@.len() <= MAX_CAPACITY,
    ensures
        final(lines)@.len() <= MAX_CAPACITY,
        r is Ok <==> 1 <= lnum <= old(lines)@.len() + 1,
        r is Err ==> final(lines)@ == old(lines)@,
        r matches Ok(split) ==> match split {
            None => final(lines)@.map_values(|s: String| s@) == old(lines)@.map_values(|s: String| s@).insert(lnum - 1, text@),
            Some(n) => {
                &&& node_wf(n)
                &&& final(lines)@.len() > 0
                &&& node_lines(n).len() > 0
                &&& final(lines)@.map_values(|s: String| s@) + node_lines(n)
                    == old(lines)@.map_values(|s: String| s@).insert(lnum - 1, text@)
            },
        },
{
    if lnum == 0 || lnum > lines.len() + 1 {
        return Err("Invalid line number");
    }
    let ghost before = lines@;
    lines.insert(lnum - 1, text.to_owned());
    assert(lines@.map_values(|s: String| s@) =~= before.map_values(|s: String| s@).insert(lnum - 1, text@));
    if lines.len() > MAX_CAPACITY {
        let mid = lines.len() / 2;
        let ghost all = lines@;
        let new_lines = lines.split_off(mid);
        assert(lines@.map_values(|s: String| s@) + new_lines@.map_values(|s: String| s@)
            =~= all.map_values(|s: String| s@));
        Ok(Some(Node::Leaf(new_lines)))
    } else {
        Ok(None)
    }
}

/// Puts a child back after an insertion below it, recording a split of the
/// child, and splitting this list of children where it grows past capacity.
fn attach_child(
    children: &mut Vec<Node>,
    line_counts: &mut Vec<usize>,
    i: usize,
    child: Node,
    r: Result<Option<Node>, &'static str>,
    Ghost(cs): Ghost<Seq<Node>>,
    Ghost(k): Ghost<int>,
    Ghost(x): Ghost<Seq<char>>,
) -> (res: Result<Option<Node>, &'static str>)
    requires
        children_ok(cs, old(line_counts)@),
        i < cs.len(),
        cs.len() <= MAX_CAPACITY,
        old(children)@ == cs.remove(i as int),
        seq_lines(cs).len() < usize::MAX,
        node_wf(child),
        0 <= k <= node_lines(cs[i as int]).len(),
        r is Err ==> node_lines(child) == node_lines(cs[i as int]),
        r matches Ok(split) ==> match split {
            None => node_lines(child) == node_lines(cs[i as int]).insert(k, x),
            Some(n) => {
                &&& node_wf(n)
                &&& node_lines(child).len() > 0
                &&& node_lines(n).len() > 0
                &&& node_lines(child) + node_lines(n) == node_lines(cs[i as int]).insert(k, x)
            },
        },
    ensures
        1 <= final(children)@.len() <= MAX_CAPACITY,
        children_ok(final(children)@, final(line_counts)@),
        res is Ok <==> r is Ok,
        res is Err ==> seq_lines(final(children)@) == seq_lines(cs),
        res matches Ok(split) ==> match split {
            None => seq_lines(final(children)@) == seq_lines(cs).insert(seq_lines(cs.take(i as int)).len() + k, x),
            Some(n) => {
                &&& node_wf(n)
                &&& seq_lines(final(children)@).len() > 0
                &&& node_lines(n).len() > 0
                &&& seq_lines(final(children)@) + node_lines(n) == seq_lines(cs).insert(
                    seq_lines(cs.take(i as int)).len() + k,
                    x,
                )
            },
        },
{
    let ghost ct = line_counts@;
    proof {
        lemma_seq_lines_at(cs, i as int);
        assert(ct[i as int] == node_lines(cs[i as int]).len());
        lemma_insert_mid(seq_lines(cs.take(i as int)), node_lines(cs[i as int]), seq_lines(cs.skip(i as int + 1)), k, x);
    }
    match r {
        Err(e) => {
            children.insert(i, child);
            proof {
                lemma_replace_child(cs, ct, i as int, child, ct[i as int]);
                assert(children@ =~= cs.update(i as int, child));
                assert(ct.update(i as int, ct[i as int]) =~= ct);
            }
            Err(e)
        },
        Ok(None) => {
            children.insert(i, child);
            line_counts.set(i, line_counts[i] + 1);
            proof {
                lemma_replace_child(cs, ct, i as int, child, line_counts@[i as int]);
                assert(children@ =~= cs.update(i as int, child));
            }
            Ok(None)
        },
        Ok(Some(new_child)) => {
            proof {
                assert((node_lines(child) + node_lines(new_child)).len() == ct[i as int] + 1);
            }
            let child_count = child.line_count();
            let new_count = new_child.line_count();
            let ghost a = child;
            let ghost b = new_child;
            children.insert(i, child);
            line_counts.set(i, child_count);
            children.insert(i + 1, new_child);
            line_counts.insert(i + 1, new_count);
            proof {
                lemma_split_child(cs, ct, i as int, a, child_count, b, new_count);
                assert(children@ =~= cs.update(i as int, a).insert(i as int + 1, b));
                assert(line_counts@ =~= ct.update(i as int, child_count).insert(i as int + 1, new_count));
                assert(seq_lines(cs.take(i as int)) + node_lines(a) + node_lines(b) + seq_lines(cs.skip(i as int + 1))
                    == seq_lines(cs.take(i as int)) + (node_lines(a) + node_lines(b)) + seq_lines(cs.skip(i as int + 1)));
            }
            if children.len() > MAX_CAPACITY {
                let mid = children.len() / 2;
                let ghost all = children@;
                let ghost allc = line_counts@;
                let new_children = children.split_off(mid);
                let new_counts = line_counts.split_off(mid);
                proof {
                    lemma_halves(all, allc, mid as int);
                    assert(children@ =~= all.take(mid as int));
                    assert(new_children@ =~= all.skip(mid as int));
                    assert(line_counts@ =~= allc.take(mid as int));
                    assert(new_counts@ =~= allc.skip(mid as int));
                    lemma_internal_wf(new_children, new_counts);
                }
                Ok(Some(Node::Internal { children: new_children, line_counts: new_counts }))
            } else {
                Ok(None)
            }
        },
    }
}

impl Node {
    /// Inserts `text` so that it becomes line `lnum` (counted from 1); fails,
    /// changing nothing, unless `1 <= lnum <= line_count + 1`. Where the node
    /// grows past its capacity it splits: it keeps the first half of the
    /// lines and hands back a new node holding the rest.
    pub fn insert_line(&mut self, lnum: usize, text: &str) -> (r: Result<Option<Node>, &'static str>)
        requires
            node_wf(*old(self)),
            node_lines(*old(self)).len() < usize::MAX,
            *old(self) is Internal ==> node_lines(*old(self)).len() > 0,
        ensures
            node_wf(*final(self)),
            *final(self) is Internal ==> node_lines(*final(self)).len() > 0,
            r is Ok <==> 1 <= lnum && lnum <= node_lines(*old(self)).len() as int + 1,
            r is Err ==> node_lines(*final(self)) == node_lines(*old(self)),
            r matches Ok(split) ==> match split {
                None => node_lines(*final(self)) == node_lines(*old(self)).insert(lnum - 1, text@),
                Some(n) => {
                    &&& node_wf(n)
                    &&& node_lines(*final(self)).len() > 0
                    &&& node_lines(n).len() > 0
                    &&& node_lines(*final(self)) + node_lines(n) == node_lines(*old(self)).insert(
                        lnum - 1,
                        text@,
                    )
                },
            },
        decreases *old(self),
    {
        let ghost orig: Node = *self;
        let node = Node::take(self);
        match node {
            Node::Leaf(mut lines) => {
                assert(node_lines(orig).len() == lines@.len());
                let r = leaf_insert(&mut lines, lnum, text);
                *self = Node::Leaf(lines);
                r
            },
            Node::Internal { mut children, mut line_counts } => {
                let ghost cs = children@;
                let ghost ct = line_counts@;
                proof {
                    lemma_internal_wf(children, line_counts);
                    lemma_total(cs, ct);
                    if ct.len() == 0 {
                        assert(sum_counts(ct) == 0);
                    }
                }
                match find_child(&line_counts, lnum, true) {
                    None => {
                        *self = Node::Internal { children, line_counts };
                        Err("Invalid line number")
                    },
                    Some((i, remaining)) => {
                        proof {
                            lemma_locate(cs, ct, i as int);
                        }
                        let nchildren = children.len();
                        let mut child = children.remove(i);
                        assert(child == cs[i as int]);
                        assert(decreases_to!(orig => cs[i as int]));
                        assert(ct[i as int] > 0);
                        let r = child.insert_line(remaining, text);
                        let ghost k: int = remaining - 1;
                        let res = attach_child(&mut children, &mut line_counts, i, child, r, Ghost(cs), Ghost(if r is Ok { k } else { 0 }), Ghost(text@));
                        proof {
                            lemma_internal_wf(children, line_counts);
                        }
                        *self = Node::Internal { children, line_counts };
                        res
                    },
                }
            },
        }
    }
}

impl Node {
    /// Removes line `lnum` (counted from 1); fails, changing nothing, where
    /// there is no such line. Answers whether the node is left empty.
    pub fn delete_line(&mut self, lnum: usize) -> (r: Result<bool, &'static str>)
        requires
            node_wf(*old(self)),
            node_lines(*old(self)).len() <= usize::MAX,
        ensures
            r is Ok <==> 1 <= lnum && lnum <= node_lines(*old(self)).len(),
            r is Err ==> node_lines(*final(self)) == node_lines(*old(self)) && node_wf(*final(self)),
            (*final(self) is Internal) == (*old(self) is Internal),
            r matches Ok(empty) ==> {
                &&& node_lines(*final(self)) == node_lines(*old(self)).remove(lnum - 1)
                &&& (empty <==> node_lines(*final(self)).len() == 0)
                &&& node_wf(*final(self))
            },
        decreases *old(self),
    {
        let ghost orig: Node = *self;
        let node = Node::take(self);
        match node {
            Node::Leaf(mut lines) => {
                if lnum == 0 || lnum > lines.len() {
                    *self = Node::Leaf(lines);
                    return Err("Invalid line number");
                }
                let ghost before = lines@;
                lines.remove(lnum - 1);
                assert(lines@.map_values(|s: String| s@) =~= before.map_values(|s: String| s@).remove(lnum - 1));
                let empty = lines.len() == 0;
                *self = Node::Leaf(lines);
                Ok(empty)
            },
            Node::Internal { mut children, mut line_counts } => {
                let ghost cs = children@;
                let ghost ct = line_counts@;
                proof {
                    lemma_internal_wf(children, line_counts);
                    lemma_total(cs, ct);
                }
                if line_counts.len() == 0 {
                    proof {
                        assert(sum_counts(ct) == 0);
                    }
                    *self = Node::Internal { children, line_counts };
                    return Err("Invalid line number");
                }
                match find_child(&line_counts, lnum, false) {
                    None => {
                        *self = Node::Internal { children, line_counts };
                        Err("Invalid line number")
                    },
                    Some((i, remaining)) => {
                        proof {
                            lemma_locate(cs, ct, i as int);
                            assert(ct[i as int] == node_lines(cs[i as int]).len());
                        }
                        let mut child = children.remove(i);
                        assert(child == cs[i as int]);
                        assert(decreases_to!(orig => cs[i as int]));
                        let r = child.delete_line(remaining);
                        match r {
                            Err(e) => {
                                children.insert(i, child);
                                proof {
                                    lemma_replace_child(cs, ct, i as int, child, ct[i as int]);
                                    assert(children@ =~= cs.update(i as int, child));
                                    assert(ct.update(i as int, ct[i as int]) =~= ct);
                                    lemma_internal_wf(children, line_counts);
                                }
                                *self = Node::Internal { children, line_counts };
                                Err(e)
                            },
                            Ok(true) => {
                                line_counts.remove(i);
                                proof {
                                    let ncs = cs.update(i as int, child);
                                    assert forall|j: int| 0 <= j < ncs.len() && j != i implies {
                                        &&& #[trigger] ct[j] == node_lines(ncs[j]).len()
                                        &&& ct[j] > 0
                                        &&& node_wf(ncs[j])
                                    } by {
                                        assert(ncs[j] == cs[j]);
                                    }
                                    lemma_seq_lines_at(ncs, i as int);
                                    assert(ncs.take(i as int) =~= cs.take(i as int));
                                    assert(ncs.skip(i as int + 1) =~= cs.skip(i as int + 1));
                                    assert(children@ =~= ncs.remove(i as int));
                                    assert(line_counts@ =~= ct.remove(i as int));
                                    let rcs = ncs.remove(i as int);
                                    let rct = ct.remove(i as int);
                                    assert(rcs =~= ncs.take(i as int) + ncs.skip(i as int + 1));
                                    lemma_seq_lines_append(ncs.take(i as int), ncs.skip(i as int + 1));
                                    assert forall|j: int| 0 <= j < rcs.len() implies {
                                        &&& #[trigger] rct[j] == node_lines(rcs[j]).len()
                                        &&& rct[j] > 0
                                        &&& node_wf(rcs[j])
                                    } by {
                                        if j < i {
                                            assert(rcs[j] == cs[j]);
                                            assert(rct[j] == ct[j]);
                                        } else {
                                            assert(rcs[j] == cs[j + 1]);
                                            assert(rct[j] == ct[j + 1]);
                                        }
                                    }
                                    assert(seq_lines(children@) =~= seq_lines(cs).remove(lnum - 1));
                                    if children@.len() >= 1 {
                                        lemma_internal_nonempty(children@, line_counts@);
                                        lemma_internal_wf(children, line_counts);
                                    } else {
                                        assert(seq_lines(children@) =~= Seq::<Seq<char>>::empty());
                                    }
                                }
                                let empty = children.len() == 0;
                                *self = Node::Internal { children, line_counts };
                                Ok(empty)
                            },
                            Ok(false) => {
                                children.insert(i, child);
                                line_counts.set(i, line_counts[i] - 1);
                                proof {
                                    lemma_replace_child(cs, ct, i as int, child, line_counts@[i as int]);
                                    assert(children@ =~= cs.update(i as int, child));
                                    lemma_internal_wf(children, line_counts);
                                    assert(seq_lines(children@) =~= seq_lines(cs).remove(lnum - 1));
                                    lemma_internal_nonempty(children@, line_counts@);
                                }
                                *self = Node::Internal { children, line_counts };
                                Ok(false)
                            },
                        }
                    },
                }
            },
        }
    }

    /// Replaces line `lnum` (counted from 1) with `text`; the same as
    /// `set_line`.
    pub fn replace_line(&mut self, lnum: usize, text: &str) -> (r: Result<(), &'static str>)
        requires
            node_wf(*old(self)),
        ensures
            node_wf(*final(self)),
            r is Ok <==> 1 <= lnum <= node_lines(*old(self)).len(),
            r is Ok ==> node_lines(*final(self)) == node_lines(*old(self)).update(lnum - 1, text@),
            r is Err ==> node_lines(*final(self)) == node_lines(*old(self)),
            (*final(self) is Internal) == (*old(self) is Internal),
    {
        self.set_line(lnum, text)
    }
}

/// The lines of a text, held in a tree of nodes so that an edit touches
/// few of them.
pub struct MemLine {
    root: Node,
}

impl View for MemLine {
    type V = Seq<Seq<char>>;

    closed spec fn view(&self) -> Seq<Seq<char>> {
        node_lines(self.root)
    }
}

impl MemLine {
    /// Well-formedness: the tree is well-formed and its line count fits in
    /// a `usize`.
    pub closed spec fn wf(&self) -> bool {
        &&& node_wf(self.root)
        &&& node_lines(self.root).len() <= usize::MAX
        &&& self.root is Internal ==> node_lines(self.root).len() > 0
    }

    /// An empty text.
    pub fn new() -> (m: MemLine)
        ensures
            m.wf(),
            m@ == Seq::<Seq<char>>::empty(),
    {
        MemLine { root: Node::new_leaf() }
    }

    /// The number of lines.
    pub fn line_count(&self) -> (r: usize)
        requires
            self.wf(),
        ensures
            r == self@.len(),
    {
        self.root.line_count()
    }

    /// Line `lnum` (counted from 1), if there is one.
    pub fn get_line(&self, lnum: usize) -> (r: Option<&str>)
        requires
            self.wf(),
        ensures
            r is Some <==> 1 <= lnum <= self@.len(),
            r matches Some(s) ==> s@ == self@[lnum - 1],
    {
        self.root.get_line(lnum)
    }

    /// Appends `text` as a new last line.
    pub fn append_line(&mut self, text: &str)
        requires
            old(self).wf(),
            old(self)@.len() < usize::MAX,
        ensures
            final(self).wf(),
            final(self)@ == old(self)@.push(text@),
    {
        let count = self.line_count();
        let r = self.insert_line(count + 1, text);
        assert(old(self)@.insert(count as int, text@) =~= old(self)@.push(text@));
    }

    /// Inserts `text` so that it becomes line `lnum` (counted from 1); fails,
    /// changing nothing, unless `1 <= lnum <= line_count + 1`.
    pub fn insert_line(&mut self, lnum: usize, text: &str) -> (r: Result<(), &'static str>)
        requires
            old(self).wf(),
            old(self)@.len() < usize::MAX,
        ensures
            final(self).wf(),
            r is Ok <==> 1 <= lnum && lnum <= old(self)@.len() as int + 1,
            r is Ok ==> final(self)@ == old(self)@.insert(lnum - 1, text@),
            r is Err ==> final(self)@ == old(self)@,
    {
        let r = self.root.insert_line(lnum, text);
        match r {
            Err(e) => Err(e),
            Ok(None) => Ok(()),
            Ok(Some(new_node)) => {
                assert((node_lines(self.root) + node_lines(new_node)).len() == old(self)@.len() + 1);
                let old_root = Node::take(&mut self.root);
                let c1_count = old_root.line_count();
                let c2_count = new_node.line_count();
                let ghost a = old_root;
                let ghost b = new_node;
                let mut children = Vec::new();
                children.push(old_root);
                children.push(new_node);
                let mut line_counts = Vec::new();
                line_counts.push(c1_count);
                line_counts.push(c2_count);
                proof {
                    assert(children@ =~= seq![a] + seq![b]);
                    lemma_seq_lines_append(seq![a], seq![b]);
                    lemma_seq_lines_single(a);
                    lemma_seq_lines_single(b);
                    assert(children_ok(children@, line_counts@)) by {
                        assert forall|j: int| 0 <= j < children@.len() implies {
                            &&& #[trigger] line_counts@[j] == node_lines(children@[j]).len()
                            &&& line_counts@[j] > 0
                            &&& node_wf(children@[j])
                        } by {
                            if j == 0 {
                                assert(children@[j] == a);
                            } else {
                                assert(children@[j] == b);
                            }
                        }
                    }
                    lemma_internal_wf(children, line_counts);
                }
                self.root = Node::Internal { children, line_counts };
                Ok(())
            },
        }
    }

    /// Removes line `lnum` (counted from 1); fails, changing nothing, where
    /// there is no such line.
    pub fn delete_line(&mut self, lnum: usize) -> (r: Result<(), &'static str>)
        requires
            old(self).wf(),
        ensures
            final(self).wf(),
            r is Ok <==> 1 <= lnum && lnum <= old(self)@.len(),
            r is Ok ==> final(self)@ == old(self)@.remove(lnum - 1),
            r is Err ==> final(self)@ == old(self)@,
    {
        let r = self.root.delete_line(lnum);
        match r {
            Err(e) => Err(e),
            Ok(true) => {
                self.root = Node::new_leaf();
                Ok(())
            },
            Ok(false) => {
                let root = Node::take(&mut self.root);
                match root {
                    Node::Internal { mut children, line_counts } => {
                        if children.len() == 1 {
                            let ghost cs = children@;
                            let child = children.pop().unwrap();
                            proof {
                                lemma_internal_wf(children, line_counts);
                                assert(cs[0] == child);
                                assert(line_counts@[0] == node_lines(cs[0]).len());
                                assert(cs =~= seq![child]);
                                lemma_seq_lines_single(child);
                            }
                            self.root = child;
                        } else {
                            self.root = Node::Internal { children, line_counts };
                        }
                    },
                    Node::Leaf(lines) => {
                        self.root = Node::Leaf(lines);
                    },
                }
                Ok(())
            },
        }
    }

    /// Replaces line `lnum` (counted from 1) with `text`; fails, changing
    /// nothing, where there is no such line.
    pub fn replace_line(&mut self, lnum: usize, text: &str) -> (r: Result<(), &'static str>)
        requires
            old(self).wf(),
        ensures
            final(self).wf(),
            r is Ok <==> 1 <= lnum <= old(self)@.len(),
            r is Ok ==> final(self)@ == old(self)@.update(lnum - 1, text@),
            r is Err ==> final(self)@ == old(self)@,
    {
        self.root.replace_line(lnum, text)
    }
}

/// Deleting a line just inserted gives back the lines before; so does
/// replacing a line with its own text.
pub proof fn law_insert_then_delete(lines: Seq<Seq<char>>, lnum: int, text: Seq<char>)
    requires
        1 <= lnum <= lines.len() + 1,
    ensures
        lines.insert(lnum - 1, text).remove(lnum - 1) == lines,
        lnum <= lines.len() ==> lines.update(lnum - 1, lines[lnum - 1]) == lines,
{
    assert(lines.insert(lnum - 1, text).remove(lnum - 1) =~= lines);
    if lnum <= lines.len() {
        assert(lines.update(lnum - 1, lines[lnum - 1]) =~= lines);
    }
}

/// Appending keeps every line and adds the new one last: after
/// `append_line(text)` on lines `s`, line `s.len() + 1` is `text` and each
/// line `i <= s.len()` is what it was.
pub proof fn law_append_then_get(s: Seq<Seq<char>>, text: Seq<char>, i: int)
    requires
        1 <= i <= s.len() + 1,
    ensures
        s.push(text).len() == s.len() + 1,
        i <= s.len() ==> s.push(text)[i - 1] == s[i - 1],
        i == s.len() + 1 ==> s.push(text)[i - 1] == text,
{
}

} // verus!
