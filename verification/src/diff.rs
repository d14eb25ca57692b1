use vstd::prelude::*;

verus! {

/// One line of a line diff: kept, added, or deleted.
#[derive(Debug, PartialEq)]
pub enum DiffChange {
    Equal(String),
    Add(String),
    Delete(String),
}

/// The value of a [`DiffChange`]: the line as a character sequence.
pub enum DiffChangeView {
    Equal(Seq<char>),
    Add(Seq<char>),
    Delete(Seq<char>),
}

pub open spec fn equal_change(s: Seq<char>) -> DiffChangeView {
    DiffChangeView::Equal(s)
}

pub open spec fn add_change(s: Seq<char>) -> DiffChangeView {
    DiffChangeView::Add(s)
}

pub open spec fn delete_change(s: Seq<char>) -> DiffChangeView {
    DiffChangeView::Delete(s)
}

/// The value of a change.
pub open spec fn change_view(c: DiffChange) -> DiffChangeView {
    match c {
        DiffChange::Equal(s) => equal_change(s@),
        DiffChange::Add(s) => add_change(s@),
        DiffChange::Delete(s) => delete_change(s@),
    }
}

/// The values of a sequence of changes.
pub open spec fn changes_view(v: Seq<DiffChange>) -> Seq<DiffChangeView> {
    Seq::new(v.len(), |k: int| change_view(v[k]))
}

/// The lines of a slice of strings.
pub open spec fn lines_view(v: Seq<String>) -> Seq<Seq<char>> {
    Seq::new(v.len(), |k: int| v[k]@)
}

/// The length of a longest common subsequence of `a[..i]` and `b[..j]`.
pub open spec fn lcs(a: Seq<Seq<char>>, b: Seq<Seq<char>>, i: int, j: int) -> nat
    decreases i, j,
{
    if i <= 0 || j <= 0 {
        0
    } else if a[i - 1] == b[j - 1] {
        lcs(a, b, i - 1, j - 1) + 1
    } else {
        let x = lcs(a, b, i - 1, j);
        let y = lcs(a, b, i, j - 1);
        if x >= y {
            x
        } else {
            y
        }
    }
}

/// The edit script that the longest-common-subsequence table gives for
/// `a[..i]` and `b[..j]`, read back from `(i, j)`: a common last line is
/// kept; otherwise an added line is preferred where that keeps as long a
/// common subsequence, else a deleted one.
pub open spec fn diff_script(a: Seq<Seq<char>>, b: Seq<Seq<char>>, i: nat, j: nat) -> Seq<DiffChangeView>
    decreases i + j,
{
    if i == 0 && j == 0 {
        Seq::empty()
    } else if i > 0 && j > 0 && a[i - 1] == b[j - 1] {
        diff_script(a, b, (i - 1) as nat, (j - 1) as nat).push(equal_change(a[i - 1]))
    } else if j > 0 && (i == 0 || lcs(a, b, i as int, j - 1) >= lcs(a, b, i - 1, j as int)) {
        diff_script(a, b, i, (j - 1) as nat).push(add_change(b[j - 1]))
    } else {
        diff_script(a, b, (i - 1) as nat, j).push(delete_change(a[i - 1]))
    }
}

/// The old text that a script describes: the kept and deleted lines.
pub open spec fn script_old(s: Seq<DiffChangeView>) -> Seq<Seq<char>>
    decreases s.len(),
{
    if s.len() == 0 {
        Seq::empty()
    } else {
        match s.last() {
            DiffChangeView::Equal(x) => script_old(s.drop_last()).push(x),
            DiffChangeView::Delete(x) => script_old(s.drop_last()).push(x),
            DiffChangeView::Add(_) => script_old(s.drop_last()),
        }
    }
}

/// The new text that a script describes: the kept and added lines.
pub open spec fn script_new(s: Seq<DiffChangeView>) -> Seq<Seq<char>>
    decreases s.len(),
{
    if s.len() == 0 {
        Seq::empty()
    } else {
        match s.last() {
            DiffChangeView::Equal(x) => script_new(s.drop_last()).push(x),
            DiffChangeView::Add(x) => script_new(s.drop_last()).push(x),
            DiffChangeView::Delete(_) => script_new(s.drop_last()),
        }
    }
}

/// The number of kept lines of a script.
pub open spec fn kept_count(s: Seq<DiffChangeView>) -> nat
    decreases s.len(),
{
    if s.len() == 0 {
        0
    } else {
        kept_count(s.drop_last()) + match s.last() {
            DiffChangeView::Equal(_) => 1nat,
            _ => 0nat,
        }
    }
}

proof fn lemma_lcs_bound(a: Seq<Seq<char>>, b: Seq<Seq<char>>, i: int, j: int)
    requires
        i >= 0,
        j >= 0,
    ensures
        lcs(a, b, i, j) <= i,
        lcs(a, b, i, j) <= j,
    decreases i, j,
{
    if i > 0 && j > 0 {
        if a[i - 1] == b[j - 1] {
            lemma_lcs_bound(a, b, i - 1, j - 1);
        } else {
            lemma_lcs_bound(a, b, i - 1, j);
            lemma_lcs_bound(a, b, i, j - 1);
        }
    }
}

/// The script read back from the table turns `a[..i]` into `b[..j]`, and
/// keeps exactly as many lines as a longest common subsequence has.
pub proof fn lemma_diff_script_correct(a: Seq<Seq<char>>, b: Seq<Seq<char>>, i: nat, j: nat)
    requires
        i <= a.len(),
        j <= b.len(),
    ensures
        script_old(diff_script(a, b, i, j)) == a.take(i as int),
        script_new(diff_script(a, b, i, j)) == b.take(j as int),
        kept_count(diff_script(a, b, i, j)) == lcs(a, b, i as int, j as int),
    decreases i + j,
{
    let s = diff_script(a, b, i, j);
    if i == 0 && j == 0 {
        assert(a.take(i as int) =~= Seq::<Seq<char>>::empty());
        assert(b.take(j as int) =~= Seq::<Seq<char>>::empty());
    } else if i > 0 && j > 0 && a[i - 1] == b[j - 1] {
        lemma_diff_script_correct(a, b, (i - 1) as nat, (j - 1) as nat);
        assert(s.drop_last() == diff_script(a, b, (i - 1) as nat, (j - 1) as nat));
        assert(a.take(i as int) =~= a.take(i - 1).push(a[i - 1]));
        assert(b.take(j as int) =~= b.take(j - 1).push(b[j - 1]));
    } else if j > 0 && (i == 0 || lcs(a, b, i as int, j - 1) >= lcs(a, b, i - 1, j as int)) {
        lemma_diff_script_correct(a, b, i, (j - 1) as nat);
        assert(s.drop_last() == diff_script(a, b, i, (j - 1) as nat));
        assert(b.take(j as int) =~= b.take(j - 1).push(b[j - 1]));
    } else {
        lemma_diff_script_correct(a, b, (i - 1) as nat, j);
        assert(s.drop_last() == diff_script(a, b, (i - 1) as nat, j));
        assert(a.take(i as int) =~= a.take(i - 1).push(a[i - 1]));
    }
}

/// The diff of two texts, the whole of each: it turns `old` into `new` and
/// keeps as many lines as a longest common subsequence of the two.
pub proof fn law_diff_turns_old_into_new(a: Seq<Seq<char>>, b: Seq<Seq<char>>)
    ensures
        script_old(diff_script(a, b, a.len(), b.len())) == a,
        script_new(diff_script(a, b, a.len(), b.len())) == b,
        kept_count(diff_script(a, b, a.len(), b.len())) == lcs(a, b, a.len() as int, b.len() as int),
{
    lemma_diff_script_correct(a, b, a.len(), b.len());
    assert(a.take(a.len() as int) =~= a);
    assert(b.take(b.len() as int) =~= b);
}

/// A copy of a string with the same value.
fn copy_string(s: &String) -> (r: String)
    ensures
        r@ == s@,
{
    s.clone()
}

/// Compares two texts line by line and lists the changes that turn `old`
/// into `new`: the script read back from the longest-common-subsequence
/// table.
pub fn compute_diff(old: &[String], new: &[String]) -> (r: Vec<DiffChange>)
    requires
        old@.len() < usize::MAX,
        new@.len() < usize::MAX,
    ensures
        changes_view(r@) == diff_script(lines_view(old@), lines_view(new@), old@.len(), new@.len()),
{
    let ghost a = lines_view(old@);
    let ghost b = lines_view(new@);
    let m = old.len();
    let n = new.len();
    // The table: dp[i][j] is the length of a longest common subsequence of
    // old[..i] and new[..j].
    let mut dp: Vec<Vec<usize>> = Vec::new();
    let mut i: usize = 0;
    while i <= m
        invariant
            m == old@.len(),
            n == new@.len(),
            m < usize::MAX,
            n < usize::MAX,
            a == lines_view(old@),
            b == lines_view(new@),
            i <= m + 1,
            dp@.len() == i,
            forall|x: int| 0 <= x < i ==> (#[trigger] dp@[x])@.len() == n + 1,
            forall|x: int, y: int| 0 <= x < i && 0 <= y <= n ==> #[trigger] dp@[x]@[y] == lcs(a, b, x, y),
        decreases m + 1 - i,
    {
        let mut row: Vec<usize> = Vec::new();
        let mut j: usize = 0;
        while j <= n
            invariant
                m == old@.len(),
                n == new@.len(),
                n < usize::MAX,
                a == lines_view(old@),
                b == lines_view(new@),
                i <= m,
                dp@.len() == i,
                forall|x: int| 0 <= x < i ==> (#[trigger] dp@[x])@.len() == n + 1,
                forall|x: int, y: int| 0 <= x < i && 0 <= y <= n ==> #[trigger] dp@[x]@[y] == lcs(a, b, x, y),
                j <= n + 1,
                row@.len() == j,
                forall|y: int| 0 <= y < j ==> #[trigger] row@[y] == lcs(a, b, i as int, y),
            decreases n + 1 - j,
        {
            if i == 0 || j == 0 {
                row.push(0);
            } else {
                proof {
                    lemma_lcs_bound(a, b, i - 1, j - 1);
                    assert(dp@[i - 1]@.len() == n + 1);
                }
                if old[i - 1] == new[j - 1] {
                    assert(a[i - 1] == old@[i - 1]@);
                    assert(b[j - 1] == new@[j - 1]@);
                    row.push(dp[i - 1][j - 1] + 1);
                } else {
                    assert(a[i - 1] == old@[i - 1]@);
                    assert(b[j - 1] == new@[j - 1]@);
                    let up = dp[i - 1][j];
                    let left = row[j - 1];
                    row.push(if up >= left { up } else { left });
                }
            }
            j += 1;
        }
        dp.push(row);
        i += 1;
    }
    // Read the script back from (m, n), last change first.
    let mut rev: Vec<DiffChange> = Vec::new();
    let mut i: usize = m;
    let mut j: usize = n;
    while i > 0 || j > 0
        invariant
            m == old@.len(),
            n == new@.len(),
            a == lines_view(old@),
            b == lines_view(new@),
            i <= m,
            j <= n,
            dp@.len() == m + 1,
            forall|x: int| 0 <= x <= m ==> (#[trigger] dp@[x])@.len() == n + 1,
            forall|x: int, y: int| 0 <= x <= m && 0 <= y <= n ==> #[trigger] dp@[x]@[y] == lcs(a, b, x, y),
            diff_script(a, b, i as nat, j as nat) + changes_view(rev@).reverse() == diff_script(a, b, m as nat, n as nat),
        decreases i + j,
    {
        let ghost before = rev@;
        let ghost pi = i as nat;
        let ghost pj = j as nat;
        if i > 0 && j > 0 && old[i - 1] == new[j - 1] {
            rev.push(DiffChange::Equal(copy_string(&old[i - 1])));
            i -= 1;
            j -= 1;
        } else if j > 0 && (i == 0 || dp[i][j - 1] >= dp[i - 1][j]) {
            rev.push(DiffChange::Add(copy_string(&new[j - 1])));
            j -= 1;
        } else {
            rev.push(DiffChange::Delete(copy_string(&old[i - 1])));
            i -= 1;
        }
        proof {
            let op = change_view(rev@.last());
            assert(changes_view(rev@) =~= changes_view(before).push(op));
            assert(changes_view(rev@).reverse() =~= seq![op] + changes_view(before).reverse());
            assert(diff_script(a, b, pi, pj) == diff_script(a, b, i as nat, j as nat).push(op));
            assert(diff_script(a, b, i as nat, j as nat) + changes_view(rev@).reverse()
                =~= diff_script(a, b, pi, pj) + changes_view(before).reverse());
        }
    }
    assert(diff_script(a, b, 0, 0) =~= Seq::<DiffChangeView>::empty());
    // Put the changes in order.
    let mut res: Vec<DiffChange> = Vec::new();
    let ghost rv = changes_view(rev@);
    while rev.len() > 0
        invariant
            changes_view(res@) + changes_view(rev@).reverse() == rv.reverse(),
        decreases rev@.len(),
    {
        let ghost before_rev = rev@;
        let ghost before_res = res@;
        let c = rev.pop().unwrap();
        res.push(c);
        proof {
            assert(before_rev =~= rev@.push(c));
            assert(changes_view(before_rev) =~= changes_view(rev@).push(change_view(c)));
            assert(changes_view(before_rev).reverse() =~= seq![change_view(c)] + changes_view(rev@).reverse());
            assert(changes_view(res@) =~= changes_view(before_res).push(change_view(c)));
            assert(changes_view(res@) + changes_view(rev@).reverse() =~= changes_view(before_res) + changes_view(before_rev).reverse());
        }
    }
    assert(changes_view(rev@).reverse() =~= Seq::<DiffChangeView>::empty());
    assert(changes_view(res@) =~= rv.reverse());
    res
}

} // verus!
