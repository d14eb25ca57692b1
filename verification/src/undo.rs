use vstd::prelude::*;

verus! {

/// `std::time::SystemTime`, carried through as an opaque value.
#[verifier::external_type_specification]
#[verifier::external_body]
pub struct ExSystemTime(std::time::SystemTime);

/// `SystemTime::now`: the current time. Nothing is stated of the value: it
/// depends on the clock.
#[verifier::external_body]
fn system_time_now() -> std::time::SystemTime {
    std::time::SystemTime::now()
}

/// A single atomic change to a buffer.
pub enum Action {
    InsertLine { lnum: usize, col: usize, text: String },
    DeleteLine { lnum: usize, col: usize, text: String },
    ReplaceLine { lnum: usize, col: usize, old_text: String, new_text: String },
    Group(Vec<Action>),
}

/// The mathematical value of an [`Action`]: texts as character sequences.
pub enum ActionView {
    InsertLine { lnum: usize, col: usize, text: Seq<char> },
    DeleteLine { lnum: usize, col: usize, text: Seq<char> },
    ReplaceLine { lnum: usize, col: usize, old_text: Seq<char>, new_text: Seq<char> },
    Group(Seq<ActionView>),
}

/// The value of an action.
pub open spec fn action_view(a: Action) -> ActionView
    decreases a,
{
    match a {
        Action::InsertLine { lnum, col, text } => ActionView::InsertLine { lnum, col, text: text@ },
        Action::DeleteLine { lnum, col, text } => ActionView::DeleteLine { lnum, col, text: text@ },
        Action::ReplaceLine { lnum, col, old_text, new_text } => ActionView::ReplaceLine {
            lnum,
            col,
            old_text: old_text@,
            new_text: new_text@,
        },
        Action::Group(v) => {
            proof {
                assert(decreases_to!(v => v@));
            }
            ActionView::Group(actions_view(v@))
        },
    }
}

/// The values of a sequence of actions.
pub open spec fn actions_view(s: Seq<Action>) -> Seq<ActionView>
    decreases s,
{
    if s.len() == 0 {
        Seq::empty()
    } else {
        actions_view(s.drop_last()).push(action_view(s.last()))
    }
}

impl View for Action {
    type V = ActionView;

    open spec fn view(&self) -> ActionView {
        action_view(*self)
    }
}

/// The value of an optional action.
pub open spec fn opt_action_view(a: Option<Action>) -> Option<ActionView> {
    match a {
        Some(x) => Some(action_view(x)),
        None => None,
    }
}

pub proof fn lemma_actions_view_len(s: Seq<Action>)
    ensures
        actions_view(s).len() == s.len(),
    decreases s.len(),
{
    if s.len() > 0 {
        lemma_actions_view_len(s.drop_last());
    }
}

pub proof fn lemma_actions_view_index(s: Seq<Action>, i: int)
    requires
        0 <= i < s.len(),
    ensures
        actions_view(s)[i] == action_view(s[i]),
    decreases s.len(),
{
    lemma_actions_view_len(s.drop_last());
    if i < s.len() - 1 {
        lemma_actions_view_index(s.drop_last(), i);
    }
}

/// Two sequences of actions with the same values element by element have
/// the same value.
proof fn lemma_actions_view_ext(a: Seq<Action>, b: Seq<Action>)
    requires
        a.len() == b.len(),
        forall|i: int| 0 <= i < a.len() ==> action_view(#[trigger] a[i]) == action_view(b[i]),
    ensures
        actions_view(a) == actions_view(b),
    decreases a.len(),
{
    if a.len() > 0 {
        lemma_actions_view_ext(a.drop_last(), b.drop_last());
    }
}

/// The value of a one-element sequence of actions.
pub proof fn lemma_actions_view_push(s: Seq<Action>, a: Action)
    ensures
        actions_view(s.push(a)) == actions_view(s).push(action_view(a)),
{
    assert(s.push(a).drop_last() =~= s);
}

/// A copy of an action with the same value.
pub fn copy_action(a: &Action) -> (r: Action)
    ensures
        r@ == a@,
    decreases a,
{
    match a {
        Action::InsertLine { lnum, col, text } => Action::InsertLine {
            lnum: *lnum,
            col: *col,
            text: text.clone(),
        },
        Action::DeleteLine { lnum, col, text } => Action::DeleteLine {
            lnum: *lnum,
            col: *col,
            text: text.clone(),
        },
        Action::ReplaceLine { lnum, col, old_text, new_text } => Action::ReplaceLine {
            lnum: *lnum,
            col: *col,
            old_text: old_text.clone(),
            new_text: new_text.clone(),
        },
        Action::Group(v) => {
            let mut out: Vec<Action> = Vec::new();
            let mut i: usize = 0;
            while i < v.len()
                invariant
                    i <= v@.len(),
                    actions_view(out@) == actions_view(v@.take(i as int)),
                    forall|j: int| 0 <= j < v@.len() ==> decreases_to!(*a => #[trigger] v@[j]),
                decreases v@.len() - i,
            {
                proof {
                    assert(decreases_to!(*a => v@[i as int]));
                }
                let c = copy_action(&v[i]);
                let ghost before = out@;
                out.push(c);
                proof {
                    lemma_actions_view_push(before, c);
                    lemma_actions_view_push(v@.take(i as int), v@[i as int]);
                    assert(v@.take(i as int + 1) =~= v@.take(i as int).push(v@[i as int]));
                }
                i += 1;
            }
            assert(v@.take(v@.len() as int) =~= v@);
            Action::Group(out)
        },
    }
}

fn copy_opt_action(a: &Option<Action>) -> (r: Option<Action>)
    ensures
        opt_action_view(r) == opt_action_view(*a),
{
    match a {
        Some(x) => Some(copy_action(x)),
        None => None,
    }
}

/// A state of the undo history: the change that led to it from its parent,
/// the parent, and the states reached from it.
pub struct UndoNode {
    pub action: Option<Action>,
    pub parent: Option<usize>,
    pub children: Vec<usize>,
    pub timestamp: std::time::SystemTime,
}

/// The undo history of a buffer, a tree of states with a current state.
/// Changes made while a group is open are collected and enter the tree as
/// one state when the outermost group closes.
pub struct UndoTree {
    pub nodes: Vec<UndoNode>,
    pub current_idx: usize,
    pub pending_group: Option<Vec<Action>>,
    pub group_depth: usize,
}

impl UndoTree {
    /// Well-formedness: there is a root with no parent and no change, every
    /// other state has an earlier state as parent, every child link points
    /// to a later state whose parent is the linking state, and the current
    /// state exists.
    pub open spec fn wf(&self) -> bool {
        &&& self.nodes@.len() >= 1
        &&& self.current_idx < self.nodes@.len()
        &&& self.nodes@[0].parent is None
        &&& forall|i: int|
            1 <= i < self.nodes@.len() ==> ((#[trigger] self.nodes@[i]).parent matches Some(p) && p < i)
        &&& forall|i: int, j: int|
            0 <= i < self.nodes@.len() && 0 <= j < self.nodes@[i].children@.len() ==> {
                let c = #[trigger] self.nodes@[i].children@[j];
                &&& i < c < self.nodes@.len()
                &&& self.nodes@[c as int].parent == Some(i as usize)
            }
    }

    /// The value of the change that led to state `i`.
    pub open spec fn action_at(&self, i: int) -> Option<ActionView> {
        opt_action_view(self.nodes@[i].action)
    }

    /// A history with only the root state.
    pub fn new() -> (t: UndoTree)
        ensures
            t.wf(),
            t.nodes@.len() == 1,
            t.nodes@[0].action is None,
            t.nodes@[0].children@.len() == 0,
            t.current_idx == 0,
            t.pending_group is None,
            t.group_depth == 0,
    {
        let root = UndoNode {
            action: None,
            parent: None,
            children: Vec::new(),
            timestamp: system_time_now(),
        };
        let mut nodes = Vec::new();
        nodes.push(root);
        UndoTree { nodes, current_idx: 0, pending_group: None, group_depth: 0 }
    }

    /// Adds a state reached from the current one by `action`, and makes it
    /// current.
    fn add_state(&mut self, action: Action)
        requires
            old(self).wf(),
            old(self).nodes@.len() < usize::MAX,
        ensures
            final(self).wf(),
            final(self).nodes@.len() == old(self).nodes@.len() + 1,
            final(self).current_idx == old(self).nodes@.len(),
            final(self).nodes@[final(self).current_idx as int].parent == Some(old(self).current_idx),
            final(self).nodes@[final(self).current_idx as int].action == Some(action),
            final(self).nodes@[final(self).current_idx as int].children@.len() == 0,
            final(self).nodes@[old(self).current_idx as int].children@
                == old(self).nodes@[old(self).current_idx as int].children@.push(final(self).current_idx),
            forall|i: int|
                0 <= i < old(self).nodes@.len() && i != old(self).current_idx
                    ==> #[trigger] final(self).nodes@[i] == old(self).nodes@[i],
            forall|i: int|
                0 <= i < old(self).nodes@.len() ==> (#[trigger] final(self).nodes@[i]).action
                    == old(self).nodes@[i].action && final(self).nodes@[i].parent
                    == old(self).nodes@[i].parent,
            final(self).pending_group == old(self).pending_group,
            final(self).group_depth == old(self).group_depth,
    {
        let new_idx = self.nodes.len();
        let cur = self.current_idx;
        let new_node = UndoNode {
            action: Some(action),
            parent: Some(cur),
            children: Vec::new(),
            timestamp: system_time_now(),
        };
        self.nodes.push(new_node);
        self.nodes[cur].children.push(new_idx);
        self.current_idx = new_idx;
        proof {
            let n = self.nodes@;
            let o = old(self).nodes@;
            assert forall|i: int|
                1 <= i < n.len() implies ((#[trigger] n[i]).parent matches Some(p) && p < i) by {
                if i < o.len() {
                    assert(n[i].parent == o[i].parent);
                }
            }
            assert forall|i: int, j: int|
                0 <= i < n.len() && 0 <= j < n[i].children@.len() implies {
                let c = #[trigger] n[i].children@[j];
                &&& i < c < n.len()
                &&& n[c as int].parent == Some(i as usize)
            } by {
                if i == cur {
                    if j < o[i].children@.len() {
                        assert(n[i].children@[j] == o[i].children@[j]);
                    }
                } else if i < o.len() {
                    assert(n[i].children@[j] == o[i].children@[j]);
                }
            }
        }
    }

    /// Opens a group: changes are collected until the outermost group
    /// closes.
    pub fn start_group(&mut self)
        requires
            old(self).group_depth < usize::MAX,
        ensures
            final(self).nodes == old(self).nodes,
            final(self).current_idx == old(self).current_idx,
            final(self).group_depth == old(self).group_depth + 1,
            old(self).group_depth == 0 && old(self).pending_group is None
                ==> (final(self).pending_group matches Some(g) && g@.len() == 0),
            !(old(self).group_depth == 0 && old(self).pending_group is None) ==> final(self).pending_group
                == old(self).pending_group,
    {
        if self.group_depth == 0 && self.pending_group.is_none() {
            self.pending_group = Some(Vec::new());
        }
        self.group_depth += 1;
    }

    /// The state that undo moves to from the current one: its parent, or
    /// the root itself.
    pub open spec fn undo_target(&self) -> usize {
        if self.current_idx == 0 {
            0
        } else {
            match self.nodes@[self.current_idx as int].parent {
                Some(p) => p,
                None => self.current_idx,
            }
        }
    }

    /// The change that undo reverts from the current state, if any.
    pub open spec fn undo_action(&self) -> Option<ActionView> {
        if self.current_idx == 0 {
            None
        } else {
            self.action_at(self.current_idx as int)
        }
    }

    /// The state that redo moves to: the newest state reached from the
    /// current one, if any.
    pub open spec fn redo_target(&self) -> Option<usize> {
        let ch = self.nodes@[self.current_idx as int].children@;
        if ch.len() == 0 {
            None
        } else {
            Some(ch.last())
        }
    }

    /// Records a change: into the open group if there is one, else as a new
    /// current state.
    pub fn push(&mut self, action: Action)
        requires
            old(self).wf(),
            old(self).nodes@.len() < usize::MAX,
        ensures
            final(self).wf(),
            final(self).group_depth == old(self).group_depth,
            old(self).pending_group matches Some(g) ==> {
                &&& final(self).pending_group matches Some(g2) && g2@ == g@.push(action)
                &&& final(self).nodes == old(self).nodes
                &&& final(self).current_idx == old(self).current_idx
            },
            old(self).pending_group is None ==> {
                &&& final(self).pending_group is None
                &&& final(self).nodes@.len() == old(self).nodes@.len() + 1
                &&& final(self).current_idx == old(self).nodes@.len()
                &&& final(self).nodes@[final(self).current_idx as int].action == Some(action)
                &&& final(self).nodes@[final(self).current_idx as int].parent == Some(old(self).current_idx)
                &&& final(self).nodes@[final(self).current_idx as int].children@.len() == 0
                &&& final(self).nodes@[old(self).current_idx as int].children@
                    == old(self).nodes@[old(self).current_idx as int].children@.push(final(self).current_idx)
            },
    {
        match self.pending_group.take() {
            Some(mut group) => {
                group.push(action);
                self.pending_group = Some(group);
            },
            None => {
                self.add_state(action);
            },
        }
    }

    /// Closes the collected group, where no group is open any more: a
    /// non-empty collection enters the history as one new current state (a
    /// single change as itself, several as a group).
    pub fn close_atom(&mut self)
        requires
            old(self).wf(),
            old(self).nodes@.len() < usize::MAX,
        ensures
            final(self).wf(),
            final(self).group_depth == old(self).group_depth,
            old(self).group_depth > 0 || old(self).pending_group is None ==> *final(self) == *old(self),
            old(self).group_depth == 0 && old(self).pending_group is Some ==> closed_group(
                *old(self),
                *final(self),
                old(self).pending_group->0@,
            ),
    {
        if self.group_depth > 0 {
            return;
        }
        match self.pending_group.take() {
            None => {},
            Some(actions) => {
                if actions.len() == 0 {
                    return;
                }
                let action = if actions.len() == 1 {
                    copy_action(&actions[0])
                } else {
                    Action::Group(actions)
                };
                self.add_state(action);
            },
        }
    }

    /// Closes a group; closing the outermost one closes the collection.
    pub fn end_group(&mut self)
        requires
            old(self).wf(),
            old(self).nodes@.len() < usize::MAX,
        ensures
            final(self).wf(),
            old(self).group_depth == 0 ==> *final(self) == *old(self),
            old(self).group_depth > 1 ==> final(self).group_depth == old(self).group_depth - 1
                && final(self).nodes == old(self).nodes && final(self).current_idx == old(self).current_idx
                && final(self).pending_group == old(self).pending_group,
            old(self).group_depth == 1 ==> final(self).group_depth == 0,
            old(self).group_depth == 1 && old(self).pending_group is Some ==> closed_group(
                *old(self),
                *final(self),
                old(self).pending_group->0@,
            ),
            old(self).group_depth == 1 && old(self).pending_group is None ==> *final(self) == (UndoTree {
                group_depth: 0,
                ..*old(self)
            }),
    {
        if self.group_depth > 0 {
            self.group_depth -= 1;
            if self.group_depth == 0 {
                self.close_atom();
            }
        }
    }

    /// Moves to the parent of the current state and hands back the change
    /// that led to the current state; closes a collected group first. At
    /// the root there is nothing to undo.
    pub fn pop_undo(&mut self) -> (r: Option<Action>)
        requires
            old(self).wf(),
            old(self).nodes@.len() < usize::MAX,
        ensures
            final(self).wf(),
            final(self).group_depth == old(self).group_depth,
            !(old(self).pending_group is Some && old(self).group_depth == 0) ==> {
                &&& opt_action_view(r) == old(self).undo_action()
                &&& final(self).current_idx == old(self).undo_target()
                &&& final(self).nodes == old(self).nodes
                &&& final(self).pending_group == old(self).pending_group
            },
            old(self).group_depth == 0 && old(self).pending_group is Some ==> {
                let g = old(self).pending_group->0@;
                &&& final(self).pending_group is None
                &&& g.len() == 0 ==> opt_action_view(r) == old(self).undo_action()
                    && final(self).current_idx == old(self).undo_target()
                    && final(self).nodes == old(self).nodes
                &&& g.len() > 0 ==> opt_action_view(r) == Some(group_action_view(g))
                    && final(self).current_idx == old(self).current_idx
                    && final(self).nodes@.len() == old(self).nodes@.len() + 1
            },
    {
        if self.pending_group.is_some() {
            self.close_atom();
        }
        if self.current_idx == 0 {
            return None;
        }
        let cur = self.current_idx;
        let action = copy_opt_action(&self.nodes[cur].action);
        match self.nodes[cur].parent {
            Some(parent_idx) => {
                self.current_idx = parent_idx;
            },
            None => {},
        }
        action
    }

    /// Moves to the newest state reached from the current one and hands
    /// back the change that leads there; where there is none, nothing
    /// changes.
    pub fn pop_redo(&mut self) -> (r: Option<Action>)
        requires
            old(self).wf(),
        ensures
            final(self).wf(),
            final(self).nodes == old(self).nodes,
            final(self).pending_group == old(self).pending_group,
            final(self).group_depth == old(self).group_depth,
            match old(self).redo_target() {
                Some(c) => final(self).current_idx == c && opt_action_view(r) == old(self).action_at(c as int),
                None => r is None && final(self).current_idx == old(self).current_idx,
            },
    {
        let cur = self.current_idx;
        let n = self.nodes[cur].children.len();
        if n == 0 {
            return None;
        }
        let child_idx = self.nodes[cur].children[n - 1];
        self.current_idx = child_idx;
        copy_opt_action(&self.nodes[child_idx].action)
    }

    /// Steps back to the state created just before the current one, by
    /// creation order, and hands back the change that led to the current
    /// one.
    pub fn earlier(&mut self) -> (r: Option<Action>)
        requires
            old(self).wf(),
        ensures
            final(self).wf(),
            final(self).nodes == old(self).nodes,
            final(self).pending_group == old(self).pending_group,
            final(self).group_depth == old(self).group_depth,
            old(self).current_idx > 0 ==> final(self).current_idx == old(self).current_idx - 1
                && opt_action_view(r) == old(self).action_at(old(self).current_idx as int),
            old(self).current_idx == 0 ==> r is None && final(self).current_idx == 0,
    {
        if self.current_idx > 0 {
            self.current_idx -= 1;
            return copy_opt_action(&self.nodes[self.current_idx + 1].action);
        }
        None
    }
}

/// `after` is `before` with its collected group `g` closed: the collection
/// is gone, and a non-empty one is a new current state, a child of the old
/// current state.
pub open spec fn closed_group(before: UndoTree, after: UndoTree, g: Seq<Action>) -> bool {
    &&& after.pending_group is None
    &&& g.len() == 0 ==> after.nodes == before.nodes && after.current_idx == before.current_idx
    &&& g.len() > 0 ==> {
        &&& after.nodes@.len() == before.nodes@.len() + 1
        &&& after.current_idx == before.nodes@.len()
        &&& after.action_at(after.current_idx as int) == Some(group_action_view(g))
        &&& after.nodes@[after.current_idx as int].parent == Some(before.current_idx)
        &&& after.nodes@[after.current_idx as int].children@.len() == 0
        &&& after.nodes@[before.current_idx as int].children@ == before.nodes@[before.current_idx as int].children@.push(
            after.current_idx,
        )
        &&& forall|i: int|
            0 <= i < before.nodes@.len() ==> (#[trigger] after.nodes@[i]).action == before.nodes@[i].action
                && after.nodes@[i].parent == before.nodes@[i].parent
    }
}

/// The value of a closed group: a single change stands for itself, several
/// form a group.
pub open spec fn group_action_view(g: Seq<Action>) -> ActionView {
    if g.len() == 1 {
        action_view(g[0])
    } else {
        ActionView::Group(actions_view(g))
    }
}

/// Undo then redo come back: where the current state is the newest one
/// reached from its parent (as every state is right after it is recorded),
/// redo after undo returns to it and hands back the change that undo
/// handed back.
pub proof fn law_undo_then_redo(t: UndoTree)
    requires
        t.wf(),
        t.current_idx != 0,
        t.nodes@[t.undo_target() as int].children@.len() > 0,
        t.nodes@[t.undo_target() as int].children@.last() == t.current_idx,
    ensures
        (UndoTree { current_idx: t.undo_target(), ..t }).redo_target() == Some(t.current_idx),
        (UndoTree { current_idx: t.undo_target(), ..t }).action_at(t.current_idx as int)
            == t.undo_action(),
{
}

/// A state just recorded is the newest one reached from its parent.
pub proof fn law_recorded_state_is_newest(t: UndoTree)
    requires
        t.wf(),
        t.current_idx != 0,
        t.nodes@[t.undo_target() as int].children@.len() > 0,
        t.nodes@[t.undo_target() as int].children@.last() == t.current_idx,
    ensures
        t.nodes@[t.current_idx as int].parent == Some(t.undo_target()),
{
    let c = t.current_idx as int;
    assert(t.nodes@[c].parent matches Some(p) && p < c);
}

/// `after` is `before` after `push(action)` with no group collecting: a
/// new current state for the change, the newest child of the old one.
pub open spec fn pushed(before: UndoTree, after: UndoTree, action: Action) -> bool {
    &&& after.pending_group is None
    &&& after.nodes@.len() == before.nodes@.len() + 1
    &&& after.current_idx == before.nodes@.len()
    &&& after.nodes@[after.current_idx as int].action == Some(action)
    &&& after.nodes@[after.current_idx as int].parent == Some(before.current_idx)
    &&& after.nodes@[before.current_idx as int].children@ == before.nodes@[before.current_idx as int].children@.push(
        after.current_idx,
    )
}

/// Undo takes back what was just pushed and redo puts it back: after a
/// push with no group collecting, undo hands back the pushed change and
/// moves to the state the push started from, and redo from there hands
/// the same change back and returns to the new state.
pub proof fn law_push_then_undo_redo(before: UndoTree, after: UndoTree, action: Action)
    requires
        before.wf(),
        after.wf(),
        before.pending_group is None,
        pushed(before, after, action),
    ensures
        after.undo_action() == Some(action_view(action)),
        after.undo_target() == before.current_idx,
        (UndoTree { current_idx: after.undo_target(), ..after }).redo_target() == Some(after.current_idx),
        (UndoTree { current_idx: after.undo_target(), ..after }).action_at(after.current_idx as int)
            == Some(action_view(action)),
{
}

/// Closing a group that collected changes makes them one state: undo then
/// hands back the group's change (the one change itself where there is
/// only one) and moves to the state before the group, and redo from there
/// returns to the group's state.
pub proof fn law_closed_group_undo_redo(before: UndoTree, after: UndoTree, g: Seq<Action>)
    requires
        before.wf(),
        after.wf(),
        g.len() > 0,
        closed_group(before, after, g),
    ensures
        after.undo_action() == Some(group_action_view(g)),
        after.undo_target() == before.current_idx,
        (UndoTree { current_idx: after.undo_target(), ..after }).redo_target() == Some(after.current_idx),
{
}

} // verus!
