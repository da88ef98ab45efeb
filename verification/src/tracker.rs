//! The tracker: a table of nodes plus the open/close protocol.

use vstd::prelude::*;

use crate::node::Node;
use crate::node::NodeState;
use crate::node::advance_spec;
use crate::node::contains_id;
use crate::node::node_complete;
use crate::node::node_wf;
use crate::node::phase_rank;

verus! {

/// Owns every node ever discovered, addressed by position, and the stack of
/// currently open node ids (the path from the root occurrence down to the one
/// being sampled).
#[derive(Debug)]
pub struct EnumTracker {
    pub nodes: Vec<Node>,
    pub breadcrumbs: Vec<usize>,
}

/// Whether a discovery run is finished: no enum was ever opened (a type with
/// no enums is trivially fully covered), or the root node — the first one
/// ever created — counts as complete.
pub open spec fn coverage_done(t: EnumTracker) -> bool {
    t.nodes@.len() == 0 || node_complete(t.nodes@, 0)
}

/// Whether the table holds a node with this name.
pub open spec fn has_name(nodes: Seq<Node>, name: Seq<char>) -> bool {
    exists|i: int| 0 <= i < nodes.len() && (#[trigger] nodes[i]).name@ == name
}

/// The position of the node with this name; under [`EnumTracker::wf`] names
/// are distinct, so the position is unique.
pub open spec fn name_index(nodes: Seq<Node>, name: Seq<char>) -> int {
    choose|i: int| 0 <= i < nodes.len() && (#[trigger] nodes[i]).name@ == name
}

/// Both tables have the same length and agree everywhere but at `id`.
pub open spec fn only_changed(pre: Seq<Node>, post: Seq<Node>, id: int) -> bool {
    &&& post.len() == pre.len()
    &&& forall|j: int| 0 <= j < pre.len() && j != id ==> post[j] == #[trigger] pre[j]
}

/// `post` is `pre` after one advance step; everything but state and cursor is
/// kept.
pub open spec fn advanced(pre: Node, post: Node, variant_complete: bool) -> bool {
    &&& (post.state, post.index as int) == advance_spec(
        pre.state,
        pre.index as int,
        pre.max_index as int,
        variant_complete,
    )
    &&& post.name == pre.name
    &&& post.this == pre.this
    &&& post.max_index == pre.max_index
    &&& post.children == pre.children
    &&& post.recursive_variants == pre.recursive_variants
}

/// `post` is `pre` after the recursion guard struck: the cursor was forced
/// past the self-referential variant (with the usual phase promotion), a
/// self-loop child entry was recorded at that variant, and the variant was
/// marked recursive.
pub open spec fn force_marked(pre: Node, post: Node) -> bool {
    &&& (post.state, post.index as int) == advance_spec(
        pre.state,
        pre.index as int,
        pre.max_index as int,
        true,
    )
    &&& post.name == pre.name
    &&& post.this == pre.this
    &&& post.max_index == pre.max_index
    &&& post.children@ == pre.children@.update(pre.index as int, Some(pre.this))
    &&& post.recursive_variants@ == pre.recursive_variants@.push(pre.index)
}

/// A node freshly created for `name` at position `id` of the table.
pub open spec fn fresh_node(n: Node, name: Seq<char>, max_index: usize, id: int) -> bool {
    &&& n.name@ == name
    &&& n.this == id
    &&& n.index == 0
    &&& n.max_index == max_index
    &&& n.state == NodeState::Discovery
    &&& n.children@.len() == max_index + 1
    &&& forall|v: int| 0 <= v < n.children@.len() ==> #[trigger] n.children@[v] is None
    &&& n.recursive_variants@.len() == 0
}

/// `post` is `pre` with the child `child` registered under `pre`'s current
/// cursor.
pub open spec fn child_registered(pre: Node, post: Node, child: usize) -> bool {
    &&& post.name == pre.name
    &&& post.this == pre.this
    &&& post.index == pre.index
    &&& post.max_index == pre.max_index
    &&& post.state == pre.state
    &&& post.children@ == pre.children@.update(pre.index as int, Some(child))
    &&& post.recursive_variants == pre.recursive_variants
}

/// Whether a node discovered no nested enum under any variant.
pub open spec fn no_children(n: Node) -> bool {
    forall|v: int| 0 <= v < n.children@.len() ==> #[trigger] n.children@[v] is None
}

/// What one close does to the table when node `a` is the one being closed.
///
/// A node that already counts as complete, is still discovering, or has no
/// children advances outright. Otherwise (completion sweep with children) it
/// advances only where its current variant has no child or that child is
/// itself complete; an incomplete child leaves the cursor where it stands, so
/// further passes can finish the child first.
pub open spec fn close_step(pre: Seq<Node>, post: Seq<Node>, a: usize) -> bool {
    let n = pre[a as int];
    &&& only_changed(pre, post, a as int)
    &&& if node_complete(pre, a) || n.state == NodeState::Discovery || no_children(n) {
        advanced(n, post[a as int], false)
    } else if n.children@[n.index as int] is Some {
        let c = n.children@[n.index as int]->0;
        if node_complete(pre, c) {
            advanced(n, post[a as int], true)
        } else {
            post[a as int] == n
        }
    } else {
        advanced(n, post[a as int], false)
    }
}

/// What one open of (`name`, `max_index`) does to the tracker.
///
/// A known name resolves to its existing node; a new name appends a fresh
/// node and registers it as a child of the innermost open node (unless it is
/// the very first node, the root). When the resolved node is already on the
/// open path, the node is re-entering itself: the recursion guard
/// force-advances it past the self-referential variant and marks the variant,
/// once per variant. Either way the resolved id is pushed onto the open path.
pub open spec fn open_step(pre: EnumTracker, post: EnumTracker, name: Seq<char>, max_index: usize) -> bool {
    if has_name(pre.nodes@, name) {
        let id = name_index(pre.nodes@, name);
        let n = pre.nodes@[id];
        &&& post.breadcrumbs@ == pre.breadcrumbs@.push(id as usize)
        &&& if pre.breadcrumbs@.contains(id as usize) && !n.recursive_variants@.contains(n.index) {
            &&& only_changed(pre.nodes@, post.nodes@, id)
            &&& force_marked(n, post.nodes@[id])
        } else {
            post.nodes@ == pre.nodes@
        }
    } else {
        let id = pre.nodes@.len() as int;
        &&& post.nodes@.len() == id + 1
        &&& post.breadcrumbs@ == pre.breadcrumbs@.push(id as usize)
        &&& fresh_node(post.nodes@[id], name, max_index, id)
        &&& if pre.nodes@.len() > 0 {
            let p = pre.breadcrumbs@.last() as int;
            &&& forall|j: int| 0 <= j < pre.nodes@.len() && j != p ==> post.nodes@[j] == #[trigger] pre.nodes@[j]
            &&& child_registered(pre.nodes@[p], post.nodes@[p], id as usize)
        } else {
            forall|j: int| 0 <= j < pre.nodes@.len() ==> post.nodes@[j] == #[trigger] pre.nodes@[j]
        }
    }
}

impl EnumTracker {
    /// Well-formedness: every node knows its own position, is locally
    /// well-formed, names are distinct, and every open id is in range.
    pub open spec fn wf(self) -> bool {
        &&& forall|i: int|
            0 <= i < self.nodes@.len() ==> (#[trigger] self.nodes@[i]).this == i
        &&& forall|i: int|
            0 <= i < self.nodes@.len() ==> node_wf(#[trigger] self.nodes@[i], self.nodes@.len() as int)
        &&& forall|i: int, j: int|
            0 <= i < self.nodes@.len() && 0 <= j < self.nodes@.len() && i != j ==> (
            #[trigger] self.nodes@[i]).name@ != (#[trigger] self.nodes@[j]).name@
        &&& forall|k: int|
            0 <= k < self.breadcrumbs@.len() ==> (#[trigger] self.breadcrumbs@[k]) < self.nodes@.len()
    }

    /// An empty tracker: no nodes discovered, nothing open.
    pub fn new() -> (t: EnumTracker)
        ensures
            t.nodes@ == Seq::<Node>::empty(),
            t.breadcrumbs@ == Seq::<usize>::empty(),
            t.wf(),
    {
        EnumTracker { nodes: Vec::new(), breadcrumbs: Vec::new() }
    }

    /// Whether a node with this name already exists in the table.
    pub fn node_exists(&self, name: &String) -> (r: bool)
        ensures
            r == has_name(self.nodes@, name@),
    {
        let mut i: usize = 0;
        while i < self.nodes.len()
            invariant
                i <= self.nodes@.len(),
                forall|j: int| 0 <= j < i ==> (#[trigger] self.nodes@[j]).name@ != name@,
            decreases self.nodes@.len() - i,
        {
            if self.nodes[i].name == *name {
                return true;
            }
            i += 1;
        }
        false
    }

    /// Resolves the node a call is about: by name when one is given, else the
    /// innermost open node.
    #[verifier::loop_isolation(false)]
    pub fn get_active_node(&self, name: Option<String>) -> (id: usize)
        requires
            self.wf(),
            name is Some ==> has_name(self.nodes@, name->0@),
            name is None ==> self.breadcrumbs@.len() > 0,
        ensures
            id < self.nodes@.len(),
            name is Some ==> id == name_index(self.nodes@, name->0@),
            name is None ==> id == self.breadcrumbs@.last(),
    {
        match name {
            Some(nm) => {
                let mut i: usize = 0;
                while i < self.nodes.len()
                    invariant
                        self.wf(),
                        has_name(self.nodes@, nm@),
                        i <= self.nodes@.len(),
                        forall|j: int| 0 <= j < i ==> (#[trigger] self.nodes@[j]).name@ != nm@,
                    decreases self.nodes@.len() - i,
                {
                    if self.nodes[i].name == nm {
                        proof {
                            let w = name_index(self.nodes@, nm@);
                            assert(0 <= w < self.nodes@.len() && self.nodes@[w].name@ == nm@);
                            assert(self.nodes@[i as int].name@ == nm@);
                            if i as int != w {
                                assert(self.nodes@[i as int].name@ != self.nodes@[w].name@);
                            }
                        }
                        return i;
                    }
                    i += 1;
                }
                proof {
                    let w = name_index(self.nodes@, nm@);
                    assert(0 <= w < self.nodes@.len() && self.nodes@[w].name@ == nm@);
                }
                unreached()
            },
            None => self.breadcrumbs[self.breadcrumbs.len() - 1],
        }
    }

    /// Begins an enum occurrence named `name` with `max_index + 1` variants:
    /// registers or reuses its node per [`open_step`] and pushes it onto the
    /// open path.
    ///
    /// Reusing a name with a different `max_index` would mean the sampled
    /// type changed shape between passes; such a call is outside the
    /// protocol, as is opening a second root name once a pass has ended.
    pub fn open_node(&mut self, name: String, max_index: usize)
        requires
            old(self).wf(),
            max_index < usize::MAX,
            has_name(old(self).nodes@, name@) ==> old(self).nodes@[name_index(
                old(self).nodes@,
                name@,
            )].max_index == max_index,
            !has_name(old(self).nodes@, name@) && old(self).nodes@.len() > 0 ==> old(
                self,
            ).breadcrumbs@.len() > 0,
        ensures
            final(self).wf(),
            open_step(*old(self), *final(self), name@, max_index),
    {
        let index: usize;
        if self.node_exists(&name) {
            index = self.get_active_node(Some(name));
        } else {
            let mut node = Node::new(name, max_index);
            index = self.nodes.len();
            node.this = index;
            self.nodes.push(node);

            // no need to record ourselves as a child if we are the root node
            if self.nodes.len() > 1 {
                let p = self.breadcrumbs[self.breadcrumbs.len() - 1];
                let pi = self.nodes[p].index;
                self.nodes[p].children[pi] = Some(index);
            }
        }

        // prevent entering into a recursive variant a second time
        if contains_id(&self.breadcrumbs, index) {
            let ci = self.nodes[index].index;
            if !contains_id(&self.nodes[index].recursive_variants, ci) {
                // the matching close will never run, so advance the cursor
                // past the variant that points back here, remember the
                // self-loop, and mark the variant as recursive
                let this_id = self.nodes[index].this;
                self.nodes[index].advance_index(true);
                self.nodes[index].children[ci] = Some(this_id);
                self.nodes[index].recursive_variants.push(ci);
            }
        }

        self.breadcrumbs.push(index);
    }

    /// The variant index the innermost open occurrence should realize next.
    pub fn next_variant_index(&self) -> (r: usize)
        requires
            self.wf(),
            self.breadcrumbs@.len() > 0,
        ensures
            r == self.nodes@[self.breadcrumbs@.last() as int].index,
    {
        self.nodes[self.breadcrumbs[self.breadcrumbs.len() - 1]].index
    }

    /// One close step on the innermost open node, per [`close_step`].
    fn advance_variant(&mut self)
        requires
            old(self).wf(),
            old(self).breadcrumbs@.len() > 0,
        ensures
            final(self).wf(),
            final(self).breadcrumbs@ == old(self).breadcrumbs@,
            close_step(old(self).nodes@, final(self).nodes@, old(self).breadcrumbs@.last()),
    {
        let a = self.breadcrumbs[self.breadcrumbs.len() - 1];
        let is_complete = self.nodes[a].complete(&self.nodes);
        if is_complete || self.nodes[a].state == NodeState::Discovery
            || node_has_no_children(&self.nodes[a]) {
            self.nodes[a].advance_index(false);
        } else {
            let ci = self.nodes[a].index;
            match self.nodes[a].children[ci] {
                Some(c) => {
                    let variant_complete = self.nodes[c].complete(&self.nodes);
                    if variant_complete {
                        self.nodes[a].advance_index(variant_complete);
                    }
                },
                None => {
                    // completion sweep and no child under this variant: move on
                    self.nodes[a].advance_index(false);
                },
            }
        }
    }

    /// Ends the innermost open occurrence: advances its coverage bookkeeping
    /// per [`close_step`] and pops the open path.
    pub fn close_node(&mut self)
        requires
            old(self).wf(),
            old(self).breadcrumbs@.len() > 0,
        ensures
            final(self).wf(),
            final(self).breadcrumbs@ == old(self).breadcrumbs@.drop_last(),
            close_step(old(self).nodes@, final(self).nodes@, old(self).breadcrumbs@.last()),
    {
        self.advance_variant();
        let _ = self.breadcrumbs.pop();
    }

    /// Whether coverage is finished: no enum was ever opened, or the root
    /// node counts as complete.
    pub fn all_complete(&self) -> (r: bool)
        requires
            self.wf(),
        ensures
            r == coverage_done(*self),
    {
        // no enums were found
        if self.nodes.len() == 0 {
            true
        } else {
            self.nodes[0].complete(&self.nodes)
        }
    }
}

/// Whether every child slot of `n` is empty.
fn node_has_no_children(n: &Node) -> (r: bool)
    ensures
        r == no_children(*n),
{
    let mut v: usize = 0;
    while v < n.children.len()
        invariant
            v <= n.children@.len(),
            forall|w: int| 0 <= w < v ==> #[trigger] n.children@[w] is None,
        decreases n.children@.len() - v,
    {
        match n.children[v] {
            Some(_) => {
                return false;
            },
            None => {},
        }
        v += 1;
    }
    true
}

/// No-enum idempotence: a tracker in which no enum occurrence was ever
/// opened reports full coverage.
pub proof fn lemma_no_enum_idempotence(t: EnumTracker)
    requires
        t.nodes@.len() == 0,
    ensures
        coverage_done(t),
{
}

/// Identity stability: opening a name the table already holds never adds a
/// node, whatever else the open does; the table keeps its length and every
/// node keeps its name. Hence after any number of repeated passes over a
/// fixed shape the table holds one node per distinct name, never more.
pub proof fn lemma_identity_stability(
    pre: EnumTracker,
    post: EnumTracker,
    name: Seq<char>,
    max_index: usize,
)
    requires
        pre.wf(),
        has_name(pre.nodes@, name),
        open_step(pre, post, name, max_index),
    ensures
        post.nodes@.len() == pre.nodes@.len(),
        forall|j: int|
            0 <= j < pre.nodes@.len() ==> (#[trigger] post.nodes@[j]).name@ == pre.nodes@[j].name@,
{
}

/// One node never regresses: the phase rank does not go down, and within an
/// unchanged phase the cursor does not go down.
pub open spec fn no_regress(pre: Node, post: Node) -> bool {
    &&& phase_rank(post.state) >= phase_rank(pre.state)
    &&& (post.state == pre.state ==> post.index >= pre.index)
}

/// Monotonic progress of one advance step: the phase only ever moves forward
/// along Discovery, Completion, Completed; when it stands still the cursor
/// does not move back; a node not yet `Completed` strictly progresses — the
/// cursor grows or the phase is promoted; a `Completed` node is frozen.
pub proof fn lemma_advance_monotone(state: NodeState, index: int, max_index: int, variant_complete: bool)
    requires
        0 <= index <= max_index,
    ensures
        phase_rank(advance_spec(state, index, max_index, variant_complete).0) >= phase_rank(state),
        advance_spec(state, index, max_index, variant_complete).0 == state ==> advance_spec(
            state,
            index,
            max_index,
            variant_complete,
        ).1 >= index,
        state != NodeState::Completed ==> phase_rank(
            advance_spec(state, index, max_index, variant_complete).0,
        ) > phase_rank(state) || advance_spec(state, index, max_index, variant_complete).1 == index
            + 1,
        state == NodeState::Completed ==> advance_spec(state, index, max_index, variant_complete)
            == (state, index),
{
}

/// Monotonic progress of one close: no node in the table regresses, and a
/// node already `Completed` is left untouched.
pub proof fn lemma_close_monotone(pre: Seq<Node>, post: Seq<Node>, a: usize)
    requires
        (a as int) < pre.len(),
        pre[a as int].index <= pre[a as int].max_index,
        close_step(pre, post, a),
    ensures
        forall|j: int| 0 <= j < pre.len() ==> no_regress(#[trigger] pre[j], post[j]),
        pre[a as int].state == NodeState::Completed ==> post[a as int] == pre[a as int],
{
    let n = pre[a as int];
    lemma_advance_monotone(n.state, n.index as int, n.max_index as int, false);
    lemma_advance_monotone(n.state, n.index as int, n.max_index as int, true);
    assert(no_regress(n, post[a as int]));
    assert(forall|j: int| 0 <= j < pre.len() && j != a as int ==> no_regress(#[trigger] pre[j], post[j]));
}

/// Two-phase necessity, the tracker's share: while the root node is still in
/// its Discovery sweep — or in Completion with variants left before its last
/// — coverage is not done, so a shape with anything to discover needs more
/// than one pass before `all_complete` can hold.
pub proof fn lemma_two_phase_necessity(t: EnumTracker)
    requires
        t.nodes@.len() > 0,
        t.nodes@[0].state != NodeState::Completed,
        t.nodes@[0].state == NodeState::Discovery || t.nodes@[0].index < t.nodes@[0].max_index,
    ensures
        !coverage_done(t),
{
}

/// Recursion termination, the tracker's share: when an open resolves to a
/// node already on the open path — the enum is re-entering itself — the
/// first such re-entry at a given cursor records that variant in
/// `recursive_variants` and a self-loop child entry in its place, and any
/// later re-entry at a cursor already marked leaves the table untouched. The
/// table never grows, so a driving loop that follows the cursor is steered
/// past the self-referential variant instead of descending without bound.
pub proof fn lemma_recursion_guard(
    pre: EnumTracker,
    post: EnumTracker,
    name: Seq<char>,
    max_index: usize,
)
    requires
        pre.wf(),
        has_name(pre.nodes@, name),
        pre.breadcrumbs@.contains(name_index(pre.nodes@, name) as usize),
        open_step(pre, post, name, max_index),
    ensures
        post.nodes@.len() == pre.nodes@.len(),
        ({
            let id = name_index(pre.nodes@, name);
            let n = pre.nodes@[id];
            &&& (!n.recursive_variants@.contains(n.index) ==> {
                &&& post.nodes@[id].recursive_variants@.contains(n.index)
                &&& post.nodes@[id].children@[n.index as int] == Some(id as usize)
            })
            &&& (n.recursive_variants@.contains(n.index) ==> post.nodes@ == pre.nodes@)
        }),
{
    let id = name_index(pre.nodes@, name);
    let n = pre.nodes@[id];
    if !n.recursive_variants@.contains(n.index) {
        let marked = post.nodes@[id].recursive_variants@;
        assert(marked == n.recursive_variants@.push(n.index));
        assert(marked[marked.len() - 1] == n.index);
        assert(n.this == id);
    }
}

/// Monotonic progress of one open: no node in the table regresses. An open
/// either leaves the table as it is, appends a fresh node, registers a child
/// entry, or force-advances the node it re-enters; none of that moves a
/// phase or a cursor backwards.
pub proof fn lemma_open_monotone(
    pre: EnumTracker,
    post: EnumTracker,
    name: Seq<char>,
    max_index: usize,
)
    requires
        pre.wf(),
        open_step(pre, post, name, max_index),
    ensures
        forall|j: int|
            0 <= j < pre.nodes@.len() ==> no_regress(#[trigger] pre.nodes@[j], post.nodes@[j]),
{
    if has_name(pre.nodes@, name) {
        let id = name_index(pre.nodes@, name);
        let n = pre.nodes@[id];
        lemma_advance_monotone(n.state, n.index as int, n.max_index as int, true);
    }
}

} // verus!
