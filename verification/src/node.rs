//! Per-enum tracking record and its lifecycle state machine.

use vstd::prelude::*;

verus! {

/// Lifecycle of a [`Node`].
///
/// `Discovery` sweeps the variant cursor once to learn which variants hold
/// nested enums; `Completion` sweeps again so every discovered child can
/// finish; `Completed` is terminal.
#[derive(Clone, Copy, Debug, PartialEq, Eq, Structural)]
pub enum NodeState {
    Discovery,
    Completion,
    Completed,
}

/// Rank of a lifecycle state; the lifecycle only ever moves up in rank.
pub open spec fn phase_rank(s: NodeState) -> int {
    match s {
        NodeState::Discovery => 0,
        NodeState::Completion => 1,
        NodeState::Completed => 2,
    }
}

/// Tracking record for one distinct enum name.
///
/// `children[v]` holds the id of the nested enum's node discovered at variant
/// index `v`, or `None` where that variant holds no nested enum. Ids index the
/// owning table (`EnumTracker::nodes`), never another node directly.
#[derive(Clone, Debug, PartialEq)]
pub struct Node {
    pub name: String,
    /// This node's own position in the owning table.
    pub this: usize,
    /// The next variant index to hand out.
    pub index: usize,
    /// Highest valid variant index (variant count - 1); fixed at creation.
    pub max_index: usize,
    /// One slot per variant index: the child node discovered there, if any.
    pub children: Vec<Option<usize>>,
    pub state: NodeState,
    /// Variant indices at which this node re-entered itself.
    pub recursive_variants: Vec<usize>,
}

/// Local well-formedness of a node against the length of the owning table.
pub open spec fn node_wf(n: Node, table_len: int) -> bool {
    &&& n.index <= n.max_index
    &&& n.children@.len() == n.max_index + 1
    &&& forall|v: int|
        0 <= v < n.children@.len() && n.children@[v] is Some ==> (#[trigger] n.children@[v])->0
            < table_len
}

/// The (state, cursor) pair after one advance step.
///
/// At the last variant index, `Discovery` rolls over into `Completion` with
/// the cursor reset, and `Completion` (or a forced step with
/// `variant_complete`) promotes to `Completed`; anywhere earlier the cursor
/// moves by one. A `Completed` node never changes.
pub open spec fn advance_spec(state: NodeState, index: int, max_index: int, variant_complete: bool) -> (NodeState, int) {
    if index == max_index {
        if state == NodeState::Discovery {
            (NodeState::Completion, 0)
        } else if state == NodeState::Completion || variant_complete {
            (NodeState::Completed, index)
        } else {
            (state, index)
        }
    } else if index < max_index && (state == NodeState::Discovery || state == NodeState::Completion) {
        (state, index + 1)
    } else {
        (state, index)
    }
}

/// The set of ids below `n`.
pub open spec fn ids_below(n: int) -> Set<usize> {
    Set::new(|j: usize| (j as int) < n)
}

pub proof fn lemma_ids_below(n: int)
    requires
        0 <= n <= usize::MAX as int + 1,
    ensures
        ids_below(n).finite(),
        ids_below(n).len() == n,
    decreases n,
{
    broadcast use vstd::set::axiom_set_insert_len;

    if n == 0 {
        assert(ids_below(0) =~= Set::<usize>::empty());
    } else {
        lemma_ids_below(n - 1);
        assert(ids_below(n) =~= ids_below(n - 1).insert((n - 1) as usize));
    }
}

/// The arguments on which [`complete_from`] is meaningful: a visited set of
/// distinct in-range ids that does not yet hold the id under scrutiny.
pub open spec fn complete_search_wf(nodes: Seq<Node>, id: usize, visited: Set<usize>) -> bool {
    &&& visited.finite()
    &&& (id as int) < nodes.len()
    &&& !visited.contains(id)
    &&& forall|u: usize| #[trigger] visited.contains(u) ==> (u as int) < nodes.len()
}

/// A visited set can hold at most one entry per node, so inserting a new id
/// keeps it within the table's size.
pub proof fn lemma_visited_insert_bound(nodes: Seq<Node>, id: usize, visited: Set<usize>)
    requires
        complete_search_wf(nodes, id, visited),
    ensures
        visited.insert(id).len() == visited.len() + 1,
        visited.insert(id).len() <= nodes.len(),
{
    broadcast use vstd::set::axiom_set_insert_len;

    let n = nodes.len() as int;
    let cap: int = if n <= usize::MAX as int + 1 {
        n
    } else {
        usize::MAX as int + 1
    };
    lemma_ids_below(cap);
    assert(visited.insert(id).subset_of(ids_below(cap)));
    vstd::set_lib::lemma_len_subset(visited.insert(id), ids_below(cap));
}

/// Whether the node `id` counts as complete, the heart of the completeness
/// query: a `Completed` node is complete; a `Completion` node whose cursor
/// stands at its last variant is complete once every child it discovered is
/// complete in turn. `visited` carries the ids already under scrutiny higher
/// up the same search, so a cycle of nodes (a self-referential enum) does not
/// send the search into that cycle again.
pub open spec fn complete_from(nodes: Seq<Node>, id: usize, visited: Set<usize>) -> bool
    decreases nodes.len() - visited.len()
        when complete_search_wf(nodes, id, visited)
{
    proof {
        lemma_visited_insert_bound(nodes, id, visited);
    }
    let n = nodes[id as int];
    ||| n.state == NodeState::Completed
    ||| {
        &&& n.state == NodeState::Completion
        &&& n.index == n.max_index
        &&& forall|v: int|
            0 <= v < n.children@.len() && (#[trigger] n.children@[v]) is Some ==> {
                let c = n.children@[v]->0;
                ||| visited.insert(id).contains(c)
                ||| (c as int) >= nodes.len()
                ||| complete_from(nodes, c, visited.insert(id))
            }
    }
}

/// Completeness of the node `id` of the table, starting a fresh search.
pub open spec fn node_complete(nodes: Seq<Node>, id: usize) -> bool {
    complete_from(nodes, id, Set::empty())
}

/// Whether `x` occurs in `v`.
pub(crate) fn contains_id(v: &Vec<usize>, x: usize) -> (r: bool)
    ensures
        r == v@.contains(x),
{
    let mut i: usize = 0;
    while i < v.len()
        invariant
            i <= v@.len(),
            forall|j: int| 0 <= j < i ==> v@[j] != x,
        decreases v@.len() - i,
    {
        if v[i] == x {
            return true;
        }
        i += 1;
    }
    proof {
        if v@.contains(x) {
            let j = choose|j: int| 0 <= j < v@.len() && v@[j] == x;
        }
    }
    false
}

/// A chain of distinct in-range ids has at most one entry per node.
pub proof fn lemma_path_len_bound(nodes: Seq<Node>, path: Seq<usize>)
    requires
        path.no_duplicates(),
        forall|k: int| 0 <= k < path.len() ==> (#[trigger] path[k] as int) < nodes.len(),
    ensures
        path.len() <= nodes.len(),
        path.to_set().len() == path.len(),
        path.to_set().finite(),
{
    path.unique_seq_to_set();
    let n = nodes.len() as int;
    let cap: int = if n <= usize::MAX as int + 1 {
        n
    } else {
        usize::MAX as int + 1
    };
    lemma_ids_below(cap);
    assert(path.to_set().subset_of(ids_below(cap)));
    vstd::set_lib::lemma_len_subset(path.to_set(), ids_below(cap));
}

/// Depth-first evaluation of [`complete_from`]. `path` is the chain of ids
/// already under scrutiny above this call; it is restored before returning.
#[verifier::loop_isolation(false)]
pub(crate) fn complete_search(nodes: &Vec<Node>, id: usize, path: &mut Vec<usize>) -> (r: bool)
    requires
        id < nodes@.len(),
        !old(path)@.contains(id),
        old(path)@.no_duplicates(),
        forall|k: int| 0 <= k < old(path)@.len() ==> (#[trigger] old(path)@[k] as int) < nodes@.len(),
    ensures
        final(path)@ == old(path)@,
        r == complete_from(nodes@, id, old(path)@.to_set()),
    decreases nodes@.len() - old(path)@.len(),
{
    let ghost vis0 = old(path)@.to_set();
    proof {
        lemma_path_len_bound(nodes@, old(path)@);
        assert(complete_search_wf(nodes@, id, vis0));
    }
    let n = &nodes[id];
    if n.state == NodeState::Completed {
        return true;
    }
    if !(n.state == NodeState::Completion && n.index == n.max_index) {
        return false;
    }
    path.push(id);
    let ghost vis1 = vis0.insert(id);
    proof {
        old(path)@.lemma_push_to_set_commute(id);
        assert(path@.to_set() == vis1);
    }
    let mut ok = true;
    let mut v: usize = 0;
    while ok && v < n.children.len()
        invariant
            path@ == old(path)@.push(id),
            v <= n.children@.len(),
            ok ==> forall|w: int|
                0 <= w < v && (#[trigger] n.children@[w]) is Some ==> {
                    let c = n.children@[w]->0;
                    ||| vis1.contains(c)
                    ||| (c as int) >= nodes@.len()
                    ||| complete_from(nodes@, c, vis1)
                },
            !ok ==> !complete_from(nodes@, id, vis0),
        decreases n.children@.len() - v,
    {
        match n.children[v] {
            Some(c) => {
                if c < nodes.len() && !contains_id(path, c) {
                    proof {
                        lemma_path_len_bound(nodes@, path@);
                    }
                    let child_ok = complete_search(nodes, c, path);
                    if !child_ok {
                        proof {
                            lemma_visited_insert_bound(nodes@, id, vis0);
                            assert(nodes@[id as int].children@[v as int] is Some);
                            assert(!complete_from(nodes@, id, vis0));
                        }
                        ok = false;
                    }
                }
            },
            None => {},
        }
        v += 1;
    }
    let _ = path.pop();
    if ok {
        proof {
            lemma_visited_insert_bound(nodes@, id, vis0);
            assert(complete_from(nodes@, id, vis0));
        }
    }
    ok
}

impl Node {
    /// A fresh node in `Discovery`, cursor at 0, with one empty child slot
    /// per variant. The caller assigns `this` when it appends the node to the
    /// table.
    pub fn new(name: String, max_index: usize) -> (node: Node)
        requires
            max_index < usize::MAX,
        ensures
            node.name == name,
            node.this == 0,
            node.index == 0,
            node.max_index == max_index,
            node.children@.len() == max_index + 1,
            forall|v: int| 0 <= v < node.children@.len() ==> node.children@[v] is None,
            node.state == NodeState::Discovery,
            node.recursive_variants@ == Seq::<usize>::empty(),
    {
        let mut children: Vec<Option<usize>> = Vec::new();
        let mut i: usize = 0;
        while i < max_index + 1
            invariant
                max_index < usize::MAX,
                i <= max_index + 1,
                children@.len() == i,
                forall|v: int| 0 <= v < i ==> children@[v] is None,
            decreases max_index + 1 - i,
        {
            children.push(None);
            i += 1;
        }
        Node {
            name,
            this: 0,
            index: 0,
            max_index,
            children,
            state: NodeState::Discovery,
            recursive_variants: Vec::new(),
        }
    }

    /// Whether this node counts as complete within its owning table, per
    /// [`node_complete`]: the search starts from the table entry at this
    /// node's own position. Pure read; safe to ask at any point, mid-pass
    /// included.
    pub fn complete(&self, nodes: &Vec<Node>) -> (r: bool)
        requires
            self.this < nodes@.len(),
        ensures
            r == node_complete(nodes@, self.this),
    {
        let mut path: Vec<usize> = Vec::new();
        let r = complete_search(nodes, self.this, &mut path);
        proof {
            assert(Seq::<usize>::empty().to_set() =~= Set::<usize>::empty());
        }
        r
    }

    /// One advance step on this node, per [`advance_spec`].
    pub fn advance_index(&mut self, variant_complete: bool)
        ensures
            (final(self).state, final(self).index as int) == advance_spec(
                old(self).state,
                old(self).index as int,
                old(self).max_index as int,
                variant_complete,
            ),
            final(self).name == old(self).name,
            final(self).this == old(self).this,
            final(self).max_index == old(self).max_index,
            final(self).children == old(self).children,
            final(self).recursive_variants == old(self).recursive_variants,
    {
        if self.index == self.max_index {
            if self.state == NodeState::Discovery {
                self.state = NodeState::Completion;
                self.index = 0;
            } else if self.state == NodeState::Completion || variant_complete {
                self.state = NodeState::Completed;
            }
        } else if self.index < self.max_index
            && (self.state == NodeState::Discovery || self.state == NodeState::Completion) {
            self.index = self.index + 1;
        }
    }
}

} // verus!
