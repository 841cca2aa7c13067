//! The tree-shaped object graph: an index arena of nodes with non-owning
//! parent references, and the ancestor chain builder.

use vstd::prelude::*;
use crate::eventtarget::{EventTarget, EventListener, ListenerPhase, ListenerEntry};

verus! {

/// What kind of node an arena slot holds.
pub enum NodeKind {
    Document { is_html: bool },
    DocumentType { name: String, public_id: String, system_id: String },
    Element { tag: String },
    Text { data: String },
}

/// One node of the graph: its structural parent (a non-owning index), its
/// rank, its kind, and its listener registry.
pub struct Node {
    /// Index of the structural parent, `None` for a node outside any tree.
    pub parent: Option<usize>,
    /// Attachment rank: zero for a detached node, the parent's rank plus one
    /// once attached. Ranks strictly increase along every parent edge, which
    /// keeps parent chains acyclic.
    pub rank: usize,
    pub kind: NodeKind,
    pub event_target: EventTarget,
}

/// The owner of every node: an arena addressed by index.
///
/// A forest may hold several disconnected trees; document construction
/// creates nodes detached and attaches them afterwards.
pub struct Forest {
    pub nodes: Vec<Node>,
}

impl Forest {
    /// Well-formedness: every parent reference points inside the arena, at a
    /// node of strictly smaller rank, so parent chains are acyclic and of
    /// strictly decreasing rank.
    ///
    /// Attachment keeps this by giving only a detached, childless node a
    /// parent, and ranking it one above that parent.
    pub open spec fn wf(self) -> bool {
        forall|i: int| 0 <= i < self.nodes.len() ==> match #[trigger] self.nodes[i].parent {
            Some(p) => p < self.nodes.len() && self.nodes[p as int].rank < self.nodes[i].rank,
            None => true,
        }
    }

    /// Whether no node of the forest has `c` as its parent.
    pub open spec fn childless(self, c: usize) -> bool {
        forall|j: int| 0 <= j < self.nodes.len()
            ==> (#[trigger] self.nodes[j].parent) != Some(c)
    }

    /// The rank of slot `i`, zero outside the arena: the measure parent
    /// chains strictly descend along.
    pub open spec fn rank_of(self, i: int) -> int {
        if 0 <= i < self.nodes.len() {
            self.nodes[i].rank as int
        } else {
            0
        }
    }

    /// The ordered ancestor chain of node `i`, nearest parent first, root
    /// last; empty for a node that participates in no tree.
    pub open spec fn chain_from(self, i: int) -> Seq<usize>
        decreases self.rank_of(i),
    {
        if 0 <= i < self.nodes.len() {
            match self.nodes[i].parent {
                Some(p) => if p < self.nodes.len()
                    && self.nodes[p as int].rank < self.nodes[i].rank {
                    seq![p] + self.chain_from(p as int)
                } else {
                    Seq::empty()
                },
                None => Seq::empty(),
            }
        } else {
            Seq::empty()
        }
    }

    pub fn new() -> (f: Forest)
        ensures
            f.nodes@ =~= Seq::<Node>::empty(),
            f.wf(),
    {
        Forest { nodes: Vec::new() }
    }

    pub fn len(&self) -> (n: usize)
        ensures
            n == self.nodes@.len(),
    {
        self.nodes.len()
    }

    /// Append a fresh detached node of the given kind, with an empty listener
    /// registry, and return its index.
    fn create_node(&mut self, kind: NodeKind) -> (i: usize)
        requires
            old(self).wf(),
        ensures
            final(self).wf(),
            i == old(self).nodes@.len(),
            final(self).nodes@.len() == old(self).nodes@.len() + 1,
            forall|j: int| 0 <= j < old(self).nodes@.len()
                ==> final(self).nodes@[j] == old(self).nodes@[j],
            final(self).nodes@[i as int].parent is None,
            final(self).nodes@[i as int].rank == 0,
            final(self).nodes@[i as int].kind == kind,
            final(self).nodes@[i as int].event_target.entries@ =~= Seq::<ListenerEntry>::empty(),
            final(self).childless(i),
    {
        let i = self.nodes.len();
        self.nodes.push(Node { parent: None, rank: 0, kind, event_target: EventTarget::new() });
        proof {
            assert forall|j: int| 0 <= j < self.nodes@.len()
                implies (#[trigger] self.nodes@[j].parent) != Some(i) by {
                if j < i {
                    match old(self).nodes@[j].parent {
                        Some(p) => {
                            assert(p < old(self).nodes@.len());
                        }
                        None => {}
                    }
                }
            }
        }
        i
    }

    /// Create a detached document node.
    pub fn create_document(&mut self, is_html: bool) -> (i: usize)
        requires
            old(self).wf(),
        ensures
            final(self).wf(),
            i == old(self).nodes@.len(),
            final(self).nodes@.len() == old(self).nodes@.len() + 1,
            forall|j: int| 0 <= j < old(self).nodes@.len()
                ==> final(self).nodes@[j] == old(self).nodes@[j],
            final(self).nodes@[i as int].parent is None,
            final(self).nodes@[i as int].rank == 0,
            final(self).nodes@[i as int].kind == (NodeKind::Document { is_html }),
            final(self).nodes@[i as int].event_target.entries@ =~= Seq::<ListenerEntry>::empty(),
            final(self).childless(i),
    {
        self.create_node(NodeKind::Document { is_html })
    }

    /// Create a detached doctype node.
    pub fn create_document_type(&mut self, name: String, public_id: String, system_id: String)
        -> (i: usize)
        requires
            old(self).wf(),
        ensures
            final(self).wf(),
            i == old(self).nodes@.len(),
            final(self).nodes@.len() == old(self).nodes@.len() + 1,
            forall|j: int| 0 <= j < old(self).nodes@.len()
                ==> final(self).nodes@[j] == old(self).nodes@[j],
            final(self).nodes@[i as int].parent is None,
            final(self).nodes@[i as int].rank == 0,
            final(self).nodes@[i as int].kind == (NodeKind::DocumentType { name, public_id, system_id }),
            final(self).nodes@[i as int].event_target.entries@ =~= Seq::<ListenerEntry>::empty(),
            final(self).childless(i),
    {
        self.create_node(NodeKind::DocumentType { name, public_id, system_id })
    }

    /// Create a detached element node.
    pub fn create_element(&mut self, tag: String) -> (i: usize)
        requires
            old(self).wf(),
        ensures
            final(self).wf(),
            i == old(self).nodes@.len(),
            final(self).nodes@.len() == old(self).nodes@.len() + 1,
            forall|j: int| 0 <= j < old(self).nodes@.len()
                ==> final(self).nodes@[j] == old(self).nodes@[j],
            final(self).nodes@[i as int].parent is None,
            final(self).nodes@[i as int].rank == 0,
            final(self).nodes@[i as int].kind == (NodeKind::Element { tag }),
            final(self).nodes@[i as int].event_target.entries@ =~= Seq::<ListenerEntry>::empty(),
            final(self).childless(i),
    {
        self.create_node(NodeKind::Element { tag })
    }

    /// Create a detached text node.
    pub fn create_text(&mut self, data: String) -> (i: usize)
        requires
            old(self).wf(),
        ensures
            final(self).wf(),
            i == old(self).nodes@.len(),
            final(self).nodes@.len() == old(self).nodes@.len() + 1,
            forall|j: int| 0 <= j < old(self).nodes@.len()
                ==> final(self).nodes@[j] == old(self).nodes@[j],
            final(self).nodes@[i as int].parent is None,
            final(self).nodes@[i as int].rank == 0,
            final(self).nodes@[i as int].kind == (NodeKind::Text { data }),
            final(self).nodes@[i as int].event_target.entries@ =~= Seq::<ListenerEntry>::empty(),
            final(self).childless(i),
    {
        self.create_node(NodeKind::Text { data })
    }

    /// Register a listener on node `i`.
    pub fn add_event_listener(&mut self, i: usize, type_: String, phase: ListenerPhase,
        listener: EventListener)
        requires
            old(self).wf(),
            i < old(self).nodes@.len(),
        ensures
            final(self).wf(),
            final(self).nodes@.len() == old(self).nodes@.len(),
            forall|j: int| 0 <= j < final(self).nodes@.len() && j != i
                ==> final(self).nodes@[j] == old(self).nodes@[j],
            final(self).nodes@[i as int].parent == old(self).nodes@[i as int].parent,
            final(self).nodes@[i as int].rank == old(self).nodes@[i as int].rank,
            final(self).nodes@[i as int].kind == old(self).nodes@[i as int].kind,
            final(self).nodes@[i as int].event_target.entries@
                == old(self).nodes@[i as int].event_target.entries@.push(
                    (ListenerEntry { type_, phase, listener }),
                ),
    {
        self.nodes[i].event_target.add_event_listener(type_, phase, listener);
    }

    /// Whether some node of the forest has `c` as its parent.
    fn has_child(&self, c: usize) -> (r: bool)
        ensures
            r == !self.childless(c),
    {
        let n = self.nodes.len();
        let mut j: usize = 0;
        let mut found = false;
        while j < n
            invariant_except_break
                !found,
            invariant
                n == self.nodes@.len(),
                j <= n,
                forall|k: int| 0 <= k < j ==> (#[trigger] self.nodes@[k].parent) != Some(c),
            ensures
                found ==> j < n && self.nodes@[j as int].parent == Some(c),
                !found ==> j == n
                    && (forall|k: int| 0 <= k < n
                        ==> (#[trigger] self.nodes@[k].parent) != Some(c)),
            decreases n - j,
        {
            if match self.nodes[j].parent {
                Some(p) => p == c,
                None => false,
            } {
                found = true;
                break;
            }
            j = j + 1;
        }
        found
    }

    /// Attach the node `child` under `parent`, re-parenting it.
    ///
    /// Succeeds exactly when `child` is detached and childless and distinct
    /// from `parent` (and the parent's rank leaves room for one more level) —
    /// the discipline under which attaching cannot create a cycle, and under
    /// which construction of a freshly created, unattached node cannot fail.
    /// Nothing changes on failure.
    pub fn append_child(&mut self, parent: usize, child: usize)
        -> (r: Result<(), crate::domimplementation::Error>)
        requires
            old(self).wf(),
            parent < old(self).nodes@.len(),
            child < old(self).nodes@.len(),
        ensures
            final(self).wf(),
            final(self).nodes@.len() == old(self).nodes@.len(),
            r is Ok <==> (old(self).nodes@[child as int].parent is None
                && old(self).childless(child)
                && parent != child
                && old(self).nodes@[parent as int].rank < usize::MAX),
            r is Ok ==> {
                &&& forall|j: int| 0 <= j < final(self).nodes@.len() && j != child
                    ==> final(self).nodes@[j] == old(self).nodes@[j]
                &&& final(self).nodes@[child as int].parent == Some(parent)
                &&& final(self).nodes@[child as int].rank
                    == old(self).nodes@[parent as int].rank + 1
                &&& final(self).nodes@[child as int].kind == old(self).nodes@[child as int].kind
                &&& final(self).nodes@[child as int].event_target
                    == old(self).nodes@[child as int].event_target
            },
            r is Err ==> *final(self) == *old(self),
    {
        if self.nodes[child].parent.is_some() || parent == child || self.has_child(child) {
            return Err(crate::domimplementation::Error::HierarchyRequest);
        }
        let parent_rank = self.nodes[parent].rank;
        if parent_rank == usize::MAX {
            return Err(crate::domimplementation::Error::HierarchyRequest);
        }
        self.nodes[child].parent = Some(parent);
        self.nodes[child].rank = parent_rank + 1;
        proof {
            assert forall|i: int| 0 <= i < self.nodes@.len() implies
                match #[trigger] self.nodes@[i].parent {
                    Some(p) => p < self.nodes@.len()
                        && self.nodes@[p as int].rank < self.nodes@[i].rank,
                    None => true,
                } by {
                if i == child {
                } else {
                    match old(self).nodes@[i].parent {
                        Some(p) => {
                            assert(p != child);
                        }
                        None => {}
                    }
                }
            }
        }
        Ok(())
    }

    /// The ancestor chain builder: the ordered ancestors of `i`, nearest
    /// parent first, computed once, before any listener runs.
    pub fn ancestors(&self, i: usize) -> (r: Vec<usize>)
        requires
            self.wf(),
            i < self.nodes@.len(),
        ensures
            r@ == self.chain_from(i as int),
    {
        let mut r: Vec<usize> = Vec::new();
        let mut cur: usize = i;
        loop
            invariant
                self.wf(),
                cur < self.nodes@.len(),
                self.chain_from(i as int) == r@ + self.chain_from(cur as int),
            ensures
                r@ == self.chain_from(i as int),
            decreases self.nodes@[cur as int].rank,
        {
            match self.nodes[cur].parent {
                Some(p) => {
                    proof {
                        assert(self.chain_from(cur as int)
                            == seq![p] + self.chain_from(p as int));
                        assert(r@ + (seq![p] + self.chain_from(p as int))
                            =~= (r@ + seq![p]) + self.chain_from(p as int));
                        assert(r@.push(p) =~= r@ + seq![p]);
                    }
                    r.push(p);
                    cur = p;
                }
                None => {
                    proof {
                        assert(self.chain_from(cur as int) =~= Seq::<usize>::empty());
                        assert(r@ + Seq::<usize>::empty() =~= r@);
                    }
                    break;
                }
            }
        }
        r
    }

    /// Every member of an ancestor chain is a valid index of this forest.
    pub proof fn lemma_chain_in_bounds(self, i: int)
        requires
            self.wf(),
            0 <= i < self.nodes@.len(),
        ensures
            forall|k: int| 0 <= k < self.chain_from(i).len()
                ==> (#[trigger] self.chain_from(i)[k]) < self.nodes@.len(),
        decreases self.rank_of(i),
    {
        match self.nodes@[i].parent {
            Some(p) => {
                self.lemma_chain_in_bounds(p as int);
                assert forall|k: int| 0 <= k < self.chain_from(i).len()
                    implies (#[trigger] self.chain_from(i)[k]) < self.nodes@.len() by {
                    if k > 0 {
                        assert(self.chain_from(i)[k] == self.chain_from(p as int)[k - 1]);
                    }
                }
            }
            None => {}
        }
    }
}

} // verus!
