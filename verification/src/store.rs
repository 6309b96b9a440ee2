//! The node store: owns every [`Node`] behind a stable identifier.
//!
//! Identifiers are handed out in insertion order and never reused. The
//! batch operations [`NodeManager::get_nodes_mut`] and
//! [`NodeManager::set_nodes`] are how the solvers take a chain of nodes
//! out into a working buffer and put the solved poses back, which keeps
//! every mutable access disjoint by construction.

use vstd::prelude::*;

use crate::node::{Node, NodeView};

verus! {

/// An opaque, stable handle to a node in a [`NodeManager`].
#[derive(Clone, Copy, Debug, PartialEq, Eq, Hash, Structural)]
pub struct NodeID(u32);

impl View for NodeID {
    type V = int;

    closed spec fn view(&self) -> int {
        self.0 as int
    }
}

/// The identifiers of a chain as the store indices they stand for.
pub open spec fn id_ints(ids: Seq<NodeID>) -> Seq<int> {
    ids.map_values(|id: NodeID| id@)
}

/// Every identifier names a node of the store, and no two name the same
/// node: the condition under which a batch of mutable accesses is
/// meaningful.
pub open spec fn ids_ok(store: Seq<NodeView>, ids: Seq<int>) -> bool {
    &&& forall|k: int| 0 <= k < ids.len() ==> 0 <= #[trigger] ids[k] < store.len()
    &&& forall|i: int, j: int| 0 <= i < j < ids.len() ==> #[trigger] ids[i] != #[trigger] ids[j]
}

/// The nodes of the store that `ids` name, in the order of `ids`.
pub open spec fn gather(store: Seq<NodeView>, ids: Seq<int>) -> Seq<NodeView> {
    Seq::new(ids.len(), |k: int| store[ids[k]])
}

/// `news` is `old` with the node at `ids[k]` replaced by `vals[k]` for
/// every `k`, every other node untouched.
pub open spec fn scattered(
    old: Seq<NodeView>,
    ids: Seq<int>,
    vals: Seq<NodeView>,
    news: Seq<NodeView>,
) -> bool {
    &&& news.len() == old.len()
    &&& forall|k: int| 0 <= k < ids.len() ==> news[#[trigger] ids[k]] == vals[k]
    &&& forall|j: int| 0 <= j < old.len() && !ids.contains(j) ==> #[trigger] news[j] == old[j]
}

/// Owns the mapping from [`NodeID`] to [`Node`]. Identifiers are the
/// insertion ranks, so they are unique and never reused.
pub struct NodeManager {
    nodes: Vec<Node>,
}

impl View for NodeManager {
    type V = Seq<NodeView>;

    closed spec fn view(&self) -> Seq<NodeView> {
        self.nodes@.map_values(|n: Node| n@)
    }
}

impl Default for NodeManager {
    /// An empty store.
    fn default() -> (r: NodeManager)
        ensures
            r@.len() == 0,
    {
        NodeManager { nodes: Vec::new() }
    }
}

impl NodeManager {
    /// An empty store.
    pub fn new() -> (r: NodeManager)
        ensures
            r@.len() == 0,
    {
        Self::default()
    }

    /// Stores a copy of `node` and returns the fresh identifier assigned
    /// to it: the next unused insertion rank.
    pub fn insert(&mut self, node: Node) -> (id: NodeID)
        requires
            old(self)@.len() < 4294967295,
        ensures
            id@ == old(self)@.len(),
            final(self)@ == old(self)@.push(node@),
    {
        let id = NodeID(self.nodes.len() as u32);
        self.nodes.push(node);
        proof {
            assert(final(self)@ =~= old(self)@.push(node@));
        }
        id
    }

    /// Inserts every node of `nodes` in order and returns their fresh
    /// identifiers, in the same order.
    pub fn insert_nodes(&mut self, nodes: &[Node]) -> (ids: Vec<NodeID>)
        requires
            old(self)@.len() + nodes@.len() < 4294967295,
        ensures
            final(self)@.len() == old(self)@.len() + nodes@.len(),
            forall|j: int|
                0 <= j < old(self)@.len() ==> #[trigger] final(self)@[j] == old(self)@[j],
            forall|k: int|
                0 <= k < nodes@.len() ==> #[trigger] final(self)@[old(self)@.len() + k]
                    == nodes@[k]@,
            ids@.len() == nodes@.len(),
            forall|k: int| 0 <= k < ids@.len() ==> #[trigger] ids@[k]@ == old(self)@.len() + k,
    {
        let mut ids: Vec<NodeID> = Vec::new();
        let mut k: usize = 0;
        while k < nodes.len()
            invariant
                0 <= k <= nodes@.len(),
                old(self)@.len() + nodes@.len() < 4294967295,
                self@.len() == old(self)@.len() + k,
                forall|j: int|
                    0 <= j < old(self)@.len() ==> #[trigger] self@[j] == old(self)@[j],
                forall|i: int|
                    0 <= i < k ==> #[trigger] self@[old(self)@.len() + i] == nodes@[i]@,
                ids@.len() == k,
                forall|i: int| 0 <= i < k ==> #[trigger] ids@[i]@ == old(self)@.len() + i,
            decreases nodes@.len() - k,
        {
            let id = self.insert(nodes[k].clone());
            ids.push(id);
            k = k + 1;
        }
        ids
    }

    /// The node `id` names, or `None` for an identifier this store never
    /// handed out.
    pub fn get_node(&self, id: &NodeID) -> (r: Option<&Node>)
        ensures
            match r {
                Some(n) => id@ < self@.len() && n@ == self@[id@],
                None => id@ >= self@.len(),
            },
    {
        let index = id.0 as usize;
        if index < self.nodes.len() {
            Some(&self.nodes[index])
        } else {
            None
        }
    }

    /// Mutable access to the node `id` names, or `None` for an identifier
    /// this store never handed out.
    pub fn get_node_mut(&mut self, id: &NodeID) -> (r: Option<&mut Node>)
        ensures
            final(self)@.len() == old(self)@.len(),
            id@ >= old(self)@.len() ==> r.is_none() && final(self)@ == old(self)@,
            id@ < old(self)@.len() ==> r.is_some() && (*r.unwrap())@ == old(self)@[id@]
                && final(self)@[id@] == (*final(r.unwrap()))@ && (forall|j: int|
                0 <= j < old(self)@.len() && j != id@ ==> #[trigger] final(self)@[j] == old(
                    self,
                )@[j]),
    {
        let index = id.0 as usize;
        if index < self.nodes.len() {
            Some(&mut self.nodes[index])
        } else {
            None
        }
    }

    /// Read access to every node of the store, in insertion order.
    pub fn get_values(&self) -> (r: &Vec<Node>)
        ensures
            r@.len() == self@.len(),
            forall|j: int| 0 <= j < r@.len() ==> #[trigger] r@[j]@ == self@[j],
    {
        &self.nodes
    }

    /// Whether `node_ids` all name nodes of this store, no two of them
    /// the same one.
    fn ids_valid(&self, node_ids: &[NodeID]) -> (b: bool)
        ensures
            b == ids_ok(self@, id_ints(node_ids@)),
    {
        let ghost ids = id_ints(node_ids@);
        let mut k: usize = 0;
        while k < node_ids.len()
            invariant
                0 <= k <= node_ids@.len(),
                ids == id_ints(node_ids@),
                forall|i: int| 0 <= i < k ==> 0 <= #[trigger] ids[i] < self@.len(),
                forall|i: int, j: int| 0 <= i < j < k ==> #[trigger] ids[i] != #[trigger] ids[j],
            decreases node_ids@.len() - k,
        {
            let index = node_ids[k].0 as usize;
            proof {
                assert(ids[k as int] == node_ids@[k as int]@);
            }
            if index >= self.nodes.len() {
                proof {
                    assert(!(0 <= ids[k as int] < self@.len()));
                }
                return false;
            }
            let mut i: usize = 0;
            while i < k
                invariant
                    0 <= i <= k < node_ids@.len(),
                    ids == id_ints(node_ids@),
                    forall|j: int| 0 <= j < i ==> #[trigger] ids[j] != ids[k as int],
                decreases k - i,
            {
                if node_ids[i].0 == node_ids[k].0 {
                    proof {
                        assert(ids[i as int] == node_ids@[i as int]@);
                        assert(ids[k as int] == node_ids@[k as int]@);
                        assert(ids[i as int] == ids[k as int]);
                    }
                    return false;
                }
                proof {
                    assert(ids[i as int] == node_ids@[i as int]@);
                    assert(ids[k as int] == node_ids@[k as int]@);
                }
                i = i + 1;
            }
            k = k + 1;
        }
        true
    }

    /// Copies of the nodes named by `node_ids`, in the order of
    /// `node_ids`: the working buffer of one solver pass. If any
    /// identifier is unknown, or two name the same node, the result is
    /// empty instead.
    pub fn get_nodes_mut(&self, node_ids: &[NodeID]) -> (r: Vec<Node>)
        ensures
            ids_ok(self@, id_ints(node_ids@)) ==> r@.len() == node_ids@.len()
                && (forall|k: int|
                    0 <= k < r@.len() ==> #[trigger] r@[k]@ == gather(
                        self@,
                        id_ints(node_ids@),
                    )[k]),
            !ids_ok(self@, id_ints(node_ids@)) ==> r@.len() == 0,
    {
        let ghost ids = id_ints(node_ids@);
        if !self.ids_valid(node_ids) {
            return Vec::new();
        }
        let mut buffer: Vec<Node> = Vec::new();
        let mut k: usize = 0;
        while k < node_ids.len()
            invariant
                0 <= k <= node_ids@.len(),
                ids_ok(self@, ids),
                ids == id_ints(node_ids@),
                buffer@.len() == k,
                forall|i: int| 0 <= i < k ==> #[trigger] buffer@[i]@ == gather(self@, ids)[i],
            decreases node_ids@.len() - k,
        {
            let index = node_ids[k].0 as usize;
            proof {
                assert(ids[k as int] == index);
            }
            buffer.push(self.nodes[index].clone());
            k = k + 1;
        }
        buffer
    }

    /// Writes `nodes[k]` back to the store slot named by `node_ids[k]`,
    /// for every `k`: the reinsertion of a solver's working buffer.
    pub fn set_nodes(&mut self, node_ids: &[NodeID], nodes: &Vec<Node>)
        requires
            ids_ok(old(self)@, id_ints(node_ids@)),
            node_ids@.len() == nodes@.len(),
        ensures
            scattered(
                old(self)@,
                id_ints(node_ids@),
                nodes@.map_values(|n: Node| n@),
                final(self)@,
            ),
    {
        let ghost ids = id_ints(node_ids@);
        let ghost vals = nodes@.map_values(|n: Node| n@);
        let mut k: usize = 0;
        while k < node_ids.len()
            invariant
                0 <= k <= node_ids@.len(),
                node_ids@.len() == nodes@.len(),
                ids == id_ints(node_ids@),
                vals == nodes@.map_values(|n: Node| n@),
                ids_ok(old(self)@, ids),
                self@.len() == old(self)@.len(),
                forall|i: int| 0 <= i < k ==> self@[#[trigger] ids[i]] == vals[i],
                forall|i: int| k <= i < ids.len() ==> self@[#[trigger] ids[i]] == old(self)@[ids[i]],
                forall|j: int|
                    0 <= j < old(self)@.len() && !ids.contains(j) ==> #[trigger] self@[j]
                        == old(self)@[j],
            decreases node_ids@.len() - k,
        {
            let index = node_ids[k].0 as usize;
            proof {
                assert(ids[k as int] == index);
                assert(ids.contains(ids[k as int]));
            }
            let ghost prev = self@;
            self.nodes.set(index, nodes[k].clone());
            proof {
                assert(self@.len() == prev.len());
                assert(self@[ids[k as int]] == nodes@[k as int]@);
                assert forall|j: int| 0 <= j < prev.len() && j != ids[k as int] implies self@[j]
                    == prev[j] by {
                    assert(self@[j] == self.nodes@[j]@);
                }
                assert forall|j: int|
                    0 <= j < old(self)@.len() && !ids.contains(j) implies self@[j] == old(
                    self,
                )@[j] by {
                    assert(ids.contains(ids[k as int]));
                    assert(j != ids[k as int]);
                    assert(prev[j] == old(self)@[j]);
                }
            }
            k = k + 1;
        }
    }
}

} // verus!
