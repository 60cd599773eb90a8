//! A map from node ids to values, walked in ascending order of the ids.

use vstd::prelude::*;

verus! {

/// A map whose keys are node ids.
#[derive(Debug, Clone)]
pub struct NodeMap<T> {
    nodes: Vec<u64>,
    values: Vec<T>,
}

/// Whether ids ascend.
pub open spec fn ascending(nodes: Seq<u64>) -> bool {
    forall|i: int, j: int| 0 <= i < j < nodes.len() ==> nodes[i] < nodes[j]
}

impl<T> View for NodeMap<T> {
    type V = Map<u64, T>;

    closed spec fn view(&self) -> Map<u64, T> {
        Map::new(
            |node: u64| self.nodes@.contains(node),
            |node: u64| self.values@[self.nodes@.index_of(node)],
        )
    }
}

impl<T> NodeMap<T> {
    /// Whether the map is well formed.
    pub closed spec fn wf(&self) -> bool {
        self.nodes@.len() == self.values@.len() && ascending(self.nodes@)
    }

    /// The ids of the map, in ascending order.
    pub closed spec fn ids(&self) -> Seq<u64> {
        self.nodes@
    }

    /// An empty map.
    pub fn new() -> (map: NodeMap<T>)
        ensures
            map.wf(),
            map@ == Map::<u64, T>::empty(),
    {
        let map = NodeMap { nodes: Vec::new(), values: Vec::new() };
        assert(map@ =~= Map::<u64, T>::empty());
        map
    }

    /// The first position whose id is not before `node`.
    fn slot(&self, node: u64) -> (at: usize)
        requires
            self.wf(),
        ensures
            at <= self.nodes@.len(),
            forall|i: int| 0 <= i < at ==> self.nodes@[i] < node,
            forall|i: int| at <= i < self.nodes@.len() ==> self.nodes@[i] >= node,
    {
        let mut at: usize = 0;
        while at < self.nodes.len() && self.nodes[at] < node
            invariant
                self.wf(),
                at <= self.nodes@.len(),
                forall|i: int| 0 <= i < at ==> self.nodes@[i] < node,
            decreases self.nodes@.len() - at,
        {
            at = at + 1;
        }
        at
    }

    proof fn lemma_at(&self, at: int)
        requires
            self.wf(),
            0 <= at < self.nodes@.len(),
        ensures
            self@.dom().contains(self.nodes@[at]),
            self@[self.nodes@[at]] == self.values@[at],
    {
        let node = self.nodes@[at];
        assert(self.nodes@.contains(node));
        let k = self.nodes@.index_of(node);
        assert(self.nodes@[k] == node && 0 <= k < self.nodes@.len());
        assert(k == at);
    }

    /// What a node maps to.
    pub fn get(&self, node: u64) -> (value: Option<&T>)
        requires
            self.wf(),
        ensures
            match value {
                Some(found) => self@.dom().contains(node) && *found == self@[node],
                None => !self@.dom().contains(node),
            },
    {
        let at: usize = self.slot(node);
        if at < self.nodes.len() && self.nodes[at] == node {
            proof {
                self.lemma_at(at as int);
            }
            Some(&self.values[at])
        } else {
            assert(!self.nodes@.contains(node));
            None
        }
    }

    /// Maps a node to a value, in place of what it mapped to.
    pub fn insert(&mut self, node: u64, value: T)
        requires
            old(self).wf(),
        ensures
            final(self).wf(),
            final(self)@ == old(self)@.insert(node, value),
    {
        let at: usize = self.slot(node);
        let ghost before = *self;
        if at < self.nodes.len() && self.nodes[at] == node {
            self.values.set(at, value);
            proof {
                assert forall|other: u64| #[trigger] self@.dom().contains(other) implies self@[other]
                    == before@.insert(node, value)[other] by {
                    let k = self.nodes@.index_of(other);
                    assert(self.nodes@[k] == other && 0 <= k < self.nodes@.len());
                    self.lemma_at(k);
                    before.lemma_at(k);
                }
                assert(self.nodes@[at as int] == node);
                assert(self@ =~= before@.insert(node, value));
            }
        } else {
            self.nodes.insert(at, node);
            self.values.insert(at, value);
            proof {
                let nodes = self.nodes@;
                assert forall|i: int, j: int| 0 <= i < j < nodes.len() implies nodes[i]
                    < nodes[j] by {
                    let a = if i < at {
                        i
                    } else {
                        i - 1
                    };
                    let b = if j < at {
                        j
                    } else {
                        j - 1
                    };
                    if i != at {
                        assert(nodes[i] == before.nodes@[a]);
                    }
                    if j != at {
                        assert(nodes[j] == before.nodes@[b]);
                    }
                }
                assert forall|other: u64| #[trigger] self@.dom().contains(other) <==> before@.insert(
                    node,
                    value,
                ).dom().contains(other) by {
                    if nodes.contains(other) {
                        let k = choose|k: int| 0 <= k < nodes.len() && nodes[k] == other;
                        if k < at {
                            assert(before.nodes@[k] == other);
                        } else if k > at {
                            assert(before.nodes@[k - 1] == other);
                        }
                    }
                    if before.nodes@.contains(other) {
                        let k = choose|k: int|
                            0 <= k < before.nodes@.len() && before.nodes@[k] == other;
                        if k < at {
                            assert(nodes[k] == other);
                        } else {
                            assert(nodes[k + 1] == other);
                        }
                    }
                    assert(nodes[at as int] == node);
                }
                assert forall|other: u64| #[trigger] self@.dom().contains(other) implies self@[other]
                    == before@.insert(node, value)[other] by {
                    let k = nodes.index_of(other);
                    assert(nodes[k] == other && 0 <= k < nodes.len());
                    self.lemma_at(k);
                    if k < at {
                        assert(before.nodes@[k] == other);
                        before.lemma_at(k);
                    } else if k > at {
                        assert(before.nodes@[k - 1] == other);
                        before.lemma_at(k - 1);
                    }
                }
                assert(self@ =~= before@.insert(node, value));
            }
        }
    }

    /// The values, in ascending order of their nodes.
    pub fn values(&self) -> (values: &Vec<T>)
        requires
            self.wf(),
        ensures
            ascending(self.ids()),
            forall|node: u64| self@.dom().contains(node) <==> self.ids().contains(node),
            values@.len() == self.ids().len(),
            forall|i: int| 0 <= i < values@.len() ==> #[trigger] values@[i] == self@[self.ids()[i]],
    {
        proof {
            assert forall|i: int| 0 <= i < self.values@.len() implies #[trigger] self.values@[i]
                == self@[self.ids()[i]] by {
                self.lemma_at(i);
            }
        }
        &self.values
    }
}

} // verus!
