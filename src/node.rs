//! Nodes and the arena that owns them.
//!
//! A queue is a chain of nodes: a dummy node first, then one node per queued
//! value, each node naming its successor by its index in the arena. Slots that
//! no chain uses are kept on a free list and handed out again, so a node is
//! reclaimed exactly when it leaves the chain.
use vstd::prelude::*;

verus! {

/// One link of the chain: a payload (none for the dummy node) and the index
/// of the successor, if any.
pub struct Node<T> {
    pub data: Option<T>,
    pub next: Option<usize>,
}

impl<T> Node<T> {
    /// A node that holds `data` and has no successor yet.
    pub fn new(data: T) -> (r: Node<T>)
        ensures
            r.data == Some(data),
            r.next is None,
    {
        Node { data: Some(data), next: None }
    }

    /// A node with no payload and no successor: the dummy of a fresh chain.
    pub fn dummy() -> (r: Node<T>)
        ensures
            r.data is None,
            r.next is None,
    {
        Node { data: None, next: None }
    }
}

/// The nodes of one queue. `chain` lists, in order, the indices of the nodes
/// reachable from the dummy node; `free` lists the slots that may be reused.
pub(crate) struct NodeArena<T> {
    pub(crate) nodes: Vec<Node<T>>,
    pub(crate) free: Vec<usize>,
    pub(crate) chain: Ghost<Seq<usize>>,
}

impl<T> NodeArena<T> {
    /// The successor links of the chain follow `chain`, and the chain ends.
    pub(crate) open spec fn linked(nodes: Seq<Node<T>>, chain: Seq<usize>) -> bool {
        &&& forall|k: int| 0 <= k < chain.len() ==> #[trigger] chain[k] < nodes.len()
        &&& forall|k: int|
            0 <= k < chain.len() - 1 ==> nodes[#[trigger] chain[k] as int].next == Some(chain[k + 1])
        &&& nodes[chain.last() as int].next is None
    }

    /// The dummy node carries no payload; every other node of the chain does.
    pub(crate) open spec fn payloads_placed(nodes: Seq<Node<T>>, chain: Seq<usize>) -> bool {
        &&& nodes[chain[0] as int].data is None
        &&& forall|k: int| 1 <= k < chain.len() ==> (#[trigger] nodes[chain[k] as int]).data is Some
    }

    /// Every slot is either in the chain or on the free list, never both,
    /// and a free slot holds no payload.
    pub(crate) open spec fn slots_accounted(nodes: Seq<Node<T>>, chain: Seq<usize>, free: Seq<usize>) -> bool {
        &&& free.no_duplicates()
        &&& forall|j: int| 0 <= j < free.len() ==> #[trigger] free[j] < nodes.len()
        &&& forall|j: int| 0 <= j < free.len() ==> !chain.contains(#[trigger] free[j])
        &&& forall|j: int| 0 <= j < free.len() ==> (#[trigger] nodes[free[j] as int]).data is None
        &&& nodes.len() == chain.len() + free.len()
    }

    pub(crate) open spec fn wf(&self) -> bool {
        let chain = self.chain@;
        &&& chain.len() >= 1
        &&& chain.no_duplicates()
        &&& Self::linked(self.nodes@, chain)
        &&& Self::payloads_placed(self.nodes@, chain)
        &&& Self::slots_accounted(self.nodes@, chain, self.free@)
    }

    /// The values held by the chain, front first (the dummy node excluded).
    pub(crate) open spec fn values(&self) -> Seq<T> {
        Seq::new((self.chain@.len() - 1) as nat, |k: int| self.nodes@[self.chain@[k + 1] as int].data->Some_0)
    }

    /// The index of the dummy node.
    pub(crate) open spec fn first(&self) -> usize {
        self.chain@[0]
    }

    /// The index of the last node of the chain.
    pub(crate) open spec fn last(&self) -> usize {
        self.chain@.last()
    }

    /// An arena that holds the dummy node alone, at index 0.
    pub(crate) fn new() -> (r: Self)
        ensures
            r.wf(),
            r.chain@ == seq![0usize],
            r.values() =~= Seq::<T>::empty(),
    {
        let mut nodes: Vec<Node<T>> = Vec::new();
        nodes.push(Node::dummy());
        let ghost chain = seq![0usize];
        NodeArena { nodes, free: Vec::new(), chain: Ghost(chain) }
    }

    /// The successor of node `i`, read off its link.
    pub(crate) fn next_of(&self, i: usize) -> (r: Option<usize>)
        requires
            self.wf(),
            self.chain@.contains(i),
        ensures
            forall|k: int|
                0 <= k < self.chain@.len() && #[trigger] self.chain@[k] == i ==> r == if k + 1
                    < self.chain@.len() {
                    Some(self.chain@[k + 1])
                } else {
                    None::<usize>
                },
    {
        self.nodes[i].next
    }

    /// Links a new node holding `data` after the last node `last`, reusing a
    /// free slot when there is one.
    pub(crate) fn append(&mut self, last: usize, data: T) -> (n: usize)
        requires
            old(self).wf(),
            last == old(self).last(),
        ensures
            final(self).wf(),
            final(self).chain@ == old(self).chain@.push(n),
            final(self).values() == old(self).values().push(data),
    {
        let ghost chain = self.chain@;
        let ghost old_nodes = self.nodes@;
        let n: usize;
        if self.free.len() > 0 {
            n = self.free.pop().unwrap();
            assert(self.free@ == old(self).free@.drop_last());
            assert(old(self).free@.last() == n);
            self.nodes.set(n, Node::new(data));
        } else {
            n = self.nodes.len();
            self.nodes.push(Node::new(data));
        }
        self.nodes[last].next = Some(n);
        self.chain = Ghost(chain.push(n));
        proof {
            let c2 = chain.push(n);
            assert(!chain.contains(n));
            assert forall|k: int| 0 <= k < chain.len() implies self.nodes@[chain[k] as int] == old_nodes[chain[k] as int]
                || chain[k] == last by {}
            assert(c2.no_duplicates()) by {
                assert forall|a: int, b: int| 0 <= a < c2.len() && 0 <= b < c2.len() && a != b implies c2[a] != c2[b] by {
                    if a < chain.len() && b < chain.len() {
                    } else if a == chain.len() {
                        assert(chain.contains(c2[b]) || b == a);
                    } else {
                        assert(chain.contains(c2[a]));
                    }
                }
            }
            assert(Self::linked(self.nodes@, c2));
            assert(Self::payloads_placed(self.nodes@, c2));
            assert(Self::slots_accounted(self.nodes@, c2, self.free@)) by {
                assert forall|j: int| 0 <= j < self.free@.len() implies !c2.contains(#[trigger] self.free@[j]) by {
                    assert(self.free@[j] == old(self).free@[j]);
                    assert(!chain.contains(self.free@[j]));
                    if c2.contains(self.free@[j]) {
                        let k = choose|k: int| 0 <= k < c2.len() && c2[k] == self.free@[j];
                        if k < chain.len() {
                            assert(chain.contains(c2[k]));
                        }
                    }
                }
            }
            assert(self.values() =~= old(self).values().push(data));
        }
        n
    }
    /// Retires the dummy node `head`: its successor `nx` becomes the dummy,
    /// the payload `nx` held is handed back, and the old dummy's slot goes to
    /// the free list.
    pub(crate) fn retire_first(&mut self, head: usize, nx: usize) -> (d: T)
        requires
            old(self).wf(),
            old(self).chain@.len() > 1,
            head == old(self).first(),
            nx == old(self).chain@[1],
        ensures
            final(self).wf(),
            final(self).chain@ == old(self).chain@.drop_first(),
            d == old(self).values()[0],
            final(self).values() == old(self).values().drop_first(),
    {
        let ghost chain = self.chain@;
        let ghost old_nodes = self.nodes@;
        let mut slot: Option<T> = None;
        std::mem::swap(&mut self.nodes[nx].data, &mut slot);
        self.nodes[head].next = None;
        self.free.push(head);
        self.chain = Ghost(chain.drop_first());
        proof {
            let c2 = chain.drop_first();
            assert(old_nodes[chain[1] as int].data is Some);
            assert forall|k: int| 0 <= k < chain.len() implies self.nodes@[chain[k] as int].next
                == old_nodes[chain[k] as int].next || k == 0 by {
                if k != 0 {
                    assert(chain[k] != chain[0]);
                }
            }
            assert forall|k: int| 0 <= k < chain.len() implies self.nodes@[chain[k] as int].data
                == old_nodes[chain[k] as int].data || k == 1 by {
                if k != 1 {
                    assert(chain[k] != chain[1]);
                }
            }
            assert forall|j: int| 0 <= j < old(self).free@.len() implies self.nodes@[old(self).free@[j] as int]
                == old_nodes[old(self).free@[j] as int] by {
                assert(!chain.contains(old(self).free@[j]));
                assert(chain.contains(chain[0]));
                assert(chain.contains(chain[1]));
            }
            assert(c2.no_duplicates());
            assert(Self::linked(self.nodes@, c2)) by {
                assert forall|k: int| 0 <= k < c2.len() - 1 implies self.nodes@[#[trigger] c2[k] as int].next
                    == Some(c2[k + 1]) by {
                    assert(c2[k] == chain[k + 1]);
                }
            }
            assert(Self::payloads_placed(self.nodes@, c2)) by {
                assert forall|k: int| 1 <= k < c2.len() implies (#[trigger] self.nodes@[c2[k] as int]).data is Some by {
                    assert(c2[k] == chain[k + 1]);
                }
            }
            assert(Self::slots_accounted(self.nodes@, c2, self.free@)) by {
                let f = self.free@;
                assert(f == old(self).free@.push(head));
                assert(!old(self).free@.contains(head)) by {
                    if old(self).free@.contains(head) {
                        let j = choose|j: int| 0 <= j < old(self).free@.len() && old(self).free@[j] == head;
                        assert(chain.contains(old(self).free@[j]));
                    }
                }
                assert forall|a: int, b: int| 0 <= a < f.len() && 0 <= b < f.len() && a != b implies f[a] != f[b] by {
                    if a < f.len() - 1 && b < f.len() - 1 {
                    } else if a == f.len() - 1 {
                        assert(old(self).free@.contains(f[b]) || b == a);
                    } else {
                        assert(old(self).free@.contains(f[a]));
                    }
                }
                assert forall|j: int| 0 <= j < f.len() implies !c2.contains(#[trigger] f[j]) by {
                    if c2.contains(f[j]) {
                        let k = choose|k: int| 0 <= k < c2.len() && c2[k] == f[j];
                        assert(c2[k] == chain[k + 1]);
                        if j < f.len() - 1 {
                            assert(chain.contains(old(self).free@[j]));
                        }
                    }
                }
            }
            assert(self.values() =~= old(self).values().drop_first());
        }
        slot.unwrap()
    }
}

} // verus!
