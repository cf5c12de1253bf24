//! The queue whose tail may lag one node behind the end of the chain.
//!
//! A push first links its node after the last node and only then moves the
//! tail, so between the two steps the tail names the node before the last.
//! Every operation that finds the tail lagging moves it forward ("helps")
//! before it goes on, which is why each retry loop ends.
use vstd::prelude::*;
use crate::model::{front, rest};
use crate::node::NodeArena;

verus! {

/// A FIFO queue over a chain that starts with a dummy node, whose tail is
/// the last node or the one before it.
pub struct LockFreeQueue<T> {
    nodes: NodeArena<T>,
    head: usize,
    tail: usize,
}

impl<T> View for LockFreeQueue<T> {
    type V = Seq<T>;

    /// The queued values, front first.
    closed spec fn view(&self) -> Seq<T> {
        self.nodes.values()
    }
}

impl<T> LockFreeQueue<T> {
    /// The chain is well formed, `head` is its dummy node, and `tail` is its
    /// last node or lags one node behind it.
    pub closed spec fn wf(&self) -> bool {
        let chain = self.nodes.chain@;
        &&& self.nodes.wf()
        &&& self.head == self.nodes.first()
        &&& (self.tail == self.nodes.last() || (chain.len() >= 2 && self.tail == chain[chain.len() - 2]))
    }

    /// How many steps the tail lags behind the last node.
    spec fn lag(&self) -> int {
        if self.tail == self.nodes.last() {
            0
        } else {
            1
        }
    }

    /// An empty queue: head and tail both name the dummy node.
    pub fn new() -> (r: Self)
        ensures
            r.wf(),
            r@ == Seq::<T>::empty(),
    {
        let nodes = NodeArena::new();
        LockFreeQueue { nodes, head: 0, tail: 0 }
    }

    /// Adds `data` at the back: links it after the node that has no
    /// successor, helping a lagging tail forward first.
    pub fn push(&mut self, data: T)
        requires
            old(self).wf(),
        ensures
            final(self).wf(),
            final(self)@ == old(self)@.push(data),
    {
        loop
            invariant
                self.wf(),
                self@ == old(self)@,
            decreases self.lag(),
        {
            let t = self.tail;
            proof {
                assert(self.nodes.chain@.contains(t));
            }
            match self.nodes.next_of(t) {
                None => {
                    let n = self.nodes.append(t, data);
                    self.tail = n;
                    return;
                },
                Some(s) => {
                    self.tail = s;
                },
            }
        }
    }

    /// Removes and returns the front value, or `None` when the dummy node
    /// has no successor. A tail found on the dummy while a successor exists
    /// is helped forward first.
    pub fn pop(&mut self) -> (r: Option<T>)
        requires
            old(self).wf(),
        ensures
            final(self).wf(),
            r == front(old(self)@),
            final(self)@ == rest(old(self)@),
    {
        loop
            invariant
                self.wf(),
                self@ == old(self)@,
            decreases self.lag(),
        {
            let h = self.head;
            let t = self.tail;
            proof {
                assert(self.nodes.chain@.contains(h));
            }
            match self.nodes.next_of(h) {
                None => {
                    return None;
                },
                Some(s) => {
                    if h == t {
                        self.tail = s;
                    } else {
                        let d = self.nodes.retire_first(h, s);
                        self.head = s;
                        return Some(d);
                    }
                },
            }
        }
    }
}

} // verus!
