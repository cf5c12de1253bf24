//! The queue whose two ends are taken in turn by pushes and by pops.
//!
//! Pushes work at the tail alone and pops at the head alone: a push links a
//! node after the last one and moves the tail; a pop hands back the payload of
//! the dummy's successor, which then becomes the dummy.
use vstd::prelude::*;
use crate::model::{front, rest};
use crate::node::NodeArena;

verus! {

/// A FIFO queue over a chain that starts with a dummy node.
pub struct TwoLockQueue<T> {
    nodes: NodeArena<T>,
    head: usize,
    tail: usize,
}

impl<T> View for TwoLockQueue<T> {
    type V = Seq<T>;

    /// The queued values, front first.
    closed spec fn view(&self) -> Seq<T> {
        self.nodes.values()
    }
}

impl<T> TwoLockQueue<T> {
    /// The chain is well formed, `head` is its dummy node and `tail` its last node.
    pub closed spec fn wf(&self) -> bool {
        &&& self.nodes.wf()
        &&& self.head == self.nodes.first()
        &&& self.tail == self.nodes.last()
    }

    /// An empty queue: the chain holds the dummy node alone.
    pub fn new() -> (r: Self)
        ensures
            r.wf(),
            r@ == Seq::<T>::empty(),
    {
        let nodes = NodeArena::new();
        TwoLockQueue { nodes, head: 0, tail: 0 }
    }

    /// Adds `data` at the back.
    pub fn push(&mut self, data: T)
        requires
            old(self).wf(),
        ensures
            final(self).wf(),
            final(self)@ == old(self)@.push(data),
    {
        let n = self.nodes.append(self.tail, data);
        self.tail = n;
    }

    /// Removes and returns the front value, or `None` when the queue is empty.
    pub fn pop(&mut self) -> (r: Option<T>)
        requires
            old(self).wf(),
        ensures
            final(self).wf(),
            r == front(old(self)@),
            final(self)@ == rest(old(self)@),
    {
        match self.nodes.next_of(self.head) {
            None => None,
            Some(nx) => {
                let d = self.nodes.retire_first(self.head, nx);
                self.head = nx;
                Some(d)
            },
        }
    }
}

} // verus!
