//! The abstract queue: a sequence of values, front first.
use vstd::prelude::*;

verus! {

/// The value a pop hands back from a queue holding `s`: its front, if any.
pub open spec fn front<T>(s: Seq<T>) -> Option<T> {
    if s.len() == 0 {
        None
    } else {
        Some(s[0])
    }
}

/// What a queue holding `s` holds after a pop.
pub open spec fn rest<T>(s: Seq<T>) -> Seq<T> {
    if s.len() == 0 {
        s
    } else {
        s.drop_first()
    }
}

/// What a queue holding `s` holds after `vs` are pushed one by one, in order.
pub open spec fn push_all<T>(s: Seq<T>, vs: Seq<T>) -> Seq<T>
    decreases vs.len(),
{
    if vs.len() == 0 {
        s
    } else {
        push_all(s.push(vs[0]), vs.drop_first())
    }
}

/// What `k` pops in a row hand back from a queue holding `s`.
pub open spec fn drain<T>(s: Seq<T>, k: nat) -> Seq<Option<T>>
    decreases k,
{
    if k == 0 {
        Seq::empty()
    } else {
        seq![front(s)] + drain(rest(s), (k - 1) as nat)
    }
}

/// One operation of a history: a push of a value, or a pop.
pub enum QueueOp<T> {
    Push(T),
    Pop,
}

/// What a queue holds after the operations `ops`, taken in their order of
/// effect, starting from an empty queue.
pub open spec fn state_after<T>(ops: Seq<QueueOp<T>>) -> Seq<T>
    decreases ops.len(),
{
    if ops.len() == 0 {
        Seq::empty()
    } else {
        let s = state_after(ops.drop_last());
        match ops.last() {
            QueueOp::Push(v) => s.push(v),
            QueueOp::Pop => rest(s),
        }
    }
}

/// What the pops of `ops` hand back, in order, empty results included.
pub open spec fn results<T>(ops: Seq<QueueOp<T>>) -> Seq<Option<T>>
    decreases ops.len(),
{
    if ops.len() == 0 {
        Seq::empty()
    } else {
        let prev = results(ops.drop_last());
        match ops.last() {
            QueueOp::Push(_) => prev,
            QueueOp::Pop => prev.push(front(state_after(ops.drop_last()))),
        }
    }
}

/// The values pushed by `ops`, in order.
pub open spec fn pushed<T>(ops: Seq<QueueOp<T>>) -> Seq<T>
    decreases ops.len(),
{
    if ops.len() == 0 {
        Seq::empty()
    } else {
        let prev = pushed(ops.drop_last());
        match ops.last() {
            QueueOp::Push(v) => prev.push(v),
            QueueOp::Pop => prev,
        }
    }
}

/// The values that the non-empty pops of `ops` hand back, in order.
pub open spec fn popped<T>(ops: Seq<QueueOp<T>>) -> Seq<T>
    decreases ops.len(),
{
    if ops.len() == 0 {
        Seq::empty()
    } else {
        let prev = popped(ops.drop_last());
        match ops.last() {
            QueueOp::Push(_) => prev,
            QueueOp::Pop => match front(state_after(ops.drop_last())) {
                Some(v) => prev.push(v),
                None => prev,
            },
        }
    }
}

/// No prefix of `ops` holds more pops than pushes.
pub open spec fn pops_never_outrun<T>(ops: Seq<QueueOp<T>>) -> bool {
    forall|i: int| 0 <= i <= ops.len() ==> #[trigger] results(ops.take(i)).len() <= pushed(ops.take(i)).len()
}

} // verus!
