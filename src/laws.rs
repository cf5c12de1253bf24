//! Laws that hold of every queue of this crate, stated over the abstract
//! queue that the contracts of `push` and `pop` speak of.
use vstd::prelude::*;
use crate::model::{
    drain, front, pops_never_outrun, popped, push_all, pushed, rest, results, state_after, QueueOp,
};

verus! {

broadcast use vstd::seq_lib::group_seq_properties;

proof fn lemma_push_all_appends<T>(s: Seq<T>, vs: Seq<T>)
    ensures
        push_all(s, vs) == s + vs,
    decreases vs.len(),
{
    if vs.len() > 0 {
        lemma_push_all_appends(s.push(vs[0]), vs.drop_first());
        assert(s.push(vs[0]) + vs.drop_first() =~= s + vs);
    } else {
        assert(s + vs =~= s);
    }
}

proof fn lemma_drain_all<T>(vs: Seq<T>)
    ensures
        drain(vs, (vs.len() + 1) as nat) =~= vs.map_values(|v: T| Some(v)).push(None),
    decreases vs.len(),
{
    if vs.len() > 0 {
        lemma_drain_all(vs.drop_first());
        assert(vs.drop_first().map_values(|v: T| Some(v)) =~= vs.map_values(|v: T| Some(v)).drop_first());
    } else {
        assert(drain(rest(vs), 0) =~= Seq::<Option<T>>::empty());
    }
}

/// First in, first out: values pushed one by one onto an empty queue come
/// back from as many pops in the order they were pushed, and one more pop
/// finds the queue empty.
pub proof fn lemma_fifo<T>(vs: Seq<T>)
    ensures
        drain(push_all(Seq::empty(), vs), (vs.len() + 1) as nat) == vs.map_values(|v: T| Some(v)).push(None),
{
    lemma_push_all_appends(Seq::empty(), vs);
    assert(Seq::<T>::empty() + vs =~= vs);
    lemma_drain_all(vs);
}

/// A pop on a queue that holds nothing hands back nothing and leaves it empty.
pub proof fn lemma_pop_empty<T>()
    ensures
        front(Seq::<T>::empty()) is None,
        rest(Seq::<T>::empty()) == Seq::<T>::empty(),
{
}

/// Nothing is lost and nothing duplicated: over any history, the values
/// pushed are those that pops handed back, in order, followed by those
/// still queued.
pub proof fn lemma_no_loss<T>(ops: Seq<QueueOp<T>>)
    ensures
        pushed(ops) == popped(ops) + state_after(ops),
    decreases ops.len(),
{
    if ops.len() > 0 {
        let prev = ops.drop_last();
        lemma_no_loss(prev);
        let s = state_after(prev);
        match ops.last() {
            QueueOp::Push(v) => {
                assert(popped(prev) + s.push(v) =~= (popped(prev) + s).push(v));
            },
            QueueOp::Pop => {
                if s.len() > 0 {
                    assert(popped(prev).push(s[0]) + s.drop_first() =~= popped(prev) + s);
                }
            },
        }
    } else {
        assert(Seq::<T>::empty() + Seq::<T>::empty() =~= Seq::<T>::empty());
    }
}

/// Once a history has drained the queue, every value pushed came back
/// exactly as often as it was pushed, in the order of the pushes; when the
/// pushed values are distinct, each came back exactly once.
pub proof fn lemma_drained_exactly_once<T>(ops: Seq<QueueOp<T>>)
    requires
        state_after(ops).len() == 0,
    ensures
        popped(ops) == pushed(ops),
        pushed(ops).no_duplicates() ==> forall|v: T| #[trigger] pushed(ops).contains(v)
            ==> popped(ops).to_multiset().count(v) == 1,
{
    lemma_no_loss(ops);
    assert(popped(ops) + state_after(ops) =~= popped(ops));
    if pushed(ops).no_duplicates() {
        pushed(ops).lemma_multiset_has_no_duplicates();
        assert forall|v: T| #[trigger] pushed(ops).contains(v) implies popped(ops).to_multiset().count(v) == 1 by {
            pushed(ops).to_multiset_ensures();
        }
    }
}

proof fn lemma_balanced_counts<T>(ops: Seq<QueueOp<T>>)
    requires
        pops_never_outrun(ops),
    ensures
        state_after(ops).len() == pushed(ops).len() - results(ops).len(),
        popped(ops).len() == results(ops).len(),
    decreases ops.len(),
{
    assert(ops.take(ops.len() as int) =~= ops);
    if ops.len() > 0 {
        let prev = ops.drop_last();
        assert forall|i: int| 0 <= i <= prev.len() implies #[trigger] results(prev.take(i)).len()
            <= pushed(prev.take(i)).len() by {
            assert(prev.take(i) =~= ops.take(i));
        }
        lemma_balanced_counts(prev);
    }
}

/// Balance: in a history of `m` pushes and `m` pops in which pops never
/// outrun pushes, every pop hands back a value, and the values handed back
/// are, as a multiset, the values pushed.
pub proof fn lemma_balanced<T>(ops: Seq<QueueOp<T>>)
    requires
        pops_never_outrun(ops),
        results(ops).len() == pushed(ops).len(),
    ensures
        popped(ops).len() == pushed(ops).len(),
        forall|i: int| 0 <= i < results(ops).len() ==> #[trigger] results(ops)[i] is Some,
        popped(ops).to_multiset() == pushed(ops).to_multiset(),
{
    lemma_balanced_counts(ops);
    lemma_drained_exactly_once(ops);
    lemma_results_match(ops);
}

proof fn lemma_results_match<T>(ops: Seq<QueueOp<T>>)
    requires
        pops_never_outrun(ops),
    ensures
        forall|i: int| 0 <= i < results(ops).len() ==> #[trigger] results(ops)[i] is Some,
    decreases ops.len(),
{
    assert(ops.take(ops.len() as int) =~= ops);
    if ops.len() > 0 {
        let prev = ops.drop_last();
        assert forall|i: int| 0 <= i <= prev.len() implies #[trigger] results(prev.take(i)).len()
            <= pushed(prev.take(i)).len() by {
            assert(prev.take(i) =~= ops.take(i));
        }
        lemma_results_match(prev);
        lemma_balanced_counts(prev);
    }
}

} // verus!
