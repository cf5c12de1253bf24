use msqueue::{LockFreeQueue, Node, TwoLockQueue};
use std::collections::HashSet;

#[test]
fn node_new_holds_data_and_no_successor() {
    let n = Node::new(5u32);
    assert_eq!(n.data, Some(5));
    assert_eq!(n.next, None);
    let d: Node<u32> = Node::dummy();
    assert_eq!(d.data, None);
    assert_eq!(d.next, None);
}

#[test]
fn lockfree_push_three_pop_three() {
    let mut q: LockFreeQueue<i32> = LockFreeQueue::new();
    q.push(1);
    q.push(2);
    q.push(3);
    assert_eq!(q.pop(), Some(1));
    assert_eq!(q.pop(), Some(2));
    assert_eq!(q.pop(), Some(3));
    assert_eq!(q.pop(), None);
}

#[test]
fn twolock_push_three_pop_three() {
    let mut q: TwoLockQueue<i32> = TwoLockQueue::new();
    q.push(1);
    q.push(2);
    q.push(3);
    assert_eq!(q.pop(), Some(1));
    assert_eq!(q.pop(), Some(2));
    assert_eq!(q.pop(), Some(3));
    assert_eq!(q.pop(), None);
}

#[test]
fn fresh_queues_are_empty() {
    let mut a: LockFreeQueue<String> = LockFreeQueue::new();
    let mut b: TwoLockQueue<String> = TwoLockQueue::new();
    assert_eq!(a.pop(), None);
    assert_eq!(b.pop(), None);
    assert_eq!(a.pop(), None);
    assert_eq!(b.pop(), None);
}

#[test]
fn fifo_order_of_many_values() {
    let mut a: LockFreeQueue<u64> = LockFreeQueue::new();
    let mut b: TwoLockQueue<u64> = TwoLockQueue::new();
    for v in 0..200u64 {
        a.push(v * 3);
        b.push(v * 3);
    }
    for v in 0..200u64 {
        assert_eq!(a.pop(), Some(v * 3));
        assert_eq!(b.pop(), Some(v * 3));
    }
    assert_eq!(a.pop(), None);
    assert_eq!(b.pop(), None);
}

#[test]
fn interleaved_pushes_and_pops_balance() {
    let mut a: LockFreeQueue<u32> = LockFreeQueue::new();
    let mut b: TwoLockQueue<u32> = TwoLockQueue::new();
    let mut out_a = Vec::new();
    let mut out_b = Vec::new();
    let mut next = 0u32;
    for round in 0..50u32 {
        for _ in 0..(round % 4 + 1) {
            a.push(next);
            b.push(next);
            next += 1;
        }
        for _ in 0..(round % 3) {
            if let Some(v) = a.pop() {
                out_a.push(v);
            }
            if let Some(v) = b.pop() {
                out_b.push(v);
            }
        }
    }
    while let Some(v) = a.pop() {
        out_a.push(v);
    }
    while let Some(v) = b.pop() {
        out_b.push(v);
    }
    let expected: Vec<u32> = (0..next).collect();
    assert_eq!(out_a, expected);
    assert_eq!(out_b, expected);
}

#[test]
fn reuse_after_draining() {
    let mut q: LockFreeQueue<u8> = LockFreeQueue::new();
    q.push(1);
    assert_eq!(q.pop(), Some(1));
    assert_eq!(q.pop(), None);
    q.push(2);
    q.push(3);
    assert_eq!(q.pop(), Some(2));
    q.push(4);
    assert_eq!(q.pop(), Some(3));
    assert_eq!(q.pop(), Some(4));
    assert_eq!(q.pop(), None);
}

#[test]
fn many_push_pop_cycles_then_drop() {
    let mut a: LockFreeQueue<Vec<u8>> = LockFreeQueue::new();
    let mut b: TwoLockQueue<Vec<u8>> = TwoLockQueue::new();
    for i in 0..10_000usize {
        a.push(vec![(i % 256) as u8; 8]);
        b.push(vec![(i % 256) as u8; 8]);
        assert_eq!(a.pop(), Some(vec![(i % 256) as u8; 8]));
        assert_eq!(b.pop(), Some(vec![(i % 256) as u8; 8]));
    }
    a.push(vec![1]);
    b.push(vec![2]);
    drop(a);
    drop(b);
}

fn tag(producer: u32, i: u32) -> u32 {
    producer * 10_000 + i
}

#[test]
fn two_producers_interleaved_each_tag_once_in_producer_order() {
    let mut q: TwoLockQueue<u32> = TwoLockQueue::new();
    let mut p0 = 0u32;
    let mut p1 = 0u32;
    let mut step = 0u32;
    while p0 < 500 || p1 < 500 {
        if (step % 3 != 0 && p0 < 500) || p1 == 500 {
            q.push(tag(0, p0));
            p0 += 1;
        } else {
            q.push(tag(1, p1));
            p1 += 1;
        }
        step += 1;
    }
    let mut seen = HashSet::new();
    let mut last = [None::<u32>, None::<u32>];
    let mut count = 0;
    while count < 1000 {
        let v = q.pop().expect("a value");
        assert!(seen.insert(v));
        let p = (v / 10_000) as usize;
        if let Some(prev) = last[p] {
            assert!(prev < v);
        }
        last[p] = Some(v);
        count += 1;
    }
    assert_eq!(q.pop(), None);
    assert_eq!(seen.len(), 1000);
}

/// A small linear congruential generator that picks the next actor of a schedule.
fn next_pick(state: &mut u64, n: u64) -> u64 {
    *state = state.wrapping_mul(6364136223846793005).wrapping_add(1442695040888963407);
    (*state >> 33) % n
}

fn two_producers_then_drain<Q>(q: &mut Q, push: fn(&mut Q, u32), pop: fn(&mut Q) -> Option<u32>) {
    let mut rng = 7u64;
    let mut done = [0u32, 0u32];
    while done[0] < 500 || done[1] < 500 {
        let mut p = next_pick(&mut rng, 2) as usize;
        if done[p] == 500 {
            p = 1 - p;
        }
        push(q, tag(p as u32, done[p]));
        done[p] += 1;
    }
    let mut seen = HashSet::new();
    let mut last = [None::<u32>, None::<u32>];
    while seen.len() < 1000 {
        let v = pop(q).expect("a value");
        assert!(seen.insert(v));
        let p = (v / 10_000) as usize;
        if let Some(prev) = last[p] {
            assert!(prev < v);
        }
        last[p] = Some(v);
    }
    assert_eq!(pop(q), None);
}

#[test]
fn two_producers_push_500_each_lockfree() {
    let mut q = LockFreeQueue::<u32>::new();
    two_producers_then_drain(&mut q, |q, v| q.push(v), |q| q.pop());
}

#[test]
fn two_producers_push_500_each_twolock() {
    let mut q = TwoLockQueue::<u32>::new();
    two_producers_then_drain(&mut q, |q, v| q.push(v), |q| q.pop());
}

#[test]
fn producers_and_consumers_lose_nothing() {
    let mut q = LockFreeQueue::<u32>::new();
    let mut r = TwoLockQueue::<u32>::new();
    let mut rng = 11u64;
    let mut done = [0u32; 4];
    let mut got_q: Vec<Vec<u32>> = vec![Vec::new(); 3];
    let mut got_r: Vec<Vec<u32>> = vec![Vec::new(); 3];
    let mut total = 0usize;
    while total < 1000 {
        let actor = next_pick(&mut rng, 7) as usize;
        if actor < 4 {
            if done[actor] < 250 {
                q.push(tag(actor as u32, done[actor]));
                r.push(tag(actor as u32, done[actor]));
                done[actor] += 1;
            }
        } else {
            let a = q.pop();
            let b = r.pop();
            assert_eq!(a, b);
            if let Some(v) = a {
                got_q[actor - 4].push(v);
                got_r[actor - 4].push(b.unwrap());
                total += 1;
            }
        }
    }
    assert_eq!(q.pop(), None);
    assert_eq!(r.pop(), None);
    for got in [got_q, got_r] {
        let all: Vec<u32> = got.concat();
        let set: HashSet<u32> = all.iter().copied().collect();
        assert_eq!(all.len(), 1000);
        assert_eq!(set.len(), 1000);
        for p in 0..4u32 {
            for i in 0..250u32 {
                assert!(set.contains(&tag(p, i)));
            }
        }
    }
}
