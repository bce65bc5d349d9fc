//! Turning vectors into queues that hand their items out from the front.
use vstd::prelude::*;
use std::collections::VecDeque;

verus! {

/// A queue holding the items of `v` in the same order.
pub fn to_deque<T>(v: Vec<T>) -> (q: VecDeque<T>)
    ensures
        q@ == v@,
{
    let mut v = v;
    let ghost all = v@;
    let mut q: VecDeque<T> = VecDeque::new();
    while v.len() > 0
        invariant
            v@ + q@ == all,
        decreases v@.len(),
    {
        let x = v.pop().unwrap();
        q.push_front(x);
        proof {
            assert(v@ + q@ =~= all);
        }
    }
    proof {
        assert(q@ =~= all);
    }
    q
}

} // verus!
