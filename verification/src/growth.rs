//! The rule by which the backing store grows, and what it adds up to.

use vstd::arithmetic::power2::{
    lemma2_to64, lemma_pow2_strictly_increases, lemma_pow2_unfold, pow2,
};
use vstd::prelude::*;

verus! {

/// The size of the store that replaces a full store of `capacity` slots:
/// one slot where there was none, twice as many otherwise.
pub open spec fn grown_capacity(capacity: nat) -> nat {
    if capacity == 0 {
        1
    } else {
        2 * capacity
    }
}

/// The capacity after one push onto `len` elements in `capacity` slots.
/// The store grows only when it is full.
pub open spec fn capacity_after_push(len: nat, capacity: nat) -> nat {
    if len == capacity {
        grown_capacity(capacity)
    } else {
        capacity
    }
}

/// The capacity after `pushes` pushes, and no pop, onto an empty sequence
/// that had no slots.
pub open spec fn capacity_after_pushes(pushes: nat) -> nat
    decreases pushes,
{
    if pushes == 0 {
        0
    } else {
        let held = (pushes - 1) as nat;
        capacity_after_push(held, capacity_after_pushes(held))
    }
}

/// `n` is one of 1, 2, 4, 8, ...
pub open spec fn is_power_of_two(n: nat) -> bool {
    exists|e: nat| n == pow2(e)
}

/// `p` is the smallest of 1, 2, 4, 8, ... that is not below `k`.
pub open spec fn is_least_power_of_two_at_least(p: nat, k: nat) -> bool {
    &&& is_power_of_two(p)
    &&& k <= p
    &&& forall|q: nat| is_power_of_two(q) && k <= q ==> p <= q
}

/// A power of two that is below twice `k` is below every power of two from
/// `k` on.
proof fn lemma_no_power_of_two_between(e: nat, f: nat, k: nat)
    requires
        pow2(e) < 2 * k,
        k <= pow2(f),
    ensures
        pow2(e) <= pow2(f),
{
    if f < e {
        lemma_pow2_unfold(e);
        if f < e - 1 {
            lemma_pow2_strictly_increases(f, (e - 1) as nat);
        }
    } else if e < f {
        lemma_pow2_strictly_increases(e, f);
    }
}

/// The store holds every element pushed, and less than twice as many slots;
/// its size is a power of two.
proof fn lemma_capacity_after_pushes_bounds(pushes: nat)
    requires
        pushes > 0,
    ensures
        is_power_of_two(capacity_after_pushes(pushes)),
        pushes <= capacity_after_pushes(pushes) < 2 * pushes,
    decreases pushes,
{
    if pushes == 1 {
        reveal_with_fuel(capacity_after_pushes, 2);
        lemma2_to64();
        assert(capacity_after_pushes(1) == pow2(0));
    } else {
        let held = (pushes - 1) as nat;
        let before = capacity_after_pushes(held);
        lemma_capacity_after_pushes_bounds(held);
        let e = choose|e: nat| before == pow2(e);
        if held == before {
            lemma_pow2_unfold(e + 1);
            assert(capacity_after_pushes(pushes) == pow2(e + 1));
        } else {
            assert(capacity_after_pushes(pushes) == pow2(e));
        }
    }
}

/// Growth doubling: after `pushes` pushes without a pop onto a sequence
/// that started with no slots, the capacity is the smallest power of two
/// that is not below `pushes`, and 0 where nothing was pushed.
pub proof fn lemma_capacity_after_pushes(pushes: nat)
    ensures
        pushes == 0 ==> capacity_after_pushes(pushes) == 0,
        pushes > 0 ==> is_least_power_of_two_at_least(capacity_after_pushes(pushes), pushes),
{
    if pushes > 0 {
        let capacity = capacity_after_pushes(pushes);
        lemma_capacity_after_pushes_bounds(pushes);
        let e = choose|e: nat| capacity == pow2(e);
        assert forall|q: nat| is_power_of_two(q) && pushes <= q implies capacity <= q by {
            let f = choose|f: nat| q == pow2(f);
            lemma_no_power_of_two_between(e, f, pushes);
        }
    }
}

} // verus!
