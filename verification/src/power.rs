//! Rounding a size up to a power of two.

use vstd::arithmetic::power2::is_pow2;
use vstd::prelude::*;

verus! {

/// The greatest size that can be rounded up to a power of two which one
/// allocation can still hold.
pub const MAX_CAPACITY: usize = usize::MAX / 4 + 1;

/// The least power of two that is at least `n`.
pub open spec fn next_power_of_two(n: nat) -> nat
    decreases n,
{
    if n <= 1 {
        1
    } else {
        2 * next_power_of_two((n + 1) / 2)
    }
}

/// `next_power_of_two(n)` is a power of two, is at least `n`, and no power of
/// two that is at least `n` lies below it.
pub proof fn lemma_next_power_of_two(n: nat)
    ensures
        is_pow2(next_power_of_two(n) as int),
        n <= next_power_of_two(n),
        n >= 1 ==> next_power_of_two(n) < 2 * n,
        forall|q: int| is_pow2(q) && n <= q ==> next_power_of_two(n) <= q,
    decreases n,
{
    reveal(is_pow2);
    if n > 1 {
        let half = (n + 1) / 2;
        lemma_next_power_of_two(half);
        assert forall|q: int| is_pow2(q) && n <= q implies next_power_of_two(n) <= q by {
            assert(is_pow2(q / 2) && half <= q / 2);
        }
    }
}

/// A power of two that is at least `n`, and whose half is below `n`, is the
/// least one.
pub proof fn lemma_next_power_of_two_unique(n: nat, p: nat)
    requires
        is_pow2(p as int),
        n <= p,
        p == 1 || p / 2 < n,
    ensures
        p == next_power_of_two(n),
    decreases n,
{
    reveal(is_pow2);
    if n > 1 {
        lemma_next_power_of_two_unique((n + 1) / 2, p / 2);
    }
}

/// Rounds `n` up to a power of two. The result must fit the machine word,
/// which it does for every `n` up to half the word's range.
pub fn round_up_to_power_of_two(n: usize) -> (p: usize)
    requires
        n <= usize::MAX / 2 + 1,
    ensures
        p == next_power_of_two(n as nat),
        n <= MAX_CAPACITY ==> p <= isize::MAX,
{
    let mut p: usize = 1;
    proof {
        reveal(is_pow2);
    }
    while p < n
        invariant
            n <= usize::MAX / 2 + 1,
            p >= 1,
            is_pow2(p as int),
            p == 1 || p / 2 < n,
        decreases 2 * n - p,
    {
        proof {
            reveal(is_pow2);
        }
        p = p * 2;
    }
    proof {
        lemma_next_power_of_two_unique(n as nat, p as nat);
        lemma_next_power_of_two(n as nat);
    }
    p
}

} // verus!
