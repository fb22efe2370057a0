use vstd::prelude::*;
use std::collections::HashMap;

verus! {

/// Ceiling of the base-2 logarithm of `mn`, with the convention that
/// both 0 and 1 map to 1 (a table of one entry still needs one bit of
/// address space).
pub fn logmn(mn: usize) -> (r: usize)
    ensures
        mn <= 1 ==> r == 1,
        mn >= 2 ==> vstd::arithmetic::power2::pow2(r as nat) >= mn
            && vstd::arithmetic::power2::pow2((r - 1) as nat) < mn,
{
    if mn <= 1 {
        1
    } else {
        let mut k: usize = 0;
        let mut p: u128 = 1;
        proof {
            vstd::arithmetic::power2::lemma2_to64();
        }
        while p < mn as u128
            invariant
                mn >= 2,
                p == vstd::arithmetic::power2::pow2(k as nat),
                k >= 1 ==> vstd::arithmetic::power2::pow2((k - 1) as nat) < mn,
                k <= 64,
            decreases 64 - k,
        {
            proof {
                vstd::arithmetic::power2::lemma2_to64();
                if k as nat >= 64 {
                    vstd::arithmetic::power2::lemma_pow2_strictly_increases(63, k as nat);
                }
                vstd::arithmetic::power2::lemma_pow2_adds(k as nat, 1);
            }
            p = p * 2;
            k = k + 1;
        }
        proof {
            vstd::arithmetic::power2::lemma2_to64();
        }
        k
    }
}

/// Fresh, empty hash map; a single allocation point keeps the choice of
/// map implementation in one place.
pub fn new_hash_map<K, V>() -> (r: HashMap<K, V>)
    ensures
        r@ == Map::<K, V>::empty(),
{
    HashMap::new()
}

} // verus!
