//! Skip-link arithmetic.
//!
//! Sequence numbers are grouped into nested pools whose sizes are
//! `1, 4, 13, 40, ...`, each three times the previous one plus one. The skip
//! link of an entry jumps back by the largest pool size that fits its position
//! inside the pools, which keeps every path between two entries logarithmic in
//! their distance.

use vstd::prelude::*;

verus! {

/// The first pool size at or after `m` that is at least `n`, where `m` is
/// itself a pool size.
pub open spec fn pool_covering(n: nat, m: nat) -> nat
    decreases (if m < n { n - m } else { 0 }),
{
    if m >= n || m == 0 {
        m
    } else {
        pool_covering(n, 3 * m + 1)
    }
}

/// The largest pool size, at most `m`, that divides what is left of `u` after
/// all larger pool sizes have been taken out of it.
pub open spec fn longest_jump(u: nat, m: nat) -> nat
    decreases m,
{
    if m <= 1 {
        1
    } else if u % m == 0 {
        m
    } else {
        longest_jump(u % m, ((m - 1) / 3) as nat)
    }
}

/// The sequence number that the skip link of entry `n` points to. The first
/// entry points to itself.
pub open spec fn lipmaa_spec(n: nat) -> nat {
    if n <= 1 {
        1
    } else {
        let m = pool_covering(n, 1);
        if m == n {
            ((n - 1) / 3) as nat
        } else {
            (n - longest_jump(n, ((m - 1) / 3) as nat)) as nat
        }
    }
}

/// Whether entry `n` carries a skip link of its own, that is, whether the skip
/// link would point anywhere else than to the entry just before it.
pub open spec fn is_lipmaa_required_spec(n: nat) -> bool {
    lipmaa_spec(n) != n - 1
}

/// A pool size is 1 or three times a pool size plus one.
pub open spec fn is_pool_size(m: nat) -> bool
    decreases m,
{
    m == 1 || (m >= 4 && m % 3 == 1 && is_pool_size(((m - 1) / 3) as nat))
}

/// `m` is a pool size, and the pool size before it, if any, is below `n`.
pub open spec fn pool_shaped(n: nat, m: nat) -> bool {
    is_pool_size(m) && (m == 1 || (m - 1) / 3 < n)
}

pub proof fn lemma_pool_covering(n: nat, m: nat)
    requires
        n > 1,
        pool_shaped(n, m),
    ensures
        pool_covering(n, m) >= n,
        pool_covering(n, m) >= 4,
        is_pool_size(pool_covering(n, m)),
        1 <= (pool_covering(n, m) - 1) / 3 < n,
    decreases (if m < n { n - m } else { 0 }),
{
    if m < n {
        lemma_pool_covering(n, 3 * m + 1);
    }
}

pub proof fn lemma_longest_jump(u: nat, m: nat)
    ensures
        1 <= longest_jump(u, m),
        m >= 1 ==> longest_jump(u, m) <= m,
    decreases m,
{
    if m > 1 && u % m != 0 {
        lemma_longest_jump(u % m, ((m - 1) / 3) as nat);
    }
}

/// Every skip link points to an existing entry, and for every entry but the
/// first to an earlier one.
pub proof fn lemma_lipmaa_bounds(n: nat)
    requires
        n >= 1,
    ensures
        lipmaa_spec(n) >= 1,
        n == 1 || lipmaa_spec(n) < n,
{
    if n > 1 {
        lemma_pool_covering(n, 1);
        let m = pool_covering(n, 1);
        lemma_longest_jump(n, ((m - 1) / 3) as nat);
    }
}

/// Some skip links: entries 4, 13 and 40 close a pool and point to the end of
/// the pool before; entry 8 jumps back by a whole pool of four; entries 2 and
/// 12 point to the entry just before, or further.
pub proof fn lemma_lipmaa_examples()
    ensures
        lipmaa_spec(1) == 1,
        lipmaa_spec(2) == 1,
        lipmaa_spec(3) == 2,
        lipmaa_spec(4) == 1,
        lipmaa_spec(5) == 4,
        lipmaa_spec(8) == 4,
        lipmaa_spec(12) == 8,
        lipmaa_spec(13) == 4,
        lipmaa_spec(40) == 13,
        !is_lipmaa_required_spec(2),
        !is_lipmaa_required_spec(3),
        is_lipmaa_required_spec(4),
        is_lipmaa_required_spec(8),
{
    reveal_with_fuel(pool_covering, 5);
    reveal_with_fuel(longest_jump, 3);
    assert(5nat % 4nat == 1);
    assert(8nat % 4nat == 0);
    assert(12nat % 4nat == 0);
    assert(pool_covering(5, 1) == 13);
    assert(pool_covering(8, 1) == 13);
    assert(pool_covering(12, 1) == 13);
    assert(pool_covering(40, 1) == 40);
    assert(longest_jump(5, 4) == 1);
    assert(longest_jump(8, 4) == 4);
    assert(longest_jump(12, 4) == 4);
}

/// The sequence number that the skip link of entry `n` points to.
pub fn lipmaa(n: u64) -> (r: u64)
    requires
        n >= 1,
    ensures
        r == lipmaa_spec(n as nat),
        1 <= r,
        n == 1 || r < n,
{
    proof {
        lemma_lipmaa_bounds(n as nat);
    }
    if n == 1 {
        return 1;
    }
    let target: u128 = n as u128;
    let mut m: u128 = 1;
    while m < target
        invariant
            target == n,
            n > 1,
            pool_shaped(n as nat, m as nat),
            pool_covering(n as nat, m as nat) == pool_covering(n as nat, 1),
        decreases (if m < target { target - m } else { 0 }),
    {
        m = 3 * m + 1;
    }
    proof {
        lemma_pool_covering(n as nat, m as nat);
    }
    let mut jump: u128 = (m - 1) / 3;
    if m == target {
        return jump as u64;
    }
    let ghost start = jump;
    let mut u: u128 = target;
    while jump > 1 && u % jump != 0
        invariant
            1 <= jump <= start < n,
            is_pool_size(jump as nat),
            longest_jump(u as nat, jump as nat) == longest_jump(n as nat, start as nat),
        decreases jump,
    {
        u = u % jump;
        jump = (jump - 1) / 3;
    }
    n - (jump as u64)
}

/// Whether entry `sequence_num` carries a skip link of its own.
pub fn is_lipmaa_required(sequence_num: u64) -> (r: bool)
    requires
        sequence_num >= 1,
    ensures
        r == is_lipmaa_required_spec(sequence_num as nat),
{
    lipmaa(sequence_num) != sequence_num - 1
}

} // verus!
