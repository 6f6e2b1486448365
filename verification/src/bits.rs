//! Powers of two and the padding size computation.

use vstd::prelude::*;

verus! {

/// `2^k`.
pub open spec fn pow2(k: nat) -> nat
    decreases k,
{
    if k == 0 {
        1
    } else {
        2 * pow2((k - 1) as nat)
    }
}

/// Ceiling of the base-two logarithm: the least `k` with `2^k >= n`.
pub open spec fn clog2(n: nat) -> nat
    decreases n,
{
    if n <= 1 {
        0
    } else {
        1 + clog2(((n + 1) / 2) as nat)
    }
}

pub proof fn lemma_pow2_pos(k: nat)
    ensures
        pow2(k) >= 1,
    decreases k,
{
    if k > 0 {
        lemma_pow2_pos((k - 1) as nat);
    }
}

pub proof fn lemma_pow2_mono(j: nat, k: nat)
    requires
        j <= k,
    ensures
        pow2(j) <= pow2(k),
    decreases k,
{
    if j < k {
        lemma_pow2_mono(j, (k - 1) as nat);
        lemma_pow2_pos((k - 1) as nat);
    }
}

/// `2^clog2(n)` is at least `n`.
pub proof fn lemma_pow2_clog2_ge(n: nat)
    ensures
        pow2(clog2(n)) >= n,
    decreases n,
{
    if n > 1 {
        lemma_pow2_clog2_ge(((n + 1) / 2) as nat);
    }
}

/// `clog2` never overshoots: for `n >= 1`, `2^clog2(n) < 2 * n`.
pub proof fn lemma_pow2_clog2_lt(n: nat)
    requires
        n >= 1,
    ensures
        pow2(clog2(n)) < 2 * n,
    decreases n,
{
    if n > 1 {
        lemma_pow2_clog2_lt(((n + 1) / 2) as nat);
    }
}

/// `clog2` grows far slower than its argument.
pub proof fn lemma_clog2_le(n: nat)
    ensures
        clog2(n) <= n,
    decreases n,
{
    if n > 1 {
        lemma_clog2_le(((n + 1) / 2) as nat);
    }
}

/// Strict monotonicity, read backwards.
pub proof fn lemma_pow2_lt_inv(j: nat, k: nat)
    requires
        pow2(j) < pow2(k),
    ensures
        j < k,
{
    if j >= k {
        lemma_pow2_mono(k, j);
    }
}

/// The least power of two that is `>= n`, together with its exponent.
///
/// Returns `(2^clog2(n), clog2(n))`; for `n <= 1` that is `(1, 0)`.
pub fn next_pow2_with_log(n: usize) -> (r: (usize, usize))
    requires
        n <= usize::MAX / 2,
    ensures
        r.0 as nat == pow2(r.1 as nat),
        r.1 as nat == clog2(n as nat),
        r.0 >= n,
        r.0 >= 1,
{
    let mut p: usize = 1;
    let mut k: usize = 0;
    proof {
        lemma_pow2_clog2_ge(n as nat);
        lemma_clog2_le(n as nat);
    }
    while p < n
        invariant
            n <= usize::MAX / 2,
            1 <= p,
            p as nat == pow2(k as nat),
            k as nat <= clog2(n as nat),
            clog2(n as nat) <= n as nat,
            pow2(clog2(n as nat)) >= n as nat,
        decreases 2 * n - p,
    {
        proof {
            // p < n <= 2^clog2(n), so k < clog2(n) and doubling stays in range.
            lemma_pow2_lt_inv(k as nat, clog2(n as nat));
            lemma_pow2_mono((k + 1) as nat, clog2(n as nat));
            lemma_pow2_clog2_lt(n as nat);
        }
        p = p * 2;
        k = k + 1;
    }
    proof {
        // p >= n and 2^k is no power of two past 2^clog2(n); minimality
        // forces k == clog2(n).
        if (k as nat) < clog2(n as nat) {
            lemma_pow2_clog2_lt(n as nat);
            lemma_pow2_mono((k + 1) as nat, clog2(n as nat));
        }
        if (k as nat) > clog2(n as nat) {
            lemma_pow2_mono(clog2(n as nat), k as nat);
        }
    }
    (p, k)
}

} // verus!
