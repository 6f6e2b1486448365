//! Multiplicity (frequency) polynomials for the lookup argument.
//!
//! Given an index vector and the canonical enumeration of the evaluation
//! domain, the builder counts, for each domain value, how often the index
//! vector references it. The counts back an offline memory-checking
//! argument: they let a later sumcheck protocol tie the committed row and
//! column indices to a well-formed sparse representation.

use vstd::prelude::*;

verus! {

/// How often `v` occurs in `s`.
pub open spec fn count_occ(s: Seq<usize>, v: int) -> nat
    decreases s.len(),
{
    if s.len() == 0 {
        0
    } else {
        count_occ(s.drop_last(), v) + if s.last() == v {
            1nat
        } else {
            0nat
        }
    }
}

/// Sum of the occurrence counts of the domain values `0 .. d`.
pub open spec fn sum_counts(s: Seq<usize>, d: int) -> nat
    decreases d,
{
    if d <= 0 {
        0
    } else {
        sum_counts(s, d - 1) + count_occ(s, d - 1)
    }
}

/// Sum of a sequence of counts.
pub open spec fn seq_sum(s: Seq<u64>) -> int
    decreases s.len(),
{
    if s.len() == 0 {
        0
    } else {
        seq_sum(s.drop_last()) + s.last()
    }
}

proof fn lemma_count_occ_take(s: Seq<usize>, k: int, v: int)
    requires
        0 <= k < s.len(),
    ensures
        count_occ(s.take(k + 1), v) == count_occ(s.take(k), v) + if s[k] == v {
            1nat
        } else {
            0nat
        },
{
    assert(s.take(k + 1).drop_last() =~= s.take(k));
    assert(s.take(k + 1).last() == s[k]);
}

pub proof fn lemma_count_occ_le_len(s: Seq<usize>, v: int)
    ensures
        count_occ(s, v) <= s.len(),
    decreases s.len(),
{
    if s.len() > 0 {
        lemma_count_occ_le_len(s.drop_last(), v);
    }
}

/// The canonical enumeration `0 .. count` of the evaluation domain.
pub fn domain_enumeration(count: usize) -> (d: Vec<usize>)
    ensures
        d@.len() == count,
        forall|j: int| 0 <= j < count ==> #[trigger] d@[j] == j,
{
    let mut d: Vec<usize> = Vec::new();
    let mut j: usize = 0;
    while j < count
        invariant
            j <= count,
            d@.len() == j,
            forall|i: int| 0 <= i < j ==> #[trigger] d@[i] == i,
        decreases count - j,
    {
        d.push(j);
        j = j + 1;
    }
    d
}

/// Pad an index vector to the builder's required length by repeating its
/// first entry; an empty vector is filled with the first domain value. This
/// padding is local to multiplicity computation and never reaches the
/// persisted keys, which pad with an out-of-domain sentinel instead.
pub fn pad_with_first_term(v: &Vec<usize>, target: usize) -> (r: Vec<usize>)
    requires
        v@.len() <= target,
    ensures
        r@.len() == target,
        forall|i: int| 0 <= i < v@.len() ==> #[trigger] r@[i] == v@[i],
        forall|i: int|
            v@.len() <= i < target ==> #[trigger] r@[i] == if v@.len() > 0 {
                v@[0]
            } else {
                0
            },
{
    let fill: usize = if v.len() > 0 {
        v[0]
    } else {
        0
    };
    let mut r: Vec<usize> = Vec::new();
    let mut i: usize = 0;
    while i < v.len()
        invariant
            i <= v@.len(),
            r@.len() == i,
            forall|j: int| 0 <= j < i ==> #[trigger] r@[j] == v@[j],
        decreases v@.len() - i,
    {
        r.push(v[i]);
        i = i + 1;
    }
    while i < target
        invariant
            v@.len() <= i <= target,
            r@.len() == i,
            fill == if v@.len() > 0 {
                v@[0]
            } else {
                0
            },
            forall|j: int| 0 <= j < v@.len() ==> #[trigger] r@[j] == v@[j],
            forall|j: int| v@.len() <= j < i ==> #[trigger] r@[j] == fill,
        decreases target - i,
    {
        r.push(fill);
        i = i + 1;
    }
    r
}

/// For each domain value, how often the index vector references it.
///
/// The result is parallel to `domain`: position `j` holds the number of
/// occurrences of `domain[j]` in `v`.
pub fn multiplicities(v: &Vec<usize>, domain: &Vec<usize>) -> (freq: Vec<u64>)
    ensures
        freq@.len() == domain@.len(),
        forall|j: int|
            0 <= j < domain@.len() ==> #[trigger] freq@[j] as nat == count_occ(
                v@,
                domain@[j] as int,
            ),
{
    let mut freq: Vec<u64> = Vec::new();
    let mut j: usize = 0;
    while j < domain.len()
        invariant
            j <= domain@.len(),
            freq@.len() == j,
            forall|i: int|
                0 <= i < j ==> #[trigger] freq@[i] as nat == count_occ(v@, domain@[i] as int),
        decreases domain@.len() - j,
    {
        let d = domain[j];
        let mut cnt: u64 = 0;
        let mut i: usize = 0;
        proof {
            assert(v@.take(0) =~= Seq::<usize>::empty());
            assert(usize::MAX <= u64::MAX);
        }
        while i < v.len()
            invariant
                i <= v@.len(),
                cnt as nat == count_occ(v@.take(i as int), d as int),
                cnt <= i,
                i <= usize::MAX,
                usize::MAX <= u64::MAX,
            decreases v@.len() - i,
        {
            proof {
                lemma_count_occ_take(v@, i as int, d as int);
                lemma_count_occ_le_len(v@.take(i as int), d as int);
            }
            if v[i] == d {
                cnt = cnt + 1;
            }
            i = i + 1;
        }
        proof {
            assert(v@.take(v@.len() as int) =~= v@);
        }
        freq.push(cnt);
        j = j + 1;
    }
    freq
}

proof fn lemma_sum_counts_push(s: Seq<usize>, x: usize, d: int)
    ensures
        sum_counts(s.push(x), d) == sum_counts(s, d) + if 0 <= x < d {
            1nat
        } else {
            0nat
        },
    decreases d,
{
    if d > 0 {
        lemma_sum_counts_push(s, x, d - 1);
        assert(s.push(x).drop_last() =~= s);
        assert(count_occ(s.push(x), d - 1) == count_occ(s, d - 1) + if x == d - 1 {
            1nat
        } else {
            0nat
        });
    }
}

proof fn lemma_sum_counts_empty(d: int)
    ensures
        sum_counts(Seq::<usize>::empty(), d) == 0,
    decreases d,
{
    if d > 0 {
        lemma_sum_counts_empty(d - 1);
    }
}

/// Multiplicity conservation: when every index lies inside the domain
/// `0 .. count`, the occurrence counts over the whole domain add up to the
/// length of the index vector.
pub proof fn lemma_multiplicity_conservation(v: Seq<usize>, count: int)
    requires
        forall|i: int| 0 <= i < v.len() ==> (#[trigger] v[i]) < count,
    ensures
        sum_counts(v, count) == v.len(),
    decreases v.len(),
{
    if v.len() == 0 {
        assert(v =~= Seq::<usize>::empty());
        lemma_sum_counts_empty(count);
    } else {
        let w = v.drop_last();
        let x = v.last();
        assert(v[v.len() - 1] < count);
        assert forall|i: int| 0 <= i < w.len() implies (#[trigger] w[i]) < count by {
            assert(v[i] == w[i]);
        }
        lemma_multiplicity_conservation(w, count);
        lemma_sum_counts_push(w, x, count);
        assert(w.push(x) =~= v);
        assert(sum_counts(v, count) == sum_counts(w, count) + 1nat);
    }
}

/// The frequency vector produced by `multiplicities` over the canonical
/// domain sums to the length of the index vector it was fed.
pub proof fn lemma_freq_sum(freq: Seq<u64>, v: Seq<usize>, count: int)
    requires
        freq.len() == count,
        forall|j: int| 0 <= j < count ==> #[trigger] freq[j] as nat == count_occ(v, j),
        forall|i: int| 0 <= i < v.len() ==> (#[trigger] v[i]) < count,
    ensures
        seq_sum(freq) == v.len(),
{
    lemma_multiplicity_conservation(v, count);
    lemma_seq_sum_prefix(freq, v, count);
    assert(freq.take(count) =~= freq);
}

proof fn lemma_seq_sum_prefix(freq: Seq<u64>, v: Seq<usize>, d: int)
    requires
        0 <= d <= freq.len(),
        forall|j: int| 0 <= j < freq.len() ==> #[trigger] freq[j] as nat == count_occ(v, j),
    ensures
        seq_sum(freq.take(d)) == sum_counts(v, d),
    decreases d,
{
    if d == 0 {
        assert(freq.take(0) =~= Seq::<u64>::empty());
    } else {
        lemma_seq_sum_prefix(freq, v, d - 1);
        assert(freq.take(d).drop_last() =~= freq.take(d - 1));
        assert(freq.take(d).last() == freq[d - 1]);
    }
}

} // verus!
