//! The indexer: from a constraint system and global commitment-scheme
//! parameters to the prover key and verifier key.

use vstd::prelude::*;

use crate::bits::{clog2, lemma_pow2_clog2_ge, lemma_pow2_clog2_lt, next_pow2_with_log, pow2};
use crate::field::Fe;
use crate::keys::{IndexError, IndexProverKey, IndexVerifierKey, Srs};
use crate::matrix::R1cs;
use crate::multiplicity::{
    count_occ, domain_enumeration, lemma_count_occ_le_len, multiplicities, pad_with_first_term,
};
use crate::pcs::{
    mask_ck, mask_srs_deg, mask_srs_wf, mask_trim, mask_vk, mlpc_ck, mlpc_commitment, mlpc_srs_nv,
    mlpc_srs_wf, mlpc_vk, poly_commit, poly_trim, probe_mask_srs, probe_poly_srs,
};
use crate::unify::{lemma_unify_spec_len, lemma_value_fidelity, unify_matrices, unify_spec};

verus! {

/// Degree to which the masking scheme is trimmed.
pub const MASK_DEGREE: usize = 4;

/// Hiding bound of the masking scheme's trim.
pub const MASK_HIDING: usize = 1;

/// Number of variables of the committed value polynomials: the evaluation
/// domain has `2^num_variables_val` slots, at least two so that the
/// commitment scheme always has a variable to work with.
pub open spec fn spec_num_variables_val(real_len: nat) -> nat {
    if real_len <= 1 {
        1
    } else {
        clog2(real_len)
    }
}

pub open spec fn max2(x: int, y: int) -> int {
    if x >= y { x } else { y }
}

/// Variables of the witness-side scheme: sized to the original circuit
/// dimensions, independent of the padded slot count.
pub open spec fn spec_padded_num_var(r1cs: R1cs) -> nat {
    clog2(max2(r1cs.num_cons as int, r1cs.num_vars as int) as nat)
}

/// Index arrays padded with the out-of-domain sentinel.
pub open spec fn sentinel_pad(s: Seq<usize>, count: int) -> Seq<usize> {
    s + Seq::new((count - s.len()) as nat, |i: int| usize::MAX)
}

/// Value arrays padded with the additive identity.
pub open spec fn zero_pad(s: Seq<Fe>, count: int) -> Seq<Fe> {
    s + Seq::new((count - s.len()) as nat, |i: int| Fe::spec_zero())
}

/// The multiplicity builder's local input: the real-length prefix padded by
/// repeating its first entry (the first domain value if it is empty).
pub open spec fn first_pad(s: Seq<usize>, count: int) -> Seq<usize> {
    s + Seq::new(
        (count - s.len()) as nat,
        |i: int|
            if s.len() > 0 {
                s[0]
            } else {
                0
            },
    )
}

/// The frequency polynomial of an index vector over the domain `0 .. count`,
/// as field elements: position `d` counts the occurrences of `d`.
pub open spec fn freq_of(s: Seq<usize>, count: int) -> Seq<Fe> {
    Seq::new(count as nat, |d: int| Fe::spec_from_u64(count_occ(first_pad(s, count), d) as u64))
}

/// The global parameters serve this circuit: both sets are well formed, the
/// multilinear parameters are large enough for both trims, and the masking
/// parameters reach the masking degree.
pub open spec fn srs_suffices(r1cs: R1cs, srs: Srs) -> bool {
    let rl = unify_spec(r1cs.a@, r1cs.b@, r1cs.c@).rows.len();
    &&& mlpc_srs_wf(srs.poly_srs@)
    &&& spec_padded_num_var(r1cs) <= mlpc_srs_nv(srs.poly_srs@)
    &&& spec_num_variables_val(rl) <= mlpc_srs_nv(srs.poly_srs@)
    &&& mask_srs_wf(srs.mask_srs@)
    &&& MASK_DEGREE as int <= mask_srs_deg(srs.mask_srs@)
}

/// Everything the indexer promises of a produced key pair, pinned field by
/// field as a function of the matrices and the parameters.
pub open spec fn index_post(r1cs: R1cs, srs: Srs, pk: IndexProverKey, vk: IndexVerifierKey) -> bool {
    let s = unify_spec(r1cs.a@, r1cs.b@, r1cs.c@);
    let rl = s.rows.len();
    let nvv = spec_num_variables_val(rl);
    let count = pow2(nvv) as int;
    let pnv = spec_padded_num_var(r1cs);
    let cki = mlpc_ck(srs.poly_srs@, nvv as int);
    &&& pk.rows@ == sentinel_pad(s.rows, count)
    &&& pk.cols@ == sentinel_pad(s.cols, count)
    &&& pk.val_a@ == zero_pad(s.va, count)
    &&& pk.val_b@ == zero_pad(s.vb, count)
    &&& pk.val_c@ == zero_pad(s.vc, count)
    &&& pk.freq_r@ == freq_of(s.rows, count)
    &&& pk.freq_c@ == freq_of(s.cols, count)
    &&& pk.real_len_val == rl
    &&& pk.num_variables_val == nvv
    &&& pk.padded_num_var == pnv
    &&& pk.ck_w@ == mlpc_ck(srs.poly_srs@, pnv as int)
    &&& pk.ck_index@ == cki
    &&& pk.ck_mask@ == mask_ck(srs.mask_srs@, MASK_DEGREE as int, MASK_HIDING as int)
    &&& vk.val_a_oracle@ == mlpc_commitment(cki, zero_pad(s.va, count))
    &&& vk.val_b_oracle@ == mlpc_commitment(cki, zero_pad(s.vb, count))
    &&& vk.val_c_oracle@ == mlpc_commitment(cki, zero_pad(s.vc, count))
    &&& vk.real_len_val == rl
    &&& vk.num_variables_val == nvv
    &&& vk.padded_num_var == pnv
    &&& vk.vk_w@ == mlpc_vk(srs.poly_srs@, pnv as int)
    &&& vk.vk_index@ == mlpc_vk(srs.poly_srs@, nvv as int)
    &&& vk.vk_mask@ == mask_vk(srs.mask_srs@, MASK_DEGREE as int, MASK_HIDING as int)
}

/// Padding invariant: every produced key pair has all five arrays at the
/// same power-of-two length `2^num_variables_val`, at least the number of
/// real slots; the padding region of the index arrays holds the sentinel,
/// which lies strictly outside the circuit's coordinate space, and the
/// padding region of the value arrays holds the additive identity.
///
/// With two or more real slots the length is exactly the next power of two
/// (the least power of two `>= real_len_val`); with zero or one it is the
/// minimal two-slot domain, since the commitment scheme has no zero-variable
/// polynomials.
pub proof fn lemma_padding_invariant(
    r1cs: R1cs,
    srs: Srs,
    pk: IndexProverKey,
    vk: IndexVerifierKey,
)
    requires
        r1cs.wf(),
        index_post(r1cs, srs, pk, vk),
    ensures
        pk.rows@.len() == pow2(pk.num_variables_val as nat),
        pk.cols@.len() == pk.rows@.len(),
        pk.val_a@.len() == pk.rows@.len(),
        pk.val_b@.len() == pk.rows@.len(),
        pk.val_c@.len() == pk.rows@.len(),
        pk.rows@.len() >= pk.real_len_val,
        pk.real_len_val >= 2 ==> pk.rows@.len() == pow2(clog2(pk.real_len_val as nat)),
        pk.real_len_val >= 2 ==> pk.rows@.len() < 2 * pk.real_len_val,
        pk.real_len_val <= 1 ==> pk.rows@.len() == 2,
        forall|i: int|
            pk.real_len_val <= i < pk.rows@.len() ==> #[trigger] pk.rows@[i] == usize::MAX
                && pk.cols@[i] == usize::MAX,
        forall|i: int|
            pk.real_len_val <= i < pk.rows@.len() ==> #[trigger] pk.val_a@[i] == Fe::spec_zero()
                && pk.val_b@[i] == Fe::spec_zero() && pk.val_c@[i] == Fe::spec_zero(),
        usize::MAX >= r1cs.num_cons && usize::MAX >= r1cs.num_vars,
{
    lemma_value_fidelity(r1cs.a@, r1cs.b@, r1cs.c@);
    let s = unify_spec(r1cs.a@, r1cs.b@, r1cs.c@);
    let rl = s.rows.len();
    assert(pow2(0) == 1);
    assert(pow2(1) == 2);
    if rl > 1 {
        lemma_pow2_clog2_ge(rl);
        lemma_pow2_clog2_lt(rl);
    }
    assert(pow2(spec_num_variables_val(rl)) >= rl);
}

/// Determinism: two key pairs produced from identical matrices and
/// identical global parameters agree in every field; in particular their
/// canonical encodings are byte-identical.
pub proof fn lemma_determinism(
    r1cs: R1cs,
    srs: Srs,
    pk1: IndexProverKey,
    vk1: IndexVerifierKey,
    pk2: IndexProverKey,
    vk2: IndexVerifierKey,
)
    requires
        index_post(r1cs, srs, pk1, vk1),
        index_post(r1cs, srs, pk2, vk2),
    ensures
        pk1@ == pk2@,
        vk1@ == vk2@,
{
    assert(pk1@ =~= pk2@);
    assert(vk1@ =~= vk2@);
}

/// Extend an index array to `target` slots with a fill value.
fn pad_usize(v: &mut Vec<usize>, target: usize, fill: usize)
    requires
        old(v)@.len() <= target,
    ensures
        final(v)@ == old(v)@ + Seq::new((target - old(v)@.len()) as nat, |i: int| fill),
{
    while v.len() < target
        invariant
            old(v)@.len() <= v@.len() <= target,
            v@ == old(v)@ + Seq::new((v@.len() - old(v)@.len()) as nat, |i: int| fill),
        decreases target - v@.len(),
    {
        v.push(fill);
        proof {
            assert(v@ =~= old(v)@ + Seq::new((v@.len() - old(v)@.len()) as nat, |i: int| fill));
        }
    }
}

/// Extend a value array to `target` slots with the additive identity.
fn pad_fe(v: &mut Vec<Fe>, target: usize)
    requires
        old(v)@.len() <= target,
    ensures
        final(v)@ == old(v)@ + Seq::new(
            (target - old(v)@.len()) as nat,
            |i: int| Fe::spec_zero(),
        ),
{
    while v.len() < target
        invariant
            old(v)@.len() <= v@.len() <= target,
            v@ == old(v)@ + Seq::new(
                (v@.len() - old(v)@.len()) as nat,
                |i: int| Fe::spec_zero(),
            ),
        decreases target - v@.len(),
    {
        v.push(Fe::zero());
        proof {
            assert(v@ =~= old(v)@ + Seq::new(
                (v@.len() - old(v)@.len()) as nat,
                |i: int| Fe::spec_zero(),
            ));
        }
    }
}

/// Embed raw occurrence counts into the field.
fn counts_to_fe(v: &Vec<u64>) -> (r: Vec<Fe>)
    ensures
        r@ == Seq::new(v@.len(), |i: int| Fe::spec_from_u64(v@[i])),
{
    let mut r: Vec<Fe> = Vec::new();
    let mut i: usize = 0;
    while i < v.len()
        invariant
            i <= v@.len(),
            r@ == Seq::new(i as nat, |j: int| Fe::spec_from_u64(v@[j])),
        decreases v@.len() - i,
    {
        r.push(Fe::from_u64(v[i]));
        i = i + 1;
        proof {
            assert(r@ =~= Seq::new(i as nat, |j: int| Fe::spec_from_u64(v@[j])));
        }
    }
    r
}

/// The indexer holds no state: indexing is a pure function of the matrices
/// and the scheme parameters.
pub struct Indexer;

impl Indexer {
    /// Build the prover key and the verifier key of a circuit.
    ///
    /// Unifies the three matrices into one padded sparse layout, derives the
    /// row and column frequency polynomials, trims the three commitment
    /// schemes and commits to the three value polynomials. Fails exactly
    /// when the global parameters cannot serve the circuit's sizes; every
    /// produced field is a pure function of the inputs, so two runs over
    /// identical inputs produce identical keys.
    pub fn index_for_prover_and_verifier(r1cs: &R1cs, srs: &Srs) -> (r: Result<
        (IndexProverKey, IndexVerifierKey),
        IndexError,
    >)
        requires
            r1cs.wf(),
        ensures
            r is Ok <==> srs_suffices(*r1cs, *srs),
            r matches Ok(kp) ==> index_post(*r1cs, *srs, kp.0, kp.1),
            r is Err ==> r == Err::<(IndexProverKey, IndexVerifierKey), IndexError>(
                IndexError::Configuration,
            ),
    {
        let ghost s = unify_spec(r1cs.a@, r1cs.b@, r1cs.c@);
        proof {
            lemma_unify_spec_len(r1cs.a@, r1cs.b@, r1cs.c@);
            lemma_value_fidelity(r1cs.a@, r1cs.b@, r1cs.c@);
        }
        let mut u = unify_matrices(&r1cs.a, &r1cs.b, &r1cs.c);
        let real_len_val = u.rows.len();

        // Padded slot count and its exponent.
        let (count, num_variables_val): (usize, usize) = if real_len_val <= 1 {
            (2, 1)
        } else {
            next_pow2_with_log(real_len_val)
        };
        proof {
            assert(pow2(0) == 1);
            assert(pow2(1) == 2);
            assert(num_variables_val as nat == spec_num_variables_val(s.rows.len()));
            assert(count as nat == pow2(spec_num_variables_val(s.rows.len())));
            lemma_pow2_clog2_ge(real_len_val as nat);
        }

        // The witness scheme is sized to the circuit's own dimensions.
        let dim = if r1cs.num_cons >= r1cs.num_vars {
            r1cs.num_cons
        } else {
            r1cs.num_vars
        };
        let (_, padded_num_var) = next_pow2_with_log(dim);
        proof {
            assert(padded_num_var as nat == spec_padded_num_var(*r1cs));
            assert(dim >= 2);
            assert(padded_num_var >= 1);
        }

        // The parameters must cover both trims and the masking scheme.
        let srs_nv = match probe_poly_srs(&srs.poly_srs) {
            Some(nv) => nv,
            None => {
                return Err(IndexError::Configuration);
            },
        };
        if padded_num_var > srs_nv || num_variables_val > srs_nv {
            return Err(IndexError::Configuration);
        }
        let mask_deg = match probe_mask_srs(&srs.mask_srs) {
            Some(d) => d,
            None => {
                return Err(IndexError::Configuration);
            },
        };
        if MASK_DEGREE > mask_deg {
            return Err(IndexError::Configuration);
        }
        let (ck_mask, vk_mask) = mask_trim(&srs.mask_srs, MASK_DEGREE, MASK_HIDING);
        let (ck_w, vk_w) = poly_trim(&srs.poly_srs, padded_num_var);
        let (ck_index, vk_index) = poly_trim(&srs.poly_srs, num_variables_val);

        // Frequencies are computed from the real-length prefixes under the
        // repeat-first-entry padding, before the sentinel padding below.
        let domain = domain_enumeration(count);
        let row_vec = pad_with_first_term(&u.rows, count);
        let col_vec = pad_with_first_term(&u.cols, count);
        proof {
            assert(row_vec@ =~= first_pad(s.rows, count as int));
            assert(col_vec@ =~= first_pad(s.cols, count as int));
        }
        let freq_r_counts = multiplicities(&row_vec, &domain);
        let freq_c_counts = multiplicities(&col_vec, &domain);
        let freq_r = counts_to_fe(&freq_r_counts);
        let freq_c = counts_to_fe(&freq_c_counts);
        proof {
            assert forall|d: int| 0 <= d < count implies freq_r@[d] == Fe::spec_from_u64(
                count_occ(first_pad(s.rows, count as int), d) as u64,
            ) by {
                lemma_count_occ_le_len(row_vec@, d);
            }
            assert forall|d: int| 0 <= d < count implies freq_c@[d] == Fe::spec_from_u64(
                count_occ(first_pad(s.cols, count as int), d) as u64,
            ) by {
                lemma_count_occ_le_len(col_vec@, d);
            }
            assert(freq_r@ =~= freq_of(s.rows, count as int));
            assert(freq_c@ =~= freq_of(s.cols, count as int));
        }

        // Sentinel padding of the persisted index arrays, identity padding
        // of the value arrays.
        pad_usize(&mut u.rows, count, usize::MAX);
        pad_usize(&mut u.cols, count, usize::MAX);
        pad_fe(&mut u.val_a, count);
        pad_fe(&mut u.val_b, count);
        pad_fe(&mut u.val_c, count);
        proof {
            assert(u.rows@ =~= sentinel_pad(s.rows, count as int));
            assert(u.cols@ =~= sentinel_pad(s.cols, count as int));
            assert(u.val_a@ =~= zero_pad(s.va, count as int));
            assert(u.val_b@ =~= zero_pad(s.vb, count as int));
            assert(u.val_c@ =~= zero_pad(s.vc, count as int));
        }

        // Commit to the three value polynomials so the verifier key is
        // self-contained.
        let val_a_oracle = poly_commit(&ck_index, num_variables_val, &u.val_a);
        let val_b_oracle = poly_commit(&ck_index, num_variables_val, &u.val_b);
        let val_c_oracle = poly_commit(&ck_index, num_variables_val, &u.val_c);

        let pk = IndexProverKey {
            rows: u.rows,
            cols: u.cols,
            val_a: u.val_a,
            val_b: u.val_b,
            val_c: u.val_c,
            freq_r,
            freq_c,
            real_len_val,
            num_variables_val,
            padded_num_var,
            ck_w,
            ck_index,
            ck_mask,
        };
        let vk = IndexVerifierKey {
            val_a_oracle,
            val_b_oracle,
            val_c_oracle,
            real_len_val,
            num_variables_val,
            padded_num_var,
            vk_w,
            vk_index,
            vk_mask,
        };
        Ok((pk, vk))
    }
}

} // verus!
