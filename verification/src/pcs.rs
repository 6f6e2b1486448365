//! The trusted boundary to the polynomial commitment schemes.
//!
//! The indexer consumes two outside schemes: the multilinear commitment
//! scheme (trimmed once for witness-related commitments and once for the
//! value polynomials it commits itself) and the sparse multivariate scheme
//! whose trimmed keys later produce zero-knowledge masking polynomials.
//! Scheme parameters, trimmed keys and commitments all cross this boundary
//! as canonical compressed byte strings, so that everything the verified
//! code handles is a plain value.

use ark_bn254::{Bn254, Fr};
use ark_ff::PrimeField;
use ark_poly::multivariate::{SparsePolynomial, SparseTerm, Term};
use ark_poly::DenseMultilinearExtension;
use ark_poly_commit::marlin_pst13_pc;
use ark_poly_commit::marlin_pst13_pc::MarlinPST13;
use ark_poly_commit::multilinear_pc::data_structures::{CommitterKey, UniversalParams};
use ark_poly_commit::multilinear_pc::MultilinearPC;
use ark_poly_commit::PolynomialCommitment;
use ark_serialize::{CanonicalDeserialize, CanonicalSerialize};

use vstd::prelude::*;

use crate::bits::pow2;
use crate::codec::fe_to_le_bytes;
use crate::field::Fe;

verus! {

/// The bytes decode to well-formed multilinear-scheme parameters: the
/// powers tables have one level per variable, as the scheme's setup lays
/// them out, so trimming within the parameter size cannot go wrong.
pub uninterp spec fn mlpc_srs_wf(srs: Seq<u8>) -> bool;

/// How many variables well-formed parameters support.
pub uninterp spec fn mlpc_srs_nv(srs: Seq<u8>) -> int;

/// The serialized committer key that trimming the parameters to `nv`
/// variables yields.
pub uninterp spec fn mlpc_ck(srs: Seq<u8>, nv: int) -> Seq<u8>;

/// The serialized verifier key that the same trim yields.
pub uninterp spec fn mlpc_vk(srs: Seq<u8>, nv: int) -> Seq<u8>;

/// The bytes decode to a well-formed committer key (one a trim produced).
pub uninterp spec fn mlpc_ck_wf(ck: Seq<u8>) -> bool;

/// The number of variables a well-formed committer key serves.
pub uninterp spec fn mlpc_ck_nv(ck: Seq<u8>) -> int;

/// The serialized commitment binding a committer key to the multilinear
/// polynomial with the given evaluations.
pub uninterp spec fn mlpc_commitment(ck: Seq<u8>, evals: Seq<Fe>) -> Seq<u8>;

/// The bytes decode to well-formed masking-scheme parameters: one powers
/// vector per variable, each `max_degree + 1` long, and the constant term
/// present, as the scheme's setup lays them out — the shapes its trim
/// indexes into.
pub uninterp spec fn mask_srs_wf(srs: Seq<u8>) -> bool;

/// The degree well-formed masking parameters support.
pub uninterp spec fn mask_srs_deg(srs: Seq<u8>) -> int;

/// The serialized committer key of the masking scheme's trim.
pub uninterp spec fn mask_ck(srs: Seq<u8>, deg: int, hiding: int) -> Seq<u8>;

/// The serialized verifier key of the masking scheme's trim.
pub uninterp spec fn mask_vk(srs: Seq<u8>, deg: int, hiding: int) -> Seq<u8>;

/// Relies on `UniversalParams::<Bn254>::deserialize_compressed` of
/// ark-poly-commit's multilinear scheme: reports the parameter size, and
/// reports it only for byte strings that decode to parameters shaped the way
/// `MultilinearPC::setup` builds them (one powers level per variable), which
/// is exactly the shape `MultilinearPC::trim` indexes into.
#[verifier::external_body]
pub(crate) fn probe_poly_srs(srs: &Vec<u8>) -> (r: Option<usize>)
    ensures
        r is Some <==> mlpc_srs_wf(srs@),
        r matches Some(nv) ==> nv as int == mlpc_srs_nv(srs@) && nv >= 1,
{
    let p = match UniversalParams::<Bn254>::deserialize_compressed(&srs[..]) {
        Ok(p) => p,
        Err(_) => return None,
    };
    if p.num_vars >= 1 && p.powers_of_g.len() == p.num_vars && p.powers_of_h.len() == p.num_vars
        && p.g_mask.len() == p.num_vars {
        Some(p.num_vars)
    } else {
        None
    }
}

/// Relies on `MultilinearPC::<Bn254>::trim`: specializes the parameters to
/// `nv` variables. A pure function of its arguments; the two keys come back
/// in compressed serialized form.
#[verifier::external_body]
pub(crate) fn poly_trim(srs: &Vec<u8>, nv: usize) -> (r: (Vec<u8>, Vec<u8>))
    requires
        mlpc_srs_wf(srs@),
        1 <= nv as int,
        nv as int <= mlpc_srs_nv(srs@),
    ensures
        r.0@ == mlpc_ck(srs@, nv as int),
        r.1@ == mlpc_vk(srs@, nv as int),
        mlpc_ck_wf(r.0@),
        mlpc_ck_nv(r.0@) == nv as int,
{
    let p = UniversalParams::<Bn254>::deserialize_compressed(&srs[..]).unwrap();
    let (ck, vk) = MultilinearPC::trim(&p, nv);
    let mut ck_bytes = Vec::new();
    ck.serialize_compressed(&mut ck_bytes).unwrap();
    let mut vk_bytes = Vec::new();
    vk.serialize_compressed(&mut vk_bytes).unwrap();
    (ck_bytes, vk_bytes)
}

/// Relies on `MultilinearPC::<Bn254>::commit`: binds a committer key and the
/// multilinear polynomial given by its `2^nv` evaluations to a compact
/// commitment. Deterministic: a pure function of its arguments. Scalars are
/// rebuilt from their little-endian limb bytes modulo the field order.
#[verifier::external_body]
pub(crate) fn poly_commit(ck: &Vec<u8>, nv: usize, evals: &Vec<Fe>) -> (r: Vec<u8>)
    requires
        mlpc_ck_wf(ck@),
        mlpc_ck_nv(ck@) == nv as int,
        evals@.len() == pow2(nv as nat),
    ensures
        r@ == mlpc_commitment(ck@, evals@),
{
    let k = CommitterKey::<Bn254>::deserialize_compressed(&ck[..]).unwrap();
    let evs: Vec<Fr> = evals
        .iter()
        .map(|e| Fr::from_le_bytes_mod_order(&fe_to_le_bytes(e)))
        .collect();
    let poly = DenseMultilinearExtension::from_evaluations_vec(nv, evs);
    let c = MultilinearPC::commit(&k, &poly);
    let mut out = Vec::new();
    c.serialize_compressed(&mut out).unwrap();
    out
}

/// Relies on `UniversalParams::<Bn254, SparsePolynomial<Fr, SparseTerm>>::
/// deserialize_compressed` of ark-poly-commit's masking scheme: reports the
/// supported degree, and reports it only for byte strings that decode to
/// parameters shaped the way the scheme's setup builds them (one powers
/// vector per variable, each `max_degree + 1` long, constant term present),
/// which is exactly the shape its trim indexes into.
#[verifier::external_body]
pub(crate) fn probe_mask_srs(srs: &Vec<u8>) -> (r: Option<usize>)
    ensures
        r is Some <==> mask_srs_wf(srs@),
        r matches Some(d) ==> d as int == mask_srs_deg(srs@),
{
    let p = match marlin_pst13_pc::UniversalParams::<Bn254, SparsePolynomial<Fr, SparseTerm>>::deserialize_compressed(&srs[..]) {
        Ok(p) => p,
        Err(_) => return None,
    };
    if p.max_degree >= 1 && p.num_vars >= 1 && p.powers_of_gamma_g.len() == p.num_vars
        && p.powers_of_gamma_g.iter().all(|v| v.len() == p.max_degree + 1)
        && p.powers_of_g.contains_key(&SparseTerm::new(vec![])) {
        Some(p.max_degree)
    } else {
        None
    }
}

/// Relies on `MarlinPST13::<Bn254, SparsePolynomial<Fr, SparseTerm>>::trim`:
/// specializes the masking scheme's parameters to the supported degree and
/// hiding bound. Its `requires` (well-formed bytes, degree within the
/// parameters) make the trim total; the result is a pure function of its
/// arguments and comes back in compressed serialized form.
#[verifier::external_body]
pub(crate) fn mask_trim(srs: &Vec<u8>, deg: usize, hiding: usize) -> (r: (Vec<u8>, Vec<u8>))
    requires
        mask_srs_wf(srs@),
        deg as int <= mask_srs_deg(srs@),
    ensures
        r.0@ == mask_ck(srs@, deg as int, hiding as int),
        r.1@ == mask_vk(srs@, deg as int, hiding as int),
{
    let p = marlin_pst13_pc::UniversalParams::<Bn254, SparsePolynomial<Fr, SparseTerm>>::deserialize_compressed(&srs[..]).unwrap();
    let (ck, vk) = MarlinPST13::<Bn254, SparsePolynomial<Fr, SparseTerm>>::trim(&p, deg, hiding, None).unwrap();
    let mut ck_bytes = Vec::new();
    ck.serialize_compressed(&mut ck_bytes).unwrap();
    let mut vk_bytes = Vec::new();
    vk.serialize_compressed(&mut vk_bytes).unwrap();
    (ck_bytes, vk_bytes)
}

} // verus!
