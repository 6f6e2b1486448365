use ark_bn254::{Bn254, Fr};
use ark_poly::multivariate::{SparsePolynomial, SparseTerm};
use ark_poly::DenseMultilinearExtension;
use ark_poly_commit::marlin_pst13_pc::MarlinPST13;
use ark_poly_commit::multilinear_pc::MultilinearPC;
use ark_poly_commit::PolynomialCommitment;
use ark_serialize::CanonicalSerialize;
use ark_std::test_rng;

use spartan_indexer::codec::{
    decode_prover_key, decode_verifier_key, encode_prover_key, encode_verifier_key,
};
use spartan_indexer::field::Fe;
use spartan_indexer::indexer::Indexer;
use spartan_indexer::keys::{IndexError, Srs};
use spartan_indexer::matrix::{R1cs, SparseMatEntry};

fn fe(x: u64) -> Fe {
    Fe { l0: x, l1: 0, l2: 0, l3: 0 }
}

fn poly_srs_bytes(num_vars: usize) -> Vec<u8> {
    let mut rng = test_rng();
    let params = MultilinearPC::<Bn254>::setup(num_vars, &mut rng);
    let mut bytes = Vec::new();
    params.serialize_compressed(&mut bytes).unwrap();
    bytes
}

fn mask_srs_bytes(max_degree: usize) -> Vec<u8> {
    let mut rng = test_rng();
    let params = MarlinPST13::<Bn254, SparsePolynomial<Fr, SparseTerm>>::setup(
        max_degree,
        Some(2),
        &mut rng,
    )
    .unwrap();
    let mut bytes = Vec::new();
    params.serialize_compressed(&mut bytes).unwrap();
    bytes
}

fn toy_r1cs() -> R1cs {
    // num_cons = 2, num_vars = 2; A has one nonzero at (0,0), B one at (0,0)
    // and one at (1,1), C is empty.
    R1cs {
        num_cons: 2,
        num_vars: 2,
        a: vec![SparseMatEntry::new(0, 0, fe(5))],
        b: vec![SparseMatEntry::new(0, 0, fe(7)), SparseMatEntry::new(1, 1, fe(9))],
        c: Vec::new(),
    }
}

#[test]
fn toy_circuit_end_to_end() {
    let srs = Srs { poly_srs: poly_srs_bytes(3), mask_srs: mask_srs_bytes(4) };
    let r1cs = toy_r1cs();
    let (pk, vk) = Indexer::index_for_prover_and_verifier(&r1cs, &srs).unwrap();

    // Unification: (0,0) once with both values set, (1,1) with only B's.
    assert_eq!(pk.real_len_val, 2);
    assert_eq!(pk.rows, vec![0, 1]);
    assert_eq!(pk.cols, vec![0, 1]);
    assert_eq!(pk.val_a, vec![fe(5), fe(0)]);
    assert_eq!(pk.val_b, vec![fe(7), fe(9)]);
    assert_eq!(pk.val_c, vec![fe(0), fe(0)]);

    // count = next power of two >= 2, so one variable.
    assert_eq!(pk.num_variables_val, 1);
    assert_eq!(pk.padded_num_var, 1);
    assert_eq!(vk.real_len_val, 2);
    assert_eq!(vk.num_variables_val, 1);
    assert_eq!(vk.padded_num_var, 1);

    // Row vector [0,1]: each domain value referenced once.
    assert_eq!(pk.freq_r, vec![fe(1), fe(1)]);
    assert_eq!(pk.freq_c, vec![fe(1), fe(1)]);

    // The oracles are the scheme's own commitments: recompute them directly.
    let mut rng = test_rng();
    let params = MultilinearPC::<Bn254>::setup(3, &mut rng);
    let (ck, _) = MultilinearPC::trim(&params, 1);
    let commit_bytes = |evals: Vec<Fr>| -> Vec<u8> {
        let poly = DenseMultilinearExtension::from_evaluations_vec(1, evals);
        let c = MultilinearPC::commit(&ck, &poly);
        let mut out = Vec::new();
        c.serialize_compressed(&mut out).unwrap();
        out
    };
    assert_eq!(vk.val_a_oracle, commit_bytes(vec![Fr::from(5u64), Fr::from(0u64)]));
    assert_eq!(vk.val_b_oracle, commit_bytes(vec![Fr::from(7u64), Fr::from(9u64)]));
    // C is empty: its oracle commits the all-identity polynomial.
    assert_eq!(vk.val_c_oracle, commit_bytes(vec![Fr::from(0u64), Fr::from(0u64)]));

    // The trimmed keys are the schemes' own: recompute them directly.
    let mut ck_b = Vec::new();
    ck.serialize_compressed(&mut ck_b).unwrap();
    assert_eq!(pk.ck_index, ck_b);
    assert_eq!(pk.ck_w, ck_b);
    let mut rng2 = test_rng();
    let m_params = MarlinPST13::<Bn254, SparsePolynomial<Fr, SparseTerm>>::setup(
        4,
        Some(2),
        &mut rng2,
    )
    .unwrap();
    let (mck, mvk) =
        MarlinPST13::<Bn254, SparsePolynomial<Fr, SparseTerm>>::trim(&m_params, 4, 1, None)
            .unwrap();
    let mut mck_b = Vec::new();
    mck.serialize_compressed(&mut mck_b).unwrap();
    let mut mvk_b = Vec::new();
    mvk.serialize_compressed(&mut mvk_b).unwrap();
    assert_eq!(pk.ck_mask, mck_b);
    assert_eq!(vk.vk_mask, mvk_b);
}

#[test]
fn indexing_is_deterministic() {
    let srs = Srs { poly_srs: poly_srs_bytes(3), mask_srs: mask_srs_bytes(4) };
    let r1cs = toy_r1cs();
    let (pk1, vk1) = Indexer::index_for_prover_and_verifier(&r1cs, &srs).unwrap();
    let (pk2, vk2) = Indexer::index_for_prover_and_verifier(&r1cs, &srs).unwrap();
    assert_eq!(pk1, pk2);
    assert_eq!(vk1, vk2);
    assert_eq!(encode_verifier_key(&vk1), encode_verifier_key(&vk2));
    assert_eq!(encode_prover_key(&pk1), encode_prover_key(&pk2));
}

#[test]
fn produced_keys_round_trip_through_the_codec() {
    let srs = Srs { poly_srs: poly_srs_bytes(3), mask_srs: mask_srs_bytes(4) };
    let r1cs = toy_r1cs();
    let (pk, vk) = Indexer::index_for_prover_and_verifier(&r1cs, &srs).unwrap();
    let pk_bytes = encode_prover_key(&pk);
    let vk_bytes = encode_verifier_key(&vk);
    assert_eq!(decode_prover_key(&pk_bytes), Some(pk));
    assert_eq!(decode_verifier_key(&vk_bytes), Some(vk));
}

#[test]
fn undecodable_poly_parameters_are_a_configuration_error() {
    let srs = Srs { poly_srs: vec![1, 2, 3], mask_srs: mask_srs_bytes(4) };
    let r1cs = toy_r1cs();
    let r = Indexer::index_for_prover_and_verifier(&r1cs, &srs);
    assert_eq!(r, Err(IndexError::Configuration));
}

#[test]
fn too_small_poly_parameters_are_a_configuration_error() {
    // padded_num_var = 4 for a 16-constraint circuit, but the parameters
    // support only 3 variables.
    let srs = Srs { poly_srs: poly_srs_bytes(3), mask_srs: mask_srs_bytes(4) };
    let r1cs = R1cs {
        num_cons: 16,
        num_vars: 2,
        a: vec![SparseMatEntry::new(0, 0, fe(1))],
        b: Vec::new(),
        c: Vec::new(),
    };
    let r = Indexer::index_for_prover_and_verifier(&r1cs, &srs);
    assert_eq!(r, Err(IndexError::Configuration));
}

#[test]
fn undecodable_mask_parameters_are_a_configuration_error() {
    let srs = Srs { poly_srs: poly_srs_bytes(3), mask_srs: vec![9, 9, 9] };
    let r1cs = toy_r1cs();
    let r = Indexer::index_for_prover_and_verifier(&r1cs, &srs);
    assert_eq!(r, Err(IndexError::Configuration));
}

#[test]
fn too_small_mask_parameters_are_a_configuration_error() {
    // The masking scheme is trimmed to degree 4; parameters of degree 2 fail.
    let srs = Srs { poly_srs: poly_srs_bytes(3), mask_srs: mask_srs_bytes(2) };
    let r1cs = toy_r1cs();
    let r = Indexer::index_for_prover_and_verifier(&r1cs, &srs);
    assert_eq!(r, Err(IndexError::Configuration));
}

#[test]
fn empty_circuit_still_yields_committed_slots() {
    let srs = Srs { poly_srs: poly_srs_bytes(3), mask_srs: mask_srs_bytes(4) };
    let r1cs = R1cs { num_cons: 2, num_vars: 2, a: Vec::new(), b: Vec::new(), c: Vec::new() };
    let (pk, vk) = Indexer::index_for_prover_and_verifier(&r1cs, &srs).unwrap();
    assert_eq!(pk.real_len_val, 0);
    assert_eq!(pk.num_variables_val, 1);
    assert_eq!(pk.rows, vec![usize::MAX, usize::MAX]);
    assert_eq!(pk.val_a, vec![fe(0), fe(0)]);
    assert!(!vk.val_a_oracle.is_empty());
}

#[test]
fn scalar_limbs_reach_the_commitment_scheme_little_endian() {
    // Two keys whose value polynomials differ only in a high limb must get
    // different oracles: the limbs really reach the scheme.
    let srs = Srs { poly_srs: poly_srs_bytes(3), mask_srs: mask_srs_bytes(4) };
    let mk = |val: Fe| R1cs {
        num_cons: 2,
        num_vars: 2,
        a: vec![SparseMatEntry::new(0, 0, val), SparseMatEntry::new(1, 1, fe(1))],
        b: Vec::new(),
        c: Vec::new(),
    };
    let (_, vk_low) = Indexer::index_for_prover_and_verifier(&mk(fe(5)), &srs).unwrap();
    let (_, vk_high) = Indexer::index_for_prover_and_verifier(
        &mk(Fe { l0: 5, l1: 1, l2: 0, l3: 0 }),
        &srs,
    )
    .unwrap();
    assert_ne!(vk_low.val_a_oracle, vk_high.val_a_oracle);
}
