use spartan_indexer::bits::next_pow2_with_log;
use spartan_indexer::codec::{
    decode_prover_key, decode_verifier_key, encode_prover_key, encode_verifier_key,
};
use spartan_indexer::field::Fe;
use spartan_indexer::keys::{IndexProverKey, IndexVerifierKey};
use spartan_indexer::matrix::SparseMatEntry;
use spartan_indexer::multiplicity::{domain_enumeration, multiplicities, pad_with_first_term};
use spartan_indexer::unify::unify_matrices;

fn fe(x: u64) -> Fe {
    Fe { l0: x, l1: 0, l2: 0, l3: 0 }
}

#[test]
fn next_pow2_small_values() {
    assert_eq!(next_pow2_with_log(0), (1, 0));
    assert_eq!(next_pow2_with_log(1), (1, 0));
    assert_eq!(next_pow2_with_log(2), (2, 1));
    assert_eq!(next_pow2_with_log(3), (4, 2));
    assert_eq!(next_pow2_with_log(4), (4, 2));
    assert_eq!(next_pow2_with_log(5), (8, 3));
    assert_eq!(next_pow2_with_log(1024), (1024, 10));
}

#[test]
fn unify_disjoint_coordinates() {
    let a = vec![SparseMatEntry::new(0, 0, fe(5))];
    let b = vec![SparseMatEntry::new(1, 1, fe(7))];
    let c = vec![SparseMatEntry::new(0, 1, fe(9))];
    let u = unify_matrices(&a, &b, &c);
    assert_eq!(u.rows, vec![0, 1, 0]);
    assert_eq!(u.cols, vec![0, 1, 1]);
    assert_eq!(u.val_a, vec![fe(5), fe(0), fe(0)]);
    assert_eq!(u.val_b, vec![fe(0), fe(7), fe(0)]);
    assert_eq!(u.val_c, vec![fe(0), fe(0), fe(9)]);
}

#[test]
fn unify_shared_coordinate_collapses_to_one_slot() {
    let a = vec![SparseMatEntry::new(1, 0, fe(2))];
    let b = vec![SparseMatEntry::new(1, 0, fe(3))];
    let c = vec![SparseMatEntry::new(1, 0, fe(4))];
    let u = unify_matrices(&a, &b, &c);
    assert_eq!(u.rows, vec![1]);
    assert_eq!(u.cols, vec![0]);
    assert_eq!(u.val_a, vec![fe(2)]);
    assert_eq!(u.val_b, vec![fe(3)]);
    assert_eq!(u.val_c, vec![fe(4)]);
}

#[test]
fn unify_all_empty() {
    let a: Vec<SparseMatEntry> = Vec::new();
    let b: Vec<SparseMatEntry> = Vec::new();
    let c: Vec<SparseMatEntry> = Vec::new();
    let u = unify_matrices(&a, &b, &c);
    assert_eq!(u.rows.len(), 0);
    assert_eq!(u.cols.len(), 0);
}

#[test]
fn unify_later_entry_overwrites_same_matrix_value() {
    let a = vec![SparseMatEntry::new(0, 0, fe(1)), SparseMatEntry::new(0, 0, fe(8))];
    let b: Vec<SparseMatEntry> = Vec::new();
    let c: Vec<SparseMatEntry> = Vec::new();
    let u = unify_matrices(&a, &b, &c);
    assert_eq!(u.rows, vec![0]);
    assert_eq!(u.val_a, vec![fe(8)]);
}

#[test]
fn unify_slot_order_is_first_appearance_across_interleaving() {
    // Position 0 contributes A(0,0), B(5,5); position 1 contributes A(1,1).
    let a = vec![SparseMatEntry::new(0, 0, fe(1)), SparseMatEntry::new(1, 1, fe(2))];
    let b = vec![SparseMatEntry::new(5, 5, fe(3))];
    let c: Vec<SparseMatEntry> = Vec::new();
    let u = unify_matrices(&a, &b, &c);
    assert_eq!(u.rows, vec![0, 5, 1]);
    assert_eq!(u.cols, vec![0, 5, 1]);
}

#[test]
fn multiplicities_known_row_vector() {
    // Row indices [0,0,1,3] over domain {0,1,2,3}: frequencies 2,1,0,1.
    let v = vec![0usize, 0, 1, 3];
    let domain = domain_enumeration(4);
    assert_eq!(domain, vec![0, 1, 2, 3]);
    let freq = multiplicities(&v, &domain);
    assert_eq!(freq, vec![2, 1, 0, 1]);
    let total: u64 = freq.iter().sum();
    assert_eq!(total as usize, v.len());
}

#[test]
fn pad_with_first_term_repeats_first_entry() {
    let v = vec![4usize, 9];
    let padded = pad_with_first_term(&v, 4);
    assert_eq!(padded, vec![4, 9, 4, 4]);
}

#[test]
fn pad_with_first_term_empty_fills_with_zero() {
    let v: Vec<usize> = Vec::new();
    let padded = pad_with_first_term(&v, 2);
    assert_eq!(padded, vec![0, 0]);
}

fn sample_prover_key() -> IndexProverKey {
    IndexProverKey {
        rows: vec![0, 1, usize::MAX, usize::MAX],
        cols: vec![0, 1, usize::MAX, usize::MAX],
        val_a: vec![fe(5), fe(0), fe(0), fe(0)],
        val_b: vec![fe(7), fe(9), fe(0), fe(0)],
        val_c: vec![fe(0), fe(0), fe(0), fe(0)],
        freq_r: vec![fe(3), fe(1), fe(0), fe(0)],
        freq_c: vec![fe(3), fe(1), fe(0), fe(0)],
        real_len_val: 2,
        num_variables_val: 2,
        padded_num_var: 1,
        ck_w: vec![1, 2, 3],
        ck_index: vec![4, 5],
        ck_mask: vec![],
    }
}

fn sample_verifier_key() -> IndexVerifierKey {
    IndexVerifierKey {
        val_a_oracle: vec![10, 11],
        val_b_oracle: vec![12],
        val_c_oracle: vec![],
        real_len_val: 2,
        num_variables_val: 2,
        padded_num_var: 1,
        vk_w: vec![13, 14, 15],
        vk_index: vec![16],
        vk_mask: vec![17, 18],
    }
}

#[test]
fn prover_key_codec_round_trip() {
    let pk = sample_prover_key();
    let bytes = encode_prover_key(&pk);
    let back = decode_prover_key(&bytes);
    assert_eq!(back, Some(pk));
}

#[test]
fn verifier_key_codec_round_trip() {
    let vk = sample_verifier_key();
    let bytes = encode_verifier_key(&vk);
    let back = decode_verifier_key(&bytes);
    assert_eq!(back, Some(vk));
}

#[test]
fn decode_rejects_truncated_bytes() {
    let pk = sample_prover_key();
    let mut bytes = encode_prover_key(&pk);
    bytes.pop();
    assert_eq!(decode_prover_key(&bytes), None);
}

#[test]
fn decode_rejects_trailing_bytes() {
    let vk = sample_verifier_key();
    let mut bytes = encode_verifier_key(&vk);
    bytes.push(0);
    assert_eq!(decode_verifier_key(&bytes), None);
}
