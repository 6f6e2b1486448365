//! The artifacts the indexer produces.

use vstd::prelude::*;

use crate::field::Fe;

verus! {

/// Everything the prover needs for every proof of one circuit: the unified,
/// padded sparse layout, the value and frequency polynomials (as evaluation
/// vectors over `num_variables_val` variables), and the trimmed committer
/// keys of the three commitment schemes, serialized.
#[derive(Clone, Debug, PartialEq, Eq)]
pub struct IndexProverKey {
    pub rows: Vec<usize>,
    pub cols: Vec<usize>,
    pub val_a: Vec<Fe>,
    pub val_b: Vec<Fe>,
    pub val_c: Vec<Fe>,
    pub freq_r: Vec<Fe>,
    pub freq_c: Vec<Fe>,
    pub real_len_val: usize,
    pub num_variables_val: usize,
    pub padded_num_var: usize,
    pub ck_w: Vec<u8>,
    pub ck_index: Vec<u8>,
    pub ck_mask: Vec<u8>,
}

/// Everything a verifier needs: commitments to the three value polynomials
/// and the matching verifier-side keys of the three schemes, serialized,
/// plus the sizes of the committed layout.
#[derive(Clone, Debug, PartialEq, Eq)]
pub struct IndexVerifierKey {
    pub val_a_oracle: Vec<u8>,
    pub val_b_oracle: Vec<u8>,
    pub val_c_oracle: Vec<u8>,
    pub real_len_val: usize,
    pub num_variables_val: usize,
    pub padded_num_var: usize,
    pub vk_w: Vec<u8>,
    pub vk_index: Vec<u8>,
    pub vk_mask: Vec<u8>,
}

/// Mathematical image of a prover key.
#[verifier::ext_equal]
pub ghost struct PkView {
    pub rows: Seq<usize>,
    pub cols: Seq<usize>,
    pub val_a: Seq<Fe>,
    pub val_b: Seq<Fe>,
    pub val_c: Seq<Fe>,
    pub freq_r: Seq<Fe>,
    pub freq_c: Seq<Fe>,
    pub real_len_val: usize,
    pub num_variables_val: usize,
    pub padded_num_var: usize,
    pub ck_w: Seq<u8>,
    pub ck_index: Seq<u8>,
    pub ck_mask: Seq<u8>,
}

impl View for IndexProverKey {
    type V = PkView;

    open spec fn view(&self) -> PkView {
        PkView {
            rows: self.rows@,
            cols: self.cols@,
            val_a: self.val_a@,
            val_b: self.val_b@,
            val_c: self.val_c@,
            freq_r: self.freq_r@,
            freq_c: self.freq_c@,
            real_len_val: self.real_len_val,
            num_variables_val: self.num_variables_val,
            padded_num_var: self.padded_num_var,
            ck_w: self.ck_w@,
            ck_index: self.ck_index@,
            ck_mask: self.ck_mask@,
        }
    }
}

/// Mathematical image of a verifier key.
#[verifier::ext_equal]
pub ghost struct VkView {
    pub val_a_oracle: Seq<u8>,
    pub val_b_oracle: Seq<u8>,
    pub val_c_oracle: Seq<u8>,
    pub real_len_val: usize,
    pub num_variables_val: usize,
    pub padded_num_var: usize,
    pub vk_w: Seq<u8>,
    pub vk_index: Seq<u8>,
    pub vk_mask: Seq<u8>,
}

impl View for IndexVerifierKey {
    type V = VkView;

    open spec fn view(&self) -> VkView {
        VkView {
            val_a_oracle: self.val_a_oracle@,
            val_b_oracle: self.val_b_oracle@,
            val_c_oracle: self.val_c_oracle@,
            real_len_val: self.real_len_val,
            num_variables_val: self.num_variables_val,
            padded_num_var: self.padded_num_var,
            vk_w: self.vk_w@,
            vk_index: self.vk_index@,
            vk_mask: self.vk_mask@,
        }
    }
}

/// Global commitment-scheme parameters, serialized: `poly_srs` for the
/// multilinear scheme (trimmed twice: for the witness scheme and for the
/// index scheme), `mask_srs` for the sparse multivariate masking scheme.
#[derive(Clone, Debug, PartialEq, Eq)]
pub struct Srs {
    pub poly_srs: Vec<u8>,
    pub mask_srs: Vec<u8>,
}

/// The only failure the indexer itself can meet: the global scheme
/// parameters cannot serve the sizes this circuit requires.
#[derive(Clone, Copy, Debug, PartialEq, Eq, Structural)]
pub enum IndexError {
    /// The parameters are undecodable or too small for the requested number
    /// of variables or masking degree.
    Configuration,
}

impl IndexError {
    /// A short human-readable description.
    pub fn message(&self) -> (r: &'static str)
        ensures
            r@ =~= "commitment scheme parameters are unusable or too small for this circuit"@,
    {
        "commitment scheme parameters are unusable or too small for this circuit"
    }
}

} // verus!
