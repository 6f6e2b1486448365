//! Canonical byte encoding of the two keys: length-prefixed, field-ordered,
//! little-endian. Serializing and deserializing a key reproduces it exactly;
//! the round trip is proved below.

use vstd::prelude::*;

use crate::field::Fe;
use crate::keys::{IndexProverKey, IndexVerifierKey, PkView, VkView};

verus! {

/// The `k`-th little-endian byte of `x` (a truncating cast).
pub open spec fn u64_byte(x: u64, k: int) -> u8 {
    (x >> ((8 * k) as u64)) as u8
}

/// The eight little-endian bytes of `x`.
pub open spec fn u64_bytes(x: u64) -> Seq<u8> {
    Seq::new(8, |k: int| u64_byte(x, k))
}

/// The value read back from eight little-endian bytes.
pub open spec fn u64_of_bytes(s: Seq<u8>) -> u64 {
    (s[0] as u64) | ((s[1] as u64) << 8) | ((s[2] as u64) << 16) | ((s[3] as u64) << 24) | ((
    s[4] as u64) << 32) | ((s[5] as u64) << 40) | ((s[6] as u64) << 48) | ((s[7] as u64) << 56)
}

pub proof fn lemma_u64_bytes_round(x: u64)
    ensures
        u64_of_bytes(u64_bytes(x)) == x,
{
    let s = u64_bytes(x);
    let b0 = s[0];
    let b1 = s[1];
    let b2 = s[2];
    let b3 = s[3];
    let b4 = s[4];
    let b5 = s[5];
    let b6 = s[6];
    let b7 = s[7];
    assert((b0 as u64) | ((b1 as u64) << 8) | ((b2 as u64) << 16) | ((b3 as u64) << 24) | ((
    b4 as u64) << 32) | ((b5 as u64) << 40) | ((b6 as u64) << 48) | ((b7 as u64) << 56) == x)
        by (bit_vector)
        requires
            b0 == (x >> 0u64) as u8,
            b1 == (x >> 8u64) as u8,
            b2 == (x >> 16u64) as u8,
            b3 == (x >> 24u64) as u8,
            b4 == (x >> 32u64) as u8,
            b5 == (x >> 40u64) as u8,
            b6 == (x >> 48u64) as u8,
            b7 == (x >> 56u64) as u8,
    ;
}

/// Append the eight little-endian bytes of `x`.
pub fn enc_u64(out: &mut Vec<u8>, x: u64)
    ensures
        final(out)@ == old(out)@ + u64_bytes(x),
{
    out.push(#[verifier::truncate] ((x >> 0u64) as u8));
    out.push(#[verifier::truncate] ((x >> 8u64) as u8));
    out.push(#[verifier::truncate] ((x >> 16u64) as u8));
    out.push(#[verifier::truncate] ((x >> 24u64) as u8));
    out.push(#[verifier::truncate] ((x >> 32u64) as u8));
    out.push(#[verifier::truncate] ((x >> 40u64) as u8));
    out.push(#[verifier::truncate] ((x >> 48u64) as u8));
    out.push(#[verifier::truncate] ((x >> 56u64) as u8));
    proof {
        assert(out@ =~= old(out)@ + u64_bytes(x));
    }
}

/// The 32 little-endian bytes of a scalar's four limbs.
pub open spec fn fe_bytes(e: Fe) -> Seq<u8> {
    u64_bytes(e.l0) + u64_bytes(e.l1) + u64_bytes(e.l2) + u64_bytes(e.l3)
}

/// A scalar as its 32 little-endian bytes.
pub fn fe_to_le_bytes(e: &Fe) -> (r: Vec<u8>)
    ensures
        r@ == fe_bytes(*e),
        r@.len() == 32,
{
    let mut r: Vec<u8> = Vec::new();
    enc_u64(&mut r, e.l0);
    enc_u64(&mut r, e.l1);
    enc_u64(&mut r, e.l2);
    enc_u64(&mut r, e.l3);
    proof {
        assert(r@ =~= fe_bytes(*e));
    }
    r
}

// ------------------------------------------------------------------
// Encoders, specification side. A vector is its length as a u64 followed by
// its items; an index is a u64; a scalar is its four limbs.
// ------------------------------------------------------------------

pub open spec fn usize_payload(s: Seq<usize>) -> Seq<u8>
    decreases s.len(),
{
    if s.len() == 0 {
        Seq::empty()
    } else {
        u64_bytes(s.first() as u64) + usize_payload(s.drop_first())
    }
}

pub open spec fn enc_usize_vec(s: Seq<usize>) -> Seq<u8> {
    u64_bytes(s.len() as u64) + usize_payload(s)
}

pub open spec fn fe_payload(s: Seq<Fe>) -> Seq<u8>
    decreases s.len(),
{
    if s.len() == 0 {
        Seq::empty()
    } else {
        fe_bytes(s.first()) + fe_payload(s.drop_first())
    }
}

pub open spec fn enc_fe_vec(s: Seq<Fe>) -> Seq<u8> {
    u64_bytes(s.len() as u64) + fe_payload(s)
}

pub open spec fn enc_byte_vec(s: Seq<u8>) -> Seq<u8> {
    u64_bytes(s.len() as u64) + s
}

/// The canonical encoding of a prover key: fields in declaration order.
pub open spec fn enc_pk(v: PkView) -> Seq<u8> {
    enc_usize_vec(v.rows) + enc_usize_vec(v.cols) + enc_fe_vec(v.val_a) + enc_fe_vec(v.val_b)
        + enc_fe_vec(v.val_c) + enc_fe_vec(v.freq_r) + enc_fe_vec(v.freq_c) + u64_bytes(
        v.real_len_val as u64,
    ) + u64_bytes(v.num_variables_val as u64) + u64_bytes(v.padded_num_var as u64) + enc_byte_vec(
        v.ck_w,
    ) + enc_byte_vec(v.ck_index) + enc_byte_vec(v.ck_mask)
}

/// The canonical encoding of a verifier key: fields in declaration order.
pub open spec fn enc_vk(v: VkView) -> Seq<u8> {
    enc_byte_vec(v.val_a_oracle) + enc_byte_vec(v.val_b_oracle) + enc_byte_vec(v.val_c_oracle)
        + u64_bytes(v.real_len_val as u64) + u64_bytes(v.num_variables_val as u64) + u64_bytes(
        v.padded_num_var as u64,
    ) + enc_byte_vec(v.vk_w) + enc_byte_vec(v.vk_index) + enc_byte_vec(v.vk_mask)
}

// ------------------------------------------------------------------
// Parsers, specification side: total functions of the byte string and a
// cursor.
// ------------------------------------------------------------------

pub open spec fn parse_u64(b: Seq<u8>, pos: int) -> Option<(u64, int)> {
    if 0 <= pos && pos + 8 <= b.len() {
        Some((u64_of_bytes(b.subrange(pos, pos + 8)), pos + 8))
    } else {
        None
    }
}

pub open spec fn parse_usize(b: Seq<u8>, pos: int) -> Option<(usize, int)> {
    match parse_u64(b, pos) {
        Some((x, p)) => if x <= usize::MAX {
            Some((x as usize, p))
        } else {
            None
        },
        None => None,
    }
}

pub open spec fn parse_usize_payload(b: Seq<u8>, pos: int, n: int) -> Option<(Seq<usize>, int)>
    decreases n,
{
    if n <= 0 {
        if n == 0 {
            Some((Seq::empty(), pos))
        } else {
            None
        }
    } else {
        match parse_usize(b, pos) {
            Some((x, p)) => match parse_usize_payload(b, p, n - 1) {
                Some((s, p2)) => Some((seq![x] + s, p2)),
                None => None,
            },
            None => None,
        }
    }
}

pub open spec fn parse_usize_vec(b: Seq<u8>, pos: int) -> Option<(Seq<usize>, int)> {
    match parse_u64(b, pos) {
        Some((n, p)) => parse_usize_payload(b, p, n as int),
        None => None,
    }
}

pub open spec fn parse_fe(b: Seq<u8>, pos: int) -> Option<(Fe, int)> {
    match parse_u64(b, pos) {
        Some((l0, p0)) => match parse_u64(b, p0) {
            Some((l1, p1)) => match parse_u64(b, p1) {
                Some((l2, p2)) => match parse_u64(b, p2) {
                    Some((l3, p3)) => Some((Fe { l0, l1, l2, l3 }, p3)),
                    None => None,
                },
                None => None,
            },
            None => None,
        },
        None => None,
    }
}

pub open spec fn parse_fe_payload(b: Seq<u8>, pos: int, n: int) -> Option<(Seq<Fe>, int)>
    decreases n,
{
    if n <= 0 {
        if n == 0 {
            Some((Seq::empty(), pos))
        } else {
            None
        }
    } else {
        match parse_fe(b, pos) {
            Some((x, p)) => match parse_fe_payload(b, p, n - 1) {
                Some((s, p2)) => Some((seq![x] + s, p2)),
                None => None,
            },
            None => None,
        }
    }
}

pub open spec fn parse_fe_vec(b: Seq<u8>, pos: int) -> Option<(Seq<Fe>, int)> {
    match parse_u64(b, pos) {
        Some((n, p)) => parse_fe_payload(b, p, n as int),
        None => None,
    }
}

pub open spec fn parse_byte_vec(b: Seq<u8>, pos: int) -> Option<(Seq<u8>, int)> {
    match parse_u64(b, pos) {
        Some((n, p)) => if p + n <= b.len() {
            Some((b.subrange(p, p + n as int), p + n as int))
        } else {
            None
        },
        None => None,
    }
}

/// The canonical parse of a prover key: the whole byte string, no trailing
/// bytes.
pub open spec fn parse_pk(b: Seq<u8>) -> Option<PkView> {
    match parse_usize_vec(b, 0) {
        None => None,
        Some((rows, p1)) => match parse_usize_vec(b, p1) {
            None => None,
            Some((cols, p2)) => match parse_fe_vec(b, p2) {
                None => None,
                Some((val_a, p3)) => match parse_fe_vec(b, p3) {
                    None => None,
                    Some((val_b, p4)) => match parse_fe_vec(b, p4) {
                        None => None,
                        Some((val_c, p5)) => match parse_fe_vec(b, p5) {
                            None => None,
                            Some((freq_r, p6)) => match parse_fe_vec(b, p6) {
                                None => None,
                                Some((freq_c, p7)) => match parse_usize(b, p7) {
                                    None => None,
                                    Some((real_len_val, p8)) => match parse_usize(b, p8) {
                                        None => None,
                                        Some((num_variables_val, p9)) => match parse_usize(b, p9) {
                                            None => None,
                                            Some((padded_num_var, p10)) => match parse_byte_vec(
                                                b,
                                                p10,
                                            ) {
                                                None => None,
                                                Some((ck_w, p11)) => match parse_byte_vec(b, p11) {
                                                    None => None,
                                                    Some((ck_index, p12)) => match parse_byte_vec(
                                                        b,
                                                        p12,
                                                    ) {
                                                        None => None,
                                                        Some((ck_mask, p13)) => if p13 == b.len() {
                                                            Some(
                                                                PkView {
                                                                    rows,
                                                                    cols,
                                                                    val_a,
                                                                    val_b,
                                                                    val_c,
                                                                    freq_r,
                                                                    freq_c,
                                                                    real_len_val,
                                                                    num_variables_val,
                                                                    padded_num_var,
                                                                    ck_w,
                                                                    ck_index,
                                                                    ck_mask,
                                                                },
                                                            )
                                                        } else {
                                                            None
                                                        },
                                                    },
                                                },
                                            },
                                        },
                                    },
                                },
                            },
                        },
                    },
                },
            },
        },
    }
}

// ------------------------------------------------------------------
// Parsing an encoding gives the value back.
// ------------------------------------------------------------------

proof fn lemma_usize_payload_len(s: Seq<usize>)
    ensures
        usize_payload(s).len() == 8 * s.len(),
    decreases s.len(),
{
    if s.len() > 0 {
        lemma_usize_payload_len(s.drop_first());
    }
}

proof fn lemma_fe_payload_len(s: Seq<Fe>)
    ensures
        fe_payload(s).len() == 32 * s.len(),
    decreases s.len(),
{
    if s.len() > 0 {
        lemma_fe_payload_len(s.drop_first());
    }
}

/// A window into a region of `b` equals the same window into the region.
proof fn lemma_subrange_of_region(b: Seq<u8>, pos: int, region: Seq<u8>, lo: int, hi: int)
    requires
        0 <= pos,
        pos + region.len() <= b.len(),
        b.subrange(pos, pos + region.len()) == region,
        0 <= lo <= hi <= region.len(),
    ensures
        b.subrange(pos + lo, pos + hi) == region.subrange(lo, hi),
{
    assert forall|i: int| 0 <= i < hi - lo implies b.subrange(pos + lo, pos + hi)[i]
        == region.subrange(lo, hi)[i] by {
        assert(b.subrange(pos, pos + region.len())[lo + i] == region[lo + i]);
    }
    assert(b.subrange(pos + lo, pos + hi) =~= region.subrange(lo, hi));
}

proof fn lemma_parse_u64_frame(b: Seq<u8>, pos: int, x: u64)
    requires
        0 <= pos,
        pos + 8 <= b.len(),
        b.subrange(pos, pos + 8) == u64_bytes(x),
    ensures
        parse_u64(b, pos) == Some((x, pos + 8)),
{
    lemma_u64_bytes_round(x);
}

proof fn lemma_parse_usize_frame(b: Seq<u8>, pos: int, x: usize)
    requires
        0 <= pos,
        pos + 8 <= b.len(),
        b.subrange(pos, pos + 8) == u64_bytes(x as u64),
    ensures
        parse_usize(b, pos) == Some((x, pos + 8)),
{
    lemma_parse_u64_frame(b, pos, x as u64);
}

proof fn lemma_parse_usize_payload_frame(b: Seq<u8>, pos: int, s: Seq<usize>)
    requires
        0 <= pos,
        pos + 8 * s.len() <= b.len(),
        b.subrange(pos, pos + 8 * s.len()) == usize_payload(s),
    ensures
        parse_usize_payload(b, pos, s.len() as int) == Some((s, pos + 8 * s.len())),
    decreases s.len(),
{
    lemma_usize_payload_len(s);
    if s.len() == 0 {
        assert(s =~= Seq::<usize>::empty());
    } else {
        let rest = s.drop_first();
        lemma_usize_payload_len(rest);
        let region = usize_payload(s);
        lemma_subrange_of_region(b, pos, region, 0, 8);
        assert(region.subrange(0, 8) =~= u64_bytes(s.first() as u64));
        lemma_parse_usize_frame(b, pos, s.first());
        lemma_subrange_of_region(b, pos, region, 8, 8 + 8 * rest.len() as int);
        assert(region.subrange(8, 8 + 8 * rest.len() as int) =~= usize_payload(rest));
        lemma_parse_usize_payload_frame(b, pos + 8, rest);
        assert(seq![s.first()] + rest =~= s);
    }
}

proof fn lemma_parse_usize_vec_frame(b: Seq<u8>, pos: int, s: Seq<usize>)
    requires
        0 <= pos,
        s.len() <= usize::MAX,
        pos + enc_usize_vec(s).len() <= b.len(),
        b.subrange(pos, pos + enc_usize_vec(s).len()) == enc_usize_vec(s),
    ensures
        parse_usize_vec(b, pos) == Some((s, pos + enc_usize_vec(s).len())),
{
    lemma_usize_payload_len(s);
    let region = enc_usize_vec(s);
    lemma_subrange_of_region(b, pos, region, 0, 8);
    assert(region.subrange(0, 8) =~= u64_bytes(s.len() as u64));
    lemma_parse_u64_frame(b, pos, s.len() as u64);
    lemma_subrange_of_region(b, pos, region, 8, 8 + 8 * s.len() as int);
    assert(region.subrange(8, 8 + 8 * s.len() as int) =~= usize_payload(s));
    lemma_parse_usize_payload_frame(b, pos + 8, s);
}

proof fn lemma_parse_fe_frame(b: Seq<u8>, pos: int, e: Fe)
    requires
        0 <= pos,
        pos + 32 <= b.len(),
        b.subrange(pos, pos + 32) == fe_bytes(e),
    ensures
        parse_fe(b, pos) == Some((e, pos + 32)),
{
    let region = fe_bytes(e);
    lemma_subrange_of_region(b, pos, region, 0, 8);
    lemma_subrange_of_region(b, pos, region, 8, 16);
    lemma_subrange_of_region(b, pos, region, 16, 24);
    lemma_subrange_of_region(b, pos, region, 24, 32);
    assert(region.subrange(0, 8) =~= u64_bytes(e.l0));
    assert(region.subrange(8, 16) =~= u64_bytes(e.l1));
    assert(region.subrange(16, 24) =~= u64_bytes(e.l2));
    assert(region.subrange(24, 32) =~= u64_bytes(e.l3));
    lemma_parse_u64_frame(b, pos, e.l0);
    lemma_parse_u64_frame(b, pos + 8, e.l1);
    lemma_parse_u64_frame(b, pos + 16, e.l2);
    lemma_parse_u64_frame(b, pos + 24, e.l3);
}

proof fn lemma_parse_fe_payload_frame(b: Seq<u8>, pos: int, s: Seq<Fe>)
    requires
        0 <= pos,
        pos + 32 * s.len() <= b.len(),
        b.subrange(pos, pos + 32 * s.len()) == fe_payload(s),
    ensures
        parse_fe_payload(b, pos, s.len() as int) == Some((s, pos + 32 * s.len())),
    decreases s.len(),
{
    lemma_fe_payload_len(s);
    if s.len() == 0 {
        assert(s =~= Seq::<Fe>::empty());
    } else {
        let rest = s.drop_first();
        lemma_fe_payload_len(rest);
        let region = fe_payload(s);
        lemma_subrange_of_region(b, pos, region, 0, 32);
        assert(region.subrange(0, 32) =~= fe_bytes(s.first()));
        lemma_parse_fe_frame(b, pos, s.first());
        lemma_subrange_of_region(b, pos, region, 32, 32 + 32 * rest.len() as int);
        assert(region.subrange(32, 32 + 32 * rest.len() as int) =~= fe_payload(rest));
        lemma_parse_fe_payload_frame(b, pos + 32, rest);
        assert(seq![s.first()] + rest =~= s);
    }
}

proof fn lemma_parse_fe_vec_frame(b: Seq<u8>, pos: int, s: Seq<Fe>)
    requires
        0 <= pos,
        s.len() <= usize::MAX,
        pos + enc_fe_vec(s).len() <= b.len(),
        b.subrange(pos, pos + enc_fe_vec(s).len()) == enc_fe_vec(s),
    ensures
        parse_fe_vec(b, pos) == Some((s, pos + enc_fe_vec(s).len())),
{
    lemma_fe_payload_len(s);
    let region = enc_fe_vec(s);
    lemma_subrange_of_region(b, pos, region, 0, 8);
    assert(region.subrange(0, 8) =~= u64_bytes(s.len() as u64));
    lemma_parse_u64_frame(b, pos, s.len() as u64);
    lemma_subrange_of_region(b, pos, region, 8, 8 + 32 * s.len() as int);
    assert(region.subrange(8, 8 + 32 * s.len() as int) =~= fe_payload(s));
    lemma_parse_fe_payload_frame(b, pos + 8, s);
}

proof fn lemma_parse_byte_vec_frame(b: Seq<u8>, pos: int, s: Seq<u8>)
    requires
        0 <= pos,
        s.len() <= usize::MAX,
        pos + enc_byte_vec(s).len() <= b.len(),
        b.subrange(pos, pos + enc_byte_vec(s).len()) == enc_byte_vec(s),
    ensures
        parse_byte_vec(b, pos) == Some((s, pos + enc_byte_vec(s).len())),
{
    let region = enc_byte_vec(s);
    lemma_subrange_of_region(b, pos, region, 0, 8);
    assert(region.subrange(0, 8) =~= u64_bytes(s.len() as u64));
    lemma_parse_u64_frame(b, pos, s.len() as u64);
    lemma_subrange_of_region(b, pos, region, 8, 8 + s.len() as int);
    assert(region.subrange(8, 8 + s.len() as int) =~= s);
}

/// The lengths a key's view carries when it comes from a real key: every
/// array fits in the machine's address space.
pub open spec fn pk_view_wf(v: PkView) -> bool {
    &&& v.rows.len() <= usize::MAX
    &&& v.cols.len() <= usize::MAX
    &&& v.val_a.len() <= usize::MAX
    &&& v.val_b.len() <= usize::MAX
    &&& v.val_c.len() <= usize::MAX
    &&& v.freq_r.len() <= usize::MAX
    &&& v.freq_c.len() <= usize::MAX
    &&& v.ck_w.len() <= usize::MAX
    &&& v.ck_index.len() <= usize::MAX
    &&& v.ck_mask.len() <= usize::MAX
}

pub open spec fn vk_view_wf(v: VkView) -> bool {
    &&& v.val_a_oracle.len() <= usize::MAX
    &&& v.val_b_oracle.len() <= usize::MAX
    &&& v.val_c_oracle.len() <= usize::MAX
    &&& v.vk_w.len() <= usize::MAX
    &&& v.vk_index.len() <= usize::MAX
    &&& v.vk_mask.len() <= usize::MAX
}

/// Round trip: parsing the canonical encoding of a prover key yields the
/// key back, exactly.
#[verifier::rlimit(100)]
pub proof fn lemma_prover_key_round_trip(v: PkView)
    requires
        pk_view_wf(v),
    ensures
        parse_pk(enc_pk(v)) == Some(v),
{
    let b = enc_pk(v);
    let a1 = enc_usize_vec(v.rows);
    let a2 = enc_usize_vec(v.cols);
    let a3 = enc_fe_vec(v.val_a);
    let a4 = enc_fe_vec(v.val_b);
    let a5 = enc_fe_vec(v.val_c);
    let a6 = enc_fe_vec(v.freq_r);
    let a7 = enc_fe_vec(v.freq_c);
    let a8 = u64_bytes(v.real_len_val as u64);
    let a9 = u64_bytes(v.num_variables_val as u64);
    let a10 = u64_bytes(v.padded_num_var as u64);
    let a11 = enc_byte_vec(v.ck_w);
    let a12 = enc_byte_vec(v.ck_index);
    let a13 = enc_byte_vec(v.ck_mask);
    let p1 = a1.len() as int;
    let p2 = p1 + a2.len();
    let p3 = p2 + a3.len();
    let p4 = p3 + a4.len();
    let p5 = p4 + a5.len();
    let p6 = p5 + a6.len();
    let p7 = p6 + a7.len();
    let p8 = p7 + a8.len();
    let p9 = p8 + a9.len();
    let p10 = p9 + a10.len();
    let p11 = p10 + a11.len();
    let p12 = p11 + a12.len();
    let p13 = p12 + a13.len();
    assert(b.len() == p13);
    assert(b.subrange(0, p1) =~= a1);
    assert(b.subrange(p1, p2) =~= a2);
    assert(b.subrange(p2, p3) =~= a3);
    assert(b.subrange(p3, p4) =~= a4);
    assert(b.subrange(p4, p5) =~= a5);
    assert(b.subrange(p5, p6) =~= a6);
    assert(b.subrange(p6, p7) =~= a7);
    assert(b.subrange(p7, p8) =~= a8);
    assert(b.subrange(p8, p9) =~= a9);
    assert(b.subrange(p9, p10) =~= a10);
    assert(b.subrange(p10, p11) =~= a11);
    assert(b.subrange(p11, p12) =~= a12);
    assert(b.subrange(p12, p13) =~= a13);
    lemma_parse_usize_vec_frame(b, 0, v.rows);
    lemma_parse_usize_vec_frame(b, p1, v.cols);
    lemma_parse_fe_vec_frame(b, p2, v.val_a);
    lemma_parse_fe_vec_frame(b, p3, v.val_b);
    lemma_parse_fe_vec_frame(b, p4, v.val_c);
    lemma_parse_fe_vec_frame(b, p5, v.freq_r);
    lemma_parse_fe_vec_frame(b, p6, v.freq_c);
    lemma_parse_usize_frame(b, p7, v.real_len_val);
    lemma_parse_usize_frame(b, p8, v.num_variables_val);
    lemma_parse_usize_frame(b, p9, v.padded_num_var);
    lemma_parse_byte_vec_frame(b, p10, v.ck_w);
    lemma_parse_byte_vec_frame(b, p11, v.ck_index);
    lemma_parse_byte_vec_frame(b, p12, v.ck_mask);
}

/// Round trip: parsing the canonical encoding of a verifier key yields the
/// key back, exactly.
#[verifier::rlimit(100)]
pub proof fn lemma_verifier_key_round_trip(v: VkView)
    requires
        vk_view_wf(v),
    ensures
        parse_vk(enc_vk(v)) == Some(v),
{
    let b = enc_vk(v);
    let a1 = enc_byte_vec(v.val_a_oracle);
    let a2 = enc_byte_vec(v.val_b_oracle);
    let a3 = enc_byte_vec(v.val_c_oracle);
    let a4 = u64_bytes(v.real_len_val as u64);
    let a5 = u64_bytes(v.num_variables_val as u64);
    let a6 = u64_bytes(v.padded_num_var as u64);
    let a7 = enc_byte_vec(v.vk_w);
    let a8 = enc_byte_vec(v.vk_index);
    let a9 = enc_byte_vec(v.vk_mask);
    let p1 = a1.len() as int;
    let p2 = p1 + a2.len();
    let p3 = p2 + a3.len();
    let p4 = p3 + a4.len();
    let p5 = p4 + a5.len();
    let p6 = p5 + a6.len();
    let p7 = p6 + a7.len();
    let p8 = p7 + a8.len();
    let p9 = p8 + a9.len();
    assert(b.len() == p9);
    assert(b.subrange(0, p1) =~= a1);
    assert(b.subrange(p1, p2) =~= a2);
    assert(b.subrange(p2, p3) =~= a3);
    assert(b.subrange(p3, p4) =~= a4);
    assert(b.subrange(p4, p5) =~= a5);
    assert(b.subrange(p5, p6) =~= a6);
    assert(b.subrange(p6, p7) =~= a7);
    assert(b.subrange(p7, p8) =~= a8);
    assert(b.subrange(p8, p9) =~= a9);
    lemma_parse_byte_vec_frame(b, 0, v.val_a_oracle);
    lemma_parse_byte_vec_frame(b, p1, v.val_b_oracle);
    lemma_parse_byte_vec_frame(b, p2, v.val_c_oracle);
    lemma_parse_usize_frame(b, p3, v.real_len_val);
    lemma_parse_usize_frame(b, p4, v.num_variables_val);
    lemma_parse_usize_frame(b, p5, v.padded_num_var);
    lemma_parse_byte_vec_frame(b, p6, v.vk_w);
    lemma_parse_byte_vec_frame(b, p7, v.vk_index);
    lemma_parse_byte_vec_frame(b, p8, v.vk_mask);
}

/// The canonical parse of a verifier key.
pub open spec fn parse_vk(b: Seq<u8>) -> Option<VkView> {
    match parse_byte_vec(b, 0) {
        None => None,
        Some((val_a_oracle, p1)) => match parse_byte_vec(b, p1) {
            None => None,
            Some((val_b_oracle, p2)) => match parse_byte_vec(b, p2) {
                None => None,
                Some((val_c_oracle, p3)) => match parse_usize(b, p3) {
                    None => None,
                    Some((real_len_val, p4)) => match parse_usize(b, p4) {
                        None => None,
                        Some((num_variables_val, p5)) => match parse_usize(b, p5) {
                            None => None,
                            Some((padded_num_var, p6)) => match parse_byte_vec(b, p6) {
                                None => None,
                                Some((vk_w, p7)) => match parse_byte_vec(b, p7) {
                                    None => None,
                                    Some((vk_index, p8)) => match parse_byte_vec(b, p8) {
                                        None => None,
                                        Some((vk_mask, p9)) => if p9 == b.len() {
                                            Some(
                                                VkView {
                                                    val_a_oracle,
                                                    val_b_oracle,
                                                    val_c_oracle,
                                                    real_len_val,
                                                    num_variables_val,
                                                    padded_num_var,
                                                    vk_w,
                                                    vk_index,
                                                    vk_mask,
                                                },
                                            )
                                        } else {
                                            None
                                        },
                                    },
                                },
                            },
                        },
                    },
                },
            },
        },
    }
}

// ------------------------------------------------------------------
// Encoders and decoders, executable side. Every decoder's result is pinned
// to the canonical parse of its input.
// ------------------------------------------------------------------

proof fn lemma_usize_payload_snoc(s: Seq<usize>, x: usize)
    ensures
        usize_payload(s.push(x)) == usize_payload(s) + u64_bytes(x as u64),
    decreases s.len(),
{
    assert(s.push(x).len() == s.len() + 1);
    assert(usize_payload(s.push(x)) == u64_bytes(s.push(x).first() as u64) + usize_payload(
        s.push(x).drop_first(),
    ));
    if s.len() == 0 {
        assert(s.push(x).first() == x);
        assert(s.push(x).drop_first() =~= Seq::<usize>::empty());
        assert(usize_payload(Seq::<usize>::empty()) =~= Seq::<u8>::empty());
        assert(usize_payload(s) =~= Seq::<u8>::empty());
        assert(usize_payload(s.push(x)) =~= usize_payload(s) + u64_bytes(x as u64));
    } else {
        assert(s.push(x).first() == s.first());
        assert(s.push(x).drop_first() =~= s.drop_first().push(x));
        lemma_usize_payload_snoc(s.drop_first(), x);
        assert(usize_payload(s.push(x)) =~= usize_payload(s) + u64_bytes(x as u64));
    }
}

proof fn lemma_fe_payload_snoc(s: Seq<Fe>, x: Fe)
    ensures
        fe_payload(s.push(x)) == fe_payload(s) + fe_bytes(x),
    decreases s.len(),
{
    assert(s.push(x).len() == s.len() + 1);
    assert(fe_payload(s.push(x)) == fe_bytes(s.push(x).first()) + fe_payload(
        s.push(x).drop_first(),
    ));
    if s.len() == 0 {
        assert(s.push(x).first() == x);
        assert(s.push(x).drop_first() =~= Seq::<Fe>::empty());
        assert(fe_payload(Seq::<Fe>::empty()) =~= Seq::<u8>::empty());
        assert(fe_payload(s) =~= Seq::<u8>::empty());
        assert(fe_payload(s.push(x)) =~= fe_payload(s) + fe_bytes(x));
    } else {
        assert(s.push(x).first() == s.first());
        assert(s.push(x).drop_first() =~= s.drop_first().push(x));
        lemma_fe_payload_snoc(s.drop_first(), x);
        assert(fe_payload(s.push(x)) =~= fe_payload(s) + fe_bytes(x));
    }
}

/// Append the encoding of an index array.
fn write_usize_vec(out: &mut Vec<u8>, v: &Vec<usize>)
    ensures
        final(out)@ == old(out)@ + enc_usize_vec(v@),
{
    enc_u64(out, v.len() as u64);
    let mut i: usize = 0;
    while i < v.len()
        invariant
            i <= v@.len(),
            out@ == old(out)@ + u64_bytes(v@.len() as u64) + usize_payload(v@.take(i as int)),
        decreases v@.len() - i,
    {
        enc_u64(out, v[i] as u64);
        proof {
            lemma_usize_payload_snoc(v@.take(i as int), v@[i as int]);
            assert(v@.take(i as int + 1) =~= v@.take(i as int).push(v@[i as int]));
            assert(out@ =~= old(out)@ + u64_bytes(v@.len() as u64) + usize_payload(
                v@.take(i as int + 1),
            ));
        }
        i = i + 1;
    }
    proof {
        assert(v@.take(v@.len() as int) =~= v@);
        assert(out@ =~= old(out)@ + enc_usize_vec(v@));
    }
}

/// Append the encoding of a value array.
fn write_fe_vec(out: &mut Vec<u8>, v: &Vec<Fe>)
    ensures
        final(out)@ == old(out)@ + enc_fe_vec(v@),
{
    enc_u64(out, v.len() as u64);
    let mut i: usize = 0;
    while i < v.len()
        invariant
            i <= v@.len(),
            out@ == old(out)@ + u64_bytes(v@.len() as u64) + fe_payload(v@.take(i as int)),
        decreases v@.len() - i,
    {
        let e = v[i];
        enc_u64(out, e.l0);
        enc_u64(out, e.l1);
        enc_u64(out, e.l2);
        enc_u64(out, e.l3);
        proof {
            lemma_fe_payload_snoc(v@.take(i as int), v@[i as int]);
            assert(v@.take(i as int + 1) =~= v@.take(i as int).push(v@[i as int]));
            assert(out@ =~= old(out)@ + u64_bytes(v@.len() as u64) + fe_payload(
                v@.take(i as int + 1),
            ));
        }
        i = i + 1;
    }
    proof {
        assert(v@.take(v@.len() as int) =~= v@);
        assert(out@ =~= old(out)@ + enc_fe_vec(v@));
    }
}

/// Append the encoding of an opaque byte string.
fn write_byte_vec(out: &mut Vec<u8>, v: &Vec<u8>)
    ensures
        final(out)@ == old(out)@ + enc_byte_vec(v@),
{
    enc_u64(out, v.len() as u64);
    let mut i: usize = 0;
    while i < v.len()
        invariant
            i <= v@.len(),
            out@ == old(out)@ + u64_bytes(v@.len() as u64) + v@.take(i as int),
        decreases v@.len() - i,
    {
        out.push(v[i]);
        proof {
            assert(out@ =~= old(out)@ + u64_bytes(v@.len() as u64) + v@.take(i as int + 1));
        }
        i = i + 1;
    }
    proof {
        assert(v@.take(v@.len() as int) =~= v@);
        assert(out@ =~= old(out)@ + enc_byte_vec(v@));
    }
}

/// Read a u64; the result is exactly the canonical parse at `pos`.
fn read_u64(b: &Vec<u8>, pos: usize) -> (r: Option<(u64, usize)>)
    ensures
        match r {
            Some((x, p)) => parse_u64(b@, pos as int) == Some((x, p as int)),
            None => parse_u64(b@, pos as int) is None,
        },
{
    if b.len() < 8 || pos > b.len() - 8 {
        return None;
    }
    let x = (b[pos] as u64) | ((b[pos + 1] as u64) << 8) | ((b[pos + 2] as u64) << 16) | ((b[pos
        + 3] as u64) << 24) | ((b[pos + 4] as u64) << 32) | ((b[pos + 5] as u64) << 40) | ((b[pos
        + 6] as u64) << 48) | ((b[pos + 7] as u64) << 56);
    proof {
        let s = b@.subrange(pos as int, pos as int + 8);
        assert(s[0] == b@[pos as int]);
        assert(s[1] == b@[pos as int + 1]);
        assert(s[2] == b@[pos as int + 2]);
        assert(s[3] == b@[pos as int + 3]);
        assert(s[4] == b@[pos as int + 4]);
        assert(s[5] == b@[pos as int + 5]);
        assert(s[6] == b@[pos as int + 6]);
        assert(s[7] == b@[pos as int + 7]);
        assert(x == u64_of_bytes(s));
    }
    Some((x, pos + 8))
}

/// Read an index value.
fn read_usize(b: &Vec<u8>, pos: usize) -> (r: Option<(usize, usize)>)
    ensures
        match r {
            Some((x, p)) => parse_usize(b@, pos as int) == Some((x, p as int)),
            None => parse_usize(b@, pos as int) is None,
        },
{
    match read_u64(b, pos) {
        Some((x, p)) => {
            if x <= usize::MAX as u64 {
                Some((x as usize, p))
            } else {
                None
            }
        },
        None => None,
    }
}

/// Read an index array.
fn read_usize_vec(b: &Vec<u8>, pos: usize) -> (r: Option<(Vec<usize>, usize)>)
    ensures
        match r {
            Some((v, p)) => parse_usize_vec(b@, pos as int) == Some((v@, p as int)),
            None => parse_usize_vec(b@, pos as int) is None,
        },
{
    let (n, p0) = match read_u64(b, pos) {
        Some(t) => t,
        None => {
            return None;
        },
    };
    let mut acc: Vec<usize> = Vec::new();
    let mut p = p0;
    let mut i: u64 = 0;
    while i < n
        invariant
            i <= n,
            acc@.len() == i,
            parse_u64(b@, pos as int) == Some((n, p0 as int)),
            match parse_usize_payload(b@, p as int, (n - i) as int) {
                Some((s, pe)) => parse_usize_payload(b@, p0 as int, n as int) == Some((
                    acc@ + s,
                    pe,
                )),
                None => parse_usize_payload(b@, p0 as int, n as int) is None,
            },
        decreases n - i,
    {
        let (x, p2) = match read_usize(b, p) {
            Some(t) => t,
            None => {
                return None;
            },
        };
        proof {
            match parse_usize_payload(b@, p2 as int, (n - i - 1) as int) {
                Some((s2, pe)) => {
                    assert((acc@ + (seq![x] + s2)) =~= (acc@.push(x) + s2));
                },
                None => {},
            }
        }
        acc.push(x);
        p = p2;
        i = i + 1;
    }
    proof {
        assert(acc@ + Seq::<usize>::empty() =~= acc@);
    }
    Some((acc, p))
}

/// Read one scalar: four limbs.
fn read_fe(b: &Vec<u8>, pos: usize) -> (r: Option<(Fe, usize)>)
    ensures
        match r {
            Some((e, p)) => parse_fe(b@, pos as int) == Some((e, p as int)),
            None => parse_fe(b@, pos as int) is None,
        },
{
    let (l0, p0) = match read_u64(b, pos) {
        Some(t) => t,
        None => {
            return None;
        },
    };
    let (l1, p1) = match read_u64(b, p0) {
        Some(t) => t,
        None => {
            return None;
        },
    };
    let (l2, p2) = match read_u64(b, p1) {
        Some(t) => t,
        None => {
            return None;
        },
    };
    let (l3, p3) = match read_u64(b, p2) {
        Some(t) => t,
        None => {
            return None;
        },
    };
    Some((Fe { l0, l1, l2, l3 }, p3))
}

/// Read a value array.
fn read_fe_vec(b: &Vec<u8>, pos: usize) -> (r: Option<(Vec<Fe>, usize)>)
    ensures
        match r {
            Some((v, p)) => parse_fe_vec(b@, pos as int) == Some((v@, p as int)),
            None => parse_fe_vec(b@, pos as int) is None,
        },
{
    let (n, p0) = match read_u64(b, pos) {
        Some(t) => t,
        None => {
            return None;
        },
    };
    let mut acc: Vec<Fe> = Vec::new();
    let mut p = p0;
    let mut i: u64 = 0;
    while i < n
        invariant
            i <= n,
            acc@.len() == i,
            parse_u64(b@, pos as int) == Some((n, p0 as int)),
            match parse_fe_payload(b@, p as int, (n - i) as int) {
                Some((s, pe)) => parse_fe_payload(b@, p0 as int, n as int) == Some((acc@ + s, pe)),
                None => parse_fe_payload(b@, p0 as int, n as int) is None,
            },
        decreases n - i,
    {
        let (x, p2) = match read_fe(b, p) {
            Some(t) => t,
            None => {
                return None;
            },
        };
        proof {
            match parse_fe_payload(b@, p2 as int, (n - i - 1) as int) {
                Some((s2, pe)) => {
                    assert((acc@ + (seq![x] + s2)) =~= (acc@.push(x) + s2));
                },
                None => {},
            }
        }
        acc.push(x);
        p = p2;
        i = i + 1;
    }
    proof {
        assert(acc@ + Seq::<Fe>::empty() =~= acc@);
    }
    Some((acc, p))
}

/// Read an opaque byte string.
fn read_byte_vec(b: &Vec<u8>, pos: usize) -> (r: Option<(Vec<u8>, usize)>)
    ensures
        match r {
            Some((v, p)) => parse_byte_vec(b@, pos as int) == Some((v@, p as int)),
            None => parse_byte_vec(b@, pos as int) is None,
        },
{
    let (n, p0) = match read_u64(b, pos) {
        Some(t) => t,
        None => {
            return None;
        },
    };
    proof {
        assert(p0 as int <= b@.len());
    }
    if n > (b.len() - p0) as u64 {
        return None;
    }
    let m = n as usize;
    let blen = b.len();
    let mut acc: Vec<u8> = Vec::new();
    let mut j: usize = 0;
    while j < m
        invariant
            j <= m,
            blen == b@.len(),
            p0 + m <= blen,
            parse_u64(b@, pos as int) == Some((n, p0 as int)),
            m == n,
            acc@ == b@.subrange(p0 as int, p0 as int + j as int),
        decreases m - j,
    {
        proof {
            assert(p0 + j < blen);
        }
        let idx = p0 + j;
        acc.push(b[idx]);
        proof {
            assert(acc@ =~= b@.subrange(p0 as int, p0 as int + j as int + 1));
        }
        j = j + 1;
    }
    Some((acc, p0 + m))
}

/// Serialize a prover key into its canonical byte encoding.
pub fn encode_prover_key(pk: &IndexProverKey) -> (r: Vec<u8>)
    ensures
        r@ == enc_pk(pk@),
{
    let mut out: Vec<u8> = Vec::new();
    write_usize_vec(&mut out, &pk.rows);
    write_usize_vec(&mut out, &pk.cols);
    write_fe_vec(&mut out, &pk.val_a);
    write_fe_vec(&mut out, &pk.val_b);
    write_fe_vec(&mut out, &pk.val_c);
    write_fe_vec(&mut out, &pk.freq_r);
    write_fe_vec(&mut out, &pk.freq_c);
    enc_u64(&mut out, pk.real_len_val as u64);
    enc_u64(&mut out, pk.num_variables_val as u64);
    enc_u64(&mut out, pk.padded_num_var as u64);
    write_byte_vec(&mut out, &pk.ck_w);
    write_byte_vec(&mut out, &pk.ck_index);
    write_byte_vec(&mut out, &pk.ck_mask);
    proof {
        assert(out@ =~= enc_pk(pk@));
    }
    out
}

/// Deserialize a prover key; the result is exactly the canonical parse, so
/// together with `lemma_prover_key_round_trip` decoding an encoded key
/// reproduces it.
pub fn decode_prover_key(b: &Vec<u8>) -> (r: Option<IndexProverKey>)
    ensures
        match r {
            Some(k) => parse_pk(b@) == Some(k@),
            None => parse_pk(b@) is None,
        },
{
    let (rows, p1) = match read_usize_vec(b, 0) {
        Some(t) => t,
        None => {
            return None;
        },
    };
    let (cols, p2) = match read_usize_vec(b, p1) {
        Some(t) => t,
        None => {
            return None;
        },
    };
    let (val_a, p3) = match read_fe_vec(b, p2) {
        Some(t) => t,
        None => {
            return None;
        },
    };
    let (val_b, p4) = match read_fe_vec(b, p3) {
        Some(t) => t,
        None => {
            return None;
        },
    };
    let (val_c, p5) = match read_fe_vec(b, p4) {
        Some(t) => t,
        None => {
            return None;
        },
    };
    let (freq_r, p6) = match read_fe_vec(b, p5) {
        Some(t) => t,
        None => {
            return None;
        },
    };
    let (freq_c, p7) = match read_fe_vec(b, p6) {
        Some(t) => t,
        None => {
            return None;
        },
    };
    let (real_len_val, p8) = match read_usize(b, p7) {
        Some(t) => t,
        None => {
            return None;
        },
    };
    let (num_variables_val, p9) = match read_usize(b, p8) {
        Some(t) => t,
        None => {
            return None;
        },
    };
    let (padded_num_var, p10) = match read_usize(b, p9) {
        Some(t) => t,
        None => {
            return None;
        },
    };
    let (ck_w, p11) = match read_byte_vec(b, p10) {
        Some(t) => t,
        None => {
            return None;
        },
    };
    let (ck_index, p12) = match read_byte_vec(b, p11) {
        Some(t) => t,
        None => {
            return None;
        },
    };
    let (ck_mask, p13) = match read_byte_vec(b, p12) {
        Some(t) => t,
        None => {
            return None;
        },
    };
    if p13 != b.len() {
        return None;
    }
    let k = IndexProverKey {
        rows,
        cols,
        val_a,
        val_b,
        val_c,
        freq_r,
        freq_c,
        real_len_val,
        num_variables_val,
        padded_num_var,
        ck_w,
        ck_index,
        ck_mask,
    };
    proof {
        assert(parse_pk(b@) == Some(k@)) by {
            assert(parse_pk(b@) matches Some(v) && v =~= k@);
        }
    }
    Some(k)
}

/// Serialize a verifier key into its canonical byte encoding.
pub fn encode_verifier_key(vk: &IndexVerifierKey) -> (r: Vec<u8>)
    ensures
        r@ == enc_vk(vk@),
{
    let mut out: Vec<u8> = Vec::new();
    write_byte_vec(&mut out, &vk.val_a_oracle);
    write_byte_vec(&mut out, &vk.val_b_oracle);
    write_byte_vec(&mut out, &vk.val_c_oracle);
    enc_u64(&mut out, vk.real_len_val as u64);
    enc_u64(&mut out, vk.num_variables_val as u64);
    enc_u64(&mut out, vk.padded_num_var as u64);
    write_byte_vec(&mut out, &vk.vk_w);
    write_byte_vec(&mut out, &vk.vk_index);
    write_byte_vec(&mut out, &vk.vk_mask);
    proof {
        assert(out@ =~= enc_vk(vk@));
    }
    out
}

/// Deserialize a verifier key; the result is exactly the canonical parse, so
/// together with `lemma_verifier_key_round_trip` decoding an encoded key
/// reproduces it.
pub fn decode_verifier_key(b: &Vec<u8>) -> (r: Option<IndexVerifierKey>)
    ensures
        match r {
            Some(k) => parse_vk(b@) == Some(k@),
            None => parse_vk(b@) is None,
        },
{
    let (val_a_oracle, p1) = match read_byte_vec(b, 0) {
        Some(t) => t,
        None => {
            return None;
        },
    };
    let (val_b_oracle, p2) = match read_byte_vec(b, p1) {
        Some(t) => t,
        None => {
            return None;
        },
    };
    let (val_c_oracle, p3) = match read_byte_vec(b, p2) {
        Some(t) => t,
        None => {
            return None;
        },
    };
    let (real_len_val, p4) = match read_usize(b, p3) {
        Some(t) => t,
        None => {
            return None;
        },
    };
    let (num_variables_val, p5) = match read_usize(b, p4) {
        Some(t) => t,
        None => {
            return None;
        },
    };
    let (padded_num_var, p6) = match read_usize(b, p5) {
        Some(t) => t,
        None => {
            return None;
        },
    };
    let (vk_w, p7) = match read_byte_vec(b, p6) {
        Some(t) => t,
        None => {
            return None;
        },
    };
    let (vk_index, p8) = match read_byte_vec(b, p7) {
        Some(t) => t,
        None => {
            return None;
        },
    };
    let (vk_mask, p9) = match read_byte_vec(b, p8) {
        Some(t) => t,
        None => {
            return None;
        },
    };
    if p9 != b.len() {
        return None;
    }
    let k = IndexVerifierKey {
        val_a_oracle,
        val_b_oracle,
        val_c_oracle,
        real_len_val,
        num_variables_val,
        padded_num_var,
        vk_w,
        vk_index,
        vk_mask,
    };
    proof {
        assert(parse_vk(b@) == Some(k@)) by {
            assert(parse_vk(b@) matches Some(v) && v =~= k@);
        }
    }
    Some(k)
}

} // verus!
