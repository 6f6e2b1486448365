//! Unification of the three sparse matrices into one shared coordinate list.
//!
//! The three entry lists are traversed position-wise, interleaved as
//! A-entry, B-entry, C-entry at each position. Every `(row, col)` coordinate
//! referenced by any matrix is assigned exactly one slot, in order of first
//! appearance; a slot holds one value per matrix, the additive identity for
//! matrices that never reference the coordinate.

use std::collections::HashMap;

use vstd::prelude::*;

use crate::field::Fe;
use crate::matrix::SparseMatEntry;

verus! {

broadcast use vstd::std_specs::hash::group_hash_axioms;

/// Which source matrix an update comes from.
#[derive(Clone, Copy, Debug, PartialEq, Eq, Structural)]
pub enum MatTag {
    A,
    B,
    C,
}

/// One scheduled update: an entry of one source matrix.
#[derive(Clone, Copy, Debug, PartialEq, Eq, Structural)]
pub struct Ev {
    pub tag: MatTag,
    pub row: usize,
    pub col: usize,
    pub val: Fe,
}

/// The unified sparse representation: parallel arrays, one slot per distinct
/// coordinate.
pub struct Unified {
    pub rows: Vec<usize>,
    pub cols: Vec<usize>,
    pub val_a: Vec<Fe>,
    pub val_b: Vec<Fe>,
    pub val_c: Vec<Fe>,
}

/// Mathematical image of `Unified`.
#[verifier::ext_equal]
pub ghost struct UState {
    pub rows: Seq<usize>,
    pub cols: Seq<usize>,
    pub va: Seq<Fe>,
    pub vb: Seq<Fe>,
    pub vc: Seq<Fe>,
}

impl Unified {
    pub open spec fn view_state(self) -> UState {
        UState {
            rows: self.rows@,
            cols: self.cols@,
            va: self.val_a@,
            vb: self.val_b@,
            vc: self.val_c@,
        }
    }
}

/// Some slot of the parallel arrays carries the coordinate `(r, c)`.
pub open spec fn has_key(rows: Seq<usize>, cols: Seq<usize>, r: usize, c: usize) -> bool {
    exists|i: int| 0 <= i < rows.len() && rows[i] == r && cols[i] == c
}

/// The slot carrying `(r, c)`; meaningful only when `has_key` holds, and
/// unique once the slots are known to be distinct.
pub open spec fn slot_of(rows: Seq<usize>, cols: Seq<usize>, r: usize, c: usize) -> int {
    choose|i: int| 0 <= i < rows.len() && rows[i] == r && cols[i] == c
}

pub open spec fn ustate_empty() -> UState {
    UState { rows: Seq::empty(), cols: Seq::empty(), va: Seq::empty(), vb: Seq::empty(), vc: Seq::empty() }
}

/// Apply one update: overwrite this matrix's value at an existing slot, or
/// allocate a fresh slot with the other two values at the additive identity.
pub open spec fn ev_update(s: UState, e: Ev) -> UState {
    if has_key(s.rows, s.cols, e.row, e.col) {
        let i = slot_of(s.rows, s.cols, e.row, e.col);
        match e.tag {
            MatTag::A => UState { rows: s.rows, cols: s.cols, va: s.va.update(i, e.val), vb: s.vb, vc: s.vc },
            MatTag::B => UState { rows: s.rows, cols: s.cols, va: s.va, vb: s.vb.update(i, e.val), vc: s.vc },
            MatTag::C => UState { rows: s.rows, cols: s.cols, va: s.va, vb: s.vb, vc: s.vc.update(i, e.val) },
        }
    } else {
        let z = Fe::spec_zero();
        match e.tag {
            MatTag::A => UState {
                rows: s.rows.push(e.row),
                cols: s.cols.push(e.col),
                va: s.va.push(e.val),
                vb: s.vb.push(z),
                vc: s.vc.push(z),
            },
            MatTag::B => UState {
                rows: s.rows.push(e.row),
                cols: s.cols.push(e.col),
                va: s.va.push(z),
                vb: s.vb.push(e.val),
                vc: s.vc.push(z),
            },
            MatTag::C => UState {
                rows: s.rows.push(e.row),
                cols: s.cols.push(e.col),
                va: s.va.push(z),
                vb: s.vb.push(z),
                vc: s.vc.push(e.val),
            },
        }
    }
}

/// Fold the updates left to right.
pub open spec fn unify_events(evs: Seq<Ev>) -> UState
    decreases evs.len(),
{
    if evs.len() == 0 {
        ustate_empty()
    } else {
        ev_update(unify_events(evs.drop_last()), evs.last())
    }
}

pub open spec fn ev_of(tag: MatTag, e: SparseMatEntry) -> Ev {
    Ev { tag, row: e.row, col: e.col, val: e.val }
}

/// The updates scheduled by the first `n` positions of the interleaved
/// traversal: at each position the A entry, then the B entry, then the C
/// entry, each only while its list lasts.
pub open spec fn interleave_upto(
    a: Seq<SparseMatEntry>,
    b: Seq<SparseMatEntry>,
    c: Seq<SparseMatEntry>,
    n: int,
) -> Seq<Ev>
    decreases n,
{
    if n <= 0 {
        Seq::empty()
    } else {
        let p = interleave_upto(a, b, c, n - 1);
        let p = if n - 1 < a.len() { p.push(ev_of(MatTag::A, a[n - 1])) } else { p };
        let p = if n - 1 < b.len() { p.push(ev_of(MatTag::B, b[n - 1])) } else { p };
        if n - 1 < c.len() { p.push(ev_of(MatTag::C, c[n - 1])) } else { p }
    }
}

pub open spec fn max3(x: int, y: int, z: int) -> int {
    if x >= y && x >= z { x } else if y >= z { y } else { z }
}

/// All updates of the interleaved traversal.
pub open spec fn interleave(
    a: Seq<SparseMatEntry>,
    b: Seq<SparseMatEntry>,
    c: Seq<SparseMatEntry>,
) -> Seq<Ev> {
    interleave_upto(a, b, c, max3(a.len() as int, b.len() as int, c.len() as int))
}

/// What unification of three matrices yields.
pub open spec fn unify_spec(
    a: Seq<SparseMatEntry>,
    b: Seq<SparseMatEntry>,
    c: Seq<SparseMatEntry>,
) -> UState {
    unify_events(interleave(a, b, c))
}

/// Coordinates packed into one lookup key: `row * 2^64 + col`.
pub open spec fn key_int(r: usize, c: usize) -> int {
    r * 0x1_0000_0000_0000_0000 + c
}

pub open spec fn key_u(r: usize, c: usize) -> u128 {
    key_int(r, c) as u128
}

fn enc_key(r: usize, c: usize) -> (k: u128)
    ensures
        k == key_u(r, c),
        k as int == key_int(r, c),
{
    proof {
        assert(usize::MAX <= u64::MAX);
    }
    (r as u128) * 0x1_0000_0000_0000_0000u128 + (c as u128)
}

pub proof fn lemma_key_injective(r1: usize, c1: usize, r2: usize, c2: usize)
    requires
        key_int(r1, c1) == key_int(r2, c2),
    ensures
        r1 == r2 && c1 == c2,
{
    assert(r1 as int == r2 as int) by (nonlinear_arith)
        requires
            (r1 as int) * 0x1_0000_0000_0000_0000 + (c1 as int) == (r2 as int)
                * 0x1_0000_0000_0000_0000 + (c2 as int),
            (c1 as int) < 0x1_0000_0000_0000_0000,
            (c2 as int) < 0x1_0000_0000_0000_0000,
            (c1 as int) >= 0,
            (c2 as int) >= 0,
            (r1 as int) >= 0,
            (r2 as int) >= 0,
    ;
}

/// The lookup table mirrors the parallel arrays: every slot is registered
/// under its packed coordinate, the table holds nothing else, and no
/// coordinate occupies two slots.
pub open spec fn table_inv(s: UState, m: Map<u128, usize>) -> bool {
    &&& s.cols.len() == s.rows.len()
    &&& s.va.len() == s.rows.len()
    &&& s.vb.len() == s.rows.len()
    &&& s.vc.len() == s.rows.len()
    &&& forall|i: int|
        0 <= i < s.rows.len() ==> m.contains_key(#[trigger] key_u(s.rows[i], s.cols[i]))
            && m[key_u(s.rows[i], s.cols[i])] == i
    &&& forall|k: u128|
        m.contains_key(k) ==> exists|i: int|
            0 <= i < s.rows.len() && k == #[trigger] key_u(s.rows[i], s.cols[i])
    &&& forall|i: int, j: int|
        0 <= i < j < s.rows.len() ==> !(s.rows[i] == s.rows[j] && #[trigger] s.cols[i]
            == #[trigger] s.cols[j])
}

/// Apply one update to the growing unified representation.
#[verifier::rlimit(40)]
fn absorb(u: &mut Unified, m: &mut HashMap<u128, usize>, tag: MatTag, row: usize, col: usize, val: Fe)
    requires
        table_inv(old(u).view_state(), old(m)@),
    ensures
        table_inv(final(u).view_state(), final(m)@),
        final(u).view_state() == ev_update(old(u).view_state(), Ev { tag, row, col, val }),
{
    let ghost s0 = u.view_state();
    let ghost e = Ev { tag, row, col, val };
    let k = enc_key(row, col);
    let found: Option<usize> = match m.get(&k) {
        Some(i) => Some(*i),
        None => None,
    };
    match found {
        Some(i) => {
            proof {
                // The table entry points at the slot that carries (row, col).
                let j = choose|j: int|
                    0 <= j < s0.rows.len() && k == key_u(s0.rows[j], s0.cols[j]);
                lemma_key_injective(s0.rows[j], s0.cols[j], row, col);
                assert(has_key(s0.rows, s0.cols, row, col));
                assert(i == j);
                let w = slot_of(s0.rows, s0.cols, row, col);
                assert(s0.rows[w] == row && s0.cols[w] == col);
                if w != j {
                    if w < j {
                        assert(!(s0.rows[w] == s0.rows[j] && s0.cols[w] == s0.cols[j]));
                    } else {
                        assert(!(s0.rows[j] == s0.rows[w] && s0.cols[j] == s0.cols[w]));
                    }
                }
                assert(w == i);
            }
            match tag {
                MatTag::A => {
                    u.val_a[i] = val;
                },
                MatTag::B => {
                    u.val_b[i] = val;
                },
                MatTag::C => {
                    u.val_c[i] = val;
                },
            }
            proof {
                assert(u.view_state() =~= ev_update(s0, e));
                // The coordinate layout and the table are untouched, so the
                // invariant carries over clause by clause.
                let s1 = u.view_state();
                assert(s1.rows == s0.rows && s1.cols == s0.cols);
                assert(forall|i: int|
                    0 <= i < s1.rows.len() ==> m@.contains_key(
                        #[trigger] key_u(s1.rows[i], s1.cols[i]),
                    ) && m@[key_u(s1.rows[i], s1.cols[i])] == i);
                assert(forall|k2: u128|
                    m@.contains_key(k2) ==> exists|i: int|
                        0 <= i < s1.rows.len() && k2 == #[trigger] key_u(s1.rows[i], s1.cols[i]));
                assert(table_inv(u.view_state(), m@));
            }
        },
        None => {
            proof {
                // Nothing is registered under k, so the coordinate is fresh.
                if has_key(s0.rows, s0.cols, row, col) {
                    let w = slot_of(s0.rows, s0.cols, row, col);
                    assert(m@.contains_key(key_u(s0.rows[w], s0.cols[w])));
                }
            }
            let idx = u.rows.len();
            match tag {
                MatTag::A => {
                    u.val_a.push(val);
                    u.val_b.push(Fe::zero());
                    u.val_c.push(Fe::zero());
                },
                MatTag::B => {
                    u.val_a.push(Fe::zero());
                    u.val_b.push(val);
                    u.val_c.push(Fe::zero());
                },
                MatTag::C => {
                    u.val_a.push(Fe::zero());
                    u.val_b.push(Fe::zero());
                    u.val_c.push(val);
                },
            }
            u.rows.push(row);
            u.cols.push(col);
            m.insert(k, idx);
            proof {
                let s1 = u.view_state();
                assert(s1 =~= ev_update(s0, e));
                // Re-establish the table invariant for the extended arrays.
                assert forall|i: int|
                    0 <= i < s1.rows.len() implies m@.contains_key(
                    #[trigger] key_u(s1.rows[i], s1.cols[i]),
                ) && m@[key_u(s1.rows[i], s1.cols[i])] == i by {
                    if i < s0.rows.len() {
                        assert(s1.rows[i] == s0.rows[i] && s1.cols[i] == s0.cols[i]);
                        if key_u(s0.rows[i], s0.cols[i]) == k {
                            lemma_key_injective(s0.rows[i], s0.cols[i], row, col);
                        }
                    }
                }
                assert forall|kk: u128| m@.contains_key(kk) implies exists|i: int|
                    0 <= i < s1.rows.len() && kk == #[trigger] key_u(s1.rows[i], s1.cols[i]) by {
                    if kk == k {
                        assert(kk == key_u(s1.rows[idx as int], s1.cols[idx as int]));
                    } else {
                        let i = choose|i: int|
                            0 <= i < s0.rows.len() && kk == key_u(s0.rows[i], s0.cols[i]);
                        assert(kk == key_u(s1.rows[i], s1.cols[i]));
                    }
                }
                assert forall|i: int, j: int|
                    0 <= i < j < s1.rows.len() implies !(s1.rows[i] == s1.rows[j]
                    && #[trigger] s1.cols[i] == #[trigger] s1.cols[j]) by {
                    if j == s0.rows.len() as int {
                        if s1.rows[i] == row && s1.cols[i] == col {
                            assert(has_key(s0.rows, s0.cols, row, col));
                        }
                    }
                }
            }
        },
    }
}

/// Lay the three entry lists out as the interleaved update schedule.
fn schedule(
    a: &Vec<SparseMatEntry>,
    b: &Vec<SparseMatEntry>,
    c: &Vec<SparseMatEntry>,
) -> (evs: Vec<Ev>)
    ensures
        evs@ == interleave(a@, b@, c@),
{
    let mut max_len = a.len();
    if b.len() > max_len {
        max_len = b.len();
    }
    if c.len() > max_len {
        max_len = c.len();
    }
    let mut evs: Vec<Ev> = Vec::new();
    let mut i: usize = 0;
    while i < max_len
        invariant
            max_len as int == max3(a@.len() as int, b@.len() as int, c@.len() as int),
            i <= max_len,
            evs@ == interleave_upto(a@, b@, c@, i as int),
        decreases max_len - i,
    {
        if i < a.len() {
            let en = a[i];
            evs.push(Ev { tag: MatTag::A, row: en.row, col: en.col, val: en.val });
        }
        if i < b.len() {
            let en = b[i];
            evs.push(Ev { tag: MatTag::B, row: en.row, col: en.col, val: en.val });
        }
        if i < c.len() {
            let en = c[i];
            evs.push(Ev { tag: MatTag::C, row: en.row, col: en.col, val: en.val });
        }
        i = i + 1;
        proof {
            assert(evs@ =~= interleave_upto(a@, b@, c@, i as int));
        }
    }
    evs
}

/// Merge the nonzero coordinate sets of the three matrices into one shared
/// sparse coordinate list with three value arrays, one slot per distinct
/// coordinate, allocated in order of first appearance.
pub fn unify_matrices(
    a: &Vec<SparseMatEntry>,
    b: &Vec<SparseMatEntry>,
    c: &Vec<SparseMatEntry>,
) -> (u: Unified)
    ensures
        u.view_state() == unify_spec(a@, b@, c@),
{
    let evs = schedule(a, b, c);
    let mut u = Unified {
        rows: Vec::new(),
        cols: Vec::new(),
        val_a: Vec::new(),
        val_b: Vec::new(),
        val_c: Vec::new(),
    };
    let mut m: HashMap<u128, usize> = HashMap::new();
    proof {
        assert(u.view_state() =~= unify_events(evs@.take(0)));
    }
    let mut j: usize = 0;
    while j < evs.len()
        invariant
            j <= evs.len(),
            table_inv(u.view_state(), m@),
            u.view_state() == unify_events(evs@.take(j as int)),
        decreases evs.len() - j,
    {
        let e = evs[j];
        absorb(&mut u, &mut m, e.tag, e.row, e.col, e.val);
        j = j + 1;
        proof {
            assert(evs@.take(j as int).drop_last() =~= evs@.take(j as int - 1));
            assert(evs@.take(j as int).last() == e);
        }
    }
    proof {
        assert(evs@.take(evs@.len() as int) =~= evs@);
    }
    u
}

/// Some update of the schedule touches the coordinate `(r, c)`.
pub open spec fn ev_has_key(evs: Seq<Ev>, r: usize, c: usize) -> bool {
    exists|i: int| 0 <= i < evs.len() && evs[i].row == r && evs[i].col == c
}

/// The value of the last update of matrix `tag` at `(r, c)`, if any.
pub open spec fn last_tag_val(evs: Seq<Ev>, tag: MatTag, r: usize, c: usize) -> Option<Fe>
    decreases evs.len(),
{
    if evs.len() == 0 {
        None
    } else if evs.last().tag == tag && evs.last().row == r && evs.last().col == c {
        Some(evs.last().val)
    } else {
        last_tag_val(evs.drop_last(), tag, r, c)
    }
}

pub open spec fn val_or_zero(v: Option<Fe>) -> Fe {
    match v {
        Some(x) => x,
        None => Fe::spec_zero(),
    }
}

/// No two slots carry the same coordinate.
pub open spec fn slots_distinct(s: UState) -> bool {
    forall|i: int, j: int|
        0 <= i < j < s.rows.len() ==> !(s.rows[i] == s.rows[j] && #[trigger] s.cols[i]
            == #[trigger] s.cols[j])
}

pub open spec fn lens_eq(s: UState) -> bool {
    &&& s.cols.len() == s.rows.len()
    &&& s.va.len() == s.rows.len()
    &&& s.vb.len() == s.rows.len()
    &&& s.vc.len() == s.rows.len()
}

/// Full characterization of the state built from a schedule: slots are
/// distinct, a coordinate has a slot exactly when some update touches it,
/// and each slot holds, per matrix, the value of that matrix's last update
/// there — the additive identity if it never touched the coordinate.
pub open spec fn ustate_ok(evs: Seq<Ev>, s: UState) -> bool {
    &&& lens_eq(s)
    &&& slots_distinct(s)
    &&& forall|r: usize, c: usize|
        #![trigger has_key(s.rows, s.cols, r, c)]
        #![trigger ev_has_key(evs, r, c)]
        has_key(s.rows, s.cols, r, c) <==> ev_has_key(evs, r, c)
    &&& forall|r: usize, c: usize|
        #[trigger] has_key(s.rows, s.cols, r, c) ==> {
            let i = slot_of(s.rows, s.cols, r, c);
            &&& 0 <= i < s.rows.len()
            &&& s.rows[i] == r && s.cols[i] == c
            &&& s.va[i] == val_or_zero(last_tag_val(evs, MatTag::A, r, c))
            &&& s.vb[i] == val_or_zero(last_tag_val(evs, MatTag::B, r, c))
            &&& s.vc[i] == val_or_zero(last_tag_val(evs, MatTag::C, r, c))
        }
}

proof fn lemma_ehk_push(w: Seq<Ev>, e: Ev, r: usize, c: usize)
    ensures
        ev_has_key(w.push(e), r, c) <==> (ev_has_key(w, r, c) || (e.row == r && e.col == c)),
{
    let evs = w.push(e);
    if ev_has_key(evs, r, c) {
        let i = choose|i: int| 0 <= i < evs.len() && evs[i].row == r && evs[i].col == c;
        if i < w.len() {
            assert(w[i] == evs[i]);
            assert(ev_has_key(w, r, c));
        }
    }
    if ev_has_key(w, r, c) {
        let i = choose|i: int| 0 <= i < w.len() && w[i].row == r && w[i].col == c;
        assert(evs[i] == w[i]);
        assert(ev_has_key(evs, r, c));
    }
    if e.row == r && e.col == c {
        assert(evs[w.len() as int] == e);
        assert(ev_has_key(evs, r, c));
    }
}

proof fn lemma_hk_push(rows: Seq<usize>, cols: Seq<usize>, rr: usize, cc: usize, r: usize, c: usize)
    requires
        rows.len() == cols.len(),
    ensures
        has_key(rows.push(rr), cols.push(cc), r, c) <==> (has_key(rows, cols, r, c) || (rr == r
            && cc == c)),
{
    let rows1 = rows.push(rr);
    let cols1 = cols.push(cc);
    if has_key(rows1, cols1, r, c) {
        let i = choose|i: int| 0 <= i < rows1.len() && rows1[i] == r && cols1[i] == c;
        if i < rows.len() {
            assert(rows[i] == r && cols[i] == c);
            assert(has_key(rows, cols, r, c));
        }
    }
    if has_key(rows, cols, r, c) {
        let i = choose|i: int| 0 <= i < rows.len() && rows[i] == r && cols[i] == c;
        assert(rows1[i] == r && cols1[i] == c);
        assert(has_key(rows1, cols1, r, c));
    }
    if rr == r && cc == c {
        assert(rows1[rows.len() as int] == r && cols1[rows.len() as int] == c);
        assert(has_key(rows1, cols1, r, c));
    }
}

proof fn lemma_ltv_push(w: Seq<Ev>, e: Ev, tag: MatTag, r: usize, c: usize)
    ensures
        last_tag_val(w.push(e), tag, r, c) == if e.tag == tag && e.row == r && e.col == c {
            Some(e.val)
        } else {
            last_tag_val(w, tag, r, c)
        },
{
    assert(w.push(e).drop_last() =~= w);
    assert(w.push(e).last() == e);
}

proof fn lemma_no_key_no_val(evs: Seq<Ev>, tag: MatTag, r: usize, c: usize)
    requires
        !ev_has_key(evs, r, c),
    ensures
        last_tag_val(evs, tag, r, c) is None,
    decreases evs.len(),
{
    if evs.len() > 0 {
        let w = evs.drop_last();
        assert(!ev_has_key(w, r, c)) by {
            if ev_has_key(w, r, c) {
                let i = choose|i: int| 0 <= i < w.len() && w[i].row == r && w[i].col == c;
                assert(evs[i] == w[i]);
                assert(ev_has_key(evs, r, c));
            }
        }
        assert(!(evs.last().row == r && evs.last().col == c)) by {
            if evs.last().row == r && evs.last().col == c {
                assert(evs[evs.len() - 1].row == r && evs[evs.len() - 1].col == c);
                assert(ev_has_key(evs, r, c));
            }
        }
        lemma_no_key_no_val(w, tag, r, c);
    }
}

/// The folded state is fully characterized by its schedule.
#[verifier::rlimit(100)]
pub proof fn lemma_unify_events_ok(evs: Seq<Ev>)
    ensures
        ustate_ok(evs, unify_events(evs)),
    decreases evs.len(),
{
    if evs.len() == 0 {
        let s = unify_events(evs);
        assert forall|r: usize, c: usize| !has_key(s.rows, s.cols, r, c) by {}
        assert forall|r: usize, c: usize| !ev_has_key(evs, r, c) by {}
    } else {
        let w = evs.drop_last();
        let e = evs.last();
        lemma_unify_events_ok(w);
        let s0 = unify_events(w);
        let s1 = unify_events(evs);
        assert(s1 == ev_update(s0, e));
        assert(w.push(e) =~= evs);
        if has_key(s0.rows, s0.cols, e.row, e.col) {
            // An existing slot is overwritten; the coordinate layout is
            // untouched.
            let i0 = slot_of(s0.rows, s0.cols, e.row, e.col);
            assert(s1.rows == s0.rows && s1.cols == s0.cols);
            assert forall|r: usize, c: usize|
                has_key(s1.rows, s1.cols, r, c) <==> ev_has_key(evs, r, c) by {
                lemma_ehk_push(w, e, r, c);
            }
            assert forall|r: usize, c: usize| #[trigger] has_key(s1.rows, s1.cols, r, c) implies {
                let i = slot_of(s1.rows, s1.cols, r, c);
                &&& 0 <= i < s1.rows.len()
                &&& s1.rows[i] == r && s1.cols[i] == c
                &&& s1.va[i] == val_or_zero(last_tag_val(evs, MatTag::A, r, c))
                &&& s1.vb[i] == val_or_zero(last_tag_val(evs, MatTag::B, r, c))
                &&& s1.vc[i] == val_or_zero(last_tag_val(evs, MatTag::C, r, c))
            } by {
                lemma_ltv_push(w, e, MatTag::A, r, c);
                lemma_ltv_push(w, e, MatTag::B, r, c);
                lemma_ltv_push(w, e, MatTag::C, r, c);
                let i = slot_of(s1.rows, s1.cols, r, c);
                assert(has_key(s0.rows, s0.cols, r, c));
                if r == e.row && c == e.col {
                    assert(i == i0);
                } else {
                    assert(i != i0) by {
                        if i == i0 {
                            assert(s0.rows[i0] == e.row && s0.cols[i0] == e.col);
                        }
                    }
                }
            }
        } else {
            // A fresh slot is appended.
            let n0 = s0.rows.len() as int;
            assert(s1.rows == s0.rows.push(e.row) && s1.cols == s0.cols.push(e.col));
            assert(!ev_has_key(w, e.row, e.col));
            lemma_no_key_no_val(w, MatTag::A, e.row, e.col);
            lemma_no_key_no_val(w, MatTag::B, e.row, e.col);
            lemma_no_key_no_val(w, MatTag::C, e.row, e.col);
            assert forall|r: usize, c: usize|
                has_key(s1.rows, s1.cols, r, c) <==> ev_has_key(evs, r, c) by {
                lemma_ehk_push(w, e, r, c);
                lemma_hk_push(s0.rows, s0.cols, e.row, e.col, r, c);
            }
            assert(slots_distinct(s1)) by {
                assert forall|i: int, j: int|
                    0 <= i < j < s1.rows.len() implies !(s1.rows[i] == s1.rows[j]
                    && #[trigger] s1.cols[i] == #[trigger] s1.cols[j]) by {
                    if j == n0 {
                        if s1.rows[i] == s1.rows[j] && s1.cols[i] == s1.cols[j] {
                            assert(s0.rows[i] == e.row && s0.cols[i] == e.col);
                            assert(has_key(s0.rows, s0.cols, e.row, e.col));
                        }
                    }
                }
            }
            assert forall|r: usize, c: usize| #[trigger] has_key(s1.rows, s1.cols, r, c) implies {
                let i = slot_of(s1.rows, s1.cols, r, c);
                &&& 0 <= i < s1.rows.len()
                &&& s1.rows[i] == r && s1.cols[i] == c
                &&& s1.va[i] == val_or_zero(last_tag_val(evs, MatTag::A, r, c))
                &&& s1.vb[i] == val_or_zero(last_tag_val(evs, MatTag::B, r, c))
                &&& s1.vc[i] == val_or_zero(last_tag_val(evs, MatTag::C, r, c))
            } by {
                lemma_ltv_push(w, e, MatTag::A, r, c);
                lemma_ltv_push(w, e, MatTag::B, r, c);
                lemma_ltv_push(w, e, MatTag::C, r, c);
                lemma_hk_push(s0.rows, s0.cols, e.row, e.col, r, c);
                let i = slot_of(s1.rows, s1.cols, r, c);
                assert(0 <= i < s1.rows.len() && s1.rows[i] == r && s1.cols[i] == c);
                if r == e.row && c == e.col {
                    // The only slot carrying the fresh coordinate is the new one.
                    assert(i == n0) by {
                        if i < n0 {
                            assert(s0.rows[i] == r && s0.cols[i] == c);
                            assert(has_key(s0.rows, s0.cols, e.row, e.col));
                        }
                    }
                } else {
                    assert(has_key(s0.rows, s0.cols, r, c));
                    let i_old = slot_of(s0.rows, s0.cols, r, c);
                    assert(i != n0) by {
                        if i == n0 {
                            assert(s1.rows[n0] == e.row && s1.cols[n0] == e.col);
                        }
                    }
                    assert(s0.rows[i] == r && s0.cols[i] == c);
                    assert(i == i_old) by {
                        if i < i_old {
                            assert(!(s0.rows[i] == s0.rows[i_old] && s0.cols[i] == s0.cols[i_old]));
                        } else if i_old < i {
                            assert(!(s0.rows[i_old] == s0.rows[i] && s0.cols[i_old] == s0.cols[i]));
                        }
                    }
                }
            }
        }
    }
}

proof fn lemma_unify_events_len(evs: Seq<Ev>)
    ensures
        unify_events(evs).rows.len() <= evs.len(),
    decreases evs.len(),
{
    if evs.len() > 0 {
        lemma_unify_events_len(evs.drop_last());
    }
}

/// Each position contributes one update per list it still lies in, so the
/// schedule's length is the sum of the three clamped lengths.
proof fn lemma_interleave_min_len(
    a: Seq<SparseMatEntry>,
    b: Seq<SparseMatEntry>,
    c: Seq<SparseMatEntry>,
    n: int,
)
    requires
        0 <= n,
    ensures
        interleave_upto(a, b, c, n).len() == minl(n, a.len() as int) + minl(n, b.len() as int)
            + minl(n, c.len() as int),
    decreases n,
{
    if n > 0 {
        lemma_interleave_min_len(a, b, c, n - 1);
    }
}

/// The number of slots never exceeds the total number of entries.
pub proof fn lemma_unify_spec_len(
    a: Seq<SparseMatEntry>,
    b: Seq<SparseMatEntry>,
    c: Seq<SparseMatEntry>,
)
    ensures
        unify_spec(a, b, c).rows.len() <= a.len() + b.len() + c.len(),
{
    let n = max3(a.len() as int, b.len() as int, c.len() as int);
    lemma_unify_events_len(interleave(a, b, c));
    lemma_interleave_min_len(a, b, c, n);
}

/// The coordinate pairs of a state, in slot order.
pub open spec fn pairs_seq(s: UState) -> Seq<(usize, usize)> {
    Seq::new(s.rows.len(), |i: int| (s.rows[i], s.cols[i]))
}

/// Coordinate uniqueness: the set of `(row, col)` pairs in the unified
/// arrays has no duplicates, and its size equals the number of slots.
pub proof fn lemma_coordinate_uniqueness(
    a: Seq<SparseMatEntry>,
    b: Seq<SparseMatEntry>,
    c: Seq<SparseMatEntry>,
)
    ensures
        pairs_seq(unify_spec(a, b, c)).no_duplicates(),
        pairs_seq(unify_spec(a, b, c)).to_set().len() == unify_spec(a, b, c).rows.len(),
{
    lemma_unify_events_ok(interleave(a, b, c));
    let s = unify_spec(a, b, c);
    let p = pairs_seq(s);
    assert forall|i: int, j: int| 0 <= i < p.len() && 0 <= j < p.len() && i != j implies p[i]
        != p[j] by {
        if i < j {
            assert(!(s.rows[i] == s.rows[j] && s.cols[i] == s.cols[j]));
        } else {
            assert(!(s.rows[j] == s.rows[i] && s.cols[j] == s.cols[i]));
        }
    }
    p.unique_seq_to_set();
}

/// A matrix references `(r, c)`.
pub open spec fn mat_has_key(m: Seq<SparseMatEntry>, r: usize, c: usize) -> bool {
    exists|i: int| 0 <= i < m.len() && m[i].row == r && m[i].col == c
}

/// The value of the last entry of `m` at `(r, c)`, if any. For a matrix
/// listing each coordinate once this is simply that entry's value.
pub open spec fn mat_last_val(m: Seq<SparseMatEntry>, r: usize, c: usize) -> Option<Fe>
    decreases m.len(),
{
    if m.len() == 0 {
        None
    } else if m.last().row == r && m.last().col == c {
        Some(m.last().val)
    } else {
        mat_last_val(m.drop_last(), r, c)
    }
}

pub proof fn lemma_mat_no_key_no_val(m: Seq<SparseMatEntry>, r: usize, c: usize)
    requires
        !mat_has_key(m, r, c),
    ensures
        mat_last_val(m, r, c) is None,
    decreases m.len(),
{
    if m.len() > 0 {
        let w = m.drop_last();
        assert(!mat_has_key(w, r, c)) by {
            if mat_has_key(w, r, c) {
                let i = choose|i: int| 0 <= i < w.len() && w[i].row == r && w[i].col == c;
                assert(m[i] == w[i]);
            }
        }
        assert(!(m.last().row == r && m.last().col == c)) by {
            if m.last().row == r && m.last().col == c {
                assert(m[m.len() - 1].row == r && m[m.len() - 1].col == c);
            }
        }
        lemma_mat_no_key_no_val(w, r, c);
    }
}

spec fn minl(n: int, l: int) -> int {
    if n <= l { n } else { l }
}

proof fn lemma_mhk_take(m: Seq<SparseMatEntry>, k: int, r: usize, c: usize)
    requires
        0 <= k < m.len(),
    ensures
        mat_has_key(m.take(k + 1), r, c) <==> (mat_has_key(m.take(k), r, c) || (m[k].row == r
            && m[k].col == c)),
        mat_last_val(m.take(k + 1), r, c) == if m[k].row == r && m[k].col == c {
            Some(m[k].val)
        } else {
            mat_last_val(m.take(k), r, c)
        },
{
    let w = m.take(k);
    let p = m.take(k + 1);
    assert(p =~= w.push(m[k]));
    assert(p.drop_last() =~= w);
    if mat_has_key(p, r, c) {
        let i = choose|i: int| 0 <= i < p.len() && p[i].row == r && p[i].col == c;
        if i < k {
            assert(w[i] == p[i]);
            assert(mat_has_key(w, r, c));
        }
    }
    if mat_has_key(w, r, c) {
        let i = choose|i: int| 0 <= i < w.len() && w[i].row == r && w[i].col == c;
        assert(p[i] == w[i]);
        assert(mat_has_key(p, r, c));
    }
    if m[k].row == r && m[k].col == c {
        assert(p[k].row == r && p[k].col == c);
        assert(mat_has_key(p, r, c));
    }
}

/// One step of the interleaved schedule, related to the three matrix
/// prefixes it extends.
proof fn lemma_upto_step(
    a: Seq<SparseMatEntry>,
    b: Seq<SparseMatEntry>,
    c: Seq<SparseMatEntry>,
    n: int,
    r: usize,
    cc: usize,
)
    requires
        0 <= n,
    ensures
        ev_has_key(interleave_upto(a, b, c, n), r, cc) <==> (mat_has_key(
            a.take(minl(n, a.len() as int)),
            r,
            cc,
        ) || mat_has_key(b.take(minl(n, b.len() as int)), r, cc) || mat_has_key(
            c.take(minl(n, c.len() as int)),
            r,
            cc,
        )),
        last_tag_val(interleave_upto(a, b, c, n), MatTag::A, r, cc) == mat_last_val(
            a.take(minl(n, a.len() as int)),
            r,
            cc,
        ),
        last_tag_val(interleave_upto(a, b, c, n), MatTag::B, r, cc) == mat_last_val(
            b.take(minl(n, b.len() as int)),
            r,
            cc,
        ),
        last_tag_val(interleave_upto(a, b, c, n), MatTag::C, r, cc) == mat_last_val(
            c.take(minl(n, c.len() as int)),
            r,
            cc,
        ),
    decreases n,
{
    if n == 0 {
        assert(a.take(0) =~= Seq::<SparseMatEntry>::empty());
        assert(b.take(0) =~= Seq::<SparseMatEntry>::empty());
        assert(c.take(0) =~= Seq::<SparseMatEntry>::empty());
    } else {
        lemma_upto_step(a, b, c, n - 1, r, cc);
        let p0 = interleave_upto(a, b, c, n - 1);
        let p1 = if n - 1 < a.len() { p0.push(ev_of(MatTag::A, a[n - 1])) } else { p0 };
        let p2 = if n - 1 < b.len() { p1.push(ev_of(MatTag::B, b[n - 1])) } else { p1 };
        let p3 = if n - 1 < c.len() { p2.push(ev_of(MatTag::C, c[n - 1])) } else { p2 };
        assert(p3 == interleave_upto(a, b, c, n));
        if n - 1 < a.len() {
            lemma_ehk_push(p0, ev_of(MatTag::A, a[n - 1]), r, cc);
            lemma_ltv_push(p0, ev_of(MatTag::A, a[n - 1]), MatTag::A, r, cc);
            lemma_ltv_push(p0, ev_of(MatTag::A, a[n - 1]), MatTag::B, r, cc);
            lemma_ltv_push(p0, ev_of(MatTag::A, a[n - 1]), MatTag::C, r, cc);
            lemma_mhk_take(a, n - 1, r, cc);
        } else {
            assert(a.take(minl(n, a.len() as int)) == a.take(minl(n - 1, a.len() as int)));
        }
        if n - 1 < b.len() {
            lemma_ehk_push(p1, ev_of(MatTag::B, b[n - 1]), r, cc);
            lemma_ltv_push(p1, ev_of(MatTag::B, b[n - 1]), MatTag::A, r, cc);
            lemma_ltv_push(p1, ev_of(MatTag::B, b[n - 1]), MatTag::B, r, cc);
            lemma_ltv_push(p1, ev_of(MatTag::B, b[n - 1]), MatTag::C, r, cc);
            lemma_mhk_take(b, n - 1, r, cc);
        } else {
            assert(b.take(minl(n, b.len() as int)) == b.take(minl(n - 1, b.len() as int)));
        }
        if n - 1 < c.len() {
            lemma_ehk_push(p2, ev_of(MatTag::C, c[n - 1]), r, cc);
            lemma_ltv_push(p2, ev_of(MatTag::C, c[n - 1]), MatTag::A, r, cc);
            lemma_ltv_push(p2, ev_of(MatTag::C, c[n - 1]), MatTag::B, r, cc);
            lemma_ltv_push(p2, ev_of(MatTag::C, c[n - 1]), MatTag::C, r, cc);
            lemma_mhk_take(c, n - 1, r, cc);
        } else {
            assert(c.take(minl(n, c.len() as int)) == c.take(minl(n - 1, c.len() as int)));
        }
    }
}

/// The whole schedule seen per matrix: an update exists for a coordinate
/// exactly when some matrix references it, and per matrix the last update is
/// that matrix's last entry there.
proof fn lemma_interleave_per_matrix(
    a: Seq<SparseMatEntry>,
    b: Seq<SparseMatEntry>,
    c: Seq<SparseMatEntry>,
    r: usize,
    cc: usize,
)
    ensures
        ev_has_key(interleave(a, b, c), r, cc) <==> (mat_has_key(a, r, cc) || mat_has_key(
            b,
            r,
            cc,
        ) || mat_has_key(c, r, cc)),
        last_tag_val(interleave(a, b, c), MatTag::A, r, cc) == mat_last_val(a, r, cc),
        last_tag_val(interleave(a, b, c), MatTag::B, r, cc) == mat_last_val(b, r, cc),
        last_tag_val(interleave(a, b, c), MatTag::C, r, cc) == mat_last_val(c, r, cc),
{
    let n = max3(a.len() as int, b.len() as int, c.len() as int);
    lemma_upto_step(a, b, c, n, r, cc);
    assert(a.take(minl(n, a.len() as int)) =~= a);
    assert(b.take(minl(n, b.len() as int)) =~= b);
    assert(c.take(minl(n, c.len() as int)) =~= c);
}

/// Value fidelity: every coordinate referenced by some matrix has exactly
/// one slot; per matrix, the slot holds the value of that matrix's last
/// entry at the coordinate, and the additive identity if the matrix never
/// references it.
pub proof fn lemma_value_fidelity(
    a: Seq<SparseMatEntry>,
    b: Seq<SparseMatEntry>,
    c: Seq<SparseMatEntry>,
)
    ensures
        ({
            let s = unify_spec(a, b, c);
            &&& lens_eq(s)
            &&& slots_distinct(s)
            &&& forall|r: usize, cc: usize|
                #![trigger has_key(s.rows, s.cols, r, cc)]
                has_key(s.rows, s.cols, r, cc) <==> (mat_has_key(a, r, cc) || mat_has_key(
                    b,
                    r,
                    cc,
                ) || mat_has_key(c, r, cc))
            &&& forall|r: usize, cc: usize|
                #[trigger] has_key(s.rows, s.cols, r, cc) ==> {
                    let i = slot_of(s.rows, s.cols, r, cc);
                    &&& 0 <= i < s.rows.len()
                    &&& s.rows[i] == r && s.cols[i] == cc
                    &&& s.va[i] == val_or_zero(mat_last_val(a, r, cc))
                    &&& s.vb[i] == val_or_zero(mat_last_val(b, r, cc))
                    &&& s.vc[i] == val_or_zero(mat_last_val(c, r, cc))
                    &&& !mat_has_key(a, r, cc) ==> s.va[i] == Fe::spec_zero()
                    &&& !mat_has_key(b, r, cc) ==> s.vb[i] == Fe::spec_zero()
                    &&& !mat_has_key(c, r, cc) ==> s.vc[i] == Fe::spec_zero()
                }
        }),
{
    let evs = interleave(a, b, c);
    lemma_unify_events_ok(evs);
    let s = unify_spec(a, b, c);
    assert forall|r: usize, cc: usize|
        has_key(s.rows, s.cols, r, cc) <==> (mat_has_key(a, r, cc) || mat_has_key(b, r, cc)
            || mat_has_key(c, r, cc)) by {
        lemma_interleave_per_matrix(a, b, c, r, cc);
    }
    assert forall|r: usize, cc: usize| #[trigger] has_key(s.rows, s.cols, r, cc) implies {
        let i = slot_of(s.rows, s.cols, r, cc);
        &&& 0 <= i < s.rows.len()
        &&& s.rows[i] == r && s.cols[i] == cc
        &&& s.va[i] == val_or_zero(mat_last_val(a, r, cc))
        &&& s.vb[i] == val_or_zero(mat_last_val(b, r, cc))
        &&& s.vc[i] == val_or_zero(mat_last_val(c, r, cc))
        &&& !mat_has_key(a, r, cc) ==> s.va[i] == Fe::spec_zero()
        &&& !mat_has_key(b, r, cc) ==> s.vb[i] == Fe::spec_zero()
        &&& !mat_has_key(c, r, cc) ==> s.vc[i] == Fe::spec_zero()
    } by {
        lemma_interleave_per_matrix(a, b, c, r, cc);
        if !mat_has_key(a, r, cc) {
            lemma_mat_no_key_no_val(a, r, cc);
        }
        if !mat_has_key(b, r, cc) {
            lemma_mat_no_key_no_val(b, r, cc);
        }
        if !mat_has_key(c, r, cc) {
            lemma_mat_no_key_no_val(c, r, cc);
        }
    }
}

} // verus!

