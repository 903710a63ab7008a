//! The block generator: maps a block id to its generator-matrix row — the
//! coefficient, over GF(256), of each source row in that block.
//!
//! The mapping is a pure function of `(block_id, seed)`: an encoder and a
//! decoder that share a seed derive identical rows for the same id without
//! ever transmitting coefficients. Ids below `n` give a *dense* row (every
//! source row participates with a nonzero coefficient) to supply full rank;
//! higher ids give a *peel* row of two to four sparse placements, cheap to
//! combine and to peel, and never materialized in full until elimination
//! needs it.
//!
//! All pseudo-randomness comes from a session-local xorshift stream, so
//! parallel sessions never share generator state.

use vstd::prelude::*;
use crate::gf256::gf_mul_spec;
use crate::gf256::mul_add_spec;
use crate::gf256::scale_spec;

verus! {

/// One step of the xorshift stream on 64-bit state.
pub open spec fn next_state_spec(x: u64) -> u64 {
    let a = x ^ (x << 13);
    let b = a ^ (a >> 7);
    b ^ (b << 17)
}

/// One step of the xorshift stream.
pub fn next_state(x: u64) -> (r: u64)
    ensures
        r == next_state_spec(x),
{
    let a = x ^ (x << 13);
    let b = a ^ (a >> 7);
    b ^ (b << 17)
}

/// The stream state after `k` steps from `s`.
pub open spec fn state_iter(s: u64, k: nat) -> u64
    decreases k,
{
    if k == 0 {
        s
    } else {
        next_state_spec(state_iter(s, (k - 1) as nat))
    }
}

/// The session seed derived for a row count `n`: a fixed mixing constant, so
/// that an encoder and a decoder configured with the same sizes agree on it
/// without exchanging it.
///
/// One seed per row count is used throughout, with no retry at creation: the
/// dense range gives every source row a nonzero coefficient under every seed
/// of this family, and the per-block stream start is guarded against the
/// degenerate zero state, so no seed is rejected analytically. A reception
/// pattern the session cannot solve surfaces later as `ExtraInsufficient`,
/// after the give-up allowance.
pub open spec fn session_seed_spec(n: u64) -> u64 {
    0x853c49e6748fea9bu64 ^ (n << 32) ^ n
}

/// The session seed for a row count `n`.
pub fn session_seed(n: u64) -> (r: u64)
    ensures
        r == session_seed_spec(n),
{
    0x853c49e6748fea9bu64 ^ (n << 32) ^ n
}

/// The starting stream state for one block id. Never zero, so the xorshift
/// stream never degenerates.
pub open spec fn block_state_spec(seed: u64, block_id: u64) -> u64 {
    let s = seed ^ (block_id << 16) ^ block_id ^ 0x6a09e667f3bcc909u64;
    if s == 0 {
        0x9e3779b97f4a7c15u64
    } else {
        s
    }
}

/// The starting stream state for one block id.
pub fn block_state(seed: u64, block_id: u64) -> (r: u64)
    ensures
        r == block_state_spec(seed, block_id),
{
    let s = seed ^ (block_id << 16) ^ block_id ^ 0x6a09e667f3bcc909u64;
    if s == 0 {
        0x9e3779b97f4a7c15u64
    } else {
        s
    }
}

/// A nonzero field coefficient drawn from one stream state.
pub open spec fn coeff_of(x: u64) -> u8 {
    ((x % 255) + 1) as u8
}

/// A position below `n` drawn from one stream state.
pub open spec fn pos_of(x: u64, n: nat) -> nat
    recommends
        n > 0,
{
    (x as nat) % n
}

/// An all-zero row of `n` coefficients.
pub open spec fn zero_row(n: nat) -> Seq<u8> {
    Seq::new(n, |i: int| 0u8)
}

/// The dense row for stream start `s0`: coefficient `i` is drawn from the
/// `(i + 1)`-th stream state, nonzero for every source row.
pub open spec fn dense_row_spec(s0: u64, n: nat) -> Seq<u8> {
    Seq::new(n, |i: int| coeff_of(state_iter(s0, (i + 1) as nat)))
}

/// The sparse row after `k` placements: each placement draws a position and
/// a nonzero coefficient from the next two stream states and adds the
/// coefficient at that position.
pub open spec fn sparse_row_rec(s0: u64, n: nat, k: nat) -> Seq<u8>
    recommends
        n > 0,
    decreases k,
{
    if k == 0 {
        zero_row(n)
    } else {
        let prev = sparse_row_rec(s0, n, (k - 1) as nat);
        let pos = pos_of(state_iter(s0, (2 * (k - 1) + 2) as nat), n);
        let coef = coeff_of(state_iter(s0, (2 * (k - 1) + 3) as nat));
        prev.update(pos as int, prev[pos as int] ^ coef)
    }
}

/// The number of placements of the sparse row for stream start `s0`: two to
/// four, drawn from the first stream state.
pub open spec fn sparse_weight_spec(s0: u64) -> nat {
    (2 + state_iter(s0, 1) % 3) as nat
}

/// The generator-matrix row of `block_id` under `seed`, for `n` source rows:
/// dense below `n`, sparse from `n` on.
pub open spec fn row_spec(seed: u64, n: nat, block_id: u64) -> Seq<u8> {
    let s0 = block_state_spec(seed, block_id);
    if (block_id as nat) < n {
        dense_row_spec(s0, n)
    } else {
        sparse_row_rec(s0, n, sparse_weight_spec(s0))
    }
}

/// A freshly allocated all-zero row.
pub fn make_zero_row(n: usize) -> (r: Vec<u8>)
    ensures
        r@ == zero_row(n as nat),
        r.len() == n,
{
    let mut v: Vec<u8> = Vec::new();
    let mut i: usize = 0;
    while i < n
        invariant
            i <= n,
            v.len() == i,
            forall|j: int| 0 <= j < i ==> v@[j] == 0u8,
        decreases n - i,
    {
        v.push(0u8);
        i = i + 1;
    }
    assert(v@ =~= zero_row(n as nat));
    v
}

/// A generator-matrix row as the block generator hands it out. A dense row
/// materializes every coefficient; a peel row keeps only its nonzero
/// placements as position/coefficient pairs, in draw order.
pub enum GeneratorRow {
    /// Entry `i` is the coefficient of source row `i`.
    Dense(Vec<u8>),
    /// The sparse placements: (source row index, coefficient to add there).
    Peel(Vec<(usize, u8)>),
}

/// The dense expansion of the first `k` placements of a peel row.
pub open spec fn expand_rec(entries: Seq<(usize, u8)>, n: nat, k: nat) -> Seq<u8>
    decreases k,
{
    if k == 0 {
        zero_row(n)
    } else {
        let prev = expand_rec(entries, n, (k - 1) as nat);
        let pos = entries[k - 1].0 as int;
        prev.update(pos, prev[pos] ^ entries[k - 1].1)
    }
}

/// The coefficient vector a generator row stands for.
pub open spec fn row_coeffs(r: GeneratorRow, n: nat) -> Seq<u8> {
    match r {
        GeneratorRow::Dense(v) => v@,
        GeneratorRow::Peel(entries) => expand_rec(entries@, n, entries@.len()),
    }
}

/// Structural validity of a generator row for `n` source rows.
pub open spec fn row_wf(r: GeneratorRow, n: nat) -> bool {
    match r {
        GeneratorRow::Dense(v) => v@.len() == n,
        GeneratorRow::Peel(entries) => forall|k: int|
            0 <= k < entries@.len() ==> (#[trigger] entries@[k]).0 < n,
    }
}

/// An expanded row always has `n` coefficients.
pub proof fn lemma_expand_len(entries: Seq<(usize, u8)>, n: nat, k: nat)
    requires
        k <= entries.len(),
        forall|t: int| 0 <= t < k ==> (#[trigger] entries[t]).0 < n,
    ensures
        expand_rec(entries, n, k).len() == n,
    decreases k,
{
    if k > 0 {
        lemma_expand_len(entries, n, (k - 1) as nat);
    }
}

/// Expanding a prefix ignores placements appended later.
pub proof fn lemma_expand_push(entries: Seq<(usize, u8)>, x: (usize, u8), n: nat, k: nat)
    requires
        k <= entries.len(),
    ensures
        expand_rec(entries.push(x), n, k) == expand_rec(entries, n, k),
    decreases k,
{
    if k > 0 {
        lemma_expand_push(entries, x, n, (k - 1) as nat);
        assert(entries.push(x)[k - 1] == entries[k - 1]);
    }
}

/// Evaluate the generator-matrix row of `block_id` for `n` source rows under
/// `seed`.
pub fn generator_row(seed: u64, n: usize, block_id: u64) -> (r: GeneratorRow)
    requires
        1 <= n,
    ensures
        row_wf(r, n as nat),
        row_coeffs(r, n as nat) == row_spec(seed, n as nat, block_id),
{
    let s0 = block_state(seed, block_id);
    if block_id < n as u64 {
        // Dense row: one nonzero coefficient per source row.
        let mut v: Vec<u8> = Vec::new();
        let mut x: u64 = s0;
        let mut i: usize = 0;
        while i < n
            invariant
                i <= n,
                v.len() == i,
                x == state_iter(s0, i as nat),
                forall|j: int| 0 <= j < i ==> v@[j] == coeff_of(state_iter(s0, (j + 1) as nat)),
            decreases n - i,
        {
            x = next_state(x);
            let c = ((x % 255) + 1) as u8;
            assert(c == coeff_of(state_iter(s0, (i + 1) as nat)));
            v.push(c);
            i = i + 1;
        }
        assert(v@ =~= dense_row_spec(s0, n as nat));
        GeneratorRow::Dense(v)
    } else {
        // Peel row: a few placements of nonzero coefficients.
        let mut entries: Vec<(usize, u8)> = Vec::new();
        let mut x: u64 = next_state(s0);
        proof {
            assert(state_iter(s0, 0) == s0);
            assert(state_iter(s0, 1) == next_state_spec(s0));
        }
        let w = (2 + (x % 3)) as usize;
        assert(x % 3 < 3);
        assert(w as nat == sparse_weight_spec(s0));
        let mut k: usize = 0;
        while k < w
            invariant
                k <= w,
                n >= 1,
                entries@.len() == k,
                forall|t: int| 0 <= t < k ==> (#[trigger] entries@[t]).0 < n,
                x == state_iter(s0, (2 * k + 1) as nat),
                expand_rec(entries@, n as nat, k as nat) == sparse_row_rec(s0, n as nat, k as nat),
            decreases w - k,
        {
            x = next_state(x);
            let pos = (x % (n as u64)) as usize;
            assert(pos as nat == pos_of(state_iter(s0, (2 * k + 2) as nat), n as nat)) by {
                assert(x as nat % (n as nat) == (x % (n as u64)) as nat);
            }
            x = next_state(x);
            let c = ((x % 255) + 1) as u8;
            let ghost before = entries@;
            entries.push((pos, c));
            proof {
                lemma_expand_push(before, (pos, c), n as nat, k as nat);
                assert(entries@[k as int] == (pos, c));
                assert(expand_rec(entries@, n as nat, (k + 1) as nat)
                    == sparse_row_rec(s0, n as nat, (k + 1) as nat));
            }
            k = k + 1;
        }
        let r = GeneratorRow::Peel(entries);
        assert(row_coeffs(r, n as nat) == row_spec(seed, n as nat, block_id));
        r
    }
}

/// Materialize a generator row as a dense coefficient vector.
pub fn expand_row(r: &GeneratorRow, n: usize) -> (v: Vec<u8>)
    requires
        row_wf(*r, n as nat),
        1 <= n,
    ensures
        v@ == row_coeffs(*r, n as nat),
        v.len() == n,
{
    match r {
        GeneratorRow::Dense(d) => {
            crate::gf256::copy_vec(d)
        },
        GeneratorRow::Peel(entries) => {
            let mut v = make_zero_row(n);
            let mut k: usize = 0;
            while k < entries.len()
                invariant
                    k <= entries@.len(),
                    forall|t: int| 0 <= t < entries@.len() ==> (#[trigger] entries@[t]).0 < n,
                    v.len() == n,
                    v@ == expand_rec(entries@, n as nat, k as nat),
                decreases entries@.len() - k,
            {
                let (pos, c) = entries[k];
                let upd = v[pos] ^ c;
                v.set(pos, upd);
                k = k + 1;
            }
            v
        },
    }
}

/// `k` source rows folded with their coefficients: the partial linear
/// combination `sum over i < k of coeffs[i] * rows[i]`.
pub open spec fn combine_rec(rows: Seq<Seq<u8>>, coeffs: Seq<u8>, bs: nat, k: nat) -> Seq<u8>
    decreases k,
{
    if k == 0 {
        zero_row(bs)
    } else {
        mul_add_spec(combine_rec(rows, coeffs, bs, (k - 1) as nat), rows[k - 1], coeffs[k - 1])
    }
}

/// The full linear combination of all source rows with their coefficients.
pub open spec fn combine_spec(rows: Seq<Seq<u8>>, coeffs: Seq<u8>, bs: nat) -> Seq<u8> {
    combine_rec(rows, coeffs, bs, rows.len())
}

/// The block emitted for `block_id`: the source rows combined under the
/// generator-matrix row of that id.
pub open spec fn encode_block_spec(rows: Seq<Seq<u8>>, seed: u64, bs: nat, block_id: u64) -> Seq<u8> {
    combine_spec(rows, row_spec(seed, rows.len(), block_id), bs)
}

/// A combination always spans `bs` byte positions.
pub proof fn lemma_combine_len(rows: Seq<Seq<u8>>, coeffs: Seq<u8>, bs: nat, k: nat)
    ensures
        combine_rec(rows, coeffs, bs, k).len() == bs,
    decreases k,
{
    if k > 0 {
        lemma_combine_len(rows, coeffs, bs, (k - 1) as nat);
    }
}

/// A combination over `k` rows reads only the first `k` coefficients.
pub proof fn lemma_combine_agree(rows: Seq<Seq<u8>>, c1: Seq<u8>, c2: Seq<u8>, bs: nat, k: nat)
    requires
        forall|i: int| 0 <= i < k ==> c1[i] == c2[i],
    ensures
        combine_rec(rows, c1, bs, k) == combine_rec(rows, c2, bs, k),
    decreases k,
{
    if k > 0 {
        lemma_combine_agree(rows, c1, c2, bs, (k - 1) as nat);
    }
}

/// Coefficients that are zero over the combined prefix contribute nothing.
pub proof fn lemma_combine_zero(rows: Seq<Seq<u8>>, coeffs: Seq<u8>, bs: nat, k: nat)
    requires
        forall|i: int| 0 <= i < k ==> coeffs[i] == 0,
    ensures
        combine_rec(rows, coeffs, bs, k) == zero_row(bs),
    decreases k,
{
    if k > 0 {
        lemma_combine_zero(rows, coeffs, bs, (k - 1) as nat);
        assert(mul_add_spec(zero_row(bs), rows[k - 1], coeffs[k - 1]) =~= zero_row(bs)) by {
            assert forall|j: int| 0 <= j < bs implies
                mul_add_spec(zero_row(bs), rows[k - 1], coeffs[k - 1])[j] == zero_row(bs)[j] by {
                crate::gf256::lemma_mul_zero_left(rows[k - 1][j]);
                assert(0u8 ^ 0u8 == 0u8) by (bit_vector);
            }
        }
    }
}

/// The first `k` source rows laid end to end.
pub open spec fn concat_rows(rows: Seq<Seq<u8>>, k: nat) -> Seq<u8>
    decreases k,
{
    if k == 0 {
        Seq::empty()
    } else {
        concat_rows(rows, (k - 1) as nat) + rows[k - 1]
    }
}

/// Combining under a unit coefficient vector yields exactly the selected row.
pub proof fn lemma_combine_unit(rows: Seq<Seq<u8>>, coeffs: Seq<u8>, bs: nat, k: nat, c: int)
    requires
        0 <= c < k,
        k <= coeffs.len(),
        coeffs[c] == 1,
        forall|i: int| 0 <= i < k && i != c ==> coeffs[i] == 0,
        rows[c].len() == bs,
    ensures
        combine_rec(rows, coeffs, bs, k) == rows[c],
    decreases k,
{
    lemma_combine_len(rows, coeffs, bs, (k - 1) as nat);
    if c == k - 1 {
        lemma_combine_zero(rows, coeffs, bs, (k - 1) as nat);
        assert(mul_add_spec(zero_row(bs), rows[c], 1) =~= rows[c]) by {
            assert forall|j: int| 0 <= j < bs implies
                mul_add_spec(zero_row(bs), rows[c], 1)[j] == rows[c][j] by {
                crate::gf256::lemma_mul_one_left(rows[c][j]);
                assert(forall|x: u8| #[trigger] (0u8 ^ x) == x) by (bit_vector);
            }
        }
    } else {
        lemma_combine_unit(rows, coeffs, bs, (k - 1) as nat, c);
        assert(mul_add_spec(rows[c], rows[k - 1], 0) =~= rows[c]) by {
            assert forall|j: int| 0 <= j < bs implies
                mul_add_spec(rows[c], rows[k - 1], 0)[j] == rows[c][j] by {
                crate::gf256::lemma_mul_zero_left(rows[k - 1][j]);
                assert(forall|x: u8| #[trigger] (x ^ 0) == x) by (bit_vector);
            }
        }
    }
}

/// Folding one more placement `(pos, c)` into the coefficients adds exactly
/// `c` times source row `pos` to the combination: the order in which
/// placements fold does not matter.
pub proof fn lemma_combine_update(rows: Seq<Seq<u8>>, coeffs: Seq<u8>, bs: nat, k: nat, pos: int, c: u8)
    requires
        0 <= pos < k,
        k <= coeffs.len(),
    ensures
        combine_rec(rows, coeffs.update(pos, coeffs[pos] ^ c), bs, k)
            == mul_add_spec(combine_rec(rows, coeffs, bs, k), rows[pos], c),
    decreases k,
{
    let upd = coeffs.update(pos, coeffs[pos] ^ c);
    lemma_combine_len(rows, coeffs, bs, (k - 1) as nat);
    lemma_combine_len(rows, upd, bs, (k - 1) as nat);
    lemma_combine_len(rows, coeffs, bs, k);
    if pos == k - 1 {
        lemma_combine_agree(rows, upd, coeffs, bs, (k - 1) as nat);
        let x = combine_rec(rows, coeffs, bs, (k - 1) as nat);
        assert(combine_rec(rows, upd, bs, k)
            =~= mul_add_spec(combine_rec(rows, coeffs, bs, k), rows[pos], c)) by {
            assert forall|j: int| 0 <= j < bs implies combine_rec(rows, upd, bs, k)[j]
                == mul_add_spec(combine_rec(rows, coeffs, bs, k), rows[pos], c)[j] by {
                crate::gf256::lemma_mul_distributes_left(coeffs[pos], c, rows[pos][j]);
                let xj = x[j];
                let m1 = gf_mul_spec(coeffs[pos], rows[pos][j]);
                let m2 = gf_mul_spec(c, rows[pos][j]);
                assert(xj ^ (m1 ^ m2) == (xj ^ m1) ^ m2) by (bit_vector);
            }
        }
    } else {
        lemma_combine_update(rows, coeffs, bs, (k - 1) as nat, pos, c);
        let y = combine_rec(rows, coeffs, bs, (k - 1) as nat);
        assert(upd[k - 1] == coeffs[k - 1]);
        assert(combine_rec(rows, upd, bs, k)
            =~= mul_add_spec(combine_rec(rows, coeffs, bs, k), rows[pos], c)) by {
            assert forall|j: int| 0 <= j < bs implies combine_rec(rows, upd, bs, k)[j]
                == mul_add_spec(combine_rec(rows, coeffs, bs, k), rows[pos], c)[j] by {
                let a = y[j];
                let m1 = gf_mul_spec(c, rows[pos][j]);
                let m2 = gf_mul_spec(coeffs[k - 1], rows[k - 1][j]);
                assert((a ^ m1) ^ m2 == (a ^ m2) ^ m1) by (bit_vector);
            }
        }
    }
}

/// Combining is linear: folding a multiply-accumulate of two coefficient
/// rows gives the multiply-accumulate of their combinations.
pub proof fn lemma_combine_mul_add(rows: Seq<Seq<u8>>, c1: Seq<u8>, c2: Seq<u8>, bs: nat, k: nat, f: u8)
    requires
        k <= c1.len(),
        k <= c2.len(),
        c1.len() == c2.len(),
    ensures
        combine_rec(rows, mul_add_spec(c1, c2, f), bs, k)
            == mul_add_spec(combine_rec(rows, c1, bs, k), combine_rec(rows, c2, bs, k), f),
    decreases k,
{
    lemma_combine_len(rows, c1, bs, k);
    lemma_combine_len(rows, c2, bs, k);
    if k == 0 {
        assert(mul_add_spec(zero_row(bs), zero_row(bs), f) =~= zero_row(bs)) by {
            assert forall|j: int| 0 <= j < bs implies
                mul_add_spec(zero_row(bs), zero_row(bs), f)[j] == zero_row(bs)[j] by {
                crate::gf256::lemma_mul_zero_right(f);
                assert(0u8 ^ 0u8 == 0u8) by (bit_vector);
            }
        }
    } else {
        lemma_combine_mul_add(rows, c1, c2, bs, (k - 1) as nat, f);
        lemma_combine_len(rows, c1, bs, (k - 1) as nat);
        lemma_combine_len(rows, c2, bs, (k - 1) as nat);
        let x1 = combine_rec(rows, c1, bs, (k - 1) as nat);
        let x2 = combine_rec(rows, c2, bs, (k - 1) as nat);
        let r = rows[k - 1];
        assert(combine_rec(rows, mul_add_spec(c1, c2, f), bs, k)
            =~= mul_add_spec(combine_rec(rows, c1, bs, k), combine_rec(rows, c2, bs, k), f)) by {
            assert forall|j: int| 0 <= j < bs implies
                combine_rec(rows, mul_add_spec(c1, c2, f), bs, k)[j]
                    == mul_add_spec(combine_rec(rows, c1, bs, k), combine_rec(rows, c2, bs, k), f)[j] by {
                crate::gf256::lemma_mul_distributes_left(c1[k - 1], gf_mul_spec(f, c2[k - 1]), r[j]);
                crate::gf256::lemma_mul_assoc(f, c2[k - 1], r[j]);
                crate::gf256::lemma_mul_distributes_right(f, x2[j], gf_mul_spec(c2[k - 1], r[j]));
                let t1 = x1[j];
                let t2 = gf_mul_spec(f, x2[j]);
                let t3 = gf_mul_spec(c1[k - 1], r[j]);
                let t4 = gf_mul_spec(f, gf_mul_spec(c2[k - 1], r[j]));
                assert(((t1 ^ t2) ^ (t3 ^ t4)) == ((t1 ^ t3) ^ (t2 ^ t4))) by (bit_vector);
            }
        }
    }
}

/// Combining commutes with scaling.
pub proof fn lemma_combine_scale(rows: Seq<Seq<u8>>, c: Seq<u8>, bs: nat, k: nat, v: u8)
    requires
        k <= c.len(),
    ensures
        combine_rec(rows, scale_spec(c, v), bs, k) == scale_spec(combine_rec(rows, c, bs, k), v),
    decreases k,
{
    lemma_combine_len(rows, c, bs, k);
    if k == 0 {
        assert(scale_spec(zero_row(bs), v) =~= zero_row(bs)) by {
            assert forall|j: int| 0 <= j < bs implies
                scale_spec(zero_row(bs), v)[j] == zero_row(bs)[j] by {
                crate::gf256::lemma_mul_zero_left(v);
            }
        }
    } else {
        lemma_combine_scale(rows, c, bs, (k - 1) as nat, v);
        lemma_combine_len(rows, c, bs, (k - 1) as nat);
        let x = combine_rec(rows, c, bs, (k - 1) as nat);
        let r = rows[k - 1];
        assert(combine_rec(rows, scale_spec(c, v), bs, k)
            =~= scale_spec(combine_rec(rows, c, bs, k), v)) by {
            assert forall|j: int| 0 <= j < bs implies
                combine_rec(rows, scale_spec(c, v), bs, k)[j]
                    == scale_spec(combine_rec(rows, c, bs, k), v)[j] by {
                crate::gf256::lemma_mul_distributes_left(x[j], gf_mul_spec(c[k - 1], r[j]), v);
                crate::gf256::lemma_mul_exchange(c[k - 1], v, r[j]);
            }
        }
    }
}

} // verus!
