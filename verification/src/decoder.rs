//! The incremental decoder / solver: accumulates received `(block_id, row)`
//! pairs and keeps the system in reduced form as it grows.
//!
//! For every accepted block the decoder expands the generator row, eliminates
//! it against the stored pivot rows, and, if anything remains, normalizes the
//! first surviving column into a new pivot and substitutes it eagerly into
//! every stored row. A column solved this way is therefore resolved at once
//! in the whole residual system — rows that referenced it shrink immediately,
//! and once the pivot count reaches `n` every stored row has collapsed to a
//! unit vector whose payload is the solved source row. Blocks whose rows are
//! linearly dependent on what was already accepted eliminate to zero and are
//! discarded without error; repeated block ids are recognized and ignored
//! outright.
//!
//! Elimination only ever combines equations, so the solver state stays
//! consistent with any source rows that explain the blocks fed so far
//! (`consistent_with`, preserved by `decode`'s contract), and once the
//! session is complete those rows — and with them the recovered message —
//! are pinned down exactly (`lemma_complete_consistent_recovers`).

use vstd::prelude::*;
use crate::WirehairError;
use crate::WirehairResult;
use crate::gf256;
use crate::generator;
use crate::encoder;

verus! {

/// One solved or partially solved equation: the coefficients of the source
/// rows still referenced, and the combined payload bytes.
pub struct PivotRow {
    /// Coefficient of each source row, `1` at the pivot's own column.
    pub coeffs: Vec<u8>,
    /// The row bytes under the same combination.
    pub payload: Vec<u8>,
}

/// The number of solved columns: how many entries hold a pivot row.
pub open spec fn pivot_count(p: Seq<Option<PivotRow>>) -> nat
    decreases p.len(),
{
    if p.len() == 0 {
        0
    } else {
        pivot_count(p.drop_last()) + (if p.last() is Some { 1nat } else { 0nat })
    }
}

/// There are never more pivots than columns.
pub proof fn lemma_count_le_len(p: Seq<Option<PivotRow>>)
    ensures
        pivot_count(p) <= p.len(),
    decreases p.len(),
{
    if p.len() > 0 {
        lemma_count_le_len(p.drop_last());
    }
}

/// Replacing one entry changes the pivot count exactly by the difference of
/// the two occupancies.
pub proof fn lemma_count_update(p: Seq<Option<PivotRow>>, i: int, v: Option<PivotRow>)
    requires
        0 <= i < p.len(),
    ensures
        pivot_count(p.update(i, v)) == pivot_count(p) - (if p[i] is Some { 1int } else { 0int })
            + (if v is Some { 1int } else { 0int }),
    decreases p.len(),
{
    if i == p.len() - 1 {
        assert(p.update(i, v).drop_last() =~= p.drop_last());
    } else {
        assert(p.update(i, v).drop_last() =~= p.drop_last().update(i, v));
        lemma_count_update(p.drop_last(), i, v);
    }
}

/// When the pivot count equals the column count, every column is solved.
pub proof fn lemma_count_full(p: Seq<Option<PivotRow>>)
    requires
        pivot_count(p) == p.len(),
    ensures
        forall|i: int| 0 <= i < p.len() ==> p[i] is Some,
    decreases p.len(),
{
    if p.len() > 0 {
        lemma_count_le_len(p.drop_last());
        lemma_count_full(p.drop_last());
        assert(forall|i: int| 0 <= i < p.len() - 1 ==> p[i] == p.drop_last()[i]);
    }
}

/// The pivot row stored for column `c`, if any, is in reduced form: unit
/// coefficient at its own column and zero at every other solved column.
pub open spec fn pivot_ok(p: Seq<Option<PivotRow>>, n: nat, bs: nat, c: int) -> bool {
    p[c] matches Some(row) ==> {
        &&& row.coeffs@.len() == n
        &&& row.payload@.len() == bs
        &&& row.coeffs@[c] == 1
        &&& forall|c2: int| 0 <= c2 < n && c2 != c && p[c2] is Some ==> row.coeffs@[c2] == 0
    }
}

/// The solved payloads in column order, for the first `k` columns.
pub open spec fn payload_prefix(p: Seq<Option<PivotRow>>, k: nat) -> Seq<u8>
    decreases k,
{
    if k == 0 {
        Seq::empty()
    } else {
        payload_prefix(p, (k - 1) as nat) + (match p[k - 1] {
            Some(row) => row.payload@,
            None => Seq::<u8>::empty(),
        })
    }
}

/// One decoding session: the solver state for a message of `message_len`
/// bytes in `n` rows of `block_size` bytes.
pub struct WirehairDecoder {
    /// The configured block size in bytes.
    pub block_size: u32,
    /// The exact message length in bytes.
    pub message_len: u64,
    /// The number of source rows to solve for.
    pub n: usize,
    /// The seed the block generator runs under; derived from the sizes, so it
    /// agrees with the matching encoder's seed.
    pub seed: u64,
    /// The creation-time error, if the sizes were rejected.
    pub err: Option<WirehairError>,
    /// The number of solved columns.
    pub rank: usize,
    /// For each column, the reduced pivot row that solves it, once one exists.
    pub pivots: Vec<Option<PivotRow>>,
    /// The block ids already consumed; repeats are ignored.
    pub seen: Vec<u64>,
    /// How many distinct blocks were consumed.
    pub received: usize,
    /// The multiplicative inverse of each nonzero field element, precomputed
    /// at creation so pivot normalization is one table lookup.
    pub inv_table: Vec<u8>,
}

/// A valid inverse table: entry `b`, for nonzero `b`, is a right factor that
/// multiplies `b` to one.
pub open spec fn inv_table_ok(t: Seq<u8>) -> bool {
    &&& t.len() == 256
    &&& forall|b: int| 1 <= b < 256 ==> gf256::gf_mul_spec(b as u8, #[trigger] t[b]) == 1
}

/// Some right factor multiplies `b` to one.
pub open spec fn has_inverse(b: u8) -> bool {
    exists|c: u8| gf256::gf_mul_spec(b, c) == 1
}

/// Every nonzero field element has a multiplicative inverse. This holds of
/// GF(256); the decoder establishes it constructively at creation by building
/// the inverse table, and stores the session unusable if the search could
/// ever fail.
pub open spec fn field_invertible() -> bool {
    forall|b: u8| b != 0 ==> #[trigger] has_inverse(b)
}

/// The error, if any, that opening a decoding session with these sizes
/// reports: the size rules shared with the encoder, and then the field
/// inverse table, whose construction fails only if some nonzero field
/// element had no inverse.
pub open spec fn decoder_create_error_spec(ml: u64, bs: u32) -> Option<WirehairError> {
    if encoder::create_error_spec(ml as nat, ml, bs) is Some {
        encoder::create_error_spec(ml as nat, ml, bs)
    } else if !field_invertible() {
        Some(WirehairError::Error)
    } else {
        None
    }
}

/// Source rows of the session's dimensions: `n` rows of `bs` bytes.
pub open spec fn rows_dims(rows: Seq<Seq<u8>>, n: nat, bs: nat) -> bool {
    &&& rows.len() == n
    &&& forall|i: int| 0 <= i < n ==> (#[trigger] rows[i]).len() == bs
}

/// The source rows `rows` satisfy every equation the solver holds: each
/// stored pivot row's payload is the combination of `rows` under that row's
/// coefficients. Elimination only ever combines equations, so decoding
/// genuine blocks of `rows` keeps the whole state consistent with `rows`.
pub open spec fn consistent_with(pivots: Seq<Option<PivotRow>>, rows: Seq<Seq<u8>>, bs: nat) -> bool {
    forall|c: int| 0 <= c < pivots.len() ==> (match #[trigger] pivots[c] {
        Some(row) => generator::combine_spec(rows, row.coeffs@, bs) == row.payload@,
        None => true,
    })
}

/// The incoming coefficient row after elimination against the pivot rows of
/// the first `k` columns, in column order: at each solved column whose
/// current coefficient is nonzero, that pivot row is folded in, scaled by
/// the coefficient.
pub open spec fn eliminate_rec(pivots: Seq<Option<PivotRow>>, coeffs: Seq<u8>, k: nat) -> Seq<u8>
    decreases k,
{
    if k == 0 {
        coeffs
    } else {
        let prev = eliminate_rec(pivots, coeffs, (k - 1) as nat);
        match pivots[k - 1] {
            Some(row) => if prev[k - 1] != 0 {
                gf256::mul_add_spec(prev, row.coeffs@, prev[k - 1])
            } else {
                prev
            },
            None => prev,
        }
    }
}

impl WirehairDecoder {
    /// The generous allowance of distinct blocks beyond `n` that the session
    /// consumes before it reports the system unsolvable.
    pub open spec fn extra_bound(&self) -> nat {
        self.n as nat + 64
    }

    /// Recovery is possible: every column is solved.
    pub open spec fn complete(&self) -> bool {
        self.err is None && self.rank == self.n
    }

    /// The sizes a decode call must supply.
    pub open spec fn sizes_ok(&self, block_len: nat, out_bytes: u32) -> bool {
        block_len == self.block_size as nat && out_bytes == self.block_size
    }

    /// Session well-formedness: a live session has a supported row count, a
    /// seed tied to the sizes, a pivot table of reduced rows, and a rank that
    /// counts them.
    pub open spec fn wf(&self) -> bool {
        self.err is None ==> {
            &&& encoder::MIN_ROWS as nat <= self.n as nat <= encoder::MAX_ROWS as nat
            &&& self.block_size >= 1
            &&& self.message_len >= 1
            &&& self.n as nat == encoder::rows_of(self.message_len, self.block_size)
            &&& self.message_len as nat <= self.n as nat * (self.block_size as nat)
            &&& self.n as nat * (self.block_size as nat) <= usize::MAX as nat
            &&& self.seed == generator::session_seed_spec(self.n as u64)
            &&& self.pivots@.len() == self.n as nat
            &&& self.rank as nat == pivot_count(self.pivots@)
            &&& self.received as nat <= self.extra_bound()
            &&& inv_table_ok(self.inv_table@)
            &&& forall|c: int| 0 <= c < self.n as int ==> #[trigger] pivot_ok(self.pivots@, self.n as nat, self.block_size as nat, c)
        }
    }

    /// The generator row of `block_id`, eliminated against every stored
    /// pivot row: zero exactly when the row is redundant with respect to the
    /// stored system.
    pub open spec fn eliminated_row(&self, block_id: u64) -> Seq<u8> {
        eliminate_rec(
            self.pivots@,
            generator::row_spec(self.seed, self.n as nat, block_id),
            self.n as nat,
        )
    }

    /// The message the solved system denotes: the payloads in column order,
    /// trimmed of the final row's padding.
    pub open spec fn recovered_message(&self) -> Seq<u8> {
        payload_prefix(self.pivots@, self.n as nat).take(self.message_len as int)
    }

    /// Open a decoding session for a message of `message_size_bytes` bytes
    /// carried in blocks of `block_size_bytes` bytes. A session whose sizes
    /// are rejected stores the error and refuses every call.
    pub fn new(message_size_bytes: u64, block_size_bytes: u32) -> (r: WirehairDecoder)
        ensures
            r.wf(),
            r.err == decoder_create_error_spec(message_size_bytes, block_size_bytes),
            r.block_size == block_size_bytes,
            r.message_len == message_size_bytes,
            r.rank == 0,
            r.received == 0,
            r.seen@ =~= Seq::<u64>::empty(),
            !r.complete(),
            r.err is None ==> {
                &&& r.n as nat == encoder::rows_of(message_size_bytes, block_size_bytes)
                &&& r.seed == generator::session_seed_spec(r.n as u64)
                &&& forall|c: int| 0 <= c < r.n as int ==> r.pivots@[c] is None
            },
    {
        if block_size_bytes == 0 || message_size_bytes == 0 {
            return WirehairDecoder::rejected(block_size_bytes, message_size_bytes, WirehairError::InvalidInput);
        }
        let bs64 = block_size_bytes as u64;
        let q = message_size_bytes / bs64;
        let rem = message_size_bytes % bs64;
        let n64 = if rem == 0 {
            q
        } else {
            proof {
                vstd::arithmetic::div_mod::lemma_fundamental_div_mod(message_size_bytes as int, bs64 as int);
                assert(q < u64::MAX) by (nonlinear_arith)
                    requires
                        bs64 as int * (q as int) + rem as int == message_size_bytes as int,
                        rem as int >= 1,
                        bs64 as int >= 1,
                        q as int >= 0,
                        message_size_bytes <= u64::MAX;
            }
            q + 1
        };
        assert(n64 as nat == encoder::rows_of(message_size_bytes, block_size_bytes));
        if n64 < encoder::MIN_ROWS {
            return WirehairDecoder::rejected(block_size_bytes, message_size_bytes, WirehairError::BadInputSmallN);
        }
        if n64 > encoder::MAX_ROWS {
            return WirehairDecoder::rejected(block_size_bytes, message_size_bytes, WirehairError::BadInputLargeN);
        }
        proof {
            assert(n64 as int * bs64 as int <= 64000 * 0x1_0000_0000) by (nonlinear_arith)
                requires
                    n64 as int <= 64000,
                    (bs64 as int) < 0x1_0000_0000,
                    n64 as int >= 0,
                    bs64 as int >= 0;
        }
        if n64 * bs64 > usize::MAX as u64 {
            return WirehairDecoder::rejected(block_size_bytes, message_size_bytes, WirehairError::InvalidInput);
        }
        // Precompute the inverse of every nonzero field element. The search
        // can only come up empty if some nonzero element had no inverse, in
        // which case no session could ever normalize a pivot.
        let mut inv_table: Vec<u8> = Vec::new();
        inv_table.push(0u8);
        let mut b: usize = 1;
        while b < 256
            invariant
                1 <= b <= 256,
                inv_table@.len() == b,
                forall|d: int| 1 <= d < b ==> gf256::gf_mul_spec(d as u8, #[trigger] inv_table@[d]) == 1,
                encoder::create_error_spec(message_size_bytes as nat, message_size_bytes, block_size_bytes) is None,
            decreases 256 - b,
        {
            match gf256::gf_inv(b as u8) {
                Some(c) => {
                    inv_table.push(c);
                },
                None => {
                    proof {
                        assert(!field_invertible()) by {
                            assert(b as u8 != 0);
                            assert(forall|c: u8| #[trigger] gf256::gf_mul_spec(b as u8, c) != 1);
                            assert(!has_inverse(b as u8));
                        }
                        assert(encoder::create_error_spec(
                            message_size_bytes as nat,
                            message_size_bytes,
                            block_size_bytes,
                        ) is None);
                        assert(decoder_create_error_spec(message_size_bytes, block_size_bytes)
                            == Some(WirehairError::Error));
                    }
                    return WirehairDecoder::rejected(block_size_bytes, message_size_bytes, WirehairError::Error);
                },
            }
            b = b + 1;
        }
        proof {
            assert(field_invertible()) by {
                assert forall|bb: u8| bb != 0 implies #[trigger] has_inverse(bb) by {
                    assert(gf256::gf_mul_spec(bb, inv_table@[bb as int]) == 1);
                }
            }
        }
        let n = n64 as usize;
        let mut pivots: Vec<Option<PivotRow>> = Vec::new();
        let mut i: usize = 0;
        while i < n
            invariant
                i <= n,
                pivots@.len() == i,
                pivot_count(pivots@) == 0,
                forall|c: int| 0 <= c < i ==> pivots@[c] is None,
            decreases n - i,
        {
            let ghost before = pivots@;
            pivots.push(None);
            proof {
                assert(pivots@.drop_last() =~= before);
            }
            i = i + 1;
        }
        let seed = generator::session_seed(n64);
        let r = WirehairDecoder {
            block_size: block_size_bytes,
            message_len: message_size_bytes,
            n,
            seed,
            err: None,
            rank: 0,
            pivots,
            seen: Vec::new(),
            received: 0,
            inv_table,
        };
        proof {
            encoder::lemma_rows_cover_message(message_size_bytes, block_size_bytes);
        }
        r
    }

    /// A session that stores its creation error.
    fn rejected(block_size_bytes: u32, message_size_bytes: u64, e: WirehairError) -> (r: WirehairDecoder)
        ensures
            r.err == Some(e),
            r.block_size == block_size_bytes,
            r.message_len == message_size_bytes,
            r.n == 0,
            r.rank == 0,
            r.received == 0,
            r.seen@ =~= Seq::<u64>::empty(),
            r.pivots@.len() == 0,
    {
        WirehairDecoder {
            block_size: block_size_bytes,
            message_len: message_size_bytes,
            n: 0,
            seed: 0,
            err: Some(e),
            rank: 0,
            pivots: Vec::new(),
            seen: Vec::new(),
            received: 0,
            inv_table: Vec::new(),
        }
    }

    /// Consume one block. A fresh block whose generator row eliminates to
    /// zero against the stored system leaves the solver untouched; one that
    /// survives elimination raises the rank by exactly one. Repeats are
    /// recognized and ignored, so neither they nor dependent rows are errors:
    /// both report `NeedMore`. Once all columns are solved the outcome is
    /// `Success`, and it stays `Success` whatever else arrives. After a
    /// generous allowance of distinct blocks beyond `n` without reaching full
    /// rank, the session gives up with `ExtraInsufficient`.
    pub fn decode(&mut self, block_id: u64, block: &Vec<u8>, block_out_size_bytes: u32) -> (r: Result<WirehairResult, WirehairError>)
        requires
            old(self).wf(),
        ensures
            final(self).wf(),
            final(self).block_size == old(self).block_size,
            final(self).message_len == old(self).message_len,
            final(self).n == old(self).n,
            final(self).seed == old(self).seed,
            final(self).err == old(self).err,
            final(self).rank >= old(self).rank,
            forall|rows: Seq<Seq<u8>>|
                #[trigger] rows_dims(rows, old(self).n as nat, old(self).block_size as nat)
                && consistent_with(old(self).pivots@, rows, old(self).block_size as nat)
                && block@ == generator::encode_block_spec(rows, old(self).seed, old(self).block_size as nat, block_id)
                ==> consistent_with(final(self).pivots@, rows, old(self).block_size as nat),
            (match old(self).err {
                Some(e) => r == Err::<WirehairResult, WirehairError>(e) && *final(self) == *old(self),
                None => true,
            }),
            old(self).err is None && !old(self).sizes_ok(block@.len(), block_out_size_bytes) ==> {
                &&& r == Err::<WirehairResult, WirehairError>(WirehairError::InvalidInput)
                &&& *final(self) == *old(self)
            },
            old(self).err is None && old(self).sizes_ok(block@.len(), block_out_size_bytes) ==> {
                &&& (r == Ok::<WirehairResult, WirehairError>(WirehairResult::Success) <==> final(self).complete())
                &&& (old(self).complete() ==> r == Ok::<WirehairResult, WirehairError>(WirehairResult::Success) && *final(self) == *old(self))
                &&& (!old(self).complete() && old(self).seen@.contains(block_id) ==> r == Ok::<WirehairResult, WirehairError>(WirehairResult::NeedMore) && *final(self) == *old(self))
                &&& (!old(self).complete() && !old(self).seen@.contains(block_id) && old(self).received as nat >= old(self).extra_bound() ==> r == Err::<WirehairResult, WirehairError>(WirehairError::ExtraInsufficient) && *final(self) == *old(self))
                &&& (!old(self).complete() && !old(self).seen@.contains(block_id) && (old(self).received as nat) < old(self).extra_bound() ==> {
                    &&& final(self).seen@ == old(self).seen@.push(block_id)
                    &&& final(self).received == old(self).received + 1
                    &&& (old(self).eliminated_row(block_id) == generator::zero_row(old(self).n as nat)
                        ==> final(self).rank == old(self).rank && final(self).pivots@ == old(self).pivots@)
                    &&& (old(self).eliminated_row(block_id) != generator::zero_row(old(self).n as nat)
                        ==> final(self).rank == old(self).rank + 1)
                    &&& (r == Ok::<WirehairResult, WirehairError>(WirehairResult::Success) || r == Ok::<WirehairResult, WirehairError>(WirehairResult::NeedMore))
                })
            },
    {
        match self.err {
            Some(e) => {
                return Err(e);
            },
            None => {},
        }
        if block.len() != self.block_size as usize || block_out_size_bytes != self.block_size {
            return Err(WirehairError::InvalidInput);
        }
        if self.rank == self.n {
            return Ok(WirehairResult::Success);
        }
        if contains_u64(&self.seen, block_id) {
            return Ok(WirehairResult::NeedMore);
        }
        if self.received >= self.n + 64 {
            return Err(WirehairError::ExtraInsufficient);
        }
        self.seen.push(block_id);
        self.received = self.received + 1;

        let n = self.n;
        let bs = self.block_size as usize;
        let ghost mid = *self;

        // Derive the generator row for this id, materialize it for
        // elimination, and take a private copy of the payload.
        let grow = generator::generator_row(self.seed, n, block_id);
        let mut coeffs = generator::expand_row(&grow, n);
        let mut payload = gf256::copy_vec(block);
        let ghost coeffs0 = coeffs@;
        proof {
            assert(coeffs0 == generator::row_spec(mid.seed, n as nat, block_id));
            assert forall|rows: Seq<Seq<u8>>|
                #[trigger] rows_dims(rows, n as nat, bs as nat)
                && consistent_with(mid.pivots@, rows, bs as nat)
                && block@ == generator::encode_block_spec(rows, mid.seed, bs as nat, block_id)
                implies generator::combine_spec(rows, coeffs@, bs as nat) == payload@ by {
                assert(generator::row_spec(mid.seed, rows.len(), block_id) == coeffs0);
            }
        }

        // Eliminate the incoming row against every stored pivot row. After
        // this loop its coefficient is zero at every solved column, and it
        // equals the row's spec-level elimination against the stored system.
        let mut c: usize = 0;
        while c < n
            invariant
                c <= n,
                *self == mid,
                mid.wf(),
                mid.err is None,
                n == mid.n,
                bs == mid.block_size as nat,
                coeffs.len() == n,
                payload.len() == bs,
                coeffs@ == eliminate_rec(mid.pivots@, coeffs0, c as nat),
                forall|c2: int| 0 <= c2 < c && mid.pivots@[c2] is Some ==> coeffs@[c2] == 0,
                forall|rows: Seq<Seq<u8>>|
                    #[trigger] rows_dims(rows, n as nat, bs as nat)
                    && consistent_with(mid.pivots@, rows, bs as nat)
                    && block@ == generator::encode_block_spec(rows, mid.seed, bs as nat, block_id)
                    ==> generator::combine_spec(rows, coeffs@, bs as nat) == payload@,
            decreases n - c,
        {
            let fc = coeffs[c];
            if fc != 0 {
                proof {
                    assert(pivot_ok(mid.pivots@, n as nat, bs as nat, c as int));
                }
                match &self.pivots[c] {
                    Some(prow) => {
                        let ghost pc = coeffs@;
                        let ghost pp = payload@;
                        gf256::mul_add_row(&mut coeffs, &prow.coeffs, fc);
                        gf256::mul_add_row(&mut payload, &prow.payload, fc);
                        proof {
                            gf256::lemma_mul_one_right(fc);
                            gf256::lemma_mul_zero_right(fc);
                            assert(fc ^ fc == 0) by (bit_vector);
                            assert(forall|x: u8| #[trigger] (x ^ 0) == x) by (bit_vector);
                            assert(coeffs@[c as int] == 0);
                            assert forall|rows: Seq<Seq<u8>>|
                                #[trigger] rows_dims(rows, n as nat, bs as nat)
                                && consistent_with(mid.pivots@, rows, bs as nat)
                                && block@ == generator::encode_block_spec(rows, mid.seed, bs as nat, block_id)
                                implies generator::combine_spec(rows, coeffs@, bs as nat) == payload@ by {
                                assert(generator::combine_spec(rows, pc, bs as nat) == pp);
                                assert(generator::combine_spec(rows, prow.coeffs@, bs as nat) == prow.payload@);
                                generator::lemma_combine_mul_add(rows, pc, prow.coeffs@, bs as nat, n as nat, fc);
                            }
                        }
                    },
                    None => {},
                }
            }
            c = c + 1;
        }

        let ghost res = coeffs@;
        proof {
            assert(res == old(self).eliminated_row(block_id));
        }

        // Find the first still-unsolved column the row references.
        let mut piv: usize = 0;
        while piv < n && coeffs[piv] == 0
            invariant
                piv <= n,
                coeffs.len() == n,
                forall|c2: int| 0 <= c2 < piv ==> coeffs@[c2] == 0,
            decreases n - piv,
        {
            piv = piv + 1;
        }
        if piv == n {
            // The row eliminated to zero: it was linearly dependent on the
            // accepted rows and adds nothing.
            proof {
                assert(res =~= generator::zero_row(n as nat));
            }
            return Ok(WirehairResult::NeedMore);
        }
        let f = coeffs[piv];
        proof {
            assert(res != generator::zero_row(n as nat)) by {
                assert(res[piv as int] != generator::zero_row(n as nat)[piv as int]);
            }
            assert(pivot_ok(mid.pivots@, n as nat, bs as nat, piv as int));
            assert(mid.pivots@[piv as int] is None);
        }

        // Normalize the row so its pivot coefficient is one, looking the
        // inverse up in the session's precomputed table.
        let inv = self.inv_table[f as usize];
        proof {
            assert(inv_table_ok(mid.inv_table@));
            assert(gf256::gf_mul_spec(f, inv) == 1);
        }
        let ghost sc = coeffs@;
        let ghost sp = payload@;
        gf256::scale_row(&mut coeffs, inv);
        gf256::scale_row(&mut payload, inv);
        proof {
            gf256::lemma_mul_zero_left(inv);
            assert(coeffs@[piv as int] == 1);
            assert(forall|c2: int| 0 <= c2 < n && mid.pivots@[c2] is Some ==> coeffs@[c2] == 0);
            assert forall|rows: Seq<Seq<u8>>|
                #[trigger] rows_dims(rows, n as nat, bs as nat)
                && consistent_with(mid.pivots@, rows, bs as nat)
                && block@ == generator::encode_block_spec(rows, mid.seed, bs as nat, block_id)
                implies generator::combine_spec(rows, coeffs@, bs as nat) == payload@ by {
                assert(generator::combine_spec(rows, sc, bs as nat) == sp);
                generator::lemma_combine_scale(rows, sc, bs as nat, n as nat, inv);
            }
        }

        // Substitute the newly solved column into every stored row.
        let mut c0: usize = 0;
        while c0 < n
            invariant
                c0 <= n,
                mid.wf(),
                mid.err is None,
                n == mid.n,
                bs == mid.block_size as nat,
                piv < n,
                mid.pivots@[piv as int] is None,
                self.block_size == mid.block_size,
                self.message_len == mid.message_len,
                self.n == mid.n,
                self.seed == mid.seed,
                self.err == mid.err,
                self.rank == mid.rank,
                self.received == mid.received,
                self.seen@ == mid.seen@,
                self.inv_table@ == mid.inv_table@,
                self.pivots@.len() == n,
                pivot_count(self.pivots@) == pivot_count(mid.pivots@),
                forall|c2: int| 0 <= c2 < n ==> (self.pivots@[c2] is Some <==> mid.pivots@[c2] is Some),
                forall|c2: int| c0 <= c2 < n ==> self.pivots@[c2] == mid.pivots@[c2],
                coeffs.len() == n,
                payload.len() == bs,
                coeffs@[piv as int] == 1,
                forall|c2: int| 0 <= c2 < n && mid.pivots@[c2] is Some ==> coeffs@[c2] == 0,
                forall|c2: int| 0 <= c2 < c0 ==> #[trigger] back_sub_ok(self.pivots@, mid.pivots@, n as nat, bs as nat, piv as int, c2),
                forall|rows: Seq<Seq<u8>>|
                    #[trigger] rows_dims(rows, n as nat, bs as nat)
                    && consistent_with(mid.pivots@, rows, bs as nat)
                    && block@ == generator::encode_block_spec(rows, mid.seed, bs as nat, block_id)
                    ==> generator::combine_spec(rows, coeffs@, bs as nat) == payload@
                        && consistent_with(self.pivots@, rows, bs as nat),
            decreases n - c0,
        {
            proof {
                assert(pivot_ok(mid.pivots@, n as nat, bs as nat, c0 as int));
            }
            let f2 = match &self.pivots[c0] {
                Some(p) => p.coeffs[piv],
                None => 0u8,
            };
            if f2 != 0 {
                let (mut nc, mut np) = match &self.pivots[c0] {
                    Some(p) => (gf256::copy_vec(&p.coeffs), gf256::copy_vec(&p.payload)),
                    None => (Vec::new(), Vec::new()),
                };
                let ghost nc0 = nc@;
                let ghost np0 = np@;
                gf256::mul_add_row(&mut nc, &coeffs, f2);
                gf256::mul_add_row(&mut np, &payload, f2);
                let ghost before = self.pivots@;
                self.pivots.set(c0, Some(PivotRow { coeffs: nc, payload: np }));
                proof {
                    lemma_count_update(before, c0 as int, self.pivots@[c0 as int]);
                    gf256::lemma_mul_one_right(f2);
                    gf256::lemma_mul_zero_right(f2);
                    assert(f2 ^ f2 == 0) by (bit_vector);
                    assert(forall|x: u8| #[trigger] (x ^ 0) == x) by (bit_vector);
                    assert(back_sub_ok(self.pivots@, mid.pivots@, n as nat, bs as nat, piv as int, c0 as int));
                    assert forall|c2: int| 0 <= c2 < c0 implies #[trigger] back_sub_ok(self.pivots@, mid.pivots@, n as nat, bs as nat, piv as int, c2) by {
                        assert(back_sub_ok(before, mid.pivots@, n as nat, bs as nat, piv as int, c2));
                        assert(self.pivots@[c2] == before[c2]);
                    }
                    assert forall|rows: Seq<Seq<u8>>|
                        #[trigger] rows_dims(rows, n as nat, bs as nat)
                        && consistent_with(mid.pivots@, rows, bs as nat)
                        && block@ == generator::encode_block_spec(rows, mid.seed, bs as nat, block_id)
                        implies generator::combine_spec(rows, coeffs@, bs as nat) == payload@
                            && consistent_with(self.pivots@, rows, bs as nat) by {
                        assert(consistent_with(before, rows, bs as nat));
                        assert(before[c0 as int] matches Some(prow2)
                            ==> generator::combine_spec(rows, prow2.coeffs@, bs as nat) == prow2.payload@);
                        generator::lemma_combine_mul_add(rows, nc0, coeffs@, bs as nat, n as nat, f2);
                        assert forall|c2: int| 0 <= c2 < self.pivots@.len() implies (match #[trigger] self.pivots@[c2] {
                            Some(row) => generator::combine_spec(rows, row.coeffs@, bs as nat) == row.payload@,
                            None => true,
                        }) by {
                            if c2 != c0 as int {
                                assert(self.pivots@[c2] == before[c2]);
                            }
                        }
                    }
                }
            } else {
                proof {
                    assert(back_sub_ok(self.pivots@, mid.pivots@, n as nat, bs as nat, piv as int, c0 as int));
                }
            }
            c0 = c0 + 1;
        }

        // Install the new pivot row and count the solved column.
        let ghost before = self.pivots@;
        let ghost final_c = coeffs@;
        let ghost final_p = payload@;
        self.pivots.set(piv, Some(PivotRow { coeffs, payload }));
        proof {
            lemma_count_update(before, piv as int, self.pivots@[piv as int]);
            lemma_count_le_len(mid.pivots@);
        }
        self.rank = self.rank + 1;
        proof {
            assert forall|c2: int| 0 <= c2 < n implies #[trigger] pivot_ok(self.pivots@, n as nat, bs as nat, c2) by {
                if c2 == piv as int {
                    assert(forall|c3: int| 0 <= c3 < n && c3 != c2 && self.pivots@[c3] is Some ==> mid.pivots@[c3] is Some);
                } else {
                    assert(back_sub_ok(before, mid.pivots@, n as nat, bs as nat, piv as int, c2));
                }
            }
            assert forall|rows: Seq<Seq<u8>>|
                #[trigger] rows_dims(rows, n as nat, bs as nat)
                && consistent_with(mid.pivots@, rows, bs as nat)
                && block@ == generator::encode_block_spec(rows, mid.seed, bs as nat, block_id)
                implies consistent_with(self.pivots@, rows, bs as nat) by {
                assert(consistent_with(before, rows, bs as nat));
                assert(generator::combine_spec(rows, final_c, bs as nat) == final_p);
                assert forall|c2: int| 0 <= c2 < self.pivots@.len() implies (match #[trigger] self.pivots@[c2] {
                    Some(row) => generator::combine_spec(rows, row.coeffs@, bs as nat) == row.payload@,
                    None => true,
                }) by {
                    if c2 != piv as int {
                        assert(self.pivots@[c2] == before[c2]);
                    }
                }
            }
        }
        if self.rank == self.n {
            Ok(WirehairResult::Success)
        } else {
            Ok(WirehairResult::NeedMore)
        }
    }

    /// Reconstruct the message into the first `message_len` bytes of a
    /// buffer at least that large, leaving the rest of the buffer unchanged.
    /// Valid only once `decode` has reported `Success`; calling it earlier is
    /// misuse and reports `InvalidInput` without touching the output buffer.
    /// Idempotent: the session is not changed, so it may be called again.
    pub fn recover(&self, message: &mut Vec<u8>, message_size_bytes: u64) -> (r: Result<WirehairResult, WirehairError>)
        requires
            self.wf(),
        ensures
            r is Ok <==> (self.complete() && old(message)@.len() >= self.message_len as nat && message_size_bytes == self.message_len),
            r is Ok ==> {
                &&& r == Ok::<WirehairResult, WirehairError>(WirehairResult::Success)
                &&& final(message)@ == self.recovered_message() + old(message)@.skip(self.message_len as int)
            },
            r is Err ==> {
                &&& final(message)@ == old(message)@
                &&& (match self.err {
                    Some(e) => r == Err::<WirehairResult, WirehairError>(e),
                    None => r == Err::<WirehairResult, WirehairError>(WirehairError::InvalidInput),
                })
            },
    {
        match self.err {
            Some(e) => {
                return Err(e);
            },
            None => {},
        }
        if self.rank != self.n {
            return Err(WirehairError::InvalidInput);
        }
        if message_size_bytes != self.message_len || (message.len() as u64) < self.message_len {
            return Err(WirehairError::InvalidInput);
        }
        let n = self.n;
        let bs = self.block_size as usize;
        proof {
            lemma_count_full(self.pivots@);
        }
        let ml = self.message_len as usize;
        let mut out: Vec<u8> = Vec::new();
        let mut i: usize = 0;
        while i < n
            invariant
                i <= n,
                self.wf(),
                self.err is None,
                self.rank == self.n,
                n == self.n,
                bs == self.block_size as nat,
                forall|c: int| 0 <= c < n ==> self.pivots@[c] is Some,
                out.len() == i * bs,
                i * bs <= n * bs,
                out@ == payload_prefix(self.pivots@, i as nat),
            decreases n - i,
        {
            proof {
                assert(pivot_ok(self.pivots@, n as nat, bs as nat, i as int));
                assert((i + 1) * bs <= n * bs) by (nonlinear_arith)
                    requires (i as int) < n as int, bs as int >= 0;
                assert((i + 1) * bs == i * bs + bs) by (nonlinear_arith);
            }
            match &self.pivots[i] {
                Some(p) => {
                    let ghost start = out@;
                    let mut j: usize = 0;
                    while j < bs
                        invariant
                            j <= bs,
                            p.payload@.len() == bs,
                            out.len() == start.len() + j,
                            start.len() + bs <= usize::MAX,
                            out@ == start + p.payload@.take(j as int),
                        decreases bs - j,
                    {
                        out.push(p.payload[j]);
                        proof {
                            assert(out@ =~= start + p.payload@.take(j + 1));
                        }
                        j = j + 1;
                    }
                    proof {
                        assert(p.payload@.take(bs as int) =~= p.payload@);
                        assert(out@ =~= payload_prefix(self.pivots@, (i + 1) as nat));
                    }
                },
                None => {
                    proof {
                        assert(false);
                    }
                },
            }
            i = i + 1;
        }
        // Trim the final row's zero padding down to the exact message length.
        let ghost full = payload_prefix(self.pivots@, self.n as nat);
        proof {
            assert(out@.take(out.len() as int) =~= out@);
        }
        while out.len() > ml
            invariant
                out.len() >= ml,
                ml == self.message_len as nat,
                full == payload_prefix(self.pivots@, self.n as nat),
                out@.len() <= full.len(),
                out@ == full.take(out.len() as int),
            decreases out.len(),
        {
            out.pop();
            proof {
                assert(out@ =~= full.take(out.len() as int));
            }
        }
        // Write the recovered bytes in place, leaving any spare buffer tail
        // untouched.
        let mut j: usize = 0;
        while j < ml
            invariant
                j <= ml,
                out.len() == ml,
                ml == self.message_len as nat,
                out@ == self.recovered_message(),
                message.len() == old(message).len(),
                message.len() >= ml,
                forall|t: int| 0 <= t < j ==> message@[t] == out@[t],
                forall|t: int| j <= t < message@.len() ==> message@[t] == old(message)@[t],
            decreases ml - j,
        {
            let v = out[j];
            message.set(j, v);
            j = j + 1;
        }
        proof {
            assert(message@ =~= self.recovered_message() + old(message)@.skip(self.message_len as int));
        }
        Ok(WirehairResult::Success)
    }
}

/// The pivot row at column `c`, if any, carries the unit coefficient vector
/// of that column at position `c2`.
pub open spec fn solved_unit_at(p: Seq<Option<PivotRow>>, c: int, c2: int) -> bool {
    p[c] matches Some(row) ==> row.coeffs@[c2] == (if c2 == c { 1u8 } else { 0u8 })
}

/// Once recovery is possible, the solver state is fully reduced: every
/// column holds a pivot row whose coefficient vector is the unit vector of
/// that column. Each stored equation therefore states one source row
/// directly, and `recover` only concatenates the payloads.
pub proof fn lemma_complete_state_is_solved(d: &WirehairDecoder)
    requires
        d.wf(),
        d.complete(),
    ensures
        forall|c: int| 0 <= c < d.n as int ==> d.pivots@[c] is Some,
        forall|c: int, c2: int| 0 <= c < d.n as int && 0 <= c2 < d.n as int
            ==> #[trigger] solved_unit_at(d.pivots@, c, c2),
{
    lemma_count_full(d.pivots@);
    assert forall|c: int, c2: int| 0 <= c < d.n as int && 0 <= c2 < d.n as int
        implies #[trigger] solved_unit_at(d.pivots@, c, c2) by {
        assert(pivot_ok(d.pivots@, d.n as nat, d.block_size as nat, c));
    }
}

/// When every pivot payload equals the matching source row, the solved
/// payloads in order are the source rows in order.
proof fn lemma_prefix_is_concat(p: Seq<Option<PivotRow>>, rows: Seq<Seq<u8>>, k: nat)
    requires
        forall|c: int| 0 <= c < k ==> p[c] is Some,
        forall|c: int| 0 <= c < k ==> (match #[trigger] p[c] {
            Some(row) => row.payload@ == rows[c],
            None => true,
        }),
    ensures
        payload_prefix(p, k) == generator::concat_rows(rows, k),
    decreases k,
{
    if k > 0 {
        lemma_prefix_is_concat(p, rows, (k - 1) as nat);
    }
}

/// The heart of recovery: once the session is complete, any source rows the
/// accumulated system is consistent with are pinned down exactly. Every
/// pivot row has collapsed to a unit vector, so each stored equation reads
/// `payload == rows[column]`, and the recovered message is those rows laid
/// end to end, trimmed to the message length. Together with `decode`'s
/// consistency preservation and `encode`'s exact output, this says a
/// decoder fed genuine blocks of a message recovers that message.
pub proof fn lemma_complete_consistent_recovers(d: &WirehairDecoder, rows: Seq<Seq<u8>>)
    requires
        d.wf(),
        d.complete(),
        rows_dims(rows, d.n as nat, d.block_size as nat),
        consistent_with(d.pivots@, rows, d.block_size as nat),
    ensures
        forall|c: int| 0 <= c < d.n as int ==> (match #[trigger] d.pivots@[c] {
            Some(row) => row.payload@ == rows[c],
            None => true,
        }),
        d.recovered_message() == generator::concat_rows(rows, d.n as nat).take(d.message_len as int),
{
    lemma_complete_state_is_solved(d);
    assert forall|c: int| 0 <= c < d.n as int implies (match #[trigger] d.pivots@[c] {
        Some(row) => row.payload@ == rows[c],
        None => true,
    }) by {
        match d.pivots@[c] {
            Some(row) => {
                assert forall|c2: int| 0 <= c2 < d.n as int && c2 != c implies row.coeffs@[c2] == 0 by {
                    assert(solved_unit_at(d.pivots@, c, c2));
                }
                assert(solved_unit_at(d.pivots@, c, c));
                assert(pivot_ok(d.pivots@, d.n as nat, d.block_size as nat, c));
                generator::lemma_combine_unit(rows, row.coeffs@, d.block_size as nat, d.n as nat, c);
            },
            None => {},
        }
    }
    lemma_prefix_is_concat(d.pivots@, rows, d.n as nat);
}

/// Rows already substituted against the new pivot at `piv`: still reduced
/// with respect to the old solved columns, unchanged in occupancy, and now
/// zero at `piv` as well.
pub open spec fn back_sub_ok(p: Seq<Option<PivotRow>>, mid: Seq<Option<PivotRow>>, n: nat, bs: nat, piv: int, c: int) -> bool {
    p[c] matches Some(row) ==> {
        &&& row.coeffs@.len() == n
        &&& row.payload@.len() == bs
        &&& row.coeffs@[c] == 1
        &&& row.coeffs@[piv] == 0
        &&& forall|c2: int| 0 <= c2 < n && c2 != c && mid[c2] is Some ==> row.coeffs@[c2] == 0
    }
}

/// Whether a block id was already consumed.
pub(crate) fn contains_u64(v: &Vec<u64>, x: u64) -> (b: bool)
    ensures
        b == v@.contains(x),
{
    let mut i: usize = 0;
    while i < v.len()
        invariant
            i <= v@.len(),
            forall|k: int| 0 <= k < i ==> v@[k] != x,
        decreases v@.len() - i,
    {
        if v[i] == x {
            return true;
        }
        i = i + 1;
    }
    false
}

} // verus!
