//! The encoder: holds the message partitioned into fixed-size source rows
//! and, on request for any block id, folds the rows selected by the block
//! generator into an output buffer. Encoding never mutates the session, so
//! one id always yields the same bytes.

use vstd::prelude::*;
use crate::WirehairError;
use crate::WirehairResult;
use crate::gf256;
use crate::generator;

verus! {

/// The smallest supported row count.
pub const MIN_ROWS: u64 = 2;

/// The largest supported row count.
pub const MAX_ROWS: u64 = 64000;

/// The row count for a message of `ml` bytes in rows of `bs` bytes:
/// `ceil(ml / bs)`.
pub open spec fn rows_of(ml: u64, bs: u32) -> nat
    recommends
        bs > 0,
{
    ((ml as int) / (bs as int) + if ml as int % bs as int == 0 { 0int } else { 1int }) as nat
}

/// The error, if any, that creating a session with these sizes reports:
/// degenerate sizes or a mismatched buffer are invalid input, and the row
/// count must lie in the supported range and fit in memory.
pub open spec fn create_error_spec(msg_len: nat, message_size_bytes: u64, block_size_bytes: u32) -> Option<WirehairError> {
    if block_size_bytes == 0 || message_size_bytes == 0 || msg_len != message_size_bytes as nat {
        Some(WirehairError::InvalidInput)
    } else if rows_of(message_size_bytes, block_size_bytes) < MIN_ROWS as nat {
        Some(WirehairError::BadInputSmallN)
    } else if rows_of(message_size_bytes, block_size_bytes) > MAX_ROWS as nat {
        Some(WirehairError::BadInputLargeN)
    } else if rows_of(message_size_bytes, block_size_bytes) * (block_size_bytes as nat) > usize::MAX as nat {
        Some(WirehairError::InvalidInput)
    } else {
        None
    }
}

/// Source row `i` of the message: `bs` bytes starting at `i * bs`, the tail
/// zero-padded.
pub open spec fn source_row_spec(msg: Seq<u8>, bs: nat, i: int) -> Seq<u8> {
    Seq::new(bs, |j: int| if i * (bs as int) + j < msg.len() { msg[i * (bs as int) + j] } else { 0u8 })
}

/// The message partitioned into `n` source rows of `bs` bytes each.
pub open spec fn source_rows_spec(msg: Seq<u8>, bs: nat, n: nat) -> Seq<Seq<u8>> {
    Seq::new(n, |i: int| source_row_spec(msg, bs, i))
}

/// One encoding session: the source rows, the session seed, and the sizes
/// they were derived from. A session whose creation parameters were rejected
/// carries the error instead and refuses every encode call.
pub struct WirehairEncoder {
    /// The message partitioned into rows of `block_size` bytes, the last row
    /// zero-padded.
    pub rows: Vec<Vec<u8>>,
    /// The configured block size in bytes.
    pub block_size: u32,
    /// The exact message length in bytes.
    pub message_len: u64,
    /// The seed the block generator runs under.
    pub seed: u64,
    /// The creation-time error, if the sizes were rejected.
    pub err: Option<WirehairError>,
}

impl WirehairEncoder {
    /// The number of source rows.
    pub open spec fn n(&self) -> nat {
        self.rows@.len()
    }

    /// The source rows as byte sequences.
    pub open spec fn rows_model(&self) -> Seq<Seq<u8>> {
        Seq::new(self.rows@.len(), |i: int| self.rows@[i]@)
    }

    /// Session well-formedness: a live session has a supported row count,
    /// rows of exactly the configured size, and sizes that agree with the
    /// partition.
    pub open spec fn wf(&self) -> bool {
        self.err is None ==> {
            &&& MIN_ROWS as nat <= self.n() <= MAX_ROWS as nat
            &&& self.block_size >= 1
            &&& self.message_len >= 1
            &&& self.n() == rows_of(self.message_len, self.block_size)
            &&& self.message_len as nat <= self.n() * (self.block_size as nat)
            &&& self.n() * (self.block_size as nat) <= usize::MAX as nat
            &&& forall|i: int| 0 <= i < self.rows@.len() ==> (#[trigger] self.rows@[i])@.len() == self.block_size as nat
        }
    }

    /// The bytes this session emits for `block_id`.
    pub open spec fn encode_output(&self, block_id: u64) -> Seq<u8> {
        generator::encode_block_spec(self.rows_model(), self.seed, self.block_size as nat, block_id)
    }

    /// Open a session: partition `message` into `ceil(message_size_bytes /
    /// block_size_bytes)` source rows and derive the session seed. A session
    /// whose sizes are rejected is returned with the error stored; its
    /// `encode` reports that error.
    pub fn new(message: &Vec<u8>, message_size_bytes: u64, block_size_bytes: u32) -> (r: WirehairEncoder)
        ensures
            r.wf(),
            r.err == create_error_spec(message@.len(), message_size_bytes, block_size_bytes),
            r.err is None ==> {
                &&& r.block_size == block_size_bytes
                &&& r.message_len == message_size_bytes
                &&& r.seed == generator::session_seed_spec(rows_of(message_size_bytes, block_size_bytes) as u64)
                &&& r.rows_model() == source_rows_spec(message@, block_size_bytes as nat, rows_of(message_size_bytes, block_size_bytes))
            },
    {
        if block_size_bytes == 0 || message_size_bytes == 0 || message.len() as u64 != message_size_bytes {
            return WirehairEncoder::rejected(block_size_bytes, message_size_bytes, WirehairError::InvalidInput);
        }
        let bs64 = block_size_bytes as u64;
        let q = message_size_bytes / bs64;
        let rem = message_size_bytes % bs64;
        let n64 = if rem == 0 {
            q
        } else {
            proof {
                vstd::arithmetic::div_mod::lemma_fundamental_div_mod(message_size_bytes as int, bs64 as int);
                assert(q < u64::MAX) by (nonlinear_arith)
                    requires
                        bs64 as int * (q as int) + rem as int == message_size_bytes as int,
                        rem as int >= 1,
                        bs64 as int >= 1,
                        q as int >= 0,
                        message_size_bytes <= u64::MAX;
            }
            q + 1
        };
        assert(n64 as nat == rows_of(message_size_bytes, block_size_bytes));
        if n64 < MIN_ROWS {
            return WirehairEncoder::rejected(block_size_bytes, message_size_bytes, WirehairError::BadInputSmallN);
        }
        if n64 > MAX_ROWS {
            return WirehairEncoder::rejected(block_size_bytes, message_size_bytes, WirehairError::BadInputLargeN);
        }
        proof {
            assert(n64 as int * bs64 as int <= 64000 * 0x1_0000_0000) by (nonlinear_arith)
                requires
                    n64 as int <= 64000,
                    (bs64 as int) < 0x1_0000_0000,
                    n64 as int >= 0,
                    bs64 as int >= 0;
        }
        if n64 * bs64 > usize::MAX as u64 {
            return WirehairEncoder::rejected(block_size_bytes, message_size_bytes, WirehairError::InvalidInput);
        }
        let n = n64 as usize;
        let bs = block_size_bytes as usize;
        let ghost msg = message@;
        let mut rows: Vec<Vec<u8>> = Vec::new();
        let mut i: usize = 0;
        while i < n
            invariant
                i <= n,
                rows@.len() == i,
                n * bs <= usize::MAX,
                bs == block_size_bytes,
                n >= 1,
                msg == message@,
                msg.len() == message_size_bytes,
                forall|i2: int| 0 <= i2 < i ==> (#[trigger] rows@[i2])@ == source_row_spec(msg, bs as nat, i2),
            decreases n - i,
        {
            let mut row: Vec<u8> = Vec::new();
            let mut j: usize = 0;
            assert(i * bs + bs <= n * bs) by (nonlinear_arith)
                requires i < n, bs >= 0;
            while j < bs
                invariant
                    j <= bs,
                    row@.len() == j,
                    i * bs + bs <= usize::MAX,
                    msg == message@,
                    forall|j2: int| 0 <= j2 < j ==> row@[j2] == source_row_spec(msg, bs as nat, i as int)[j2],
                decreases bs - j,
            {
                let idx = i * bs + j;
                let b = if idx < message.len() { message[idx] } else { 0u8 };
                assert(b == source_row_spec(msg, bs as nat, i as int)[j as int]);
                row.push(b);
                j = j + 1;
            }
            assert(row@ =~= source_row_spec(msg, bs as nat, i as int));
            rows.push(row);
            i = i + 1;
        }
        let seed = generator::session_seed(n64);
        let r = WirehairEncoder {
            rows,
            block_size: block_size_bytes,
            message_len: message_size_bytes,
            seed,
            err: None,
        };
        proof {
            assert(r.rows_model() =~= source_rows_spec(msg, block_size_bytes as nat, n as nat));
            lemma_rows_cover_message(message_size_bytes, block_size_bytes);
        }
        r
    }

    /// A session that stores its creation error.
    fn rejected(block_size_bytes: u32, message_size_bytes: u64, e: WirehairError) -> (r: WirehairEncoder)
        ensures
            r.err == Some(e),
            r.block_size == block_size_bytes,
            r.message_len == message_size_bytes,
            r.rows@.len() == 0,
            r.seed == 0,
    {
        WirehairEncoder {
            rows: Vec::new(),
            block_size: block_size_bytes,
            message_len: message_size_bytes,
            seed: 0,
            err: Some(e),
        }
    }

    /// Emit the block for `block_id` into the first `block_size` bytes of
    /// `block`, leaving any spare buffer tail unchanged: evaluate the
    /// generator row for the id and fold the selected source rows into the
    /// buffer. A pure function of the session and the id; the session never
    /// changes.
    pub fn encode(&self, block_id: u64, block: &mut Vec<u8>, block_size: u32, block_out_bytes: &mut u32) -> (r: Result<WirehairResult, WirehairError>)
        requires
            self.wf(),
        ensures
            r is Ok <==> (self.err is None && old(block).len() >= self.block_size as nat && block_size == self.block_size),
            r is Ok ==> {
                &&& r == Ok::<WirehairResult, WirehairError>(WirehairResult::Success)
                &&& final(block)@ == self.encode_output(block_id) + old(block)@.skip(self.block_size as int)
                &&& *final(block_out_bytes) == self.block_size
            },
            r is Err ==> {
                &&& final(block)@ == old(block)@
                &&& *final(block_out_bytes) == *old(block_out_bytes)
                &&& (match self.err {
                    Some(e) => r == Err::<WirehairResult, WirehairError>(e),
                    None => r == Err::<WirehairResult, WirehairError>(WirehairError::InvalidInput),
                })
            },
    {
        match self.err {
            Some(e) => {
                return Err(e);
            },
            None => {},
        }
        if block.len() < self.block_size as usize || block_size != self.block_size {
            return Err(WirehairError::InvalidInput);
        }
        let n = self.rows.len();
        let grow = generator::generator_row(self.seed, n, block_id);
        let ghost target = generator::row_spec(self.seed, n as nat, block_id);
        let mut out = generator::make_zero_row(self.block_size as usize);
        match &grow {
            generator::GeneratorRow::Dense(coeffs) => {
                let mut i: usize = 0;
                while i < n
                    invariant
                        i <= n,
                        n == self.rows@.len(),
                        self.wf(),
                        self.err is None,
                        coeffs.len() == n,
                        coeffs@ == target,
                        out.len() == self.block_size as nat,
                        out@ == generator::combine_rec(self.rows_model(), coeffs@, self.block_size as nat, i as nat),
                    decreases n - i,
                {
                    let c = coeffs[i];
                    gf256::mul_add_row(&mut out, &self.rows[i], c);
                    assert(self.rows_model()[i as int] == self.rows@[i as int]@);
                    i = i + 1;
                }
                assert(out@ == generator::combine_spec(self.rows_model(), target, self.block_size as nat));
            },
            generator::GeneratorRow::Peel(entries) => {
                // Fold only the sparse placements: each adds its scaled
                // source row, which agrees with combining under the row's
                // dense expansion.
                proof {
                    generator::lemma_combine_zero(self.rows_model(), generator::zero_row(n as nat), self.block_size as nat, n as nat);
                }
                let mut k: usize = 0;
                while k < entries.len()
                    invariant
                        k <= entries@.len(),
                        n == self.rows@.len(),
                        n >= 1,
                        self.wf(),
                        self.err is None,
                        forall|t: int| 0 <= t < entries@.len() ==> (#[trigger] entries@[t]).0 < n,
                        out.len() == self.block_size as nat,
                        out@ == generator::combine_spec(self.rows_model(), generator::expand_rec(entries@, n as nat, k as nat), self.block_size as nat),
                    decreases entries@.len() - k,
                {
                    let (pos, cf) = entries[k];
                    proof {
                        generator::lemma_expand_len(entries@, n as nat, k as nat);
                        generator::lemma_combine_update(
                            self.rows_model(),
                            generator::expand_rec(entries@, n as nat, k as nat),
                            self.block_size as nat,
                            n as nat,
                            pos as int,
                            cf,
                        );
                        assert(self.rows_model()[pos as int] == self.rows@[pos as int]@);
                    }
                    gf256::mul_add_row(&mut out, &self.rows[pos], cf);
                    k = k + 1;
                }
                proof {
                    assert(generator::row_coeffs(grow, n as nat)
                        == generator::expand_rec(entries@, n as nat, entries@.len()));
                    assert(out@ == generator::combine_spec(self.rows_model(), target, self.block_size as nat));
                }
            },
        }
        // Write the block in place, leaving any spare buffer tail untouched.
        let bs_exec = self.block_size as usize;
        let mut j: usize = 0;
        while j < bs_exec
            invariant
                j <= bs_exec,
                out.len() == bs_exec,
                bs_exec == self.block_size as nat,
                out@ == self.encode_output(block_id),
                block.len() == old(block).len(),
                block.len() >= bs_exec,
                forall|t: int| 0 <= t < j ==> block@[t] == out@[t],
                forall|t: int| j <= t < block@.len() ==> block@[t] == old(block)@[t],
            decreases bs_exec - j,
        {
            let v = out[j];
            block.set(j, v);
            j = j + 1;
        }
        proof {
            assert(block@ =~= self.encode_output(block_id) + old(block)@.skip(self.block_size as int));
        }
        *block_out_bytes = self.block_size;
        Ok(WirehairResult::Success)
    }
}

/// The source rows laid end to end are the message bytes followed by the
/// final row's zero padding.
pub proof fn lemma_concat_source_rows(msg: Seq<u8>, bs: nat, k: nat)
    ensures
        generator::concat_rows(source_rows_spec(msg, bs, k), k)
            == Seq::new(k * bs, |t: int| if t < msg.len() { msg[t] } else { 0u8 }),
    decreases k,
{
    let rows = source_rows_spec(msg, bs, k);
    if k > 0 {
        lemma_concat_source_rows(msg, bs, (k - 1) as nat);
        assert(source_rows_spec(msg, bs, (k - 1) as nat) =~= rows.subrange(0, k - 1));
        assert(generator::concat_rows(source_rows_spec(msg, bs, (k - 1) as nat), (k - 1) as nat)
            == generator::concat_rows(rows, (k - 1) as nat)) by {
            lemma_concat_rows_prefix(source_rows_spec(msg, bs, (k - 1) as nat), rows, (k - 1) as nat);
        }
        assert((k - 1) * bs + bs == k * bs) by (nonlinear_arith);
        assert(generator::concat_rows(rows, k)
            =~= Seq::new(k * bs, |t: int| if t < msg.len() { msg[t] } else { 0u8 })) by {
            assert forall|t: int| 0 <= t < k * bs implies generator::concat_rows(rows, k)[t]
                == (if t < msg.len() { msg[t] } else { 0u8 }) by {
                if t < (k - 1) * bs {
                } else {
                    let j = t - (k - 1) * bs;
                    assert(rows[k - 1][j] == (if (k - 1) * bs + j < msg.len() { msg[(k - 1) * bs + j] } else { 0u8 }));
                }
            }
        }
    } else {
        assert(generator::concat_rows(rows, 0)
            =~= Seq::new(0 * bs, |t: int| if t < msg.len() { msg[t] } else { 0u8 }));
    }
}

/// Concatenation of a prefix reads only the rows below `k`.
proof fn lemma_concat_rows_prefix(r1: Seq<Seq<u8>>, r2: Seq<Seq<u8>>, k: nat)
    requires
        forall|i: int| 0 <= i < k ==> r1[i] == r2[i],
    ensures
        generator::concat_rows(r1, k) == generator::concat_rows(r2, k),
    decreases k,
{
    if k > 0 {
        lemma_concat_rows_prefix(r1, r2, (k - 1) as nat);
    }
}

/// The padded rows cover the whole message: `n` rows of `bs` bytes hold at
/// least `ml` bytes when `n = ceil(ml / bs)`.
pub proof fn lemma_rows_cover_message(ml: u64, bs: u32)
    requires
        bs > 0,
        ml > 0,
    ensures
        ml as nat <= rows_of(ml, bs) * (bs as nat),
{
    let m = ml as int;
    let b = bs as int;
    let q = m / b;
    let r = m % b;
    vstd::arithmetic::div_mod::lemma_fundamental_div_mod(m, b);
    if r == 0 {
        assert(rows_of(ml, bs) * (bs as nat) == q * b) by (nonlinear_arith)
            requires rows_of(ml, bs) == q, b == bs as int, bs > 0, q >= 0;
    } else {
        assert((q + 1) * b == q * b + b) by (nonlinear_arith);
        assert(rows_of(ml, bs) * (bs as nat) == q * b + b) by (nonlinear_arith)
            requires rows_of(ml, bs) == q + 1, b == bs as int, bs > 0, q >= 0;
    }
}

} // verus!
