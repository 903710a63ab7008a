//! Session lifecycle: process-wide initialization and the decoder-to-encoder
//! transition that reuses a solved decoder's rows to emit further blocks.

use vstd::prelude::*;
use crate::WirehairError;
use crate::decoder;
use crate::decoder::WirehairDecoder;
use crate::encoder;
use crate::encoder::WirehairEncoder;
use crate::generator;

verus! {

/// Process-wide setup of the field arithmetic unit. The bit-level field
/// routines need no precomputed tables and no special platform capability,
/// so initialization always succeeds; it is idempotent and safe to repeat.
pub fn wirehair_init() -> (r: Result<(), WirehairError>)
    ensures
        r is Ok,
{
    Ok(())
}

/// The source rows a solved decoder denotes: the payload of each column's
/// pivot row, in column order.
pub open spec fn solved_rows(d: &WirehairDecoder) -> Seq<Seq<u8>> {
    Seq::new(d.n as nat, |c: int| match d.pivots@[c] {
        Some(row) => row.payload@,
        None => Seq::<u8>::empty(),
    })
}

/// Turn a fully solved decoder into an encoder for the recovered message,
/// reusing the solved rows and the session seed instead of recomputing them.
/// Valid only once recovery is possible; earlier calls are misuse and report
/// `InvalidInput`. The decoder is consumed: the session's resources move to
/// the returned encoder.
pub fn wirehair_decoder_to_encoder(decoder: WirehairDecoder) -> (r: Result<WirehairEncoder, WirehairError>)
    requires
        decoder.wf(),
    ensures
        r is Ok <==> decoder.complete(),
        (match r {
            Ok(enc) => {
                &&& enc.wf()
                &&& enc.err is None
                &&& enc.block_size == decoder.block_size
                &&& enc.message_len == decoder.message_len
                &&& enc.seed == decoder.seed
                &&& enc.rows_model() == solved_rows(&decoder)
            },
            Err(e) => (match decoder.err {
                Some(de) => e == de,
                None => e == WirehairError::InvalidInput,
            }),
        }),
{
    match decoder.err {
        Some(e) => {
            return Err(e);
        },
        None => {},
    }
    if decoder.rank != decoder.n {
        return Err(WirehairError::InvalidInput);
    }
    proof {
        decoder::lemma_count_full(decoder.pivots@);
    }
    let n = decoder.n;
    let bs = decoder.block_size;
    let mut rows: Vec<Vec<u8>> = Vec::new();
    let mut c: usize = 0;
    while c < n
        invariant
            c <= n,
            n == decoder.n,
            decoder.wf(),
            decoder.err is None,
            decoder.rank == decoder.n,
            forall|c2: int| 0 <= c2 < n ==> decoder.pivots@[c2] is Some,
            rows@.len() == c,
            forall|c2: int| 0 <= c2 < c ==> (#[trigger] rows@[c2])@ == solved_rows(&decoder)[c2],
        decreases n - c,
    {
        proof {
            assert(decoder::pivot_ok(decoder.pivots@, n as nat, decoder.block_size as nat, c as int));
        }
        match &decoder.pivots[c] {
            Some(p) => {
                rows.push(crate::gf256::copy_vec(&p.payload));
            },
            None => {
                proof {
                    assert(false);
                }
            },
        }
        c = c + 1;
    }
    let enc = WirehairEncoder {
        rows,
        block_size: bs,
        message_len: decoder.message_len,
        seed: decoder.seed,
        err: None,
    };
    proof {
        assert(enc.rows_model() =~= solved_rows(&decoder));
        assert forall|i: int| 0 <= i < enc.rows@.len() implies (#[trigger] enc.rows@[i])@.len() == enc.block_size as nat by {
            assert(decoder::pivot_ok(decoder.pivots@, n as nat, decoder.block_size as nat, i));
        }
    }
    Ok(enc)
}

/// Determinism of encoding: the block emitted for an id is a function of the
/// source rows, the seed, and the block size alone. Two sessions that agree
/// on those — two encoders created over the same message and sizes, or an
/// original encoder and one converted from a decoder that solved the same
/// session — emit byte-identical blocks for every id.
pub proof fn lemma_encode_deterministic(e1: &WirehairEncoder, e2: &WirehairEncoder, block_id: u64)
    requires
        e1.rows_model() == e2.rows_model(),
        e1.seed == e2.seed,
        e1.block_size == e2.block_size,
    ensures
        e1.encode_output(block_id) == e2.encode_output(block_id),
{
}

/// Round-trip: a complete decoder whose accumulated system is consistent
/// with the source rows of a message of its own session sizes recovers
/// exactly that message. A fresh decoder is consistent with every
/// assignment, and `decode` preserves consistency whenever the fed block is
/// the encoder output of those rows for its id, so a session that reaches
/// completeness on genuine blocks recovers the encoded message, byte for
/// byte.
pub proof fn lemma_round_trip(dec: &WirehairDecoder, msg: Seq<u8>)
    requires
        dec.wf(),
        dec.complete(),
        msg.len() == dec.message_len as nat,
        decoder::consistent_with(
            dec.pivots@,
            encoder::source_rows_spec(msg, dec.block_size as nat, dec.n as nat),
            dec.block_size as nat,
        ),
    ensures
        dec.recovered_message() == msg,
{
    let bs = dec.block_size as nat;
    let n = dec.n as nat;
    let rows = encoder::source_rows_spec(msg, bs, n);
    assert(decoder::rows_dims(rows, n, bs));
    decoder::lemma_complete_consistent_recovers(dec, rows);
    encoder::lemma_concat_source_rows(msg, bs, n);
    assert(dec.recovered_message() =~= msg);
}

/// Decoder-to-encoder equivalence: a complete decoder consistent with a
/// message's source rows has solved exactly those rows, so the encoder it
/// converts into holds them verbatim. Since conversion also keeps the
/// session seed, `lemma_encode_deterministic` then gives byte-identical
/// blocks to the original encoder of that message, for every block id.
pub proof fn lemma_converted_rows_are_source_rows(dec: &WirehairDecoder, msg: Seq<u8>)
    requires
        dec.wf(),
        dec.complete(),
        msg.len() == dec.message_len as nat,
        decoder::consistent_with(
            dec.pivots@,
            encoder::source_rows_spec(msg, dec.block_size as nat, dec.n as nat),
            dec.block_size as nat,
        ),
    ensures
        solved_rows(dec) == encoder::source_rows_spec(msg, dec.block_size as nat, dec.n as nat),
{
    let bs = dec.block_size as nat;
    let n = dec.n as nat;
    let rows = encoder::source_rows_spec(msg, bs, n);
    assert(decoder::rows_dims(rows, n, bs));
    decoder::lemma_complete_consistent_recovers(dec, rows);
    decoder::lemma_count_full(dec.pivots@);
    assert(solved_rows(dec) =~= rows);
}

/// A decoder opened for the same sizes as an encoder derives the same seed,
/// so both sides compute every generator row independently and identically.
pub proof fn lemma_shared_seed(enc: &WirehairEncoder, dec: &WirehairDecoder)
    requires
        enc.wf(),
        dec.wf(),
        enc.err is None,
        dec.err is None,
        enc.message_len == dec.message_len,
        enc.block_size == dec.block_size,
        enc.seed == generator::session_seed_spec(encoder::rows_of(enc.message_len, enc.block_size) as u64),
    ensures
        enc.seed == dec.seed,
        enc.n() == dec.n as nat,
{
}

} // verus!
