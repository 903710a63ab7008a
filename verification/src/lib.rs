//! A rateless erasure-coding codec over GF(256).
//!
//! A message is split into `N` fixed-size source rows. An encoder turns any
//! 64-bit block id into a redundancy block: a deterministic linear combination
//! of the source rows over GF(256). A decoder collects `(block_id, row)`
//! pairs in any order, with arbitrary loss and repetition, and reconstructs
//! the message once it has accumulated `N` linearly independent rows.

use vstd::prelude::*;

mod gf256;
mod generator;
mod encoder;
mod decoder;
mod lifecycle;

pub use decoder::WirehairDecoder;
pub use encoder::WirehairEncoder;
pub use gf256::gf_add;
pub use gf256::gf_mul;
pub use gf256::gf_div;
pub use gf256::gf_inv;
pub use lifecycle::wirehair_init;
pub use lifecycle::wirehair_decoder_to_encoder;

verus! {

/// Failure outcomes of codec operations. Every fallible operation reports one
/// specific kind; none of them aborts the process.
#[derive(Clone, Copy, Debug, PartialEq, Eq, Structural)]
pub enum WirehairError {
    /// A function parameter was invalid, or an operation was called in a
    /// state that does not allow it.
    InvalidInput,
    /// No acceptable dense seed was found within the retry budget.
    BadDenseSeed,
    /// No acceptable peel seed was found within the retry budget.
    BadPeelSeed,
    /// N = ceil(message_len / block_size) is too small.
    BadInputSmallN,
    /// N = ceil(message_len / block_size) is too large.
    BadInputLargeN,
    /// A generous number of extra rows beyond N was consumed and the system
    /// is still not solvable; the caller should give up on this session.
    ExtraInsufficient,
    /// An unexpected internal error.
    Error,
    /// Row storage could not be allocated.
    OOM,
    /// The platform lacks a required capability.
    UnsupportedPlatform,
}

/// Successful outcomes of codec operations.
#[derive(Clone, Copy, Debug, PartialEq, Eq, Structural)]
pub enum WirehairResult {
    /// The operation completed; for `decode`, recovery is now possible.
    Success,
    /// More blocks are needed before recovery is possible; this is a normal
    /// outcome, not an error.
    NeedMore,
    /// A result code that maps to neither a success nor a known error.
    Internal,
}

/// The raw result code produced by the codec core before it is split into
/// the success and error channels.
#[derive(Clone, Copy, Debug, PartialEq, Eq, Structural)]
pub enum WirehairResultCode {
    Success,
    NeedMore,
    InvalidInput,
    BadDenseSeed,
    BadPeelSeed,
    BadInputSmallN,
    BadInputLargeN,
    ExtraInsufficient,
    Error,
    OOM,
    UnsupportedPlatform,
    Count,
    Padding,
}

/// The mapping from a raw result code to the two-channel result.
pub open spec fn parse_result_spec(result: WirehairResultCode) -> Result<WirehairResult, WirehairError> {
    match result {
        WirehairResultCode::InvalidInput => Err(WirehairError::InvalidInput),
        WirehairResultCode::BadDenseSeed => Err(WirehairError::BadDenseSeed),
        WirehairResultCode::BadPeelSeed => Err(WirehairError::BadPeelSeed),
        WirehairResultCode::BadInputSmallN => Err(WirehairError::BadInputSmallN),
        WirehairResultCode::BadInputLargeN => Err(WirehairError::BadInputLargeN),
        WirehairResultCode::ExtraInsufficient => Err(WirehairError::ExtraInsufficient),
        WirehairResultCode::Error => Err(WirehairError::Error),
        WirehairResultCode::OOM => Err(WirehairError::OOM),
        WirehairResultCode::UnsupportedPlatform => Err(WirehairError::UnsupportedPlatform),
        WirehairResultCode::Success => Ok(WirehairResult::Success),
        WirehairResultCode::NeedMore => Ok(WirehairResult::NeedMore),
        _ => Ok(WirehairResult::Internal),
    }
}

/// Splits a raw result code into the success channel (`Success`, `NeedMore`,
/// or `Internal` for unclassified codes) and the error channel.
pub fn parse_wirehair_result(result: WirehairResultCode) -> (r: Result<WirehairResult, WirehairError>)
    ensures
        r == parse_result_spec(result),
{
    match result {
        WirehairResultCode::InvalidInput => Err(WirehairError::InvalidInput),
        WirehairResultCode::BadDenseSeed => Err(WirehairError::BadDenseSeed),
        WirehairResultCode::BadPeelSeed => Err(WirehairError::BadPeelSeed),
        WirehairResultCode::BadInputSmallN => Err(WirehairError::BadInputSmallN),
        WirehairResultCode::BadInputLargeN => Err(WirehairError::BadInputLargeN),
        WirehairResultCode::ExtraInsufficient => Err(WirehairError::ExtraInsufficient),
        WirehairResultCode::Error => Err(WirehairError::Error),
        WirehairResultCode::OOM => Err(WirehairError::OOM),
        WirehairResultCode::UnsupportedPlatform => Err(WirehairError::UnsupportedPlatform),
        WirehairResultCode::Success => Ok(WirehairResult::Success),
        WirehairResultCode::NeedMore => Ok(WirehairResult::NeedMore),
        WirehairResultCode::Count => Ok(WirehairResult::Internal),
        WirehairResultCode::Padding => Ok(WirehairResult::Internal),
    }
}

/// The explanatory text of each error kind.
pub open spec fn error_message_spec(e: WirehairError) -> Seq<char> {
    match e {
        WirehairError::InvalidInput => "A function parameter was invalid"@,
        WirehairError::BadDenseSeed => "Encoder needs a better dense seed"@,
        WirehairError::BadPeelSeed => "Encoder needs a better peel seed"@,
        WirehairError::BadInputSmallN => "Too less blocks! Try reducing block size or use a larger message"@,
        WirehairError::BadInputLargeN => "Too many blocks! Try increasing block_size or use a smaller message"@,
        WirehairError::ExtraInsufficient => "Not enough extra rows to solve it, possibly corrupted data"@,
        WirehairError::Error => "Unexpected error"@,
        WirehairError::OOM => "Out of memory"@,
        WirehairError::UnsupportedPlatform => "Platform is not supported yet"@,
    }
}

impl WirehairError {
    /// A human-readable description of the error.
    pub fn message(&self) -> (s: &'static str)
        ensures
            s@ == error_message_spec(*self),
    {
        match *self {
            WirehairError::InvalidInput => "A function parameter was invalid",
            WirehairError::BadDenseSeed => "Encoder needs a better dense seed",
            WirehairError::BadPeelSeed => "Encoder needs a better peel seed",
            WirehairError::BadInputSmallN => "Too less blocks! Try reducing block size or use a larger message",
            WirehairError::BadInputLargeN => "Too many blocks! Try increasing block_size or use a smaller message",
            WirehairError::ExtraInsufficient => "Not enough extra rows to solve it, possibly corrupted data",
            WirehairError::Error => "Unexpected error",
            WirehairError::OOM => "Out of memory",
            WirehairError::UnsupportedPlatform => "Platform is not supported yet",
        }
    }
}

} // verus!
