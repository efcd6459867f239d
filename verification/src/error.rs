use vstd::prelude::*;
use crate::encoding::Encoding;

verus! {

/// Why a response could not be decoded.  The response it was raised for is
/// left exactly as it arrived: still encoded, headers untouched.
#[derive(Debug, PartialEq, Eq)]
pub enum DecodeError {
    /// The `Content-Encoding` header holds a token that names no known
    /// coding; `offending_token` is that token, trimmed, the first such in
    /// header order.
    InvalidEncodingChain { offending_token: Vec<u8> },
    /// A codec rejected its input (corrupt or truncated data).  `encoding`
    /// is the coding that failed, `chain_position` its position in the
    /// decode chain, and `cause` the codec's own account of the failure.
    DecodeFailed { encoding: Encoding, chain_position: usize, cause: String },
}

} // verus!
