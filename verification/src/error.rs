//! The error taxonomy shared by all decoders.

use vstd::prelude::*;

verus! {

/// Result alias used by every decoder in the crate.
pub type ReadResult<T> = Result<T, ReadError>;

/// How a decode can fail.
///
/// - `IO`: the input ended before the structure it promises (truncation).
/// - `Signature`: the leading magic bytes are not this format's.
/// - `Decoding`: a structural invariant inside the format is violated
///   (checksum mismatch, size mismatch, field that must be zero).
#[derive(Clone, Copy, Debug)]
pub enum ReadError {
    IO,
    Signature,
    Decoding(&'static str),
}

} // verus!
