//! A converter between a structured mesh file format and its in-memory
//! representation, built around a verified binary-to-text codec: a
//! length-prefixed, endianness-aware base64 encoder and decoder operating
//! over typed numeric arrays.

pub mod base64;
pub mod vtk;

use vstd::prelude::*;

verus! {

/// Why a decode or parse operation rejected its input. Every detected
/// inconsistency is reported to the caller, who decides whether to abort
/// the whole conversion or skip the offending section.
#[derive(Clone, Copy, Debug, PartialEq, Eq, Structural)]
pub enum CodecError {
    /// The decoded buffer is too short for its own length header.
    MalformedLength,
    /// A data section declares an element type other than the one the
    /// caller asked to read.
    TypeMismatch,
    /// A data section uses a text encoding this codec does not handle.
    UnsupportedFormat,
}

} // verus!
