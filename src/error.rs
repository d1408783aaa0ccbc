//! Errors of decoding and conversion.
use vstd::prelude::*;

verus! {

/// Why a payload could not be decoded; decoding is all or nothing.
#[derive(Clone, Copy, Debug, PartialEq, Eq, Structural)]
pub enum DecodeError {
    /// A field element that is not `0x`-prefixed hex below the field modulus.
    MalformedFieldElement,
    /// Text that is not standard base64.
    MalformedBase64,
    /// Bytes that are not a gzip stream.
    DecompressionFailure,
    /// Bytes that are not JSON text.
    MalformedJson,
    /// An ABI entry whose `type` is none of the known kinds.
    UnknownAbiEntryType,
    /// A field that is absent or of the wrong shape; for a contract class, a
    /// payload that fits neither schema.
    MissingRequiredField,
    /// The ABI could not be written out as compressed JSON.
    AbiSerializationError,
}

} // verus!
