//! Errors raised while decoding a DNS message from wire bytes.

use vstd::prelude::*;

verus! {

/// Why a datagram (or a part of one) could not be decoded.
///
/// Every variant is scoped to the single datagram or question that
/// carried the offending bytes; none of them is fatal to a responder.
#[derive(Debug, Clone, Copy, PartialEq, Eq, Structural)]
pub enum Error {
    /// The datagram is smaller than the fixed 12-byte header.
    HeaderTooShort,
    /// The data ended before the structure it encodes was complete.
    UnexpectedEOF,
    /// The RDATA length does not fit the declared record type.
    WrongRdataLength,
    /// The header's reserved flag bits are not all zero.
    ReservedBitsAreNonZero,
    /// A name label starts with an undefined length/pointer tag.
    UnknownLabelFormat,
    /// The question's query type code is not recognised.
    InvalidQueryType(u16),
    /// The question's query class code is not recognised.
    InvalidQueryClass(u16),
    /// The record's type code is not recognised.
    InvalidType(u16),
    /// The record's class code is not recognised.
    InvalidClass(u16),
    /// A name label contains a byte outside the ASCII range.
    LabelIsNotAscii,
    /// An operation was attempted in a state that does not allow it.
    WrongState,
}

} // verus!
