use vstd::prelude::*;

verus! {

/// Errors reported while decoding an archive. None of these is recovered
/// internally: a malformed or truncated archive is a hard stop for the stream.
#[derive(Clone, Copy, Debug, PartialEq, Eq, Structural)]
pub enum TarError {
    /// The source ran dry while skipping to, or while reading, a block that
    /// the archive declared to exist.
    UnexpectedEndOfArchive,
    /// The 12-byte size field is neither a well-formed octal field
    /// (11 octal digits and a trailing space) nor the recognized restricted
    /// binary pattern (marker byte 0x80 with zero reserved bytes).
    MalformedSizeField,
    /// The decoded size is representable on the wire but too large for this
    /// machine to track as a byte count.
    OversizedField,
}

} // verus!
