//! The typed failures of decoding and encoding.

use vstd::prelude::*;

verus! {

/// The textual fields whose width is limited.
#[derive(Clone, Copy, Debug, PartialEq, Eq, Structural)]
pub enum NameField {
    /// The name of a section.
    SectionName,
    /// The name of a segment.
    SegmentName,
    /// The trailing path of a library, linker or run-path command.
    Path,
}

/// Why a byte buffer could not be decoded.
#[derive(Clone, Copy, Debug, PartialEq, Eq, Structural)]
pub enum DecodeError {
    /// The first four bytes of a header, read most significant byte first,
    /// are none of the magic numbers that the header may start with.
    UnrecognizedMagic(u32),
    /// A record needs `needed` bytes from its start, and only `available`
    /// are left in the buffer.
    TruncatedInput(u64, u64),
    /// The command with this tag declares this size, which its own layout
    /// contradicts.
    InvalidCommandSize(u32, u32),
    /// The header declares this many commands; the commands decoded so far
    /// span `consumed_bytes`, which disagrees with the total size that the
    /// header declares (the third field).
    CommandCountMismatch(u32, u64, u32),
    /// An architecture slot points to this offset, which lies beyond the
    /// end of the buffer.
    SeekOutOfRange(u32),
}

/// Why a value could not be encoded.
#[derive(Clone, Copy, Debug, PartialEq, Eq, Structural)]
pub enum EncodeError {
    /// The magic number of the header, with this code, does not belong to
    /// the kind of header that is being written.
    UnrecognizedMagic(u32),
    /// The command with this tag carries this size, which cannot hold its
    /// own layout.
    InvalidCommandSize(u32, u32),
    /// The text of this field takes more than `max_len` bytes.
    NameTooLong(NameField, u32),
    /// An architecture slot asks for its header at this offset, which lies
    /// before the end of what has been written already.
    SeekOutOfRange(u32),
    /// A count or a size does not fit the 32-bit field that has to hold it.
    TooLarge,
}

} // verus!
