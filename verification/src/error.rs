//! What can go wrong, and what is only flagged.

use vstd::prelude::*;
use crate::enums::{Chip, FlashFrequency, FlashSize};

verus! {

/// Why a row of a partition table is refused.
#[derive(Debug, Clone, Copy, PartialEq, Eq, Structural)]
pub enum RowError {
    /// The row does not have six fields.
    FieldCount,
    /// The name is longer than sixteen bytes or holds a byte that no name may hold.
    Name,
    /// The type is no keyword and no number up to 254.
    Type,
    /// The subtype is no keyword of the row's type and no number up to 255.
    Subtype,
    /// The offset is no number, is zero, or is not a multiple of 4096.
    Offset,
    /// The size is no number, is zero, or is not a multiple of 4096.
    Size,
    /// The flags are no number.
    Flags,
    /// The row starts below the start of the row before it.
    NotMonotonic,
    /// The row starts inside the row before it.
    Overlap,
    /// The row ends beyond the flash.
    ExceedsFlash,
    /// An earlier row has the same name.
    DuplicateName,
    /// An earlier row is a factory application too.
    DuplicateFactory,
}

impl RowError {
    /// The two reasons that tell of rows whose ranges are out of order or
    /// run into each other.
    pub open spec fn is_overlap_class(self) -> bool {
        self == RowError::NotMonotonic || self == RowError::Overlap
    }
}

/// A range of flash: `length` bytes from `offset` on.
#[derive(Debug, Clone, Copy, PartialEq, Eq, Structural)]
pub struct Region {
    pub offset: u32,
    pub length: usize,
}

/// A failure. Each one is final: nothing is produced beside it.
#[derive(Debug, Clone, Copy, PartialEq, Eq, Structural)]
pub enum Error {
    /// A row of a partition table is refused. In text `line` counts the
    /// lines from one; in a binary table it counts the records from one.
    MalformedRow { line: usize, reason: RowError },
    /// The record at byte `offset` of a binary table starts with no known magic.
    BadMagic { offset: usize },
    /// The digest in the record at byte `offset` is not that of the bytes before it.
    ChecksumMismatch { offset: usize },
    /// The chip has no profile.
    UnsupportedChip { chip: Chip },
    /// The chip's firmware header has no code for the flash size.
    UnsupportedFlashSize { chip: Chip, size: FlashSize },
    /// The chip's firmware header has no code for the flash frequency.
    UnsupportedFlashFrequency { chip: Chip, frequency: FlashFrequency },
    /// The partition table has no application partition.
    NoAppPartition,
    /// Two of the segments to be flashed share an address.
    OverlappingSegments { first: Region, second: Region },
    /// A write does not lie within the flash that the chip can address.
    AddressOutOfRange { address: u32, length: usize },
}

/// A part of the flash that a raw write should not touch by accident.
#[derive(Debug, Clone, Copy, PartialEq, Eq, Structural)]
pub enum ReservedRegion {
    Bootloader,
    PartitionTable,
}

/// Something that is flagged and does not stop the work.
#[derive(Debug, Clone, Copy, PartialEq, Eq, Structural)]
pub enum Warning {
    /// A raw write starts in a reserved region.
    ReservedRegionWrite { region: ReservedRegion },
}

} // verus!
