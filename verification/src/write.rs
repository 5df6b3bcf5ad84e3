//! The raw write planner: one write of arbitrary bytes at an address of
//! the caller's choice.

use vstd::prelude::*;
use crate::chip::{profile_for, profile_spec, ChipProfile};
use crate::enums::Chip;
use crate::error::{Error, ReservedRegion, Warning};

verus! {

/// A write that may be handed to a transport.
#[derive(Debug, PartialEq, Eq)]
pub struct WritePlan {
    pub address: u32,
    pub data: Vec<u8>,
    /// What the caller should be told before the write is made.
    pub warning: Option<Warning>,
}

/// A write plan as a mathematical value.
pub struct WritePlanView {
    pub address: u32,
    pub data: Seq<u8>,
    pub warning: Option<Warning>,
}

impl View for WritePlan {
    type V = WritePlanView;

    open spec fn view(&self) -> WritePlanView {
        WritePlanView { address: self.address, data: self.data@, warning: self.warning }
    }
}

/// The reserved region in which `address` lies: the bootloader's, from its
/// offset up to the partition table, or the sector of the partition table.
pub open spec fn reserved_region(profile: ChipProfile, address: u32) -> Option<ReservedRegion> {
    if profile.bootloader_offset <= address < profile.partition_table_offset {
        Some(ReservedRegion::Bootloader)
    } else if profile.partition_table_offset <= address < profile.partition_table_offset + 4096 {
        Some(ReservedRegion::PartitionTable)
    } else {
        None
    }
}

/// What `plan_write` returns. A chip without a profile is refused, then a
/// write that starts or ends beyond the flash that the chip can address. A
/// write that starts in a reserved region is planned all the same, with a
/// warning.
pub open spec fn plan_write_spec(address: u32, data: Seq<u8>, chip: Chip) -> Result<
    WritePlanView,
    Error,
> {
    match profile_spec(chip) {
        None => Err(Error::UnsupportedChip { chip }),
        Some(profile) => if address >= profile.flash_limit || address + data.len()
            > profile.flash_limit {
            Err(Error::AddressOutOfRange { address, length: data.len() as usize })
        } else {
            Ok(
                WritePlanView {
                    address,
                    data,
                    warning: match reserved_region(profile, address) {
                        Some(region) => Some(Warning::ReservedRegionWrite { region }),
                        None => None,
                    },
                },
            )
        },
    }
}

/// Plans the write of `data` at `address` on `chip`.
pub fn plan_write(address: u32, data: Vec<u8>, chip: Chip) -> (r: Result<WritePlan, Error>)
    ensures
        match plan_write_spec(address, data@, chip) {
            Ok(plan) => r is Ok && r->Ok_0@ == plan,
            Err(e) => r is Err && r->Err_0 == e,
        },
{
    let profile = match profile_for(chip) {
        Ok(p) => p,
        Err(e) => {
            return Err(e);
        },
    };
    if address >= profile.flash_limit || data.len() > (profile.flash_limit - address) as usize {
        return Err(Error::AddressOutOfRange { address, length: data.len() });
    }
    let warning = if profile.bootloader_offset <= address && address
        < profile.partition_table_offset {
        Some(Warning::ReservedRegionWrite { region: ReservedRegion::Bootloader })
    } else if profile.partition_table_offset <= address && address - profile.partition_table_offset
        < 4096 {
        Some(Warning::ReservedRegionWrite { region: ReservedRegion::PartitionTable })
    } else {
        None
    };
    Ok(WritePlan { address, data, warning })
}

} // verus!
