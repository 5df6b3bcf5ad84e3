//! The chip profile table: where each supported chip keeps its bootloader,
//! its partition table and its application, and how its firmware header
//! spells flash sizes and frequencies.

use vstd::prelude::*;
use crate::enums::{Chip, FlashFrequency, FlashSize};
use crate::error::Error;

verus! {

/// The constants of one chip family.
#[derive(Debug, Clone, Copy, PartialEq, Eq, Structural)]
pub struct ChipProfile {
    pub chip: Chip,
    /// The number by which an image names the chip it was built for.
    pub chip_id: u16,
    /// Where the second-stage bootloader starts.
    pub bootloader_offset: u32,
    /// Where the partition table starts; it takes one sector.
    pub partition_table_offset: u32,
    /// Where the application starts when no table says otherwise.
    pub app_offset_default: u32,
    /// The first address beyond the flash that the chip can address.
    pub flash_limit: u32,
}

/// The profile of `chip`, where it has one.
pub open spec fn profile_spec(chip: Chip) -> Option<ChipProfile> {
    match chip {
        Chip::Esp32 => Some(
            ChipProfile {
                chip,
                chip_id: 0x0000,
                bootloader_offset: 0x1000,
                partition_table_offset: 0x8000,
                app_offset_default: 0x1_0000,
                flash_limit: 0x800_0000,
            },
        ),
        Chip::Esp32c2 => Some(
            ChipProfile {
                chip,
                chip_id: 0x000C,
                bootloader_offset: 0x0,
                partition_table_offset: 0x8000,
                app_offset_default: 0x1_0000,
                flash_limit: 0x800_0000,
            },
        ),
        Chip::Esp32c3 => Some(
            ChipProfile {
                chip,
                chip_id: 0x0005,
                bootloader_offset: 0x0,
                partition_table_offset: 0x8000,
                app_offset_default: 0x1_0000,
                flash_limit: 0x800_0000,
            },
        ),
        Chip::Esp32s2 => Some(
            ChipProfile {
                chip,
                chip_id: 0x0002,
                bootloader_offset: 0x1000,
                partition_table_offset: 0x8000,
                app_offset_default: 0x1_0000,
                flash_limit: 0x800_0000,
            },
        ),
        Chip::Esp32s3 => Some(
            ChipProfile {
                chip,
                chip_id: 0x0009,
                bootloader_offset: 0x0,
                partition_table_offset: 0x8000,
                app_offset_default: 0x1_0000,
                flash_limit: 0x800_0000,
            },
        ),
        Chip::Esp8266 => None,
    }
}

/// Whether `chip` has a profile.
pub open spec fn supported(chip: Chip) -> bool {
    profile_spec(chip) is Some
}

impl ChipProfile {
    /// What every profile of the table obeys: the three regions start on
    /// sector boundaries, lie in this order without touching, and lie within
    /// the addressable flash.
    pub open spec fn wf(self) -> bool {
        &&& self.bootloader_offset % 4096 == 0
        &&& self.partition_table_offset % 4096 == 0
        &&& self.app_offset_default % 4096 == 0
        &&& self.bootloader_offset < self.partition_table_offset
        &&& self.partition_table_offset + 4096 <= self.app_offset_default
        &&& self.app_offset_default < self.flash_limit
        &&& self.flash_limit % 4096 == 0
    }
}

/// Every profile of the table is well formed and belongs to its chip.
pub proof fn lemma_profiles_wf(chip: Chip)
    requires
        supported(chip),
    ensures
        profile_spec(chip)->Some_0.wf(),
        profile_spec(chip)->Some_0.chip == chip,
{
}

/// Looks `chip` up in the profile table.
pub fn profile_for(chip: Chip) -> (r: Result<ChipProfile, Error>)
    ensures
        match profile_spec(chip) {
            Some(p) => r == Ok::<ChipProfile, Error>(p),
            None => r == Err::<ChipProfile, Error>(Error::UnsupportedChip { chip }),
        },
{
    match chip {
        Chip::Esp32 => Ok(
            ChipProfile {
                chip,
                chip_id: 0x0000,
                bootloader_offset: 0x1000,
                partition_table_offset: 0x8000,
                app_offset_default: 0x1_0000,
                flash_limit: 0x800_0000,
            },
        ),
        Chip::Esp32c2 => Ok(
            ChipProfile {
                chip,
                chip_id: 0x000C,
                bootloader_offset: 0x0,
                partition_table_offset: 0x8000,
                app_offset_default: 0x1_0000,
                flash_limit: 0x800_0000,
            },
        ),
        Chip::Esp32c3 => Ok(
            ChipProfile {
                chip,
                chip_id: 0x0005,
                bootloader_offset: 0x0,
                partition_table_offset: 0x8000,
                app_offset_default: 0x1_0000,
                flash_limit: 0x800_0000,
            },
        ),
        Chip::Esp32s2 => Ok(
            ChipProfile {
                chip,
                chip_id: 0x0002,
                bootloader_offset: 0x1000,
                partition_table_offset: 0x8000,
                app_offset_default: 0x1_0000,
                flash_limit: 0x800_0000,
            },
        ),
        Chip::Esp32s3 => Ok(
            ChipProfile {
                chip,
                chip_id: 0x0009,
                bootloader_offset: 0x0,
                partition_table_offset: 0x8000,
                app_offset_default: 0x1_0000,
                flash_limit: 0x800_0000,
            },
        ),
        Chip::Esp8266 => Err(Error::UnsupportedChip { chip }),
    }
}

/// The code of a flash size in the high nibble of a firmware header's
/// fourth byte. The supported chips share one table; sizes below one
/// megabyte have no code.
pub open spec fn flash_size_code_spec(chip: Chip, size: FlashSize) -> Option<u8> {
    if !supported(chip) {
        None
    } else {
        match size {
            FlashSize::Flash1Mb => Some(0u8),
            FlashSize::Flash2Mb => Some(1u8),
            FlashSize::Flash4Mb => Some(2u8),
            FlashSize::Flash8Mb => Some(3u8),
            FlashSize::Flash16Mb => Some(4u8),
            FlashSize::Flash32Mb => Some(5u8),
            FlashSize::Flash64Mb => Some(6u8),
            FlashSize::Flash128Mb => Some(7u8),
            _ => None,
        }
    }
}

/// The code of a flash frequency in the low nibble of a firmware header's
/// fourth byte. Each chip family has its own four frequencies.
pub open spec fn flash_frequency_code_spec(chip: Chip, frequency: FlashFrequency) -> Option<u8> {
    match chip {
        Chip::Esp32 | Chip::Esp32c3 | Chip::Esp32s2 | Chip::Esp32s3 => match frequency {
            FlashFrequency::Flash40M => Some(0x0u8),
            FlashFrequency::Flash26M => Some(0x1u8),
            FlashFrequency::Flash20M => Some(0x2u8),
            FlashFrequency::Flash80M => Some(0xfu8),
            _ => None,
        },
        Chip::Esp32c2 => match frequency {
            FlashFrequency::Flash30M => Some(0x0u8),
            FlashFrequency::Flash20M => Some(0x1u8),
            FlashFrequency::Flash15M => Some(0x2u8),
            FlashFrequency::Flash60M => Some(0xfu8),
            _ => None,
        },
        Chip::Esp8266 => None,
    }
}

/// Both codes fit in a nibble.
pub proof fn lemma_codes_are_nibbles(chip: Chip, size: FlashSize, frequency: FlashFrequency)
    ensures
        flash_size_code_spec(chip, size) matches Some(c) ==> c < 16,
        flash_frequency_code_spec(chip, frequency) matches Some(c) ==> c < 16,
{
}

/// The header code of `size` on `chip`.
pub fn flash_size_code(chip: Chip, size: FlashSize) -> (r: Result<u8, Error>)
    ensures
        !supported(chip) ==> r == Err::<u8, Error>(Error::UnsupportedChip { chip }),
        supported(chip) ==> match flash_size_code_spec(chip, size) {
            Some(c) => r == Ok::<u8, Error>(c),
            None => r == Err::<u8, Error>(Error::UnsupportedFlashSize { chip, size }),
        },
{
    match chip {
        Chip::Esp8266 => Err(Error::UnsupportedChip { chip }),
        _ => match size {
            FlashSize::Flash1Mb => Ok(0),
            FlashSize::Flash2Mb => Ok(1),
            FlashSize::Flash4Mb => Ok(2),
            FlashSize::Flash8Mb => Ok(3),
            FlashSize::Flash16Mb => Ok(4),
            FlashSize::Flash32Mb => Ok(5),
            FlashSize::Flash64Mb => Ok(6),
            FlashSize::Flash128Mb => Ok(7),
            _ => Err(Error::UnsupportedFlashSize { chip, size }),
        },
    }
}

/// The header code of `frequency` on `chip`.
pub fn flash_frequency_code(chip: Chip, frequency: FlashFrequency) -> (r: Result<u8, Error>)
    ensures
        !supported(chip) ==> r == Err::<u8, Error>(Error::UnsupportedChip { chip }),
        supported(chip) ==> match flash_frequency_code_spec(chip, frequency) {
            Some(c) => r == Ok::<u8, Error>(c),
            None => r == Err::<u8, Error>(Error::UnsupportedFlashFrequency { chip, frequency }),
        },
{
    match chip {
        Chip::Esp32 | Chip::Esp32c3 | Chip::Esp32s2 | Chip::Esp32s3 => match frequency {
            FlashFrequency::Flash40M => Ok(0x0),
            FlashFrequency::Flash26M => Ok(0x1),
            FlashFrequency::Flash20M => Ok(0x2),
            FlashFrequency::Flash80M => Ok(0xf),
            _ => Err(Error::UnsupportedFlashFrequency { chip, frequency }),
        },
        Chip::Esp32c2 => match frequency {
            FlashFrequency::Flash30M => Ok(0x0),
            FlashFrequency::Flash20M => Ok(0x1),
            FlashFrequency::Flash15M => Ok(0x2),
            FlashFrequency::Flash60M => Ok(0xf),
            _ => Err(Error::UnsupportedFlashFrequency { chip, frequency }),
        },
        Chip::Esp8266 => Err(Error::UnsupportedChip { chip }),
    }
}

} // verus!
