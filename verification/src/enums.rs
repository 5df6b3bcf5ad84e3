//! The closed sets of values a flash configuration is made of.

use vstd::prelude::*;

verus! {

/// A chip family.
#[derive(Debug, Clone, Copy, PartialEq, Eq, Structural)]
pub enum Chip {
    Esp32,
    Esp32c2,
    Esp32c3,
    Esp32s2,
    Esp32s3,
    Esp8266,
}

/// The layout of the image that is written to flash.
#[derive(Debug, Clone, Copy, PartialEq, Eq, Structural)]
pub enum ImageFormat {
    IdfBoot,
    DirectBoot,
    McuBoot,
}

/// The clock of the SPI flash.
#[derive(Debug, Clone, Copy, PartialEq, Eq, Structural)]
pub enum FlashFrequency {
    Flash12M,
    Flash15M,
    Flash16M,
    Flash20M,
    Flash24M,
    Flash26M,
    Flash30M,
    Flash40M,
    Flash48M,
    Flash60M,
    Flash80M,
}

/// The way the SPI flash is wired.
#[derive(Debug, Clone, Copy, PartialEq, Eq, Structural)]
pub enum FlashMode {
    Qio,
    Qout,
    Dio,
    Dout,
}

/// The capacity of the SPI flash.
#[derive(Debug, Clone, Copy, PartialEq, Eq, Structural)]
pub enum FlashSize {
    Flash256Kb,
    Flash512Kb,
    Flash1Mb,
    Flash2Mb,
    Flash4Mb,
    Flash8Mb,
    Flash16Mb,
    Flash32Mb,
    Flash64Mb,
    Flash128Mb,
}

/// A whole flash configuration.
#[derive(Debug, Clone, Copy, PartialEq, Eq, Structural)]
pub struct FlashSettings {
    pub mode: FlashMode,
    pub frequency: FlashFrequency,
    pub size: FlashSize,
}

impl FlashMode {
    /// The byte that stands for this mode in a firmware header; it is the
    /// same for every chip.
    pub open spec fn spec_code(self) -> u8 {
        match self {
            FlashMode::Qio => 0,
            FlashMode::Qout => 1,
            FlashMode::Dio => 2,
            FlashMode::Dout => 3,
        }
    }

    #[verifier::when_used_as_spec(spec_code)]
    pub fn code(self) -> (c: u8)
        ensures
            c == self.spec_code(),
    {
        match self {
            FlashMode::Qio => 0,
            FlashMode::Qout => 1,
            FlashMode::Dio => 2,
            FlashMode::Dout => 3,
        }
    }
}

impl FlashSize {
    /// The capacity in bytes.
    pub open spec fn spec_bytes(self) -> u32 {
        match self {
            FlashSize::Flash256Kb => 0x4_0000,
            FlashSize::Flash512Kb => 0x8_0000,
            FlashSize::Flash1Mb => 0x10_0000,
            FlashSize::Flash2Mb => 0x20_0000,
            FlashSize::Flash4Mb => 0x40_0000,
            FlashSize::Flash8Mb => 0x80_0000,
            FlashSize::Flash16Mb => 0x100_0000,
            FlashSize::Flash32Mb => 0x200_0000,
            FlashSize::Flash64Mb => 0x400_0000,
            FlashSize::Flash128Mb => 0x800_0000,
        }
    }

    #[verifier::when_used_as_spec(spec_bytes)]
    pub fn bytes(self) -> (n: u32)
        ensures
            n == self.spec_bytes(),
    {
        match self {
            FlashSize::Flash256Kb => 0x4_0000,
            FlashSize::Flash512Kb => 0x8_0000,
            FlashSize::Flash1Mb => 0x10_0000,
            FlashSize::Flash2Mb => 0x20_0000,
            FlashSize::Flash4Mb => 0x40_0000,
            FlashSize::Flash8Mb => 0x80_0000,
            FlashSize::Flash16Mb => 0x100_0000,
            FlashSize::Flash32Mb => 0x200_0000,
            FlashSize::Flash64Mb => 0x400_0000,
            FlashSize::Flash128Mb => 0x800_0000,
        }
    }

    /// The capacity byte by which a flash part reports this size.
    pub open spec fn spec_id(self) -> u8 {
        match self {
            FlashSize::Flash256Kb => 0x12,
            FlashSize::Flash512Kb => 0x13,
            FlashSize::Flash1Mb => 0x14,
            FlashSize::Flash2Mb => 0x15,
            FlashSize::Flash4Mb => 0x16,
            FlashSize::Flash8Mb => 0x17,
            FlashSize::Flash16Mb => 0x18,
            FlashSize::Flash32Mb => 0x19,
            FlashSize::Flash64Mb => 0x1a,
            FlashSize::Flash128Mb => 0x21,
        }
    }

    #[verifier::when_used_as_spec(spec_id)]
    pub fn id(self) -> (n: u8)
        ensures
            n == self.spec_id(),
    {
        match self {
            FlashSize::Flash256Kb => 0x12,
            FlashSize::Flash512Kb => 0x13,
            FlashSize::Flash1Mb => 0x14,
            FlashSize::Flash2Mb => 0x15,
            FlashSize::Flash4Mb => 0x16,
            FlashSize::Flash8Mb => 0x17,
            FlashSize::Flash16Mb => 0x18,
            FlashSize::Flash32Mb => 0x19,
            FlashSize::Flash64Mb => 0x1a,
            FlashSize::Flash128Mb => 0x21,
        }
    }
}

} // verus!
