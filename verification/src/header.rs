//! The firmware header encoder: the eight bytes that open an application
//! image and tell the boot ROM how to drive the flash.

use vstd::prelude::*;
use crate::bytes::le32;
use crate::chip::{flash_frequency_code, flash_frequency_code_spec, flash_size_code,
    flash_size_code_spec, supported};
use crate::enums::{Chip, FlashFrequency, FlashMode, FlashSize};
use crate::error::Error;

verus! {

/// The byte that opens every firmware header.
pub const HEADER_MAGIC: u8 = 0xE9;

/// The length of a firmware header.
pub const HEADER_LEN: usize = 8;

/// The header laid out byte by byte: magic, segment count, flash mode, the
/// size code above the frequency code, and the entry point lowest byte first.
pub open spec fn header_bytes(
    segment_count: u8,
    mode: FlashMode,
    size_code: u8,
    frequency_code: u8,
    entry_point: u32,
) -> Seq<u8> {
    seq![0xE9u8, segment_count, mode.spec_code(), (size_code * 16 + frequency_code) as u8] + le32(
        entry_point,
    )
}

/// What `encode_header` returns: the first of the three refusals that
/// applies, else the header.
pub open spec fn encode_header_spec(
    chip: Chip,
    entry_point: u32,
    segment_count: u8,
    mode: FlashMode,
    frequency: FlashFrequency,
    size: FlashSize,
) -> Result<Seq<u8>, Error> {
    if !supported(chip) {
        Err(Error::UnsupportedChip { chip })
    } else if flash_size_code_spec(chip, size) is None {
        Err(Error::UnsupportedFlashSize { chip, size })
    } else if flash_frequency_code_spec(chip, frequency) is None {
        Err(Error::UnsupportedFlashFrequency { chip, frequency })
    } else {
        Ok(
            header_bytes(
                segment_count,
                mode,
                flash_size_code_spec(chip, size)->Some_0,
                flash_frequency_code_spec(chip, frequency)->Some_0,
                entry_point,
            ),
        )
    }
}

/// Packs chip, entry point, segment count and flash configuration into a
/// firmware header. A flash size or frequency that the chip has no code for
/// is refused here, before anything is assembled.
pub fn encode_header(
    chip: Chip,
    entry_point: u32,
    segment_count: u8,
    flash_mode: FlashMode,
    flash_freq: FlashFrequency,
    flash_size: FlashSize,
) -> (r: Result<[u8; 8], Error>)
    ensures
        match encode_header_spec(chip, entry_point, segment_count, flash_mode, flash_freq, flash_size) {
            Ok(bytes) => r is Ok && r->Ok_0@ == bytes,
            Err(e) => r == Err::<[u8; 8], Error>(e),
        },
{
    let size_code = match flash_size_code(chip, flash_size) {
        Ok(c) => c,
        Err(e) => { return Err(e); },
    };
    let frequency_code = match flash_frequency_code(chip, flash_freq) {
        Ok(c) => c,
        Err(e) => { return Err(e); },
    };
    let config: u8 = size_code * 16 + frequency_code;
    let header: [u8; 8] = [
        HEADER_MAGIC,
        segment_count,
        flash_mode.code(),
        config,
        (entry_point % 256) as u8,
        (entry_point / 256 % 256) as u8,
        (entry_point / 65536 % 256) as u8,
        (entry_point / 16777216) as u8,
    ];
    assert(header@ =~= header_bytes(
        segment_count,
        flash_mode,
        size_code,
        frequency_code,
        entry_point,
    ));
    Ok(header)
}

} // verus!
