use espflash::chip::{flash_frequency_code, flash_size_code, profile_for};
use espflash::enums::{Chip, FlashFrequency, FlashSize};
use espflash::error::{Error, ReservedRegion, Warning};
use espflash::write::plan_write;

#[test]
fn profiles_of_the_supported_chips() {
    let p = profile_for(Chip::Esp32).unwrap();
    assert_eq!((p.bootloader_offset, p.partition_table_offset, p.app_offset_default), (0x1000, 0x8000, 0x10000));
    assert_eq!(p.chip, Chip::Esp32);
    assert_eq!(profile_for(Chip::Esp32s2).unwrap().bootloader_offset, 0x1000);
    for chip in [Chip::Esp32c2, Chip::Esp32c3, Chip::Esp32s3] {
        let p = profile_for(chip).unwrap();
        assert_eq!((p.bootloader_offset, p.partition_table_offset, p.app_offset_default), (0, 0x8000, 0x10000));
        assert_eq!(p.flash_limit, 0x800_0000);
    }
    assert_eq!(profile_for(Chip::Esp8266), Err(Error::UnsupportedChip { chip: Chip::Esp8266 }));
}

#[test]
fn flash_size_codes() {
    assert_eq!(flash_size_code(Chip::Esp32, FlashSize::Flash1Mb), Ok(0));
    assert_eq!(flash_size_code(Chip::Esp32, FlashSize::Flash4Mb), Ok(2));
    assert_eq!(flash_size_code(Chip::Esp32s3, FlashSize::Flash128Mb), Ok(7));
    assert_eq!(
        flash_size_code(Chip::Esp32, FlashSize::Flash256Kb),
        Err(Error::UnsupportedFlashSize { chip: Chip::Esp32, size: FlashSize::Flash256Kb })
    );
    assert_eq!(flash_size_code(Chip::Esp8266, FlashSize::Flash4Mb), Err(Error::UnsupportedChip { chip: Chip::Esp8266 }));
}

#[test]
fn flash_frequency_codes() {
    assert_eq!(flash_frequency_code(Chip::Esp32, FlashFrequency::Flash80M), Ok(0xf));
    assert_eq!(flash_frequency_code(Chip::Esp32, FlashFrequency::Flash26M), Ok(1));
    assert_eq!(flash_frequency_code(Chip::Esp32c2, FlashFrequency::Flash60M), Ok(0xf));
    assert_eq!(flash_frequency_code(Chip::Esp32c2, FlashFrequency::Flash15M), Ok(2));
    assert_eq!(
        flash_frequency_code(Chip::Esp32c2, FlashFrequency::Flash80M),
        Err(Error::UnsupportedFlashFrequency { chip: Chip::Esp32c2, frequency: FlashFrequency::Flash80M })
    );
}

#[test]
fn plain_write_has_no_warning() {
    let plan = plan_write(0x20_0000, vec![1, 2, 3], Chip::Esp32).unwrap();
    assert_eq!(plan.address, 0x20_0000);
    assert_eq!(plan.data, vec![1, 2, 3]);
    assert_eq!(plan.warning, None);
    assert_eq!(plan_write(0, vec![0; 16], Chip::Esp32).unwrap().warning, None);
    assert_eq!(plan_write(0x9000, vec![0; 16], Chip::Esp32).unwrap().warning, None);
}

#[test]
fn write_into_reserved_regions_is_flagged() {
    let boot = Some(Warning::ReservedRegionWrite { region: ReservedRegion::Bootloader });
    let table = Some(Warning::ReservedRegionWrite { region: ReservedRegion::PartitionTable });
    assert_eq!(plan_write(0x1000, vec![9], Chip::Esp32).unwrap().warning, boot);
    assert_eq!(plan_write(0x7fff, vec![9], Chip::Esp32).unwrap().warning, boot);
    assert_eq!(plan_write(0, vec![9], Chip::Esp32c3).unwrap().warning, boot);
    assert_eq!(plan_write(0x8000, vec![9], Chip::Esp32).unwrap().warning, table);
    assert_eq!(plan_write(0x8fff, vec![9], Chip::Esp32).unwrap().warning, table);
    let plan = plan_write(0x8000, vec![9, 8], Chip::Esp32).unwrap();
    assert_eq!((plan.address, plan.data), (0x8000, vec![9, 8]));
}

#[test]
fn write_beyond_the_flash_is_refused() {
    assert_eq!(
        plan_write(0x800_0000, vec![], Chip::Esp32).unwrap_err(),
        Error::AddressOutOfRange { address: 0x800_0000, length: 0 }
    );
    assert_eq!(
        plan_write(0x7ff_ffff, vec![1, 2], Chip::Esp32).unwrap_err(),
        Error::AddressOutOfRange { address: 0x7ff_ffff, length: 2 }
    );
    assert!(plan_write(0x7ff_ffff, vec![1], Chip::Esp32).is_ok());
    assert_eq!(plan_write(0, vec![1], Chip::Esp8266).unwrap_err(), Error::UnsupportedChip { chip: Chip::Esp8266 });
}
