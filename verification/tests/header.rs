use espflash::enums::{Chip, FlashFrequency, FlashMode, FlashSize};
use espflash::error::Error;
use espflash::header::encode_header;

#[test]
fn header_layout_esp32() {
    let h = encode_header(
        Chip::Esp32,
        0x4008_0400,
        3,
        FlashMode::Dio,
        FlashFrequency::Flash40M,
        FlashSize::Flash4Mb,
    )
    .unwrap();
    assert_eq!(h, [0xE9, 3, 2, 0x20, 0x00, 0x04, 0x08, 0x40]);
}

#[test]
fn header_refuses_unsupported_values() {
    assert_eq!(
        encode_header(Chip::Esp8266, 0, 1, FlashMode::Qio, FlashFrequency::Flash40M, FlashSize::Flash4Mb),
        Err(Error::UnsupportedChip { chip: Chip::Esp8266 })
    );
    assert_eq!(
        encode_header(Chip::Esp32, 0, 1, FlashMode::Qio, FlashFrequency::Flash40M, FlashSize::Flash256Kb),
        Err(Error::UnsupportedFlashSize { chip: Chip::Esp32, size: FlashSize::Flash256Kb })
    );
    assert_eq!(
        encode_header(Chip::Esp32, 0, 1, FlashMode::Qio, FlashFrequency::Flash30M, FlashSize::Flash4Mb),
        Err(Error::UnsupportedFlashFrequency { chip: Chip::Esp32, frequency: FlashFrequency::Flash30M })
    );
}
