use std::str::FromStr;

use espflash::enums::{Chip, FlashFrequency, FlashMode, FlashSize, ImageFormat};

#[test]
fn chip_names_in_any_case() {
    assert_eq!(Chip::from_str("esp32"), Ok(Chip::Esp32));
    assert_eq!(Chip::from_str("ESP32C3"), Ok(Chip::Esp32c3));
    assert_eq!("Esp32S2".parse::<Chip>(), Ok(Chip::Esp32s2));
    assert_eq!(Chip::parse("esp8266"), Ok(Chip::Esp8266));
    assert_eq!(Chip::parse("ESP32c2"), Ok(Chip::Esp32c2));
    assert_eq!(Chip::parse("esp32S3"), Ok(Chip::Esp32s3));
}

#[test]
fn chip_name_that_is_none() {
    assert_eq!(Chip::from_str("ESP33"), Err("invalid chip name 'esp33'!".to_string()));
    assert_eq!(Chip::from_str("esp32-c3"), Err("invalid chip name 'esp32-c3'!".to_string()));
    assert_eq!(Chip::from_str(""), Err("invalid chip name ''!".to_string()));
}

#[test]
fn from_name_reads_letter_for_letter() {
    assert_eq!(Chip::from_name("esp32"), Ok(Chip::Esp32));
    assert_eq!(Chip::from_name("ESP32"), Err("invalid chip name 'ESP32'!".to_string()));
    assert_eq!(FlashMode::from_name("QIO"), Ok(FlashMode::Qio));
    assert_eq!(FlashMode::from_name("qio"), Err("invalid flash mode 'qio'!".to_string()));
}

#[test]
fn image_formats() {
    assert_eq!(ImageFormat::from_str("idf-boot"), Ok(ImageFormat::IdfBoot));
    assert_eq!(ImageFormat::from_str("Direct-Boot"), Ok(ImageFormat::DirectBoot));
    assert_eq!(ImageFormat::from_str("MCU-BOOT"), Ok(ImageFormat::McuBoot));
    assert_eq!(ImageFormat::from_str("Idf_Boot"), Err("invalid image format 'idf_boot'!".to_string()));
}

#[test]
fn flash_frequencies() {
    assert_eq!(FlashFrequency::from_str("40m"), Ok(FlashFrequency::Flash40M));
    assert_eq!(FlashFrequency::from_str("80M"), Ok(FlashFrequency::Flash80M));
    assert_eq!(FlashFrequency::from_str("12M"), Ok(FlashFrequency::Flash12M));
    assert_eq!(FlashFrequency::from_str("41m"), Err("invalid flash frequency '41M'!".to_string()));
}

#[test]
fn flash_modes() {
    assert_eq!(FlashMode::from_str("qio"), Ok(FlashMode::Qio));
    assert_eq!(FlashMode::from_str("Qout"), Ok(FlashMode::Qout));
    assert_eq!(FlashMode::from_str("DIO"), Ok(FlashMode::Dio));
    assert_eq!(FlashMode::from_str("dout"), Ok(FlashMode::Dout));
    assert_eq!(FlashMode::from_str("q\u{131}o"), Ok(FlashMode::Qio));
    assert_eq!(FlashMode::from_str("spi"), Err("invalid flash mode 'SPI'!".to_string()));
}

#[test]
fn flash_sizes() {
    assert_eq!(FlashSize::from_str("256kb"), Ok(FlashSize::Flash256Kb));
    assert_eq!(FlashSize::from_str("4MB"), Ok(FlashSize::Flash4Mb));
    assert_eq!(FlashSize::from_str("128Mb"), Ok(FlashSize::Flash128Mb));
    assert_eq!(FlashSize::from_str("3mb"), Err("invalid flash size '3MB'!".to_string()));
}

#[test]
fn every_value_is_read_back_from_its_name() {
    for c in [Chip::Esp32, Chip::Esp32c2, Chip::Esp32c3, Chip::Esp32s2, Chip::Esp32s3, Chip::Esp8266] {
        assert_eq!(Chip::from_name(c.name()), Ok(c));
        assert_eq!(Chip::from_str(&c.to_string()), Ok(c));
    }
    for f in [ImageFormat::IdfBoot, ImageFormat::DirectBoot, ImageFormat::McuBoot] {
        assert_eq!(ImageFormat::from_name(f.name()), Ok(f));
    }
    for f in FlashFrequency::variants() {
        assert_eq!(FlashFrequency::from_name(f).unwrap().name(), f);
    }
    for m in FlashMode::variants() {
        assert_eq!(FlashMode::from_name(m).unwrap().name(), m);
    }
    for s in FlashSize::variants() {
        assert_eq!(FlashSize::from_name(s).unwrap().name(), s);
    }
}

#[test]
fn names_in_the_order_of_declaration() {
    assert_eq!(Chip::variants(), vec!["esp32", "esp32c2", "esp32c3", "esp32s2", "esp32s3", "esp8266"]);
    assert_eq!(ImageFormat::variants(), vec!["idf-boot", "direct-boot", "mcu-boot"]);
    assert_eq!(
        FlashFrequency::variants(),
        vec!["12M", "15M", "16M", "20M", "24M", "26M", "30M", "40M", "48M", "60M", "80M"]
    );
    assert_eq!(FlashMode::variants(), vec!["QIO", "QOUT", "DIO", "DOUT"]);
    assert_eq!(
        FlashSize::variants(),
        vec!["256KB", "512KB", "1MB", "2MB", "4MB", "8MB", "16MB", "32MB", "64MB", "128MB"]
    );
    assert_eq!(FlashSize::Flash16Mb.to_string(), "16MB");
    assert_eq!(ImageFormat::McuBoot.to_string(), "mcu-boot");
}

#[test]
fn codes_and_sizes() {
    assert_eq!(FlashMode::Qio.code(), 0);
    assert_eq!(FlashMode::Qout.code(), 1);
    assert_eq!(FlashMode::Dio.code(), 2);
    assert_eq!(FlashMode::Dout.code(), 3);
    assert_eq!(FlashSize::Flash256Kb.bytes(), 256 * 1024);
    assert_eq!(FlashSize::Flash4Mb.bytes(), 4 * 1024 * 1024);
    assert_eq!(FlashSize::Flash128Mb.bytes(), 128 * 1024 * 1024);
    assert_eq!(FlashSize::Flash256Kb.id(), 0x12);
    assert_eq!(FlashSize::Flash64Mb.id(), 0x1a);
    assert_eq!(FlashSize::Flash128Mb.id(), 0x21);
}
