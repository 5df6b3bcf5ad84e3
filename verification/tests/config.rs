use std::path::PathBuf;

use espflash::app_image::Application;
use espflash::assemble::Assembled;
use espflash::cli::{
    convert_table, BoardInfoArgs, ConnectArgs, Conversion, FlashConfigArgs, MonitorArgs, PartitionTableArgs,
    SaveImageArgs,
};
use espflash::command::{SaveImageOpts, WriteBinOpts};
use espflash::enums::{Chip, FlashFrequency, FlashMode, FlashSettings, FlashSize, ImageFormat};
use espflash::error::{Error, ReservedRegion, RowError, Warning};
use espflash::opts::{ConnectOpts, FlashConfigOpts, PartitionTableOpts};
use espflash::segment::ImageSegment;

fn no_config() -> FlashConfigArgs {
    FlashConfigArgs { flash_freq: None, flash_mode: None, flash_size: None }
}

#[test]
fn defaults_fill_what_the_user_left_open() {
    assert_eq!(
        no_config().settings(Chip::Esp32),
        FlashSettings { mode: FlashMode::Dio, frequency: FlashFrequency::Flash40M, size: FlashSize::Flash4Mb }
    );
    assert_eq!(no_config().settings(Chip::Esp32c2).frequency, FlashFrequency::Flash30M);
    let given = FlashConfigArgs {
        flash_freq: Some(FlashFrequency::Flash80M),
        flash_mode: Some(FlashMode::Qio),
        flash_size: Some(FlashSize::Flash16Mb),
    };
    assert_eq!(
        given.settings(Chip::Esp32c2),
        FlashSettings { mode: FlashMode::Qio, frequency: FlashFrequency::Flash80M, size: FlashSize::Flash16Mb }
    );
}

#[test]
fn conversion_of_the_flags() {
    let args = |b, c| PartitionTableArgs::new(None, PathBuf::from("t.csv"), b, c);
    assert_eq!(args(true, false).conversion(), Conversion::ToBinary);
    assert_eq!(args(false, true).conversion(), Conversion::ToCsv);
    assert_eq!(args(false, false).conversion(), Conversion::Show);
    assert_eq!(args(true, false).input(), &PathBuf::from("t.csv"));
    assert_eq!(args(true, false).output(), &None);
}

#[test]
fn text_to_binary_and_back() {
    let text = b"nvs,data,nvs,0x9000,0x6000,0x0\nfactory,app,factory,0x10000,0x100000,0x0\n";
    let binary = convert_table(Conversion::ToBinary, text).unwrap();
    assert_eq!(binary.len(), 4096);
    assert_eq!(&binary[..2], &[0xAA, 0x50]);
    assert_eq!(convert_table(Conversion::ToCsv, &binary).unwrap(), text.to_vec());
    assert_eq!(convert_table(Conversion::Show, &binary).unwrap(), text.to_vec());
    assert_eq!(convert_table(Conversion::Show, text).unwrap(), text.to_vec());
    let args = PartitionTableOpts::new(true, false, PathBuf::from("t.csv"), Some(PathBuf::from("t.bin"))).into_args();
    assert_eq!(args.convert(text).unwrap(), binary);
    assert_eq!(args.output(), &Some(PathBuf::from("t.bin")));
}

#[test]
fn conversion_reads_only_the_form_it_is_told() {
    let text = b"nvs,data,nvs,0x9000,0x6000,\n";
    assert_eq!(convert_table(Conversion::ToCsv, text).unwrap_err(), Error::BadMagic { offset: 0 });
    let binary = convert_table(Conversion::ToBinary, text).unwrap();
    assert_eq!(
        convert_table(Conversion::ToBinary, &binary[..64]).unwrap_err(),
        Error::MalformedRow { line: 1, reason: RowError::FieldCount }
    );
}

#[test]
fn conversion_has_no_flash_size() {
    let text = b"big,data,nvs,0x10000000,0xe0000000,\n";
    assert!(convert_table(Conversion::ToBinary, text).is_ok());
}

#[test]
fn save_image_takes_chip_and_merge_flag_from_the_arguments() {
    let app = Application::new(0x4000_0400, vec![ImageSegment { load_address: 0x3fff_0000, data: vec![1; 7] }]).unwrap();
    let mut args = SaveImageArgs {
        bootloader: None,
        chip: Chip::Esp32c3,
        file: PathBuf::from("out.bin"),
        merge: true,
        partition_table: None,
    };
    match args.assemble(&no_config(), Some(&[0xB0; 16][..]), &app, None).unwrap() {
        Assembled::Merged(bytes) => {
            assert_eq!(&bytes[..16], &[0xB0; 16][..]);
            assert_eq!(&bytes[0x10000..0x10008], &[0xE9, 1, 2, 0x20, 0x00, 0x04, 0x00, 0x40][..]);
            assert_eq!(bytes.len(), 0x10000 + 8 + 16);
        },
        Assembled::Discrete(_) => panic!("not merged"),
    }
    args.merge = false;
    match args.assemble(&no_config(), None, &app, None).unwrap() {
        Assembled::Discrete(segments) => assert_eq!(segments.len(), 2),
        Assembled::Merged(_) => panic!("not discrete"),
    }
    args.chip = Chip::Esp8266;
    assert_eq!(
        args.assemble(&no_config(), None, &app, None).unwrap_err(),
        Error::UnsupportedChip { chip: Chip::Esp8266 }
    );
}

#[test]
fn opts_turn_into_args() {
    let args = ConnectOpts { serial: Some("/dev/ttyUSB0".to_string()), speed: Some(115200) }.into_args();
    assert_eq!(args.port.as_deref(), Some("/dev/ttyUSB0"));
    assert_eq!(args.baud, Some(115200));
    let config = FlashConfigOpts { flash_mode: Some(FlashMode::Qio), flash_size: None, flash_freq: None }.into_args();
    assert_eq!(config.flash_mode, Some(FlashMode::Qio));
    assert_eq!(config.flash_size, None);
    let info = BoardInfoArgs::new(ConnectArgs { baud: Some(9600), port: None });
    assert_eq!(info.connect().baud, Some(9600));
    let monitor = MonitorArgs::new(ConnectArgs { baud: None, port: Some("COM3".to_string()) });
    assert_eq!(monitor.connect().port.as_deref(), Some("COM3"));
}

#[test]
fn address_of_a_raw_write_in_several_notations() {
    let connect = || ConnectOpts { serial: None, speed: None };
    let addr = |s: &str| WriteBinOpts::parse(s, "a.bin".to_string(), connect()).map(|o| o.addr);
    assert_eq!(addr("0x1000"), Some(0x1000));
    assert_eq!(addr("4096"), Some(4096));
    assert_eq!(addr("0b101"), Some(5));
    assert_eq!(addr("0o17"), Some(15));
    assert_eq!(addr("1_000"), Some(1000));
    assert_eq!(addr(" 42 "), Some(42));
    assert_eq!(addr("0xffffffff"), Some(0xffff_ffff));
    assert_eq!(addr("0x100000000"), None);
    assert_eq!(addr("_1"), None);
    assert_eq!(addr("-1"), None);
    assert_eq!(addr("4K"), None);
    assert_eq!(addr(""), None);
    assert!(WriteBinOpts::with_address(None, "a.bin".to_string(), connect()).is_none());
    assert_eq!(WriteBinOpts::with_address(Some(7), "a.bin".to_string(), connect()).unwrap().bin_file, "a.bin");
}

#[test]
fn raw_write_is_planned_at_the_address_of_the_request() {
    let opts = WriteBinOpts::new(0x8000, "table.bin".to_string(), ConnectOpts { serial: None, speed: None });
    let plan = opts.plan(vec![1, 2, 3], Chip::Esp32).unwrap();
    assert_eq!(plan.address, 0x8000);
    assert_eq!(plan.data, vec![1, 2, 3]);
    assert_eq!(plan.warning, Some(Warning::ReservedRegionWrite { region: ReservedRegion::PartitionTable }));
}

#[test]
fn image_format_of_a_save_request() {
    let make = |format: Option<&str>| {
        SaveImageOpts::new(
            format.map(|s| s.to_string()),
            PathBuf::from("app.elf"),
            FlashConfigOpts { flash_mode: None, flash_size: None, flash_freq: None },
            espflash::opts::SaveImageOpts {
                bootloader: None,
                chip: Chip::Esp32,
                file: PathBuf::from("out.bin"),
                merge: false,
                partition_table: None,
            },
        )
    };
    assert_eq!(make(None).format(), Ok(None));
    assert_eq!(make(Some("IDF-Boot")).format(), Ok(Some(ImageFormat::IdfBoot)));
    assert_eq!(make(Some("elf")).format(), Err("invalid image format 'elf'!".to_string()));
    assert_eq!(make(None).image(), &PathBuf::from("app.elf"));
    assert_eq!(make(None).save_image_opts().chip, Chip::Esp32);
}
