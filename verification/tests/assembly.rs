use espflash::app_image::Application;
use espflash::assemble::{assemble, collect_segments, Assembled};
use espflash::binary::{parse_binary, serialize_binary};
use espflash::enums::{Chip, FlashFrequency, FlashMode, FlashSettings, FlashSize};
use espflash::error::{Error, Region, RowError};
use espflash::partition::{PartitionEntry, PartitionTable, PartitionType};
use espflash::segment::{merge_segments, ImageSegment};

fn settings() -> FlashSettings {
    FlashSettings { mode: FlashMode::Dio, frequency: FlashFrequency::Flash40M, size: FlashSize::Flash4Mb }
}

fn entry(name: &str, ptype: PartitionType, subtype: u8, offset: u32, size: u32) -> PartitionEntry {
    PartitionEntry { name: name.as_bytes().to_vec(), ptype, subtype, offset, size, flags: 0 }
}

fn default_table() -> PartitionTable {
    PartitionTable::new(
        vec![
            entry("nvs", PartitionType::Data, 0x02, 0x9000, 0x6000),
            entry("phy_init", PartitionType::Data, 0x01, 0xf000, 0x1000),
            entry("factory", PartitionType::App, 0x00, 0x10000, 0x3f0000),
        ],
        0x40_0000,
    )
    .unwrap()
}

fn app_of(len: usize) -> Application {
    let data: Vec<u8> = (0..len).map(|i| (i * 7 + 3) as u8).collect();
    Application::new(0x4008_0000, vec![ImageSegment { load_address: 0x3f40_0020, data }]).unwrap()
}

#[test]
fn application_body_layout() {
    let app = Application::new(
        0x4000_0000,
        vec![
            ImageSegment { load_address: 0x3f40_0020, data: vec![1, 2, 3] },
            ImageSegment { load_address: 0x4008_0000, data: vec![0x10, 0x20] },
        ],
    )
    .unwrap();
    let body = app.encode_body();
    let mut expected = vec![0x20, 0x00, 0x40, 0x3f, 3, 0, 0, 0, 1, 2, 3];
    expected.extend_from_slice(&[0x00, 0x00, 0x08, 0x40, 2, 0, 0, 0, 0x10, 0x20]);
    expected.extend_from_slice(&[0; 10]);
    expected.push(0xEF ^ 1 ^ 2 ^ 3 ^ 0x10 ^ 0x20);
    assert_eq!(body, expected);
    assert_eq!(body.len() % 16, 0);
}

#[test]
fn application_without_segments() {
    let app = Application::new(0, vec![]).unwrap();
    let mut expected = vec![0u8; 15];
    expected.push(0xEF);
    assert_eq!(app.encode_body(), expected);
}

#[test]
fn application_with_too_many_segments_is_refused() {
    let segments: Vec<ImageSegment> = (0..256).map(|i| ImageSegment { load_address: i, data: vec![] }).collect();
    assert!(Application::new(0, segments).is_none());
    let segments: Vec<ImageSegment> = (0..255).map(|i| ImageSegment { load_address: i, data: vec![] }).collect();
    assert!(Application::new(0, segments).is_some());
}

#[test]
fn merged_image_of_default_table_bootloader_and_application() {
    let bootloader: Vec<u8> = (0..2048).map(|i| (i % 251) as u8).collect();
    let app = app_of(4087);
    let body = app.encode_body();
    assert_eq!(body.len(), 4096);
    let merged = match assemble(Chip::Esp32, settings(), Some(&bootloader), &app, None, true).unwrap() {
        Assembled::Merged(bytes) => bytes,
        Assembled::Discrete(_) => panic!("not merged"),
    };
    let table = serialize_binary(&default_table());
    assert_eq!(table.len(), 4096);
    assert_eq!(merged.len(), 0x10000 + 4096 + 8);
    assert_eq!(&merged[0x1000..0x1000 + 2048], &bootloader[..]);
    assert_eq!(&merged[0x8000..0x8000 + table.len()], &table[..]);
    let header = [0xE9, 1, 2, 0x20, 0x00, 0x00, 0x08, 0x40];
    assert_eq!(&merged[0x10000..0x10000 + 8], &header[..]);
    assert_eq!(&merged[0x10000 + 8..0x10000 + 8 + 4096], &body[..]);
    assert!(merged[..0x1000].iter().all(|b| *b == 0xFF));
    assert!(merged[0x1000 + 2048..0x8000].iter().all(|b| *b == 0xFF));
    assert!(merged[0x8000 + 4096..0x10000].iter().all(|b| *b == 0xFF));
    let parsed = parse_binary(&merged[0x8000..0x9000], 0x40_0000).unwrap();
    assert_eq!(parsed.entries(), default_table().entries());
    assert_eq!(parsed.entries()[2].offset, 0x10000);
}

#[test]
fn discrete_segments_in_ascending_order() {
    let bootloader = vec![0xB0; 100];
    let app = app_of(10);
    let segments = match assemble(Chip::Esp32, settings(), Some(&bootloader), &app, None, false).unwrap() {
        Assembled::Discrete(segments) => segments,
        Assembled::Merged(_) => panic!("not discrete"),
    };
    let addresses: Vec<u32> = segments.iter().map(|s| s.load_address).collect();
    assert_eq!(addresses, vec![0x1000, 0x8000, 0x10000]);
    assert_eq!(segments[0].data, bootloader);
    assert_eq!(segments[1].data, serialize_binary(&default_table()));
    assert_eq!(segments[2].data.len(), 8 + 32);
}

#[test]
fn without_bootloader_its_place_stays_erased() {
    let app = app_of(10);
    let segments = match assemble(Chip::Esp32c3, settings(), None, &app, None, false).unwrap() {
        Assembled::Discrete(segments) => segments,
        Assembled::Merged(_) => panic!("not discrete"),
    };
    assert_eq!(segments.len(), 2);
    assert_eq!(segments[0].load_address, 0x8000);
    let merged = match assemble(Chip::Esp32c3, settings(), None, &app, None, true).unwrap() {
        Assembled::Merged(bytes) => bytes,
        Assembled::Discrete(_) => panic!("not merged"),
    };
    assert!(merged[..0x8000].iter().all(|b| *b == 0xFF));
}

#[test]
fn merging_discrete_segments_by_hand_gives_the_merged_image() {
    let bootloader: Vec<u8> = (0..5000).map(|i| (i % 13) as u8).collect();
    let app = app_of(777);
    let table = b"nvs,data,nvs,0x9000,0x6000,\nota_0,app,ota_0,0x20000,1M,\nfactory,app,factory,0x120000,1M,";
    for chip in [Chip::Esp32, Chip::Esp32c3, Chip::Esp32s2, Chip::Esp32s3] {
        let merged = match assemble(chip, settings(), Some(&bootloader), &app, Some(&table[..]), true).unwrap() {
            Assembled::Merged(bytes) => bytes,
            Assembled::Discrete(_) => panic!("not merged"),
        };
        let segments = match assemble(chip, settings(), Some(&bootloader), &app, Some(&table[..]), false).unwrap() {
            Assembled::Discrete(segments) => segments,
            Assembled::Merged(_) => panic!("not discrete"),
        };
        assert_eq!(segments[2].load_address, 0x12_0000);
        assert_eq!(merge_segments(&segments), merged);
        let mut by_hand = vec![0xFFu8; merged.len()];
        for s in &segments {
            by_hand[s.load_address as usize..s.load_address as usize + s.data.len()].copy_from_slice(&s.data);
        }
        assert_eq!(by_hand, merged);
    }
}

#[test]
fn merge_writes_later_segments_over_earlier_ones() {
    let segments = vec![
        ImageSegment { load_address: 2, data: vec![1, 1, 1, 1] },
        ImageSegment { load_address: 4, data: vec![2, 2, 2] },
        ImageSegment { load_address: 0, data: vec![] },
    ];
    assert_eq!(merge_segments(&segments), vec![0xFF, 0xFF, 1, 1, 2, 2, 2]);
    assert_eq!(merge_segments(&vec![]), Vec::<u8>::new());
}

#[test]
fn application_goes_to_first_app_partition_without_factory() {
    let app = app_of(10);
    let table = b"nvs,data,nvs,0x9000,0x6000,\nota_0,app,ota_0,0x20000,1M,\nota_1,app,ota_1,0x120000,1M,";
    let image = collect_segments(Chip::Esp32, settings(), None, &app, Some(&table[..])).unwrap();
    assert_eq!(image.segments()[1].load_address, 0x2_0000);
    assert_eq!(image.entry_point(), 0x4008_0000);
    assert_eq!(image.flash_codes(), (2, 2, 0));
}

#[test]
fn binary_table_is_recognised() {
    let app = app_of(10);
    let table = serialize_binary(&default_table());
    let image = collect_segments(Chip::Esp32, settings(), None, &app, Some(&table[..])).unwrap();
    assert_eq!(image.segments()[0].data, table);
    assert_eq!(image.segments()[1].load_address, 0x1_0000);
}

#[test]
fn unsupported_configuration_is_refused_before_anything_is_built() {
    let app = app_of(10);
    let broken_table = b"this is not a table";
    for merge in [false, true] {
        let mut s = settings();
        s.size = FlashSize::Flash512Kb;
        assert_eq!(
            assemble(Chip::Esp32, s, None, &app, Some(&broken_table[..]), merge).unwrap_err(),
            Error::UnsupportedFlashSize { chip: Chip::Esp32, size: FlashSize::Flash512Kb }
        );
        let mut s = settings();
        s.frequency = FlashFrequency::Flash40M;
        assert_eq!(
            assemble(Chip::Esp32c2, s, None, &app, None, merge).unwrap_err(),
            Error::UnsupportedFlashFrequency { chip: Chip::Esp32c2, frequency: FlashFrequency::Flash40M }
        );
        assert_eq!(
            assemble(Chip::Esp8266, settings(), None, &app, None, merge).unwrap_err(),
            Error::UnsupportedChip { chip: Chip::Esp8266 }
        );
    }
}

#[test]
fn table_without_application_partition() {
    let app = app_of(10);
    let table = b"nvs,data,nvs,0x9000,0x6000,";
    assert_eq!(
        assemble(Chip::Esp32, settings(), None, &app, Some(&table[..]), true).unwrap_err(),
        Error::NoAppPartition
    );
}

#[test]
fn refused_table_fails_the_assembly() {
    let app = app_of(10);
    let table = b"nvs,data,nvs,0x9000,0x6000,\nfactory,app,factory,0x10000,8M,";
    assert_eq!(
        assemble(Chip::Esp32, settings(), None, &app, Some(&table[..]), true).unwrap_err(),
        Error::MalformedRow { line: 2, reason: RowError::ExceedsFlash }
    );
}

#[test]
fn overlapping_segments_are_told_with_their_ranges() {
    let app = app_of(10);
    let bootloader = vec![0u8; 0x7001];
    assert_eq!(
        assemble(Chip::Esp32, settings(), Some(&bootloader), &app, None, false).unwrap_err(),
        Error::OverlappingSegments {
            first: Region { offset: 0x1000, length: 0x7001 },
            second: Region { offset: 0x8000, length: 4096 },
        }
    );
    let bootloader = vec![0u8; 0x7000];
    assert!(assemble(Chip::Esp32, settings(), Some(&bootloader), &app, None, false).is_ok());
    let table = b"factory,app,factory,0x4000,0x4000,";
    assert_eq!(
        assemble(Chip::Esp32, settings(), Some(&[0u8; 0x3001][..]), &app, Some(&table[..]), false).unwrap_err(),
        Error::OverlappingSegments {
            first: Region { offset: 0x1000, length: 0x3001 },
            second: Region { offset: 0x4000, length: 40 },
        }
    );
}

#[test]
fn image_beyond_the_flash_is_refused() {
    let app = app_of(0x10_0000);
    let mut s = settings();
    s.size = FlashSize::Flash1Mb;
    match assemble(Chip::Esp32, s, None, &app, None, true).unwrap_err() {
        Error::AddressOutOfRange { address, length } => {
            assert_eq!(address, 0x1_0000);
            assert!(length > 0x10_0000);
        },
        other => panic!("{:?}", other),
    }
}

#[test]
fn application_is_read_back_from_its_image() {
    let app = Application::new(
        0x4008_1234,
        vec![
            ImageSegment { load_address: 0x3f40_0020, data: vec![1, 2, 3] },
            ImageSegment { load_address: 0x4008_0000, data: (0..100).collect() },
            ImageSegment { load_address: 0, data: vec![] },
        ],
    )
    .unwrap();
    let mut image = vec![0xE9, 3, 0, 0, 0x34, 0x12, 0x08, 0x40];
    image.extend_from_slice(&app.encode_body());
    let back = Application::decode(&image).unwrap();
    assert_eq!(back.entry_point(), 0x4008_1234);
    assert_eq!(back.segments(), app.segments());
    image[2] = 3;
    image[3] = 0x4f;
    image.extend_from_slice(&[0xAB; 32]);
    assert_eq!(Application::decode(&image).unwrap().segments(), app.segments());
}

#[test]
fn reassembly_rewrites_only_the_flash_configuration() {
    let mut image = vec![0xE9, 1, 0, 0, 0x00, 0x04, 0x08, 0x40];
    image.extend_from_slice(&[0x00, 0x00, 0x40, 0x3f, 4, 0, 0, 0, 9, 8, 7, 6]);
    image.extend_from_slice(&[0, 0, 0]);
    image.push(0xEF ^ 9 ^ 8 ^ 7 ^ 6);
    let app = Application::decode(&image).unwrap();
    let s = FlashSettings { mode: FlashMode::Qout, frequency: FlashFrequency::Flash80M, size: FlashSize::Flash16Mb };
    let segments = match assemble(Chip::Esp32s3, s, None, &app, None, false).unwrap() {
        Assembled::Discrete(segments) => segments,
        Assembled::Merged(_) => panic!("not discrete"),
    };
    let rebuilt = &segments[1].data;
    assert_eq!(&rebuilt[..4], &[0xE9, 1, 1, 0x4f][..]);
    assert_eq!(&rebuilt[4..], &image[4..]);
}

#[test]
fn damaged_application_images_are_refused() {
    let app = Application::new(7, vec![ImageSegment { load_address: 0x10, data: vec![5; 20] }]).unwrap();
    let mut image = vec![0xE9, 1, 0, 0, 7, 0, 0, 0];
    image.extend_from_slice(&app.encode_body());
    assert_eq!(image.len(), 8 + 32);
    assert_eq!(Application::decode(&[]).unwrap_err(), Error::BadMagic { offset: 0 });
    assert_eq!(Application::decode(&image[..7]).unwrap_err(), Error::BadMagic { offset: 0 });
    let mut wrong = image.clone();
    wrong[0] = 0xEA;
    assert_eq!(Application::decode(&wrong).unwrap_err(), Error::BadMagic { offset: 0 });
    let mut wrong = image.clone();
    wrong[20] ^= 1;
    assert_eq!(Application::decode(&wrong).unwrap_err(), Error::ChecksumMismatch { offset: 39 });
    let mut wrong = image.clone();
    wrong[39] ^= 0x80;
    assert_eq!(Application::decode(&wrong).unwrap_err(), Error::ChecksumMismatch { offset: 39 });
    assert_eq!(Application::decode(&image[..39]).unwrap_err(), Error::ChecksumMismatch { offset: 39 });
    assert_eq!(Application::decode(&image[..30]).unwrap_err(), Error::ChecksumMismatch { offset: 30 });
    assert_eq!(Application::decode(&image[..12]).unwrap_err(), Error::ChecksumMismatch { offset: 12 });
    let mut wrong = image.clone();
    wrong[1] = 2;
    assert!(Application::decode(&wrong).is_err());
}

#[test]
fn assembly_step_by_step() {
    let app = app_of(10);
    let image = espflash::assemble::Assembler::new(Chip::Esp32, settings()).collect(None, &app, None).unwrap();
    assert_eq!(image.segments().len(), 2);
    let merged = image.merge();
    match image.finish(true) {
        Assembled::Merged(bytes) => assert_eq!(bytes, merged),
        Assembled::Discrete(_) => panic!("not merged"),
    }
    let image = espflash::assemble::Assembler::new(Chip::Esp32, settings()).collect(None, &app, None).unwrap();
    match image.finish(false) {
        Assembled::Discrete(segments) => assert_eq!(merge_segments(&segments), merged),
        Assembled::Merged(_) => panic!("not discrete"),
    }
}
