use espflash::error::{Error, RowError};
use espflash::partition::{PartitionEntry, PartitionTable, PartitionType};
use espflash::text::{next_auto_offset, parse_text, parse_text_with, serialize_text};
use espflash::words::SubtypeKeyword;

fn entry(name: &str, ptype: PartitionType, subtype: u8, offset: u32, size: u32, flags: u32) -> PartitionEntry {
    PartitionEntry { name: name.as_bytes().to_vec(), ptype, subtype, offset, size, flags }
}

fn row_error(text: &str) -> (usize, RowError) {
    match parse_text(text.as_bytes(), 0x40_0000).unwrap_err() {
        Error::MalformedRow { line, reason } => (line, reason),
        other => panic!("{:?}", other),
    }
}

#[test]
fn parses_the_usual_table() {
    let text = "# Name,   Type, SubType, Offset,  Size, Flags\n\
                nvs,      data, nvs,     0x9000,  0x6000,\n\
                phy_init, data, phy,     0xf000,  0x1000,\r\n\
                \n\
                factory,  app,  factory, 0x10000, 1M,\n";
    let table = parse_text(text.as_bytes(), 0x40_0000).unwrap();
    assert_eq!(
        table.entries(),
        &vec![
            entry("nvs", PartitionType::Data, 0x02, 0x9000, 0x6000, 0),
            entry("phy_init", PartitionType::Data, 0x01, 0xf000, 0x1000, 0),
            entry("factory", PartitionType::App, 0x00, 0x10000, 0x10_0000, 0),
        ]
    );
}

#[test]
fn numbers_in_three_notations() {
    let text = "a,data,0x82,36864,4K,0x1\nb,0x40,7,0xA000,8k,readonly\nc,app,ota_15,0x10000,2m,2";
    let table = parse_text(text.as_bytes(), 0x40_0000).unwrap();
    assert_eq!(
        table.entries(),
        &vec![
            entry("a", PartitionType::Data, 0x82, 0x9000, 0x1000, 1),
            entry("b", PartitionType::Custom(0x40), 7, 0xa000, 0x2000, 1),
            entry("c", PartitionType::App, 0x1f, 0x10000, 0x20_0000, 2),
        ]
    );
}

#[test]
fn numeric_types_zero_and_one_are_the_named_ones() {
    let table = parse_text(b"a,0,factory,0x10000,0x1000,\nb,1,spiffs,0x20000,0x1000,", 0x40_0000).unwrap();
    assert_eq!(table.entries()[0].ptype, PartitionType::App);
    assert_eq!(table.entries()[1].ptype, PartitionType::Data);
    assert_eq!(table.entries()[1].subtype, 0x82);
}

#[test]
fn ota_slots() {
    let table =
        parse_text(b"a,app,ota_0,0x10000,0x1000,\nb,app,ota_9,0x20000,0x1000,\nc,app,ota_10,0x30000,0x1000,", 0x40_0000)
            .unwrap();
    let subtypes: Vec<u8> = table.entries().iter().map(|e| e.subtype).collect();
    assert_eq!(subtypes, vec![0x10, 0x19, 0x1a]);
    assert_eq!(row_error("a,app,ota_16,0x10000,0x1000,"), (1, RowError::Subtype));
    assert_eq!(row_error("a,data,ota_1,0x10000,0x1000,"), (1, RowError::Subtype));
}

#[test]
fn empty_offsets_are_computed() {
    let text = "nvs,data,nvs,,0x6000,\nphy_init,data,phy,,0x1000,\nfactory,app,factory,0x20000,1M,\nfs,data,spiffs,,0x10000,";
    let table = parse_text(text.as_bytes(), 0x40_0000).unwrap();
    let offsets: Vec<u32> = table.entries().iter().map(|e| e.offset).collect();
    assert_eq!(offsets, vec![0x9000, 0xf000, 0x20000, 0x12_0000]);
}

#[test]
fn auto_offset_rounds_up_never_down() {
    assert_eq!(next_auto_offset(0x9000, 0x1234), 0xb000);
    assert_eq!(next_auto_offset(0x9000, 0x1001), 0xb000);
    assert_eq!(next_auto_offset(0x9000, 0x1fff), 0xb000);
    assert_eq!(next_auto_offset(0x9000, 0x1000), 0xa000);
    assert_eq!(next_auto_offset(0x9000, 1), 0xa000);
    assert_eq!(next_auto_offset(0xffff_f000, 0xffff_ffff), 0x1_ffff_f000);
}

#[test]
fn row_whose_end_is_not_aligned_is_refused() {
    assert_eq!(row_error("a,data,nvs,0x9000,0x1234,\nb,data,phy,,0x1000,"), (1, RowError::Size));
}

#[test]
fn auto_offset_beyond_the_address_space_is_refused() {
    let text = "a,data,nvs,0xfffff000,0x1000,\nb,data,phy,,0x1000,";
    assert_eq!(
        parse_text(text.as_bytes(), 0xffff_ffff).unwrap_err(),
        Error::MalformedRow { line: 2, reason: RowError::Offset }
    );
}

#[test]
fn each_row_error() {
    assert_eq!(row_error("a,data,nvs,0x9000,0x1000"), (1, RowError::FieldCount));
    assert_eq!(row_error("a,data,nvs,0x9000,0x1000,,"), (1, RowError::FieldCount));
    assert_eq!(row_error("\n# c\na,dat,nvs,0x9000,0x1000,"), (3, RowError::Type));
    assert_eq!(row_error("a,255,1,0x9000,0x1000,"), (1, RowError::Type));
    assert_eq!(row_error("a,data,nope,0x9000,0x1000,"), (1, RowError::Subtype));
    assert_eq!(row_error("a,data,256,0x9000,0x1000,"), (1, RowError::Subtype));
    assert_eq!(row_error("a,0x40,nvs,0x9000,0x1000,"), (1, RowError::Subtype));
    assert_eq!(row_error("a,data,nvs,0x,0x1000,"), (1, RowError::Offset));
    assert_eq!(row_error("a,data,nvs,0x100000000,0x1000,"), (1, RowError::Offset));
    assert_eq!(row_error("a,data,nvs,0x9000,4G,"), (1, RowError::Size));
    assert_eq!(row_error("a,data,nvs,0x9000,4096M,"), (1, RowError::Size));
    assert_eq!(row_error("a,data,nvs,0x9000,,"), (1, RowError::Size));
    assert_eq!(row_error("a,data,nvs,0x9000,0x1000,rw"), (1, RowError::Flags));
    assert_eq!(row_error("a,data,nvs,0,0x1000,"), (1, RowError::Offset));
    assert_eq!(row_error("a,data,nvs,0x9001,0x1000,"), (1, RowError::Offset));
    assert_eq!(row_error("a b,data,nvs,0x9000,0x1000,"), (1, RowError::Name));
    assert_eq!(row_error("a,data,nvs,0x9000,0x1000,\n\na,data,phy,0xa000,0x1000,"), (3, RowError::DuplicateName));
    assert_eq!(row_error("a,data,nvs,0x9000,0x400000,"), (1, RowError::ExceedsFlash));
    assert_eq!(
        row_error("a,app,factory,0x10000,0x1000,\nb,app,factory,0x20000,0x1000,"),
        (2, RowError::DuplicateFactory)
    );
}

#[test]
fn overlapping_rows_are_refused() {
    assert_eq!(row_error("# t\na,data,nvs,0x9000,0x6000,\nb,data,phy,0xe000,0x1000,"), (3, RowError::Overlap));
    assert_eq!(row_error("a,data,nvs,0x9000,0x6000,\nb,data,phy,0x9000,0x1000,"), (2, RowError::Overlap));
    assert_eq!(row_error("a,data,nvs,0xa000,0x6000,\n\n\nb,data,phy,0x9000,0x1000,"), (4, RowError::NotMonotonic));
    assert_eq!(
        row_error("a,data,nvs,0x9000,0x1000,\nb,data,phy,0xa000,0x3000,\nc,data,2,0xb000,0x1000,"),
        (3, RowError::Overlap)
    );
}

#[test]
fn text_form_of_a_table() {
    let table = PartitionTable::new(
        vec![
            entry("nvs", PartitionType::Data, 0x02, 0x9000, 0x6000, 0),
            entry("phy_init", PartitionType::Data, 0x01, 0xf000, 0x1000, 0),
            entry("factory", PartitionType::App, 0x00, 0x10000, 0x3f0000, 0),
            entry("ota_a", PartitionType::App, 0x1b, 0x400000, 0x100000, 1),
            entry("blob", PartitionType::Custom(0x40), 0xab, 0x500000, 0x1000, 0xffff_ffff),
            entry("d", PartitionType::Data, 0x99, 0x600000, 0x1000, 0),
        ],
        0x80_0000,
    )
    .unwrap();
    let text = String::from_utf8(serialize_text(&table)).unwrap();
    assert_eq!(
        text,
        "nvs,data,nvs,0x9000,0x6000,0x0\n\
         phy_init,data,phy,0xf000,0x1000,0x0\n\
         factory,app,factory,0x10000,0x3f0000,0x0\n\
         ota_a,app,ota_11,0x400000,0x100000,0x1\n\
         blob,0x40,0xab,0x500000,0x1000,0xffffffff\n\
         d,data,0x99,0x600000,0x1000,0x0\n"
    );
}

#[test]
fn text_round_trip() {
    let entries = vec![
        entry("", PartitionType::Data, 0x02, 0x9000, 0x6000, 0),
        entry("phy_init", PartitionType::Data, 0x01, 0xf000, 0x1000, 7),
        entry("factory", PartitionType::App, 0x00, 0x10000, 0x3f0000, 0),
        entry("ota_a", PartitionType::App, 0x10, 0x400000, 0x100000, 1),
        entry("x-y.z", PartitionType::Custom(254), 0xff, 0x500000, 0x1000, 0),
    ];
    let table = PartitionTable::new(entries.clone(), 0x80_0000).unwrap();
    let back = parse_text(&serialize_text(&table), 0x80_0000).unwrap();
    assert_eq!(back.entries(), &entries);
}

#[test]
fn keywords_of_the_caller() {
    let extra = vec![
        SubtypeKeyword { name: b"coredump".to_vec(), ptype: PartitionType::Data, value: 0x03 },
        SubtypeKeyword { name: b"test".to_vec(), ptype: PartitionType::App, value: 0x20 },
        SubtypeKeyword { name: b"nvs".to_vec(), ptype: PartitionType::Data, value: 0x77 },
    ];
    let text = b"a,data,coredump,0x9000,0x1000,\nb,app,test,0x10000,0x1000,\nc,data,nvs,0x20000,0x1000,";
    let table = parse_text_with(text, 0x40_0000, &extra).unwrap();
    let subtypes: Vec<u8> = table.entries().iter().map(|e| e.subtype).collect();
    assert_eq!(subtypes, vec![0x03, 0x20, 0x02]);
    assert_eq!(
        parse_text(text, 0x40_0000).unwrap_err(),
        Error::MalformedRow { line: 1, reason: RowError::Subtype }
    );
    assert_eq!(
        parse_text_with(b"a,app,coredump,0x10000,0x1000,", 0x40_0000, &extra).unwrap_err(),
        Error::MalformedRow { line: 1, reason: RowError::Subtype }
    );
}

#[test]
fn empty_text_is_an_empty_table() {
    assert_eq!(parse_text(b"", 0x40_0000).unwrap().entries().len(), 0);
    assert_eq!(parse_text(b"\n  \n# only a comment\n", 0x40_0000).unwrap().entries().len(), 0);
}
