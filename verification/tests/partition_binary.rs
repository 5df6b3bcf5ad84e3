use espflash::binary::{parse_binary, serialize_binary};
use espflash::error::{Error, RowError};
use espflash::partition::{Defect, PartitionEntry, PartitionTable, PartitionType};

fn entry(name: &str, ptype: PartitionType, subtype: u8, offset: u32, size: u32) -> PartitionEntry {
    PartitionEntry { name: name.as_bytes().to_vec(), ptype, subtype, offset, size, flags: 0 }
}

fn sample() -> Vec<PartitionEntry> {
    vec![
        entry("nvs", PartitionType::Data, 0x02, 0x9000, 0x6000),
        entry("phy_init", PartitionType::Data, 0x01, 0xf000, 0x1000),
        entry("factory", PartitionType::App, 0x00, 0x10000, 0x3f0000),
    ]
}

fn record(name: &[u8], ptype: u8, subtype: u8, offset: u32, size: u32, flags: u32) -> Vec<u8> {
    let mut r = vec![0xAA, 0x50, ptype, subtype];
    r.extend_from_slice(&offset.to_le_bytes());
    r.extend_from_slice(&size.to_le_bytes());
    let mut field = [0u8; 16];
    field[..name.len()].copy_from_slice(name);
    r.extend_from_slice(&field);
    r.extend_from_slice(&flags.to_le_bytes());
    r
}

#[test]
fn binary_layout_of_one_entry() {
    let table = PartitionTable::new(vec![entry("nvs", PartitionType::Data, 0x02, 0x9000, 0x6000)], 0x40_0000).unwrap();
    let bytes = serialize_binary(&table);
    assert_eq!(bytes.len(), 4096);
    assert_eq!(
        &bytes[..32],
        &[
            0xAA, 0x50, 0x01, 0x02, 0x00, 0x90, 0x00, 0x00, 0x00, 0x60, 0x00, 0x00, b'n', b'v', b's', 0, 0, 0,
            0, 0, 0, 0, 0, 0, 0, 0, 0, 0, 0, 0, 0, 0
        ][..]
    );
    assert_eq!(&bytes[32..34], &[0xEB, 0xEB]);
    assert!(bytes[34..48].iter().all(|b| *b == 0xFF));
    assert_eq!(&bytes[48..64], &md5::compute(&bytes[..32]).0[..]);
    assert!(bytes[64..].iter().all(|b| *b == 0xFF));
}

#[test]
fn seal_of_empty_table_is_md5_of_nothing() {
    let table = PartitionTable::new(vec![], 0x40_0000).unwrap();
    let bytes = serialize_binary(&table);
    assert_eq!(bytes.len(), 4096);
    assert_eq!(&bytes[..2], &[0xEB, 0xEB]);
    assert_eq!(
        &bytes[16..32],
        &[
            0xd4, 0x1d, 0x8c, 0xd9, 0x8f, 0x00, 0xb2, 0x04, 0xe9, 0x80, 0x09, 0x98, 0xec, 0xf8, 0x42, 0x7e
        ][..]
    );
}

#[test]
fn binary_round_trip() {
    let table = PartitionTable::new(sample(), 0x40_0000).unwrap();
    let bytes = serialize_binary(&table);
    let back = parse_binary(&bytes, 0x40_0000).unwrap();
    assert_eq!(back.entries(), &sample());
}

#[test]
fn binary_round_trip_with_custom_type_and_flags() {
    let mut e = entry("0123456789abcdef", PartitionType::Custom(0x40), 0xfe, 0x20_0000, 0x1000);
    e.flags = 1;
    let table = PartitionTable::new(vec![e.clone()], 0x40_0000).unwrap();
    let back = parse_binary(&serialize_binary(&table), 0x40_0000).unwrap();
    assert_eq!(back.entries(), &vec![e]);
}

#[test]
fn serialized_length_is_whole_sectors() {
    for n in [0usize, 1, 3, 126, 127, 128, 200] {
        let entries: Vec<PartitionEntry> = (0..n)
            .map(|i| entry(&format!("p{}", i), PartitionType::Data, 0x40, 0x9000 + 0x1000 * i as u32, 0x1000))
            .collect();
        let table = PartitionTable::new(entries, 0x800_0000).unwrap();
        let bytes = serialize_binary(&table);
        assert_eq!(bytes.len() % 4096, 0);
        let expected = (32 * n + 32 + 4095) / 4096 * 4096;
        assert_eq!(bytes.len(), expected);
    }
}

#[test]
fn parse_stops_at_end_marker() {
    let mut bytes = record(b"nvs", 1, 2, 0x9000, 0x6000, 0);
    bytes.extend_from_slice(&[0xFF; 32]);
    bytes.extend_from_slice(&[0x00; 32]);
    let table = parse_binary(&bytes, 0x40_0000).unwrap();
    assert_eq!(table.entries(), &vec![entry("nvs", PartitionType::Data, 2, 0x9000, 0x6000)]);
}

#[test]
fn parse_accepts_end_of_bytes() {
    let bytes = record(b"nvs", 1, 2, 0x9000, 0x6000, 0);
    let table = parse_binary(&bytes, 0x40_0000).unwrap();
    assert_eq!(table.entries().len(), 1);
    assert_eq!(parse_binary(&[], 0x40_0000).unwrap().entries().len(), 0);
}

#[test]
fn bad_magic_is_told_with_its_offset() {
    let mut bytes = record(b"nvs", 1, 2, 0x9000, 0x6000, 0);
    let mut wrong = record(b"phy", 1, 1, 0xf000, 0x1000, 0);
    wrong[1] = 0x51;
    bytes.extend_from_slice(&wrong);
    assert_eq!(parse_binary(&bytes, 0x40_0000).unwrap_err(), Error::BadMagic { offset: 32 });
    let truncated = &record(b"nvs", 1, 2, 0x9000, 0x6000, 0)[..20];
    assert_eq!(parse_binary(truncated, 0x40_0000).unwrap_err(), Error::BadMagic { offset: 0 });
}

#[test]
fn checksum_mismatch_is_told_with_its_offset() {
    let table = PartitionTable::new(sample(), 0x40_0000).unwrap();
    let mut bytes = serialize_binary(&table);
    bytes[4] ^= 0x10;
    assert_eq!(parse_binary(&bytes, 0x40_0000).unwrap_err(), Error::ChecksumMismatch { offset: 96 });
    let mut bytes = serialize_binary(&table);
    bytes[96 + 31] ^= 0x01;
    assert_eq!(parse_binary(&bytes, 0x40_0000).unwrap_err(), Error::ChecksumMismatch { offset: 96 });
}

#[test]
fn overlapping_binary_table_is_refused() {
    let mut bytes = record(b"a", 1, 2, 0x9000, 0x6000, 0);
    bytes.extend_from_slice(&record(b"b", 1, 1, 0xe000, 0x1000, 0));
    assert_eq!(
        parse_binary(&bytes, 0x40_0000).unwrap_err(),
        Error::MalformedRow { line: 2, reason: RowError::Overlap }
    );
    let mut bytes = record(b"a", 1, 2, 0x9000, 0x6000, 0);
    bytes.extend_from_slice(&record(b"b", 1, 1, 0x8000, 0x2000, 0));
    assert_eq!(
        parse_binary(&bytes, 0x40_0000).unwrap_err(),
        Error::MalformedRow { line: 2, reason: RowError::NotMonotonic }
    );
}

#[test]
fn overlap_comes_before_other_defects() {
    let entries = vec![
        entry("bad name", PartitionType::Data, 2, 0x9000, 0x6000),
        entry("b", PartitionType::Data, 1, 0xa000, 0x1000),
    ];
    assert_eq!(
        PartitionTable::new(entries, 0x40_0000).unwrap_err(),
        Defect { index: 1, reason: RowError::Overlap }
    );
}

#[test]
fn each_defect_of_an_entry() {
    let check = |e: PartitionEntry, reason: RowError| {
        assert_eq!(PartitionTable::new(vec![e], 0x40_0000).unwrap_err(), Defect { index: 0, reason });
    };
    check(entry("seventeen_bytes__", PartitionType::Data, 2, 0x9000, 0x1000), RowError::Name);
    check(entry("a,b", PartitionType::Data, 2, 0x9000, 0x1000), RowError::Name);
    check(entry("a", PartitionType::Custom(1), 2, 0x9000, 0x1000), RowError::Type);
    check(entry("a", PartitionType::Custom(255), 2, 0x9000, 0x1000), RowError::Type);
    check(entry("a", PartitionType::Data, 2, 0, 0x1000), RowError::Offset);
    check(entry("a", PartitionType::Data, 2, 0x9100, 0x1000), RowError::Offset);
    check(entry("a", PartitionType::Data, 2, 0x9000, 0), RowError::Size);
    check(entry("a", PartitionType::Data, 2, 0x9000, 0x1234), RowError::Size);
    check(entry("a", PartitionType::Data, 2, 0x3f_f000, 0x2000), RowError::ExceedsFlash);
    check(entry("a", PartitionType::Data, 2, 0xffff_f000, 0x1000), RowError::ExceedsFlash);
}

#[test]
fn duplicates_are_refused() {
    let entries = vec![
        entry("a", PartitionType::Data, 2, 0x9000, 0x1000),
        entry("a", PartitionType::Data, 1, 0xa000, 0x1000),
    ];
    assert_eq!(
        PartitionTable::new(entries, 0x40_0000).unwrap_err(),
        Defect { index: 1, reason: RowError::DuplicateName }
    );
    let entries = vec![
        entry("a", PartitionType::App, 0, 0x10000, 0x10000),
        entry("b", PartitionType::App, 0x10, 0x20000, 0x10000),
        entry("c", PartitionType::App, 0, 0x30000, 0x10000),
    ];
    assert_eq!(
        PartitionTable::new(entries, 0x40_0000).unwrap_err(),
        Defect { index: 2, reason: RowError::DuplicateFactory }
    );
}

#[test]
fn table_fits_only_a_flash_that_holds_it() {
    let table = PartitionTable::new(sample(), 0x40_0000).unwrap();
    assert!(table.fits(0x40_0000));
    assert!(table.fits(0x80_0000));
    assert!(!table.fits(0x20_0000));
}
