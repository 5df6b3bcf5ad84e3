//! The binary form of a partition table, as it lies in flash: records of 32
//! bytes, sealed by an MD5 record and padded with erased bytes to whole
//! sectors.

use vstd::prelude::*;
use vstd::slice::slice_subrange;
use crate::bytes::{align_up, le32, le32_value, lemma_le32_value, push_le32, read_le32};
use crate::digest::{md5, md5_digest};
use crate::error::Error;
use crate::partition::{
    lemma_no_defect_iff_ok, name_ok, first_defect, table_ok, EntryView, PartitionEntry,
    PartitionTable, PartitionType, views,
};

verus! {

/// The length of one record.
pub const RECORD_LEN: usize = 32;

/// The length of the name field of a record.
pub const NAME_FIELD: usize = 16;

/// What erased flash reads as.
pub const ERASED: u8 = 0xFF;

/// `count` bytes of value `b`.
pub open spec fn fill(count: int, b: u8) -> Seq<u8> {
    Seq::new(
        if count >= 0 {
            count as nat
        } else {
            0
        },
        |i: int| b,
    )
}

/// A name padded with zero bytes to the sixteen of its field.
pub open spec fn padded_name(name: Seq<u8>) -> Seq<u8> {
    name + fill(16 - name.len(), 0u8)
}

/// The record of one entry: magic, type, subtype, offset, size, name, flags.
pub open spec fn encode_entry(e: EntryView) -> Seq<u8> {
    seq![0xAAu8, 0x50u8, e.ptype.spec_code(), e.subtype] + le32(e.offset) + le32(e.size)
        + padded_name(e.name) + le32(e.flags)
}

/// The index of the first zero byte of `field` from `from` on, or the length
/// of the field where there is none.
pub open spec fn first_nul(field: Seq<u8>, from: int) -> int
    decreases field.len() - from,
{
    if from < 0 || from >= field.len() || field[from] == 0 {
        from
    } else {
        first_nul(field, from + 1)
    }
}

/// The name in a name field: the bytes before the first zero byte.
pub open spec fn unpadded_name(field: Seq<u8>) -> Seq<u8> {
    field.take(first_nul(field, 0))
}

/// The entry that a record of 32 bytes spells.
pub open spec fn decode_entry(rec: Seq<u8>) -> EntryView {
    EntryView {
        name: unpadded_name(rec.subrange(12, 28)),
        ptype: PartitionType::spec_from_code(rec[2]),
        subtype: rec[3],
        offset: le32_value(rec.subrange(4, 8)) as u32,
        size: le32_value(rec.subrange(8, 12)) as u32,
        flags: le32_value(rec.subrange(28, 32)) as u32,
    }
}

/// The records of a run of entries, one after the other.
pub open spec fn encode_entries(es: Seq<EntryView>) -> Seq<u8>
    decreases es.len(),
{
    if es.len() == 0 {
        Seq::empty()
    } else {
        encode_entries(es.drop_last()) + encode_entry(es.last())
    }
}

/// The record that seals a table: its magic, fourteen erased bytes, and the
/// MD5 digest of the records before it.
pub open spec fn md5_record(body: Seq<u8>) -> Seq<u8> {
    seq![0xEBu8, 0xEBu8] + fill(14, 0xFFu8) + md5_digest(body)@
}

/// The binary form of a table: the records, the seal, and erased bytes up to
/// the next sector boundary.
pub open spec fn serialize_binary_spec(es: Seq<EntryView>) -> Seq<u8> {
    let sealed = encode_entries(es) + md5_record(encode_entries(es));
    sealed + fill(align_up(sealed.len() as int) - sealed.len(), 0xFFu8)
}

/// Whether a record is the end marker: 32 erased bytes.
pub open spec fn is_end_marker(rec: Seq<u8>) -> bool {
    forall|i: int| 0 <= i < 32 ==> #[trigger] rec[i] == 0xFFu8
}

/// `first` put before what `rest` holds, where it holds entries.
pub open spec fn prepend(first: EntryView, rest: Result<Seq<EntryView>, Error>) -> Result<
    Seq<EntryView>,
    Error,
> {
    match rest {
        Ok(es) => Ok(seq![first] + es),
        Err(e) => Err(e),
    }
}

/// The entries that the records of `bytes` spell from byte `at` on. Reading
/// ends at the end of the bytes, at an end marker, or at a seal whose digest
/// is that of the bytes before it.
pub open spec fn read_records(bytes: Seq<u8>, at: int) -> Result<Seq<EntryView>, Error>
    decreases bytes.len() - at,
{
    if at < 0 || at >= bytes.len() {
        Ok(Seq::empty())
    } else if at + 32 > bytes.len() {
        Err(Error::BadMagic { offset: at as usize })
    } else {
        let rec = bytes.subrange(at, at + 32);
        if is_end_marker(rec) {
            Ok(Seq::empty())
        } else if rec[0] == 0xEB && rec[1] == 0xEB {
            if rec.subrange(16, 32) == md5_digest(bytes.subrange(0, at))@ {
                Ok(Seq::empty())
            } else {
                Err(Error::ChecksumMismatch { offset: at as usize })
            }
        } else if rec[0] == 0xAA && rec[1] == 0x50 {
            prepend(decode_entry(rec), read_records(bytes, at + 32))
        } else {
            Err(Error::BadMagic { offset: at as usize })
        }
    }
}

/// What `parse_binary` returns: the entries that the records spell, where
/// they make a valid table for a flash of `flash` bytes; else the first
/// failure. A defect of the table is told with the number of the record,
/// counted from one.
pub open spec fn parse_binary_spec(bytes: Seq<u8>, flash: u32) -> Result<Seq<EntryView>, Error> {
    match read_records(bytes, 0) {
        Err(e) => Err(e),
        Ok(es) => match first_defect(es, flash) {
            Some((k, reason)) => Err(Error::MalformedRow { line: (k + 1) as usize, reason }),
            None => Ok(es),
        },
    }
}

/// The records of `n` entries take `32 * n` bytes.
pub proof fn lemma_encode_entries_len(es: Seq<EntryView>)
    requires
        forall|i: int| 0 <= i < es.len() ==> (#[trigger] es[i]).name.len() <= 16,
    ensures
        encode_entries(es).len() == 32 * (es.len() as int),
    decreases es.len(),
{
    if es.len() > 0 {
        assert forall|i: int| 0 <= i < es.drop_last().len() implies (#[trigger] es.drop_last()[i]).name.len() <= 16 by {
            assert(es.drop_last()[i] == es[i]);
        }
        assert(es.last() == es[es.len() - 1]);
        lemma_encode_entries_len(es.drop_last());
    }
}

/// The record of entry `i` lies at byte `32 * i`.
pub proof fn lemma_encode_entries_record(es: Seq<EntryView>, i: int)
    requires
        forall|k: int| 0 <= k < es.len() ==> (#[trigger] es[k]).name.len() <= 16,
        0 <= i < es.len(),
    ensures
        encode_entries(es).len() == 32 * (es.len() as int),
        encode_entries(es).subrange(32 * i, 32 * i + 32) == encode_entry(es[i]),
    decreases es.len(),
{
    lemma_encode_entries_len(es);
    let front = es.drop_last();
    assert forall|k: int| 0 <= k < front.len() implies (#[trigger] front[k]).name.len() <= 16 by {
        assert(front[k] == es[k]);
    }
    lemma_encode_entries_len(front);
    assert(es.last() == es[es.len() - 1]);
    if i == es.len() - 1 {
        assert(encode_entries(es).subrange(32 * i, 32 * i + 32) =~= encode_entry(es[i]));
    } else {
        lemma_encode_entries_record(front, i);
        assert(front[i] == es[i]);
        assert(encode_entries(es).subrange(32 * i, 32 * i + 32) =~= encode_entries(
            front,
        ).subrange(32 * i, 32 * i + 32));
    }
}

/// A name without zero bytes is read back from its padded field.
pub proof fn lemma_unpad_padded(name: Seq<u8>)
    requires
        name.len() <= 16,
        forall|i: int| 0 <= i < name.len() ==> #[trigger] name[i] != 0,
    ensures
        padded_name(name).len() == 16,
        unpadded_name(padded_name(name)) == name,
{
    let field = padded_name(name);
    lemma_first_nul_padded(name, 0);
    assert(field.take(name.len() as int) =~= name);
}

proof fn lemma_first_nul_padded(name: Seq<u8>, from: int)
    requires
        name.len() <= 16,
        forall|i: int| 0 <= i < name.len() ==> #[trigger] name[i] != 0,
        0 <= from <= name.len(),
    ensures
        first_nul(padded_name(name), from) == name.len(),
    decreases name.len() - from,
{
    let field = padded_name(name);
    if from < name.len() {
        assert(field[from] == name[from]);
        lemma_first_nul_padded(name, from + 1);
    } else if from < 16 {
        assert(field[from] == 0u8);
    }
}

/// A record is read back as the entry it was written for, and is neither an
/// end marker nor a seal.
pub proof fn lemma_decode_encoded(e: EntryView)
    requires
        name_ok(e.name),
        e.ptype.ok(),
    ensures
        encode_entry(e).len() == 32,
        decode_entry(encode_entry(e)) == e,
        !is_end_marker(encode_entry(e)),
        encode_entry(e)[0] == 0xAA,
        encode_entry(e)[1] == 0x50,
{
    let rec = encode_entry(e);
    assert forall|i: int| 0 <= i < e.name.len() implies #[trigger] e.name[i] != 0 by {
        assert(crate::partition::name_byte_ok(e.name[i]));
    }
    lemma_unpad_padded(e.name);
    lemma_le32_value(e.offset);
    lemma_le32_value(e.size);
    lemma_le32_value(e.flags);
    assert(rec.len() == 32);
    assert(rec[0] == 0xAAu8);
    assert(rec.subrange(4, 8) =~= le32(e.offset));
    assert(rec.subrange(8, 12) =~= le32(e.size));
    assert(rec.subrange(12, 28) =~= padded_name(e.name));
    assert(rec.subrange(28, 32) =~= le32(e.flags));
    assert(rec[2] == e.ptype.spec_code());
    assert(rec[3] == e.subtype);
    assert(PartitionType::spec_from_code(e.ptype.spec_code()) == e.ptype);
    assert(decode_entry(rec).name == e.name);
}

/// The length of a serialized table is a multiple of 4096, and the records
/// and the seal lie at its start.
pub proof fn lemma_serialized_layout(es: Seq<EntryView>)
    requires
        forall|i: int| 0 <= i < es.len() ==> (#[trigger] es[i]).name.len() <= 16,
    ensures
        serialize_binary_spec(es).len() % 4096 == 0,
        serialize_binary_spec(es).len() == align_up(32 * (es.len() as int) + 32),
        serialize_binary_spec(es).subrange(0, 32 * (es.len() as int)) == encode_entries(es),
        serialize_binary_spec(es).subrange(32 * (es.len() as int), 32 * (es.len() as int) + 32) == md5_record(
            encode_entries(es),
        ),
{
    lemma_encode_entries_len(es);
    let body = encode_entries(es);
    let sealed = body + md5_record(body);
    assert(md5_record(body).len() == 32);
    crate::bytes::lemma_align_up(sealed.len() as int);
    assert(serialize_binary_spec(es).subrange(0, 32 * (es.len() as int)) =~= body);
    assert(serialize_binary_spec(es).subrange(32 * (es.len() as int), 32 * (es.len() as int) + 32) =~= md5_record(
        body,
    ));
}

/// Reading a serialized table from record `k` on gives the entries from
/// `k` on.
pub proof fn lemma_read_serialized(es: Seq<EntryView>, k: int)
    requires
        forall|i: int| 0 <= i < es.len() ==> name_ok((#[trigger] es[i]).name) && es[i].ptype.ok(),
        0 <= k <= es.len(),
    ensures
        read_records(serialize_binary_spec(es), 32 * k) == Ok::<Seq<EntryView>, Error>(es.skip(k)),
    decreases es.len() - k,
{
    let bytes = serialize_binary_spec(es);
    let body = encode_entries(es);
    assert forall|i: int| 0 <= i < es.len() implies (#[trigger] es[i]).name.len() <= 16 by {
        assert(name_ok(es[i].name));
    }
    lemma_serialized_layout(es);
    crate::bytes::lemma_align_up(32 * (es.len() as int) + 32);
    let at = 32 * k;
    let rec = bytes.subrange(at, at + 32);
    if k == es.len() {
        assert(rec == md5_record(body));
        assert(rec[0] == 0xEBu8);
        assert(rec[1] == 0xEBu8);
        assert(!is_end_marker(rec));
        assert(rec.subrange(16, 32) =~= md5_digest(body)@);
        assert(bytes.subrange(0, at) == body);
        assert(es.skip(k) =~= Seq::<EntryView>::empty());
    } else {
        lemma_encode_entries_record(es, k);
        assert(rec =~= body.subrange(32 * k, 32 * k + 32)) by {
            assert(bytes.subrange(0, 32 * (es.len() as int)) == body);
            assert forall|i: int| 0 <= i < 32 implies rec[i] == body.subrange(32 * k, 32 * k + 32)[i] by {
                assert(bytes.subrange(0, 32 * (es.len() as int))[32 * k + i] == bytes[32 * k + i]);
            }
        }
        lemma_decode_encoded(es[k]);
        lemma_read_serialized(es, k + 1);
        assert(seq![es[k]] + es.skip(k + 1) =~= es.skip(k));
    }
}

/// Serializing a valid table and parsing the bytes gives the table again.
pub proof fn lemma_binary_round_trip(es: Seq<EntryView>, flash: u32)
    requires
        table_ok(es, flash),
    ensures
        parse_binary_spec(serialize_binary_spec(es), flash) == Ok::<Seq<EntryView>, Error>(es),
{
    assert forall|i: int| 0 <= i < es.len() implies name_ok((#[trigger] es[i]).name)
        && es[i].ptype.ok() by {
        assert(crate::partition::entry_defect_at(es, flash, i) is None);
    }
    lemma_read_serialized(es, 0);
    assert(es.skip(0) =~= es);
    lemma_no_defect_iff_ok(es, flash);
}

/// A binary table whose records spell two entries that share an address is
/// refused for an entry out of place, whatever else is wrong with the table.
pub proof fn lemma_binary_overlap_refused(bytes: Seq<u8>, flash: u32, i: int, j: int)
    requires
        read_records(bytes, 0) matches Ok(es) && {
            &&& 0 <= i < es.len()
            &&& 0 <= j < es.len()
            &&& i != j
            &&& es[i].intersects(es[j])
        },
    ensures
        parse_binary_spec(bytes, flash) matches Err(Error::MalformedRow { reason, .. })
            && reason.is_overlap_class(),
{
    crate::partition::lemma_intersecting_entries_refused(read_records(bytes, 0)->Ok_0, flash, i, j);
}

/// `first` put before what `rest` holds, where it holds entries.
pub open spec fn prepend_all(first: Seq<EntryView>, rest: Result<Seq<EntryView>, Error>) -> Result<
    Seq<EntryView>,
    Error,
> {
    match rest {
        Ok(es) => Ok(first + es),
        Err(e) => Err(e),
    }
}

/// Appends the record of `entry`.
fn push_entry(out: &mut Vec<u8>, entry: &PartitionEntry)
    requires
        entry.name@.len() <= 16,
    ensures
        final(out)@ == old(out)@ + encode_entry(entry@),
{
    out.push(0xAA);
    out.push(0x50);
    out.push(entry.ptype.code());
    out.push(entry.subtype);
    push_le32(out, entry.offset);
    push_le32(out, entry.size);
    let ghost before = out@;
    let mut i: usize = 0;
    while i < entry.name.len()
        invariant
            i <= entry.name@.len(),
            out@ == before + entry.name@.take(i as int),
        decreases entry.name@.len() - i,
    {
        out.push(entry.name[i]);
        assert(entry.name@.take(i + 1) =~= entry.name@.take(i as int).push(entry.name@[i as int]));
        i += 1;
    }
    assert(entry.name@.take(entry.name@.len() as int) =~= entry.name@);
    while i < NAME_FIELD
        invariant
            entry.name@.len() <= i <= 16,
            out@ == before + entry.name@ + fill(i - entry.name@.len(), 0u8),
        decreases 16 - i,
    {
        out.push(0);
        assert(fill(i + 1 - entry.name@.len(), 0u8) =~= fill(i - entry.name@.len(), 0u8).push(0u8));
        i += 1;
    }
    push_le32(out, entry.flags);
    assert(out@ =~= old(out)@ + encode_entry(entry@));
}

/// Appends `count` erased bytes.
fn push_erased(out: &mut Vec<u8>, count: usize)
    ensures
        final(out)@ == old(out)@ + fill(count as int, 0xFFu8),
{
    let mut i: usize = 0;
    while i < count
        invariant
            i <= count,
            out@ == old(out)@ + fill(i as int, 0xFFu8),
        decreases count - i,
    {
        out.push(ERASED);
        assert(fill(i + 1, 0xFFu8) =~= fill(i as int, 0xFFu8).push(0xFFu8));
        i += 1;
    }
}

/// Writes a table as it lies in flash: the records in ascending order of
/// their offsets, the seal, and erased bytes up to the next sector boundary.
pub fn serialize_binary(table: &PartitionTable) -> (out: Vec<u8>)
    ensures
        out@ == serialize_binary_spec(table@),
        out@.len() % 4096 == 0,
        parse_binary_spec(out@, u32::MAX) == Ok::<Seq<EntryView>, Error>(table@),
{
    let entries = table.entries();
    let ghost es = table@;
    assert forall|i: int| 0 <= i < es.len() implies (#[trigger] es[i]).name.len() <= 16 by {
        assert(crate::partition::entry_defect_at(es, u32::MAX, i) is None);
    }
    let mut out: Vec<u8> = Vec::new();
    let mut i: usize = 0;
    assert(es.take(0) =~= Seq::<EntryView>::empty());
    while i < entries.len()
        invariant
            i <= entries@.len(),
            es == views(entries@),
            forall|k: int| 0 <= k < es.len() ==> (#[trigger] es[k]).name.len() <= 16,
            out@ == encode_entries(es.take(i as int)),
        decreases entries@.len() - i,
    {
        assert(es[i as int] == entries@[i as int]@);
        push_entry(&mut out, &entries[i]);
        proof {
            let next = es.take(i + 1);
            assert(next.drop_last() =~= es.take(i as int));
            assert(next.last() == es[i as int]);
        }
        i += 1;
    }
    assert(es.take(es.len() as int) =~= es);
    let ghost body = out@;
    let digest = md5(out.as_slice());
    out.push(0xEB);
    out.push(0xEB);
    push_erased(&mut out, 14);
    let mut k: usize = 0;
    while k < 16
        invariant
            k <= 16,
            digest@.len() == 16,
            out@ == body + seq![0xEBu8, 0xEBu8] + fill(14, 0xFFu8) + digest@.take(k as int),
        decreases 16 - k,
    {
        out.push(digest[k]);
        assert(digest@.take(k + 1) =~= digest@.take(k as int).push(digest@[k as int]));
        k += 1;
    }
    assert(digest@.take(16) =~= digest@);
    assert(out@ =~= body + md5_record(body));
    let ghost sealed = out@;
    let rest = out.len() % 4096;
    let pad: usize = if rest == 0 {
        0
    } else {
        4096 - rest
    };
    push_erased(&mut out, pad);
    proof {
        lemma_serialized_layout(es);
        lemma_binary_round_trip(es, u32::MAX);
    }
    out
}

/// Whether the record at `at` is the end marker.
fn is_erased_record(bytes: &[u8], at: usize) -> (r: bool)
    requires
        at + 32 <= bytes@.len(),
    ensures
        r == is_end_marker(bytes@.subrange(at as int, at + 32)),
{
    let ghost rec = bytes@.subrange(at as int, at + 32);
    let len = bytes.len();
    let mut i: usize = 0;
    while i < RECORD_LEN
        invariant
            i <= 32,
            at + 32 <= len == bytes@.len(),
            rec == bytes@.subrange(at as int, at + 32),
            forall|k: int| 0 <= k < i ==> #[trigger] rec[k] == 0xFFu8,
        decreases 32 - i,
    {
        if bytes[at + i] != ERASED {
            assert(rec[i as int] != 0xFFu8);
            return false;
        }
        i += 1;
    }
    true
}

/// Whether the seal at `at` holds the digest of the bytes before it.
fn seal_matches(bytes: &[u8], at: usize) -> (r: bool)
    requires
        at + 32 <= bytes@.len(),
    ensures
        r == (bytes@.subrange(at as int, at + 32).subrange(16, 32) == md5_digest(
            bytes@.subrange(0, at as int),
        )@),
{
    let digest = md5(slice_subrange(bytes, 0, at));
    let ghost stored = bytes@.subrange(at as int, at + 32).subrange(16, 32);
    let len = bytes.len();
    let mut i: usize = 0;
    while i < 16
        invariant
            i <= 16,
            at + 32 <= len == bytes@.len(),
            digest@.len() == 16,
            digest == md5_digest(bytes@.subrange(0, at as int)),
            stored == bytes@.subrange(at as int, at + 32).subrange(16, 32),
            forall|k: int| 0 <= k < i ==> stored[k] == digest@[k],
        decreases 16 - i,
    {
        if bytes[at + 16 + i] != digest[i] {
            assert(stored[i as int] != digest@[i as int]);
            return false;
        }
        i += 1;
    }
    assert(stored =~= digest@);
    true
}

/// Reads the entry that the record at `at` spells.
fn decode_entry_at(bytes: &[u8], at: usize) -> (entry: PartitionEntry)
    requires
        at + 32 <= bytes@.len(),
    ensures
        entry@ == decode_entry(bytes@.subrange(at as int, at + 32)),
{
    let ghost rec = bytes@.subrange(at as int, at + 32);
    let ghost field = rec.subrange(12, 28);
    let len = bytes.len();
    let offset = read_le32(bytes, at + 4);
    let size = read_le32(bytes, at + 8);
    let flags = read_le32(bytes, at + 28);
    assert(rec.subrange(4, 8) =~= bytes@.subrange(at + 4, at + 8));
    assert(rec.subrange(8, 12) =~= bytes@.subrange(at + 8, at + 12));
    assert(rec.subrange(28, 32) =~= bytes@.subrange(at + 28, at + 32));
    let mut name: Vec<u8> = Vec::new();
    let mut i: usize = 0;
    while i < NAME_FIELD && bytes[at + 12 + i] != 0
        invariant
            i <= 16,
            at + 32 <= len == bytes@.len(),
            rec == bytes@.subrange(at as int, at + 32),
            field == rec.subrange(12, 28),
            first_nul(field, 0) == first_nul(field, i as int),
            name@ == field.take(i as int),
        decreases 16 - i,
    {
        assert(field[i as int] == bytes@[at + 12 + i]);
        name.push(bytes[at + 12 + i]);
        assert(field.take(i + 1) =~= field.take(i as int).push(field[i as int]));
        i += 1;
    }
    assert(first_nul(field, i as int) == i) by {
        if i < 16 {
            assert(field[i as int] == bytes@[at + 12 + i]);
        }
    }
    PartitionEntry {
        name,
        ptype: PartitionType::from_code(bytes[at + 2]),
        subtype: bytes[at + 3],
        offset,
        size,
        flags,
    }
}

/// Reads the entries that the records of `bytes` spell.
fn read_entries(bytes: &[u8]) -> (r: Result<Vec<PartitionEntry>, Error>)
    ensures
        match read_records(bytes@, 0) {
            Ok(es) => r is Ok && views(r->Ok_0@) == es,
            Err(e) => r == Err::<Vec<PartitionEntry>, Error>(e),
        },
{
    let mut entries: Vec<PartitionEntry> = Vec::new();
    let mut at: usize = 0;
    assert(views(entries@) =~= Seq::<EntryView>::empty());
    assert(prepend_all(Seq::<EntryView>::empty(), read_records(bytes@, 0)) == read_records(
        bytes@,
        0,
    )) by {
        match read_records(bytes@, 0) {
            Ok(es) => {
                assert(Seq::<EntryView>::empty() + es =~= es);
            },
            Err(e) => {},
        }
    }
    while at < bytes.len()
        invariant
            read_records(bytes@, 0) == prepend_all(
                views(entries@),
                read_records(bytes@, at as int),
            ),
        decreases bytes@.len() - at,
    {
        if bytes.len() - at < RECORD_LEN {
            return Err(Error::BadMagic { offset: at });
        }
        let ghost rec = bytes@.subrange(at as int, at + 32);
        assert(rec[0] == bytes@[at as int] && rec[1] == bytes@[at + 1]);
        if is_erased_record(bytes, at) {
            assert(views(entries@) + Seq::<EntryView>::empty() =~= views(entries@));
            return Ok(entries);
        }
        if bytes[at] == 0xEB && bytes[at + 1] == 0xEB {
            if seal_matches(bytes, at) {
                assert(views(entries@) + Seq::<EntryView>::empty() =~= views(entries@));
                return Ok(entries);
            }
            return Err(Error::ChecksumMismatch { offset: at });
        }
        if !(bytes[at] == 0xAA && bytes[at + 1] == 0x50) {
            return Err(Error::BadMagic { offset: at });
        }
        let entry = decode_entry_at(bytes, at);
        let ghost before = views(entries@);
        entries.push(entry);
        proof {
            assert(views(entries@) =~= before.push(decode_entry(rec)));
            match read_records(bytes@, at + 32) {
                Ok(rest) => {
                    assert(before + (seq![decode_entry(rec)] + rest) =~= before.push(
                        decode_entry(rec),
                    ) + rest);
                },
                Err(e) => {},
            }
        }
        at += RECORD_LEN;
    }
    assert(views(entries@) + Seq::<EntryView>::empty() =~= views(entries@));
    Ok(entries)
}

/// Whether the bytes of a partition table are its binary form: they start
/// with the magic of a record or of a seal, or with erased flash.
/// Everything else is taken for text.
pub open spec fn looks_binary(b: Seq<u8>) -> bool {
    b.len() >= 2 && ((b[0] == 0xAA && b[1] == 0x50) || (b[0] == 0xEB && b[1] == 0xEB) || (b[0]
        == 0xFF && b[1] == 0xFF))
}

/// Whether the bytes of a partition table are its binary form.
pub fn is_binary(bytes: &[u8]) -> (r: bool)
    ensures
        r == looks_binary(bytes@),
{
    bytes.len() >= 2 && ((bytes[0] == 0xAA && bytes[1] == 0x50) || (bytes[0] == 0xEB && bytes[1]
        == 0xEB) || (bytes[0] == 0xFF && bytes[1] == 0xFF))
}

/// Reads a table from its binary form and validates it for a flash of
/// `flash` bytes. Bytes behind the end marker or the seal are not looked at.
pub fn parse_binary(bytes: &[u8], flash: u32) -> (r: Result<PartitionTable, Error>)
    ensures
        match parse_binary_spec(bytes@, flash) {
            Ok(es) => r is Ok && r->Ok_0@ == es,
            Err(e) => r is Err && r->Err_0 == e,
        },
        r is Ok ==> table_ok(r->Ok_0@, flash),
{
    let entries = match read_entries(bytes) {
        Ok(entries) => entries,
        Err(e) => {
            return Err(e);
        },
    };
    proof {
        lemma_no_defect_iff_ok(views(entries@), flash);
    }
    let count = entries.len();
    match PartitionTable::new(entries, flash) {
        Ok(table) => Ok(table),
        Err(d) => Err(Error::MalformedRow { line: d.index + 1, reason: d.reason }),
    }
}

} // verus!
