//! The image assembler: bootloader, partition table and application, each
//! at its place in flash, as one merged buffer or as discrete segments.

use vstd::prelude::*;
use vstd::pervasive::unreached;
use vstd::slice::slice_to_vec;
use crate::app_image::{body_bytes, Application, ApplicationView};
use crate::binary::{
    is_binary, looks_binary, parse_binary, parse_binary_spec, serialize_binary,
    serialize_binary_spec,
};
use crate::bytes::push_all;
use crate::chip::{
    flash_frequency_code_spec, flash_size_code_spec, profile_for, profile_spec, supported,
    ChipProfile,
};
use crate::enums::{Chip, FlashSettings};
use crate::error::{Error, Region};
use crate::header::{encode_header, encode_header_spec};
use crate::partition::{
    entry_defect_at, lemma_no_defect_iff_ok, order_defect_at, table_ok, views, EntryView,
    PartitionEntry, PartitionTable, PartitionType,
};
use crate::segment::{
    ascending, disjoint, lemma_span_end, merge_segments, merged, segment_views, span_end,
    ImageSegment, SegmentView,
};
use crate::text::{parse_text, parse_text_spec};

verus! {

/// The bytes of `nvs`.
pub open spec fn name_nvs() -> Seq<u8> {
    seq![0x6eu8, 0x76u8, 0x73u8]
}

/// The bytes of `phy_init`.
pub open spec fn name_phy_init() -> Seq<u8> {
    seq![0x70u8, 0x68u8, 0x79u8, 0x5fu8, 0x69u8, 0x6eu8, 0x69u8, 0x74u8]
}

/// The bytes of `factory`.
pub open spec fn name_factory() -> Seq<u8> {
    seq![0x66u8, 0x61u8, 0x63u8, 0x74u8, 0x6fu8, 0x72u8, 0x79u8]
}

/// The table that stands in where the caller gives none: non-volatile
/// storage and radio calibration data in the sectors behind the partition
/// table, and one factory application from the chip's default offset to the
/// end of the flash.
pub open spec fn default_table(profile: ChipProfile, flash: u32) -> Seq<EntryView> {
    seq![
        EntryView {
            name: name_nvs(),
            ptype: PartitionType::Data,
            subtype: 0x02,
            offset: (profile.partition_table_offset + 0x1000) as u32,
            size: 0x6000,
            flags: 0,
        },
        EntryView {
            name: name_phy_init(),
            ptype: PartitionType::Data,
            subtype: 0x01,
            offset: (profile.partition_table_offset + 0x7000) as u32,
            size: 0x1000,
            flags: 0,
        },
        EntryView {
            name: name_factory(),
            ptype: PartitionType::App,
            subtype: 0x00,
            offset: profile.app_offset_default,
            size: (flash - profile.app_offset_default) as u32,
            flags: 0,
        },
    ]
}

/// The table that the assembler works with: the caller's, parsed from its
/// binary or its text form and validated for the flash, or the default one.
pub open spec fn table_of(table: Option<Seq<u8>>, profile: ChipProfile, flash: u32) -> Result<
    Seq<EntryView>,
    Error,
> {
    match table {
        None => Ok(default_table(profile, flash)),
        Some(b) => if looks_binary(b) {
            parse_binary_spec(b, flash)
        } else {
            parse_text_spec(b, flash, Seq::empty())
        },
    }
}

/// The index of the first factory application from `from` on.
pub open spec fn first_factory(es: Seq<EntryView>, from: int) -> Option<int>
    decreases es.len() - from,
{
    if from < 0 || from >= es.len() {
        None
    } else if es[from].is_factory() {
        Some(from)
    } else {
        first_factory(es, from + 1)
    }
}

/// The index of the first application partition from `from` on.
pub open spec fn first_app(es: Seq<EntryView>, from: int) -> Option<int>
    decreases es.len() - from,
{
    if from < 0 || from >= es.len() {
        None
    } else if es[from].ptype == PartitionType::App {
        Some(from)
    } else {
        first_app(es, from + 1)
    }
}

/// Where the application goes: to the factory partition, or to the first
/// application partition where the table has no factory one.
pub open spec fn app_offset(es: Seq<EntryView>) -> Option<u32> {
    match first_factory(es, 0) {
        Some(i) => Some(es[i].offset),
        None => match first_app(es, 0) {
            Some(i) => Some(es[i].offset),
            None => None,
        },
    }
}

/// `s` put into a run of segments behind the last one that does not start
/// above it.
pub open spec fn insert_sorted(base: Seq<SegmentView>, s: SegmentView) -> Seq<SegmentView>
    decreases base.len(),
{
    if base.len() == 0 {
        seq![s]
    } else if base.last().load_address <= s.load_address {
        base.push(s)
    } else {
        insert_sorted(base.drop_last(), s).push(base.last())
    }
}

/// The first segment from `from` on that shares an address with segment `i`.
pub open spec fn overlap_with(segs: Seq<SegmentView>, i: int, from: int) -> Option<int>
    decreases segs.len() - from,
{
    if from < 0 || from >= segs.len() {
        None
    } else if segs[i].intersects(segs[from]) {
        Some(from)
    } else {
        overlap_with(segs, i, from + 1)
    }
}

/// The first two segments that share an address: of all such pairs the one
/// with the earliest first segment, and of those the one with the earliest
/// second segment.
pub open spec fn first_overlap(segs: Seq<SegmentView>, from: int) -> Option<(int, int)>
    decreases segs.len() - from,
{
    if from < 0 || from >= segs.len() {
        None
    } else {
        match overlap_with(segs, from, from + 1) {
            Some(j) => Some((from, j)),
            None => first_overlap(segs, from + 1),
        }
    }
}

/// The first segment from `from` on that ends beyond `limit`.
pub open spec fn first_beyond(segs: Seq<SegmentView>, limit: int, from: int) -> Option<int>
    decreases segs.len() - from,
{
    if from < 0 || from >= segs.len() {
        None
    } else if segs[from].end() > limit {
        Some(from)
    } else {
        first_beyond(segs, limit, from + 1)
    }
}

/// The range of flash that a segment takes.
pub open spec fn region_of(s: SegmentView) -> Region {
    Region { offset: s.load_address, length: s.data.len() as usize }
}

/// What the assembler is given.
pub struct AssemblyInput {
    pub chip: Chip,
    pub settings: FlashSettings,
    /// The bootloader; without one its place stays erased.
    pub bootloader: Option<Seq<u8>>,
    pub app: ApplicationView,
    /// A partition table in binary or text form; without one the default
    /// table stands in.
    pub table: Option<Seq<u8>>,
}

/// The segments of an image and what its firmware header says.
pub struct FlashImageView {
    pub segments: Seq<SegmentView>,
    pub entry_point: u32,
    pub mode_code: u8,
    pub size_code: u8,
    pub frequency_code: u8,
}

/// The segments that are to be flashed, in ascending order: the bootloader
/// where there is one, the partition table, and the application image.
pub open spec fn placed(
    profile: ChipProfile,
    bootloader: Option<Seq<u8>>,
    table: Seq<EntryView>,
    app_at: u32,
    header: Seq<u8>,
    app: ApplicationView,
) -> Seq<SegmentView> {
    let table_segment = SegmentView {
        load_address: profile.partition_table_offset,
        data: serialize_binary_spec(table),
    };
    let app_segment = SegmentView { load_address: app_at, data: header + body_bytes(app.segments) };
    let base = match bootloader {
        Some(b) => seq![SegmentView { load_address: profile.bootloader_offset, data: b }, table_segment],
        None => seq![table_segment],
    };
    insert_sorted(base, app_segment)
}

/// What segments in their places come to: the first two of them that share
/// an address are refused, then the first that ends beyond the flash.
pub open spec fn checked(segs: Seq<SegmentView>, flash: u32) -> Result<Seq<SegmentView>, Error> {
    match first_overlap(segs, 0) {
        Some((i, j)) => Err(
            Error::OverlappingSegments { first: region_of(segs[i]), second: region_of(segs[j]) },
        ),
        None => match first_beyond(segs, flash as int, 0) {
            Some(k) => Err(
                Error::AddressOutOfRange {
                    address: segs[k].load_address,
                    length: segs[k].data.len() as usize,
                },
            ),
            None => Ok(segs),
        },
    }
}

/// What the assembler collects, or the first failure: an unsupported chip,
/// a flash size or frequency without a header code, a partition table that
/// is refused, a table without an application partition, segments that
/// share an address or end beyond the flash, in this order.
pub open spec fn collect_spec(input: AssemblyInput) -> Result<FlashImageView, Error> {
    match profile_spec(input.chip) {
        None => Err(Error::UnsupportedChip { chip: input.chip }),
        Some(profile) => match encode_header_spec(
            input.chip,
            input.app.entry_point,
            input.app.segments.len() as u8,
            input.settings.mode,
            input.settings.frequency,
            input.settings.size,
        ) {
            Err(e) => Err(e),
            Ok(header) => match table_of(input.table, profile, input.settings.size.spec_bytes()) {
                Err(e) => Err(e),
                Ok(table) => match app_offset(table) {
                    None => Err(Error::NoAppPartition),
                    Some(app_at) => match checked(
                        placed(profile, input.bootloader, table, app_at, header, input.app),
                        input.settings.size.spec_bytes(),
                    ) {
                        Err(e) => Err(e),
                        Ok(segments) => Ok(
                            FlashImageView {
                                segments,
                                entry_point: input.app.entry_point,
                                mode_code: header[2],
                                size_code: header[3] / 16,
                                frequency_code: header[3] % 16,
                            },
                        ),
                    },
                },
            },
        },
    }
}

/// What an assembly ends in.
pub enum AssembledView {
    /// One buffer from address zero to the end of the last segment.
    Merged(Seq<u8>),
    /// The segments as they are, for a transport that writes them one by one.
    Discrete(Seq<SegmentView>),
}

/// What `assemble` returns: the failure of the collection, else the
/// collected segments, merged or as they are.
pub open spec fn assemble_spec(input: AssemblyInput, merge: bool) -> Result<AssembledView, Error> {
    match collect_spec(input) {
        Err(e) => Err(e),
        Ok(image) => if merge {
            Ok(AssembledView::Merged(merged(image.segments)))
        } else {
            Ok(AssembledView::Discrete(image.segments))
        },
    }
}

/// What an optional run of bytes holds.
pub open spec fn bytes_view(bytes: Option<&[u8]>) -> Option<Seq<u8>> {
    match bytes {
        Some(b) => Some(b@),
        None => None,
    }
}

/// The default table is valid for every flash that a supported chip has a
/// header code for.
pub proof fn lemma_default_table_ok(profile: ChipProfile, flash: u32)
    requires
        profile_spec(profile.chip) == Some(profile),
        flash >= 0x10_0000,
        flash % 4096 == 0,
    ensures
        table_ok(default_table(profile, flash), flash),
        app_offset(default_table(profile, flash)) == Some(profile.app_offset_default),
{
    let es = default_table(profile, flash);
    assert(profile.partition_table_offset == 0x8000 && profile.app_offset_default == 0x1_0000);
    assert(es.len() == 3);
    assert forall|i: int| 0 <= i < es.len() implies (#[trigger] order_defect_at(es, i)) is None by {
        if i == 1 {
        } else if i == 2 {
        }
    }
    assert forall|k: int| 0 <= k < name_nvs().len() implies crate::partition::name_byte_ok(
        #[trigger] name_nvs()[k],
    ) by {
        if k == 0 {
        } else if k == 1 {
        } else {
        }
    }
    assert forall|k: int| 0 <= k < name_phy_init().len() implies crate::partition::name_byte_ok(
        #[trigger] name_phy_init()[k],
    ) by {
        if k == 0 {
        } else if k == 1 {
        } else if k == 2 {
        } else if k == 3 {
        } else if k == 4 {
        } else if k == 5 {
        } else if k == 6 {
        } else {
        }
    }
    assert forall|k: int| 0 <= k < name_factory().len() implies crate::partition::name_byte_ok(
        #[trigger] name_factory()[k],
    ) by {
        if k == 0 {
        } else if k == 1 {
        } else if k == 2 {
        } else if k == 3 {
        } else if k == 4 {
        } else if k == 5 {
        } else {
        }
    }
    assert(name_nvs().len() != name_phy_init().len());
    assert(name_nvs().len() != name_factory().len());
    assert(name_phy_init().len() != name_factory().len());
    assert(!es[0].is_factory() && !es[1].is_factory());
    assert forall|i: int| 0 <= i < es.len() implies (#[trigger] entry_defect_at(es, flash, i))
        is None by {
        if i == 0 {
            assert(es[0].name == name_nvs());
        } else if i == 1 {
            assert(es[1].name == name_phy_init());
        } else {
            assert(es[2].name == name_factory());
        }
    }
    assert(first_factory(es, 0) == Some(2int)) by {
        reveal_with_fuel(first_factory, 4);
    }
}

/// Builds the default table.
fn make_default_table(profile: &ChipProfile, flash: u32) -> (table: PartitionTable)
    requires
        profile_spec(profile.chip) == Some(*profile),
        flash >= 0x10_0000,
        flash % 4096 == 0,
    ensures
        table@ == default_table(*profile, flash),
        table_ok(table@, flash),
{
    let nvs: [u8; 3] = [0x6e, 0x76, 0x73];
    let phy_init: [u8; 8] = [0x70, 0x68, 0x79, 0x5f, 0x69, 0x6e, 0x69, 0x74];
    let factory: [u8; 7] = [0x66, 0x61, 0x63, 0x74, 0x6f, 0x72, 0x79];
    assert(nvs@ =~= name_nvs());
    assert(phy_init@ =~= name_phy_init());
    assert(factory@ =~= name_factory());
    let mut entries: Vec<PartitionEntry> = Vec::new();
    entries.push(
        PartitionEntry {
            name: slice_to_vec(nvs.as_slice()),
            ptype: PartitionType::Data,
            subtype: 0x02,
            offset: profile.partition_table_offset + 0x1000,
            size: 0x6000,
            flags: 0,
        },
    );
    entries.push(
        PartitionEntry {
            name: slice_to_vec(phy_init.as_slice()),
            ptype: PartitionType::Data,
            subtype: 0x01,
            offset: profile.partition_table_offset + 0x7000,
            size: 0x1000,
            flags: 0,
        },
    );
    entries.push(
        PartitionEntry {
            name: slice_to_vec(factory.as_slice()),
            ptype: PartitionType::App,
            subtype: 0x00,
            offset: profile.app_offset_default,
            size: flash - profile.app_offset_default,
            flags: 0,
        },
    );
    proof {
        assert(views(entries@) =~= default_table(*profile, flash));
        lemma_default_table_ok(*profile, flash);
        lemma_no_defect_iff_ok(views(entries@), flash);
    }
    match PartitionTable::new(entries, flash) {
        Ok(table) => table,
        Err(_) => unreached(),
    }
}

/// Parses the caller's table in the form it comes in, or builds the default
/// one.
fn resolve_table(table: Option<&[u8]>, profile: &ChipProfile, flash: u32) -> (r: Result<
    PartitionTable,
    Error,
>)
    requires
        profile_spec(profile.chip) == Some(*profile),
        flash >= 0x10_0000,
        flash % 4096 == 0,
    ensures
        match table_of(bytes_view(table), *profile, flash) {
            Ok(es) => r is Ok && r->Ok_0@ == es && table_ok(es, flash),
            Err(e) => r is Err && r->Err_0 == e,
        },
{
    match table {
        None => Ok(make_default_table(profile, flash)),
        Some(bytes) => if is_binary(bytes) {
            parse_binary(bytes, flash)
        } else {
            parse_text(bytes, flash)
        },
    }
}

/// Finds the partition that the application goes to.
fn find_app_offset(table: &PartitionTable) -> (r: Option<u32>)
    ensures
        r == app_offset(table@),
{
    let entries = table.entries();
    let ghost es = table@;
    let mut i: usize = 0;
    while i < entries.len()
        invariant
            i <= entries@.len(),
            es == views(entries@),
            es == table@,
            first_factory(es, 0) == first_factory(es, i as int),
        decreases entries@.len() - i,
    {
        assert(es[i as int] == entries@[i as int]@);
        if entries[i].ptype == PartitionType::App && entries[i].subtype == 0x00 {
            assert(es[i as int].is_factory());
            assert(first_factory(es, i as int) == Some(i as int));
            return Some(entries[i].offset);
        }
        i += 1;
    }
    let mut i: usize = 0;
    while i < entries.len()
        invariant
            i <= entries@.len(),
            es == views(entries@),
            es == table@,
            first_factory(es, 0) is None,
            first_app(es, 0) == first_app(es, i as int),
        decreases entries@.len() - i,
    {
        assert(es[i as int] == entries@[i as int]@);
        if entries[i].ptype == PartitionType::App {
            assert(first_app(es, i as int) == Some(i as int));
            return Some(entries[i].offset);
        }
        i += 1;
    }
    None
}

/// Putting a segment in keeps the segments in ascending order.
pub proof fn lemma_insert_sorted_ascending(base: Seq<SegmentView>, s: SegmentView)
    requires
        ascending(base),
    ensures
        ascending(insert_sorted(base, s)),
        insert_sorted(base, s).len() == base.len() + 1,
        forall|k: int|
            0 <= k < insert_sorted(base, s).len() ==> (#[trigger] insert_sorted(base, s)[k]) == s
                || exists|m: int| 0 <= m < base.len() && base[m] == insert_sorted(base, s)[k],
    decreases base.len(),
{
    let out = insert_sorted(base, s);
    if base.len() == 0 {
    } else if base.last().load_address <= s.load_address {
        assert forall|k: int| 0 <= k < out.len() implies (#[trigger] out[k]) == s || exists|m: int|
            0 <= m < base.len() && base[m] == out[k] by {
            if k < base.len() {
                assert(base[k] == out[k]);
            }
        }
    } else {
        let front = base.drop_last();
        assert forall|i: int, j: int| 0 <= i < j < front.len() implies (
        #[trigger] front[i]).load_address <= (#[trigger] front[j]).load_address by {
            assert(front[i] == base[i] && front[j] == base[j]);
        }
        lemma_insert_sorted_ascending(front, s);
        let inner = insert_sorted(front, s);
        assert forall|i: int, j: int| 0 <= i < j < out.len() implies (
        #[trigger] out[i]).load_address <= (#[trigger] out[j]).load_address by {
            if j == out.len() - 1 {
                assert(out[i] == inner[i]);
                if inner[i] == s {
                } else {
                    let m = choose|m: int| 0 <= m < front.len() && front[m] == inner[i];
                    assert(front[m] == base[m]);
                    assert(base[m].load_address <= base[base.len() - 1].load_address);
                }
            } else {
                assert(out[i] == inner[i] && out[j] == inner[j]);
            }
        }
        assert forall|k: int| 0 <= k < out.len() implies (#[trigger] out[k]) == s || exists|m: int|
            0 <= m < base.len() && base[m] == out[k] by {
            if k == out.len() - 1 {
                assert(base[base.len() - 1] == out[k]);
            } else {
                assert(out[k] == inner[k]);
                if inner[k] != s {
                    let m = choose|m: int| 0 <= m < front.len() && front[m] == inner[k];
                    assert(base[m] == out[k]);
                }
            }
        }
    }
}

/// Puts a segment into a run of segments behind the last one that does not
/// start above it.
fn insert_segment(base: &mut Vec<ImageSegment>, segment: ImageSegment)
    ensures
        segment_views(final(base)@) == insert_sorted(segment_views(old(base)@), segment@),
{
    let ghost b = segment_views(base@);
    let ghost s = segment@;
    let mut p: usize = base.len();
    assert(b.take(p as int) =~= b);
    assert(insert_sorted(b, s) + b.skip(p as int) =~= insert_sorted(b, s));
    while p > 0 && base[p - 1].load_address > segment.load_address
        invariant
            p <= base@.len(),
            b == segment_views(base@),
            s == segment@,
            insert_sorted(b, s) == insert_sorted(b.take(p as int), s) + b.skip(p as int),
        decreases p,
    {
        proof {
            let cur = b.take(p as int);
            assert(cur.last() == b[p - 1]);
            assert(b[p - 1] == base@[p - 1]@);
            assert(cur.drop_last() =~= b.take(p - 1));
            assert(insert_sorted(cur, s) == insert_sorted(b.take(p - 1), s).push(b[p - 1]));
            assert(insert_sorted(b.take(p - 1), s).push(b[p - 1]) + b.skip(p as int)
                =~= insert_sorted(b.take(p - 1), s) + b.skip(p - 1));
        }
        p -= 1;
    }
    proof {
        let cur = b.take(p as int);
        if p > 0 {
            assert(cur.last() == b[p - 1]);
            assert(b[p - 1] == base@[p - 1]@);
        }
        assert(insert_sorted(cur, s) == cur.push(s));
        assert(cur.push(s) + b.skip(p as int) =~= b.insert(p as int, s));
    }
    base.insert(p, segment);
    assert(segment_views(base@) =~= b.insert(p as int, s));
}

/// Where no segment shares an address with a later one, no two segments
/// share one.
pub proof fn lemma_no_overlap_disjoint(segs: Seq<SegmentView>)
    requires
        first_overlap(segs, 0) is None,
    ensures
        disjoint(segs),
{
    assert forall|i: int, j: int|
        0 <= i < segs.len() && 0 <= j < segs.len() && i != j implies !(#[trigger] segs[i]).intersects(
        #[trigger] segs[j],
    ) by {
        if i < j {
            lemma_first_overlap_none(segs, 0, i);
            lemma_overlap_with_none(segs, i, i + 1, j);
        } else {
            lemma_first_overlap_none(segs, 0, j);
            lemma_overlap_with_none(segs, j, j + 1, i);
        }
    }
}

proof fn lemma_first_overlap_none(segs: Seq<SegmentView>, from: int, i: int)
    requires
        first_overlap(segs, from) is None,
        0 <= from <= i < segs.len(),
    ensures
        overlap_with(segs, i, i + 1) is None,
    decreases segs.len() - from,
{
    if from < i {
        lemma_first_overlap_none(segs, from + 1, i);
    }
}

proof fn lemma_overlap_with_none(segs: Seq<SegmentView>, i: int, from: int, j: int)
    requires
        overlap_with(segs, i, from) is None,
        0 <= from <= j < segs.len(),
    ensures
        !segs[i].intersects(segs[j]),
    decreases segs.len() - from,
{
    if from < j {
        lemma_overlap_with_none(segs, i, from + 1, j);
    }
}

/// Where no segment ends beyond `limit`, all of them end within it.
pub proof fn lemma_none_beyond(segs: Seq<SegmentView>, limit: int)
    requires
        first_beyond(segs, limit, 0) is None,
        0 <= limit,
    ensures
        span_end(segs) <= limit,
{
    lemma_span_within(segs, limit, segs.len() as int);
    assert(segs.take(segs.len() as int) =~= segs);
}

proof fn lemma_first_beyond_none(segs: Seq<SegmentView>, limit: int, from: int, k: int)
    requires
        first_beyond(segs, limit, from) is None,
        0 <= from <= k < segs.len(),
    ensures
        segs[k].end() <= limit,
    decreases segs.len() - from,
{
    if from < k {
        lemma_first_beyond_none(segs, limit, from + 1, k);
    }
}

proof fn lemma_span_within(segs: Seq<SegmentView>, limit: int, n: int)
    requires
        first_beyond(segs, limit, 0) is None,
        0 <= limit,
        0 <= n <= segs.len(),
    ensures
        span_end(segs.take(n)) <= limit,
    decreases n,
{
    if n > 0 {
        lemma_span_within(segs, limit, n - 1);
        lemma_first_beyond_none(segs, limit, 0, n - 1);
        assert(segs.take(n).drop_last() =~= segs.take(n - 1));
        assert(segs.take(n).last() == segs[n - 1]);
    }
}

/// Whether two segments share an address.
fn segments_intersect(a: &ImageSegment, b: &ImageSegment) -> (r: bool)
    ensures
        r == a@.intersects(b@),
{
    let a_end = a.load_address as u128 + a.data.len() as u128;
    let b_end = b.load_address as u128 + b.data.len() as u128;
    (a.load_address as u128) < b_end && (b.load_address as u128) < a_end
}

/// Looks for the first two segments that share an address.
fn find_overlap(segments: &Vec<ImageSegment>) -> (r: Option<(usize, usize)>)
    ensures
        match first_overlap(segment_views(segments@), 0) {
            None => r is None,
            Some((i, j)) => r == Some((i as usize, j as usize)) && 0 <= i < segments@.len() && 0
                <= j < segments@.len(),
        },
{
    let ghost segs = segment_views(segments@);
    let n = segments.len();
    let mut i: usize = 0;
    while i < n
        invariant
            i <= n == segments@.len(),
            segs == segment_views(segments@),
            first_overlap(segs, 0) == first_overlap(segs, i as int),
        decreases n - i,
    {
        let mut j: usize = i + 1;
        while j < n
            invariant
                i < j <= n == segments@.len(),
                segs == segment_views(segments@),
                first_overlap(segs, 0) == first_overlap(segs, i as int),
                overlap_with(segs, i as int, i + 1) == overlap_with(segs, i as int, j as int),
            decreases n - j,
        {
            assert(segs[i as int] == segments@[i as int]@ && segs[j as int] == segments@[j as int]@);
            if segments_intersect(&segments[i], &segments[j]) {
                assert(overlap_with(segs, i as int, j as int) == Some(j as int));
                assert(first_overlap(segs, i as int) == Some((i as int, j as int)));
                return Some((i, j));
            }
            j += 1;
        }
        i += 1;
    }
    None
}

/// Looks for the first segment that ends beyond `limit`.
fn find_beyond(segments: &Vec<ImageSegment>, limit: u32) -> (r: Option<usize>)
    ensures
        match first_beyond(segment_views(segments@), limit as int, 0) {
            None => r is None,
            Some(k) => r == Some(k as usize) && 0 <= k < segments@.len(),
        },
{
    let ghost segs = segment_views(segments@);
    let mut i: usize = 0;
    while i < segments.len()
        invariant
            i <= segments@.len(),
            segs == segment_views(segments@),
            first_beyond(segs, limit as int, 0) == first_beyond(segs, limit as int, i as int),
        decreases segments@.len() - i,
    {
        let segment = &segments[i];
        assert(segs[i as int] == segment@);
        if segment.load_address as u128 + segment.data.len() as u128 > limit as u128 {
            return Some(i);
        }
        i += 1;
    }
    None
}

/// The collected segments of an image, in their places and checked, with
/// what the firmware header says. From here an assembly ends as one merged
/// buffer or as discrete segments.
#[derive(Debug)]
pub struct FlashImage {
    segments: Vec<ImageSegment>,
    entry_point: u32,
    mode_code: u8,
    size_code: u8,
    frequency_code: u8,
}

impl View for FlashImage {
    type V = FlashImageView;

    closed spec fn view(&self) -> FlashImageView {
        FlashImageView {
            segments: segment_views(self.segments@),
            entry_point: self.entry_point,
            mode_code: self.mode_code,
            size_code: self.size_code,
            frequency_code: self.frequency_code,
        }
    }
}

/// What holds of the segments of every collected image: ascending order,
/// no address twice, and an end within 32 bits.
pub open spec fn segments_sound(segs: Seq<SegmentView>) -> bool {
    &&& ascending(segs)
    &&& disjoint(segs)
    &&& span_end(segs) <= u32::MAX
}

impl FlashImage {
    #[verifier::type_invariant]
    spec fn valid(self) -> bool {
        segments_sound(segment_views(self.segments@))
    }

    /// The segments, in ascending order of their addresses.
    pub fn segments(&self) -> (r: &Vec<ImageSegment>)
        ensures
            segment_views(r@) == self@.segments,
            segments_sound(self@.segments),
    {
        proof {
            use_type_invariant(self);
        }
        &self.segments
    }

    /// The address at which the application starts to run.
    pub fn entry_point(&self) -> (r: u32)
        ensures
            r == self@.entry_point,
    {
        self.entry_point
    }

    /// The codes of flash mode, size and frequency in the firmware header.
    pub fn flash_codes(&self) -> (r: (u8, u8, u8))
        ensures
            r == (self@.mode_code, self@.size_code, self@.frequency_code),
    {
        (self.mode_code, self.size_code, self.frequency_code)
    }

    /// Ends the assembly in one buffer from address zero to the end of the
    /// last segment, erased wherever no segment lies.
    pub fn merge(&self) -> (out: Vec<u8>)
        ensures
            out@ == merged(self@.segments),
    {
        proof {
            use_type_invariant(self);
        }
        merge_segments(&self.segments)
    }

    /// Ends the assembly in the discrete segments.
    pub fn into_segments(self) -> (r: Vec<ImageSegment>)
        ensures
            segment_views(r@) == self@.segments,
            segments_sound(self@.segments),
    {
        proof {
            use_type_invariant(&self);
        }
        self.segments
    }
}

/// An assembly that has not begun: the chip and the flash configuration
/// are chosen, nothing is collected yet.
#[derive(Debug, Clone, Copy, PartialEq, Eq, Structural)]
pub struct Assembler {
    pub chip: Chip,
    pub settings: FlashSettings,
}

/// What an assembly ends in.
#[derive(Debug)]
pub enum Assembled {
    /// One buffer from address zero to the end of the last segment.
    Merged(Vec<u8>),
    /// The segments as they are, for a transport that writes them one by one.
    Discrete(Vec<ImageSegment>),
}

impl View for Assembled {
    type V = AssembledView;

    open spec fn view(&self) -> AssembledView {
        match self {
            Assembled::Merged(bytes) => AssembledView::Merged(bytes@),
            Assembled::Discrete(segments) => AssembledView::Discrete(segment_views(segments@)),
        }
    }
}

/// What the assembler is given, as a mathematical value.
pub open spec fn input_of(
    chip: Chip,
    settings: FlashSettings,
    bootloader: Option<&[u8]>,
    app: &Application,
    partition_table: Option<&[u8]>,
) -> AssemblyInput {
    AssemblyInput {
        chip,
        settings,
        bootloader: bytes_view(bootloader),
        app: app@,
        table: bytes_view(partition_table),
    }
}

/// Collects the segments of an image: resolves the chip's profile, builds
/// the firmware header, resolves the partition table, finds the partition of
/// the application, puts bootloader, table and application image in
/// ascending order and checks them. Nothing is produced unless every check
/// has passed.
pub fn collect_segments(
    chip: Chip,
    settings: FlashSettings,
    bootloader: Option<&[u8]>,
    app: &Application,
    partition_table: Option<&[u8]>,
) -> (r: Result<FlashImage, Error>)
    ensures
        match collect_spec(input_of(chip, settings, bootloader, app, partition_table)) {
            Ok(image) => r is Ok && r->Ok_0@ == image,
            Err(e) => r is Err && r->Err_0 == e,
        },
{
    let profile = match profile_for(chip) {
        Ok(p) => p,
        Err(e) => {
            return Err(e);
        },
    };
    let app_segments = app.segments();
    let header = match encode_header(
        chip,
        app.entry_point(),
        app_segments.len() as u8,
        settings.mode,
        settings.frequency,
        settings.size,
    ) {
        Ok(h) => h,
        Err(e) => {
            return Err(e);
        },
    };
    let flash = settings.size.bytes();
    let table = match resolve_table(partition_table, &profile, flash) {
        Ok(t) => t,
        Err(e) => {
            return Err(e);
        },
    };
    let app_at = match find_app_offset(&table) {
        Some(offset) => offset,
        None => {
            return Err(Error::NoAppPartition);
        },
    };
    let mut image: Vec<u8> = Vec::new();
    push_all(&mut image, header.as_slice());
    let body = app.encode_body();
    push_all(&mut image, body.as_slice());
    let mut segments: Vec<ImageSegment> = Vec::new();
    match bootloader {
        Some(bytes) => {
            segments.push(
                ImageSegment { load_address: profile.bootloader_offset, data: slice_to_vec(bytes) },
            );
        },
        None => {},
    }
    segments.push(
        ImageSegment { load_address: profile.partition_table_offset, data: serialize_binary(&table) },
    );
    let ghost base = segment_views(segments@);
    let ghost app_segment = SegmentView { load_address: app_at, data: image@ };
    proof {
        match bootloader {
            Some(bytes) => {
                assert(base =~= seq![
                    SegmentView { load_address: profile.bootloader_offset, data: bytes@ },
                    SegmentView {
                        load_address: profile.partition_table_offset,
                        data: serialize_binary_spec(table@),
                    },
                ]);
            },
            None => {
                assert(base =~= seq![
                    SegmentView {
                        load_address: profile.partition_table_offset,
                        data: serialize_binary_spec(table@),
                    },
                ]);
            },
        }
        lemma_insert_sorted_ascending(base, app_segment);
    }
    insert_segment(&mut segments, ImageSegment { load_address: app_at, data: image });
    let ghost segs = segment_views(segments@);
    assert(segs == placed(profile, bytes_view(bootloader), table@, app_at, header@, app@));
    match find_overlap(&segments) {
        Some((i, j)) => {
            assert(segs[i as int] == segments@[i as int]@ && segs[j as int] == segments@[j as int]@);
            return Err(
                Error::OverlappingSegments {
                    first: Region {
                        offset: segments[i].load_address,
                        length: segments[i].data.len(),
                    },
                    second: Region {
                        offset: segments[j].load_address,
                        length: segments[j].data.len(),
                    },
                },
            );
        },
        None => {},
    }
    match find_beyond(&segments, flash) {
        Some(k) => {
            assert(segs[k as int] == segments@[k as int]@);
            return Err(
                Error::AddressOutOfRange {
                    address: segments[k].load_address,
                    length: segments[k].data.len(),
                },
            );
        },
        None => {},
    }
    proof {
        lemma_no_overlap_disjoint(segs);
        lemma_none_beyond(segs, flash as int);
    }
    Ok(
        FlashImage {
            segments,
            entry_point: app.entry_point(),
            mode_code: header[2],
            size_code: header[3] / 16,
            frequency_code: header[3] % 16,
        },
    )
}

impl Assembler {
    /// Begins an assembly for `chip` with the flash configuration
    /// `settings`.
    pub fn new(chip: Chip, settings: FlashSettings) -> (r: Assembler)
        ensures
            r == (Assembler { chip, settings }),
    {
        Assembler { chip, settings }
    }

    /// Collects the segments: the step from the idle assembly to the
    /// collected image, or to the failure that ends it.
    pub fn collect(
        self,
        bootloader: Option<&[u8]>,
        app: &Application,
        partition_table: Option<&[u8]>,
    ) -> (r: Result<FlashImage, Error>)
        ensures
            match collect_spec(input_of(self.chip, self.settings, bootloader, app, partition_table)) {
                Ok(image) => r is Ok && r->Ok_0@ == image,
                Err(e) => r is Err && r->Err_0 == e,
            },
    {
        collect_segments(self.chip, self.settings, bootloader, app, partition_table)
    }
}

impl FlashImage {
    /// Ends the assembly: in one merged buffer where `merge` is set, else in
    /// the discrete segments. Both ends are final.
    pub fn finish(self, merge: bool) -> (r: Assembled)
        ensures
            r@ == (if merge {
                AssembledView::Merged(merged(self@.segments))
            } else {
                AssembledView::Discrete(self@.segments)
            }),
            segments_sound(self@.segments),
    {
        proof {
            use_type_invariant(&self);
        }
        if merge {
            Assembled::Merged(self.merge())
        } else {
            Assembled::Discrete(self.into_segments())
        }
    }
}

/// Assembles an image and ends in one merged buffer, or in the discrete
/// segments.
pub fn assemble(
    chip: Chip,
    settings: FlashSettings,
    bootloader: Option<&[u8]>,
    app: &Application,
    partition_table: Option<&[u8]>,
    merge: bool,
) -> (r: Result<Assembled, Error>)
    ensures
        match assemble_spec(input_of(chip, settings, bootloader, app, partition_table), merge) {
            Ok(done) => r is Ok && r->Ok_0@ == done,
            Err(e) => r is Err && r->Err_0 == e,
        },
        r matches Ok(Assembled::Discrete(segments)) ==> segments_sound(segment_views(segments@)),
{
    match Assembler::new(chip, settings).collect(bootloader, app, partition_table) {
        Ok(image) => Ok(image.finish(merge)),
        Err(e) => Err(e),
    }
}

/// A flash size or frequency that the chip has no header code for is
/// refused whatever else is given, merged or not: no segment and no buffer
/// comes of it.
pub proof fn lemma_unsupported_configuration_refused(input: AssemblyInput, merge: bool)
    requires
        supported(input.chip),
        flash_size_code_spec(input.chip, input.settings.size) is None || flash_frequency_code_spec(
            input.chip,
            input.settings.frequency,
        ) is None,
    ensures
        collect_spec(input) is Err,
        assemble_spec(input, merge) == Err::<AssembledView, Error>(
            if flash_size_code_spec(input.chip, input.settings.size) is None {
                Error::UnsupportedFlashSize { chip: input.chip, size: input.settings.size }
            } else {
                Error::UnsupportedFlashFrequency {
                    chip: input.chip,
                    frequency: input.settings.frequency,
                }
            },
        ),
{
}

/// Merging the discrete segments of an assembly gives the very buffer that
/// the merged assembly of the same input gives; and where one of the two
/// fails, the other fails in the same way.
pub proof fn lemma_merged_is_merge_of_discrete(input: AssemblyInput)
    ensures
        match assemble_spec(input, false) {
            Ok(AssembledView::Discrete(segments)) => assemble_spec(input, true) == Ok::<
                AssembledView,
                Error,
            >(AssembledView::Merged(merged(segments))),
            Ok(AssembledView::Merged(_)) => false,
            Err(e) => assemble_spec(input, true) == Err::<AssembledView, Error>(e),
        },
{
}

/// The segments of every assembly stand in ascending order, share no
/// address and end within the flash, so that they can be merged, and in the
/// merged buffer each lies as it is.
pub proof fn lemma_collected_sound(input: AssemblyInput)
    requires
        collect_spec(input) is Ok,
    ensures
        segments_sound(collect_spec(input)->Ok_0.segments),
        span_end(collect_spec(input)->Ok_0.segments) <= input.settings.size.spec_bytes(),
{
    let profile = profile_spec(input.chip)->Some_0;
    let header = encode_header_spec(
        input.chip,
        input.app.entry_point,
        input.app.segments.len() as u8,
        input.settings.mode,
        input.settings.frequency,
        input.settings.size,
    )->Ok_0;
    let flash = input.settings.size.spec_bytes();
    let table = table_of(input.table, profile, flash)->Ok_0;
    let app_at = app_offset(table)->Some_0;
    let segs = placed(profile, input.bootloader, table, app_at, header, input.app);
    let table_segment = SegmentView {
        load_address: profile.partition_table_offset,
        data: serialize_binary_spec(table),
    };
    let app_segment = SegmentView { load_address: app_at, data: header + body_bytes(input.app.segments) };
    let base = match input.bootloader {
        Some(b) => seq![SegmentView { load_address: profile.bootloader_offset, data: b }, table_segment],
        None => seq![table_segment],
    };
    lemma_insert_sorted_ascending(base, app_segment);
    lemma_no_overlap_disjoint(segs);
    lemma_none_beyond(segs, flash as int);
}

} // verus!
