//! Partition tables: the entries, what makes a table valid, and the
//! validator that names the first defect of one that is not.

use vstd::prelude::*;
use crate::bytes::slices_equal;
use crate::error::RowError;

verus! {

/// The subtype that marks the factory application.
pub const SUBTYPE_FACTORY: u8 = 0x00;

/// The longest name, in bytes.
pub const NAME_LEN: usize = 16;

/// What a partition holds.
#[derive(Debug, Clone, Copy, PartialEq, Eq, Structural)]
pub enum PartitionType {
    App,
    Data,
    /// A type of the user's own, from 2 to 254.
    Custom(u8),
}

impl PartitionType {
    /// The byte that stands for the type in a binary table.
    pub open spec fn spec_code(self) -> u8 {
        match self {
            PartitionType::App => 0,
            PartitionType::Data => 1,
            PartitionType::Custom(n) => n,
        }
    }

    /// The type that a byte of a binary table stands for.
    pub open spec fn spec_from_code(code: u8) -> PartitionType {
        if code == 0 {
            PartitionType::App
        } else if code == 1 {
            PartitionType::Data
        } else {
            PartitionType::Custom(code)
        }
    }

    /// A custom type must not pass for an application, for data, or for
    /// erased flash.
    pub open spec fn ok(self) -> bool {
        match self {
            PartitionType::Custom(n) => 2 <= n <= 254,
            _ => true,
        }
    }

    #[verifier::when_used_as_spec(spec_code)]
    pub fn code(self) -> (c: u8)
        ensures
            c == self.spec_code(),
    {
        match self {
            PartitionType::App => 0,
            PartitionType::Data => 1,
            PartitionType::Custom(n) => n,
        }
    }

    #[verifier::when_used_as_spec(spec_from_code)]
    pub fn from_code(code: u8) -> (t: PartitionType)
        ensures
            t == PartitionType::spec_from_code(code),
    {
        if code == 0 {
            PartitionType::App
        } else if code == 1 {
            PartitionType::Data
        } else {
            PartitionType::Custom(code)
        }
    }
}

/// One row of a partition table.
#[derive(Debug, PartialEq, Eq)]
pub struct PartitionEntry {
    /// Up to sixteen ASCII bytes.
    pub name: Vec<u8>,
    pub ptype: PartitionType,
    pub subtype: u8,
    /// The absolute flash address of the first byte.
    pub offset: u32,
    pub size: u32,
    /// Bit 0 marks the partition read-only.
    pub flags: u32,
}

/// A partition entry as a mathematical value.
pub struct EntryView {
    pub name: Seq<u8>,
    pub ptype: PartitionType,
    pub subtype: u8,
    pub offset: u32,
    pub size: u32,
    pub flags: u32,
}

impl View for PartitionEntry {
    type V = EntryView;

    open spec fn view(&self) -> EntryView {
        EntryView {
            name: self.name@,
            ptype: self.ptype,
            subtype: self.subtype,
            offset: self.offset,
            size: self.size,
            flags: self.flags,
        }
    }
}

impl Clone for PartitionEntry {
    fn clone(&self) -> (r: Self)
        ensures
            r@ == self@,
    {
        PartitionEntry {
            name: self.name.clone(),
            ptype: self.ptype,
            subtype: self.subtype,
            offset: self.offset,
            size: self.size,
            flags: self.flags,
        }
    }
}

impl EntryView {
    /// The first address behind the partition.
    pub open spec fn end(self) -> int {
        self.offset + self.size
    }

    /// Whether this is the factory application.
    pub open spec fn is_factory(self) -> bool {
        self.ptype == PartitionType::App && self.subtype == SUBTYPE_FACTORY
    }

    /// Whether the partition shares an address with `other`.
    pub open spec fn intersects(self, other: EntryView) -> bool {
        self.offset < other.end() && other.offset < self.end()
    }
}

/// A name may hold printable ASCII without blanks; a comma would end the
/// field of a text row and a hash would turn the row into a comment.
pub open spec fn name_byte_ok(b: u8) -> bool {
    0x21 <= b <= 0x7e && b != 0x2c && b != 0x23
}

/// A name has at most sixteen bytes, each of them allowed.
pub open spec fn name_ok(name: Seq<u8>) -> bool {
    &&& name.len() <= 16
    &&& forall|i: int| 0 <= i < name.len() ==> name_byte_ok(#[trigger] name[i])
}

/// The views of a run of entries.
pub open spec fn views(entries: Seq<PartitionEntry>) -> Seq<EntryView> {
    Seq::new(entries.len(), |i: int| entries[i]@)
}

/// Where a table is defective, and why.
#[derive(Debug, Clone, Copy, PartialEq, Eq, Structural)]
pub struct Defect {
    /// The index of the entry, from zero.
    pub index: usize,
    pub reason: RowError,
}

/// What is wrong with the place of entry `i` after the entry before it.
pub open spec fn order_defect_at(es: Seq<EntryView>, i: int) -> Option<RowError> {
    if i <= 0 || i >= es.len() {
        None
    } else if es[i].offset < es[i - 1].offset {
        Some(RowError::NotMonotonic)
    } else if es[i].offset < es[i - 1].end() {
        Some(RowError::Overlap)
    } else {
        None
    }
}

/// Whether an entry before `i` has the name of entry `i`.
pub open spec fn name_taken(es: Seq<EntryView>, i: int) -> bool {
    exists|j: int| 0 <= j < i && (#[trigger] es[j]).name == es[i].name
}

/// Whether an entry before `i` is a factory application.
pub open spec fn factory_taken(es: Seq<EntryView>, i: int) -> bool {
    exists|j: int| 0 <= j < i && (#[trigger] es[j]).is_factory()
}

/// What is wrong with entry `i` itself, with its end against the flash, or
/// with its name and role against the entries before it: the first check
/// that fails, in this order.
pub open spec fn entry_defect_at(es: Seq<EntryView>, flash: u32, i: int) -> Option<RowError> {
    let e = es[i];
    if !name_ok(e.name) {
        Some(RowError::Name)
    } else if !e.ptype.ok() {
        Some(RowError::Type)
    } else if e.offset == 0 || e.offset % 4096 != 0 {
        Some(RowError::Offset)
    } else if e.size == 0 || e.size % 4096 != 0 {
        Some(RowError::Size)
    } else if e.end() > flash {
        Some(RowError::ExceedsFlash)
    } else if name_taken(es, i) {
        Some(RowError::DuplicateName)
    } else if e.is_factory() && factory_taken(es, i) {
        Some(RowError::DuplicateFactory)
    } else {
        None
    }
}

/// The first entry from `from` on that is out of place, with the reason.
pub open spec fn first_order_defect(es: Seq<EntryView>, from: int) -> Option<(int, RowError)>
    decreases es.len() - from,
{
    if from < 0 || from >= es.len() {
        None
    } else {
        match order_defect_at(es, from) {
            Some(reason) => Some((from, reason)),
            None => first_order_defect(es, from + 1),
        }
    }
}

/// The first entry from `from` on that is defective in itself, with the
/// reason.
pub open spec fn first_entry_defect(es: Seq<EntryView>, flash: u32, from: int) -> Option<
    (int, RowError),
>
    decreases es.len() - from,
{
    if from < 0 || from >= es.len() {
        None
    } else {
        match entry_defect_at(es, flash, from) {
            Some(reason) => Some((from, reason)),
            None => first_entry_defect(es, flash, from + 1),
        }
    }
}

/// The defect that the validator reports. Order comes first: a table whose
/// entries are out of order or run into each other is refused for that,
/// whatever else is wrong with it.
pub open spec fn first_defect(es: Seq<EntryView>, flash: u32) -> Option<(int, RowError)> {
    match first_order_defect(es, 0) {
        Some(d) => Some(d),
        None => first_entry_defect(es, flash, 0),
    }
}

/// A valid table for a flash of `flash` bytes: ascending offsets, no two
/// entries sharing an address, every entry well formed and within the
/// flash, no name twice and at most one factory application.
pub open spec fn table_ok(es: Seq<EntryView>, flash: u32) -> bool {
    &&& forall|i: int| 0 <= i < es.len() ==> (#[trigger] order_defect_at(es, i)) is None
    &&& forall|i: int| 0 <= i < es.len() ==> (#[trigger] entry_defect_at(es, flash, i)) is None
}

/// What the scan for an entry out of place finds: nothing where every
/// entry from `from` on is in place, else the first that is not.
pub proof fn lemma_first_order_defect(es: Seq<EntryView>, from: int)
    requires
        0 <= from,
    ensures
        match first_order_defect(es, from) {
            None => forall|i: int|
                from <= i < es.len() ==> (#[trigger] order_defect_at(es, i)) is None,
            Some((k, reason)) => {
                &&& from <= k < es.len()
                &&& order_defect_at(es, k) == Some(reason)
                &&& forall|i: int| from <= i < k ==> (#[trigger] order_defect_at(es, i)) is None
            },
        },
    decreases es.len() - from,
{
    if from < es.len() && order_defect_at(es, from) is None {
        lemma_first_order_defect(es, from + 1);
    }
}

/// What the scan for a defective entry finds: nothing where every entry
/// from `from` on is sound, else the first that is not.
pub proof fn lemma_first_entry_defect(es: Seq<EntryView>, flash: u32, from: int)
    requires
        0 <= from,
    ensures
        match first_entry_defect(es, flash, from) {
            None => forall|i: int|
                from <= i < es.len() ==> (#[trigger] entry_defect_at(es, flash, i)) is None,
            Some((k, reason)) => {
                &&& from <= k < es.len()
                &&& entry_defect_at(es, flash, k) == Some(reason)
                &&& forall|i: int|
                    from <= i < k ==> (#[trigger] entry_defect_at(es, flash, i)) is None
            },
        },
    decreases es.len() - from,
{
    if from < es.len() && entry_defect_at(es, flash, from) is None {
        lemma_first_entry_defect(es, flash, from + 1);
    }
}

/// The validator finds no defect exactly in the valid tables.
pub proof fn lemma_no_defect_iff_ok(es: Seq<EntryView>, flash: u32)
    ensures
        first_defect(es, flash) is None <==> table_ok(es, flash),
{
    lemma_first_order_defect(es, 0);
    lemma_first_entry_defect(es, flash, 0);
}

/// In a table whose entries are all in place, an earlier entry ends where a
/// later one starts, or before.
pub proof fn lemma_ordered_disjoint(es: Seq<EntryView>, i: int, j: int)
    requires
        forall|k: int| 0 <= k < es.len() ==> (#[trigger] order_defect_at(es, k)) is None,
        0 <= i < j < es.len(),
    ensures
        es[i].offset <= es[j].offset,
        es[i].end() <= es[j].offset,
    decreases j - i,
{
    assert(order_defect_at(es, j) is None);
    if i + 1 < j {
        lemma_ordered_disjoint(es, i, j - 1);
    }
}

/// Two entries of a table that share an address make the validator report
/// an entry out of place, whatever else is wrong with the table.
pub proof fn lemma_intersecting_entries_refused(es: Seq<EntryView>, flash: u32, i: int, j: int)
    requires
        0 <= i < es.len(),
        0 <= j < es.len(),
        i != j,
        es[i].intersects(es[j]),
    ensures
        first_defect(es, flash) matches Some((k, reason)) && reason.is_overlap_class(),
{
    lemma_first_order_defect(es, 0);
    if first_order_defect(es, 0) is None {
        if i < j {
            lemma_ordered_disjoint(es, i, j);
        } else {
            lemma_ordered_disjoint(es, j, i);
        }
    }
}

/// A table that is valid for a flash is valid for every larger one.
pub proof fn lemma_table_ok_larger_flash(es: Seq<EntryView>, flash: u32, larger: u32)
    requires
        table_ok(es, flash),
        flash <= larger,
    ensures
        table_ok(es, larger),
{
    assert forall|i: int| 0 <= i < es.len() implies (#[trigger] entry_defect_at(es, larger, i))
        is None by {
        assert(entry_defect_at(es, flash, i) is None);
    }
}

/// Whether `name` may stand in a table.
pub fn check_name(name: &Vec<u8>) -> (r: bool)
    ensures
        r == name_ok(name@),
{
    if name.len() > NAME_LEN {
        return false;
    }
    let mut i: usize = 0;
    while i < name.len()
        invariant
            i <= name@.len(),
            forall|k: int| 0 <= k < i ==> name_byte_ok(#[trigger] name@[k]),
        decreases name@.len() - i,
    {
        let b = name[i];
        if b < 0x21 || b > 0x7e || b == 0x2c || b == 0x23 {
            assert(!name_byte_ok(name@[i as int]));
            return false;
        }
        i += 1;
    }
    true
}

/// Whether an entry before `i` has the name of entry `i`.
fn is_name_taken(entries: &Vec<PartitionEntry>, i: usize) -> (r: bool)
    requires
        i < entries@.len(),
    ensures
        r == name_taken(views(entries@), i as int),
{
    let ghost es = views(entries@);
    let mut j: usize = 0;
    while j < i
        invariant
            j <= i < entries@.len(),
            es == views(entries@),
            forall|k: int| 0 <= k < j ==> (#[trigger] es[k]).name != es[i as int].name,
        decreases i - j,
    {
        if slices_equal(entries[j].name.as_slice(), entries[i].name.as_slice()) {
            assert(es[j as int].name == es[i as int].name);
            return true;
        }
        j += 1;
    }
    false
}

/// Whether an entry before `i` is a factory application.
fn is_factory_taken(entries: &Vec<PartitionEntry>, i: usize) -> (r: bool)
    requires
        i < entries@.len(),
    ensures
        r == factory_taken(views(entries@), i as int),
{
    let ghost es = views(entries@);
    let mut j: usize = 0;
    while j < i
        invariant
            j <= i < entries@.len(),
            es == views(entries@),
            forall|k: int| 0 <= k < j ==> !(#[trigger] es[k]).is_factory(),
        decreases i - j,
    {
        if entries[j].ptype == PartitionType::App && entries[j].subtype == SUBTYPE_FACTORY {
            assert(es[j as int].is_factory());
            return true;
        }
        j += 1;
    }
    false
}

/// What is wrong with entry `i` in itself.
fn entry_defect(entries: &Vec<PartitionEntry>, flash: u32, i: usize) -> (r: Option<RowError>)
    requires
        i < entries@.len(),
    ensures
        r == entry_defect_at(views(entries@), flash, i as int),
{
    let e = &entries[i];
    assert(views(entries@)[i as int] == e@);
    if !check_name(&e.name) {
        return Some(RowError::Name);
    }
    let type_ok = match e.ptype {
        PartitionType::Custom(n) => 2 <= n && n <= 254,
        _ => true,
    };
    if !type_ok {
        return Some(RowError::Type);
    }
    if e.offset == 0 || e.offset % 4096 != 0 {
        return Some(RowError::Offset);
    }
    if e.size == 0 || e.size % 4096 != 0 {
        return Some(RowError::Size);
    }
    if e.size > flash || e.offset > flash - e.size {
        return Some(RowError::ExceedsFlash);
    }
    if is_name_taken(entries, i) {
        return Some(RowError::DuplicateName);
    }
    if e.ptype == PartitionType::App && e.subtype == SUBTYPE_FACTORY && is_factory_taken(entries, i) {
        return Some(RowError::DuplicateFactory);
    }
    None
}

/// The validator: looks for the first defect of a table that is meant for a
/// flash of `flash` bytes.
pub fn find_defect(entries: &Vec<PartitionEntry>, flash: u32) -> (r: Option<Defect>)
    ensures
        match first_defect(views(entries@), flash) {
            None => r is None,
            Some((k, reason)) => r == Some(Defect { index: k as usize, reason }) && 0 <= k
                < entries@.len(),
        },
        r is None <==> table_ok(views(entries@), flash),
{
    let ghost es = views(entries@);
    proof {
        lemma_no_defect_iff_ok(es, flash);
        lemma_first_order_defect(es, 0);
        lemma_first_entry_defect(es, flash, 0);
    }
    let n = entries.len();
    let mut i: usize = 1;
    while i < n
        invariant
            1 <= i,
            n == entries@.len(),
            es == views(entries@),
            first_order_defect(es, 0) == first_order_defect(es, i as int) || n == 0,
        decreases n - i,
    {
        let prev = &entries[i - 1];
        let cur = &entries[i];
        assert(es[i as int] == cur@ && es[i - 1] == prev@);
        if cur.offset < prev.offset {
            return Some(Defect { index: i, reason: RowError::NotMonotonic });
        }
        if (cur.offset as u64) < prev.offset as u64 + prev.size as u64 {
            return Some(Defect { index: i, reason: RowError::Overlap });
        }
        i += 1;
    }
    assert(first_order_defect(es, 0) is None);
    let mut i: usize = 0;
    while i < n
        invariant
            i <= n,
            n == entries@.len(),
            es == views(entries@),
            first_order_defect(es, 0) is None,
            first_entry_defect(es, flash, 0) == first_entry_defect(es, flash, i as int),
        decreases n - i,
    {
        match entry_defect(entries, flash, i) {
            Some(reason) => {
                return Some(Defect { index: i, reason });
            },
            None => {},
        }
        i += 1;
    }
    None
}

/// A validated partition table. It cannot be changed; a different table is
/// built anew.
#[derive(Debug)]
pub struct PartitionTable {
    entries: Vec<PartitionEntry>,
}

impl View for PartitionTable {
    type V = Seq<EntryView>;

    closed spec fn view(&self) -> Seq<EntryView> {
        views(self.entries@)
    }
}

impl PartitionTable {
    #[verifier::type_invariant]
    spec fn valid(self) -> bool {
        table_ok(views(self.entries@), u32::MAX)
    }

    /// Validates `entries` for a flash of `flash` bytes and seals them as a
    /// table, or names the first defect.
    pub fn new(entries: Vec<PartitionEntry>, flash: u32) -> (r: Result<PartitionTable, Defect>)
        ensures
            match first_defect(views(entries@), flash) {
                None => r is Ok && r->Ok_0@ == views(entries@),
                Some((k, reason)) => r == Err::<PartitionTable, Defect>(
                    Defect { index: k as usize, reason },
                ) && 0 <= k < entries@.len(),
            },
            r is Ok <==> table_ok(views(entries@), flash),
    {
        match find_defect(&entries, flash) {
            Some(d) => Err(d),
            None => {
                proof {
                    lemma_table_ok_larger_flash(views(entries@), flash, u32::MAX);
                }
                Ok(PartitionTable { entries })
            },
        }
    }

    /// The entries, in ascending order of their offsets.
    pub fn entries(&self) -> (r: &Vec<PartitionEntry>)
        ensures
            views(r@) == self@,
            table_ok(self@, u32::MAX),
    {
        proof {
            use_type_invariant(self);
        }
        &self.entries
    }

    /// Whether the table also suits a flash of `flash` bytes.
    pub fn fits(&self, flash: u32) -> (r: bool)
        ensures
            r == table_ok(self@, flash),
    {
        find_defect(&self.entries, flash).is_none()
    }
}

} // verus!
