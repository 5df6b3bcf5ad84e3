//! The text form of a partition table: one row of six comma-separated
//! fields for each entry.

use vstd::prelude::*;
use vstd::slice::{slice_subrange, slice_to_vec};
use crate::bytes::{align_up, lemma_align_up, push_all};
use crate::error::{Error, RowError};
use crate::lex::{
    find, find_byte, hex_text, is_space, lemma_find, lemma_find_is_first,
    lemma_number_of_hex_text, lemma_trim_tight, number_of, push_hex, read_number, trim,
    trim_slice, word_byte,
};
use crate::partition::{
    entry_defect_at, first_defect, lemma_no_defect_iff_ok, name_byte_ok, name_ok, table_ok, views,
    EntryView, PartitionEntry, PartitionTable, PartitionType,
};
use crate::words::{
    flags_of, is_word, keyword_views, lemma_flags_round_trip, lemma_subtype_round_trip,
    lemma_type_round_trip, push_subtype, push_type, read_flags, read_subtype, read_type,
    subtype_of, subtype_text, type_of, type_text, KeywordView, SubtypeKeyword,
};

verus! {

/// The byte that parts the fields of a row.
pub const COMMA: u8 = 0x2c;

/// The byte that ends a row.
pub const NEWLINE: u8 = 0x0a;

/// The byte that opens a comment.
pub const HASH: u8 = 0x23;

/// The offset that an empty offset field stands for in the first row.
pub const FIRST_OFFSET: u32 = 0x9000;

/// The offset that an empty offset field stands for: `auto`, where that is
/// an address.
pub open spec fn auto_offset(auto: int) -> Option<u32> {
    if 0 <= auto <= u32::MAX {
        Some(auto as u32)
    } else {
        None
    }
}

/// Where the six fields of a row end: at the first five commas and at the
/// end of the row. Nothing where the row has fewer commas, or more.
pub open spec fn field_ends(line: Seq<u8>) -> Option<Seq<int>> {
    let e0 = find(line, COMMA, 0);
    let e1 = find(line, COMMA, e0 + 1);
    let e2 = find(line, COMMA, e1 + 1);
    let e3 = find(line, COMMA, e2 + 1);
    let e4 = find(line, COMMA, e3 + 1);
    let e5 = find(line, COMMA, e4 + 1);
    if e0 < line.len() && e1 < line.len() && e2 < line.len() && e3 < line.len() && e4
        < line.len() && e5 == line.len() {
        Some(seq![e0, e1, e2, e3, e4, e5])
    } else {
        None
    }
}

/// Field `k` of a row whose fields end at `ends`, trimmed.
pub open spec fn field(line: Seq<u8>, ends: Seq<int>, k: int) -> Seq<u8> {
    trim(
        line.subrange(
            if k == 0 {
                0
            } else {
                ends[k - 1] + 1
            },
            ends[k],
        ),
    )
}

/// The entry that six fields spell, or why they spell none. Of several
/// failures the one in the earliest field is told.
pub open spec fn entry_of(
    name: Seq<u8>,
    type_field: Seq<u8>,
    subtype_field: Seq<u8>,
    offset_field: Seq<u8>,
    size_field: Seq<u8>,
    flags_field: Seq<u8>,
    auto: int,
    extra: Seq<KeywordView>,
) -> Result<EntryView, RowError> {
    match type_of(type_field) {
        None => Err(RowError::Type),
        Some(ptype) => match subtype_of(ptype, subtype_field, extra) {
            None => Err(RowError::Subtype),
            Some(subtype) => match (if offset_field.len() == 0 {
                auto_offset(auto)
            } else {
                number_of(offset_field)
            }) {
                None => Err(RowError::Offset),
                Some(offset) => match number_of(size_field) {
                    None => Err(RowError::Size),
                    Some(size) => match flags_of(flags_field) {
                        None => Err(RowError::Flags),
                        Some(flags) => Ok(EntryView { name, ptype, subtype, offset, size, flags }),
                    },
                },
            },
        },
    }
}

/// The entry that a row spells, or why it spells none. `auto` is the offset
/// that an empty offset field stands for; `extra` holds the caller's subtype
/// keywords.
#[verifier::opaque]
pub open spec fn row_of(line: Seq<u8>, auto: int, extra: Seq<KeywordView>) -> Result<
    EntryView,
    RowError,
> {
    match field_ends(line) {
        None => Err(RowError::FieldCount),
        Some(ends) => entry_of(
            field(line, ends, 0),
            field(line, ends, 1),
            field(line, ends, 2),
            field(line, ends, 3),
            field(line, ends, 4),
            field(line, ends, 5),
            auto,
            extra,
        ),
    }
}

/// An entry and the number of the line that spells it.
pub struct Row {
    pub entry: EntryView,
    pub line: int,
}

/// The entries of a run of rows.
pub open spec fn entries_of(rows: Seq<Row>) -> Seq<EntryView> {
    Seq::new(rows.len(), |i: int| rows[i].entry)
}

/// `first` put before what `rest` holds, where it holds rows.
pub open spec fn prepend_rows(first: Seq<Row>, rest: Result<Seq<Row>, Error>) -> Result<
    Seq<Row>,
    Error,
> {
    match rest {
        Ok(rows) => Ok(first + rows),
        Err(e) => Err(e),
    }
}

/// Whether a line holds no row: it is blank, or a comment.
pub open spec fn is_skipped(line: Seq<u8>) -> bool {
    trim(line).len() == 0 || trim(line)[0] == HASH
}

/// The rows that `text` spells from byte `pos` on, where `line` is the
/// number of the line that starts there and `auto` is the offset that an
/// empty offset field stands for. Each row sets that offset for the next one
/// to its own end, rounded up to a sector boundary.
#[verifier::opaque]
pub open spec fn rows_of(
    text: Seq<u8>,
    pos: int,
    line: int,
    auto: int,
    extra: Seq<KeywordView>,
) -> Result<Seq<Row>, Error>
    decreases text.len() + 1 - pos,
{
    if pos < 0 || pos >= text.len() {
        Ok(Seq::empty())
    } else {
        proof {
            lemma_find_is_first(text, NEWLINE, pos);
        }
        let end = find(text, NEWLINE, pos);
        let raw = text.subrange(pos, end);
        if is_skipped(raw) {
            rows_of(text, end + 1, line + 1, auto, extra)
        } else {
            match row_of(raw, auto, extra) {
                Err(reason) => Err(Error::MalformedRow { line: line as usize, reason }),
                Ok(entry) => prepend_rows(
                    seq![Row { entry, line }],
                    rows_of(text, end + 1, line + 1, align_up(entry.end()), extra),
                ),
            }
        }
    }
}

/// What `parse_text_with` returns: the entries that the rows spell, where
/// they make a valid table for a flash of `flash` bytes; else the first
/// failure. A row that spells no entry fails before the table is looked at;
/// a defect of the table is told with the line of the defective row.
pub open spec fn parse_text_spec(text: Seq<u8>, flash: u32, extra: Seq<KeywordView>) -> Result<
    Seq<EntryView>,
    Error,
> {
    match rows_of(text, 0, 1, FIRST_OFFSET as int, extra) {
        Err(e) => Err(e),
        Ok(rows) => match first_defect(entries_of(rows), flash) {
            Some((k, reason)) => Err(Error::MalformedRow { line: rows[k].line as usize, reason }),
            None => Ok(entries_of(rows)),
        },
    }
}

/// The row of an entry: name, type, subtype, offset, size and flags, the
/// numbers in hexadecimal.
pub open spec fn row_text(e: EntryView) -> Seq<u8> {
    e.name + seq![COMMA] + type_text(e.ptype) + seq![COMMA] + subtype_text(e.ptype, e.subtype)
        + seq![COMMA] + hex_text(e.offset) + seq![COMMA] + hex_text(e.size) + seq![COMMA]
        + hex_text(e.flags)
}

/// The text form of a table: the rows of its entries, each ended by a
/// newline.
pub open spec fn serialize_text_spec(es: Seq<EntryView>) -> Seq<u8>
    decreases es.len(),
{
    if es.len() == 0 {
        Seq::empty()
    } else {
        serialize_text_spec(es.drop_last()) + row_text(es.last()) + seq![NEWLINE]
    }
}

/// The field that starts at `start` in a row is found again: it reaches to
/// the comma behind it.
proof fn lemma_field(line: Seq<u8>, start: int, field: Seq<u8>)
    requires
        0 <= start,
        start + field.len() < line.len(),
        line.subrange(start, start + field.len()) == field,
        line[start + field.len()] == COMMA,
        forall|i: int| 0 <= i < field.len() ==> field[i] != COMMA,
    ensures
        find(line, COMMA, start) == start + field.len(),
{
    assert forall|i: int| start <= i < start + field.len() implies line[i] != COMMA by {
        assert(line.subrange(start, start + field.len())[i - start] == line[i]);
    }
    lemma_find(line, COMMA, start, start + field.len());
}

/// The last field of a row reaches to the end of the row.
proof fn lemma_last_field(line: Seq<u8>, start: int, field: Seq<u8>)
    requires
        0 <= start,
        start + field.len() == line.len(),
        line.subrange(start, start + field.len()) == field,
        forall|i: int| 0 <= i < field.len() ==> field[i] != COMMA,
    ensures
        find(line, COMMA, start) == line.len(),
{
    assert forall|i: int| start <= i < start + field.len() implies line[i] != COMMA by {
        assert(line.subrange(start, start + field.len())[i - start] == line[i]);
    }
    lemma_find(line, COMMA, start, start + field.len());
}

/// A word holds no comma and no newline, and trimming leaves it alone.
proof fn lemma_word(s: Seq<u8>)
    requires
        is_word(s),
    ensures
        forall|i: int| 0 <= i < s.len() ==> s[i] != COMMA && s[i] != NEWLINE,
        trim(s) == s,
{
    assert forall|i: int| 0 <= i < s.len() implies s[i] != COMMA && s[i] != NEWLINE by {
        assert(word_byte(s[i]));
    }
    assert(word_byte(s[0]));
    assert(word_byte(s[s.len() - 1]));
    lemma_trim_tight(s);
}

/// A name that may stand in a table holds no comma and no newline, and
/// trimming leaves it alone.
proof fn lemma_name(s: Seq<u8>)
    requires
        name_ok(s),
    ensures
        forall|i: int| 0 <= i < s.len() ==> s[i] != COMMA && s[i] != NEWLINE,
        trim(s) == s,
{
    assert forall|i: int| 0 <= i < s.len() implies s[i] != COMMA && s[i] != NEWLINE by {
        assert(name_byte_ok(s[i]));
    }
    if s.len() > 0 {
        assert(name_byte_ok(s[0]));
        assert(name_byte_ok(s[s.len() - 1]));
    }
    lemma_trim_tight(s);
}

/// Where the fields of the row of an entry end, and what they hold.
proof fn lemma_row_fields(e: EntryView)
    requires
        name_ok(e.name),
        is_word(type_text(e.ptype)),
        is_word(subtype_text(e.ptype, e.subtype)),
        is_word(hex_text(e.offset)),
        is_word(hex_text(e.size)),
        is_word(hex_text(e.flags)),
    ensures
        field_ends(row_text(e)) matches Some(ends) && {
            &&& field(row_text(e), ends, 0) == e.name
            &&& field(row_text(e), ends, 1) == type_text(e.ptype)
            &&& field(row_text(e), ends, 2) == subtype_text(e.ptype, e.subtype)
            &&& field(row_text(e), ends, 3) == hex_text(e.offset)
            &&& field(row_text(e), ends, 4) == hex_text(e.size)
            &&& field(row_text(e), ends, 5) == hex_text(e.flags)
        },
{
    let line = row_text(e);
    let f0 = e.name;
    let f1 = type_text(e.ptype);
    let f2 = subtype_text(e.ptype, e.subtype);
    let f3 = hex_text(e.offset);
    let f4 = hex_text(e.size);
    let f5 = hex_text(e.flags);
    lemma_name(f0);
    lemma_word(f1);
    lemma_word(f2);
    lemma_word(f3);
    lemma_word(f4);
    lemma_word(f5);
    let s1: int = (f0.len() as int) + 1;
    let s2: int = s1 + f1.len() + 1;
    let s3: int = s2 + f2.len() + 1;
    let s4: int = s3 + f3.len() + 1;
    let s5: int = s4 + f4.len() + 1;
    assert(line.len() == s5 + f5.len());
    assert(line.subrange(0, f0.len() as int) =~= f0);
    assert(line.subrange(s1, s1 + f1.len()) =~= f1);
    assert(line.subrange(s2, s2 + f2.len()) =~= f2);
    assert(line.subrange(s3, s3 + f3.len()) =~= f3);
    assert(line.subrange(s4, s4 + f4.len()) =~= f4);
    assert(line.subrange(s5, s5 + f5.len()) =~= f5);
    assert(line[s1 - 1] == COMMA);
    assert(line[s2 - 1] == COMMA);
    assert(line[s3 - 1] == COMMA);
    assert(line[s4 - 1] == COMMA);
    assert(line[s5 - 1] == COMMA);
    lemma_field(line, 0, f0);
    lemma_field(line, s1, f1);
    lemma_field(line, s2, f2);
    lemma_field(line, s3, f3);
    lemma_field(line, s4, f4);
    lemma_last_field(line, s5, f5);
}

/// The row of an entry holds no newline.
proof fn lemma_row_has_no_newline(e: EntryView)
    requires
        name_ok(e.name),
        is_word(type_text(e.ptype)),
        is_word(subtype_text(e.ptype, e.subtype)),
        is_word(hex_text(e.offset)),
        is_word(hex_text(e.size)),
        is_word(hex_text(e.flags)),
    ensures
        forall|i: int| 0 <= i < row_text(e).len() ==> row_text(e)[i] != NEWLINE,
{
    let line = row_text(e);
    let f0 = e.name;
    let f1 = type_text(e.ptype);
    let f2 = subtype_text(e.ptype, e.subtype);
    let f3 = hex_text(e.offset);
    let f4 = hex_text(e.size);
    let f5 = hex_text(e.flags);
    lemma_name(f0);
    lemma_word(f1);
    lemma_word(f2);
    lemma_word(f3);
    lemma_word(f4);
    lemma_word(f5);
    let s1: int = (f0.len() as int) + 1;
    let s2: int = s1 + f1.len() + 1;
    let s3: int = s2 + f2.len() + 1;
    let s4: int = s3 + f3.len() + 1;
    let s5: int = s4 + f4.len() + 1;
    assert forall|i: int| 0 <= i < line.len() implies line[i] != NEWLINE by {
        if i < s1 - 1 {
            assert(line[i] == f0[i]);
        } else if i < s1 {
        } else if i < s2 - 1 {
            assert(line[i] == f1[i - s1]);
        } else if i < s2 {
        } else if i < s3 - 1 {
            assert(line[i] == f2[i - s2]);
        } else if i < s3 {
        } else if i < s4 - 1 {
            assert(line[i] == f3[i - s3]);
        } else if i < s4 {
        } else if i < s5 - 1 {
            assert(line[i] == f4[i - s4]);
        } else if i < s5 {
        } else {
            assert(line[i] == f5[i - s5]);
        }
    }
}

/// The row of an entry is read back as the entry, whatever offset an empty
/// field would stand for; it holds no newline, and is neither blank nor a
/// comment.
pub proof fn lemma_row_round_trip(e: EntryView, auto: int, extra: Seq<KeywordView>)
    requires
        name_ok(e.name),
        e.ptype.ok(),
    ensures
        row_of(row_text(e), auto, extra) == Ok::<EntryView, RowError>(e),
        forall|i: int| 0 <= i < row_text(e).len() ==> row_text(e)[i] != NEWLINE,
        !is_skipped(row_text(e)),
        row_text(e).len() > 0,
{
    reveal(row_of);
    let line = row_text(e);
    lemma_type_round_trip(e.ptype);
    lemma_subtype_round_trip(e.ptype, e.subtype, extra);
    lemma_flags_round_trip(e.offset);
    lemma_flags_round_trip(e.size);
    lemma_flags_round_trip(e.flags);
    lemma_number_of_hex_text(e.offset);
    lemma_number_of_hex_text(e.size);
    lemma_row_fields(e);
    lemma_row_has_no_newline(e);
    let last = hex_text(e.flags);
    assert(line[line.len() - 1] == last[last.len() - 1]);
    assert(word_byte(last[last.len() - 1]));
    assert(line.subrange(0, e.name.len() as int) =~= e.name);
    assert(line[e.name.len() as int] == COMMA);
    lemma_not_skipped(line, e.name);
}

/// A line that starts with a name and a comma is neither blank nor a
/// comment.
proof fn lemma_not_skipped(line: Seq<u8>, name: Seq<u8>)
    requires
        name_ok(name),
        name.len() < line.len(),
        line.subrange(0, name.len() as int) == name,
        line[name.len() as int] == COMMA,
        !is_space(line[line.len() - 1]),
    ensures
        !is_skipped(line),
{
    let first = line[0];
    if name.len() > 0 {
        assert(line.subrange(0, name.len() as int)[0] == line[0]);
        assert(name_byte_ok(name[0]));
    }
    assert(!is_space(first) && first != HASH);
    assert(crate::lex::trim_start(line, 0) == 0);
    assert(crate::lex::trim_end(line, line.len() as int) == line.len());
    assert(trim(line) =~= line);
}

/// The rows of the entries from `k` on, each ended by a newline.
pub open spec fn rows_text_from(es: Seq<EntryView>, k: int) -> Seq<u8>
    decreases es.len() - k,
{
    if k < 0 || k >= es.len() {
        Seq::empty()
    } else {
        row_text(es[k]) + seq![NEWLINE] + rows_text_from(es, k + 1)
    }
}

/// The text of a table is the text of its first `k` entries and then the
/// rows of the others.
proof fn lemma_serialize_text_split(es: Seq<EntryView>, k: int)
    requires
        0 <= k <= es.len(),
    ensures
        serialize_text_spec(es) == serialize_text_spec(es.take(k)) + rows_text_from(es, k),
    decreases es.len() - k,
{
    if k == es.len() {
        assert(es.take(k) =~= es);
        assert(serialize_text_spec(es) + Seq::<u8>::empty() =~= serialize_text_spec(es));
    } else {
        lemma_serialize_text_split(es, k + 1);
        let next = es.take(k + 1);
        assert(next.drop_last() =~= es.take(k));
        assert(next.last() == es[k]);
        assert(serialize_text_spec(next) + rows_text_from(es, k + 1) =~= serialize_text_spec(
            es.take(k),
        ) + rows_text_from(es, k));
    }
}

/// The entries from `k` on, numbered from `line` on.
pub open spec fn numbered(es: Seq<EntryView>, k: int, line: int) -> Seq<Row> {
    Seq::new((es.len() - k) as nat, |i: int| Row { entry: es[k + i], line: line + i })
}

/// Where the row of entry `k` lies in the text of a table.
proof fn lemma_row_in_text(es: Seq<EntryView>, k: int)
    requires
        0 <= k < es.len(),
    ensures
        ({
            let text = serialize_text_spec(es);
            let pos = serialize_text_spec(es.take(k)).len() as int;
            let row = row_text(es[k]);
            &&& pos + row.len() < text.len()
            &&& text.subrange(pos, pos + row.len()) == row
            &&& text[pos + row.len()] == NEWLINE
            &&& serialize_text_spec(es.take(k + 1)).len() == pos + row.len() + 1
        }),
{
    let text = serialize_text_spec(es);
    let pre = serialize_text_spec(es.take(k));
    let pos = pre.len() as int;
    let row = row_text(es[k]);
    let rest = rows_text_from(es, k + 1);
    lemma_serialize_text_split(es, k);
    assert(text =~= pre + row + seq![NEWLINE] + rest);
    assert(text.subrange(pos, pos + row.len()) =~= row);
    let next = es.take(k + 1);
    assert(next.drop_last() =~= es.take(k));
    assert(next.last() == es[k]);
}

/// Behind the end of a text there are no rows.
proof fn lemma_rows_of_end(text: Seq<u8>, pos: int, line: int, auto: int, extra: Seq<KeywordView>)
    requires
        pos >= text.len(),
    ensures
        rows_of(text, pos, line, auto, extra) == Ok::<Seq<Row>, Error>(Seq::empty()),
{
    reveal(rows_of);
}

/// Reading a text at the row of an entry gives the entry, and goes on
/// behind the newline that ends the row.
proof fn lemma_rows_of_step(
    text: Seq<u8>,
    pos: int,
    line: int,
    auto: int,
    extra: Seq<KeywordView>,
    e: EntryView,
)
    requires
        name_ok(e.name),
        e.ptype.ok(),
        0 <= pos,
        pos + row_text(e).len() < text.len(),
        text.subrange(pos, pos + row_text(e).len()) == row_text(e),
        text[pos + row_text(e).len()] == NEWLINE,
    ensures
        rows_of(text, pos, line, auto, extra) == prepend_rows(
            seq![Row { entry: e, line }],
            rows_of(text, pos + row_text(e).len() + 1, line + 1, align_up(e.end()), extra),
        ),
{
    reveal(rows_of);
    let row = row_text(e);
    let end = pos + row.len();
    lemma_row_round_trip(e, auto, extra);
    assert forall|i: int| pos <= i < end implies text[i] != NEWLINE by {
        assert(text.subrange(pos, end)[i - pos] == text[i]);
    }
    lemma_find(text, NEWLINE, pos, end);
}

/// Reading the text of a table from the row of entry `k` on gives the
/// entries from `k` on, one for each line.
proof fn lemma_rows_of_serialized(
    es: Seq<EntryView>,
    k: int,
    line: int,
    auto: int,
    extra: Seq<KeywordView>,
)
    requires
        forall|i: int| 0 <= i < es.len() ==> name_ok((#[trigger] es[i]).name) && es[i].ptype.ok(),
        0 <= k <= es.len(),
    ensures
        rows_of(
            serialize_text_spec(es),
            serialize_text_spec(es.take(k)).len() as int,
            line,
            auto,
            extra,
        ) == Ok::<Seq<Row>, Error>(numbered(es, k, line)),
    decreases es.len() - k,
{
    let text = serialize_text_spec(es);
    let pos = serialize_text_spec(es.take(k)).len() as int;
    if k == es.len() {
        assert(es.take(k) =~= es);
        assert(numbered(es, k, line) =~= Seq::<Row>::empty());
        lemma_rows_of_end(text, pos, line, auto, extra);
    } else {
        lemma_row_in_text(es, k);
        lemma_rows_of_step(text, pos, line, auto, extra, es[k]);
        lemma_rows_of_serialized(es, k + 1, line + 1, align_up(es[k].end()), extra);
        assert(seq![Row { entry: es[k], line }] + numbered(es, k + 1, line + 1) =~= numbered(
            es,
            k,
            line,
        ));
    }
}

/// Writing a valid table as text and parsing the text gives the table
/// again, whatever subtype keywords the caller adds.
pub proof fn lemma_text_round_trip(es: Seq<EntryView>, flash: u32, extra: Seq<KeywordView>)
    requires
        table_ok(es, flash),
    ensures
        parse_text_spec(serialize_text_spec(es), flash, extra) == Ok::<Seq<EntryView>, Error>(es),
{
    assert forall|i: int| 0 <= i < es.len() implies name_ok((#[trigger] es[i]).name)
        && es[i].ptype.ok() by {
        assert(entry_defect_at(es, flash, i) is None);
    }
    assert(es.take(0) =~= Seq::<EntryView>::empty());
    lemma_rows_of_serialized(es, 0, 1, FIRST_OFFSET as int, extra);
    assert(entries_of(numbered(es, 0, 1)) =~= es);
    lemma_no_defect_iff_ok(es, flash);
}

/// A row whose offset field is empty lies where the row before it ended,
/// rounded up to the next sector boundary: `rows_of` hands that address on
/// as `auto`, and the row takes it.
pub proof fn lemma_empty_offset_takes_auto(line: Seq<u8>, auto: int, extra: Seq<KeywordView>)
    requires
        field_ends(line) matches Some(ends) && field(line, ends, 3).len() == 0,
        row_of(line, auto, extra) is Ok,
    ensures
        0 <= auto <= u32::MAX,
        row_of(line, auto, extra)->Ok_0.offset == auto,
{
    reveal(row_of);
}

/// A text whose rows spell two entries that share an address is refused
/// for an entry out of place, whatever else is wrong with the table.
pub proof fn lemma_text_overlap_refused(
    text: Seq<u8>,
    flash: u32,
    extra: Seq<KeywordView>,
    i: int,
    j: int,
)
    requires
        rows_of(text, 0, 1, FIRST_OFFSET as int, extra) matches Ok(rows) && {
            &&& 0 <= i < rows.len()
            &&& 0 <= j < rows.len()
            &&& i != j
            &&& rows[i].entry.intersects(rows[j].entry)
        },
    ensures
        parse_text_spec(text, flash, extra) matches Err(Error::MalformedRow { reason, .. })
            && reason.is_overlap_class(),
{
    let rows = rows_of(text, 0, 1, FIRST_OFFSET as int, extra)->Ok_0;
    crate::partition::lemma_intersecting_entries_refused(entries_of(rows), flash, i, j);
}

/// The offset that an empty offset field stands for behind an entry at
/// `offset` of `size` bytes: the end of that entry, rounded up to the next
/// sector boundary and never down.
pub fn next_auto_offset(offset: u32, size: u32) -> (auto: u64)
    ensures
        auto == align_up(offset + size),
        auto >= offset + size,
        auto % 4096 == 0,
        auto - (offset + size) < 4096,
        (offset + size) % 4096 == 0 ==> auto == offset + size,
{
    let end = offset as u64 + size as u64;
    proof {
        lemma_align_up(end as int);
    }
    let rest = end % 4096;
    if rest == 0 {
        end
    } else {
        end + (4096 - rest)
    }
}

/// Reads the entry that a row spells.
fn read_row(line: &[u8], auto: u64, extra: &Vec<SubtypeKeyword>) -> (r: Result<
    PartitionEntry,
    RowError,
>)
    ensures
        match row_of(line@, auto as int, keyword_views(extra@)) {
            Ok(e) => r is Ok && r->Ok_0@ == e,
            Err(reason) => r == Err::<PartitionEntry, RowError>(reason),
        },
{
    proof {
        reveal(row_of);
    }
    let len = line.len();
    let e0 = find_byte(line, COMMA, 0);
    if e0 >= len {
        return Err(RowError::FieldCount);
    }
    let e1 = find_byte(line, COMMA, e0 + 1);
    if e1 >= len {
        return Err(RowError::FieldCount);
    }
    let e2 = find_byte(line, COMMA, e1 + 1);
    if e2 >= len {
        return Err(RowError::FieldCount);
    }
    let e3 = find_byte(line, COMMA, e2 + 1);
    if e3 >= len {
        return Err(RowError::FieldCount);
    }
    let e4 = find_byte(line, COMMA, e3 + 1);
    if e4 >= len {
        return Err(RowError::FieldCount);
    }
    let e5 = find_byte(line, COMMA, e4 + 1);
    if e5 != len {
        return Err(RowError::FieldCount);
    }
    let ghost ends = seq![e0 as int, e1 as int, e2 as int, e3 as int, e4 as int, e5 as int];
    assert(field_ends(line@) == Some(ends));
    let name = trim_slice(slice_subrange(line, 0, e0));
    let type_field = trim_slice(slice_subrange(line, e0 + 1, e1));
    let subtype_field = trim_slice(slice_subrange(line, e1 + 1, e2));
    let offset_field = trim_slice(slice_subrange(line, e2 + 1, e3));
    let size_field = trim_slice(slice_subrange(line, e3 + 1, e4));
    let flags_field = trim_slice(slice_subrange(line, e4 + 1, e5));
    assert(name@ == field(line@, ends, 0));
    assert(type_field@ == field(line@, ends, 1));
    assert(subtype_field@ == field(line@, ends, 2));
    assert(offset_field@ == field(line@, ends, 3));
    assert(size_field@ == field(line@, ends, 4));
    assert(flags_field@ == field(line@, ends, 5));
    let ptype = match read_type(type_field) {
        Some(t) => t,
        None => {
            return Err(RowError::Type);
        },
    };
    let subtype = match read_subtype(ptype, subtype_field, extra) {
        Some(v) => v,
        None => {
            return Err(RowError::Subtype);
        },
    };
    let offset_read = if offset_field.len() == 0 {
        if auto <= 0xFFFF_FFFF {
            Some(auto as u32)
        } else {
            None
        }
    } else {
        read_number(offset_field)
    };
    let offset = match offset_read {
        Some(v) => v,
        None => {
            return Err(RowError::Offset);
        },
    };
    let size = match read_number(size_field) {
        Some(v) => v,
        None => {
            return Err(RowError::Size);
        },
    };
    let flags = match read_flags(flags_field) {
        Some(v) => v,
        None => {
            return Err(RowError::Flags);
        },
    };
    Ok(PartitionEntry { name: slice_to_vec(name), ptype, subtype, offset, size, flags })
}

/// The rows that stand for entries and the lines they were read from.
pub open spec fn rows_read(entries: Seq<PartitionEntry>, lines: Seq<usize>) -> Seq<Row> {
    Seq::new(entries.len(), |i: int| Row { entry: entries[i]@, line: lines[i] as int })
}

/// Reads a table from its text form and validates it for a flash of `flash`
/// bytes. Blank lines and lines that start with `#` are passed over. `extra`
/// holds the subtype keywords that the caller knows beside the built-in
/// ones.
pub fn parse_text_with(text: &[u8], flash: u32, extra: &Vec<SubtypeKeyword>) -> (r: Result<
    PartitionTable,
    Error,
>)
    ensures
        match parse_text_spec(text@, flash, keyword_views(extra@)) {
            Ok(es) => r is Ok && r->Ok_0@ == es,
            Err(e) => r is Err && r->Err_0 == e,
        },
        r is Ok ==> table_ok(r->Ok_0@, flash),
{
    let ghost ex = keyword_views(extra@);
    let len = text.len();
    let mut entries: Vec<PartitionEntry> = Vec::new();
    let mut lines: Vec<usize> = Vec::new();
    let mut pos: usize = 0;
    let mut line: usize = 1;
    let mut auto: u64 = FIRST_OFFSET as u64;
    proof {
        reveal(rows_of);
        assert(rows_read(entries@, lines@) =~= Seq::<Row>::empty());
        match rows_of(text@, 0, 1, FIRST_OFFSET as int, ex) {
            Ok(rows) => {
                assert(Seq::<Row>::empty() + rows =~= rows);
            },
            Err(e) => {},
        }
    }
    while pos < len
        invariant
            len == text@.len(),
            ex == keyword_views(extra@),
            pos < len ==> line <= pos + 1,
            entries@.len() == lines@.len(),
            rows_of(text@, 0, 1, FIRST_OFFSET as int, ex) == prepend_rows(
                rows_read(entries@, lines@),
                rows_of(text@, pos as int, line as int, auto as int, ex),
            ),
        decreases len - pos,
    {
        let end = find_byte(text, NEWLINE, pos);
        let raw = slice_subrange(text, pos, end);
        let trimmed = trim_slice(raw);
        let ghost before = rows_read(entries@, lines@);
        let ghost here = rows_of(text@, pos as int, line as int, auto as int, ex);
        proof {
            reveal(rows_of);
        }
        if trimmed.len() == 0 || trimmed[0] == HASH {
            assert(is_skipped(raw@));
            assert(here == rows_of(text@, end + 1, line + 1, auto as int, ex));
        } else {
            assert(!is_skipped(raw@));
            match read_row(raw, auto, extra) {
                Err(reason) => {
                    return Err(Error::MalformedRow { line, reason });
                },
                Ok(entry) => {
                    let ghost e = entry@;
                    auto = next_auto_offset(entry.offset, entry.size);
                    entries.push(entry);
                    lines.push(line);
                    proof {
                        let rest = rows_of(text@, end + 1, line + 1, auto as int, ex);
                        assert(here == prepend_rows(seq![Row { entry: e, line: line as int }], rest));
                        assert(rows_read(entries@, lines@) =~= before.push(
                            Row { entry: e, line: line as int },
                        ));
                        match rest {
                            Ok(rows) => {
                                assert(before + (seq![Row { entry: e, line: line as int }] + rows)
                                    =~= before.push(Row { entry: e, line: line as int }) + rows);
                            },
                            Err(x) => {},
                        }
                    }
                },
            }
        }
        if end < len {
            pos = end + 1;
            if pos < len {
                line += 1;
            }
        } else {
            pos = len;
        }
    }
    let ghost rows = rows_read(entries@, lines@);
    proof {
        lemma_rows_of_end(text@, pos as int, line as int, auto as int, ex);
    }
    assert(rows + Seq::<Row>::empty() =~= rows);
    assert(entries_of(rows) =~= views(entries@));
    proof {
        lemma_no_defect_iff_ok(views(entries@), flash);
    }
    match PartitionTable::new(entries, flash) {
        Ok(table) => Ok(table),
        Err(d) => Err(Error::MalformedRow { line: lines[d.index], reason: d.reason }),
    }
}

/// Reads a table from its text form, with the built-in subtype keywords
/// alone.
pub fn parse_text(text: &[u8], flash: u32) -> (r: Result<PartitionTable, Error>)
    ensures
        match parse_text_spec(text@, flash, Seq::empty()) {
            Ok(es) => r is Ok && r->Ok_0@ == es,
            Err(e) => r is Err && r->Err_0 == e,
        },
        r is Ok ==> table_ok(r->Ok_0@, flash),
{
    let extra: Vec<SubtypeKeyword> = Vec::new();
    assert(keyword_views(extra@) =~= Seq::<KeywordView>::empty());
    parse_text_with(text, flash, &extra)
}

/// Appends the row of `entry`, without the newline.
fn push_row(out: &mut Vec<u8>, entry: &PartitionEntry)
    ensures
        final(out)@ == old(out)@ + row_text(entry@),
{
    push_all(out, entry.name.as_slice());
    out.push(COMMA);
    push_type(out, entry.ptype);
    out.push(COMMA);
    push_subtype(out, entry.ptype, entry.subtype);
    out.push(COMMA);
    push_hex(out, entry.offset);
    out.push(COMMA);
    push_hex(out, entry.size);
    out.push(COMMA);
    push_hex(out, entry.flags);
    assert(out@ =~= old(out)@ + row_text(entry@));
}

/// Writes a table as text: one row for each entry, in ascending order of
/// the offsets, with offsets, sizes and flags in hexadecimal behind `0x`.
pub fn serialize_text(table: &PartitionTable) -> (out: Vec<u8>)
    ensures
        out@ == serialize_text_spec(table@),
        parse_text_spec(out@, u32::MAX, Seq::empty()) == Ok::<Seq<EntryView>, Error>(table@),
{
    let entries = table.entries();
    let ghost es = table@;
    let mut out: Vec<u8> = Vec::new();
    let mut i: usize = 0;
    assert(es.take(0) =~= Seq::<EntryView>::empty());
    while i < entries.len()
        invariant
            i <= entries@.len(),
            es == views(entries@),
            out@ == serialize_text_spec(es.take(i as int)),
        decreases entries@.len() - i,
    {
        assert(es[i as int] == entries@[i as int]@);
        push_row(&mut out, &entries[i]);
        out.push(NEWLINE);
        proof {
            let next = es.take(i + 1);
            assert(next.drop_last() =~= es.take(i as int));
            assert(next.last() == es[i as int]);
        }
        i += 1;
    }
    assert(es.take(es.len() as int) =~= es);
    proof {
        lemma_text_round_trip(es, u32::MAX, Seq::empty());
    }
    out
}

} // verus!
