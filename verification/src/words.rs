//! The words of the text form of a partition table: types, subtypes and
//! flags, read and written.

use vstd::prelude::*;
use vstd::slice::slice_subrange;
use crate::bytes::{push_all, slices_equal};
use crate::lex::{hex_text, lemma_number_of_hex_text, number_of, push_hex, read_number, word_byte};
use crate::partition::PartitionType;

verus! {

/// The bytes of `app`.
pub open spec fn word_app() -> Seq<u8> {
    seq![0x61u8, 0x70u8, 0x70u8]
}

/// The bytes of `data`.
pub open spec fn word_data() -> Seq<u8> {
    seq![0x64u8, 0x61u8, 0x74u8, 0x61u8]
}

/// The bytes of `factory`.
pub open spec fn word_factory() -> Seq<u8> {
    seq![0x66u8, 0x61u8, 0x63u8, 0x74u8, 0x6fu8, 0x72u8, 0x79u8]
}

/// The bytes of `ota_`.
pub open spec fn word_ota() -> Seq<u8> {
    seq![0x6fu8, 0x74u8, 0x61u8, 0x5fu8]
}

/// The bytes of `nvs`.
pub open spec fn word_nvs() -> Seq<u8> {
    seq![0x6eu8, 0x76u8, 0x73u8]
}

/// The bytes of `phy`.
pub open spec fn word_phy() -> Seq<u8> {
    seq![0x70u8, 0x68u8, 0x79u8]
}

/// The bytes of `spiffs`.
pub open spec fn word_spiffs() -> Seq<u8> {
    seq![0x73u8, 0x70u8, 0x69u8, 0x66u8, 0x66u8, 0x73u8]
}

/// The bytes of `readonly`.
pub open spec fn word_readonly() -> Seq<u8> {
    seq![0x72u8, 0x65u8, 0x61u8, 0x64u8, 0x6fu8, 0x6eu8, 0x6cu8, 0x79u8]
}

/// The type that `s` names: `app`, `data`, or a number up to 254, of which 0
/// and 1 are the two named types again.
pub open spec fn type_of(s: Seq<u8>) -> Option<PartitionType> {
    if s == word_app() {
        Some(PartitionType::App)
    } else if s == word_data() {
        Some(PartitionType::Data)
    } else {
        match number_of(s) {
            Some(n) => if n <= 254 {
                Some(PartitionType::spec_from_code(n as u8))
            } else {
                None
            },
            None => None,
        }
    }
}

/// How a type is written: the two named types by their names, a custom one
/// as a number.
pub open spec fn type_text(t: PartitionType) -> Seq<u8> {
    match t {
        PartitionType::App => word_app(),
        PartitionType::Data => word_data(),
        PartitionType::Custom(n) => hex_text(n as u32),
    }
}

/// The number of the OTA slot that `s` names, from `ota_0` to `ota_15`.
pub open spec fn ota_index(s: Seq<u8>) -> Option<u8> {
    if s.len() == 5 && s.take(4) == word_ota() && 0x30 <= s[4] <= 0x39 {
        Some((s[4] - 0x30) as u8)
    } else if s.len() == 6 && s.take(4) == word_ota() && s[4] == 0x31 && 0x30 <= s[5] <= 0x35 {
        Some((10 + s[5] - 0x30) as u8)
    } else {
        None
    }
}

/// How the OTA slot `n`, below sixteen, is written.
pub open spec fn ota_text(n: u8) -> Seq<u8> {
    if n < 10 {
        word_ota().push((0x30 + n) as u8)
    } else {
        word_ota().push(0x31u8).push((0x30 + n - 10) as u8)
    }
}

/// The subtype that a keyword of the type `t` names.
pub open spec fn named_subtype(t: PartitionType, s: Seq<u8>) -> Option<u8> {
    match t {
        PartitionType::App => if s == word_factory() {
            Some(0x00u8)
        } else {
            match ota_index(s) {
                Some(n) => Some((0x10 + n) as u8),
                None => None,
            }
        },
        PartitionType::Data => if s == word_phy() {
            Some(0x01u8)
        } else if s == word_nvs() {
            Some(0x02u8)
        } else if s == word_spiffs() {
            Some(0x82u8)
        } else {
            None
        },
        PartitionType::Custom(_) => None,
    }
}

/// A subtype keyword that the caller adds to the built-in ones.
#[derive(Debug, PartialEq, Eq)]
pub struct SubtypeKeyword {
    pub name: Vec<u8>,
    /// The type under which the keyword is known.
    pub ptype: PartitionType,
    pub value: u8,
}

/// A subtype keyword as a mathematical value.
pub struct KeywordView {
    pub name: Seq<u8>,
    pub ptype: PartitionType,
    pub value: u8,
}

impl View for SubtypeKeyword {
    type V = KeywordView;

    open spec fn view(&self) -> KeywordView {
        KeywordView { name: self.name@, ptype: self.ptype, value: self.value }
    }
}

/// The views of a run of keywords.
pub open spec fn keyword_views(keywords: Seq<SubtypeKeyword>) -> Seq<KeywordView> {
    Seq::new(keywords.len(), |i: int| keywords[i]@)
}

/// The value of the first keyword from `from` on that has the type `t` and
/// the name `s`.
pub open spec fn listed_subtype(extra: Seq<KeywordView>, t: PartitionType, s: Seq<u8>, from: int) -> Option<u8>
    decreases extra.len() - from,
{
    if from < 0 || from >= extra.len() {
        None
    } else if extra[from].ptype == t && extra[from].name == s {
        Some(extra[from].value)
    } else {
        listed_subtype(extra, t, s, from + 1)
    }
}

/// The subtype that `s` names under the type `t`: a built-in keyword of the
/// type, else a number up to 255, else a keyword of the caller's list.
pub open spec fn subtype_of(t: PartitionType, s: Seq<u8>, extra: Seq<KeywordView>) -> Option<u8> {
    match named_subtype(t, s) {
        Some(v) => Some(v),
        None => match number_of(s) {
            Some(n) => if n <= 255 {
                Some(n as u8)
            } else {
                None
            },
            None => listed_subtype(extra, t, s, 0),
        },
    }
}

/// How a subtype is written: by its built-in keyword where the type has one
/// for it, else as a number.
pub open spec fn subtype_text(t: PartitionType, v: u8) -> Seq<u8> {
    match t {
        PartitionType::App => if v == 0x00 {
            word_factory()
        } else if 0x10 <= v <= 0x1f {
            ota_text((v - 0x10) as u8)
        } else {
            hex_text(v as u32)
        },
        PartitionType::Data => if v == 0x01 {
            word_phy()
        } else if v == 0x02 {
            word_nvs()
        } else if v == 0x82 {
            word_spiffs()
        } else {
            hex_text(v as u32)
        },
        PartitionType::Custom(_) => hex_text(v as u32),
    }
}

/// The flags that `s` spells: none where it is empty, bit 0 for `readonly`,
/// else a number.
pub open spec fn flags_of(s: Seq<u8>) -> Option<u32> {
    if s.len() == 0 {
        Some(0u32)
    } else if s == word_readonly() {
        Some(1u32)
    } else {
        number_of(s)
    }
}

/// A written word: not empty, made of letters, digits and underscores.
pub open spec fn is_word(s: Seq<u8>) -> bool {
    s.len() > 0 && forall|i: int| 0 <= i < s.len() ==> word_byte(#[trigger] s[i])
}

/// A type that may stand in a table is read back as it was written.
pub proof fn lemma_type_round_trip(t: PartitionType)
    requires
        t.ok(),
    ensures
        type_of(type_text(t)) == Some(t),
        is_word(type_text(t)),
{
    match t {
        PartitionType::App => {},
        PartitionType::Data => {
            assert(word_data().len() != word_app().len());
        },
        PartitionType::Custom(n) => {
            lemma_number_of_hex_text(n as u32);
            let s = hex_text(n as u32);
            assert(s[0] == 0x30);
            assert(word_app()[0] != 0x30);
            assert(word_data()[0] != 0x30);
        },
    }
}

/// A subtype is read back as it was written, whatever the caller's list
/// holds.
pub proof fn lemma_subtype_round_trip(t: PartitionType, v: u8, extra: Seq<KeywordView>)
    ensures
        subtype_of(t, subtype_text(t, v), extra) == Some(v),
        is_word(subtype_text(t, v)),
{
    let s = subtype_text(t, v);
    lemma_number_of_hex_text(v as u32);
    if s == hex_text(v as u32) {
        assert(s[0] == 0x30);
        assert(word_factory()[0] != 0x30);
        assert(word_phy()[0] != 0x30);
        assert(word_nvs()[0] != 0x30);
        assert(word_spiffs()[0] != 0x30);
        if s.len() >= 4 {
            assert(s.take(4)[0] == s[0]);
            assert(word_ota()[0] != 0x30);
        }
        assert(named_subtype(t, s) is None);
    } else {
        match t {
            PartitionType::App => {
                if v == 0 {
                } else {
                    let n = (v - 0x10) as u8;
                    assert(s == ota_text(n));
                    assert(s.take(4) =~= word_ota());
                    assert(s.len() != word_factory().len());
                    assert(ota_index(s) == Some(n));
                }
            },
            PartitionType::Data => {
                if v == 0x01 {
                } else if v == 0x02 {
                    assert(word_nvs()[0] != word_phy()[0]);
                } else {
                    assert(word_spiffs().len() != word_phy().len());
                    assert(word_spiffs().len() != word_nvs().len());
                }
            },
            PartitionType::Custom(_) => {},
        }
    }
}

/// Flags are read back as they were written.
pub proof fn lemma_flags_round_trip(v: u32)
    ensures
        flags_of(hex_text(v)) == Some(v),
        is_word(hex_text(v)),
{
    lemma_number_of_hex_text(v);
    assert(hex_text(v)[0] == 0x30);
    assert(word_readonly()[0] != 0x30);
}

/// Reads a type.
pub fn read_type(s: &[u8]) -> (r: Option<PartitionType>)
    ensures
        r == type_of(s@),
{
    let app: [u8; 3] = [0x61, 0x70, 0x70];
    let data: [u8; 4] = [0x64, 0x61, 0x74, 0x61];
    assert(app@ =~= word_app());
    assert(data@ =~= word_data());
    if slices_equal(s, app.as_slice()) {
        Some(PartitionType::App)
    } else if slices_equal(s, data.as_slice()) {
        Some(PartitionType::Data)
    } else {
        match read_number(s) {
            Some(n) => if n <= 254 {
                Some(PartitionType::from_code(n as u8))
            } else {
                None
            },
            None => None,
        }
    }
}

/// Writes a type.
pub fn push_type(out: &mut Vec<u8>, t: PartitionType)
    ensures
        final(out)@ == old(out)@ + type_text(t),
{
    match t {
        PartitionType::App => {
            let app: [u8; 3] = [0x61, 0x70, 0x70];
            assert(app@ =~= word_app());
            push_all(out, app.as_slice());
        },
        PartitionType::Data => {
            let data: [u8; 4] = [0x64, 0x61, 0x74, 0x61];
            assert(data@ =~= word_data());
            push_all(out, data.as_slice());
        },
        PartitionType::Custom(n) => {
            push_hex(out, n as u32);
        },
    }
}

/// Reads the number of an OTA slot.
fn read_ota_index(s: &[u8]) -> (r: Option<u8>)
    ensures
        r == ota_index(s@),
{
    let ota: [u8; 4] = [0x6f, 0x74, 0x61, 0x5f];
    assert(ota@ =~= word_ota());
    let len = s.len();
    if len != 5 && len != 6 {
        return None;
    }
    let head = slice_subrange(s, 0, 4);
    assert(head@ =~= s@.take(4));
    if !slices_equal(head, ota.as_slice()) {
        return None;
    }
    if len == 5 {
        if 0x30 <= s[4] && s[4] <= 0x39 {
            Some(s[4] - 0x30)
        } else {
            None
        }
    } else {
        if s[4] == 0x31 && 0x30 <= s[5] && s[5] <= 0x35 {
            Some(10 + s[5] - 0x30)
        } else {
            None
        }
    }
}

/// Reads a built-in subtype keyword of the type `t`.
fn read_named_subtype(t: PartitionType, s: &[u8]) -> (r: Option<u8>)
    ensures
        r == named_subtype(t, s@),
{
    match t {
        PartitionType::App => {
            let factory: [u8; 7] = [0x66, 0x61, 0x63, 0x74, 0x6f, 0x72, 0x79];
            assert(factory@ =~= word_factory());
            if slices_equal(s, factory.as_slice()) {
                Some(0x00)
            } else {
                match read_ota_index(s) {
                    Some(n) => Some(0x10 + n),
                    None => None,
                }
            }
        },
        PartitionType::Data => {
            let phy: [u8; 3] = [0x70, 0x68, 0x79];
            let nvs: [u8; 3] = [0x6e, 0x76, 0x73];
            let spiffs: [u8; 6] = [0x73, 0x70, 0x69, 0x66, 0x66, 0x73];
            assert(phy@ =~= word_phy());
            assert(nvs@ =~= word_nvs());
            assert(spiffs@ =~= word_spiffs());
            if slices_equal(s, phy.as_slice()) {
                Some(0x01)
            } else if slices_equal(s, nvs.as_slice()) {
                Some(0x02)
            } else if slices_equal(s, spiffs.as_slice()) {
                Some(0x82)
            } else {
                None
            }
        },
        PartitionType::Custom(_) => None,
    }
}

/// Looks a keyword up in the caller's list.
fn read_listed_subtype(extra: &Vec<SubtypeKeyword>, t: PartitionType, s: &[u8]) -> (r: Option<u8>)
    ensures
        r == listed_subtype(keyword_views(extra@), t, s@, 0),
{
    let ghost list = keyword_views(extra@);
    let mut i: usize = 0;
    while i < extra.len()
        invariant
            i <= extra@.len(),
            list == keyword_views(extra@),
            listed_subtype(list, t, s@, 0) == listed_subtype(list, t, s@, i as int),
        decreases extra@.len() - i,
    {
        let k = &extra[i];
        assert(list[i as int] == k@);
        if k.ptype == t && slices_equal(k.name.as_slice(), s) {
            return Some(k.value);
        }
        i += 1;
    }
    None
}

/// Reads a subtype of the type `t`.
pub fn read_subtype(t: PartitionType, s: &[u8], extra: &Vec<SubtypeKeyword>) -> (r: Option<u8>)
    ensures
        r == subtype_of(t, s@, keyword_views(extra@)),
{
    match read_named_subtype(t, s) {
        Some(v) => Some(v),
        None => match read_number(s) {
            Some(n) => if n <= 255 {
                Some(n as u8)
            } else {
                None
            },
            None => read_listed_subtype(extra, t, s),
        },
    }
}

/// Writes the OTA slot `n`.
fn push_ota(out: &mut Vec<u8>, n: u8)
    requires
        n < 16,
    ensures
        final(out)@ == old(out)@ + ota_text(n),
{
    let ota: [u8; 4] = [0x6f, 0x74, 0x61, 0x5f];
    assert(ota@ =~= word_ota());
    push_all(out, ota.as_slice());
    if n < 10 {
        out.push(0x30 + n);
    } else {
        out.push(0x31);
        out.push(0x30 + n - 10);
    }
    assert(out@ =~= old(out)@ + ota_text(n));
}

/// Writes a subtype of the type `t`.
pub fn push_subtype(out: &mut Vec<u8>, t: PartitionType, v: u8)
    ensures
        final(out)@ == old(out)@ + subtype_text(t, v),
{
    match t {
        PartitionType::App => {
            if v == 0x00 {
                let factory: [u8; 7] = [0x66, 0x61, 0x63, 0x74, 0x6f, 0x72, 0x79];
                assert(factory@ =~= word_factory());
                push_all(out, factory.as_slice());
            } else if 0x10 <= v && v <= 0x1f {
                push_ota(out, v - 0x10);
            } else {
                push_hex(out, v as u32);
            }
        },
        PartitionType::Data => {
            if v == 0x01 {
                let phy: [u8; 3] = [0x70, 0x68, 0x79];
                assert(phy@ =~= word_phy());
                push_all(out, phy.as_slice());
            } else if v == 0x02 {
                let nvs: [u8; 3] = [0x6e, 0x76, 0x73];
                assert(nvs@ =~= word_nvs());
                push_all(out, nvs.as_slice());
            } else if v == 0x82 {
                let spiffs: [u8; 6] = [0x73, 0x70, 0x69, 0x66, 0x66, 0x73];
                assert(spiffs@ =~= word_spiffs());
                push_all(out, spiffs.as_slice());
            } else {
                push_hex(out, v as u32);
            }
        },
        PartitionType::Custom(_) => {
            push_hex(out, v as u32);
        },
    }
}

/// Reads flags.
pub fn read_flags(s: &[u8]) -> (r: Option<u32>)
    ensures
        r == flags_of(s@),
{
    let readonly: [u8; 8] = [0x72, 0x65, 0x61, 0x64, 0x6f, 0x6e, 0x6c, 0x79];
    assert(readonly@ =~= word_readonly());
    if s.len() == 0 {
        Some(0)
    } else if slices_equal(s, readonly.as_slice()) {
        Some(1)
    } else {
        read_number(s)
    }
}

} // verus!
