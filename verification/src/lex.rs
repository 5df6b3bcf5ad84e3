//! The small parts that the text form of a partition table is made of:
//! finding a separator, trimming blanks, reading and writing numbers.

use vstd::prelude::*;
use vstd::slice::slice_subrange;

verus! {

/// How many bytes of `s` from `from` on stand before the first `b`, or
/// before the end where there is none.
pub open spec fn run(s: Seq<u8>, b: u8, from: int) -> nat
    decreases s.len() - from,
{
    if from < 0 || from >= s.len() || s[from] == b {
        0
    } else {
        1 + run(s, b, from + 1)
    }
}

/// The index of the first `b` in `s` from `from` on, or the length of `s`
/// where there is none.
pub open spec fn find(s: Seq<u8>, b: u8, from: int) -> int {
    from + run(s, b, from)
}

/// `find` gives `at` where no `b` stands before `at` and one stands there,
/// or `s` ends there.
pub proof fn lemma_find(s: Seq<u8>, b: u8, from: int, at: int)
    requires
        0 <= from <= at <= s.len(),
        forall|i: int| from <= i < at ==> s[i] != b,
        at == s.len() || s[at] == b,
    ensures
        find(s, b, from) == at,
    decreases at - from,
{
    if from < at {
        lemma_find(s, b, from + 1, at);
    }
}

/// What `find` gives lies between `from` and the end, holds `b` unless it
/// is the end, and no `b` stands before it.
pub proof fn lemma_find_is_first(s: Seq<u8>, b: u8, from: int)
    requires
        0 <= from <= s.len(),
    ensures
        from <= find(s, b, from) <= s.len(),
        find(s, b, from) < s.len() ==> s[find(s, b, from)] == b,
        forall|i: int| from <= i < find(s, b, from) ==> s[i] != b,
    decreases s.len() - from,
{
    if from < s.len() && s[from] != b {
        lemma_find_is_first(s, b, from + 1);
    }
}

/// Finds the first `b` in `s` from `from` on.
pub fn find_byte(s: &[u8], b: u8, from: usize) -> (at: usize)
    requires
        from <= s@.len(),
    ensures
        at == find(s@, b, from as int),
        from <= at <= s@.len(),
        at < s@.len() ==> s@[at as int] == b,
{
    let mut i = from;
    proof {
        lemma_find_is_first(s@, b, from as int);
    }
    while i < s.len()
        invariant
            from <= i <= s@.len(),
            find(s@, b, from as int) == find(s@, b, i as int),
        decreases s@.len() - i,
    {
        if s[i] == b {
            return i;
        }
        i += 1;
    }
    i
}

/// Blank, tab and carriage return are trimmed away.
pub open spec fn is_space(b: u8) -> bool {
    b == 0x20 || b == 0x09 || b == 0x0d
}

/// The index of the first byte from `from` on that is no space.
pub open spec fn trim_start(s: Seq<u8>, from: int) -> int
    decreases s.len() - from,
{
    if from < 0 || from >= s.len() {
        s.len() as int
    } else if !is_space(s[from]) {
        from
    } else {
        trim_start(s, from + 1)
    }
}

/// The index behind the last byte before `to` that is no space.
pub open spec fn trim_end(s: Seq<u8>, to: int) -> int
    decreases to,
{
    if to <= 0 || to > s.len() {
        0
    } else if !is_space(s[to - 1]) {
        to
    } else {
        trim_end(s, to - 1)
    }
}

/// `s` without the spaces at its start and at its end.
pub open spec fn trim(s: Seq<u8>) -> Seq<u8> {
    let l = trim_start(s, 0);
    let r = trim_end(s, s.len() as int);
    if r <= l {
        Seq::empty()
    } else {
        s.subrange(l, r)
    }
}

/// Trimming leaves alone what neither starts nor ends with a space.
pub proof fn lemma_trim_tight(s: Seq<u8>)
    requires
        s.len() > 0 ==> !is_space(s[0]) && !is_space(s[s.len() - 1]),
    ensures
        trim(s) == s,
{
    if s.len() > 0 {
        assert(s.subrange(0, s.len() as int) =~= s);
    } else {
        assert(trim(s) =~= s);
    }
}

/// Cuts the spaces off both ends of `s`.
pub fn trim_slice(s: &[u8]) -> (r: &[u8])
    ensures
        r@ == trim(s@),
{
    let len = s.len();
    let mut l: usize = 0;
    while l < len && (s[l] == 0x20 || s[l] == 0x09 || s[l] == 0x0d)
        invariant
            l <= len == s@.len(),
            trim_start(s@, 0) == trim_start(s@, l as int),
        decreases len - l,
    {
        l += 1;
    }
    let mut r: usize = len;
    while r > 0 && (s[r - 1] == 0x20 || s[r - 1] == 0x09 || s[r - 1] == 0x0d)
        invariant
            r <= len == s@.len(),
            trim_end(s@, len as int) == trim_end(s@, r as int),
        decreases r,
    {
        r -= 1;
    }
    if r <= l {
        let out = slice_subrange(s, 0, 0);
        assert(out@ =~= Seq::<u8>::empty());
        out
    } else {
        slice_subrange(s, l, r)
    }
}

/// The value of a digit in base ten or sixteen.
pub open spec fn digit_value(b: u8, base: int) -> Option<int> {
    if 0x30 <= b <= 0x39 {
        Some(b - 0x30)
    } else if base == 16 && 0x61 <= b <= 0x66 {
        Some(b - 0x61 + 10)
    } else if base == 16 && 0x41 <= b <= 0x46 {
        Some(b - 0x41 + 10)
    } else {
        None
    }
}

/// Whether `s` is made of digits of the base.
pub open spec fn all_digits(s: Seq<u8>, base: int) -> bool {
    forall|i: int| 0 <= i < s.len() ==> digit_value(#[trigger] s[i], base) is Some
}

/// The number that the digits of `s` spell, highest first.
pub open spec fn digits_value(s: Seq<u8>, base: int) -> int
    decreases s.len(),
{
    if s.len() == 0 {
        0
    } else {
        digits_value(s.drop_last(), base) * base + match digit_value(s.last(), base) {
            Some(d) => d,
            None => 0,
        }
    }
}

/// The number does not shrink as digits are added.
pub proof fn lemma_digits_grow(s: Seq<u8>, base: int, i: int)
    requires
        base == 10 || base == 16,
        0 <= i <= s.len(),
    ensures
        0 <= digits_value(s.take(i), base) <= digits_value(s, base),
    decreases s.len() - i,
{
    if i == s.len() {
        assert(s.take(i) =~= s);
        lemma_digits_nonnegative(s, base);
    } else {
        lemma_digits_grow(s.drop_last(), base, i);
        assert(s.drop_last().take(i) =~= s.take(i));
        let v = digits_value(s.drop_last(), base);
        assert(v * base >= v) by (nonlinear_arith)
            requires
                v >= 0,
                base >= 1,
        ;
    }
}

proof fn lemma_digits_nonnegative(s: Seq<u8>, base: int)
    requires
        base == 10 || base == 16,
    ensures
        0 <= digits_value(s, base),
    decreases s.len(),
{
    if s.len() > 0 {
        lemma_digits_nonnegative(s.drop_last(), base);
        let v = digits_value(s.drop_last(), base);
        assert(v * base >= 0) by (nonlinear_arith)
            requires
                v >= 0,
                base >= 1,
        ;
    }
}

/// What a run of digits spells, where it is one and the number fits in 32
/// bits.
pub open spec fn number_of_digits(s: Seq<u8>, base: int) -> Option<u32> {
    if s.len() > 0 && all_digits(s, base) && digits_value(s, base) <= u32::MAX {
        Some(digits_value(s, base) as u32)
    } else {
        None
    }
}

/// Reads a run of digits of base ten or sixteen.
pub(crate) fn read_digits(s: &[u8], base: u32) -> (r: Option<u32>)
    requires
        base == 10 || base == 16,
    ensures
        r == number_of_digits(s@, base as int),
{
    if s.len() == 0 {
        return None;
    }
    let mut acc: u64 = 0;
    let mut i: usize = 0;
    assert(s@.take(0) =~= Seq::<u8>::empty());
    while i < s.len()
        invariant
            base == 10 || base == 16,
            i <= s@.len(),
            all_digits(s@.take(i as int), base as int),
            acc == digits_value(s@.take(i as int), base as int),
            acc <= u32::MAX,
        decreases s@.len() - i,
    {
        let b = s[i];
        let d: u64 = if 0x30 <= b && b <= 0x39 {
            (b - 0x30) as u64
        } else if base == 16 && 0x61 <= b && b <= 0x66 {
            (b - 0x61 + 10) as u64
        } else if base == 16 && 0x41 <= b && b <= 0x46 {
            (b - 0x41 + 10) as u64
        } else {
            assert(digit_value(s@[i as int], base as int) is None);
            return None;
        };
        proof {
            assert(s@.take(i + 1).drop_last() =~= s@.take(i as int));
            assert(s@.take(i + 1).last() == s@[i as int]);
            assert forall|k: int| 0 <= k < i + 1 implies digit_value(
                #[trigger] s@.take(i + 1)[k],
                base as int,
            ) is Some by {
                if k < i {
                    assert(s@.take(i as int)[k] == s@[k]);
                }
            }
            assert(acc * base <= 0xFFFF_FFFF * 16) by (nonlinear_arith)
                requires
                    acc <= 0xFFFF_FFFF,
                    base <= 16,
            ;
        }
        let next = acc * (base as u64) + d;
        if next > 0xFFFF_FFFF {
            proof {
                if all_digits(s@, base as int) {
                    lemma_digits_grow(s@, base as int, i + 1);
                }
            }
            return None;
        }
        acc = next;
        i += 1;
    }
    assert(s@.take(s@.len() as int) =~= s@);
    Some(acc as u32)
}

/// The number that `s` spells: hexadecimal behind `0x`, else decimal, which
/// may end in `K` for times 1024 or in `M` for times 1048576. Nothing where
/// `s` is no such number or the number does not fit in 32 bits.
pub open spec fn number_of(s: Seq<u8>) -> Option<u32> {
    if s.len() > 2 && s[0] == 0x30 && (s[1] == 0x78 || s[1] == 0x58) {
        number_of_digits(s.skip(2), 16)
    } else if s.len() > 0 && (s.last() == 0x4b || s.last() == 0x6b) {
        scaled(number_of_digits(s.drop_last(), 10), 1024)
    } else if s.len() > 0 && (s.last() == 0x4d || s.last() == 0x6d) {
        scaled(number_of_digits(s.drop_last(), 10), 1048576)
    } else {
        number_of_digits(s, 10)
    }
}

/// `n` times `unit`, where that fits in 32 bits.
pub open spec fn scaled(n: Option<u32>, unit: int) -> Option<u32> {
    match n {
        Some(v) => if v * unit <= u32::MAX {
            Some((v * unit) as u32)
        } else {
            None
        },
        None => None,
    }
}

/// `n` times `unit`, where that fits in 32 bits.
fn scale(n: Option<u32>, unit: u64) -> (r: Option<u32>)
    requires
        unit <= 1048576,
    ensures
        r == scaled(n, unit as int),
{
    match n {
        Some(v) => {
            assert(v * unit <= 0xFFFF_FFFF * 1048576) by (nonlinear_arith)
                requires
                    v <= 0xFFFF_FFFF,
                    unit <= 1048576,
            ;
            let product = (v as u64) * unit;
            if product <= 0xFFFF_FFFF {
                Some(product as u32)
            } else {
                None
            }
        },
        None => None,
    }
}

/// Reads a number in one of the three notations.
pub fn read_number(s: &[u8]) -> (r: Option<u32>)
    ensures
        r == number_of(s@),
{
    let len = s.len();
    if len > 2 && s[0] == 0x30 && (s[1] == 0x78 || s[1] == 0x58) {
        let body = slice_subrange(s, 2, len);
        assert(body@ =~= s@.skip(2));
        read_digits(body, 16)
    } else if len > 0 && (s[len - 1] == 0x4b || s[len - 1] == 0x6b) {
        let body = slice_subrange(s, 0, len - 1);
        assert(body@ =~= s@.drop_last());
        scale(read_digits(body, 10), 1024)
    } else if len > 0 && (s[len - 1] == 0x4d || s[len - 1] == 0x6d) {
        let body = slice_subrange(s, 0, len - 1);
        assert(body@ =~= s@.drop_last());
        scale(read_digits(body, 10), 1048576)
    } else {
        read_digits(s, 10)
    }
}

/// The digit, in lower case, that stands for a value below sixteen.
pub open spec fn hex_char(v: int) -> u8 {
    if v < 10 {
        (0x30 + v) as u8
    } else {
        (0x61 + v - 10) as u8
    }
}

/// The hexadecimal digits of `x`, highest first, without leading zeros.
pub open spec fn hex_digits(x: int) -> Seq<u8>
    decreases x,
{
    if x < 16 {
        seq![hex_char(x)]
    } else {
        hex_digits(x / 16).push(hex_char(x % 16))
    }
}

/// `x` in hexadecimal behind `0x`.
pub open spec fn hex_text(x: u32) -> Seq<u8> {
    seq![0x30u8, 0x78u8] + hex_digits(x as int)
}

/// The digits of `x` are digits, and spell `x`.
pub proof fn lemma_hex_digits(x: int)
    requires
        0 <= x,
    ensures
        hex_digits(x).len() >= 1,
        all_digits(hex_digits(x), 16),
        digits_value(hex_digits(x), 16) == x,
    decreases x,
{
    if x < 16 {
        assert(hex_digits(x).drop_last() =~= Seq::<u8>::empty());
        assert(digits_value(Seq::<u8>::empty(), 16) == 0);
    } else {
        lemma_hex_digits(x / 16);
        assert(hex_digits(x).drop_last() =~= hex_digits(x / 16));
    }
}

/// What was written in hexadecimal is read back as it was.
pub proof fn lemma_number_of_hex_text(x: u32)
    ensures
        number_of(hex_text(x)) == Some(x),
        hex_text(x).len() >= 3,
        hex_text(x)[0] == 0x30,
        forall|i: int|
            0 <= i < hex_text(x).len() ==> word_byte(#[trigger] hex_text(x)[i]),
{
    lemma_hex_digits(x as int);
    assert(hex_text(x).skip(2) =~= hex_digits(x as int));
    assert forall|i: int| 0 <= i < hex_text(x).len() implies word_byte(
        #[trigger] hex_text(x)[i],
    ) by {
        if i >= 2 {
            assert(digit_value(hex_digits(x as int)[i - 2], 16) is Some);
        }
    }
}

/// A letter, a digit or an underscore: what keywords and numbers are made
/// of. Such a byte is no space and no separator.
pub open spec fn word_byte(b: u8) -> bool {
    (0x30 <= b <= 0x39) || (0x41 <= b <= 0x5a) || (0x61 <= b <= 0x7a) || b == 0x5f
}

/// Appends the hexadecimal digits of `x`.
fn push_hex_digits(out: &mut Vec<u8>, x: u32)
    ensures
        final(out)@ == old(out)@ + hex_digits(x as int),
    decreases x,
{
    if x >= 16 {
        push_hex_digits(out, x / 16);
    }
    let v = (x % 16) as u8;
    let c: u8 = if v < 10 {
        0x30 + v
    } else {
        0x61 + v - 10
    };
    out.push(c);
    assert(out@ =~= old(out)@ + hex_digits(x as int));
}

/// Appends `x` in hexadecimal behind `0x`.
pub fn push_hex(out: &mut Vec<u8>, x: u32)
    ensures
        final(out)@ == old(out)@ + hex_text(x),
{
    out.push(0x30);
    out.push(0x78);
    push_hex_digits(out, x);
    assert(out@ =~= old(out)@ + hex_text(x));
}

} // verus!
