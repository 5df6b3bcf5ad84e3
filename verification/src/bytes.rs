//! Little-endian words and 4096-byte sectors.

use vstd::prelude::*;

verus! {

/// The size of a flash sector; partitions and the partition table are made
/// of whole sectors.
pub const SECTOR: u32 = 4096;

/// The four bytes of `x`, lowest first.
pub open spec fn le32(x: u32) -> Seq<u8> {
    seq![
        (x % 256) as u8,
        (x / 256 % 256) as u8,
        (x / 65536 % 256) as u8,
        (x / 16777216) as u8,
    ]
}

/// The word that four bytes spell, lowest first.
pub open spec fn le32_value(b: Seq<u8>) -> int
    recommends
        b.len() == 4,
{
    b[0] + 256 * b[1] + 65536 * b[2] + 16777216 * b[3]
}

/// Reading back what `le32` wrote gives the word again.
pub proof fn lemma_le32_value(x: u32)
    ensures
        le32(x).len() == 4,
        le32_value(le32(x)) == x,
{
}

/// Appends the four bytes of `x`, lowest first.
pub fn push_le32(out: &mut Vec<u8>, x: u32)
    ensures
        final(out)@ == old(out)@ + le32(x),
{
    out.push((x % 256) as u8);
    out.push((x / 256 % 256) as u8);
    out.push((x / 65536 % 256) as u8);
    out.push((x / 16777216) as u8);
    assert(out@ =~= old(out)@ + le32(x));
}

/// Reads the word whose lowest byte is at `at`.
pub fn read_le32(data: &[u8], at: usize) -> (x: u32)
    requires
        at + 4 <= data@.len(),
    ensures
        x == le32_value(data@.subrange(at as int, at + 4)),
{
    let b0: u32 = data[at] as u32;
    let b1: u32 = data[at + 1] as u32;
    let b2: u32 = data[at + 2] as u32;
    let b3: u32 = data[at + 3] as u32;
    b0 + 256 * b1 + 65536 * b2 + 16777216 * b3
}

/// Whether two runs of bytes are the same.
pub fn slices_equal(a: &[u8], b: &[u8]) -> (r: bool)
    ensures
        r == (a@ == b@),
{
    if a.len() != b.len() {
        return false;
    }
    let mut i: usize = 0;
    while i < a.len()
        invariant
            i <= a@.len(),
            a@.len() == b@.len(),
            forall|k: int| 0 <= k < i ==> a@[k] == b@[k],
        decreases a@.len() - i,
    {
        if a[i] != b[i] {
            return false;
        }
        i += 1;
    }
    assert(a@ =~= b@);
    true
}

/// Appends the bytes of `s`.
pub fn push_all(out: &mut Vec<u8>, s: &[u8])
    ensures
        final(out)@ == old(out)@ + s@,
{
    out.extend_from_slice(s);
    assert(out@ =~= old(out)@ + s@);
}

/// The least multiple of 4096 that is not below `x`.
pub open spec fn align_up(x: int) -> int {
    if x % 4096 == 0 {
        x
    } else {
        x + (4096 - x % 4096)
    }
}

/// `align_up` never rounds down, lands on a sector boundary and skips
/// less than one sector.
pub proof fn lemma_align_up(x: int)
    requires
        0 <= x,
    ensures
        align_up(x) >= x,
        align_up(x) % 4096 == 0,
        align_up(x) - x < 4096,
        x % 4096 == 0 ==> align_up(x) == x,
{
}

/// No sector boundary lies between `x` and `align_up(x)`.
pub proof fn lemma_align_up_least(x: int, y: int)
    requires
        0 <= x <= y,
        y % 4096 == 0,
    ensures
        align_up(x) <= y,
{
    if y < align_up(x) {
        assert(y / 4096 * 4096 == y);
        assert(align_up(x) / 4096 * 4096 == align_up(x));
        assert(x / 4096 * 4096 + x % 4096 == x);
    }
}

} // verus!
