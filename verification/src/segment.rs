//! Segments of flash and the merged buffer that a set of them makes.

use vstd::prelude::*;

verus! {

/// Bytes and the address at which they are to lie.
#[derive(Debug, PartialEq, Eq)]
pub struct ImageSegment {
    pub load_address: u32,
    pub data: Vec<u8>,
}

/// A segment as a mathematical value.
pub struct SegmentView {
    pub load_address: u32,
    pub data: Seq<u8>,
}

impl View for ImageSegment {
    type V = SegmentView;

    open spec fn view(&self) -> SegmentView {
        SegmentView { load_address: self.load_address, data: self.data@ }
    }
}

impl Clone for ImageSegment {
    fn clone(&self) -> (r: Self)
        ensures
            r@ == self@,
    {
        ImageSegment { load_address: self.load_address, data: self.data.clone() }
    }
}

impl SegmentView {
    /// The first address behind the segment.
    pub open spec fn end(self) -> int {
        self.load_address + self.data.len()
    }

    /// Whether the segment holds a byte for `addr`.
    pub open spec fn covers(self, addr: int) -> bool {
        self.load_address <= addr < self.end()
    }

    /// Whether the two segments hold a byte for one address.
    pub open spec fn intersects(self, other: SegmentView) -> bool {
        self.load_address < other.end() && other.load_address < self.end()
    }
}

/// The views of a run of segments.
pub open spec fn segment_views(segments: Seq<ImageSegment>) -> Seq<SegmentView> {
    Seq::new(segments.len(), |i: int| segments[i]@)
}

/// No two of the segments hold a byte for one address.
pub open spec fn disjoint(segs: Seq<SegmentView>) -> bool {
    forall|i: int, j: int|
        0 <= i < segs.len() && 0 <= j < segs.len() && i != j ==> !(#[trigger] segs[i]).intersects(
            #[trigger] segs[j],
        )
}

/// The segments stand in ascending order of their addresses.
pub open spec fn ascending(segs: Seq<SegmentView>) -> bool {
    forall|i: int, j: int|
        0 <= i < j < segs.len() ==> (#[trigger] segs[i]).load_address <= (
        #[trigger] segs[j]).load_address
}

/// The first address behind all the segments; zero where there is none.
pub open spec fn span_end(segs: Seq<SegmentView>) -> int
    decreases segs.len(),
{
    if segs.len() == 0 {
        0
    } else if span_end(segs.drop_last()) >= segs.last().end() {
        span_end(segs.drop_last())
    } else {
        segs.last().end()
    }
}

/// The byte that lies at `addr` once the segments are written in their
/// order over erased flash: that of the last segment that covers the
/// address, else `0xFF`.
pub open spec fn merged_byte(segs: Seq<SegmentView>, addr: int) -> u8
    decreases segs.len(),
{
    if segs.len() == 0 {
        0xFFu8
    } else if segs.last().covers(addr) {
        segs.last().data[addr - segs.last().load_address]
    } else {
        merged_byte(segs.drop_last(), addr)
    }
}

/// The merged buffer: every byte from address zero to the end of the last
/// segment.
pub open spec fn merged(segs: Seq<SegmentView>) -> Seq<u8> {
    Seq::new(span_end(segs) as nat, |addr: int| merged_byte(segs, addr))
}

/// No segment ends behind `span_end`.
pub proof fn lemma_span_end(segs: Seq<SegmentView>, k: int)
    requires
        0 <= k < segs.len(),
    ensures
        0 <= segs[k].end() <= span_end(segs),
    decreases segs.len(),
{
    if k < segs.len() - 1 {
        lemma_span_end(segs.drop_last(), k);
        assert(segs.drop_last()[k] == segs[k]);
    }
}

/// An address that no segment covers reads as erased flash.
pub proof fn lemma_merged_gap(segs: Seq<SegmentView>, addr: int)
    requires
        forall|k: int| 0 <= k < segs.len() ==> !(#[trigger] segs[k]).covers(addr),
    ensures
        merged_byte(segs, addr) == 0xFFu8,
    decreases segs.len(),
{
    if segs.len() > 0 {
        assert(!segs[segs.len() - 1].covers(addr));
        assert forall|k: int| 0 <= k < segs.drop_last().len() implies !(
        #[trigger] segs.drop_last()[k]).covers(addr) by {
            assert(segs.drop_last()[k] == segs[k]);
        }
        lemma_merged_gap(segs.drop_last(), addr);
    }
}

/// Where no two segments share an address, each segment's bytes lie in the
/// merged buffer as they are.
pub proof fn lemma_merged_segment(segs: Seq<SegmentView>, k: int, j: int)
    requires
        disjoint(segs),
        0 <= k < segs.len(),
        0 <= j < segs[k].data.len(),
    ensures
        segs[k].load_address + j < span_end(segs),
        merged(segs)[segs[k].load_address + j] == segs[k].data[j],
    decreases segs.len(),
{
    let addr = segs[k].load_address + j;
    lemma_span_end(segs, k);
    lemma_merged_byte_disjoint(segs, k, addr);
}

proof fn lemma_merged_byte_disjoint(segs: Seq<SegmentView>, k: int, addr: int)
    requires
        0 <= k < segs.len(),
        segs[k].covers(addr),
        forall|i: int| 0 <= i < segs.len() && i != k ==> !(#[trigger] segs[i]).covers(addr),
    ensures
        merged_byte(segs, addr) == segs[k].data[addr - segs[k].load_address],
    decreases segs.len(),
{
    if k < segs.len() - 1 {
        assert(!segs[segs.len() - 1].covers(addr));
        assert forall|i: int| 0 <= i < segs.drop_last().len() && i != k implies !(
        #[trigger] segs.drop_last()[i]).covers(addr) by {
            assert(segs.drop_last()[i] == segs[i]);
        }
        assert(segs.drop_last()[k] == segs[k]);
        lemma_merged_byte_disjoint(segs.drop_last(), k, addr);
    }
}

/// The first address behind all the segments.
fn end_of_all(segments: &Vec<ImageSegment>) -> (total: usize)
    requires
        span_end(segment_views(segments@)) <= usize::MAX,
    ensures
        total == span_end(segment_views(segments@)),
{
    let ghost segs = segment_views(segments@);
    let mut total: usize = 0;
    let mut i: usize = 0;
    assert(segs.take(0) =~= Seq::<SegmentView>::empty());
    while i < segments.len()
        invariant
            i <= segments@.len(),
            segs == segment_views(segments@),
            span_end(segs) <= usize::MAX,
            total == span_end(segs.take(i as int)),
        decreases segments@.len() - i,
    {
        let segment = &segments[i];
        proof {
            lemma_span_end(segs, i as int);
            assert(segs[i as int] == segment@);
            assert(segs.take(i + 1).drop_last() =~= segs.take(i as int));
            assert(segs.take(i + 1).last() == segs[i as int]);
        }
        let end = segment.load_address as usize + segment.data.len();
        if end > total {
            total = end;
        }
        i += 1;
    }
    assert(segs.take(segs.len() as int) =~= segs);
    total
}

/// Writes the segments, in their order, into one buffer of erased flash
/// that reaches from address zero to the end of the last of them.
pub fn merge_segments(segments: &Vec<ImageSegment>) -> (out: Vec<u8>)
    requires
        span_end(segment_views(segments@)) <= usize::MAX,
    ensures
        out@ == merged(segment_views(segments@)),
{
    let ghost segs = segment_views(segments@);
    let total = end_of_all(segments);
    let mut out: Vec<u8> = vec![0xFFu8; total];
    let mut i: usize = 0;
    assert(segs.take(0) =~= Seq::<SegmentView>::empty());
    while i < segments.len()
        invariant
            i <= segments@.len(),
            segs == segment_views(segments@),
            total == span_end(segs),
            out@.len() == total,
            forall|a: int| 0 <= a < total ==> out@[a] == merged_byte(segs.take(i as int), a),
        decreases segments@.len() - i,
    {
        let segment = &segments[i];
        let start = segment.load_address as usize;
        let ghost before = segs.take(i as int);
        proof {
            lemma_span_end(segs, i as int);
            assert(segs[i as int] == segment@);
            assert(segs.take(i + 1).drop_last() =~= before);
            assert(segs.take(i + 1).last() == segs[i as int]);
        }
        let mut j: usize = 0;
        while j < segment.data.len()
            invariant
                j <= segment.data@.len(),
                start == segment.load_address,
                start + segment.data@.len() <= total,
                out@.len() == total,
                forall|a: int|
                    0 <= a < total ==> out@[a] == if start <= a < start + j {
                        segment.data@[a - start]
                    } else {
                        merged_byte(before, a)
                    },
            decreases segment.data@.len() - j,
        {
            out.set(start + j, segment.data[j]);
            j += 1;
        }
        i += 1;
    }
    assert(segs.take(segs.len() as int) =~= segs);
    assert(out@ =~= merged(segs));
    out
}

} // verus!
