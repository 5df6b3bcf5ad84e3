//! The application image: a firmware header, the application's segments
//! one after the other, padding, and a checksum.

use vstd::prelude::*;
use vstd::slice::{slice_subrange, slice_to_vec};
use crate::bytes::{le32, le32_value, lemma_le32_value, push_all, push_le32, read_le32};
use crate::error::Error;
use crate::segment::{segment_views, ImageSegment, SegmentView};

verus! {

/// The value that the checksum starts from.
pub const CHECKSUM_SEED: u8 = 0xEF;

/// The most segments that a firmware header can count.
pub const MAX_SEGMENTS: usize = 255;

/// A segment inside an application image: load address, length, data.
pub open spec fn segment_bytes(s: SegmentView) -> Seq<u8> {
    le32(s.load_address) + le32(s.data.len() as u32) + s.data
}

/// The segments of an application, one after the other.
pub open spec fn segments_bytes(segs: Seq<SegmentView>) -> Seq<u8>
    decreases segs.len(),
{
    if segs.len() == 0 {
        Seq::empty()
    } else {
        segments_bytes(segs.drop_last()) + segment_bytes(segs.last())
    }
}

/// `acc` xor every byte of `data`.
pub open spec fn xor_fold(data: Seq<u8>, acc: u8) -> u8
    decreases data.len(),
{
    if data.len() == 0 {
        acc
    } else {
        xor_fold(data.drop_last(), acc) ^ data.last()
    }
}

/// The checksum of an application: `0xEF` xor every data byte of every
/// segment.
pub open spec fn checksum(segs: Seq<SegmentView>) -> u8
    decreases segs.len(),
{
    if segs.len() == 0 {
        0xEFu8
    } else {
        xor_fold(segs.last().data, checksum(segs.drop_last()))
    }
}

/// How many zero bytes follow a segment list of `n` bytes, so that the
/// checksum behind them is the last byte of a block of sixteen.
pub open spec fn padding_len(n: int) -> int {
    15 - n % 16
}

/// `count` zero bytes.
pub open spec fn zeros(count: int) -> Seq<u8> {
    Seq::new(
        if count >= 0 {
            count as nat
        } else {
            0
        },
        |i: int| 0u8,
    )
}

/// What follows the firmware header in an application image: the segments,
/// the padding and the checksum. The padding is counted over these bytes
/// alone, so their number is a multiple of sixteen.
pub open spec fn body_bytes(segs: Seq<SegmentView>) -> Seq<u8> {
    segments_bytes(segs) + zeros(padding_len(segments_bytes(segs).len() as int)) + seq![
        checksum(segs),
    ]
}

/// What an application may hold: at most 255 segments, each of a length
/// that fits in 32 bits.
pub open spec fn segments_ok(segs: Seq<SegmentView>) -> bool {
    &&& segs.len() <= 255
    &&& forall|i: int| 0 <= i < segs.len() ==> (#[trigger] segs[i]).data.len() <= u32::MAX
}

/// The bytes behind the header come in blocks of sixteen.
pub proof fn lemma_body_len(segs: Seq<SegmentView>)
    ensures
        body_bytes(segs).len() % 16 == 0,
        body_bytes(segs).len() >= 16,
{
}

/// `first` put before the segments that `rest` found, where it found any.
pub open spec fn prepend_segments(
    first: Seq<SegmentView>,
    rest: Option<(Seq<SegmentView>, int)>,
) -> Option<(Seq<SegmentView>, int)> {
    match rest {
        Some((segs, end)) => Some((first + segs, end)),
        None => None,
    }
}

/// The `count` segments that `bytes` spells from byte `at` on, and the
/// index behind the last of them. Nothing where the bytes end before the
/// segments do.
pub open spec fn read_segments(bytes: Seq<u8>, at: int, count: int) -> Option<
    (Seq<SegmentView>, int),
>
    decreases count,
{
    if count <= 0 {
        Some((Seq::empty(), at))
    } else if at < 0 || at + 8 > bytes.len() {
        None
    } else {
        let length = le32_value(bytes.subrange(at + 4, at + 8));
        if at + 8 + length > bytes.len() {
            None
        } else {
            prepend_segments(
                seq![
                    SegmentView {
                        load_address: le32_value(bytes.subrange(at, at + 4)) as u32,
                        data: bytes.subrange(at + 8, at + 8 + length),
                    },
                ],
                read_segments(bytes, at + 8 + length, count - 1),
            )
        }
    }
}

/// What `Application::decode` returns. An image that is shorter than a
/// header or does not start with `0xE9` has no magic. An image that ends
/// before its segments or its checksum do, or whose checksum is not that of
/// its segments, fails the checksum; the offset is that of the checksum, or
/// the length of the image where it has none. The flash configuration in
/// the header, the padding and what follows the checksum are not looked at.
pub open spec fn decode_spec(bytes: Seq<u8>) -> Result<ApplicationView, Error> {
    if bytes.len() < 8 || bytes[0] != 0xE9 {
        Err(Error::BadMagic { offset: 0 })
    } else {
        match read_segments(bytes, 8, bytes[1] as int) {
            None => Err(Error::ChecksumMismatch { offset: bytes.len() as usize }),
            Some((segments, end)) => {
                let at = end + padding_len(end - 8);
                if at >= bytes.len() {
                    Err(Error::ChecksumMismatch { offset: bytes.len() as usize })
                } else if bytes[at] != checksum(segments) {
                    Err(Error::ChecksumMismatch { offset: at as usize })
                } else {
                    Ok(
                        ApplicationView {
                            entry_point: le32_value(bytes.subrange(4, 8)) as u32,
                            segments,
                        },
                    )
                }
            },
        }
    }
}

/// The bytes of a run of segments start with the bytes of the first.
proof fn lemma_segments_bytes_front(segs: Seq<SegmentView>)
    requires
        segs.len() > 0,
    ensures
        segments_bytes(segs) == segment_bytes(segs[0]) + segments_bytes(segs.skip(1)),
    decreases segs.len(),
{
    if segs.len() == 1 {
        assert(segs.drop_last() =~= Seq::<SegmentView>::empty());
        assert(segs.skip(1) =~= Seq::<SegmentView>::empty());
        assert(segs.last() == segs[0]);
        assert(segments_bytes(segs) =~= segment_bytes(segs[0]) + segments_bytes(segs.skip(1)));
    } else {
        let front = segs.drop_last();
        lemma_segments_bytes_front(front);
        assert(front[0] == segs[0]);
        assert(front.skip(1) =~= segs.skip(1).drop_last());
        assert(segs.skip(1).last() == segs.last());
        assert(segments_bytes(segs) =~= segment_bytes(segs[0]) + segments_bytes(segs.skip(1)));
    }
}

/// Segments are read back from their bytes, wherever those lie.
proof fn lemma_read_segments(bytes: Seq<u8>, at: int, segs: Seq<SegmentView>)
    requires
        segments_ok(segs),
        0 <= at,
        at + segments_bytes(segs).len() <= bytes.len(),
        bytes.subrange(at, at + segments_bytes(segs).len()) == segments_bytes(segs),
    ensures
        read_segments(bytes, at, segs.len() as int) == Some((segs, at + segments_bytes(segs).len())),
    decreases segs.len(),
{
    if segs.len() == 0 {
        assert(segments_bytes(segs).len() == 0);
    } else {
        let first = segs[0];
        let rest = segs.skip(1);
        let all = segments_bytes(segs);
        lemma_segments_bytes_front(segs);
        lemma_le32_value(first.load_address);
        lemma_le32_value(first.data.len() as u32);
        let window = bytes.subrange(at, at + all.len());
        let length = first.data.len() as int;
        let next = at + 8 + length;
        assert(bytes.subrange(at, at + 4) =~= window.subrange(0, 4));
        assert(window.subrange(0, 4) =~= le32(first.load_address));
        assert(bytes.subrange(at + 4, at + 8) =~= window.subrange(4, 8));
        assert(window.subrange(4, 8) =~= le32(first.data.len() as u32));
        assert(bytes.subrange(at + 8, at + 8 + length) =~= window.subrange(8, 8 + length));
        assert(window.subrange(8, 8 + length) =~= first.data);
        assert(bytes.subrange(next, next + segments_bytes(rest).len()) =~= window.subrange(
            8 + length,
            all.len() as int,
        ));
        assert(window.subrange(8 + length, all.len() as int) =~= segments_bytes(rest));
        assert forall|i: int| 0 <= i < rest.len() implies (#[trigger] rest[i]).data.len()
            <= u32::MAX by {
            assert(rest[i] == segs[i + 1]);
        }
        lemma_read_segments(bytes, next, rest);
        assert(seq![first] + rest =~= segs);
        assert(first == SegmentView { load_address: first.load_address, data: first.data });
    }
}

/// An application is read back from its image, whatever the header says of
/// the flash.
pub proof fn lemma_decode_round_trip(header: Seq<u8>, app: ApplicationView)
    requires
        segments_ok(app.segments),
        header.len() == 8,
        header[0] == 0xE9,
        header[1] == app.segments.len(),
        header.subrange(4, 8) == le32(app.entry_point),
    ensures
        decode_spec(header + body_bytes(app.segments)) == Ok::<ApplicationView, Error>(app),
{
    let segs = app.segments;
    let raw = segments_bytes(segs);
    let bytes = header + body_bytes(segs);
    assert(bytes.subrange(8, 8 + (raw.len() as int)) =~= raw);
    lemma_read_segments(bytes, 8, segs);
    lemma_le32_value(app.entry_point);
    assert(bytes.subrange(4, 8) =~= header.subrange(4, 8));
    let at = 8 + raw.len() + padding_len(raw.len() as int);
    assert(bytes[at] == checksum(segs));
}

/// An application: where it starts to run and what it loads.
#[derive(Debug)]
pub struct Application {
    entry_point: u32,
    segments: Vec<ImageSegment>,
}

/// An application as a mathematical value.
pub struct ApplicationView {
    pub entry_point: u32,
    pub segments: Seq<SegmentView>,
}

impl View for Application {
    type V = ApplicationView;

    closed spec fn view(&self) -> ApplicationView {
        ApplicationView {
            entry_point: self.entry_point,
            segments: segment_views(self.segments@),
        }
    }
}

impl Application {
    #[verifier::type_invariant]
    spec fn valid(self) -> bool {
        segments_ok(segment_views(self.segments@))
    }

    /// Takes the segments of an application, where a firmware header can
    /// count them and a length field can hold each length.
    pub fn new(entry_point: u32, segments: Vec<ImageSegment>) -> (r: Option<Application>)
        ensures
            match r {
                Some(app) => segments_ok(segment_views(segments@)) && app@ == (ApplicationView {
                    entry_point,
                    segments: segment_views(segments@),
                }),
                None => !segments_ok(segment_views(segments@)),
            },
    {
        let ghost segs = segment_views(segments@);
        if segments.len() > MAX_SEGMENTS {
            return None;
        }
        let mut i: usize = 0;
        while i < segments.len()
            invariant
                i <= segments@.len(),
                segs == segment_views(segments@),
                forall|k: int| 0 <= k < i ==> (#[trigger] segs[k]).data.len() <= u32::MAX,
            decreases segments@.len() - i,
        {
            assert(segs[i as int] == segments@[i as int]@);
            if segments[i].data.len() > 0xFFFF_FFFF {
                return None;
            }
            i += 1;
        }
        Some(Application { entry_point, segments })
    }

    /// The address at which the application starts to run.
    pub fn entry_point(&self) -> (r: u32)
        ensures
            r == self@.entry_point,
    {
        self.entry_point
    }

    /// The segments, in the order in which they are loaded.
    pub fn segments(&self) -> (r: &Vec<ImageSegment>)
        ensures
            segment_views(r@) == self@.segments,
            segments_ok(self@.segments),
    {
        proof {
            use_type_invariant(self);
        }
        &self.segments
    }

    /// Reads an application from its image: the firmware header, the
    /// segments, the padding and the checksum.
    pub fn decode(bytes: &[u8]) -> (r: Result<Application, Error>)
        ensures
            match decode_spec(bytes@) {
                Ok(app) => r is Ok && r->Ok_0@ == app,
                Err(e) => r is Err && r->Err_0 == e,
            },
    {
        let len = bytes.len();
        if len < 8 || bytes[0] != 0xE9 {
            return Err(Error::BadMagic { offset: 0 });
        }
        let count = bytes[1] as usize;
        let entry_point = read_le32(bytes, 4);
        let mut segments: Vec<ImageSegment> = Vec::new();
        let mut sum: u8 = CHECKSUM_SEED;
        let mut at: usize = 8;
        let mut left: usize = count;
        proof {
            assert(segment_views(segments@) =~= Seq::<SegmentView>::empty());
            match read_segments(bytes@, 8, count as int) {
                Some((segs, end)) => {
                    assert(Seq::<SegmentView>::empty() + segs =~= segs);
                },
                None => {},
            }
        }
        while left > 0
            invariant
                len == bytes@.len(),
                bytes@[0] == 0xE9,
                bytes@[1] == count,
                8 <= at <= len,
                left + segments@.len() == count <= 255,
                forall|k: int|
                    0 <= k < segments@.len() ==> (#[trigger] segment_views(segments@)[k]).data.len()
                        <= u32::MAX,
                sum == checksum(segment_views(segments@)),
                read_segments(bytes@, 8, count as int) == prepend_segments(
                    segment_views(segments@),
                    read_segments(bytes@, at as int, left as int),
                ),
            decreases left,
        {
            if len - at < 8 {
                return Err(Error::ChecksumMismatch { offset: len });
            }
            let load_address = read_le32(bytes, at);
            let length = read_le32(bytes, at + 4);
            if length as usize > len - at - 8 {
                return Err(Error::ChecksumMismatch { offset: len });
            }
            let data = slice_to_vec(slice_subrange(bytes, at + 8, at + 8 + length as usize));
            let ghost before = segment_views(segments@);
            let ghost start = sum;
            let mut j: usize = 0;
            assert(data@.take(0) =~= Seq::<u8>::empty());
            while j < data.len()
                invariant
                    j <= data@.len(),
                    sum == xor_fold(data@.take(j as int), start),
                decreases data@.len() - j,
            {
                proof {
                    assert(data@.take(j + 1).drop_last() =~= data@.take(j as int));
                    assert(data@.take(j + 1).last() == data@[j as int]);
                }
                sum = sum ^ data[j];
                j += 1;
            }
            assert(data@.take(data@.len() as int) =~= data@);
            let ghost segment = SegmentView { load_address, data: data@ };
            segments.push(ImageSegment { load_address, data });
            proof {
                let now = segment_views(segments@);
                assert(now =~= before.push(segment));
                assert(now.drop_last() =~= before);
                assert(now.last() == segment);
                match read_segments(bytes@, at + 8 + length, left - 1) {
                    Some((rest, end)) => {
                        assert(before + (seq![segment] + rest) =~= now + rest);
                    },
                    None => {},
                }
            }
            at = at + 8 + length as usize;
            left -= 1;
        }
        let ghost segs = segment_views(segments@);
        assert(segs + Seq::<SegmentView>::empty() =~= segs);
        let pad = 15 - (at - 8) % 16;
        if pad >= len - at {
            return Err(Error::ChecksumMismatch { offset: len });
        }
        if bytes[at + pad] != sum {
            return Err(Error::ChecksumMismatch { offset: at + pad });
        }
        Ok(Application { entry_point, segments })
    }

    /// Writes what follows the firmware header: the segments with their
    /// addresses as they are, the padding and the checksum.
    pub fn encode_body(&self) -> (out: Vec<u8>)
        ensures
            out@ == body_bytes(self@.segments),
    {
        let segments = self.segments();
        let ghost segs = self@.segments;
        let mut out: Vec<u8> = Vec::new();
        let mut sum: u8 = CHECKSUM_SEED;
        let mut i: usize = 0;
        assert(segs.take(0) =~= Seq::<SegmentView>::empty());
        while i < segments.len()
            invariant
                i <= segments@.len(),
                segs == segment_views(segments@),
                segments_ok(segs),
                out@ == segments_bytes(segs.take(i as int)),
                sum == checksum(segs.take(i as int)),
            decreases segments@.len() - i,
        {
            let segment = &segments[i];
            proof {
                assert(segs[i as int] == segment@);
                assert(segs.take(i + 1).drop_last() =~= segs.take(i as int));
                assert(segs.take(i + 1).last() == segs[i as int]);
            }
            push_le32(&mut out, segment.load_address);
            push_le32(&mut out, segment.data.len() as u32);
            push_all(&mut out, segment.data.as_slice());
            assert(out@ =~= segments_bytes(segs.take(i as int)) + segment_bytes(segs[i as int]));
            let ghost start = sum;
            let mut j: usize = 0;
            assert(segment.data@.take(0) =~= Seq::<u8>::empty());
            while j < segment.data.len()
                invariant
                    j <= segment.data@.len(),
                    sum == xor_fold(segment.data@.take(j as int), start),
                decreases segment.data@.len() - j,
            {
                proof {
                    assert(segment.data@.take(j + 1).drop_last() =~= segment.data@.take(j as int));
                    assert(segment.data@.take(j + 1).last() == segment.data@[j as int]);
                }
                sum = sum ^ segment.data[j];
                j += 1;
            }
            assert(segment.data@.take(segment.data@.len() as int) =~= segment.data@);
            i += 1;
        }
        assert(segs.take(segs.len() as int) =~= segs);
        let pad = 15 - out.len() % 16;
        let ghost raw = out@;
        let mut k: usize = 0;
        while k < pad
            invariant
                k <= pad,
                out@ == raw + zeros(k as int),
            decreases pad - k,
        {
            out.push(0);
            assert(zeros(k + 1) =~= zeros(k as int).push(0u8));
            k += 1;
        }
        out.push(sum);
        out
    }
}

} // verus!
