use vstd::prelude::*;
use vstd::arithmetic::div_mod::lemma_fundamental_div_mod;

verus! {

// ---------------------------------------------------------------------------
// The decoded sample buffer of one volume, and its packing into the
// little-endian binary column representation.
// ---------------------------------------------------------------------------

/// The flat, frame-major buffer of normalized 16-bit samples decoded from a
/// volume's member files, together with the count of frames that actually
/// contributed.
///
/// A frame contributes exactly `columns * rows` samples; its length is what
/// the buffer's length invariant rests on. `decoded_frames` can fall short
/// of the volume's declared frame count when member files fail to decode.
pub struct SampleBuffer {
    pub columns: usize,
    pub rows: usize,
    pub decoded_frames: usize,
    pub samples: Vec<i16>,
}

impl SampleBuffer {
    /// The buffer invariant: its length is the plane size times the number
    /// of decoded frames.
    pub open spec fn wf(self) -> bool {
        &&& self.columns <= 0xFFFF
        &&& self.rows <= 0xFFFF
        &&& self.samples@.len() == self.columns * self.rows * self.decoded_frames
    }

    /// An empty buffer for a volume of the given plane extent.
    pub fn new(columns: usize, rows: usize) -> (r: SampleBuffer)
        requires
            columns <= 0xFFFF,
            rows <= 0xFFFF,
        ensures
            r.wf(),
            r.columns == columns,
            r.rows == rows,
            r.decoded_frames == 0,
            r.samples@ == Seq::<i16>::empty(),
    {
        let r = SampleBuffer { columns, rows, decoded_frames: 0, samples: Vec::new() };
        proof {
            assert(r.samples@ =~= Seq::<i16>::empty());
        }
        r
    }

    /// Appends one decoded frame when it holds exactly one plane of
    /// samples; any other length leaves the buffer unchanged, the frame
    /// skipped and uncounted.
    pub fn push_frame(&mut self, frame: &Vec<i16>) -> (accepted: bool)
        requires
            old(self).wf(),
            old(self).decoded_frames < usize::MAX,
        ensures
            final(self).wf(),
            final(self).columns == old(self).columns,
            final(self).rows == old(self).rows,
            accepted == (frame@.len() == old(self).columns * old(self).rows),
            accepted ==> final(self).samples@ == old(self).samples@ + frame@
                && final(self).decoded_frames == old(self).decoded_frames + 1,
            !accepted ==> *final(self) == *old(self),
    {
        let plane = plane_size(self.columns, self.rows);
        if frame.len() != plane {
            return false;
        }
        let ghost before = self.samples@;
        let mut i: usize = 0;
        while i < frame.len()
            invariant
                i <= frame.len(),
                self.samples@ == before + frame@.take(i as int),
                self.columns == old(self).columns,
                self.rows == old(self).rows,
                self.decoded_frames == old(self).decoded_frames,
            decreases frame.len() - i,
        {
            let s = frame[i];
            self.samples.push(s);
            proof {
                assert(before + frame@.take(i + 1 as int) =~= (before + frame@.take(i as int)).push(
                    frame@[i as int],
                ));
            }
            i = i + 1;
        }
        proof {
            assert(frame@.take(frame@.len() as int) =~= frame@);
        }
        self.decoded_frames = self.decoded_frames + 1;
        proof {
            let c = old(self).columns as int;
            let r = old(self).rows as int;
            let d = old(self).decoded_frames as int;
            assert(c * r * (d + 1) == c * r * d + c * r) by (nonlinear_arith);
        }
        true
    }
}

/// One plane's sample count, `columns * rows`; the product of two 16-bit
/// extents fits the machine word.
pub fn plane_size(columns: usize, rows: usize) -> (r: usize)
    requires
        columns <= 0xFFFF,
        rows <= 0xFFFF,
    ensures
        r == columns * rows,
{
    proof {
        assert(columns * rows <= 0xFFFF * 0xFFFF) by (nonlinear_arith)
            requires
                columns <= 0xFFFF,
                rows <= 0xFFFF,
        ;
    }
    columns * rows
}

// ---------------------------------------------------------------------------
// The decode model: which frames of a volume contribute samples.
// ---------------------------------------------------------------------------

/// The samples contributed by a sequence of per-member decode outcomes:
/// each decoded frame of exactly `plane` samples is appended in member
/// order; a failed decode or a frame of any other length contributes
/// nothing.
pub open spec fn decoded_samples(frames: Seq<Option<Seq<i16>>>, plane: nat) -> Seq<i16>
    decreases frames.len(),
{
    if frames.len() == 0 {
        Seq::empty()
    } else {
        let rest = decoded_samples(frames.drop_last(), plane);
        match frames.last() {
            Some(f) => if f.len() == plane {
                rest + f
            } else {
                rest
            },
            None => rest,
        }
    }
}

/// How many of the decode outcomes contribute a frame.
pub open spec fn decoded_frame_count(frames: Seq<Option<Seq<i16>>>, plane: nat) -> nat
    decreases frames.len(),
{
    if frames.len() == 0 {
        0
    } else {
        let rest = decoded_frame_count(frames.drop_last(), plane);
        match frames.last() {
            Some(f) => if f.len() == plane {
                rest + 1
            } else {
                rest
            },
            None => rest,
        }
    }
}

/// The decoded buffer holds one plane of samples per decoded frame, and no
/// more frames are decoded than the volume has members.
pub proof fn lemma_decoded_length(frames: Seq<Option<Seq<i16>>>, plane: nat)
    ensures
        decoded_samples(frames, plane).len() == plane * decoded_frame_count(frames, plane),
        decoded_frame_count(frames, plane) <= frames.len(),
    decreases frames.len(),
{
    if frames.len() > 0 {
        lemma_decoded_length(frames.drop_last(), plane);
        let rest = decoded_frame_count(frames.drop_last(), plane);
        let rests = decoded_samples(frames.drop_last(), plane);
        assert(plane * (rest + 1) == plane * rest + plane) by (nonlinear_arith);
        match frames.last() {
            Some(f) => {
                if f.len() == plane {
                    assert(decoded_samples(frames, plane) == rests + f);
                    assert(decoded_frame_count(frames, plane) == rest + 1);
                } else {
                    assert(decoded_samples(frames, plane) == rests);
                }
            },
            None => {
                assert(decoded_samples(frames, plane) == rests);
            },
        }
    } else {
        assert(plane * decoded_frame_count(frames, plane) == 0) by (nonlinear_arith)
            requires decoded_frame_count(frames, plane) == 0,
        ;
    }
}

/// Decodes a volume's member outcomes into one sample buffer, in member
/// order, skipping failed or mis-sized frames.
pub fn collect_samples(columns: usize, rows: usize, frames: &Vec<Option<Vec<i16>>>) -> (r:
    SampleBuffer)
    requires
        columns <= 0xFFFF,
        rows <= 0xFFFF,
    ensures
        r.wf(),
        r.columns == columns,
        r.rows == rows,
        r.samples@ == decoded_samples(frames.deep_view(), (columns * rows) as nat),
        r.decoded_frames == decoded_frame_count(frames.deep_view(), (columns * rows) as nat),
{
    let ghost fv = frames.deep_view();
    let ghost plane = (columns * rows) as nat;
    let mut buf = SampleBuffer::new(columns, rows);
    let mut k: usize = 0;
    proof {
        assert(fv.take(0) =~= Seq::<Option<Seq<i16>>>::empty());
    }
    while k < frames.len()
        invariant
            k <= frames.len(),
            fv == frames.deep_view(),
            plane == (columns * rows) as nat,
            buf.wf(),
            buf.columns == columns,
            buf.rows == rows,
            buf.samples@ == decoded_samples(fv.take(k as int), plane),
            buf.decoded_frames == decoded_frame_count(fv.take(k as int), plane),
        decreases frames.len() - k,
    {
        proof {
            lemma_decoded_length(fv.take(k as int), plane);
            assert(fv.take(k as int).len() == k);
            assert(fv.take(k + 1 as int).drop_last() =~= fv.take(k as int));
            assert(fv.take(k + 1 as int).last() == fv[k as int]);
        }
        match &frames[k] {
            Some(frame) => {
                proof {
                    assert(fv[k as int] == Some(frame@));
                }
                buf.push_frame(frame);
            },
            None => {
                proof {
                    assert(fv[k as int] is None);
                }
            },
        }
        k = k + 1;
    }
    proof {
        assert(fv.take(frames.len() as int) =~= fv);
    }
    buf
}

// ---------------------------------------------------------------------------
// Little-endian packing of samples into the binary column.
// ---------------------------------------------------------------------------

/// The unsigned 16-bit representation of a signed sample (two's complement).
pub open spec fn sample_to_u16(s: i16) -> u16 {
    if s >= 0 {
        s as u16
    } else {
        (s + 0x10000) as u16
    }
}

/// The signed sample a 16-bit word represents (two's complement).
pub open spec fn u16_to_sample(u: u16) -> i16 {
    if u < 0x8000 {
        u as i16
    } else {
        (u - 0x10000) as i16
    }
}

/// The little-endian bytes of a sample sequence: two bytes per sample, low
/// byte first.
pub open spec fn le_bytes_of(samples: Seq<i16>) -> Seq<u8> {
    Seq::new(
        2 * samples.len(),
        |i: int|
            {
                let u = sample_to_u16(samples[i / 2]);
                if i % 2 == 0 {
                    (u % 256) as u8
                } else {
                    (u / 256) as u8
                }
            },
    )
}

/// The samples a little-endian byte sequence holds, two bytes each, low
/// byte first; a trailing odd byte belongs to no sample.
pub open spec fn le_samples_of(bytes: Seq<u8>) -> Seq<i16> {
    Seq::new(
        bytes.len() / 2,
        |i: int| u16_to_sample((bytes[2 * i] + 256 * bytes[2 * i + 1]) as u16),
    )
}

/// Packing a sample buffer into little-endian bytes and unpacking those
/// bytes yields the original samples, in the original order.
pub proof fn lemma_le_round_trip(samples: Seq<i16>)
    ensures
        le_samples_of(le_bytes_of(samples)) == samples,
{
    let bytes = le_bytes_of(samples);
    assert(le_samples_of(bytes) =~= samples) by {
        assert(bytes.len() == 2 * samples.len());
        assert forall|i: int| 0 <= i < samples.len() implies le_samples_of(bytes)[i]
            == samples[i] by {
            let u = sample_to_u16(samples[i]);
            assert((2 * i) / 2 == i);
            assert((2 * i) % 2 == 0);
            assert((2 * i + 1) / 2 == i);
            assert((2 * i + 1) % 2 == 1);
            assert(bytes[2 * i] == (u % 256) as u8);
            assert(bytes[2 * i + 1] == (u / 256) as u8);
            lemma_fundamental_div_mod(u as int, 256);
            assert(u % 256 + 256 * (u / 256) == u);
            assert(u16_to_sample(u) == samples[i]);
        }
    }
}

/// Packs samples into the binary column representation: two bytes per
/// sample, little-endian.
pub fn pack_samples(samples: &Vec<i16>) -> (r: Vec<u8>)
    ensures
        r@ == le_bytes_of(samples@),
{
    let mut r: Vec<u8> = Vec::new();
    let mut i: usize = 0;
    proof {
        assert(r@ =~= le_bytes_of(samples@.take(0)));
    }
    while i < samples.len()
        invariant
            i <= samples.len(),
            r@ == le_bytes_of(samples@.take(i as int)),
        decreases samples.len() - i,
    {
        let s = samples[i];
        let u: u16 = if s >= 0 {
            s as u16
        } else {
            ((s as i32) + 0x10000) as u16
        };
        proof {
            assert(u == sample_to_u16(samples@[i as int]));
        }
        let lo: u8 = (u % 256) as u8;
        let hi: u8 = (u / 256) as u8;
        r.push(lo);
        r.push(hi);
        proof {
            assert(r@ =~= le_bytes_of(samples@.take(i + 1 as int)));
        }
        i = i + 1;
    }
    proof {
        assert(samples@.take(samples@.len() as int) =~= samples@);
    }
    r
}

/// Unpacks the binary column representation back into samples; a trailing
/// odd byte, which no packed buffer has, is ignored.
pub fn unpack_samples(bytes: &Vec<u8>) -> (r: Vec<i16>)
    ensures
        r@ == le_samples_of(bytes@),
{
    let blen = bytes.len();
    let n = blen / 2;
    let mut r: Vec<i16> = Vec::new();
    let mut i: usize = 0;
    while i < n
        invariant
            i <= n,
            blen == bytes@.len(),
            n == bytes@.len() / 2,
            r@.len() == i,
            forall|j: int| 0 <= j < i ==> r@[j] == le_samples_of(bytes@)[j],
        decreases n - i,
    {
        proof {
            assert(2 * (i as int) + 1 < bytes@.len());
        }
        let lo = bytes[2 * i];
        let hi = bytes[2 * i + 1];
        let u: u16 = lo as u16 + 256 * (hi as u16);
        let s: i16 = if u < 0x8000 {
            u as i16
        } else {
            ((u as i32) - 0x10000) as i16
        };
        proof {
            assert(s == u16_to_sample((bytes@[2 * i as int] + 256 * bytes@[2 * i + 1 as int]) as u16));
        }
        r.push(s);
        i = i + 1;
    }
    proof {
        assert(r@ =~= le_samples_of(bytes@));
    }
    r
}

} // verus!
