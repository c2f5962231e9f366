//! The picture of a track's loudness over time.
//!
//! Loudness values are the bits of 32-bit floating-point numbers. Numbers that
//! are not negative are ordered as their bits are; only comparisons are made here.
use vstd::prelude::*;
use vstd::arithmetic::div_mod::lemma_fundamental_div_mod;

verus! {

/// So many points a picture has.
pub const WAVEFORM_RESOLUTION: usize = 500;

/// The bits of infinity: above them are negative numbers and what is no number.
pub const INFINITY_BITS: u32 = 0x7F80_0000;

/// So many slices are measured in a second.
pub const SLICES_PER_SECOND: u32 = 50;

// ── Slices ───────────────────────────────────────────────────────────────────

/// The frames that make up a slice.
pub open spec fn slice_frames(sample_rate: int) -> int {
    if sample_rate < 50 {
        1
    } else {
        sample_rate / 50
    }
}

/// The counting part of a measurement: which frames belong to which slice.
#[derive(Debug, Clone, Copy, PartialEq, Eq, Structural)]
pub struct WaveformPass {
    pub resolution: usize,
    pub frames_per_slice: u64,
    /// Frames and samples in the slice that is being measured.
    pub slice_frame_count: u64,
    pub slice_n_samples: u64,
    /// Slices that are complete.
    pub slices: usize,
}

impl WaveformPass {
    /// The slice that is being measured is not complete, and counts can go on.
    pub open spec fn valid(self) -> bool {
        &&& 0 < self.frames_per_slice <= u32::MAX
        &&& self.slice_frame_count < self.frames_per_slice
        &&& self.slice_n_samples <= self.slice_frame_count * u32::MAX
        &&& self.resolution * 10 <= usize::MAX
    }

    /// A measurement of a stream of the given rate; an unknown rate counts as 44100.
    pub fn new(sample_rate: Option<u32>, resolution: usize) -> (r: WaveformPass)
        requires
            resolution * 10 <= usize::MAX,
        ensures
            r == (WaveformPass {
                resolution,
                frames_per_slice: slice_frames(
                    match sample_rate {
                        Some(hz) => hz as int,
                        None => 44100,
                    },
                ) as u64,
                slice_frame_count: 0,
                slice_n_samples: 0,
                slices: 0,
            }),
            r.valid(),
    {
        let hz: u32 = match sample_rate {
            Some(x) => x,
            None => 44100,
        };
        let frames: u32 = hz / SLICES_PER_SECOND;
        WaveformPass {
            resolution,
            frames_per_slice: if frames == 0 {
                1
            } else {
                frames as u64
            },
            slice_frame_count: 0,
            slice_n_samples: 0,
            slices: 0,
        }
    }

    /// Counts a frame. Some(n): it completed a slice of n samples, whose loudness is
    /// due now.
    pub fn frame(&mut self, channels: u32) -> (r: Option<u64>)
        requires
            old(self).valid(),
            old(self).slices < usize::MAX,
        ensures
            final(self).valid(),
            r is Some <==> old(self).slice_frame_count + 1 == old(self).frames_per_slice,
            r is Some ==> r->0 == old(self).slice_n_samples + channels,
            *final(self) == if r is Some {
                WaveformPass {
                    slice_frame_count: 0,
                    slice_n_samples: 0,
                    slices: (old(self).slices + 1) as usize,
                    ..*old(self)
                }
            } else {
                WaveformPass {
                    slice_frame_count: (old(self).slice_frame_count + 1) as u64,
                    slice_n_samples: (old(self).slice_n_samples + channels) as u64,
                    ..*old(self)
                }
            },
    {
        proof {
            let count = self.slice_frame_count as int;
            let most = u32::MAX as int;
            assert((count + 1) * most == count * most + most) by (nonlinear_arith);
            assert((count + 1) * most <= most * most) by (nonlinear_arith)
                requires
                    count + 1 <= most,
                    0 <= most,
            ;
        }
        self.slice_n_samples = self.slice_n_samples + channels as u64;
        self.slice_frame_count = self.slice_frame_count + 1;
        if self.slice_frame_count >= self.frames_per_slice {
            let n: u64 = self.slice_n_samples;
            self.slice_n_samples = 0;
            self.slice_frame_count = 0;
            self.slices = self.slices + 1;
            Some(n)
        } else {
            None
        }
    }

    /// Whether there are slices enough, which is asked after each packet: ten times
    /// the points of the picture.
    pub fn is_enough(&self) -> (r: bool)
        requires
            self.valid(),
        ensures
            r == (self.slices > self.resolution * 10),
    {
        self.slices > self.resolution * 10
    }

    /// Some(n): the stream ended inside a slice of n samples, whose loudness is due.
    pub fn last_slice(&self) -> (r: Option<u64>)
        ensures
            r == if self.slice_frame_count > 0 && self.slice_n_samples > 0 {
                Some(self.slice_n_samples)
            } else {
                None
            },
    {
        if self.slice_frame_count > 0 && self.slice_n_samples > 0 {
            Some(self.slice_n_samples)
        } else {
            None
        }
    }
}

/// What happened when the next packet was asked for.
#[derive(Debug, Clone, Copy, PartialEq, Eq, Structural)]
pub enum WaveformEvent {
    EndOfFile,
    ResetRequired,
    ReadFailed,
    OtherTrack,
    DamagedPacket,
    DecodeFailed,
    Decoded,
}

/// What to do about it.
#[derive(Debug, Clone, Copy, PartialEq, Eq, Structural)]
pub enum WaveformAction {
    /// Ask for the next packet.
    Skip,
    /// Start the decoder anew, and ask for the next packet.
    Reset,
    /// Measure the frames.
    Measure,
    /// Make the picture of what was measured so far.
    Finish,
}

/// What is done: nothing that goes wrong in the middle of a file spoils the picture.
pub open spec fn waveform_action(event: WaveformEvent) -> WaveformAction {
    match event {
        WaveformEvent::OtherTrack | WaveformEvent::DamagedPacket => WaveformAction::Skip,
        WaveformEvent::ResetRequired => WaveformAction::Reset,
        WaveformEvent::Decoded => WaveformAction::Measure,
        WaveformEvent::EndOfFile
        | WaveformEvent::ReadFailed
        | WaveformEvent::DecodeFailed => WaveformAction::Finish,
    }
}

pub fn waveform_step(event: WaveformEvent) -> (r: WaveformAction)
    ensures
        r == waveform_action(event),
{
    match event {
        WaveformEvent::OtherTrack | WaveformEvent::DamagedPacket => WaveformAction::Skip,
        WaveformEvent::ResetRequired => WaveformAction::Reset,
        WaveformEvent::Decoded => WaveformAction::Measure,
        WaveformEvent::EndOfFile
        | WaveformEvent::ReadFailed
        | WaveformEvent::DecodeFailed => WaveformAction::Finish,
    }
}

// ── Points ───────────────────────────────────────────────────────────────────

/// Whether `x` is above `y`, which is not negative.
pub open spec fn above(x: u32, y: u32) -> bool {
    y < x <= INFINITY_BITS
}

/// The largest of the values from `from` up to `to`; zero where none is above zero.
pub open spec fn largest(data: Seq<u32>, from: int, to: int) -> u32
    decreases to - from,
{
    if to <= from {
        0
    } else {
        let rest = largest(data, from, to - 1);
        if above(data[to - 1], rest) {
            data[to - 1]
        } else {
            rest
        }
    }
}

/// Where bucket `i` of `n` starts among `len` values: sizes differ by at most one,
/// and the larger buckets come first.
pub open spec fn bucket_start(len: int, n: int, i: int) -> int {
    i * (len / n) + if i < len % n {
        i
    } else {
        len % n
    }
}

/// The points: each the largest value of its bucket, or the values themselves,
/// followed by zeros, where there are no more of them than points.
pub open spec fn points(data: Seq<u32>, n: nat) -> Seq<u32> {
    if data.len() <= n {
        Seq::new(
            n,
            |i: int|
                if i < data.len() {
                    data[i]
                } else {
                    0
                },
        )
    } else {
        Seq::new(
            n,
            |i: int|
                largest(
                    data,
                    bucket_start(data.len() as int, n as int, i),
                    bucket_start(data.len() as int, n as int, i + 1),
                ),
        )
    }
}

/// The points of a picture, before they are scaled.
pub fn downsample_max(data: &Vec<u32>, target_len: usize) -> (r: Vec<u32>)
    ensures
        r@ == points(data@, target_len as nat),
{
    let mut result: Vec<u32> = Vec::new();
    if data.len() <= target_len {
        let mut i: usize = 0;
        while i < target_len
            invariant
                i <= target_len,
                data@.len() <= target_len,
                result@ == points(data@, target_len as nat).take(i as int),
            decreases target_len - i,
        {
            let x: u32 = if i < data.len() {
                data[i]
            } else {
                0
            };
            result.push(x);
            i = i + 1;
            assert(result@ =~= points(data@, target_len as nat).take(i as int));
        }
        assert(result@ =~= points(data@, target_len as nat));
        return result;
    }
    if target_len == 0 {
        assert(result@ =~= points(data@, 0));
        return result;
    }
    let ghost len = data@.len() as int;
    let ghost n = target_len as int;
    let base: usize = data.len() / target_len;
    let extra: usize = data.len() % target_len;
    let mut src: usize = 0;
    let mut dst: usize = 0;
    proof {
        lemma_bucket_starts(len, n, 0);
        assert(bucket_start(len, n, 0) == 0) by (nonlinear_arith)
            requires
                bucket_start(len, n, 0) == 0 * (len / n) + if 0 < len % n {
                    0
                } else {
                    len % n
                },
                0 <= len % n,
        ;
    }
    assert(result@ =~= points(data@, target_len as nat).take(0));
    while dst < target_len
        invariant
            dst <= target_len < data@.len(),
            0 < target_len,
            len == data@.len() <= usize::MAX,
            n == target_len,
            base == len / n,
            extra == len % n,
            src == bucket_start(len, n, dst as int),
            result@ == points(data@, target_len as nat).take(dst as int),
        decreases target_len - dst,
    {
        proof {
            lemma_bucket_starts(len, n, dst as int);
            lemma_bucket_starts(len, n, dst + 1);
        }
        let count: usize = if dst < extra {
            base + 1
        } else {
            base
        };
        let ghost from = src as int;
        let end: usize = src + count;
        let mut most: u32 = 0;
        while src < end
            invariant
                from <= src <= end <= data@.len(),
                most == largest(data@, from, src as int),
            decreases end - src,
        {
            let v: u32 = data[src];
            if most < v && v <= INFINITY_BITS {
                most = v;
            }
            src = src + 1;
        }
        result.push(most);
        dst = dst + 1;
        assert(result@ =~= points(data@, target_len as nat).take(dst as int));
    }
    assert(result@ =~= points(data@, target_len as nat));
    result
}

/// The largest point, by which the others are scaled; zero: none is scaled.
pub fn largest_point(points: &Vec<u32>) -> (r: u32)
    ensures
        r == largest(points@, 0, points@.len() as int),
{
    let mut most: u32 = 0;
    let mut i: usize = 0;
    while i < points.len()
        invariant
            i <= points@.len(),
            most == largest(points@, 0, i as int),
        decreases points@.len() - i,
    {
        let v: u32 = points[i];
        if most < v && v <= INFINITY_BITS {
            most = v;
        }
        i = i + 1;
    }
    most
}

/// What there is to know of buckets' bounds.
proof fn lemma_bucket_starts(len: int, n: int, i: int)
    requires
        0 < n <= len,
        0 <= i <= n,
    ensures
        0 <= bucket_start(len, n, i) <= len,
        i < n ==> bucket_start(len, n, i + 1) == bucket_start(len, n, i) + len / n + if i < len
            % n {
            1int
        } else {
            0
        },
        bucket_start(len, n, 0) == 0,
        bucket_start(len, n, n) == len,
        1 <= len / n,
{
    lemma_fundamental_div_mod(len, n);
    let q = len / n;
    let r = len % n;
    assert(q >= 1) by (nonlinear_arith)
        requires
            len == n * q + r,
            0 <= r < n,
            n <= len,
    ;
    assert((i + 1) * q == i * q + q) by (nonlinear_arith);
    assert(0 * q == 0);
    assert(n * q + r == len);
    assert(0 <= i * q) by (nonlinear_arith)
        requires
            0 <= i,
            1 <= q,
    ;
    assert(i * q <= n * q) by (nonlinear_arith)
        requires
            i <= n,
            1 <= q,
    ;
}

// ── Laws ─────────────────────────────────────────────────────────────────────

/// The buckets part the values: the first starts with them, the last ends with
/// them, each starts where the one before it ends, and none is empty.
pub proof fn law_buckets_part_the_values(len: int, n: int, i: int)
    requires
        0 < n <= len,
        0 <= i < n,
    ensures
        bucket_start(len, n, 0) == 0,
        bucket_start(len, n, n) == len,
        bucket_start(len, n, i) < bucket_start(len, n, i + 1),
        bucket_start(len, n, i + 1) - bucket_start(len, n, i) <= len / n + 1,
{
    lemma_bucket_starts(len, n, i);
}

/// Buckets differ by at most one value, and no bucket is larger than one before it.
pub proof fn law_larger_buckets_come_first(len: int, n: int, i: int, j: int)
    requires
        0 < n <= len,
        0 <= i <= j < n,
    ensures
        ({
            let a = bucket_start(len, n, i + 1) - bucket_start(len, n, i);
            let b = bucket_start(len, n, j + 1) - bucket_start(len, n, j);
            b <= a <= b + 1
        }),
{
    lemma_bucket_starts(len, n, i);
    lemma_bucket_starts(len, n, j);
}

proof fn lemma_largest(data: Seq<u32>, from: int, to: int)
    requires
        0 <= from,
        to <= data.len(),
    ensures
        largest(data, from, to) <= INFINITY_BITS,
        forall|i: int| from <= i < to && data[i] <= INFINITY_BITS ==> data[i] <= largest(
            data,
            from,
            to,
        ),
        largest(data, from, to) > 0 ==> exists|i: int|
            from <= i < to && data[i] == largest(data, from, to),
    decreases to - from,
{
    if from < to {
        lemma_largest(data, from, to - 1);
        if !above(data[to - 1], largest(data, from, to - 1)) && largest(data, from, to) > 0 {
            let w = choose|i: int| from <= i < to - 1 && data[i] == largest(data, from, to - 1);
            assert(from <= w < to && data[w] == largest(data, from, to));
        } else if largest(data, from, to) > 0 {
            assert(data[to - 1] == largest(data, from, to));
        }
    }
}

/// No value is lost: a picture of any number of points is as high as the values
/// are.
pub proof fn law_picture_keeps_the_peak(data: Seq<u32>, n: nat)
    requires
        0 < n,
    ensures
        largest(points(data, n), 0, n as int) == largest(data, 0, data.len() as int),
{
    let p = points(data, n);
    let len = data.len() as int;
    let all = largest(data, 0, len);
    let shown = largest(p, 0, n as int);
    lemma_largest(data, 0, len);
    lemma_largest(p, 0, n as int);
    if len <= n {
        if all > 0 {
            let w = choose|i: int| 0 <= i < len && data[i] == all;
            assert(p[w] == all);
        }
        if shown > 0 {
            let w = choose|i: int| 0 <= i < n && p[i] == shown;
            assert(w < len);
            assert(data[w] == shown);
        }
    } else {
        if all > 0 {
            let w = choose|i: int| 0 <= i < len && data[i] == all;
            lemma_bucket_starts(len, n as int, 0);
            let b = lemma_bucket_of(len, n as int, w, n as int);
            let from = bucket_start(len, n as int, b);
            let to = bucket_start(len, n as int, b + 1);
            lemma_bucket_starts(len, n as int, b);
            lemma_bucket_starts(len, n as int, b + 1);
            lemma_largest(data, from, to);
            assert(p[b] == largest(data, from, to));
            assert(data[w] <= p[b]);
        }
        if shown > 0 {
            let b = choose|i: int| 0 <= i < n && p[i] == shown;
            let from = bucket_start(len, n as int, b);
            let to = bucket_start(len, n as int, b + 1);
            lemma_bucket_starts(len, n as int, b);
            lemma_bucket_starts(len, n as int, b + 1);
            lemma_largest(data, from, to);
            assert(p[b] == largest(data, from, to));
            let w = choose|i: int| from <= i < to && data[i] == largest(data, from, to);
            assert(data[w] == shown);
        }
    }
}

/// The bucket of value `w`, among the first `k`.
proof fn lemma_bucket_of(len: int, n: int, w: int, k: int) -> (b: int)
    requires
        0 < n <= len,
        0 <= k <= n,
        0 <= w < bucket_start(len, n, k),
    ensures
        0 <= b < k,
        bucket_start(len, n, b) <= w < bucket_start(len, n, b + 1),
    decreases k,
{
    lemma_bucket_starts(len, n, k);
    lemma_bucket_starts(len, n, k - 1);
    if bucket_start(len, n, k - 1) <= w {
        k - 1
    } else {
        lemma_bucket_of(len, n, w, k - 1)
    }
}

/// There are fifty slices in a second; at rates below that every frame is one.
pub proof fn law_fifty_slices_a_second(rate: int)
    requires
        0 < rate,
    ensures
        rate >= 50 ==> 50 * slice_frames(rate) <= rate < 50 * (slice_frames(rate) + 1),
        rate < 50 ==> slice_frames(rate) == 1,
{
}

/// Each point of a picture is the highest of the values it stands for, where numbers that
/// are none do not count; a picture with room for all shows every value as it is.
pub proof fn law_points_are_highest_values(data: Seq<u32>, n: nat, i: int, k: int)
    requires
        0 <= i < n,
    ensures
        points(data, n).len() == n,
        data.len() <= n && i < data.len() ==> points(data, n)[i] == data[i],
        data.len() <= i ==> points(data, n)[i] == 0,
        data.len() > n && bucket_start(data.len() as int, n as int, i) <= k < bucket_start(
            data.len() as int,
            n as int,
            i + 1,
        ) && data[k] <= INFINITY_BITS ==> data[k] <= points(data, n)[i],
        data.len() > n && points(data, n)[i] > 0 ==> exists|j: int|
            bucket_start(data.len() as int, n as int, i) <= j < bucket_start(
                data.len() as int,
                n as int,
                i + 1,
            ) && data[j] == points(data, n)[i],
{
    if data.len() > n {
        lemma_bucket_starts(data.len() as int, n as int, i);
        lemma_bucket_starts(data.len() as int, n as int, i + 1);
        let a = bucket_start(data.len() as int, n as int, i);
        let b = bucket_start(data.len() as int, n as int, i + 1);
        lemma_largest(data, a, b);
    }
}

/// Measuring goes on over packets of other tracks and damaged ones, and starts anew where
/// the file asks for it; whatever else comes ends it.
pub proof fn law_measuring_goes_on(event: WaveformEvent)
    ensures
        waveform_action(event) is Measure <==> event is Decoded,
        waveform_action(event) is Skip <==> event is OtherTrack || event is DamagedPacket,
        waveform_action(event) is Reset <==> event is ResetRequired,
        waveform_action(event) is Finish <==> event is EndOfFile || event is ReadFailed
            || event is DecodeFailed,
{
}

/// Measuring is enough with ten slices for each point of the picture.
pub proof fn law_ten_slices_a_point(p: &WaveformPass, r: bool, rest: Option<u64>)
    requires
        p.valid(),
        call_ensures(WaveformPass::is_enough, (p,), r),
        call_ensures(WaveformPass::last_slice, (p,), rest),
    ensures
        r <==> p.slices > 10 * p.resolution,
        rest is Some <==> p.slice_frame_count > 0 && p.slice_n_samples > 0,
        rest is Some ==> rest->0 == p.slice_n_samples,
{
}

} // verus!
