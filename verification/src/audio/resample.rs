//! Bringing decoded samples to the output's rate and channels.
//!
//! Samples are kept as the bits of 32-bit floating-point numbers: resampling
//! picks samples and never computes with them.
use vstd::prelude::*;
use vstd::arithmetic::div_mod::{lemma_div_is_ordered, lemma_fundamental_div_mod};
use vstd::arithmetic::mul::lemma_mul_inequality;

verus! {

/// Interleaved samples on their way from a decoder to the output.
#[derive(Debug)]
pub struct StreamResampler {
    pub source_rate: u32,
    pub source_channels: usize,
    pub output_rate: u32,
    pub output_channels: usize,
    /// Samples that came from the decoder and may still be needed.
    pub pending_source: Vec<u32>,
    /// The number of the first pending frame.
    pub source_frame_offset: u64,
    /// The number of the output frame that comes next.
    pub next_output_frame: u64,
}

// ── Meaning ──────────────────────────────────────────────────────────────────

/// What a resampler holds.
#[verifier::ext_equal]
pub struct Resampling {
    pub source_rate: int,
    pub source_channels: int,
    pub output_rate: int,
    pub output_channels: int,
    pub pending: Seq<u32>,
    pub offset: int,
    pub next: int,
}

impl View for StreamResampler {
    type V = Resampling;

    open spec fn view(&self) -> Resampling {
        Resampling {
            source_rate: self.source_rate as int,
            source_channels: self.source_channels as int,
            output_rate: self.output_rate as int,
            output_channels: self.output_channels as int,
            pending: self.pending_source@,
            offset: self.source_frame_offset as int,
            next: self.next_output_frame as int,
        }
    }
}

/// `n`, or the largest 64-bit number where `n` is above it.
pub open spec fn capped(n: int) -> int {
    if n <= u64::MAX {
        n
    } else {
        u64::MAX as int
    }
}

/// The product, or the largest number where the product is above it.
pub fn capped_product(a: u64, b: u64) -> (r: u64)
    ensures
        r == capped(a * b),
{
    assert(a * b <= u64::MAX * u64::MAX) by (nonlinear_arith)
        requires
            0 <= a <= u64::MAX,
            0 <= b <= u64::MAX,
    ;
    let product: u128 = a as u128 * b as u128;
    if product <= u64::MAX as u128 {
        product as u64
    } else {
        u64::MAX
    }
}

/// The source frame that output frame `n` shows.
pub open spec fn shown_frame(n: int, source_rate: int, output_rate: int) -> int {
    capped(n * source_rate) / output_rate
}

/// The first output frame from `n` on that shows no source frame before `known`.
pub open spec fn end_frame(n: int, known: int, source_rate: int, output_rate: int) -> int
    decreases known * output_rate - n,
{
    if 0 < source_rate && 0 < output_rate && 0 <= n && known * output_rate <= u64::MAX
        && shown_frame(n, source_rate, output_rate) < known {
        proof {
            lemma_shown_before(n, known, source_rate, output_rate);
        }
        end_frame(n + 1, known, source_rate, output_rate)
    } else {
        n
    }
}

/// A frame shown before `known` comes from before `known`, and nothing was capped.
pub proof fn lemma_shown_before(n: int, known: int, source_rate: int, output_rate: int)
    requires
        0 < source_rate,
        0 < output_rate,
        0 <= n,
        known * output_rate <= u64::MAX,
        shown_frame(n, source_rate, output_rate) < known,
    ensures
        0 <= n <= n * source_rate < known * output_rate,
        shown_frame(n, source_rate, output_rate) == n * source_rate / output_rate,
{
    let product = n * source_rate;
    assert(n <= product) by (nonlinear_arith)
        requires
            product == n * source_rate,
            0 < source_rate,
            0 <= n,
    ;
    let c = capped(product);
    let q = c / output_rate;
    lemma_fundamental_div_mod(c, output_rate);
    assert(c < known * output_rate) by (nonlinear_arith)
        requires
            c == output_rate * q + c % output_rate,
            0 <= c % output_rate < output_rate,
            q + 1 <= known,
            0 < output_rate,
    ;
}

impl Resampling {
    /// Rates and channels are there.
    pub open spec fn valid(self) -> bool {
        &&& 0 < self.source_rate <= u32::MAX
        &&& 0 < self.output_rate <= u32::MAX
        &&& 0 < self.source_channels <= usize::MAX
        &&& 0 <= self.output_channels <= usize::MAX
        &&& 0 <= self.offset <= u64::MAX
        &&& 0 <= self.next <= u64::MAX
    }

    /// The number of the first source frame that did not come yet.
    pub open spec fn known(self) -> int {
        self.offset + self.pending.len() as int / self.source_channels
    }

    /// Whether `n` more samples leave the frame numbers countable.
    pub open spec fn has_room(self, n: int) -> bool {
        (self.offset + (self.pending.len() + n) / self.source_channels) * self.output_rate
            <= u64::MAX
    }

    /// The sample of channel `channel` of the output frame that shows source frame
    /// `frame`: a missing channel is the last one there is. A frame that is not
    /// pending is silent.
    pub open spec fn sample(self, frame: int, channel: int) -> u32 {
        let source = if channel < self.source_channels {
            channel
        } else {
            self.source_channels - 1
        };
        let index = (frame - self.offset) * self.source_channels + source;
        if self.offset <= frame && index < self.pending.len() {
            self.pending[index]
        } else {
            0
        }
    }

    /// Output frame `n`.
    pub open spec fn frame(self, n: int) -> Seq<u32> {
        Seq::new(
            self.output_channels as nat,
            |c: int| self.sample(shown_frame(n, self.source_rate, self.output_rate), c),
        )
    }

    /// The next `count` output frames.
    pub open spec fn frames(self, count: int) -> Seq<u32>
        decreases count,
    {
        if count <= 0 {
            Seq::empty()
        } else {
            self.frames(count - 1) + self.frame(self.next + count - 1)
        }
    }

    /// The output frame at which the pending samples are used up.
    pub open spec fn end(self) -> int {
        end_frame(self.next, self.known(), self.source_rate, self.output_rate)
    }

    /// Everything that can be shown now.
    pub open spec fn output(self) -> Seq<u32> {
        self.frames(self.end() - self.next)
    }

    /// The number of pending frames that are not needed any more.
    pub open spec fn spent(self) -> int {
        let needed = shown_frame(self.end(), self.source_rate, self.output_rate);
        if needed > self.offset {
            needed - self.offset
        } else {
            0
        }
    }

    /// What is left after that output.
    pub open spec fn rest(self) -> Resampling {
        let cut = self.spent() * self.source_channels;
        Resampling {
            pending: if cut <= self.pending.len() {
                self.pending.skip(cut)
            } else {
                Seq::empty()
            },
            offset: self.offset + self.spent(),
            next: self.end(),
            ..self
        }
    }

    /// With more samples from the decoder.
    pub open spec fn fed(self, input: Seq<u32>) -> Resampling {
        Resampling { pending: self.pending + input, ..self }
    }

    /// Whether the next output frame shows no frame past the first pending one.
    pub open spec fn settled(self) -> bool {
        shown_frame(self.next, self.source_rate, self.output_rate) <= self.offset
    }
}

/// What `end_frame` is.
pub proof fn lemma_end_frame(n: int, known: int, source_rate: int, output_rate: int)
    requires
        0 < source_rate,
        0 < output_rate,
        0 <= n,
        known * output_rate <= u64::MAX,
    ensures
        n <= end_frame(n, known, source_rate, output_rate),
        end_frame(n, known, source_rate, output_rate) > n ==> end_frame(
            n,
            known,
            source_rate,
            output_rate,
        ) <= u64::MAX,
        shown_frame(end_frame(n, known, source_rate, output_rate), source_rate, output_rate)
            >= known,
        forall|m: int|
            n <= m < end_frame(n, known, source_rate, output_rate) ==> #[trigger] shown_frame(
                m,
                source_rate,
                output_rate,
            ) < known,
    decreases known * output_rate - n,
{
    if shown_frame(n, source_rate, output_rate) < known {
        lemma_shown_before(n, known, source_rate, output_rate);
        lemma_end_frame(n + 1, known, source_rate, output_rate);
    }
}

impl StreamResampler {
    /// A resampler for a stream that starts at `start_ms`.
    pub fn new(
        source_rate: u32,
        source_channels: u16,
        output_rate: u32,
        output_channels: u16,
        start_ms: u64,
    ) -> (r: StreamResampler)
        ensures
            r@ == (Resampling {
                source_rate: source_rate as int,
                source_channels: source_channels as int,
                output_rate: output_rate as int,
                output_channels: output_channels as int,
                pending: Seq::empty(),
                offset: capped(start_ms * source_rate) / 1000,
                next: capped(start_ms * output_rate) / 1000,
            }),
    {
        let next_output_frame: u64 = capped_product(start_ms, output_rate as u64) / 1000;
        let source_frame_offset: u64 = capped_product(start_ms, source_rate as u64) / 1000;
        let r = StreamResampler {
            source_rate,
            source_channels: source_channels as usize,
            output_rate,
            output_channels: output_channels as usize,
            pending_source: Vec::new(),
            source_frame_offset,
            next_output_frame,
        };
        assert(r@.pending =~= Seq::empty());
        r
    }

    /// The source frame that the next output frame shows.
    pub fn required_source_frame(&self) -> (r: u64)
        requires
            self@.valid(),
        ensures
            r == shown_frame(self@.next, self@.source_rate, self@.output_rate),
    {
        capped_product(self.next_output_frame, self.source_rate as u64) / self.output_rate as u64
    }

    /// Takes samples and gives the output that can be made now.
    pub fn push(&mut self, input: &Vec<u32>) -> (out: Vec<u32>)
        requires
            old(self)@.valid(),
            old(self)@.has_room(input@.len() as int),
        ensures
            out@ == old(self)@.fed(input@).output(),
            final(self)@ == old(self)@.fed(input@).rest(),
            final(self)@.valid(),
    {
        let mut i: usize = 0;
        while i < input.len()
            invariant
                i <= input@.len(),
                self@ == old(self)@.fed(input@.take(i as int)),
            decreases input@.len() - i,
        {
            self.pending_source.push(input[i]);
            i = i + 1;
            assert(self@.pending =~= old(self)@.pending + input@.take(i as int));
        }
        assert(input@.take(input@.len() as int) =~= input@);
        self.produce_available()
    }

    /// Gives the output that is left when the stream ends.
    pub fn finish(&mut self) -> (out: Vec<u32>)
        requires
            old(self)@.valid(),
            old(self)@.has_room(0),
        ensures
            out@ == old(self)@.output(),
            final(self)@ == old(self)@.rest(),
            final(self)@.valid(),
    {
        self.produce_available()
    }

    #[verifier::rlimit(40)]
    fn produce_available(&mut self) -> (out: Vec<u32>)
        requires
            old(self)@.valid(),
            old(self)@.has_room(0),
        ensures
            out@ == old(self)@.output(),
            final(self)@ == old(self)@.rest(),
            final(self)@.valid(),
    {
        let ghost v = self@;
        let channels: usize = self.source_channels;
        let pending_frames: usize = self.pending_source.len() / channels;
        proof {
            assert(v.known() <= u64::MAX) by (nonlinear_arith)
                requires
                    v.known() * v.output_rate <= u64::MAX,
                    0 < v.output_rate,
            ;
            lemma_end_frame(v.next, v.known(), v.source_rate, v.output_rate);
            lemma_fundamental_div_mod(v.pending.len() as int, v.source_channels);
        }
        let known: u64 = self.source_frame_offset + pending_frames as u64;
        let mut out: Vec<u32> = Vec::new();
        assert(out@ =~= v.frames(0));
        while self.required_source_frame() < known
            invariant
                v.valid(),
                v.known() * v.output_rate <= u64::MAX,
                known == v.known(),
                channels == v.source_channels,
                pending_frames == v.pending.len() as int / v.source_channels,
                pending_frames * channels <= v.pending.len() <= usize::MAX,
                v.next <= self.next_output_frame,
                self@ == (Resampling { next: self.next_output_frame as int, ..v }),
                end_frame(
                    self.next_output_frame as int,
                    v.known(),
                    v.source_rate,
                    v.output_rate,
                ) == v.end(),
                out@ == v.frames(self.next_output_frame - v.next),
            decreases v.known() * v.output_rate - self.next_output_frame,
        {
            let source_frame: u64 = self.required_source_frame();
            let ghost n = self.next_output_frame as int;
            let ghost before = out@;
            proof {
                lemma_shown_before(n, v.known(), v.source_rate, v.output_rate);
            }
            let mut c: usize = 0;
            while c < self.output_channels
                invariant
                    v.valid(),
                    c <= self.output_channels,
                    self@ == (Resampling { next: n, ..v }),
                    source_frame == shown_frame(n, v.source_rate, v.output_rate),
                    source_frame < v.known(),
                    channels == v.source_channels,
                    pending_frames == v.pending.len() as int / v.source_channels,
                    pending_frames * channels <= v.pending.len() <= usize::MAX,
                    out@ == before + v.frame(n).take(c as int),
                decreases self.output_channels - c,
            {
                let source: usize = if c < channels {
                    c
                } else {
                    channels - 1
                };
                let x: u32 = if source_frame >= self.source_frame_offset {
                    let local: usize = (source_frame - self.source_frame_offset) as usize;
                    proof {
                        assert(local < pending_frames);
                        assert(local * channels + channels <= pending_frames * channels)
                            by (nonlinear_arith)
                            requires
                                local + 1 <= pending_frames,
                                0 < channels,
                        ;
                        assert(0 <= local * channels) by (nonlinear_arith)
                            requires
                                0 <= local,
                                0 < channels,
                        ;
                    }
                    self.pending_source[local * channels + source]
                } else {
                    0
                };
                assert(x == v.frame(n)[c as int]);
                out.push(x);
                c = c + 1;
                assert(v.frame(n).take(c as int) =~= v.frame(n).take(c - 1).push(x));
                assert(out@ =~= before + v.frame(n).take(c as int));
            }
            assert(v.frame(n).take(v.output_channels) =~= v.frame(n));
            self.next_output_frame = self.next_output_frame + 1;
            assert(out@ == v.frames(n + 1 - v.next));
        }
        let needed: u64 = self.required_source_frame();
        if needed > self.source_frame_offset {
            let spent: u64 = needed - self.source_frame_offset;
            if spent > pending_frames as u64 {
                proof {
                    let len = v.pending.len() as int;
                    lemma_fundamental_div_mod(len, v.source_channels);
                    assert(v.spent() == spent);
                    assert(len < spent * channels) by (nonlinear_arith)
                        requires
                            len == channels * pending_frames + len % (channels as int),
                            0 <= len % (channels as int) < channels,
                            pending_frames + 1 <= spent,
                    ;
                }
                self.pending_source = Vec::new();
            } else {
                proof {
                    assert(spent * channels <= pending_frames * channels) by (nonlinear_arith)
                        requires
                            spent <= pending_frames,
                            0 < channels,
                    ;
                    assert(0 <= spent * channels) by (nonlinear_arith)
                        requires
                            0 <= spent,
                            0 < channels,
                    ;
                }
                let cut: usize = spent as usize * channels;
                self.pending_source = self.pending_source.split_off(cut);
                assert(self.pending_source@ =~= v.pending.skip(cut as int));
            }
            self.source_frame_offset = needed;
        } else {
            assert(v.pending.skip(0) =~= v.pending);
        }
        assert(self@ =~= v.rest());
        out
    }
}

// ── Laws ─────────────────────────────────────────────────────────────────────

proof fn lemma_shown_grows(n: int, m: int, source_rate: int, output_rate: int)
    requires
        0 < source_rate,
        0 < output_rate,
        0 <= n <= m,
    ensures
        shown_frame(n, source_rate, output_rate) <= shown_frame(m, source_rate, output_rate),
{
    lemma_mul_inequality(n, m, source_rate);
    lemma_div_is_ordered(capped(n * source_rate), capped(m * source_rate), output_rate);
}

/// Ending at `middle` first and going on from there ends at the same frame.
proof fn lemma_end_frame_twice(
    n: int,
    middle: int,
    known: int,
    source_rate: int,
    output_rate: int,
)
    requires
        0 < source_rate,
        0 < output_rate,
        0 <= n,
        middle <= known,
        known * output_rate <= u64::MAX,
        middle * output_rate <= u64::MAX,
    ensures
        end_frame(
            end_frame(n, middle, source_rate, output_rate),
            known,
            source_rate,
            output_rate,
        ) == end_frame(n, known, source_rate, output_rate),
    decreases middle * output_rate - n,
{
    if shown_frame(n, source_rate, output_rate) < middle {
        lemma_shown_before(n, middle, source_rate, output_rate);
        lemma_end_frame_twice(n + 1, middle, known, source_rate, output_rate);
    }
}

proof fn lemma_same_frames(v: Resampling, w: Resampling, count: int)
    requires
        v.output_channels == w.output_channels,
        forall|n: int| v.next <= n < v.next + count ==> #[trigger] v.frame(n) == w.frame(n),
        v.next == w.next,
    ensures
        v.frames(count) == w.frames(count),
    decreases count,
{
    if count > 0 {
        lemma_same_frames(v, w, count - 1);
        assert(v.frame(v.next + count - 1) == w.frame(w.next + count - 1));
    }
}

proof fn lemma_frames_go_on(v: Resampling, w: Resampling, first: int, count: int)
    requires
        w.next == v.next + first,
        0 <= first,
        0 <= count,
        forall|n: int| w.next <= n ==> #[trigger] v.frame(n) == w.frame(n),
    ensures
        v.frames(first + count) == v.frames(first) + w.frames(count),
    decreases count,
{
    if count > 0 {
        lemma_frames_go_on(v, w, first, count - 1);
        assert(v.frame(w.next + count - 1) == w.frame(w.next + count - 1));
        assert(v.frames(first + count) =~= v.frames(first) + w.frames(count));
    } else {
        assert(v.frames(first) =~= v.frames(first) + w.frames(0));
    }
}

/// Every push leaves the next output frame at no later source frame than the
/// first pending one.
pub proof fn law_stays_settled(v: Resampling)
    requires
        v.valid(),
        v.has_room(0),
    ensures
        v.rest().settled(),
{
}

/// A new stream is settled, wherever it starts, as long as its start can be
/// counted in source frames.
pub proof fn law_starts_settled(start_ms: int, source_rate: int, output_rate: int)
    requires
        0 < source_rate <= u32::MAX,
        0 < output_rate <= u32::MAX,
        0 <= start_ms,
        start_ms * source_rate <= u64::MAX,
    ensures
        shown_frame(capped(start_ms * output_rate) / 1000, source_rate, output_rate) <= capped(
            start_ms * source_rate,
        ) / 1000,
{
    let product = start_ms * output_rate;
    assert(product >= 0) by (nonlinear_arith)
        requires
            product == start_ms * output_rate,
            start_ms >= 0,
            output_rate > 0,
    ;
    let next = capped(product) / 1000;
    let frames = next * source_rate;
    let q = capped(frames) / output_rate;
    lemma_fundamental_div_mod(capped(frames), output_rate);
    assert(frames >= 0) by (nonlinear_arith)
        requires
            frames == next * source_rate,
            next >= 0,
            source_rate > 0,
    ;
    let total = start_ms * source_rate;
    assert(1000 * q <= total) by (nonlinear_arith)
        requires
            output_rate * q <= next * source_rate,
            1000 * next <= start_ms * output_rate,
            total == start_ms * source_rate,
            output_rate > 0,
            source_rate > 0,
    {
        assert(1000 * next * source_rate <= start_ms * output_rate * source_rate);
        assert(output_rate * q * 1000 <= output_rate * total);
    }
}

/// When the source is not faster than the output, what came is always used up
/// exactly: no push reaches past the frames that are there.
pub proof fn law_slow_sources_do_not_overshoot(v: Resampling)
    requires
        v.valid(),
        v.settled(),
        v.has_room(0),
        v.source_rate <= v.output_rate,
    ensures
        v.rest().offset == v.known(),
{
    let known = v.known();
    lemma_end_frame(v.next, known, v.source_rate, v.output_rate);
    let end = v.end();
    assert(known >= v.offset) by {
        vstd::arithmetic::div_mod::lemma_div_pos_is_pos(v.pending.len() as int, v.source_channels);
    }
    if end > v.next {
        assert(shown_frame(end - 1, v.source_rate, v.output_rate) < known);
        lemma_shown_before(end - 1, known, v.source_rate, v.output_rate);
        let product = end * v.source_rate;
        let c = capped(product);
        lemma_fundamental_div_mod(c, v.output_rate);
        let q = c / v.output_rate;
        let o = v.output_rate;
        assert(product < (known + 1) * o) by (nonlinear_arith)
            requires
                product == end * v.source_rate,
                (end - 1) * v.source_rate < known * o,
                v.source_rate <= o,
        ;
        assert(q <= known) by (nonlinear_arith)
            requires
                o * q <= c,
                c <= product,
                product < (known + 1) * o,
                o > 0,
        ;
    }
}

/// How the decoder cuts the stream into pieces does not matter, as long as pieces
/// hold whole frames and the first did not reach past what it brought: two pushes
/// give together the output of one push of both pieces, and leave the same state.
pub proof fn law_pieces_do_not_matter(v: Resampling, a: Seq<u32>, b: Seq<u32>)
    requires
        v.valid(),
        v.has_room((a.len() + b.len()) as int),
        (v.pending.len() + a.len()) as int % v.source_channels == 0,
        v.fed(a).rest().offset == v.fed(a).known(),
    ensures
        v.fed(a + b).output() == v.fed(a).output() + v.fed(a).rest().fed(b).output(),
        v.fed(a + b).rest() == v.fed(a).rest().fed(b).rest(),
{
    let one = v.fed(a);
    let both = v.fed(a + b);
    let two = one.rest().fed(b);
    let c = v.source_channels;
    let len1 = one.pending.len() as int;
    let len2 = both.pending.len() as int;
    let known1 = one.known();
    let known2 = both.known();
    lemma_fundamental_div_mod(len1, c);
    vstd::arithmetic::div_mod::lemma_div_pos_is_pos(len1, c);
    vstd::arithmetic::div_mod::lemma_div_pos_is_pos(b.len() as int, c);
    // The frames of both pieces are those of the first and those of the second.
    let f1 = len1 / c;
    let f2 = b.len() as int / c;
    assert(len2 == len1 + b.len());
    assert(len2 / c == f1 + f2) by {
        vstd::arithmetic::div_mod::lemma_hoist_over_denominator(b.len() as int, f1, c as nat);
        assert(len1 == f1 * c) by (nonlinear_arith)
            requires
                len1 == c * f1 + 0,
        ;
    }
    assert(known2 == known1 + f2);
    lemma_mul_inequality(known1, known2, v.output_rate);
    // The first piece is used up.
    let end1 = one.end();
    lemma_end_frame(v.next, known1, v.source_rate, v.output_rate);
    let needed1 = shown_frame(end1, v.source_rate, v.output_rate);
    assert(needed1 == known1);
    assert(one.spent() == f1);
    assert(one.spent() * c == len1) by (nonlinear_arith)
        requires
            one.spent() == f1,
            len1 == c * f1 + 0,
    ;
    assert(one.pending.skip(len1) =~= Seq::<u32>::empty());
    assert(one.rest().pending =~= Seq::<u32>::empty());
    assert(two.pending =~= b);
    assert(two.known() == known2);
    // Both ways end at the same frame.
    lemma_end_frame_twice(v.next, known1, known2, v.source_rate, v.output_rate);
    let end2 = both.end();
    assert(two.end() == end2);
    lemma_end_frame(end1, known2, v.source_rate, v.output_rate);
    // The first frames come from the first piece.
    assert forall|n: int| one.next <= n < one.next + (end1 - v.next) implies #[trigger] one.frame(n)
        == both.frame(n) by {
        assert(shown_frame(n, v.source_rate, v.output_rate) < known1);
        assert forall|ch: int| 0 <= ch < v.output_channels implies one.frame(n)[ch] == both.frame(
            n,
        )[ch] by {
            let frame = shown_frame(n, v.source_rate, v.output_rate);
            let source = if ch < c {
                ch
            } else {
                c - 1
            };
            let index = (frame - v.offset) * c + source;
            if v.offset <= frame {
                assert(0 <= index < len1) by (nonlinear_arith)
                    requires
                        index == (frame - v.offset) * c + source,
                        0 <= source < c,
                        0 <= frame - v.offset < f1,
                        len1 == c * f1 + 0,
                ;
                assert(both.pending[index] == one.pending[index]);
            }
        }
        assert(one.frame(n) =~= both.frame(n));
    }
    lemma_same_frames(one, both, end1 - v.next);
    // The others come from the second.
    assert forall|n: int| two.next <= n implies #[trigger] both.frame(n) == two.frame(n) by {
        lemma_shown_grows(end1, n, v.source_rate, v.output_rate);
        assert forall|ch: int| 0 <= ch < v.output_channels implies both.frame(n)[ch] == two.frame(
            n,
        )[ch] by {
            let frame = shown_frame(n, v.source_rate, v.output_rate);
            let source = if ch < c {
                ch
            } else {
                c - 1
            };
            let index = (frame - v.offset) * c + source;
            let index2 = (frame - known1) * c + source;
            assert(index == index2 + len1 && 0 <= index2) by (nonlinear_arith)
                requires
                    index == (frame - v.offset) * c + source,
                    index2 == (frame - known1) * c + source,
                    known1 == v.offset + f1,
                    len1 == c * f1 + 0,
                    0 <= source,
                    0 < c,
                    known1 <= frame,
            ;
            if index2 < b.len() {
                assert(both.pending[index] == b[index2]);
            }
        }
        assert(both.frame(n) =~= two.frame(n));
    }
    lemma_frames_go_on(both, two, end1 - v.next, end2 - end1);
    // What is left is the same.
    let needed2 = shown_frame(end2, v.source_rate, v.output_rate);
    assert(both.spent() == needed2 - v.offset);
    assert(two.spent() == needed2 - known1);
    let cut = both.spent() * c;
    let cut2 = two.spent() * c;
    assert(cut == cut2 + len1 && 0 <= cut2) by (nonlinear_arith)
        requires
            cut == (needed2 - v.offset) * c,
            cut2 == (needed2 - known1) * c,
            known1 == v.offset + f1,
            len1 == c * f1 + 0,
            0 < c,
            known1 <= needed2,
    ;
    if cut <= len2 {
        assert(both.pending.skip(cut) =~= b.skip(cut2));
    }
    assert(both.rest() =~= two.rest());
}

} // verus!
