//! Acoustic fingerprints: how much audio is taken, what is made of it, and how two
//! fingerprints are compared.
use vstd::prelude::*;
use vstd::arithmetic::div_mod::{
    lemma_fundamental_div_mod, lemma_mod_bound, lemma_mod_decreases, lemma_mod_multiples_basic,
};
use crate::digest;
use crate::digest::base64_encode;
use crate::text;
use crate::text::{decimal_string, same_text};

verus! {

/// How much audio is taken for a fingerprint.
pub const MAX_FINGERPRINT_MS: u64 = 30_000;

/// A fingerprint in the form in which it is looked up, and the duration of the
/// audio that was taken.
#[derive(Debug)]
pub struct FingerprintResult {
    pub fingerprint: String,
    pub duration_ms: u64,
}

/// Why there is no fingerprint.
#[derive(Debug, Clone, Copy, PartialEq, Eq, Structural)]
pub enum FingerprintError {
    /// The audio has no channels, or a sample rate that cannot be dealt with.
    Start,
    /// The audio gave no fingerprint.
    Empty,
}

// ── Taking audio ─────────────────────────────────────────────────────────────

/// What comes of reading and decoding a packet.
#[derive(Debug)]
pub enum PassEvent {
    /// A packet was read; it belongs to the wanted track, or to another.
    Packet { wanted: bool },
    /// There are no more packets.
    EndOfStream,
    /// The decoder has to begin anew.
    ResetRequired,
    /// Reading failed.
    ReadFailed,
    /// The packet was decoded to interleaved samples.
    Decoded { samples: Vec<i16> },
    /// The packet could not be decoded; the next may be.
    BadPacket,
    /// Decoding failed for good.
    DecodeFailed,
}

/// What to do next.
#[derive(Debug, Clone, Copy, PartialEq, Eq, Structural)]
pub enum PassAction {
    ReadPacket,
    DecodePacket,
    ResetAndRead,
    Finish,
}

/// One pass over the beginning of a track.
#[derive(Debug)]
pub struct FingerprintPass {
    pub sample_rate: u32,
    pub channels: u32,
    pub samples: Vec<i16>,
}

/// How many interleaved samples are enough.
pub open spec fn sample_limit(sample_rate: u32, channels: u32) -> int {
    30_000 * sample_rate * channels / 1000
}

/// Whether there is enough audio.
pub open spec fn has_enough(p: FingerprintPass) -> bool {
    p.samples@.len() >= sample_limit(p.sample_rate, p.channels)
}

/// The beginning of samples, as far as it is taken for a fingerprint.
pub open spec fn beginning(samples: Seq<i16>, sample_rate: u32, channels: u32) -> Seq<i16> {
    if samples.len() > sample_limit(sample_rate, channels) {
        samples.take(sample_limit(sample_rate, channels))
    } else {
        samples
    }
}

/// Samples without an incomplete frame at the end.
pub open spec fn whole_frames(samples: Seq<i16>, channels: u32) -> Seq<i16> {
    if channels > 0 {
        samples.take(samples.len() - samples.len() % channels as nat)
    } else {
        samples
    }
}

/// What to do after an event.
pub open spec fn action_after(p: FingerprintPass, event: PassEvent) -> PassAction {
    match event {
        PassEvent::Packet { wanted } => if wanted {
            PassAction::DecodePacket
        } else {
            PassAction::ReadPacket
        },
        PassEvent::EndOfStream | PassEvent::ReadFailed | PassEvent::DecodeFailed => {
            PassAction::Finish
        },
        PassEvent::ResetRequired => PassAction::ResetAndRead,
        PassEvent::Decoded { samples } => if has_enough(p) {
            PassAction::Finish
        } else {
            PassAction::ReadPacket
        },
        PassEvent::BadPacket => PassAction::ReadPacket,
    }
}

impl FingerprintPass {
    /// A pass over a track. Where the track does not tell, there are two channels and
    /// 44100 samples a second.
    pub fn new(sample_rate: Option<u32>, channels: Option<u32>) -> (p: FingerprintPass)
        ensures
            p.sample_rate == match sample_rate {
                Some(n) => n,
                None => 44100,
            },
            p.channels == match channels {
                Some(n) => n,
                None => 2,
            },
            p.samples@.len() == 0,
    {
        FingerprintPass {
            sample_rate: match sample_rate {
                Some(n) => n,
                None => 44100,
            },
            channels: match channels {
                Some(n) => n,
                None => 2,
            },
            samples: Vec::new(),
        }
    }

    /// Whether there is enough audio.
    pub fn is_done(&self) -> (r: bool)
        ensures
            r == has_enough(*self),
    {
        let limit: u128 = self.limit();
        self.samples.len() as u128 >= limit
    }

    fn limit(&self) -> (r: u128)
        ensures
            r == sample_limit(self.sample_rate, self.channels),
    {
        let rate: u128 = self.sample_rate as u128;
        let channels: u128 = self.channels as u128;
        assert(0 <= 30_000 * rate * channels <= 30_000 * 0xFFFF_FFFF * 0xFFFF_FFFF)
            by (nonlinear_arith)
            requires
                0 <= rate <= 0xFFFF_FFFF,
                0 <= channels <= 0xFFFF_FFFF,
        ;
        assert(30_000 * rate <= 30_000 * 0xFFFF_FFFF);
        30_000 * rate * channels / 1000
    }

    /// Takes in an event and tells what to do next. Samples beyond those that are
    /// enough are dropped.
    pub fn step(&mut self, event: PassEvent) -> (action: PassAction)
        ensures
            final(self).sample_rate == old(self).sample_rate,
            final(self).channels == old(self).channels,
            final(self).samples@ == match event {
                PassEvent::Decoded { samples } => beginning(
                    old(self).samples@ + samples@,
                    old(self).sample_rate,
                    old(self).channels,
                ),
                _ => old(self).samples@,
            },
            action == action_after(*final(self), event),
    {
        match event {
            PassEvent::Packet { wanted } => if wanted {
                PassAction::DecodePacket
            } else {
                PassAction::ReadPacket
            },
            PassEvent::EndOfStream => PassAction::Finish,
            PassEvent::ReadFailed => PassAction::Finish,
            PassEvent::DecodeFailed => PassAction::Finish,
            PassEvent::ResetRequired => PassAction::ResetAndRead,
            PassEvent::BadPacket => PassAction::ReadPacket,
            PassEvent::Decoded { samples } => {
                let mut more = samples;
                self.samples.append(&mut more);
                let ghost all = self.samples@;
                let limit: u128 = self.limit();
                if self.samples.len() as u128 > limit {
                    self.samples.truncate(limit as usize);
                    assert(self.samples@ =~= all.take(limit as int));
                }
                if self.is_done() {
                    PassAction::Finish
                } else {
                    PassAction::ReadPacket
                }
            },
        }
    }

    /// Drops an incomplete frame at the end, which a track leaves that decodes to
    /// another number of channels than it tells.
    pub fn drop_incomplete_frame(&mut self)
        ensures
            final(self).sample_rate == old(self).sample_rate,
            final(self).channels == old(self).channels,
            final(self).samples@ == whole_frames(old(self).samples@, old(self).channels),
            final(self).channels > 0 ==> final(self).samples@.len() % final(self).channels as nat
                == 0,
    {
        if self.channels > 0 {
            let n: u64 = self.samples.len() as u64;
            let extra: u64 = n % (self.channels as u64);
            let ghost all = self.samples@;
            proof {
                let c = self.channels as int;
                let whole = n as int - extra as int;
                vstd::arithmetic::div_mod::lemma_fundamental_div_mod(n as int, c);
                assert(whole == c * (n as int / c));
                vstd::arithmetic::div_mod::lemma_mod_multiples_basic(n as int / c, c);
                assert(c * (n as int / c) == (n as int / c) * c) by (nonlinear_arith);
            }
            self.samples.truncate((n - extra) as usize);
            assert(self.samples@ =~= whole_frames(all, self.channels));
        }
    }
}

// ── Making a fingerprint ─────────────────────────────────────────────────────

/// The sample rate to which audio is brought before it is analysed.
pub const PRINT_RATE: u32 = 11_025;

/// How many samples of one channel, at that rate, give the first number of a
/// fingerprint: those under twenty windows of 4096 samples.
pub const FIRST_PRINT: u32 = 30_031;

/// How many samples more give the next number: windows start that far apart.
pub const NEXT_PRINT: u32 = 1_365;

/// Whether `rusty_chromaprint::Fingerprinter` can give `found` of interleaved
/// samples, with its second preset: `None` when it does not start. Machines may
/// differ in what they give.
pub uninterp spec fn printed(
    samples: Seq<i16>,
    sample_rate: u32,
    channels: u32,
    found: Option<Seq<u32>>,
) -> bool;

/// Whether audio is too short for a fingerprint.
pub open spec fn too_short(frames: nat, sample_rate: u32) -> bool {
    frames * PRINT_RATE < FIRST_PRINT * sample_rate
}

/// Whether audio is long enough for a fingerprint, whatever is lost at its end when
/// it is brought to another rate.
pub open spec fn long_enough(frames: nat, sample_rate: u32) -> bool {
    if sample_rate == PRINT_RATE {
        frames >= FIRST_PRINT
    } else {
        frames * PRINT_RATE >= 2 * FIRST_PRINT * sample_rate
    }
}

/// Whether a fingerprint of `frames` samples of each channel can have `n` numbers.
pub open spec fn is_print_len(n: nat, frames: nat, sample_rate: u32) -> bool {
    &&& too_short(frames, sample_rate) ==> n == 0
    &&& long_enough(frames, sample_rate) ==> n > 0
    &&& sample_rate == PRINT_RATE && n > 0 ==> n == (frames - FIRST_PRINT) / NEXT_PRINT as int + 1
}

/// Runs `rusty_chromaprint::Fingerprinter` with its second preset over interleaved
/// samples: `start`, `consume`, `finish`, `fingerprint`. Claimed of it: it does not
/// start without channels, or with a thousand samples a second or fewer, and starts
/// otherwise; what it gives is an outcome for these samples, this rate and these
/// channels; and how many numbers come of how much audio, exactly where the audio
/// has the rate of the analysis and needs no resampling. More channels than can be
/// summed up in 32 bits are left out. What the numbers are, is not stated: they rest
/// on floating-point arithmetic that differs between machines.
#[verifier::external_body]
fn chromaprint(samples: &[i16], sample_rate: u32, channels: u32) -> (r: Option<Vec<u32>>)
    requires
        channels > 0 ==> samples@.len() % channels as nat == 0,
        channels <= 0x1_0000,
    ensures
        r is None <==> channels == 0 || sample_rate <= 1000,
        printed(samples@, sample_rate, channels, found_view(r)),
        r matches Some(raw) ==> is_print_len(
            raw@.len(),
            samples@.len() / channels as nat,
            sample_rate,
        ),
{
    let config = rusty_chromaprint::Configuration::preset_test2();
    let mut printer = rusty_chromaprint::Fingerprinter::new(&config);
    match printer.start(sample_rate, channels) {
        Ok(()) => {
            printer.consume(samples);
            printer.finish();
            Some(printer.fingerprint().to_vec())
        },
        Err(_) => None,
    }
}

/// What `FingerprintCompressor::compress` makes of a fingerprint, with the second
/// preset.
pub uninterp spec fn compressed_of(raw: Seq<u32>) -> Seq<u8>;

/// `rusty_chromaprint::FingerprintCompressor::compress` with the second preset.
/// Claimed of it: the result depends on the fingerprint alone.
#[verifier::external_body]
fn compress(raw: &[u32]) -> (r: Vec<u8>)
    ensures
        r@ == compressed_of(raw@),
{
    let config = rusty_chromaprint::Configuration::preset_test2();
    rusty_chromaprint::FingerprintCompressor::from(&config).compress(raw)
}

/// The duration of interleaved samples in milliseconds.
pub open spec fn duration_of(total: nat, sample_rate: u32, channels: u32) -> int {
    if channels > 0 && sample_rate > 0 {
        (total as int) * 1000 / (sample_rate * channels)
    } else {
        0
    }
}

/// Makes the result of a raw fingerprint.
pub fn finish_fingerprint(raw: &Vec<u32>, total_samples: usize, sample_rate: u32, channels: u32) -> (r:
    Result<FingerprintResult, FingerprintError>)
    ensures
        match r {
            Ok(f) => {
                &&& raw@.len() > 0
                &&& f.fingerprint@ == digest::base64_text(compressed_of(raw@))
                &&& f.duration_ms == duration_of(total_samples as nat, sample_rate, channels) as u64
            },
            Err(e) => raw@.len() == 0 && e == FingerprintError::Empty,
        },
{
    if raw.len() == 0 {
        return Err(FingerprintError::Empty);
    }
    let duration_ms: u64 = if channels > 0 && sample_rate > 0 {
        let rate: u128 = sample_rate as u128;
        let count: u128 = channels as u128;
        let total: u128 = total_samples as u128;
        assert(0 < rate * count <= 0xFFFF_FFFF * 0xFFFF_FFFF) by (nonlinear_arith)
            requires
                0 < rate <= 0xFFFF_FFFF,
                0 < count <= 0xFFFF_FFFF,
        ;
        (total * 1000 / (rate * count)) as u64
    } else {
        0
    };
    let packed = compress(raw);
    Ok(FingerprintResult { fingerprint: base64_encode(&packed), duration_ms })
}

/// What is made of the numbers that the printer gave; `None` when it did not start.
pub open spec fn outcome_of(found: Option<Seq<u32>>) -> Result<Seq<u32>, FingerprintError> {
    match found {
        None => Err(FingerprintError::Start),
        Some(raw) => if raw.len() == 0 {
            Err(FingerprintError::Empty)
        } else {
            Ok(raw)
        },
    }
}

/// The numbers of an outcome by their view.
pub open spec fn raw_view(r: Result<Vec<u32>, FingerprintError>) -> Result<
    Seq<u32>,
    FingerprintError,
> {
    match r {
        Ok(raw) => Ok(raw@),
        Err(e) => Err(e),
    }
}

/// The numbers that the printer gave, by their view.
pub open spec fn found_view(found: Option<Vec<u32>>) -> Option<Seq<u32>> {
    match found {
        Some(raw) => Some(raw@),
        None => None,
    }
}

/// Makes a fingerprint of what the printer gave.
pub fn raw_outcome(found: Option<Vec<u32>>) -> (r: Result<Vec<u32>, FingerprintError>)
    ensures
        raw_view(r) == outcome_of(found_view(found)),
{
    match found {
        None => Err(FingerprintError::Start),
        Some(raw) => if raw.len() == 0 {
            Err(FingerprintError::Empty)
        } else {
            Ok(raw)
        },
    }
}

/// Whether the printer starts on the audio of a pass.
pub open spec fn starts(pass: FingerprintPass) -> bool {
    pass.channels > 0 && pass.sample_rate > 1000
}

/// How many samples of each channel a pass has taken.
pub open spec fn frames_taken(pass: FingerprintPass) -> nat {
    pass.samples@.len() / pass.channels as nat
}

/// Whether the printer can give `found` of the audio of a pass.
pub open spec fn can_give(pass: FingerprintPass, found: Option<Seq<u32>>) -> bool {
    &&& printed(pass.samples@, pass.sample_rate, pass.channels, found)
    &&& found is Some <==> starts(pass)
    &&& found matches Some(raw) ==> is_print_len(
        raw.len(),
        frames_taken(pass),
        pass.sample_rate,
    )
}

/// Whether `f` is the finished form of a fingerprint of a pass.
pub open spec fn finishes(f: FingerprintResult, raw: Seq<u32>, pass: FingerprintPass) -> bool {
    &&& f.fingerprint@ == digest::base64_text(compressed_of(raw))
    &&& f.duration_ms == duration_of(pass.samples@.len(), pass.sample_rate, pass.channels) as u64
}

/// Makes a fingerprint of the audio that a pass has taken: what the printer gave of
/// it is judged as `raw_outcome` does, and finished as `finish_fingerprint` does.
pub fn generate_fingerprint(pass: &FingerprintPass) -> (r: Result<
    FingerprintResult,
    FingerprintError,
>)
    requires
        pass.channels > 0 ==> pass.samples@.len() % pass.channels as nat == 0,
        pass.channels <= 0x1_0000,
    ensures
        r == Err::<FingerprintResult, FingerprintError>(FingerprintError::Start) <==> !starts(
            *pass,
        ),
        starts(*pass) && too_short(frames_taken(*pass), pass.sample_rate) ==> r == Err::<
            FingerprintResult,
            FingerprintError,
        >(FingerprintError::Empty),
        starts(*pass) && long_enough(frames_taken(*pass), pass.sample_rate) ==> r is Ok,
        exists|found: Option<Seq<u32>>| #[trigger]
            can_give(*pass, found) && match outcome_of(found) {
                Ok(raw) => r is Ok && finishes(r->Ok_0, raw, *pass),
                Err(e) => r == Err::<FingerprintResult, FingerprintError>(e),
            },
{
    let raw = raw_fingerprint(pass);
    let ghost found = choose|found: Option<Seq<u32>>| #[trigger]
        can_give(*pass, found) && raw_view(raw) == outcome_of(found);
    let r = match raw {
        Ok(raw) => finish_fingerprint(&raw, pass.samples.len(), pass.sample_rate, pass.channels),
        Err(e) => Err(e),
    };
    proof {
        match outcome_of(found) {
            Ok(raw) => {
                assert(r is Ok && finishes(r->Ok_0, raw, *pass));
            },
            Err(e) => {
                assert(r == Err::<FingerprintResult, FingerprintError>(e));
            },
        }
        assert(can_give(*pass, found));
    }
    r
}

/// The fingerprint of the audio that a pass has taken, as numbers: what the printer
/// gave of it, judged as `raw_outcome` does.
pub fn raw_fingerprint(pass: &FingerprintPass) -> (r: Result<Vec<u32>, FingerprintError>)
    requires
        pass.channels > 0 ==> pass.samples@.len() % pass.channels as nat == 0,
        pass.channels <= 0x1_0000,
    ensures
        r == Err::<Vec<u32>, FingerprintError>(FingerprintError::Start) <==> !starts(*pass),
        starts(*pass) && too_short(frames_taken(*pass), pass.sample_rate) ==> r == Err::<
            Vec<u32>,
            FingerprintError,
        >(FingerprintError::Empty),
        starts(*pass) && long_enough(frames_taken(*pass), pass.sample_rate) ==> r is Ok,
        exists|found: Option<Seq<u32>>| #[trigger]
            can_give(*pass, found) && raw_view(r) == outcome_of(found),
{
    let found = chromaprint(&pass.samples, pass.sample_rate, pass.channels);
    let ghost given = found_view(found);
    let r = raw_outcome(found);
    proof {
        assert(can_give(*pass, given));
        assert(raw_view(r) == outcome_of(given));
    }
    r
}

// ── Comparing fingerprints ───────────────────────────────────────────────────

/// How many of the compared bits differ.
#[derive(Debug, Clone, Copy, PartialEq, Eq, Structural)]
pub struct BitErrors {
    pub differing: u128,
    pub compared: u128,
}

/// How many bits of a number are set.
pub open spec fn bits_set(n: u32) -> nat
    decreases n,
{
    if n == 0 {
        0
    } else {
        (n % 2) as nat + bits_set(n / 2)
    }
}

/// In how many bits the first `n` numbers differ.
pub open spec fn differing_bits(a: Seq<u32>, b: Seq<u32>, n: nat) -> nat
    decreases n,
{
    if n == 0 {
        0
    } else {
        differing_bits(a, b, (n - 1) as nat) + bits_set(a[n - 1] ^ b[n - 1])
    }
}

/// How many numbers two fingerprints have in common places.
pub open spec fn overlap(a: Seq<u32>, b: Seq<u32>) -> nat {
    if a.len() <= b.len() {
        a.len()
    } else {
        b.len()
    }
}

proof fn lemma_bits_set(n: u32, k: nat)
    requires
        n < vstd::arithmetic::power2::pow2(k),
    ensures
        bits_set(n) <= k,
    decreases k,
{
    if n > 0 {
        if k == 0 {
            vstd::arithmetic::power2::lemma2_to64();
        } else {
            vstd::arithmetic::power2::lemma_pow2_unfold(k);
            lemma_bits_set(n / 2, (k - 1) as nat);
        }
    }
}

fn count_bits(n: u32) -> (r: u64)
    ensures
        r == bits_set(n),
        r <= 32,
{
    let mut rest: u32 = n;
    let mut count: u64 = 0;
    proof {
        vstd::arithmetic::power2::lemma2_to64();
        lemma_bits_set(n, 32);
    }
    while rest > 0
        invariant
            count + bits_set(rest) == bits_set(n),
            bits_set(n) <= 32,
        decreases rest,
    {
        count = count + (rest % 2) as u64;
        rest = rest / 2;
    }
    count
}

/// Compares two fingerprints where they overlap. When they overlap in fewer than
/// ten numbers, all bits count as different.
pub fn ber(a: &[u32], b: &[u32]) -> (r: BitErrors)
    ensures
        r == if overlap(a@, b@) < 10 {
            (BitErrors { differing: 1, compared: 1 })
        } else {
            (BitErrors {
                differing: differing_bits(a@, b@, overlap(a@, b@)) as u128,
                compared: (32 * overlap(a@, b@)) as u128,
            })
        },
        0 < r.compared <= 0x20_0000_0000_0000_0000,
        r.differing <= r.compared,
        overlap(a@, b@) >= 10 ==> r.compared == 32 * overlap(a@, b@),
        overlap(a@, b@) >= 10 ==> r.differing == differing_bits(a@, b@, overlap(a@, b@)),
{
    let n: usize = if a.len() <= b.len() {
        a.len()
    } else {
        b.len()
    };
    if n < 10 {
        return BitErrors { differing: 1, compared: 1 };
    }
    let mut differing: u128 = 0;
    let mut i: usize = 0;
    while i < n
        invariant
            i <= n,
            n == overlap(a@, b@),
            differing == differing_bits(a@, b@, i as nat),
            differing <= 32 * i,
        decreases n - i,
    {
        differing = differing + count_bits(a[i] ^ b[i]) as u128;
        i = i + 1;
    }
    BitErrors { differing, compared: 32 * (n as u128) }
}

/// Whether two fingerprints are of the same recording: fewer than two in five bits
/// differ.
pub fn same_recording(a: &[u32], b: &[u32]) -> (r: bool)
    ensures
        r == (overlap(a@, b@) >= 10 && 5 * differing_bits(a@, b@, overlap(a@, b@)) < 64 * overlap(
            a@,
            b@,
        )),
{
    let errors = ber(a, b);
    5 * errors.differing < 2 * errors.compared
}

/// A fingerprint of enough length is of the same recording as itself.
pub proof fn law_same_as_itself(a: Seq<u32>)
    requires
        a.len() >= 10,
    ensures
        differing_bits(a, a, overlap(a, a)) == 0,
        5 * differing_bits(a, a, overlap(a, a)) < 64 * overlap(a, a),
{
    lemma_no_difference(a, a.len());
}

proof fn lemma_no_difference(a: Seq<u32>, n: nat)
    requires
        n <= a.len(),
    ensures
        differing_bits(a, a, n) == 0,
    decreases n,
{
    if n > 0 {
        lemma_no_difference(a, (n - 1) as nat);
        let x = a[n - 1];
        assert(x ^ x == 0) by (bit_vector);
    }
}

/// Comparing fingerprints the other way round makes no difference.
pub proof fn law_comparison_is_symmetric(a: Seq<u32>, b: Seq<u32>, n: nat)
    requires
        n <= overlap(a, b),
    ensures
        differing_bits(a, b, n) == differing_bits(b, a, n),
        overlap(a, b) == overlap(b, a),
    decreases n,
{
    if n > 0 {
        law_comparison_is_symmetric(a, b, (n - 1) as nat);
        let x = a[n - 1];
        let y = b[n - 1];
        assert(x ^ y == y ^ x) by (bit_vector);
    }
}

// ── Looking a fingerprint up ─────────────────────────────────────────────────

/// A result of a lookup. The score is the bit pattern of a single-precision number.
#[derive(Debug)]
pub struct AcoustIdEntry {
    pub id: String,
    pub score_bits: u32,
    pub recordings: Vec<String>,
}

/// The result of a lookup that was chosen.
#[derive(Debug)]
pub struct AcoustIdMatch {
    pub acoustid: String,
    pub score_bits: u32,
    /// The first recording that the result names, if any.
    pub recording_mbid: Option<String>,
}

/// The bit pattern of the least score that is trusted, 0.85.
pub const MIN_SCORE_BITS: u32 = 0x3F59_999A;

/// The bit pattern of infinity; those above it are of negative numbers and of what
/// is no number.
pub const INFINITY_BITS: u32 = 0x7F80_0000;

/// Whether a result is trusted. Scores that are not negative are ordered as their bit
/// patterns are.
pub open spec fn trusted(e: AcoustIdEntry) -> bool {
    MIN_SCORE_BITS <= e.score_bits <= INFINITY_BITS
}

/// The place of the best of the first `n` results: the last of those that are
/// trusted and have the highest score.
pub open spec fn best_of(s: Seq<AcoustIdEntry>, n: nat) -> Option<int>
    decreases n,
{
    if n == 0 {
        None
    } else {
        let front = best_of(s, (n - 1) as nat);
        if !trusted(s[n - 1]) {
            front
        } else {
            match front {
                Some(k) => if s[k].score_bits <= s[n - 1].score_bits {
                    Some(n - 1)
                } else {
                    Some(k)
                },
                None => Some(n - 1),
            }
        }
    }
}

/// Chooses the best result of a lookup.
pub fn choose_match(status: &str, results: &Vec<AcoustIdEntry>) -> (r: Option<AcoustIdMatch>)
    ensures
        match r {
            Some(m) => {
                &&& status@ == "ok"@
                &&& best_of(results@, results@.len()) matches Some(k)
                    && m.acoustid == results@[k].id && m.score_bits == results@[k].score_bits
                    && text::opt_text(m.recording_mbid) == if results@[k].recordings@.len() > 0 {
                    Some(results@[k].recordings@[0]@)
                } else {
                    None
                }
            },
            None => status@ != "ok"@ || best_of(results@, results@.len()) is None,
        },
{
    if !same_text(status, "ok") {
        return None;
    }
    let mut best: Option<usize> = None;
    let mut i: usize = 0;
    while i < results.len()
        invariant
            i <= results@.len(),
            match best {
                Some(k) => k < i && best_of(results@, i as nat) == Some(k as int),
                None => best_of(results@, i as nat) is None,
            },
        decreases results@.len() - i,
    {
        if MIN_SCORE_BITS <= results[i].score_bits && results[i].score_bits <= INFINITY_BITS {
            best = match best {
                Some(k) => if results[k].score_bits <= results[i].score_bits {
                    Some(i)
                } else {
                    Some(k)
                },
                None => Some(i),
            };
        }
        i = i + 1;
    }
    match best {
        None => None,
        Some(k) => Some(
            AcoustIdMatch {
                acoustid: results[k].id.clone(),
                score_bits: results[k].score_bits,
                recording_mbid: if results[k].recordings.len() > 0 {
                    Some(results[k].recordings[0].clone())
                } else {
                    None
                },
            },
        ),
    }
}

/// No trusted result has a higher score than the best one, and none that comes later
/// has the same.
pub proof fn law_best_match_is_best(s: Seq<AcoustIdEntry>, n: nat)
    requires
        n <= s.len(),
    ensures
        match best_of(s, n) {
            Some(k) => {
                &&& 0 <= k < n
                &&& trusted(s[k])
                &&& forall|i: int|
                    0 <= i < n && trusted(#[trigger] s[i]) ==> s[i].score_bits
                        <= s[k].score_bits
                &&& forall|i: int|
                    k < i < n && trusted(#[trigger] s[i]) ==> s[i].score_bits
                        < s[k].score_bits
            },
            None => forall|i: int| 0 <= i < n ==> !trusted(#[trigger] s[i]),
        },
    decreases n,
{
    if n > 0 {
        law_best_match_is_best(s, (n - 1) as nat);
    }
}

/// The parameters of a lookup.
pub fn lookup_params(api_key: &str, fingerprint: &FingerprintResult) -> (r: Vec<(String, String)>)
    ensures
        text::pairs(r@) == seq![
            ("client"@, api_key@),
            ("meta"@, "recordings"@),
            ("duration"@, text::decimal((fingerprint.duration_ms / 1000) as nat)),
            ("fingerprint"@, fingerprint.fingerprint@),
        ],
{
    let r = vec![
        ("client".to_owned(), api_key.to_owned()),
        ("meta".to_owned(), "recordings".to_owned()),
        ("duration".to_owned(), decimal_string(fingerprint.duration_ms / 1000)),
        ("fingerprint".to_owned(), fingerprint.fingerprint.clone()),
    ];
    assert(text::pairs(r@) =~= seq![
        ("client"@, api_key@),
        ("meta"@, "recordings"@),
        ("duration"@, text::decimal((fingerprint.duration_ms / 1000) as nat)),
        ("fingerprint"@, fingerprint.fingerprint@),
    ]);
    r
}

/// A fingerprint covers at most the first thirty seconds of a track.
pub proof fn law_at_most_thirty_seconds(samples: Seq<i16>, sample_rate: u32, channels: u32)
    ensures
        0 <= duration_of(beginning(samples, sample_rate, channels).len(), sample_rate, channels)
            <= MAX_FINGERPRINT_MS,
{
    if channels > 0 && sample_rate > 0 {
        let n = beginning(samples, sample_rate, channels).len() as int;
        let second = sample_rate * channels;
        assert(second > 0) by (nonlinear_arith)
            requires
                second == sample_rate * channels,
                sample_rate > 0,
                channels > 0,
        ;
        assert(30_000 * sample_rate * channels == 30_000 * second) by (nonlinear_arith)
            requires
                second == sample_rate * channels,
        ;
        assert(sample_limit(sample_rate, channels) == 30 * second);
        assert(n <= 30 * second);
        assert(0 <= n * 1000 / second <= 30_000) by (nonlinear_arith)
            requires
                0 <= n <= 30 * second,
                second > 0,
        ;
    }
}

/// The fingerprint is made of the first thirty seconds, or of all where there is less.
pub proof fn law_beginning_is_thirty_seconds(
    samples: Seq<i16>,
    sample_rate: u32,
    channels: u32,
    i: int,
)
    ensures
        sample_limit(sample_rate, channels) == 30 * sample_rate * channels,
        samples.len() <= 30 * sample_rate * channels ==> beginning(samples, sample_rate, channels)
            == samples,
        samples.len() > 30 * sample_rate * channels ==> beginning(
            samples,
            sample_rate,
            channels,
        ).len() == 30 * sample_rate * channels,
        0 <= i < beginning(samples, sample_rate, channels).len() ==> beginning(
            samples,
            sample_rate,
            channels,
        )[i] == samples[i],
{
    let r = sample_rate as int;
    let c = channels as int;
    assert(30_000 * r * c == 1000 * (30 * r * c)) by (nonlinear_arith);
    assert(0 <= 30 * r * c) by (nonlinear_arith)
        requires
            0 <= r,
            0 <= c,
    ;
}

/// A frame that is not whole is left out, and nothing else.
pub proof fn law_whole_frames(samples: Seq<i16>, channels: u32, i: int)
    requires
        channels > 0,
    ensures
        whole_frames(samples, channels).len() % channels as nat == 0,
        samples.len() - whole_frames(samples, channels).len() < channels,
        whole_frames(samples, channels).len() <= samples.len(),
        0 <= i < whole_frames(samples, channels).len() ==> whole_frames(samples, channels)[i]
            == samples[i],
{
    let n = samples.len() as int;
    let c = channels as int;
    lemma_mod_bound(n, c);
    lemma_fundamental_div_mod(n, c);
    assert(n - n % c == c * (n / c));
    lemma_mod_multiples_basic(n / c, c);
    assert(c * (n / c) == (n / c) * c) by (nonlinear_arith);
    assert(0 <= n - n % c <= n) by {
        lemma_mod_decreases(n as nat, c as nat);
    }
}

/// The length of audio in milliseconds, rounded down.
pub proof fn law_duration_of_samples(total: nat, sample_rate: u32, channels: u32)
    ensures
        sample_rate > 0 && channels > 0 ==> {
            let ms = duration_of(total, sample_rate, channels);
            ms * (sample_rate * channels) <= 1000 * total < (ms + 1) * (sample_rate * channels)
        },
        sample_rate == 0 || channels == 0 ==> duration_of(total, sample_rate, channels) == 0,
{
    if sample_rate > 0 && channels > 0 {
        let w = sample_rate * channels;
        assert(w > 0) by (nonlinear_arith)
            requires
                w == sample_rate * channels,
                sample_rate > 0,
                channels > 0,
        ;
        let t = (total as int) * 1000;
        let ms = duration_of(total, sample_rate, channels);
        lemma_fundamental_div_mod(t, w);
        lemma_mod_bound(t, w);
        assert(ms * w <= t < (ms + 1) * w) by (nonlinear_arith)
            requires
                t == w * ms + t % w,
                0 <= t % w < w,
        ;
    }
}

/// A number has the bits of its half, and one more where it is odd.
pub proof fn law_bits_are_counted(k: u32)
    requires
        k <= 0x7FFF_FFFF,
    ensures
        bits_set(0) == 0,
        bits_set((2 * k) as u32) == bits_set(k),
        bits_set((2 * k + 1) as u32) == bits_set(k) + 1,
{
}

/// Two fingerprints differ in as many bits as their numbers do, one by one, as far as
/// both go.
pub proof fn law_differences_add_up(a: Seq<u32>, b: Seq<u32>, x: u32, y: u32)
    requires
        a.len() == b.len(),
    ensures
        overlap(a.push(x), b.push(y)) == a.len() + 1,
        overlap(a.push(x), b) == b.len(),
        overlap(a, b.push(y)) == a.len(),
        differing_bits(a.push(x), b.push(y), a.len() + 1) == differing_bits(a, b, a.len())
            + bits_set(x ^ y),
        differing_bits(a, b, 0) == 0,
{
    lemma_same_front(a, b, x, y, a.len());
}

proof fn lemma_same_front(a: Seq<u32>, b: Seq<u32>, x: u32, y: u32, n: nat)
    requires
        n <= a.len(),
        n <= b.len(),
    ensures
        differing_bits(a.push(x), b.push(y), n) == differing_bits(a, b, n),
    decreases n,
{
    if n > 0 {
        lemma_same_front(a, b, x, y, (n - 1) as nat);
    }
}

/// A match is trusted from a score of eighty-five hundredths on, given by its bits.
pub proof fn law_scores_are_trusted_from_a_bound(e: AcoustIdEntry)
    ensures
        0x3F59_999A <= e.score_bits <= 0x7F80_0000 ==> trusted(e),
        e.score_bits < 0x3F59_999A || e.score_bits > 0x7F80_0000 ==> !trusted(e),
{
}

/// What came of the audio: a fingerprint, unless it could not be dealt with or is empty.
pub proof fn law_outcomes(raw: Seq<u32>)
    ensures
        outcome_of(None) == Err::<Seq<u32>, FingerprintError>(FingerprintError::Start),
        raw.len() > 0 ==> outcome_of(Some(raw)) == Ok::<Seq<u32>, FingerprintError>(raw),
        raw.len() == 0 ==> outcome_of(Some(raw)) == Err::<Seq<u32>, FingerprintError>(
            FingerprintError::Empty,
        ),
{
}

/// Reading goes on over other tracks' packets and bad ones until there is enough; the end
/// and every failure finish it.
pub proof fn law_reading_goes_on(p: FingerprintPass, event: PassEvent)
    ensures
        event == (PassEvent::Packet { wanted: true }) ==> action_after(p, event) is DecodePacket,
        event == (PassEvent::Packet { wanted: false }) ==> action_after(p, event) is ReadPacket,
        event is BadPacket ==> action_after(p, event) is ReadPacket,
        event is ResetRequired ==> action_after(p, event) is ResetAndRead,
        event is EndOfStream || event is ReadFailed || event is DecodeFailed ==> action_after(
            p,
            event,
        ) is Finish,
        event is Decoded ==> (action_after(p, event) is Finish <==> p.samples@.len() >= 30
            * p.sample_rate * p.channels),
        event is Decoded ==> (action_after(p, event) is ReadPacket <==> p.samples@.len() < 30
            * p.sample_rate * p.channels),
{
    law_beginning_is_thirty_seconds(p.samples@, p.sample_rate, p.channels, 0);
}

/// A fingerprint is the base64 of what the numbers compress to, with the length of the
/// audio it was made of.
pub proof fn law_fingerprint_is_text(
    f: FingerprintResult,
    raw: Seq<u32>,
    pass: FingerprintPass,
)
    requires
        finishes(f, raw, pass),
        pass.sample_rate > 0,
        pass.channels > 0,
        pass.samples@.len() * 1000 <= u64::MAX,
    ensures
        f.fingerprint@ == digest::base64_text(compressed_of(raw)),
        f.duration_ms * (pass.sample_rate * pass.channels) <= 1000 * pass.samples@.len(),
        1000 * pass.samples@.len() < (f.duration_ms + 1) * (pass.sample_rate * pass.channels),
{
    let n = pass.samples@.len();
    law_duration_of_samples(n, pass.sample_rate, pass.channels);
    let w = pass.sample_rate * pass.channels;
    let ms = duration_of(n, pass.sample_rate, pass.channels);
    assert(0 <= ms <= u64::MAX) by (nonlinear_arith)
        requires
            ms * w <= 1000 * n,
            1000 * n < (ms + 1) * w,
            n * 1000 <= u64::MAX,
            0 <= n,
            w >= 1,
    ;
}

/// Audio has a fingerprint where it has channels and more than a thousand samples in a
/// second.
pub proof fn law_audio_that_can_be_dealt_with(p: FingerprintPass)
    ensures
        starts(p) <==> p.channels >= 1 && p.sample_rate >= 1001,
{
}

/// Recordings are the same only where ten numbers can be compared and less than two
/// fifths of their bits differ.
pub proof fn law_sameness_needs_few_differences(a: &[u32], b: &[u32], same: bool)
    requires
        call_ensures(same_recording, (a, b), same),
    ensures
        a@.len() < 10 || b@.len() < 10 ==> !same,
        a@ == b@ && a@.len() >= 10 ==> same,
        a@.len() == b@.len() && a@.len() >= 10 ==> (same <==> 10 * differing_bits(
            a@,
            b@,
            a@.len(),
        ) < 4 * (32 * a@.len())),
{
    if a@ == b@ && a@.len() >= 10 {
        law_same_as_itself(a@);
    }
}

/// Fingerprints that overlap too little count as wholly different; others by the share of
/// their bits that differ.
pub proof fn law_share_of_differing_bits(a: &[u32], b: &[u32], r: BitErrors)
    requires
        call_ensures(ber, (a, b), r),
    ensures
        a@.len() < 10 || b@.len() < 10 ==> r.differing == r.compared,
        a@.len() >= 10 && b@.len() >= 10 ==> r.compared == 32 * (if a@.len() <= b@.len() {
            a@.len()
        } else {
            b@.len()
        }),
        a@ == b@ && a@.len() >= 10 ==> r.differing == 0,
        r.compared > 0 && r.differing <= r.compared,
{
    if a@ == b@ && a@.len() >= 10 {
        law_same_as_itself(a@);
    }
}

/// The match that is chosen is the best that can be trusted, and names its first
/// recording; without a good answer there is none.
pub proof fn law_best_trusted_match_is_chosen(
    status: &str,
    results: &Vec<AcoustIdEntry>,
    r: Option<AcoustIdMatch>,
    i: int,
)
    requires
        call_ensures(choose_match, (status, results), r),
    ensures
        status@ != "ok"@ ==> r is None,
        0 <= i < results@.len() && trusted(results@[i]) && status@ == "ok"@ ==> r is Some
            && r->0.score_bits >= results@[i].score_bits,
        r matches Some(m) ==> exists|k: int|
            0 <= k < results@.len() && trusted(#[trigger] results@[k]) && m.acoustid@
                == results@[k].id@ && m.score_bits == results@[k].score_bits && (
            results@[k].recordings@.len() > 0 ==> text::opt_text(m.recording_mbid) == Some(
                results@[k].recordings@[0]@,
            )) && (results@[k].recordings@.len() == 0 ==> m.recording_mbid is None),
{
    law_best_match_is_best(results@, results@.len());
    if r is Some {
        let k = best_of(results@, results@.len())->0;
        assert(trusted(results@[k]));
    }
}

/// A match is asked for with the key, the fingerprint and its length in whole seconds.
pub proof fn law_lookup_names_fingerprint(
    api_key: &str,
    f: &FingerprintResult,
    r: Vec<(String, String)>,
)
    requires
        call_ensures(lookup_params, (api_key, f), r),
    ensures
        ({
            let p = text::pairs(r@);
            &&& p.len() == 4
            &&& p.contains(("client"@, api_key@)) && p.contains(("meta"@, "recordings"@))
            &&& p.contains(("duration"@, text::decimal((f.duration_ms / 1000) as nat)))
            &&& p.contains(("fingerprint"@, f.fingerprint@))
        }),
{
    let p = text::pairs(r@);
    assert(p[0] == ("client"@, api_key@) && p[1] == ("meta"@, "recordings"@) && p[3] == (
        "fingerprint"@,
        f.fingerprint@,
    ));
    assert(p[2] == ("duration"@, text::decimal((f.duration_ms / 1000) as nat)));
}

/// A pass takes CD quality where the file does not tell its own.
pub proof fn law_unknown_audio_is_cd(rate: Option<u32>, channels: Option<u32>, p: FingerprintPass)
    requires
        call_ensures(FingerprintPass::new, (rate, channels), p),
    ensures
        rate is None ==> p.sample_rate == 44100,
        channels is None ==> p.channels == 2,
        rate is Some ==> p.sample_rate == rate->0,
        channels is Some ==> p.channels == channels->0,
        p.samples@.len() == 0,
{
}

} // verus!
