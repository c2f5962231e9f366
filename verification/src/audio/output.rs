//! What the player hands to the sound device.
//!
//! Samples are kept as the bits of 32-bit floating-point numbers. A slot of the
//! output is silent, or takes a sample that the device's side scales by the
//! volume and turns into the device's format.
use std::collections::VecDeque;
use vstd::prelude::*;
use crate::audio::resample;
use crate::audio::resample::capped_product;
use crate::audio::{
    TrackEndedEvent, PREBUFFER_FRAMES, STATUS_LOADING, STATUS_PAUSED,
    STATUS_PLAYING, STATUS_STOPPED,
};
use crate::models::{PlaybackStatus, PlayerState, UNIT_BITS};
use crate::text;

verus! {

/// Decoded samples on their way to the device.
#[derive(Debug)]
pub struct TrackBuffer {
    pub samples: VecDeque<u32>,
    /// Nothing more will come.
    pub finished: bool,
    /// The decoder shall stop.
    pub stop_requested: bool,
}

/// What the device's side of the player knows.
#[derive(Debug)]
pub struct AudioCallbackCtx {
    pub status: u8,
    pub volume_bits: u32,
    /// The gain that normalizes the loudness of the track.
    pub normalization_gain_bits: u32,
    /// Whether that gain is applied.
    pub normalization_enabled: bool,
    pub output_frame_position: u64,
    pub last_position_emit_ms: u64,
    pub output_sample_rate: u32,
    pub output_channels: u16,
    /// Zero: unknown.
    pub track_duration_ms: u64,
    /// Whether there is a track.
    pub has_track: bool,
    pub current_recording_id: Option<String>,
    pub current_source_id: Option<String>,
}

/// What the device's side tells the player.
#[derive(Debug)]
pub enum CallbackEvent {
    /// The status changed.
    State(PlayerState),
    /// The track ended.
    Ended(TrackEndedEvent),
    /// The track got so far, in milliseconds.
    Position(u64),
}

// ── Meaning ──────────────────────────────────────────────────────────────────

/// What a track's buffer holds.
#[verifier::ext_equal]
pub struct Track {
    pub samples: Seq<u32>,
    pub finished: bool,
    pub stop_requested: bool,
}

impl View for TrackBuffer {
    type V = Track;

    open spec fn view(&self) -> Track {
        Track {
            samples: self.samples@,
            finished: self.finished,
            stop_requested: self.stop_requested,
        }
    }
}

/// What an event says.
#[verifier::ext_equal]
pub enum Told {
    State {
        status: PlaybackStatus,
        recording_id: Option<Seq<char>>,
        source_id: Option<Seq<char>>,
        title: Option<Seq<char>>,
        artist: Option<Seq<char>>,
        duration_ms: Option<u64>,
        position_ms: int,
        volume_bits: u32,
        normalization_enabled: bool,
        normalization_gain_bits: u32,
        normalization_source: Seq<char>,
    },
    Ended { recording_id: Seq<char>, source_id: Seq<char>, position_ms: int },
    Position(int),
}

impl View for CallbackEvent {
    type V = Told;

    open spec fn view(&self) -> Told {
        match *self {
            CallbackEvent::State(s) => Told::State {
                status: s.status,
                recording_id: text::opt_text(s.recording_id),
                source_id: text::opt_text(s.source_id),
                title: text::opt_text(s.title),
                artist: text::opt_text(s.artist),
                duration_ms: s.duration_ms,
                position_ms: s.position_ms as int,
                volume_bits: s.volume_bits,
                normalization_enabled: s.normalization_enabled,
                normalization_gain_bits: s.normalization_gain_bits,
                normalization_source: s.normalization_source@,
            },
            CallbackEvent::Ended(e) => Told::Ended {
                recording_id: e.recording_id@,
                source_id: e.source_id@,
                position_ms: e.position_ms as int,
            },
            CallbackEvent::Position(ms) => Told::Position(ms as int),
        }
    }
}

/// What events say.
pub open spec fn told(events: Seq<CallbackEvent>) -> Seq<Told> {
    events.map_values(|e: CallbackEvent| e@)
}

/// A position in milliseconds.
pub open spec fn milliseconds(frames: int, rate: int) -> int {
    if rate == 0 {
        0
    } else {
        resample::capped(frames * 1000) / rate
    }
}

/// A duration that is known.
pub open spec fn known_duration(ms: u64) -> Option<u64> {
    if ms > 0 {
        Some(ms)
    } else {
        None
    }
}

/// A text that is there, or the empty one.
pub open spec fn text_or_empty(s: Option<String>) -> Seq<char> {
    match s {
        Some(x) => x@,
        None => Seq::empty(),
    }
}

/// Whole frames among samples.
pub open spec fn frames_in(samples: int, channels: int) -> int {
    if channels == 0 {
        0
    } else {
        samples / channels
    }
}

/// A run of the device's callback: what it changed and what it gave so far.
#[verifier::ext_equal]
pub struct Run {
    pub ctx: AudioCallbackCtx,
    pub track: Track,
    /// Per slot: silence, or a sample.
    pub slots: Seq<Option<u32>>,
    pub events: Seq<Told>,
    /// Whether the position was told in this run.
    pub emitted: bool,
    /// Whether the track ended, which ends the run.
    pub ended: bool,
}

/// Slots of silence.
pub open spec fn silent(n: int) -> Seq<Option<u32>> {
    Seq::new(n as nat, |i: int| None::<u32>)
}

/// The first `n` samples, padded with zeros.
pub open spec fn padded(samples: Seq<u32>, n: int) -> Seq<Option<u32>> {
    Seq::new(
        n as nat,
        |i: int|
            Some(
                if i < samples.len() {
                    samples[i]
                } else {
                    0
                },
            ),
    )
}

impl Run {
    /// A frame of silence.
    pub open spec fn quiet(self, width: int) -> Run {
        Run { slots: self.slots + silent(width), ..self }
    }

    pub open spec fn position_ms(self) -> int {
        milliseconds(self.ctx.output_frame_position as int, self.ctx.output_sample_rate as int)
    }

    /// Playing starts: the player is told what plays.
    pub open spec fn started(self) -> Run {
        Run {
            ctx: AudioCallbackCtx { status: STATUS_PLAYING, ..self.ctx },
            events: self.events.push(
                Told::State {
                    status: PlaybackStatus::Playing,
                    recording_id: text::opt_text(self.ctx.current_recording_id),
                    source_id: text::opt_text(self.ctx.current_source_id),
                    title: None,
                    artist: None,
                    duration_ms: known_duration(self.ctx.track_duration_ms),
                    position_ms: self.position_ms(),
                    volume_bits: self.ctx.volume_bits,
                    normalization_enabled: self.ctx.normalization_enabled,
                    normalization_gain_bits: self.ctx.normalization_gain_bits,
                    normalization_source: Seq::empty(),
                },
            ),
            ..self
        }
    }

    /// The decoder is late: the track loads again.
    pub open spec fn stalled(self) -> Run {
        Run {
            ctx: AudioCallbackCtx { status: STATUS_LOADING, ..self.ctx },
            events: self.events.push(
                Told::State {
                    status: PlaybackStatus::Loading,
                    recording_id: None,
                    source_id: None,
                    title: None,
                    artist: None,
                    duration_ms: None,
                    position_ms: self.position_ms(),
                    volume_bits: self.ctx.volume_bits,
                    normalization_enabled: self.ctx.normalization_enabled,
                    normalization_gain_bits: self.ctx.normalization_gain_bits,
                    normalization_source: Seq::empty(),
                },
            ),
            ..self
        }
    }

    /// The track is over: the player is told, and there is no track any more.
    pub open spec fn over(self) -> Run {
        Run {
            ctx: AudioCallbackCtx {
                status: STATUS_STOPPED,
                has_track: false,
                current_recording_id: None,
                current_source_id: None,
                track_duration_ms: 0,
                ..self.ctx
            },
            track: Track { stop_requested: true, ..self.track },
            events: self.events.push(
                Told::Ended {
                    recording_id: text_or_empty(self.ctx.current_recording_id),
                    source_id: text_or_empty(self.ctx.current_source_id),
                    position_ms: self.position_ms(),
                },
            ),
            ended: true,
            ..self
        }
    }

    /// A frame of samples: the position moves on, and is told when a quarter of a
    /// second has passed since it was told last, once per run.
    pub open spec fn sounding(self, width: int) -> Run {
        let ms = milliseconds(
            self.ctx.output_frame_position + 1,
            self.ctx.output_sample_rate as int,
        );
        let tell = !self.emitted && ms >= resample::capped(self.ctx.last_position_emit_ms + 250);
        let cut = if width < self.track.samples.len() {
            width
        } else {
            self.track.samples.len() as int
        };
        Run {
            ctx: AudioCallbackCtx {
                output_frame_position: (self.ctx.output_frame_position + 1) as u64,
                last_position_emit_ms: if tell {
                    ms as u64
                } else {
                    self.ctx.last_position_emit_ms
                },
                ..self.ctx
            },
            track: Track { samples: self.track.samples.skip(cut), ..self.track },
            slots: self.slots + padded(self.track.samples, width),
            events: if tell {
                self.events.push(Told::Position(ms))
            } else {
                self.events
            },
            emitted: self.emitted || tell,
            ..self
        }
    }

    /// The next frame, of `width` slots.
    pub open spec fn frame(self, width: int) -> Run {
        let ready = frames_in(self.track.samples.len() as int, self.ctx.output_channels as int);
        if !self.ctx.has_track || self.ctx.status == STATUS_PAUSED {
            self.quiet(width)
        } else if self.ctx.status == STATUS_LOADING && (ready >= PREBUFFER_FRAMES || (
        self.track.finished && ready > 0)) {
            self.started().quiet(width)
        } else if self.ctx.status == STATUS_PLAYING && ready == 0 {
            if self.track.finished {
                self.over().quiet(width)
            } else {
                self.stalled().quiet(width)
            }
        } else {
            self.sounding(width)
        }
    }

    /// The frames that fill `left` more slots; the last may be cut short.
    pub open spec fn filled(self, left: int) -> Run
        decreases left,
    {
        let channels = self.ctx.output_channels as int;
        let width = if left < channels {
            left
        } else {
            channels
        };
        if left <= 0 || self.ended {
            self
        } else if channels == 0 {
            self.quiet(left)
        } else {
            self.frame(width).filled(left - width)
        }
    }

    /// A run that did nothing yet.
    pub open spec fn new(ctx: AudioCallbackCtx, track: Track) -> Run {
        Run {
            ctx,
            track,
            slots: Seq::empty(),
            events: Seq::empty(),
            emitted: false,
            ended: false,
        }
    }
}

// ── The buffer ───────────────────────────────────────────────────────────────

impl TrackBuffer {
    pub fn new() -> (r: TrackBuffer)
        ensures
            r@ == (Track { samples: Seq::empty(), finished: false, stop_requested: false }),
    {
        TrackBuffer { samples: VecDeque::new(), finished: false, stop_requested: false }
    }

    /// Whole frames in the buffer.
    pub fn buffered_frames(&self, channels: usize) -> (n: usize)
        ensures
            n == frames_in(self@.samples.len() as int, channels as int),
    {
        if channels == 0 {
            return 0;
        }
        self.samples.len() / channels
    }

    /// Tells the decoder to stop.
    pub fn request_stop(&mut self)
        ensures
            final(self)@ == (Track { stop_requested: true, ..old(self)@ }),
    {
        self.stop_requested = true;
    }
}

// ── The callback ─────────────────────────────────────────────────────────────

fn clone_id(id: &Option<String>) -> (r: Option<String>)
    ensures
        r == *id,
{
    match id {
        Some(x) => Some(x.clone()),
        None => None,
    }
}

fn id_or_empty(id: &Option<String>) -> (r: String)
    ensures
        r@ == text_or_empty(*id),
{
    match id {
        Some(x) => x.clone(),
        None => String::new(),
    }
}

impl AudioCallbackCtx {
    /// Nothing plays, at full volume and without normalization.
    pub fn new(output_sample_rate: u32, output_channels: u16) -> (r: AudioCallbackCtx)
        ensures
            r == (AudioCallbackCtx {
                status: STATUS_STOPPED,
                volume_bits: UNIT_BITS,
                normalization_gain_bits: UNIT_BITS,
                normalization_enabled: false,
                output_frame_position: 0,
                last_position_emit_ms: 0,
                output_sample_rate,
                output_channels,
                track_duration_ms: 0,
                has_track: false,
                current_recording_id: None,
                current_source_id: None,
            }),
    {
        AudioCallbackCtx {
            status: STATUS_STOPPED,
            volume_bits: UNIT_BITS,
            normalization_gain_bits: UNIT_BITS,
            normalization_enabled: false,
            output_frame_position: 0,
            last_position_emit_ms: 0,
            output_sample_rate,
            output_channels,
            track_duration_ms: 0,
            has_track: false,
            current_recording_id: None,
            current_source_id: None,
        }
    }

    /// How far the track got, in milliseconds.
    pub fn position_ms(&self) -> (r: u64)
        ensures
            r == milliseconds(self.output_frame_position as int, self.output_sample_rate as int),
    {
        if self.output_sample_rate == 0 {
            return 0;
        }
        let total: u64 = capped_product(self.output_frame_position, 1000);
        proof {
            assert(total / self.output_sample_rate as u64 <= u64::MAX);
        }
        total / self.output_sample_rate as u64
    }

    /// The state to tell when the status changes to `status`; `named` tells what
    /// plays.
    fn state_event(&self, status: PlaybackStatus, named: bool) -> (r: CallbackEvent)
        ensures
            r@ == (Told::State {
                status,
                recording_id: if named {
                    text::opt_text(self.current_recording_id)
                } else {
                    None
                },
                source_id: if named {
                    text::opt_text(self.current_source_id)
                } else {
                    None
                },
                title: None,
                artist: None,
                duration_ms: if named {
                    known_duration(self.track_duration_ms)
                } else {
                    None
                },
                position_ms: milliseconds(
                    self.output_frame_position as int,
                    self.output_sample_rate as int,
                ),
                volume_bits: self.volume_bits,
                normalization_enabled: self.normalization_enabled,
                normalization_gain_bits: self.normalization_gain_bits,
                normalization_source: Seq::empty(),
            }),
    {
        CallbackEvent::State(
            PlayerState {
                status,
                recording_id: if named {
                    clone_id(&self.current_recording_id)
                } else {
                    None
                },
                source_id: if named {
                    clone_id(&self.current_source_id)
                } else {
                    None
                },
                title: None,
                artist: None,
                duration_ms: if named && self.track_duration_ms > 0 {
                    Some(self.track_duration_ms)
                } else {
                    None
                },
                position_ms: self.position_ms(),
                volume_bits: self.volume_bits,
                normalization_enabled: self.normalization_enabled,
                normalization_gain_bits: self.normalization_gain_bits,
                normalization_source: String::new(),
            },
        )
    }

    /// Fills `len` slots of the device's buffer from the track, frame by frame, and
    /// gives the events of the run. Where the track ends, the slots end with the
    /// frame that noticed it; the device's buffer stays as it was from there on.
    #[verifier::rlimit(60)]
    pub fn write_output_data(&mut self, track: &mut TrackBuffer, len: usize) -> (r: (
        Vec<Option<u32>>,
        Vec<CallbackEvent>,
    ))
        requires
            old(self).output_sample_rate > 0,
            old(self).output_frame_position + len <= u64::MAX,
        ensures
            ({
                let run = Run::new(*old(self), old(track)@).filled(len as int);
                &&& *final(self) == run.ctx
                &&& final(track)@ == run.track
                &&& r.0@ == run.slots
                &&& told(r.1@) == run.events
            }),
    {
        let mut slots: Vec<Option<u32>> = Vec::new();
        let mut events: Vec<CallbackEvent> = Vec::new();
        let channels: usize = self.output_channels as usize;
        let ghost whole = Run::new(*old(self), old(track)@).filled(len as int);
        let mut left: usize = len;
        let mut emitted = false;
        let mut ended = false;
        assert(told(events@) =~= Seq::<Told>::empty());
        assert(Run::new(*old(self), old(track)@) =~= (Run {
            ctx: *self,
            track: track@,
            slots: slots@,
            events: told(events@),
            emitted,
            ended,
        }));
        while left > 0 && !ended
            invariant
                left <= len,
                self.output_sample_rate > 0,
                channels == self.output_channels,
                self.output_frame_position + left <= u64::MAX,
                (Run { ctx: *self, track: track@, slots: slots@, events: told(events@), emitted, ended })
                    .filled(left as int) == whole,
            decreases left,
        {
            let ghost run = Run {
                ctx: *self,
                track: track@,
                slots: slots@,
                events: told(events@),
                emitted,
                ended,
            };
            let ghost events0 = events@;
            let width: usize = if channels == 0 || left < channels {
                left
            } else {
                channels
            };
            let ready: usize = track.buffered_frames(channels);
            if channels == 0 || !self.has_track || self.status == STATUS_PAUSED {
                push_silence(&mut slots, width);
            } else if self.status == STATUS_LOADING && (ready >= PREBUFFER_FRAMES || (track.finished
                && ready > 0)) {
                let event = self.state_event(PlaybackStatus::Playing, true);
                events.push(event);
                self.status = STATUS_PLAYING;
                push_silence(&mut slots, width);
                assert(told(events@) =~= told(events0).push(event@));
            } else if self.status == STATUS_PLAYING && ready == 0 {
                if track.finished {
                    let event = CallbackEvent::Ended(
                        TrackEndedEvent {
                            recording_id: id_or_empty(&self.current_recording_id),
                            source_id: id_or_empty(&self.current_source_id),
                            position_ms: self.position_ms(),
                        },
                    );
                    events.push(event);
                    track.request_stop();
                    self.status = STATUS_STOPPED;
                    self.has_track = false;
                    self.current_recording_id = None;
                    self.current_source_id = None;
                    self.track_duration_ms = 0;
                    push_silence(&mut slots, width);
                    ended = true;
                    assert(told(events@) =~= told(events0).push(event@));
                } else {
                    let event = self.state_event(PlaybackStatus::Loading, false);
                    events.push(event);
                    self.status = STATUS_LOADING;
                    push_silence(&mut slots, width);
                    assert(told(events@) =~= told(events0).push(event@));
                }
            } else {
                pop_samples(track, &mut slots, width);
                self.output_frame_position = self.output_frame_position + 1;
                let ms: u64 = self.position_ms();
                if !emitted && ms >= self.last_position_emit_ms.saturating_add(250) {
                    self.last_position_emit_ms = ms;
                    let event = CallbackEvent::Position(ms);
                    events.push(event);
                    emitted = true;
                    assert(told(events@) =~= told(events0).push(event@));
                }
            }
            left = left - width;
            proof {
                let next = Run {
                    ctx: *self,
                    track: track@,
                    slots: slots@,
                    events: told(events@),
                    emitted,
                    ended,
                };
                if channels == 0 {
                    assert(next =~= run.quiet(width as int));
                } else {
                    assert(next =~= run.frame(width as int));
                }
            }
        }
        (slots, events)
    }
}

fn push_silence(slots: &mut Vec<Option<u32>>, n: usize)
    ensures
        final(slots)@ == old(slots)@ + silent(n as int),
{
    let mut i: usize = 0;
    assert(slots@ =~= old(slots)@ + silent(0));
    while i < n
        invariant
            i <= n,
            slots@ == old(slots)@ + silent(i as int),
        decreases n - i,
    {
        slots.push(None);
        i = i + 1;
        assert(slots@ =~= old(slots)@ + silent(i as int));
    }
}

fn pop_samples(track: &mut TrackBuffer, slots: &mut Vec<Option<u32>>, n: usize)
    ensures
        final(slots)@ == old(slots)@ + padded(old(track)@.samples, n as int),
        final(track)@ == (Track {
            samples: old(track)@.samples.skip(
                if n < old(track)@.samples.len() {
                    n as int
                } else {
                    old(track)@.samples.len() as int
                },
            ),
            ..old(track)@
        }),
{
    let ghost all = track@.samples;
    let mut i: usize = 0;
    assert(slots@ =~= old(slots)@ + padded(all, 0));
    assert(all.skip(0) =~= all);
    while i < n
        invariant
            i <= n,
            all == old(track)@.samples,
            slots@ == old(slots)@ + padded(all, i as int),
            track@ == (Track {
                samples: all.skip(
                    if i < all.len() {
                        i as int
                    } else {
                        all.len() as int
                    },
                ),
                ..old(track)@
            }),
        decreases n - i,
    {
        let x: u32 = match track.samples.pop_front() {
            Some(sample) => sample,
            None => 0,
        };
        slots.push(Some(x));
        i = i + 1;
        assert(slots@ =~= old(slots)@ + padded(all, i as int));
        assert(track@.samples =~= all.skip(
            if i < all.len() {
                i as int
            } else {
                all.len() as int
            },
        ));
    }
}

// ── Laws ─────────────────────────────────────────────────────────────────────

/// While the player is paused, or has no track, the device gets silence, and
/// nothing changes: the track goes on later where it was.
pub proof fn law_paused_is_silent(run: Run, left: int)
    requires
        run.ctx.status == STATUS_PAUSED || !run.ctx.has_track,
        !run.ended,
        0 <= left,
    ensures
        run.filled(left) == run.quiet(left),
    decreases left,
{
    let channels = run.ctx.output_channels as int;
    let width = if left < channels {
        left
    } else {
        channels
    };
    if left <= 0 {
        assert(run =~= run.quiet(0));
    } else if channels > 0 {
        law_paused_is_silent(run.quiet(width), left - width);
        assert(run.quiet(width).quiet(left - width) =~= run.quiet(left));
    }
}

/// Every slot is filled, unless the track ends.
pub proof fn law_slots_are_filled(run: Run, left: int)
    requires
        0 <= left,
    ensures
        !run.filled(left).ended ==> run.filled(left).slots.len() == run.slots.len() + left,
        run.slots.len() <= run.filled(left).slots.len() <= run.slots.len() + left,
    decreases left,
{
    let channels = run.ctx.output_channels as int;
    let width = if left < channels {
        left
    } else {
        channels
    };
    if left > 0 && !run.ended && channels > 0 {
        assert(run.frame(width).slots.len() == run.slots.len() + width);
        law_slots_are_filled(run.frame(width), left - width);
    }
}

/// The samples among slots.
pub open spec fn heard(slots: Seq<Option<u32>>) -> Seq<u32>
    decreases slots.len(),
{
    if slots.len() == 0 {
        Seq::empty()
    } else {
        match slots.last() {
            Some(x) => heard(slots.drop_last()).push(x),
            None => heard(slots.drop_last()),
        }
    }
}

/// The first `n` of `samples`, and zeros where there are not so many.
pub open spec fn first_samples(samples: Seq<u32>, n: int) -> Seq<u32> {
    Seq::new(
        n as nat,
        |i: int|
            if i < samples.len() {
                samples[i]
            } else {
                0
            },
    )
}

/// What is left when `n` samples were taken.
pub open spec fn remaining_samples(samples: Seq<u32>, n: int) -> Seq<u32> {
    samples.skip(
        if n < samples.len() {
            n
        } else {
            samples.len() as int
        },
    )
}

proof fn lemma_heard_silent(slots: Seq<Option<u32>>, n: int)
    requires
        0 <= n,
    ensures
        heard(slots + silent(n)) == heard(slots),
    decreases n,
{
    if n == 0 {
        assert(slots + silent(0) =~= slots);
    } else {
        lemma_heard_silent(slots, n - 1);
        assert((slots + silent(n)).drop_last() =~= slots + silent(n - 1));
    }
}

proof fn lemma_heard_padded(slots: Seq<Option<u32>>, samples: Seq<u32>, n: int)
    requires
        0 <= n,
    ensures
        heard(slots + padded(samples, n)) == heard(slots) + first_samples(samples, n),
    decreases n,
{
    if n == 0 {
        assert(slots + padded(samples, 0) =~= slots);
        assert(heard(slots) + first_samples(samples, 0) =~= heard(slots));
    } else {
        lemma_heard_padded(slots, samples, n - 1);
        assert((slots + padded(samples, n)).drop_last() =~= slots + padded(samples, n - 1));
        assert(heard(slots) + first_samples(samples, n) =~= (heard(slots) + first_samples(
            samples,
            n - 1,
        )).push(first_samples(samples, n)[n - 1]));
    }
}

/// The device gets the track's samples in their order, none twice and none left
/// out: what a run takes is what stands first in the buffer, followed by zeros
/// only where the buffer was empty, and the rest stays there.
pub proof fn law_samples_come_in_order(run: Run, left: int)
    requires
        0 <= left,
    ensures
        ({
            let end = run.filled(left);
            let n = heard(end.slots).len() - heard(run.slots).len();
            &&& 0 <= n
            &&& heard(end.slots) == heard(run.slots) + first_samples(run.track.samples, n)
            &&& end.track.samples == remaining_samples(run.track.samples, n)
        }),
    decreases left,
{
    let channels = run.ctx.output_channels as int;
    let width = if left < channels {
        left
    } else {
        channels
    };
    let samples = run.track.samples;
    if left <= 0 || run.ended {
        assert(heard(run.slots) + first_samples(samples, 0) =~= heard(run.slots));
        assert(samples.skip(0) =~= samples);
    } else if channels == 0 {
        lemma_heard_silent(run.slots, left);
        assert(heard(run.slots) + first_samples(samples, 0) =~= heard(run.slots));
        assert(samples.skip(0) =~= samples);
    } else {
        let next = run.frame(width);
        let end = run.filled(left);
        law_samples_come_in_order(next, left - width);
        lemma_heard_silent(run.slots, width);
        lemma_heard_padded(run.slots, samples, width);
        let k = heard(next.slots).len() - heard(run.slots).len();
        let m = heard(end.slots).len() - heard(next.slots).len();
        assert(samples.skip(0) =~= samples);
        assert(heard(run.slots) + first_samples(samples, 0) =~= heard(run.slots));
        assert(heard(next.slots) == heard(run.slots) + first_samples(samples, k));
        assert(next.track.samples == remaining_samples(samples, k));
        assert(first_samples(samples, k) + first_samples(next.track.samples, m) =~= first_samples(
            samples,
            k + m,
        ));
        assert(heard(end.slots) =~= heard(run.slots) + first_samples(samples, k + m));
        assert(remaining_samples(next.track.samples, m) =~= remaining_samples(samples, k + m));
    }
}

/// Whether an event tells a position.
pub open spec fn tells_position(e: Told) -> bool {
    e is Position
}

/// A run tells the position at most once, and a run that told it says so.
pub proof fn law_position_is_told_once(run: Run, left: int)
    requires
        !run.emitted,
        run.events.filter(|e: Told| tells_position(e)).len() == 0,
    ensures
        run.filled(left).events.filter(|e: Told| tells_position(e)).len() <= 1,
{
    lemma_position_told(run, left);
}

proof fn lemma_position_told(run: Run, left: int)
    requires
        run.events.filter(|e: Told| tells_position(e)).len() == if run.emitted {
            1int
        } else {
            0
        },
    ensures
        run.filled(left).events.filter(|e: Told| tells_position(e)).len() <= 1,
    decreases left,
{
    let f = |e: Told| tells_position(e);
    let channels = run.ctx.output_channels as int;
    let width = if left < channels {
        left
    } else {
        channels
    };
    if left > 0 && !run.ended && channels > 0 {
        let next = run.frame(width);
        if next.events.len() > run.events.len() {
            assert(next.events =~= run.events.push(next.events.last()));
            run.events.lemma_filter_push(next.events.last(), f);
        }
        lemma_position_told(next, left - width);
    }
}

/// How the status moves in a frame: a track that loads can start to play, one
/// that plays can load again or be over, and nothing else changes.
pub proof fn law_status_moves(run: Run, width: int)
    ensures
        ({
            let from = run.ctx.status;
            let to = run.frame(width).ctx.status;
            ||| to == from
            ||| from == STATUS_LOADING && to == STATUS_PLAYING
            ||| from == STATUS_PLAYING && to == STATUS_LOADING && !run.track.finished
            ||| from == STATUS_PLAYING && to == STATUS_STOPPED && run.track.finished
        }),
        run.frame(width).ended && !run.ended ==> run.ctx.status == STATUS_PLAYING
            && run.track.finished && !run.frame(width).ctx.has_track,
{
}

} // verus!
