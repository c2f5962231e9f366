//! How a track sounds, and what the player shows of it.
use vstd::prelude::*;
use vstd::arithmetic::div_mod::lemma_fundamental_div_mod;
use crate::models::{PlaybackStatus, PlayerState};
use crate::text;
use super::decode;
use super::decode::{DecodeAction, DecodeEvent};
use super::engine;
use super::engine::AudioEngineHandle;
use super::output;
use super::output::{AudioCallbackCtx, Run, Told, TrackBuffer};
use super::resample;
use super::resample::Resampling;
use super::PlayRequest;

verus! {

// ── Decoding ─────────────────────────────────────────────────────────────────

/// While a track plays, packets of other tracks and damaged ones are passed over, the end
/// of the file ends it wherever it is met, and every failure is told.
pub proof fn law_playback_goes_on()
    ensures
        decode::playback_action(DecodeEvent::Decoded) is Deliver,
        decode::playback_action(DecodeEvent::OtherTrack) is Skip,
        decode::playback_action(DecodeEvent::DamagedPacket) is Skip,
        decode::playback_action(DecodeEvent::EndOfFile) is End,
        decode::playback_action(DecodeEvent::EndInPacket) is End,
        decode::playback_action(DecodeEvent::ResetRequired) is FailReset,
        decode::playback_action(DecodeEvent::ReadFailed) is Fail,
        decode::playback_action(DecodeEvent::DecodeFailed) is Fail,
{
}

/// Before a track plays its first packet has to come: its end is a failure then, and so
/// is every other one.
pub proof fn law_first_packet_has_to_come(event: DecodeEvent)
    ensures
        decode::priming_action(event) is Deliver <==> event is Decoded,
        decode::priming_action(event) is Skip <==> event is OtherTrack || event is DamagedPacket,
        decode::priming_action(event) is End ==> false,
        decode::priming_action(event) is FailReset ==> false,
{
}

// ── Volume ───────────────────────────────────────────────────────────────────

/// A volume from zero to one and a half is kept; a higher one becomes one and a half, and
/// one below zero becomes zero. The numbers are given by their bits, which for numbers
/// that are not negative are ordered as the numbers are.
pub proof fn law_volume_is_held_in_bounds(bits: u32)
    ensures
        bits <= 0x3FC0_0000 ==> engine::clamped_volume(bits) == bits,
        0x3FC0_0000 < bits <= 0x7F80_0000 ==> engine::clamped_volume(bits) == 0x3FC0_0000,
        0x8000_0000 < bits <= 0xFF80_0000 ==> engine::clamped_volume(bits) == 0,
        engine::clamped_volume(0x8000_0000) == 0x8000_0000,
        0x7F80_0000 < bits < 0x8000_0000 || bits > 0xFF80_0000 ==> engine::clamped_volume(bits)
            == bits,
{
}

// ── The player ───────────────────────────────────────────────────────────────

/// The codes of the player's states.
pub proof fn law_states_are_coded(code: u8)
    ensures
        super::status_of(1) is Loading,
        super::status_of(2) is Playing,
        super::status_of(3) is Paused,
        code == 0 || code > 3 ==> super::status_of(code) is Stopped,
{
}

/// A track that was opened loads, under its identifiers and with its gain, and begins at
/// the position asked for. Volume and output stay as they were.
pub proof fn law_opened_track_loads(
    ctx: AudioCallbackCtx,
    request: PlayRequest,
    start_ms: u64,
    duration_ms: u64,
)
    requires
        start_ms * ctx.output_sample_rate <= u64::MAX,
    ensures
        ({
            let o = engine::opened(ctx, request, start_ms, duration_ms);
            &&& super::status_of(o.status) is Loading
            &&& o.has_track
            &&& o.track_duration_ms == duration_ms
            &&& o.normalization_gain_bits == request.normalization_gain_bits
            &&& text::opt_text(o.current_recording_id) == Some(request.recording_id@)
            &&& text::opt_text(o.current_source_id) == Some(request.source_id@)
            &&& o.output_frame_position == start_ms * ctx.output_sample_rate / 1000
            &&& start_ms >= 250 ==> o.last_position_emit_ms == start_ms - 250
            &&& start_ms < 250 ==> o.last_position_emit_ms == 0
            &&& o.volume_bits == ctx.volume_bits
            &&& o.normalization_enabled == ctx.normalization_enabled
            &&& o.output_sample_rate == ctx.output_sample_rate
            &&& o.output_channels == ctx.output_channels
        }),
{
    let n = start_ms * ctx.output_sample_rate;
    assert(n >= 0) by (nonlinear_arith)
        requires
            n == start_ms * ctx.output_sample_rate,
    ;
}

/// A player that was stopped has no track, and keeps its volume and its output.
pub proof fn law_stopped_player_has_no_track(ctx: AudioCallbackCtx)
    ensures
        ({
            let o = engine::cleared(ctx);
            &&& super::status_of(o.status) is Stopped
            &&& !o.has_track
            &&& o.current_recording_id is None
            &&& o.current_source_id is None
            &&& o.output_frame_position == 0
            &&& o.track_duration_ms == 0
            &&& o.volume_bits == ctx.volume_bits
            &&& o.normalization_enabled == ctx.normalization_enabled
            &&& o.normalization_gain_bits == ctx.normalization_gain_bits
            &&& o.output_sample_rate == ctx.output_sample_rate
            &&& o.output_channels == ctx.output_channels
        }),
{
}

/// A track can be opened again as long as its recording, its source and its path are
/// known, and then just as it was asked for.
pub proof fn law_track_can_be_opened_again(h: AudioEngineHandle)
    ensures
        h.current_request() is Some <==> h.ctx.current_recording_id is Some
            && h.ctx.current_source_id is Some && h.shared.current_file_path is Some,
        h.current_request() matches Some(r) ==> {
            &&& text::opt_text(h.ctx.current_recording_id) == Some(r.recording_id@)
            &&& text::opt_text(h.ctx.current_source_id) == Some(r.source_id@)
            &&& text::opt_text(h.shared.current_file_path) == Some(r.file_path@)
            &&& text::opt_text(r.title) == text::opt_text(h.shared.current_title)
            &&& text::opt_text(r.artist) == text::opt_text(h.shared.current_artist)
            &&& r.normalization_gain_bits == h.ctx.normalization_gain_bits
            &&& r.normalization_source@ == h.shared.normalization_source@
        },
{
}

// ── The output ───────────────────────────────────────────────────────────────

/// Frames make whole milliseconds, as many as fit in them.
pub proof fn law_frames_make_milliseconds(frames: int, rate: int)
    requires
        0 <= frames,
        0 < rate,
        frames * 1000 <= u64::MAX,
    ensures
        ({
            let ms = output::milliseconds(frames, rate);
            ms * rate <= frames * 1000 < (ms + 1) * rate
        }),
{
    let ms = output::milliseconds(frames, rate);
    lemma_fundamental_div_mod(frames * 1000, rate);
    vstd::arithmetic::div_mod::lemma_mod_bound(frames * 1000, rate);
    assert(ms * rate <= frames * 1000 < (ms + 1) * rate) by (nonlinear_arith)
        requires
            frames * 1000 == rate * ms + (frames * 1000) % rate,
            0 <= (frames * 1000) % rate < rate,
    ;
}

/// A track that loads begins to sound when it has 8192 frames ready, or has come whole and
/// has any. It is told then, with what is known of the track; the frame itself is silent.
pub proof fn law_loaded_track_begins(run: Run, width: int)
    requires
        run.ctx.has_track,
        super::status_of(run.ctx.status) is Loading,
        run.ctx.output_channels > 0,
        0 <= width,
        run.track.samples.len() >= 8192 * run.ctx.output_channels || (run.track.finished
            && run.track.samples.len() >= run.ctx.output_channels),
    ensures
        ({
            let r = run.frame(width);
            &&& super::status_of(r.ctx.status) is Playing
            &&& r.track == run.track
            &&& r.ctx.output_frame_position == run.ctx.output_frame_position
            &&& r.slots.len() == run.slots.len() + width
            &&& forall|i: int|
                run.slots.len() <= i < run.slots.len() + width ==> (#[trigger] r.slots[i]) is None
            &&& r.events.len() == run.events.len() + 1
            &&& r.events.last() matches Told::State {
                status,
                recording_id,
                source_id,
                duration_ms,
                volume_bits,
                normalization_enabled,
                normalization_gain_bits,
                ..
            } && status is Playing && recording_id == text::opt_text(run.ctx.current_recording_id)
                && source_id == text::opt_text(run.ctx.current_source_id) && (duration_ms is Some
                <==> run.ctx.track_duration_ms > 0) && (duration_ms is Some ==> duration_ms->0
                == run.ctx.track_duration_ms) && volume_bits == run.ctx.volume_bits
                && normalization_enabled == run.ctx.normalization_enabled
                && normalization_gain_bits == run.ctx.normalization_gain_bits
        }),
{
    lemma_frames_ready(run.track.samples.len() as int, run.ctx.output_channels as int, 8192);
    lemma_frames_ready(run.track.samples.len() as int, run.ctx.output_channels as int, 1);
}

proof fn lemma_frames_ready(samples: int, channels: int, n: int)
    requires
        0 <= samples,
        0 < channels,
        0 <= n,
    ensures
        output::frames_in(samples, channels) >= n <==> samples >= n * channels,
{
    let q = samples / channels;
    lemma_fundamental_div_mod(samples, channels);
    vstd::arithmetic::div_mod::lemma_mod_bound(samples, channels);
    assert(q >= n <==> samples >= n * channels) by (nonlinear_arith)
        requires
            samples == channels * q + samples % channels,
            0 <= samples % channels < channels,
            0 < channels,
    ;
}

/// A track that plays gives its next samples, one frame at a time.
pub proof fn law_playing_track_sounds(run: Run, width: int)
    requires
        run.ctx.has_track,
        super::status_of(run.ctx.status) is Playing,
        run.ctx.output_channels > 0,
        run.track.samples.len() >= run.ctx.output_channels,
        0 <= width <= run.ctx.output_channels,
        run.ctx.output_frame_position < u64::MAX,
        !run.ended,
    ensures
        ({
            let r = run.frame(width);
            &&& super::status_of(r.ctx.status) is Playing
            &&& r.ctx.output_frame_position == run.ctx.output_frame_position + 1
            &&& r.slots.len() == run.slots.len() + width
            &&& forall|i: int|
                0 <= i < width ==> #[trigger] r.slots[run.slots.len() + i] == Some(
                    run.track.samples[i],
                )
            &&& r.track.samples == run.track.samples.skip(width)
            &&& !r.ended
        }),
{
    lemma_frames_ready(run.track.samples.len() as int, run.ctx.output_channels as int, 1);
}

/// A track that plays and has nothing ready is over when it has come whole: the player
/// stops, and tells what ended and where. Otherwise it loads again.
pub proof fn law_played_out_track_ends(run: Run, width: int)
    requires
        run.ctx.has_track,
        super::status_of(run.ctx.status) is Playing,
        run.ctx.output_channels > 0,
        run.track.samples.len() < run.ctx.output_channels,
        0 <= width,
    ensures
        ({
            let r = run.frame(width);
            &&& run.track.finished ==> {
                &&& r.ended
                &&& super::status_of(r.ctx.status) is Stopped
                &&& !r.ctx.has_track
                &&& r.ctx.current_recording_id is None && r.ctx.current_source_id is None
                &&& r.track.stop_requested
                &&& r.events.len() == run.events.len() + 1
                &&& r.events.last() matches Told::Ended { recording_id, source_id, position_ms } && (
                run.ctx.current_recording_id is Some ==> recording_id
                    == run.ctx.current_recording_id->0@) && (run.ctx.current_source_id is Some
                    ==> source_id == run.ctx.current_source_id->0@) && position_ms
                    == output::milliseconds(
                    run.ctx.output_frame_position as int,
                    run.ctx.output_sample_rate as int,
                )
            }
            &&& !run.track.finished ==> {
                &&& r.ended == run.ended
                &&& super::status_of(r.ctx.status) is Loading
                &&& r.ctx.has_track
                &&& r.events.len() == run.events.len() + 1
                &&& r.events.last() matches Told::State { status, .. } && status is Loading
            }
            &&& forall|i: int|
                run.slots.len() <= i < run.slots.len() + width ==> (#[trigger] r.slots[i]) is None
        }),
{
    lemma_frames_ready(run.track.samples.len() as int, run.ctx.output_channels as int, 1);
}

/// The position is told when it is a quarter of a second past the last that was told.
pub proof fn law_position_is_told_in_quarters(run: Run, width: int)
    requires
        run.ctx.has_track,
        super::status_of(run.ctx.status) is Playing,
        run.ctx.output_channels > 0,
        run.track.samples.len() >= run.ctx.output_channels,
        run.ctx.last_position_emit_ms + 250 <= u64::MAX,
        !run.emitted,
    ensures
        ({
            let ms = output::milliseconds(
                run.ctx.output_frame_position + 1,
                run.ctx.output_sample_rate as int,
            );
            let r = run.frame(width);
            &&& ms >= run.ctx.last_position_emit_ms + 250 ==> r.events == run.events.push(
                Told::Position(ms),
            ) && r.emitted
            &&& ms < run.ctx.last_position_emit_ms + 250 ==> r.events == run.events && !r.emitted
                && r.ctx.last_position_emit_ms == run.ctx.last_position_emit_ms
        }),
{
    lemma_frames_ready(run.track.samples.len() as int, run.ctx.output_channels as int, 1);
}

// ── Resampling ───────────────────────────────────────────────────────────────

/// Each output frame shows the source frame at its time: the last that begins no later.
pub proof fn law_frames_are_shown_in_time(n: int, source_rate: int, output_rate: int)
    requires
        0 <= n,
        0 < source_rate,
        0 < output_rate,
        n * source_rate <= u64::MAX,
    ensures
        ({
            let k = resample::shown_frame(n, source_rate, output_rate);
            k * output_rate <= n * source_rate < (k + 1) * output_rate
        }),
{
    let p = n * source_rate;
    let k = resample::shown_frame(n, source_rate, output_rate);
    lemma_fundamental_div_mod(p, output_rate);
    vstd::arithmetic::div_mod::lemma_mod_bound(p, output_rate);
    assert(k * output_rate <= p < (k + 1) * output_rate) by (nonlinear_arith)
        requires
            p == output_rate * k + p % output_rate,
            0 <= p % output_rate < output_rate,
    ;
}

/// What comes out are the samples of the source frames that are shown, channel by
/// channel; channels that the source lacks repeat its last.
pub proof fn law_output_is_samples_of_source(v: Resampling, i: int, c: int, k: int)
    requires
        v.valid(),
        v.has_room(0),
        0 <= i < v.end() - v.next,
        0 <= c < v.output_channels,
        k == resample::shown_frame(v.next + i, v.source_rate, v.output_rate),
        v.offset <= k,
    ensures
        v.output().len() == (v.end() - v.next) * v.output_channels,
        c < v.source_channels && (k - v.offset) * v.source_channels + c < v.pending.len()
            ==> v.output()[i * v.output_channels + c] == v.pending[(k - v.offset)
            * v.source_channels + c],
        c >= v.source_channels && (k - v.offset + 1) * v.source_channels - 1 < v.pending.len()
            ==> v.output()[i * v.output_channels + c] == v.pending[(k - v.offset + 1)
            * v.source_channels - 1],
{
    lemma_frames_at(v, v.end() - v.next, i, c);
    let s = v.source_channels;
    assert((k - v.offset) * s + (s - 1) == (k - v.offset + 1) * s - 1) by (nonlinear_arith);
}

proof fn lemma_frames_at(v: Resampling, count: int, i: int, c: int)
    requires
        0 <= i < count,
        0 <= c < v.output_channels,
    ensures
        v.frames(count).len() == count * v.output_channels,
        v.frames(count)[i * v.output_channels + c] == v.frame(v.next + i)[c],
    decreases count,
{
    let o = v.output_channels;
    let last = v.frame(v.next + count - 1);
    let front = v.frames(count - 1);
    assert(last.len() == o);
    assert(0 <= i * o) by (nonlinear_arith)
        requires
            0 <= i,
            0 <= o,
    ;
    if count > 1 {
        lemma_frames_at(v, count - 1, if i < count - 1 {
            i
        } else {
            0
        }, c);
        assert((count - 1) * o + o == count * o) by (nonlinear_arith);
        if i < count - 1 {
            assert(i * o + c < (count - 1) * o) by (nonlinear_arith)
                requires
                    0 <= i < count - 1,
                    0 <= c < o,
            ;
        }
    } else {
        assert(v.frames(0).len() == 0);
        assert(i * o == 0) by (nonlinear_arith)
            requires
                i == 0,
        ;
        assert(count * o == o) by (nonlinear_arith)
            requires
                count == 1,
        ;
    }
}

/// Output goes on just as far as source frames have come: the frame at its end would show
/// one that has not come yet.
pub proof fn law_output_goes_as_far_as_source(v: Resampling, n: int)
    requires
        v.valid(),
        v.has_room(0),
    ensures
        v.next <= n < v.end() ==> resample::shown_frame(n, v.source_rate, v.output_rate)
            < v.known(),
        resample::shown_frame(v.end(), v.source_rate, v.output_rate) >= v.known(),
        v.next <= v.end(),
{
    resample::lemma_end_frame(v.next, v.known(), v.source_rate, v.output_rate);
}

/// What is left over begins with the first frame that is still needed.
pub proof fn law_needed_frames_are_kept(v: Resampling, i: int)
    requires
        v.valid(),
        v.has_room(0),
        v.settled(),
        v.rest().offset <= v.known(),
        0 <= i < v.rest().pending.len(),
    ensures
        v.rest().next == v.end(),
        v.rest().pending[i] == v.pending[(v.rest().offset - v.offset) * v.source_channels + i],
        v.rest().source_rate == v.source_rate && v.rest().output_rate == v.output_rate,
        v.rest().source_channels == v.source_channels && v.rest().output_channels
            == v.output_channels,
{
}

// ── What is answered ─────────────────────────────────────────────────────────

/// A decoder stops when it is told to, waits while 96,000 frames are ready, and decodes
/// otherwise.
pub proof fn law_decoder_waits_for_room(b: &TrackBuffer, channels: usize, r: decode::DecoderStep)
    requires
        call_ensures(TrackBuffer::decoder_step, (b, channels), r),
        channels > 0,
    ensures
        b.stop_requested ==> r is Stop,
        !b.stop_requested && b@.samples.len() >= 96000 * channels ==> r is Wait,
        !b.stop_requested && b@.samples.len() < 96000 * channels ==> r is Decode,
{
    lemma_frames_ready(b@.samples.len() as int, channels as int, 96000);
}

/// The desktop is kept awake while a track loads or plays.
pub proof fn law_music_keeps_awake(status: &PlaybackStatus, r: bool)
    requires
        call_ensures(super::should_inhibit_for_status, (status,), r),
    ensures
        *status is Loading || *status is Playing ==> r,
        *status is Paused || *status is Stopped ==> !r,
{
}

/// The length of a track is known from its frames and its rate, or is zero.
pub proof fn law_length_of_track(frames: Option<u64>, rate: Option<u32>, r: u64)
    requires
        call_ensures(decode::track_duration_ms, (frames, rate), r),
    ensures
        frames is None || rate is None ==> r == 0,
        frames is Some && rate is Some && rate->0 > 0 && frames->0 * 1000 <= u64::MAX ==> r
            * rate->0 <= frames->0 * 1000 < (r + 1) * rate->0,
{
    if frames is Some && rate is Some && rate->0 > 0 && frames->0 * 1000 <= u64::MAX {
        law_frames_make_milliseconds(frames->0 as int, rate->0 as int);
    }
}

/// What the player shows of itself.
pub proof fn law_player_shows_itself(h: &AudioEngineHandle, r: PlayerState)
    requires
        call_ensures(AudioEngineHandle::snapshot, (h,), r),
    ensures
        r.status == super::status_of(h.ctx.status),
        text::opt_text(r.recording_id) == text::opt_text(h.ctx.current_recording_id),
        text::opt_text(r.source_id) == text::opt_text(h.ctx.current_source_id),
        text::opt_text(r.title) == text::opt_text(h.shared.current_title),
        text::opt_text(r.artist) == text::opt_text(h.shared.current_artist),
        r.duration_ms is Some <==> h.ctx.track_duration_ms > 0,
        r.duration_ms is Some ==> r.duration_ms->0 == h.ctx.track_duration_ms,
        r.volume_bits == h.ctx.volume_bits,
        r.normalization_enabled == h.ctx.normalization_enabled,
        r.normalization_gain_bits == h.ctx.normalization_gain_bits,
        r.normalization_source@ == h.shared.normalization_source@,
{
}

/// A paused player, and one without a track, give silence and nothing else: no sample is
/// used up, no position moves and nothing is told.
pub proof fn law_paused_player_is_silent(run: Run, width: int, i: int)
    requires
        super::status_of(run.ctx.status) is Paused || !run.ctx.has_track,
        0 <= width,
    ensures
        ({
            let r = run.frame(width);
            &&& r.ctx == run.ctx
            &&& r.track == run.track
            &&& r.events == run.events
            &&& r.ended == run.ended
            &&& r.slots.len() == run.slots.len() + width
            &&& 0 <= i < run.slots.len() ==> r.slots[i] == run.slots[i]
            &&& run.slots.len() <= i < run.slots.len() + width ==> r.slots[i] is None
        }),
{
}

} // verus!
