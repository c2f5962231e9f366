//! The player: commands, and what they change.
use vstd::prelude::*;
use crate::audio;
use crate::audio::output;
use crate::audio::output::AudioCallbackCtx;
use crate::audio::resample;
use crate::audio::resample::capped_product;
use crate::audio::{status_from_u8, PlayRequest, STATUS_LOADING, STATUS_PAUSED, STATUS_STOPPED};
use crate::file_issues;
use crate::file_issues::{FileIssueKind, FileIssueLog};
use crate::models::{PlaybackStatus, PlayerState};

verus! {

/// What the player is told to do. A volume is the bits of a 32-bit floating-point
/// number.
#[derive(Debug)]
pub enum AudioCommand {
    Play(PlayRequest),
    Pause,
    Resume,
    Seek(u64),
    SetVolume(u32),
    SetNormalizationEnabled(bool),
    Stop,
}

/// What is left to do for a command outside the player's state.
#[derive(Debug)]
pub enum EngineAction {
    Nothing,
    /// Open the file and start at the position, in milliseconds.
    Open(PlayRequest, u64),
    /// Tell the decoder to stop, and forget the track's buffer.
    DropTrack,
}

/// What only the player's own side knows.
#[derive(Debug)]
pub struct SharedState {
    pub engine_error: Option<String>,
    pub current_title: Option<String>,
    pub current_artist: Option<String>,
    pub current_file_path: Option<String>,
    pub normalization_source: String,
}

/// The player: its state, and the commands that change it.
#[derive(Debug)]
pub struct AudioEngineHandle {
    pub ctx: AudioCallbackCtx,
    pub shared: SharedState,
}

fn clone_name(name: &Option<String>) -> (r: Option<String>)
    ensures
        r == *name,
{
    match name {
        Some(x) => Some(x.clone()),
        None => None,
    }
}

// ── Volumes ──────────────────────────────────────────────────────────────────

/// The bits of 1.5, the largest volume.
pub const MAX_VOLUME_BITS: u32 = 0x3FC0_0000;

/// The bits of infinity; above them come numbers that are none.
pub const INFINITY_BITS: u32 = 0x7F80_0000;

/// The bits of minus zero, the first with a sign.
pub const MINUS_ZERO_BITS: u32 = 0x8000_0000;

/// The bits of minus infinity, the last number with a sign.
pub const MINUS_INFINITY_BITS: u32 = 0xFF80_0000;

/// The volume nearest to the one given between 0.0 and 1.5: positive numbers are
/// ordered as their bits are. What is no number stays as it is, and so does minus
/// zero.
pub open spec fn clamped_volume(bits: u32) -> u32 {
    if MAX_VOLUME_BITS < bits <= INFINITY_BITS {
        MAX_VOLUME_BITS
    } else if MINUS_ZERO_BITS < bits <= MINUS_INFINITY_BITS {
        0
    } else {
        bits
    }
}

pub fn clamp_volume(bits: u32) -> (r: u32)
    ensures
        r == clamped_volume(bits),
{
    if MAX_VOLUME_BITS < bits && bits <= INFINITY_BITS {
        MAX_VOLUME_BITS
    } else if MINUS_ZERO_BITS < bits && bits <= MINUS_INFINITY_BITS {
        0
    } else {
        bits
    }
}

/// Setting a volume that is in bounds already changes nothing more.
pub proof fn law_clamping_settles(bits: u32)
    ensures
        clamped_volume(clamped_volume(bits)) == clamped_volume(bits),
        clamped_volume(bits) <= MAX_VOLUME_BITS || clamped_volume(bits) == bits,
{
}

// ── State ────────────────────────────────────────────────────────────────────

impl SharedState {
    /// Whether nothing is known of a track.
    pub open spec fn is_clear(self) -> bool {
        &&& self.current_title is None
        &&& self.current_artist is None
        &&& self.current_file_path is None
        &&& self.normalization_source@ == "None"@
    }

    pub fn new() -> (r: SharedState)
        ensures
            r.is_clear(),
            r.engine_error is None,
    {
        SharedState {
            engine_error: None,
            current_title: None,
            current_artist: None,
            current_file_path: None,
            normalization_source: "None".to_owned(),
        }
    }

    /// Forgets the track, on both sides of the player.
    pub fn clear_track(&mut self, ctx: &mut AudioCallbackCtx)
        ensures
            final(self).is_clear(),
            final(self).engine_error == old(self).engine_error,
            *final(ctx) == cleared(*old(ctx)),
    {
        ctx.status = STATUS_STOPPED;
        ctx.has_track = false;
        ctx.current_recording_id = None;
        ctx.current_source_id = None;
        ctx.output_frame_position = 0;
        ctx.track_duration_ms = 0;
        self.current_title = None;
        self.current_artist = None;
        self.current_file_path = None;
        self.normalization_source = "None".to_owned();
    }
}

/// The device's side without a track.
pub open spec fn cleared(ctx: AudioCallbackCtx) -> AudioCallbackCtx {
    AudioCallbackCtx {
        status: STATUS_STOPPED,
        has_track: false,
        current_recording_id: None,
        current_source_id: None,
        output_frame_position: 0,
        track_duration_ms: 0,
        ..ctx
    }
}

/// The device's side when a track was opened.
pub open spec fn opened(
    ctx: AudioCallbackCtx,
    request: PlayRequest,
    start_ms: u64,
    duration_ms: u64,
) -> AudioCallbackCtx {
    AudioCallbackCtx {
        status: STATUS_LOADING,
        normalization_gain_bits: request.normalization_gain_bits,
        has_track: true,
        track_duration_ms: duration_ms,
        current_recording_id: Some(request.recording_id),
        current_source_id: Some(request.source_id),
        output_frame_position: (resample::capped(start_ms * ctx.output_sample_rate) / 1000) as u64,
        last_position_emit_ms: if start_ms < 250 {
            0
        } else {
            (start_ms - 250) as u64
        },
        ..ctx
    }
}

impl AudioEngineHandle {
    /// A player for a device of the given rate and channels.
    pub fn new(output_sample_rate: u32, output_channels: u16) -> (r: AudioEngineHandle)
        ensures
            r.ctx.status == STATUS_STOPPED,
            !r.ctx.has_track,
            r.ctx.output_sample_rate == output_sample_rate,
            r.ctx.output_channels == output_channels,
            r.ctx == cleared(r.ctx),
            r.ctx.volume_bits == crate::models::UNIT_BITS,
            r.ctx.normalization_gain_bits == crate::models::UNIT_BITS,
            !r.ctx.normalization_enabled,
            r.ctx.last_position_emit_ms == 0,
            r.shared.is_clear(),
            r.shared.engine_error is None,
    {
        AudioEngineHandle {
            ctx: AudioCallbackCtx::new(output_sample_rate, output_channels),
            shared: SharedState::new(),
        }
    }

    /// Notes what will play before the track is opened.
    pub fn play_requested(&mut self, request: &PlayRequest)
        ensures
            final(self).ctx == (AudioCallbackCtx {
                normalization_gain_bits: request.normalization_gain_bits,
                ..old(self).ctx
            }),
            final(self).shared == (SharedState {
                normalization_source: request.normalization_source,
                ..old(self).shared
            }),
    {
        self.ctx.normalization_gain_bits = request.normalization_gain_bits;
        self.shared.normalization_source = request.normalization_source.clone();
    }

    /// The track to open again when the position changes; `None` without a track.
    pub open spec fn current_request(self) -> Option<PlayRequest> {
        if self.ctx.current_recording_id is Some && self.ctx.current_source_id is Some
            && self.shared.current_file_path is Some {
            Some(
                PlayRequest {
                    recording_id: self.ctx.current_recording_id->0,
                    source_id: self.ctx.current_source_id->0,
                    file_path: self.shared.current_file_path->0,
                    title: self.shared.current_title,
                    artist: self.shared.current_artist,
                    normalization_gain_bits: self.ctx.normalization_gain_bits,
                    normalization_source: self.shared.normalization_source,
                },
            )
        } else {
            None
        }
    }

    /// The track to open again when the position changes.
    pub fn request_of_track(&self) -> (r: Option<PlayRequest>)
        ensures
            r == self.current_request(),
    {
        match (
            &self.ctx.current_recording_id,
            &self.ctx.current_source_id,
            &self.shared.current_file_path,
        ) {
            (Some(recording_id), Some(source_id), Some(file_path)) => Some(
                PlayRequest {
                    recording_id: recording_id.clone(),
                    source_id: source_id.clone(),
                    file_path: file_path.clone(),
                    title: clone_name(&self.shared.current_title),
                    artist: clone_name(&self.shared.current_artist),
                    normalization_gain_bits: self.ctx.normalization_gain_bits,
                    normalization_source: self.shared.normalization_source.clone(),
                },
            ),
            _ => None,
        }
    }

    /// Obeys a command as far as that needs no file, and says what is left to do.
    /// Only seeking without a track fails.
    pub fn handle_command(&mut self, command: AudioCommand) -> (r: Result<EngineAction, String>)
        ensures
            match command {
                AudioCommand::Play(request) => {
                    &&& r == Ok::<EngineAction, String>(EngineAction::Open(request, 0))
                    &&& *final(self) == *old(self)
                },
                AudioCommand::Pause => {
                    &&& r == Ok::<EngineAction, String>(EngineAction::Nothing)
                    &&& final(self).ctx == (AudioCallbackCtx {
                        status: STATUS_PAUSED,
                        ..old(self).ctx
                    })
                    &&& final(self).shared == old(self).shared
                },
                AudioCommand::Resume => {
                    &&& r == Ok::<EngineAction, String>(EngineAction::Nothing)
                    &&& final(self).ctx == if old(self).ctx.has_track {
                        AudioCallbackCtx { status: STATUS_LOADING, ..old(self).ctx }
                    } else {
                        old(self).ctx
                    }
                    &&& final(self).shared == old(self).shared
                },
                AudioCommand::Seek(position_ms) => {
                    &&& *final(self) == *old(self)
                    &&& match old(self).current_request() {
                        Some(request) => r == Ok::<EngineAction, String>(
                            EngineAction::Open(request, position_ms),
                        ),
                        None => r is Err && r->Err_0@ == "No active track to seek"@,
                    }
                },
                AudioCommand::SetVolume(bits) => {
                    &&& r == Ok::<EngineAction, String>(EngineAction::Nothing)
                    &&& final(self).ctx == (AudioCallbackCtx {
                        volume_bits: clamped_volume(bits),
                        ..old(self).ctx
                    })
                    &&& final(self).shared == old(self).shared
                },
                AudioCommand::SetNormalizationEnabled(enabled) => {
                    &&& r == Ok::<EngineAction, String>(EngineAction::Nothing)
                    &&& final(self).ctx == (AudioCallbackCtx {
                        normalization_enabled: enabled,
                        ..old(self).ctx
                    })
                    &&& final(self).shared == old(self).shared
                },
                AudioCommand::Stop => {
                    &&& r == Ok::<EngineAction, String>(EngineAction::DropTrack)
                    &&& final(self).ctx == cleared(old(self).ctx)
                    &&& final(self).shared.is_clear()
                    &&& final(self).shared.engine_error == old(self).shared.engine_error
                },
            },
    {
        match command {
            AudioCommand::Play(request) => Ok(EngineAction::Open(request, 0)),
            AudioCommand::Pause => {
                self.ctx.status = STATUS_PAUSED;
                Ok(EngineAction::Nothing)
            },
            AudioCommand::Resume => {
                if self.ctx.has_track {
                    self.ctx.status = STATUS_LOADING;
                }
                Ok(EngineAction::Nothing)
            },
            AudioCommand::Seek(position_ms) => match self.request_of_track() {
                Some(request) => Ok(EngineAction::Open(request, position_ms)),
                None => Err("No active track to seek".to_owned()),
            },
            AudioCommand::SetVolume(bits) => {
                self.ctx.volume_bits = clamp_volume(bits);
                Ok(EngineAction::Nothing)
            },
            AudioCommand::SetNormalizationEnabled(enabled) => {
                self.ctx.normalization_enabled = enabled;
                Ok(EngineAction::Nothing)
            },
            AudioCommand::Stop => {
                self.shared.clear_track(&mut self.ctx);
                Ok(EngineAction::DropTrack)
            },
        }
    }

    /// Plays a track from its start: what will play shows at once, and the file is to
    /// be opened.
    pub fn play(&mut self, request: PlayRequest) -> (r: EngineAction)
        ensures
            r == EngineAction::Open(request, 0),
            final(self).ctx == (AudioCallbackCtx {
                normalization_gain_bits: request.normalization_gain_bits,
                ..old(self).ctx
            }),
            final(self).shared == (SharedState {
                normalization_source: request.normalization_source,
                ..old(self).shared
            }),
    {
        self.play_requested(&request);
        EngineAction::Open(request, 0)
    }

    pub fn pause(&mut self)
        ensures
            final(self).ctx == (AudioCallbackCtx { status: STATUS_PAUSED, ..old(self).ctx }),
            final(self).shared == old(self).shared,
    {
        let _ = self.handle_command(AudioCommand::Pause);
    }

    /// Goes on with the track, if there is one, once enough of it is buffered.
    pub fn resume(&mut self)
        ensures
            final(self).ctx == if old(self).ctx.has_track {
                AudioCallbackCtx { status: STATUS_LOADING, ..old(self).ctx }
            } else {
                old(self).ctx
            },
            final(self).shared == old(self).shared,
    {
        let _ = self.handle_command(AudioCommand::Resume);
    }

    /// Goes to a position of the track: its file is to be opened again there.
    pub fn seek(&mut self, position_ms: u64) -> (r: Result<EngineAction, String>)
        ensures
            *final(self) == *old(self),
            match old(self).current_request() {
                Some(request) => r == Ok::<EngineAction, String>(
                    EngineAction::Open(request, position_ms),
                ),
                None => r is Err && r->Err_0@ == "No active track to seek"@,
            },
    {
        self.handle_command(AudioCommand::Seek(position_ms))
    }

    pub fn set_volume(&mut self, volume_bits: u32)
        ensures
            final(self).ctx == (AudioCallbackCtx {
                volume_bits: clamped_volume(volume_bits),
                ..old(self).ctx
            }),
            final(self).shared == old(self).shared,
    {
        let _ = self.handle_command(AudioCommand::SetVolume(volume_bits));
    }

    pub fn set_normalization_enabled(&mut self, enabled: bool)
        ensures
            final(self).ctx == (AudioCallbackCtx {
                normalization_enabled: enabled,
                ..old(self).ctx
            }),
            final(self).shared == old(self).shared,
    {
        let _ = self.handle_command(AudioCommand::SetNormalizationEnabled(enabled));
    }

    /// Stops the track and forgets it.
    pub fn stop(&mut self) -> (r: EngineAction)
        ensures
            r == EngineAction::DropTrack,
            final(self).ctx == cleared(old(self).ctx),
            final(self).shared.is_clear(),
            final(self).shared.engine_error == old(self).shared.engine_error,
    {
        let _ = self.handle_command(AudioCommand::Stop);
        EngineAction::DropTrack
    }

    /// Starts a track whose file was opened; `duration_ms` is zero where it is not
    /// known.
    pub fn start_playback(&mut self, request: PlayRequest, start_ms: u64, duration_ms: u64)
        ensures
            final(self).ctx == opened(old(self).ctx, request, start_ms, duration_ms),
            final(self).shared == (SharedState {
                current_title: request.title,
                current_artist: request.artist,
                current_file_path: Some(request.file_path),
                normalization_source: request.normalization_source,
                ..old(self).shared
            }),
    {
        let position: u64 = capped_product(start_ms, self.ctx.output_sample_rate as u64) / 1000;
        self.ctx.status = STATUS_LOADING;
        self.ctx.normalization_gain_bits = request.normalization_gain_bits;
        self.ctx.has_track = true;
        self.ctx.track_duration_ms = duration_ms;
        self.ctx.current_recording_id = Some(request.recording_id);
        self.ctx.current_source_id = Some(request.source_id);
        self.ctx.output_frame_position = position;
        self.ctx.last_position_emit_ms = if start_ms < 250 {
            0
        } else {
            start_ms - 250
        };
        self.shared.current_title = request.title;
        self.shared.current_artist = request.artist;
        self.shared.current_file_path = Some(request.file_path);
        self.shared.normalization_source = request.normalization_source;
    }

    /// The device changed.
    pub fn use_device(&mut self, output_sample_rate: u32, output_channels: u16)
        ensures
            final(self).ctx == (AudioCallbackCtx {
                output_sample_rate,
                output_channels,
                ..old(self).ctx
            }),
            final(self).shared == (SharedState { engine_error: None, ..old(self).shared }),
    {
        self.ctx.output_sample_rate = output_sample_rate;
        self.ctx.output_channels = output_channels;
        self.shared.engine_error = None;
    }

    /// What the player does and plays.
    pub fn snapshot(&self) -> (r: PlayerState)
        ensures
            r == (PlayerState {
                status: audio::status_of(self.ctx.status),
                recording_id: self.ctx.current_recording_id,
                source_id: self.ctx.current_source_id,
                title: self.shared.current_title,
                artist: self.shared.current_artist,
                duration_ms: output::known_duration(self.ctx.track_duration_ms),
                position_ms: output::milliseconds(
                    self.ctx.output_frame_position as int,
                    self.ctx.output_sample_rate as int,
                ) as u64,
                volume_bits: self.ctx.volume_bits,
                normalization_enabled: self.ctx.normalization_enabled,
                normalization_gain_bits: self.ctx.normalization_gain_bits,
                normalization_source: self.shared.normalization_source,
            }),
    {
        PlayerState {
            status: status_from_u8(self.ctx.status),
            recording_id: clone_name(&self.ctx.current_recording_id),
            source_id: clone_name(&self.ctx.current_source_id),
            title: clone_name(&self.shared.current_title),
            artist: clone_name(&self.shared.current_artist),
            duration_ms: if self.ctx.track_duration_ms > 0 {
                Some(self.ctx.track_duration_ms)
            } else {
                None
            },
            position_ms: self.ctx.position_ms(),
            volume_bits: self.ctx.volume_bits,
            normalization_enabled: self.ctx.normalization_enabled,
            normalization_gain_bits: self.ctx.normalization_gain_bits,
            normalization_source: self.shared.normalization_source.clone(),
        }
    }

    /// Takes note that the track ended, and gives the state to show: nothing plays.
    pub fn track_ended(&mut self) -> (r: PlayerState)
        ensures
            final(self).ctx == cleared(old(self).ctx),
            final(self).shared.is_clear(),
            final(self).shared.engine_error == old(self).shared.engine_error,
            r.status == PlaybackStatus::Stopped,
            r.recording_id is None && r.source_id is None,
            r.title is None && r.artist is None,
            r.duration_ms is None && r.position_ms == 0,
            r.volume_bits == old(self).ctx.volume_bits,
            r.normalization_enabled == old(self).ctx.normalization_enabled,
            r.normalization_gain_bits == old(self).ctx.normalization_gain_bits,
            r.normalization_source@ == Seq::<char>::empty(),
    {
        self.shared.clear_track(&mut self.ctx);
        proof {
            assert(resample::capped(0) == 0);
            if self.ctx.output_sample_rate > 0 {
                assert(0int / self.ctx.output_sample_rate as int == 0) by (nonlinear_arith)
                    requires
                        self.ctx.output_sample_rate > 0,
                ;
            }
        }
        PlayerState {
            status: PlaybackStatus::Stopped,
            recording_id: None,
            source_id: None,
            title: None,
            artist: None,
            duration_ms: None,
            position_ms: self.ctx.position_ms(),
            volume_bits: self.ctx.volume_bits,
            normalization_enabled: self.ctx.normalization_enabled,
            normalization_gain_bits: self.ctx.normalization_gain_bits,
            normalization_source: String::new(),
        }
    }

    /// Keeps an error of the engine.
    pub fn set_engine_error(&mut self, message: String)
        ensures
            final(self).ctx == old(self).ctx,
            final(self).shared == (SharedState { engine_error: Some(message), ..old(self).shared }),
    {
        self.shared.engine_error = Some(message);
    }

    /// What to say when commands do not get through.
    pub fn unavailable_message(&self) -> (r: String)
        ensures
            r@ == match self.shared.engine_error {
                Some(message) => message@,
                None => "Audio engine is unavailable"@,
            },
    {
        match &self.shared.engine_error {
            Some(message) => message.clone(),
            None => "Audio engine is unavailable".to_owned(),
        }
    }
}

/// What to say when a track's file cannot be opened.
pub fn open_failure(file_path: &str) -> (r: String)
    ensures
        r@ == "Failed to open "@ + file_path@,
{
    let mut r = "Failed to open ".to_owned();
    r.append(file_path);
    r
}

/// Reports a track that was to play and whose file cannot be opened.
pub fn report_open_failure(log: &mut FileIssueLog, file_path: &str)
    ensures
        final(log)@ == old(log)@.push(
            file_issues::plain_issue(
                file_path@,
                FileIssueKind::PlaybackError,
                "Failed to open "@ + file_path@,
            ),
        ),
{
    let message = open_failure(file_path);
    log.push_playback_error(file_path, message.as_str());
}

// ── Laws ─────────────────────────────────────────────────────────────────────

/// Stopping twice is stopping once.
pub proof fn law_stopping_settles(ctx: AudioCallbackCtx)
    ensures
        cleared(cleared(ctx)) == cleared(ctx),
{
}

/// A track that was opened is the one that seeking opens again, at the same gain.
pub proof fn law_seeking_reopens_track(
    before: AudioEngineHandle,
    after: AudioEngineHandle,
    request: PlayRequest,
    start_ms: u64,
    duration_ms: u64,
)
    requires
        after.ctx == opened(before.ctx, request, start_ms, duration_ms),
        after.shared == (SharedState {
            current_title: request.title,
            current_artist: request.artist,
            current_file_path: Some(request.file_path),
            normalization_source: request.normalization_source,
            ..before.shared
        }),
    ensures
        after.current_request() == Some(request),
{
}

/// A track that starts at `start_ms` is at most one millisecond short of it, at
/// every rate of at least a thousand frames a second.
pub proof fn law_start_is_shown(
    ctx: AudioCallbackCtx,
    request: PlayRequest,
    start_ms: u64,
    duration_ms: u64,
)
    requires
        ctx.output_sample_rate >= 1000,
        start_ms * ctx.output_sample_rate <= u64::MAX,
    ensures
        ({
            let shown = output::milliseconds(
                opened(ctx, request, start_ms, duration_ms).output_frame_position as int,
                ctx.output_sample_rate as int,
            );
            start_ms - 1 <= shown <= start_ms
        }),
{
    let rate = ctx.output_sample_rate as int;
    let total = start_ms * rate;
    let frames = total / 1000;
    let part = frames * 1000;
    assert(total - 999 <= part <= total);
    assert(total >= 0) by (nonlinear_arith)
        requires
            total == start_ms * rate,
            start_ms >= 0,
            rate >= 1000,
    ;
    assert(resample::capped(part) == part);
    let q = part / rate;
    vstd::arithmetic::div_mod::lemma_fundamental_div_mod(part, rate);
    assert(start_ms - 1 <= q <= start_ms) by (nonlinear_arith)
        requires
            part == rate * q + part % rate,
            0 <= part % rate < rate,
            total == start_ms * rate,
            total - 999 <= part <= total,
            rate >= 1000,
    ;
}

/// A player that was stopped shows no duration, and position zero.
pub proof fn law_stopped_shows_nothing(ctx: AudioCallbackCtx)
    ensures
        audio::status_of(cleared(ctx).status) == PlaybackStatus::Stopped,
        output::known_duration(cleared(ctx).track_duration_ms) is None,
        output::milliseconds(
            cleared(ctx).output_frame_position as int,
            cleared(ctx).output_sample_rate as int,
        ) == 0,
{
    let rate = ctx.output_sample_rate as int;
    if rate > 0 {
        assert(0int / rate == 0) by (nonlinear_arith)
            requires
                rate > 0,
        ;
    }
}

} // verus!
