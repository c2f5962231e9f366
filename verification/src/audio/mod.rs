//! Playback: the player's state, its output and its decoder.
use vstd::prelude::*;
use crate::models::PlaybackStatus;

pub mod decode;
pub mod engine;
pub mod laws;
pub mod output;
pub mod resample;

verus! {

pub const PLAYER_STATE_EVENT: &'static str = "player-state";

pub const PLAYER_POSITION_EVENT: &'static str = "player-position";

pub const PLAYER_TRACK_ENDED_EVENT: &'static str = "player-track-ended";

pub const PLAYER_ERROR_EVENT: &'static str = "player-error";

/// So many frames are buffered before a track that is loading plays.
pub const PREBUFFER_FRAMES: usize = 8192;

/// With so many frames buffered the decoder waits.
pub const MAX_BUFFER_FRAMES: usize = 96000;

pub const STATUS_STOPPED: u8 = 0;

pub const STATUS_LOADING: u8 = 1;

pub const STATUS_PLAYING: u8 = 2;

pub const STATUS_PAUSED: u8 = 3;

/// The status that a code stands for.
pub open spec fn status_of(code: u8) -> PlaybackStatus {
    if code == STATUS_LOADING {
        PlaybackStatus::Loading
    } else if code == STATUS_PLAYING {
        PlaybackStatus::Playing
    } else if code == STATUS_PAUSED {
        PlaybackStatus::Paused
    } else {
        PlaybackStatus::Stopped
    }
}

/// The status that a code stands for; an unknown code is a stopped player.
pub fn status_from_u8(code: u8) -> (r: PlaybackStatus)
    ensures
        r == status_of(code),
{
    if code == STATUS_LOADING {
        PlaybackStatus::Loading
    } else if code == STATUS_PLAYING {
        PlaybackStatus::Playing
    } else if code == STATUS_PAUSED {
        PlaybackStatus::Paused
    } else {
        PlaybackStatus::Stopped
    }
}

/// Whether the computer is kept awake: while a track loads or plays.
pub fn should_inhibit_for_status(status: &PlaybackStatus) -> (r: bool)
    ensures
        r == (*status == PlaybackStatus::Loading || *status == PlaybackStatus::Playing),
{
    matches!(*status, PlaybackStatus::Loading | PlaybackStatus::Playing)
}

/// A track to play. The gain is the bits of a 32-bit floating-point number.
#[derive(Debug, Clone)]
pub struct PlayRequest {
    pub recording_id: String,
    pub source_id: String,
    pub file_path: String,
    pub title: Option<String>,
    pub artist: Option<String>,
    pub normalization_gain_bits: u32,
    pub normalization_source: String,
}

/// A track was played to its end.
#[derive(Debug, Clone, PartialEq, Eq)]
pub struct TrackEndedEvent {
    pub recording_id: String,
    pub source_id: String,
    pub position_ms: u64,
}

/// Something went wrong in the player.
#[derive(Debug, Clone)]
pub struct PlayerErrorEvent {
    pub message: String,
}

} // verus!
