//! The logic of a local music library and player: tag editing, smart
//! playlists, the in-memory catalogue, import decisions and playback state.

pub mod audio;
pub mod audio_probe;
pub mod calendar;
pub mod commands;
pub mod db;
pub mod digest;
pub mod file_issues;
pub mod fingerprint;
pub mod importer;
pub mod lastfm;
pub mod library;
pub mod models;
pub mod play;
pub mod query;
pub mod sleep_inhibitor;
pub mod sorting;
pub mod storage;
pub mod text;
pub mod waveform;
