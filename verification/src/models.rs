//! The values that the library hands out and takes in.
use vstd::prelude::*;

verus! {

// ── Ratings ──────────────────────────────────────────────────────────────────

/// The mean of star ratings, kept exactly: `sum` stars over `count` ratings, with
/// `count` above zero.
#[derive(Debug, Clone, Copy, PartialEq, Eq, Structural)]
pub struct MeanRating {
    pub sum: i128,
    pub count: u64,
}

// ── Playback ─────────────────────────────────────────────────────────────────

#[derive(Debug, Clone, Copy, PartialEq, Eq, Structural)]
pub enum PlaybackStatus {
    Stopped,
    Loading,
    Playing,
    Paused,
}

/// What the player does and plays. The volume and the gain are the bits of 32-bit
/// floating-point numbers.
#[derive(Debug, Clone, PartialEq, Eq)]
pub struct PlayerState {
    pub status: PlaybackStatus,
    pub recording_id: Option<String>,
    pub source_id: Option<String>,
    pub title: Option<String>,
    pub artist: Option<String>,
    pub duration_ms: Option<u64>,
    pub position_ms: u64,
    pub volume_bits: u32,
    pub normalization_enabled: bool,
    pub normalization_gain_bits: u32,
    pub normalization_source: String,
}

/// The bits of 1.0, the volume and the gain that change nothing.
pub const UNIT_BITS: u32 = 0x3F80_0000;

impl Default for PlayerState {
    /// Nothing plays, at full volume and without normalization.
    fn default() -> (r: PlayerState)
        ensures
            r.status == PlaybackStatus::Stopped,
            r.recording_id is None && r.source_id is None,
            r.title is None && r.artist is None,
            r.duration_ms is None && r.position_ms == 0,
            r.volume_bits == UNIT_BITS && r.normalization_gain_bits == UNIT_BITS,
            !r.normalization_enabled,
            r.normalization_source@ == Seq::<char>::empty(),
    {
        PlayerState {
            status: PlaybackStatus::Stopped,
            recording_id: None,
            source_id: None,
            title: None,
            artist: None,
            duration_ms: None,
            position_ms: 0,
            volume_bits: UNIT_BITS,
            normalization_enabled: false,
            normalization_gain_bits: UNIT_BITS,
            normalization_source: String::new(),
        }
    }
}

#[derive(Debug, Clone, Copy, PartialEq, Eq, Structural)]
pub struct SeekRequest {
    pub position_ms: u64,
}

/// A volume, as the bits of a 32-bit floating-point number.
#[derive(Debug, Clone, Copy, PartialEq, Eq, Structural)]
pub struct VolumeRequest {
    pub volume_bits: u32,
}

#[derive(Debug, Clone)]
pub struct PlayRequest {
    pub source_id: String,
}

// ── Import ───────────────────────────────────────────────────────────────────

#[derive(Debug)]
pub struct ImportStats {
    pub scanned: u32,
    pub imported: u32,
    pub skipped: u32,
    pub errors: u32,
    pub error_messages: Vec<String>,
}

#[derive(Debug)]
pub struct FixMergedRecordingsStats {
    pub recordings_checked: u32,
    pub recordings_split: u32,
    pub sources_reimported: u32,
    pub errors: Vec<String>,
}

#[derive(Debug, Clone)]
pub struct ImportProgress {
    pub is_running: bool,
    pub root_path: Option<String>,
    pub current_path: Option<String>,
    pub scanned: u32,
    pub imported: u32,
    pub skipped: u32,
    pub errors: u32,
    pub error_messages: Vec<String>,
    pub started_at: Option<String>,
    pub finished_at: Option<String>,
    /// Number of files being fingerprinted at the moment.
    pub fingerprinting_count: u32,
}

// ── Configuration ────────────────────────────────────────────────────────────

#[derive(Debug, Clone)]
pub struct ExternalCommand {
    pub name: String,
    pub template: String,
}

#[derive(Debug, Clone)]
pub struct AppConfig {
    pub music_root: Option<String>,
    pub queue_history_limit: i64,
    pub external_commands: Vec<ExternalCommand>,
}

#[derive(Debug)]
pub struct AppBootstrap {
    pub needs_setup: bool,
    pub config: AppConfig,
    pub import_progress: ImportProgress,
    pub library_summary: LibrarySummary,
}

#[derive(Debug, Clone, Copy, PartialEq, Eq, Structural)]
pub struct LibrarySummary {
    pub recording_count: i64,
    pub artist_count: i64,
    pub release_group_count: i64,
    pub source_count: i64,
}

#[derive(Debug)]
pub struct InitialSetupRequest {
    pub music_root: String,
}

#[derive(Debug, Clone, Copy)]
pub struct QueueSettingsUpdate {
    pub queue_history_limit: i64,
}

#[derive(Debug)]
pub struct PlayHistoryInput {
    pub recording_id: String,
    pub source_id: Option<String>,
    pub duration_played_ms: Option<i64>,
}

#[derive(Debug)]
pub struct RatingUpdateRequest {
    pub id: String,
    pub stars: Option<i64>,
}

// ── Connection pool ──────────────────────────────────────────────────────────

#[derive(Debug, Clone)]
pub struct DbPoolLeaseInfo {
    pub id: u64,
    pub purpose: String,
    pub acquired_at_unix_ms: i64,
    pub held_for_ms: u128,
}

#[derive(Debug, Clone)]
pub struct DbPoolWaiterInfo {
    pub id: u64,
    pub purpose: String,
    pub requested_at_unix_ms: i64,
    pub waiting_for_ms: u128,
}

#[derive(Debug, Clone)]
pub struct DbPoolDebugSnapshot {
    pub size: u32,
    pub idle: usize,
    pub active_connection_count: usize,
    pub waiting_request_count: usize,
    pub active_connections: Vec<DbPoolLeaseInfo>,
    pub waiting_requests: Vec<DbPoolWaiterInfo>,
}

// ── Catalogue rows ───────────────────────────────────────────────────────────

#[derive(Debug, Clone)]
pub struct ReleaseInfo {
    pub release_group_id: String,
    pub release_group_title: String,
    pub track_position: Option<i64>,
    pub disc_position: Option<i64>,
    pub disc_total: Option<i64>,
}

#[derive(Debug, Clone)]
pub struct RecordingRow {
    pub id: String,
    pub title: String,
    pub duration_ms: Option<i64>,
    pub primary_artist_id: Option<String>,
    pub artist_credit_name: Option<String>,
    pub genre: Option<String>,
    pub rating: Option<MeanRating>,
    pub play_count: i64,
    pub last_played: Option<String>,
    pub primary_source_id: Option<String>,
    pub primary_source_path: Option<String>,
    pub tags: Vec<String>,
    pub artist_ids: Vec<String>,
    pub source_paths: Vec<String>,
    pub releases: Vec<ReleaseInfo>,
}

/// An artist in a list. The rating is the mean of the means in `ratings`.
#[derive(Debug)]
pub struct ArtistRow {
    pub id: String,
    pub name: String,
    pub sort_name: String,
    pub release_group_count: i64,
    pub recording_count: i64,
    pub ratings: Vec<MeanRating>,
    pub last_played: Option<String>,
}

/// A release group in a list. The rating is the mean of the means in `ratings`.
#[derive(Debug)]
pub struct ReleaseGroupRow {
    pub id: String,
    pub title: String,
    pub artist_credit_name: Option<String>,
    pub primary_artist_id: Option<String>,
    pub release_count: i64,
    pub recording_count: i64,
    pub release_date: Option<String>,
    pub ratings: Vec<MeanRating>,
    pub last_played: Option<String>,
}

// ── Tags ─────────────────────────────────────────────────────────────────────

#[derive(Debug)]
pub struct Id3FrameDebugRequest {
    pub path: String,
    pub frame_id: String,
}

#[derive(Debug)]
pub struct Id3FrameDebugInfo {
    pub frame_id: String,
    pub field_name: String,
    pub version_major: u8,
    pub declared_encoding_byte: u8,
    pub declared_encoding_name: String,
    pub payload_len: usize,
    pub raw_payload_hex_preview: String,
    pub utf8: Option<String>,
    pub latin1: Option<String>,
    pub utf16_with_bom: Option<String>,
    pub utf16be_without_bom: Option<String>,
    pub utf16le_without_bom: Option<String>,
}

#[derive(Debug, Clone)]
pub struct TagProperty {
    pub key: String,
    pub value: String,
}

#[derive(Debug, Clone)]
pub struct SourceTagInfo {
    pub frame_id: String,
    pub field_name: String,
    pub value: String,
}

/// What the tags of a file say. Numbers with a fraction are the bit patterns of
/// double-precision numbers.
#[derive(Debug)]
pub struct TrackMetadata {
    pub title: Option<String>,
    pub artist: Option<String>,
    /// All artists, separated by semicolons.
    pub artists: Option<String>,
    pub album_artist: Option<String>,
    pub album: Option<String>,
    pub year: Option<u32>,
    pub track_number: Option<u32>,
    pub track_total: Option<u32>,
    pub disc_number: Option<u32>,
    pub duration_ms: u64,
    pub format: String,
    pub genre: Option<String>,
    pub comment: Option<String>,
    pub bpm_bits: Option<u64>,
    pub replay_gain_track_db_bits: Option<u64>,
    pub replay_gain_track_peak_bits: Option<u64>,
    pub replay_gain_album_db_bits: Option<u64>,
    pub replay_gain_album_peak_bits: Option<u64>,
    pub recording_mbid: Option<String>,
}

impl Default for TrackMetadata {
    fn default() -> (r: TrackMetadata)
        ensures
            r.title is None,
            r.artist is None,
            r.artists is None,
            r.album_artist is None,
            r.album is None,
            r.year is None,
            r.track_number is None,
            r.track_total is None,
            r.disc_number is None,
            r.duration_ms == 0,
            r.format@ == Seq::<char>::empty(),
            r.genre is None,
            r.comment is None,
            r.bpm_bits is None,
            r.replay_gain_track_db_bits is None,
            r.replay_gain_track_peak_bits is None,
            r.replay_gain_album_db_bits is None,
            r.replay_gain_album_peak_bits is None,
            r.recording_mbid is None,
    {
        TrackMetadata {
            title: None,
            artist: None,
            artists: None,
            album_artist: None,
            album: None,
            year: None,
            track_number: None,
            track_total: None,
            disc_number: None,
            duration_ms: 0,
            format: String::new(),
            genre: None,
            comment: None,
            bpm_bits: None,
            replay_gain_track_db_bits: None,
            replay_gain_track_peak_bits: None,
            replay_gain_album_db_bits: None,
            replay_gain_album_peak_bits: None,
            recording_mbid: None,
        }
    }
}

/// What was read of a file: its tags, a warning if they were hard to read, and all
/// that the fallback reader found.
#[derive(Debug)]
pub struct MetadataReadResult {
    pub meta: TrackMetadata,
    pub warning: Option<String>,
    pub all_tags: Vec<TagProperty>,
    pub duplicate_frames: Vec<DuplicateFrameInfo>,
}

/// A frame that occurs more than once in a file with different values.
#[derive(Debug, Clone)]
pub struct DuplicateFrameInfo {
    pub frame_id: String,
    pub field_name: String,
    /// The value that the tag reader picked.
    pub lofty_value: String,
    /// The first value in the file.
    pub corrected_value: String,
}

/// The new ratings of a recording, an artist or a release group: those of all its
/// recordings that have one.
#[derive(Debug)]
pub struct EntityRatingUpdate {
    pub id: String,
    pub ratings: Vec<MeanRating>,
}

/// What a new rating of a source changes.
#[derive(Debug)]
pub struct RecordingRatingUpdateResult {
    pub recording: EntityRatingUpdate,
    pub release_groups: Vec<EntityRatingUpdate>,
    pub artists: Vec<EntityRatingUpdate>,
    pub affected_recordings: Vec<EntityRatingUpdate>,
}

/// Whether the name of an artist stands for several artists.
#[derive(Debug)]
pub struct CompoundArtistCheck {
    pub is_compound: bool,
    pub evidence_count: usize,
    pub total_sources_checked: usize,
    pub individual_artist_names: Vec<String>,
    pub source_examples: Vec<String>,
}

// ── Smart playlists ──────────────────────────────────────────────────────────

#[derive(Debug)]
pub struct SmartPlaylistRequest {
    pub query: String,
}

#[derive(Debug)]
pub struct SmartPlaylistResult {
    pub recordings: Vec<RecordingRow>,
    pub total_duration_ms: i64,
    /// How the result was found, for display.
    pub sql: String,
}

#[derive(Debug)]
pub struct PlaylistRow {
    pub id: i64,
    pub name: String,
    pub kind: String,
    pub query: Option<String>,
}

#[derive(Debug)]
pub struct SaveSmartPlaylistRequest {
    pub name: String,
    pub query: String,
}

// ── Details ──────────────────────────────────────────────────────────────────

/// An artist. The rating is the mean of the means in `ratings`.
#[derive(Debug)]
pub struct ArtistDetail {
    pub id: String,
    pub name: String,
    pub sort_name: String,
    pub mbid: Option<String>,
    pub ratings: Vec<MeanRating>,
    pub last_played: Option<String>,
    pub recording_count: i64,
    pub release_group_count: i64,
    pub release_groups: Vec<ArtistReleaseGroup>,
    pub guest_appearances: Vec<GuestAppearanceReleaseGroup>,
}

/// A release group of an artist. The rating is the mean of the means in
/// `ratings`.
#[derive(Debug)]
pub struct ArtistReleaseGroup {
    pub id: String,
    pub title: String,
    pub rg_type: Option<String>,
    pub release_date: Option<String>,
    pub recording_count: i64,
    pub ratings: Vec<MeanRating>,
    pub primary_artist_id: Option<String>,
    pub artist_credit_name: Option<String>,
}

#[derive(Debug, Clone)]
pub struct GuestAppearanceTrack {
    pub recording_id: String,
    pub recording_title: String,
    pub track_position: Option<i64>,
    pub disc_position: Option<i64>,
}

#[derive(Debug)]
pub struct GuestAppearanceReleaseGroup {
    pub id: String,
    pub title: String,
    pub rg_type: Option<String>,
    pub release_date: Option<String>,
    pub primary_artist_id: Option<String>,
    pub artist_credit_name: Option<String>,
    pub tracks: Vec<GuestAppearanceTrack>,
}

/// A release group. The rating is the mean of the means in `ratings`.
#[derive(Debug)]
pub struct ReleaseGroupDetail {
    pub id: String,
    pub title: String,
    pub rg_type: Option<String>,
    pub artist_credit_name: Option<String>,
    pub primary_artist_id: Option<String>,
    pub ratings: Vec<MeanRating>,
    pub last_played: Option<String>,
    pub release_date: Option<String>,
    pub releases: Vec<ReleaseDetail>,
}

/// Whether all tracks of a release are there.
#[derive(Debug)]
pub enum ReleaseCompleteness {
    Complete,
    Incomplete { missing_tracks: nonempty::NonEmpty<MissingTrackDetail> },
    Unknown { reason: String, disagreement_groups: Vec<SourceDisagreementGroup> },
}

/// Sources that claim the same layout of a release.
#[derive(Debug, Clone)]
pub struct SourceDisagreementGroup {
    pub description: String,
    pub source_paths: Vec<String>,
}

#[derive(Debug)]
pub struct ReleaseDetail {
    pub id: String,
    pub title: String,
    pub release_date: Option<String>,
    pub country: Option<String>,
    pub label: Option<String>,
    pub catalog_number: Option<String>,
    pub mediums: Vec<MediumDetail>,
    pub completeness: ReleaseCompleteness,
}

#[derive(Debug, Clone)]
pub struct MissingTrackDetail {
    pub disc_position: i64,
    pub track_position: i64,
    pub title: String,
    pub recording_id: Option<String>,
}

#[derive(Debug)]
pub struct MediumDetail {
    pub id: String,
    pub position: i64,
    pub format: Option<String>,
    pub tracks: Vec<TrackDetail>,
}

#[derive(Debug, Clone)]
pub struct TrackDetail {
    pub id: String,
    pub position: i64,
    pub title: Option<String>,
    pub duration_ms: Option<i64>,
    pub recording_id: String,
    pub recording_title: String,
    pub artist_credit_name: Option<String>,
    pub primary_artist_id: Option<String>,
    pub has_source: bool,
    pub primary_source_id: Option<String>,
}

/// A recording. `bpm` is the text of its tag, to be read as a number.
#[derive(Debug)]
pub struct RecordingDetail {
    pub id: String,
    pub title: String,
    pub duration_ms: Option<i64>,
    pub genre: Option<String>,
    pub bpm: Option<String>,
    pub comment: Option<String>,
    pub artist_credit_name: Option<String>,
    pub primary_artist_id: Option<String>,
    pub artist_credit_text: Option<String>,
    pub mbid: Option<String>,
    pub acoustid: Option<String>,
    pub rating: Option<MeanRating>,
    pub play_count: i64,
    pub last_played: Option<String>,
    pub artists: Vec<RecordingArtistInfo>,
    pub releases: Vec<ReleaseInfo>,
    pub sources: Vec<SourceDetail>,
}

#[derive(Debug, Clone)]
pub struct RecordingArtistInfo {
    pub artist_id: String,
    pub name: String,
    pub position: i64,
    pub role: String,
    pub credited_as: Option<String>,
}

/// A source of a recording. The gain and peak are the bit patterns of
/// double-precision numbers.
#[derive(Debug)]
pub struct SourceDetail {
    pub id: String,
    pub source_type: String,
    pub file_path: Option<String>,
    pub format: Option<String>,
    pub duration_ms: Option<i64>,
    pub replay_gain_track_db_bits: Option<u64>,
    pub replay_gain_track_peak_bits: Option<u64>,
    pub tags: Vec<SourceTagInfo>,
}

// ── Non-empty lists ──────────────────────────────────────────────────────────

#[verifier::external_type_specification]
#[verifier::external_body]
#[verifier::reject_recursive_types(T)]
pub struct ExNonEmpty<T>(nonempty::NonEmpty<T>);

/// The tracks that a non-empty list holds, in order.
pub uninterp spec fn missing_items(list: nonempty::NonEmpty<MissingTrackDetail>) -> Seq<
    MissingTrackDetail,
>;

/// `nonempty::NonEmpty::from_vec`: the same items in the same order, or `None`
/// for an empty vector.
#[verifier::external_body]
pub(crate) fn non_empty(items: Vec<MissingTrackDetail>) -> (r: Option<
    nonempty::NonEmpty<MissingTrackDetail>,
>)
    ensures
        match r {
            Some(list) => items@.len() > 0 && missing_items(list) == items@,
            None => items@.len() == 0,
        },
{
    nonempty::NonEmpty::from_vec(items)
}

} // verus!
