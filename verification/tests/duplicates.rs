use thmp5::file_issues::{FileIssue, FileIssueKind, FileIssueLog};
use thmp5::library::scanner::duplicates::duplicate_frames;
use thmp5::models::TrackMetadata;

fn synchsafe(n: u32) -> [u8; 4] {
    [
        ((n >> 21) & 0x7F) as u8,
        ((n >> 14) & 0x7F) as u8,
        ((n >> 7) & 0x7F) as u8,
        (n & 0x7F) as u8,
    ]
}

fn id3_frame(id: &[u8; 4], content: &[u8]) -> Vec<u8> {
    let mut frame = id.to_vec();
    frame.extend_from_slice(&synchsafe(content.len() as u32));
    frame.extend_from_slice(&[0, 0]);
    frame.extend_from_slice(content);
    frame
}

fn id3_tag(frames: &[Vec<u8>]) -> Vec<u8> {
    let body: Vec<u8> = frames.concat();
    let mut tag = b"ID3\x04\x00\x00".to_vec();
    tag.extend_from_slice(&synchsafe(body.len() as u32));
    tag.extend_from_slice(&body);
    tag
}

fn with_audio(tags: Vec<u8>) -> Vec<u8> {
    let mut file = tags;
    file.extend_from_slice(&[0xFF, 0xFB, 0x90, 0x00]);
    file.resize(file.len() + 413, 0u8);
    file
}

fn tagged_meta(title: &str, artist: &str, album_artist: &str, album: &str) -> TrackMetadata {
    let mut meta = TrackMetadata::default();
    meta.title = Some(title.into());
    meta.artist = Some(artist.into());
    meta.album_artist = Some(album_artist.into());
    meta.album = Some(album.into());
    meta
}

fn duplicate_frame_mp3() -> Vec<u8> {
    with_audio(id3_tag(&[
        id3_frame(b"TIT2", b"\x03Corrected Title"),
        id3_frame(b"TIT2", b"\x03Lofty Title"),
        id3_frame(b"TPE1", b"\x03Corrected Artist"),
        id3_frame(b"TPE1", b"\x03Lofty Artist"),
        id3_frame(b"TPE2", b"\x03Corrected Album Artist"),
        id3_frame(b"TPE2", b"\x03Lofty Album Artist"),
        id3_frame(b"TALB", b"\x03Corrected Album"),
        id3_frame(b"TALB", b"\x03Lofty Album"),
    ]))
}

fn clean_mp3() -> Vec<u8> {
    with_audio(id3_tag(&[
        id3_frame(b"TIT2", b"\x03Clean Title"),
        id3_frame(b"TPE1", b"\x03Clean Artist"),
        id3_frame(b"TPE2", b"\x03Clean Album Artist"),
        id3_frame(b"TALB", b"\x03Clean Album"),
    ]))
}

fn picked_last() -> TrackMetadata {
    tagged_meta("Lofty Title", "Lofty Artist", "Lofty Album Artist", "Lofty Album")
}

const PATH: &str = "/music/test_dup.mp3";

fn rescan(log: &mut FileIssueLog, data: &[u8], meta: &TrackMetadata) {
    log.record_rescan(PATH, &duplicate_frames(data, meta), &vec![]);
}

fn duplicates(log: &FileIssueLog) -> Vec<FileIssue> {
    log.all()
        .into_iter()
        .filter(|i| i.kind == FileIssueKind::DuplicateFrame && i.file_path == PATH)
        .collect()
}

#[test]
fn test_rescan_detects_duplicate_frame_issue() {
    let mut log = FileIssueLog::new();
    rescan(&mut log, &duplicate_frame_mp3(), &picked_last());
    let found = duplicates(&log);
    assert_eq!(found.len(), 4);
    for (frame, corrected, lofty) in [
        ("TIT2", "Corrected Title", "Lofty Title"),
        ("TPE1", "Corrected Artist", "Lofty Artist"),
        ("TPE2", "Corrected Album Artist", "Lofty Album Artist"),
        ("TALB", "Corrected Album", "Lofty Album"),
    ] {
        let issue = found
            .iter()
            .find(|i| i.frame_id.as_deref() == Some(frame))
            .unwrap();
        assert_eq!(issue.corrected_value.as_deref(), Some(corrected));
        assert_eq!(issue.lofty_value.as_deref(), Some(lofty));
    }
    assert_eq!(found[2].field_name.as_deref(), Some("album artist"));
}

#[test]
fn test_rescan_duplicate_frame_not_duplicated_on_second_rescan() {
    let mut log = FileIssueLog::new();
    rescan(&mut log, &duplicate_frame_mp3(), &picked_last());
    let first = duplicates(&log).len();
    rescan(&mut log, &duplicate_frame_mp3(), &picked_last());
    assert_eq!(duplicates(&log).len(), first);
}

#[test]
fn test_rescan_clears_duplicate_frame_issue_when_file_is_fixed() {
    let mut log = FileIssueLog::new();
    rescan(&mut log, &duplicate_frame_mp3(), &picked_last());
    assert!(!duplicates(&log).is_empty());
    let clean = tagged_meta("Clean Title", "Clean Artist", "Clean Album Artist", "Clean Album");
    rescan(&mut log, &clean_mp3(), &clean);
    assert!(duplicates(&log).is_empty());
}

#[test]
fn test_dual_tag_lofty_fails_to_parse() {
    let mut tags = id3_tag(&[
        id3_frame(b"TIT2", b"\x03First Title"),
        id3_frame(b"TPE1", b"\x03First Artist"),
    ]);
    tags.extend(id3_tag(&[
        id3_frame(b"TIT2", b"\x03Second Title"),
        id3_frame(b"TPE1", b"\x03Second Artist"),
    ]));
    let meta = tagged_meta("Second Title", "Second Artist", "Album Artist", "Album");
    let mut log = FileIssueLog::new();
    rescan(&mut log, &with_audio(tags), &meta);
    let found = duplicates(&log);
    assert_eq!(found.len(), 2);
    assert_eq!(found[0].corrected_value.as_deref(), Some("First Title"));
}

#[test]
fn a_file_without_a_tag_has_no_duplicates() {
    assert!(duplicate_frames(b"no tag here", &picked_last()).is_empty());
}

#[test]
fn what_was_not_picked_is_not_reported() {
    assert!(duplicate_frames(&duplicate_frame_mp3(), &TrackMetadata::default()).is_empty());
}
