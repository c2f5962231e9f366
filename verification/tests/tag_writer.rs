use thmp5::calendar::civil_from_days;
use thmp5::library::tag_writer::edit::{
    apply_merge, audio_hash, backup_name, collect_preserved_frames_all, delete_frame,
    preview_merge, rebuild_file, verify_delete, verify_merge, verify_write, write_single_frame,
    MergeDecision, TagWriteResult, VerifyError,
};
use thmp5::library::tag_writer::serialize::u32_to_synchsafe;
use thmp5::library::tag_writer::{find_audio_offset, iter_tags, parse_text_frames, TagError};

/// The path that a backup of the test file gets.
fn backup() -> String {
    backup_name("test.mp3", Some(1_700_000_000))
}

/// Writes a frame, and checks the new file as if it had been read back.
fn write_and_verify(file: &[u8], frame_id: &str, value: &str) -> (TagWriteResult, Vec<u8>) {
    let w = write_single_frame(file, frame_id, value).unwrap();
    let result = verify_write(&w, &backup(), &w.data, frame_id, value).unwrap();
    (result, w.data)
}

/// Deletes a frame, and checks the new file as if it had been read back.
fn delete_and_verify(file: &[u8], frame_id: &str) -> (TagWriteResult, Vec<u8>) {
    let w = delete_frame(file, frame_id).unwrap();
    let result = verify_delete(&w, &backup(), &w.data, frame_id).unwrap();
    (result, w.data)
}

/// Merges the tags, and checks the new file as if it had been read back.
fn merge_and_verify(file: &[u8], decisions: &[MergeDecision]) -> (TagWriteResult, Vec<u8>) {
    let w = apply_merge(file, decisions).unwrap();
    let result = verify_merge(&w, &backup(), &w.data, decisions).unwrap();
    (result, w.data)
}

fn synchsafe(n: u32) -> [u8; 4] {
    u32_to_synchsafe(n)
}

fn id3_frame(frame_id: &[u8; 4], data: &[u8]) -> Vec<u8> {
    let mut buf = Vec::new();
    buf.extend_from_slice(frame_id);
    buf.extend_from_slice(&synchsafe(data.len() as u32));
    buf.extend_from_slice(&[0, 0]);
    buf.extend_from_slice(data);
    buf
}

fn synth_mp3(frames: &[Vec<u8>]) -> Vec<u8> {
    let mut tag_data = Vec::new();
    for f in frames {
        tag_data.extend_from_slice(f);
    }
    let mut file = Vec::new();
    file.extend_from_slice(b"ID3");
    file.extend_from_slice(&[0x04, 0x00]);
    file.push(0x00);
    file.extend_from_slice(&synchsafe(tag_data.len() as u32));
    file.extend_from_slice(&tag_data);
    file.extend_from_slice(&[0xFF, 0xFB, 0x90, 0x00]);
    file.resize(file.len() + 413, 0u8);
    file
}

#[test]
fn test_find_audio_offset_no_id3() {
    assert_eq!(find_audio_offset(b"\xFF\xFB\x90\x00audio"), 0);
}

#[test]
fn test_find_audio_offset_with_id3() {
    let mut data = Vec::new();
    data.extend_from_slice(b"ID3");
    data.extend_from_slice(&[0x04, 0x00, 0x00]);
    data.extend_from_slice(&synchsafe(100));
    data.extend_from_slice(&vec![0u8; 100]);
    data.extend_from_slice(b"audio_data");
    assert_eq!(find_audio_offset(&data), 110);
}

#[test]
fn test_parse_text_frames_basic() {
    let frames = vec![
        id3_frame(b"TIT2", b"\x03Test Song"),
        id3_frame(b"TPE1", b"\x03Artist"),
    ];
    let data = synth_mp3(&frames);
    let (parsed, version) = parse_text_frames(&data).unwrap();
    assert_eq!(version, 4);
    assert_eq!(
        parsed,
        vec![
            ("TIT2".into(), "Test Song".into()),
            ("TPE1".into(), "Artist".into()),
        ]
    );
}

#[test]
fn test_full_roundtrip() {
    let frames = vec![
        id3_frame(b"TIT2", b"\x03Song"),
        id3_frame(b"TPE1", b"\x03Artist"),
        id3_frame(b"TALB", b"\x03Album"),
    ];
    let original = synth_mp3(&frames);
    let (parsed, version) = parse_text_frames(&original).unwrap();
    let rebuilt = rebuild_file(&original, &parsed, version, &[]).unwrap();
    let (reparsed, _) = parse_text_frames(&rebuilt).unwrap();
    assert_eq!(parsed, reparsed);
}

#[test]
fn test_audio_hash_preserved() {
    let frames = vec![id3_frame(b"TIT2", b"\x03Song")];
    let original = synth_mp3(&frames);
    let orig_hash = audio_hash(&original);
    let (parsed, version) = parse_text_frames(&original).unwrap();
    let rebuilt = rebuild_file(&original, &parsed, version, &[]).unwrap();
    assert_eq!(orig_hash, audio_hash(&rebuilt));
}

#[test]
fn test_delete_frame_rebuild() {
    let frames = vec![
        id3_frame(b"TIT2", b"\x03Song"),
        id3_frame(b"TPE1", b"\x03Artist"),
    ];
    let original = synth_mp3(&frames);
    let (parsed, version) = parse_text_frames(&original).unwrap();
    let filtered: Vec<_> = parsed.into_iter().filter(|(id, _)| id != "TPE1").collect();
    let new_data = rebuild_file(&original, &filtered, version, &[]).unwrap();
    let (reparsed, _) = parse_text_frames(&new_data).unwrap();
    assert_eq!(reparsed.len(), 1);
    assert_eq!(reparsed[0].0, "TIT2");
}

#[test]
fn test_add_frame_rebuild() {
    let frames = vec![id3_frame(b"TIT2", b"\x03Song")];
    let original = synth_mp3(&frames);
    let (mut parsed, version) = parse_text_frames(&original).unwrap();
    parsed.push(("TCON".into(), "Rock".into()));
    let new_data = rebuild_file(&original, &parsed, version, &[]).unwrap();
    let (reparsed, _) = parse_text_frames(&new_data).unwrap();
    assert!(reparsed
        .iter()
        .any(|(id, val)| id == "TCON" && val == "Rock"));
}

#[test]
fn test_write_single_frame_is_verified() {
    let frames = vec![id3_frame(b"TIT2", b"\x03Original")];
    let data = synth_mp3(&frames);
    let file = &data;

    let (result, written) = write_and_verify(file, "TIT2", "Modified");
    assert!(result.backup_path.ends_with(".thmp5bak"));
    assert_eq!(result.pre_audio_hash, result.post_audio_hash);

    let (reparsed, _) = parse_text_frames(&written).unwrap();
    assert!(reparsed
        .iter()
        .any(|(id, val)| id == "TIT2" && val == "Modified"));
}

#[test]
fn test_delete_frame_is_verified() {
    let frames = vec![
        id3_frame(b"TIT2", b"\x03Song"),
        id3_frame(b"TPE1", b"\x03Artist"),
    ];
    let data = synth_mp3(&frames);
    let file = &data;

    let (result, written) = delete_and_verify(file, "TPE1");
    assert_eq!(result.pre_audio_hash, result.post_audio_hash);

    let (reparsed, _) = parse_text_frames(&written).unwrap();
    assert!(!reparsed.iter().any(|(id, _)| id == "TPE1"));
}

#[test]
fn test_upsert_adds_new_frame() {
    let frames = vec![id3_frame(b"TIT2", b"\x03Song")];
    let data = synth_mp3(&frames);
    let file = &data;

    let (_, written) = write_and_verify(file, "TCON", "Rock");

    let (reparsed, _) = parse_text_frames(&written).unwrap();
    assert!(reparsed
        .iter()
        .any(|(id, val)| id == "TCON" && val == "Rock"));
}

#[test]
fn test_civil_from_days_known_date() {
    // 2026-05-22 is approximately 20588 days after 1970-01-01
    // Let's verify: 2026-05-22
    let epoch_days = 365 * 56 + 14 + 31 + 28 + 31 + 30 + 22 - 1; // approx
    let expected = (1970 + 56, 5u32, 22u32);
    let (y, m, d) = civil_from_days(epoch_days as i64);
    assert_eq!((y, m, d), expected, "epoch_days={epoch_days}");
}

// ── TXXX tests ─────────────────────────────────────────────────────────────

fn txxx_frame(description: &str, value: &str) -> Vec<u8> {
    let mut payload = vec![0x03u8]; // UTF-8
    payload.extend_from_slice(description.as_bytes());
    payload.push(0x00);
    payload.extend_from_slice(value.as_bytes());
    id3_frame(b"TXXX", &payload)
}

#[test]
fn test_parse_txxx_frames() {
    let frames = vec![
        txxx_frame("MusicBrainz Artist Id", "some-uuid"),
        txxx_frame("MusicBrainz Album Id", "album-uuid"),
    ];
    let data = synth_mp3(&frames);
    let (parsed, _) = parse_text_frames(&data).unwrap();
    assert_eq!(
        parsed,
        vec![
            ("TXXX:MusicBrainz Artist Id".into(), "some-uuid".into()),
            ("TXXX:MusicBrainz Album Id".into(), "album-uuid".into()),
        ]
    );
}

#[test]
fn test_txxx_roundtrip() {
    let frames = vec![
        id3_frame(b"TIT2", b"\x03Song"),
        txxx_frame("MusicBrainz Artist Id", "some-uuid"),
        txxx_frame("MusicBrainz Album Id", "uuid-2"),
    ];
    let original = synth_mp3(&frames);
    let (parsed, version) = parse_text_frames(&original).unwrap();
    let rebuilt = rebuild_file(&original, &parsed, version, &[]).unwrap();
    let (reparsed, _) = parse_text_frames(&rebuilt).unwrap();
    assert_eq!(parsed, reparsed);
}

#[test]
fn test_txxx_preserved_across_edit_of_other_frame() {
    let frames = vec![
        id3_frame(b"TIT2", b"\x03Song"),
        txxx_frame("MusicBrainz Artist Id", "artist-uuid"),
        id3_frame(b"TPE1", b"\x03Original Artist"),
    ];
    let original = synth_mp3(&frames);
    let file = &original;

    // Edit the TPE1 frame — TXXX should survive
    let (_, written) = write_and_verify(file, "TPE1", "Modified Artist");

    let (reparsed, _) = parse_text_frames(&written).unwrap();
    assert!(reparsed
        .iter()
        .any(|(id, val)| id == "TPE1" && val == "Modified Artist"));
    assert!(reparsed
        .iter()
        .any(|(id, val)| id == "TXXX:MusicBrainz Artist Id" && val == "artist-uuid"));
    assert!(reparsed
        .iter()
        .any(|(id, val)| id == "TIT2" && val == "Song"));
}

#[test]
fn test_write_txxx_frame_is_verified() {
    let frames = vec![
        id3_frame(b"TIT2", b"\x03Song"),
        txxx_frame("MusicBrainz Artist Id", "old-uuid"),
    ];
    let original = synth_mp3(&frames);
    let file = &original;

    let (result, written) = write_and_verify(file, "TXXX:MusicBrainz Artist Id", "new-uuid");
    assert_eq!(result.pre_audio_hash, result.post_audio_hash);

    let (reparsed, _) = parse_text_frames(&written).unwrap();
    assert!(reparsed
        .iter()
        .any(|(id, val)| id == "TXXX:MusicBrainz Artist Id" && val == "new-uuid"));
    // Original TIT2 should still be there
    assert!(reparsed.iter().any(|(id, _)| id == "TIT2"));
}

// ── COMM tests ─────────────────────────────────────────────────────────────

fn comm_frame(description: &str, text: &str) -> Vec<u8> {
    let mut payload = vec![0x03u8]; // UTF-8
    payload.extend_from_slice(b"eng"); // language
    payload.extend_from_slice(description.as_bytes());
    payload.push(0x00);
    payload.extend_from_slice(text.as_bytes());
    id3_frame(b"COMM", &payload)
}

#[test]
fn test_parse_comm_frame() {
    let data = synth_mp3(&[comm_frame("", "A comment")]);
    let (parsed, _) = parse_text_frames(&data).unwrap();
    assert_eq!(parsed, vec![("COMM".into(), "A comment".into())]);
}

#[test]
fn test_parse_comm_frame_with_description() {
    let data = synth_mp3(&[comm_frame("ID3v1 Comment", "Ripped by X")]);
    let (parsed, _) = parse_text_frames(&data).unwrap();
    assert_eq!(
        parsed,
        vec![("COMM:ID3v1 Comment".into(), "Ripped by X".into())]
    );
}

#[test]
fn test_parse_comm_frame_utf16() {
    // UTF-16LE with BOM: encoding 0x01, empty description, 2-byte terminator.
    let mut payload = vec![0x01u8];
    payload.extend_from_slice(b"eng");
    payload.extend_from_slice(&[0xFF, 0xFE, 0x00, 0x00]); // BOM + terminator
    payload.extend_from_slice(&[0xFF, 0xFE]); // BOM for the text
    for c in "Hi".encode_utf16() {
        payload.extend_from_slice(&c.to_le_bytes());
    }
    let data = synth_mp3(&[id3_frame(b"COMM", &payload)]);
    let (parsed, _) = parse_text_frames(&data).unwrap();
    assert_eq!(parsed, vec![("COMM".into(), "Hi".into())]);
}

#[test]
fn test_comm_roundtrip() {
    let original = synth_mp3(&[
        id3_frame(b"TIT2", b"\x03Song"),
        comm_frame("", "A comment"),
        comm_frame("ID3v1 Comment", "Ripped by X"),
    ]);
    let (parsed, version) = parse_text_frames(&original).unwrap();
    let rebuilt = rebuild_file(&original, &parsed, version, &[]).unwrap();
    let (reparsed, _) = parse_text_frames(&rebuilt).unwrap();
    assert_eq!(parsed, reparsed);
}

#[test]
fn test_comm_preserved_across_edit_of_other_frame() {
    let original = synth_mp3(&[id3_frame(b"TIT2", b"\x03Song"), comm_frame("", "A comment")]);
    let file = &original;

    let (_, written) = write_and_verify(file, "TIT2", "New Song");

    let (reparsed, _) = parse_text_frames(&written).unwrap();
    assert!(reparsed
        .iter()
        .any(|(id, val)| id == "TIT2" && val == "New Song"));
    assert!(reparsed
        .iter()
        .any(|(id, val)| id == "COMM" && val == "A comment"));
}

#[test]
fn test_write_comm_frame_is_verified() {
    let original = synth_mp3(&[
        id3_frame(b"TIT2", b"\x03Song"),
        comm_frame("", "Old comment"),
    ]);
    let file = &original;

    let (result, written) = write_and_verify(file, "COMM", "New comment");
    assert_eq!(result.pre_audio_hash, result.post_audio_hash);

    let (reparsed, _) = parse_text_frames(&written).unwrap();
    let comments: Vec<_> = reparsed
        .into_iter()
        .filter(|(id, _)| id.starts_with("COMM"))
        .collect();
    assert_eq!(comments, vec![("COMM".into(), "New comment".into())]);
}

#[test]
fn test_write_comm_leaves_described_comments_alone() {
    // iTunes stores gapless/normalization data in described COMM frames.
    // Editing "the comment" must not overwrite them.
    let original = synth_mp3(&[
        comm_frame("iTunNORM", "0000 0001"),
        comm_frame("", "Old comment"),
    ]);
    let file = &original;

    let (_, written) = write_and_verify(file, "COMM", "New comment");

    let (reparsed, _) = parse_text_frames(&written).unwrap();
    assert_eq!(
        reparsed,
        vec![
            ("COMM:iTunNORM".into(), "0000 0001".into()),
            ("COMM".into(), "New comment".into()),
        ]
    );
}

#[test]
fn test_delete_comm_frame() {
    let original = synth_mp3(&[
        id3_frame(b"TIT2", b"\x03Song"),
        comm_frame("iTunNORM", "0000 0001"),
        comm_frame("", "A comment"),
    ]);
    let file = &original;

    let (_, written) = delete_and_verify(file, "COMM");

    let (reparsed, _) = parse_text_frames(&written).unwrap();
    // Only the plain comment goes; described comments are left intact.
    assert_eq!(
        reparsed,
        vec![
            ("TIT2".into(), "Song".into()),
            ("COMM:iTunNORM".into(), "0000 0001".into()),
        ]
    );
}

#[test]
fn test_delete_txxx_frame() {
    let frames = vec![
        id3_frame(b"TIT2", b"\x03Song"),
        txxx_frame("MusicBrainz Artist Id", "some-uuid"),
    ];
    let original = synth_mp3(&frames);
    let file = &original;

    let (result, written) = delete_and_verify(file, "TXXX:MusicBrainz Artist Id");
    assert_eq!(result.pre_audio_hash, result.post_audio_hash);

    let (reparsed, _) = parse_text_frames(&written).unwrap();
    assert!(!reparsed
        .iter()
        .any(|(id, _)| id == "TXXX:MusicBrainz Artist Id"));
    // TIT2 should still be there
    assert!(reparsed.iter().any(|(id, _)| id == "TIT2"));
}

/// Build a synthetic MP3 with two consecutive ID3v2 tags, then audio.
fn synth_mp3_two_tags(tag1: &[Vec<u8>], tag2: &[Vec<u8>]) -> Vec<u8> {
    let mut file = Vec::new();
    for frames in [tag1, tag2] {
        let mut tag_data = Vec::new();
        for f in frames {
            tag_data.extend_from_slice(f);
        }
        file.extend_from_slice(b"ID3");
        file.extend_from_slice(&[0x04, 0x00]);
        file.push(0x00);
        file.extend_from_slice(&synchsafe(tag_data.len() as u32));
        file.extend_from_slice(&tag_data);
    }
    file.extend_from_slice(&[0xFF, 0xFB, 0x90, 0x00]);
    file.resize(file.len() + 413, 0u8);
    file
}

fn merge_decision(frame_id: &str, value: &str) -> MergeDecision {
    MergeDecision {
        frame_id: frame_id.to_string(),
        value: value.to_string(),
    }
}

#[test]
fn test_preview_merge_reports_conflicts() {
    let tag1 = vec![
        id3_frame(b"TIT2", b"\x03First Title"),
        id3_frame(b"TPE1", b"\x03Shared Artist"),
    ];
    let tag2 = vec![
        id3_frame(b"TIT2", b"\x03Second Title"),
        id3_frame(b"TPE1", b"\x03Shared Artist"),
        id3_frame(b"TALB", b"\x03Album"),
    ];
    let data = synth_mp3_two_tags(&tag1, &tag2);
    let file = &data;

    let conflicts = preview_merge(file).unwrap();
    // Only TIT2 differs between the tags. TPE1 matches, TALB is unique.
    assert_eq!(conflicts.len(), 1);
    assert_eq!(conflicts[0].frame_id, "TIT2");
    assert_eq!(conflicts[0].values, vec!["First Title", "Second Title"]);
}

#[test]
fn test_preview_merge_ignores_trailing_null_only_difference() {
    // decode_id3v2_text strips trailing NULs for ISO-8859-1, so "Foo" and
    // "Foo\0" read as the same value and shouldn't be shown as a conflict.
    let tag1 = vec![id3_frame(b"TIT2", b"\x00Foo")];
    let tag2 = vec![id3_frame(b"TIT2", b"\x00Foo\x00")];
    let data = synth_mp3_two_tags(&tag1, &tag2);
    let file = &data;

    let conflicts = preview_merge(file).unwrap();
    assert!(conflicts.is_empty());
}

#[test]
fn test_apply_merge_collapses_and_preserves() {
    let tag1 = vec![
        id3_frame(b"TIT2", b"\x03First Title"),
        id3_frame(b"TPE1", b"\x03Shared Artist"),
    ];
    let tag2 = vec![
        id3_frame(b"TIT2", b"\x03Second Title"),
        id3_frame(b"TPE1", b"\x03Shared Artist"),
        id3_frame(b"TALB", b"\x03Album"),
    ];
    let data = synth_mp3_two_tags(&tag1, &tag2);
    let file = &data;
    let pre_audio = audio_hash(&data);

    let (result, written) = merge_and_verify(file, &[merge_decision("TIT2", "Second Title")]);
    assert_eq!(result.pre_audio_hash, result.post_audio_hash);
    assert_eq!(result.pre_audio_hash, pre_audio);

    let (reparsed, _) = parse_text_frames(&written).unwrap();
    // Chosen value for TIT2 wins.
    assert!(reparsed
        .iter()
        .any(|(id, v)| id == "TIT2" && v == "Second Title"));
    // Matching frame survives.
    assert!(reparsed
        .iter()
        .any(|(id, v)| id == "TPE1" && v == "Shared Artist"));
    // Frame unique to the second tag is preserved (not dropped).
    assert!(reparsed.iter().any(|(id, v)| id == "TALB" && v == "Album"));
    // Only one tag remains (the two consecutive tags collapsed into one).
    assert_eq!(iter_tags(&written).len(), 1);
}

#[test]
fn test_apply_merge_keeps_first_when_not_decided() {
    let tag1 = vec![id3_frame(b"TIT2", b"\x03First Title")];
    let tag2 = vec![id3_frame(b"TIT2", b"\x03Second Title")];
    let data = synth_mp3_two_tags(&tag1, &tag2);
    let file = &data;

    let (_, written) = merge_and_verify(file, &[]);
    let (reparsed, _) = parse_text_frames(&written).unwrap();
    assert_eq!(
        reparsed,
        vec![("TIT2".to_string(), "First Title".to_string())]
    );
}

#[test]
fn test_apply_merge_verifies_empty_value() {
    // One tag has "Foo", the other an empty TIT2 (encoding byte only).
    // Choosing the empty value must succeed rather than rolling back.
    let tag1 = vec![id3_frame(b"TIT2", b"\x03Foo")];
    let tag2 = vec![id3_frame(b"TIT2", b"\x03")];
    let data = synth_mp3_two_tags(&tag1, &tag2);
    let file = &data;

    let (result, written) = merge_and_verify(file, &[merge_decision("TIT2", "")]);
    assert_eq!(result.pre_audio_hash, result.post_audio_hash);

    let (reparsed, _) = parse_text_frames(&written).unwrap();
    assert!(reparsed.iter().any(|(id, v)| id == "TIT2" && v.is_empty()));
}

#[test]
fn test_apply_merge_dedups_identical_preserved_frames() {
    let apic = id3_frame(b"APIC", b"\x00image/jpeg\x00\x03\xff\xd8\xff\xe0");
    let tag1 = vec![apic.clone(), id3_frame(b"TIT2", b"\x03First Title")];
    let tag2 = vec![apic, id3_frame(b"TIT2", b"\x03Second Title")];
    let data = synth_mp3_two_tags(&tag1, &tag2);
    let file = &data;

    let (_, written) = merge_and_verify(file, &[merge_decision("TIT2", "Second Title")]);
    // The identical APIC from both tags is deduplicated to a single frame.
    let preserved = collect_preserved_frames_all(&written, 4);
    assert_eq!(preserved.len(), 1);
}

// ── v2.3 helpers ─────────────────────────────────────────────────────────

/// Build a v2.3 frame: frame ID + big-endian size + flags + payload.
fn id3_frame_be(frame_id: &[u8; 4], data: &[u8]) -> Vec<u8> {
    let mut buf = Vec::new();
    buf.extend_from_slice(frame_id);
    buf.extend_from_slice(&(data.len() as u32).to_be_bytes());
    buf.extend_from_slice(&[0, 0]);
    buf.extend_from_slice(data);
    buf
}

/// Build a synthetic v2.3 MP3. Per the ID3v2.3 spec the tag *size* is
/// synchsafe (like v2.4), while *frame* sizes are big-endian.
fn synth_mp3_v3(frames: &[Vec<u8>]) -> Vec<u8> {
    let mut tag_data = Vec::new();
    for f in frames {
        tag_data.extend_from_slice(f);
    }
    let mut file = Vec::new();
    file.extend_from_slice(b"ID3");
    file.extend_from_slice(&[0x03, 0x00, 0x00]); // v3, revision 0, flags 0
    file.extend_from_slice(&synchsafe(tag_data.len() as u32));
    file.extend_from_slice(&tag_data);
    file.extend_from_slice(&[0xFF, 0xFB, 0x90, 0x00]);
    file.resize(file.len() + 413, 0u8);
    file
}

/// Build a v2.3 MP3 with an extended header (flags = 0x40). The v2.3
/// extended-header size field excludes its own 4 bytes, so a 10-byte
/// extended header stores the value 6.
fn synth_mp3_v3_extended(frames: &[Vec<u8>]) -> Vec<u8> {
    let mut body = Vec::new();
    body.extend_from_slice(&6u32.to_be_bytes()); // ext size (excludes itself)
    body.extend_from_slice(&[0x00, 0x00]); // extended flags
    body.extend_from_slice(&0u32.to_be_bytes()); // size of padding
    for f in frames {
        body.extend_from_slice(f);
    }
    let mut file = Vec::new();
    file.extend_from_slice(b"ID3");
    file.extend_from_slice(&[0x03, 0x00, 0x40]); // v3, flags = extended header
    file.extend_from_slice(&synchsafe(body.len() as u32));
    file.extend_from_slice(&body);
    file.extend_from_slice(&[0xFF, 0xFB, 0x90, 0x00]);
    file.resize(file.len() + 413, 0u8);
    file
}

#[test]
fn test_v3_tag_size_is_synchsafe() {
    // A v2.3 tag body >= 128 bytes: the tag-size header must be read as
    // synchsafe, not big-endian (which would mis-slice the audio).
    let title: Vec<u8> = std::iter::once(0x03u8)
        .chain(std::iter::repeat(b'A').take(200))
        .collect();
    let frames = vec![id3_frame_be(b"TIT2", &title)];
    let data = synth_mp3_v3(&frames);
    let expected_audio = 10 + frames.iter().map(|f| f.len()).sum::<usize>();
    assert_eq!(find_audio_offset(&data), expected_audio);
}

#[test]
fn test_v3_extended_header_skip_is_correct() {
    let frames = vec![id3_frame_be(b"TIT2", b"\x03Song")];
    let data = synth_mp3_v3_extended(&frames);
    let (parsed, version) = parse_text_frames(&data).unwrap();
    assert_eq!(version, 3);
    assert_eq!(parsed, vec![("TIT2".to_string(), "Song".to_string())]);
}

#[test]
fn test_write_single_frame_preserves_second_tag_frames() {
    let tag1 = vec![
        id3_frame(b"TIT2", b"\x03Song"),
        id3_frame(b"TPE1", b"\x03Original Artist"),
    ];
    let tag2 = vec![
        id3_frame(b"TIT2", b"\x03Song"),
        comm_frame("", "A comment"),
        id3_frame(b"TALB", b"\x03Album"),
    ];
    let data = synth_mp3_two_tags(&tag1, &tag2);
    let file = &data;

    let (_, written) = write_and_verify(file, "TPE1", "New Artist");

    let (reparsed, _) = parse_text_frames(&written).unwrap();
    assert!(reparsed
        .iter()
        .any(|(id, v)| id == "TPE1" && v == "New Artist"));
    assert!(reparsed.iter().any(|(id, v)| id == "TIT2" && v == "Song"));
    // Frames unique to the second tag must survive the edit.
    assert!(reparsed
        .iter()
        .any(|(id, v)| id == "COMM" && v == "A comment"));
    assert!(reparsed.iter().any(|(id, v)| id == "TALB" && v == "Album"));
}

#[test]
fn test_delete_frame_preserves_second_tag_frames() {
    let tag1 = vec![
        id3_frame(b"TIT2", b"\x03Song"),
        id3_frame(b"TPE1", b"\x03Artist"),
    ];
    let tag2 = vec![
        id3_frame(b"TIT2", b"\x03Song"),
        id3_frame(b"TALB", b"\x03Album"),
    ];
    let data = synth_mp3_two_tags(&tag1, &tag2);
    let file = &data;

    let (_, written) = delete_and_verify(file, "TPE1");

    let (reparsed, _) = parse_text_frames(&written).unwrap();
    assert!(!reparsed.iter().any(|(id, _)| id == "TPE1"));
    assert!(reparsed.iter().any(|(id, v)| id == "TIT2" && v == "Song"));
    // Frame unique to the second tag must survive the delete.
    assert!(reparsed.iter().any(|(id, v)| id == "TALB" && v == "Album"));
}

#[test]
fn a_file_without_a_tag_is_not_edited() {
    let audio = b"\xFF\xFB\x90\x00audio";
    assert!(matches!(write_single_frame(audio, "TIT2", "x"), Err(TagError::NoTag)));
    assert!(matches!(delete_frame(audio, "TIT2"), Err(TagError::NoTag)));
    assert!(matches!(preview_merge(audio), Err(TagError::NoTag)));
    assert!(matches!(apply_merge(audio, &[]), Err(TagError::NoTag)));
    assert!(matches!(
        rebuild_file(audio, &[], 7, &[]),
        Err(TagError::UnsupportedVersion(7))
    ));
}

#[test]
fn a_damaged_write_is_noticed() {
    let file = synth_mp3(&[id3_frame(b"TIT2", b"\x03Song")]);
    let w = write_single_frame(&file, "TIT2", "New").unwrap();
    // The old file: the edit is not there.
    assert!(matches!(
        verify_write(&w, &backup(), &file, "TIT2", "New"),
        Err(VerifyError::EditMissing)
    ));
    // Cut audio.
    let cut = &w.data[..w.data.len() - 1];
    assert!(matches!(
        verify_write(&w, &backup(), cut, "TIT2", "New"),
        Err(VerifyError::AudioChanged)
    ));
    // The bare audio: no tag.
    let bare = &w.data[find_audio_offset(&w.data)..];
    assert!(matches!(
        verify_write(&w, &backup(), bare, "TIT2", "New"),
        Err(VerifyError::Unreadable)
    ));
    let d = delete_frame(&file, "TIT2").unwrap();
    assert!(matches!(
        verify_delete(&d, &backup(), &file, "TIT2"),
        Err(VerifyError::StillPresent)
    ));
    let m = apply_merge(&file, &[merge_decision("TIT2", "Other")]).unwrap();
    assert!(matches!(
        verify_merge(&m, &backup(), &file, &[merge_decision("TIT2", "Other")]),
        Err(VerifyError::DecisionMissing(0))
    ));
}

#[test]
fn audio_hash_is_a_sha256() {
    // The digest of the bytes "abc".
    let expected = [
        0xba, 0x78, 0x16, 0xbf, 0x8f, 0x01, 0xcf, 0xea, 0x41, 0x41, 0x40, 0xde, 0x5d, 0xae, 0x22,
        0x23, 0xb0, 0x03, 0x61, 0xa3, 0x96, 0x17, 0x7a, 0x9c, 0xb4, 0x10, 0xff, 0x61, 0xf2, 0x00,
        0x15, 0xad,
    ];
    assert_eq!(audio_hash(b"abc"), expected);
}

#[test]
fn invalid_utf8_is_replaced() {
    let file = synth_mp3(&[id3_frame(b"TIT2", b"\x03a\xFFb")]);
    let (parsed, _) = parse_text_frames(&file).unwrap();
    assert_eq!(parsed[0].1, "a\u{FFFD}b");
}

#[test]
fn text_is_decoded_by_its_encoding() {
    let file = synth_mp3(&[
        id3_frame(b"TIT2", b"\x00Caf\xE9\x00"),
        id3_frame(b"TPE1", b"\x02\x00H\x00i"),
        id3_frame(b"TALB", b"\x01\xFE\xFF\x00H\x00i\x00\x00\x00x"),
    ]);
    let (parsed, _) = parse_text_frames(&file).unwrap();
    assert_eq!(parsed[0].1, "Café");
    assert_eq!(parsed[1].1, "Hi");
    assert_eq!(parsed[2].1, "Hi");
}

#[test]
fn backups_are_named_by_time() {
    assert_eq!(
        backup_name("test.mp3", Some(1_700_000_000)),
        "test.mp3.20231114-221320.thmp5bak"
    );
}

#[test]
fn every_frame_of_the_new_tag_is_counted() {
    let file = synth_mp3(&[
        id3_frame(b"TIT2", b"\x03Song"),
        id3_frame(b"APIC", b"picture"),
    ]);
    let (result, _) = write_and_verify(&file, "TIT2", "Other");
    assert_eq!(result.frame_count, 2);
    let (result, _) = write_and_verify(&file, "TPE1", "Artist");
    assert_eq!(result.frame_count, 3);
    // A frame that is not written as text is not counted as one.
    assert_eq!(write_single_frame(&file, "WXXX", "http").unwrap().frame_count, 2);
}

#[test]
fn a_frame_that_is_no_text_is_deleted() {
    let file = synth_mp3(&[
        id3_frame(b"TIT2", b"\x03Song"),
        id3_frame(b"APIC", b"picture"),
        id3_frame(b"PRIV", b"owner"),
    ]);
    let (result, written) = delete_and_verify(&file, "APIC");
    assert_eq!(result.frame_count, 2);
    let kept = collect_preserved_frames_all(&written, 4);
    assert_eq!(kept, vec![id3_frame(b"PRIV", b"owner")]);
    assert_eq!(parse_text_frames(&written).unwrap().0, vec![("TIT2".into(), "Song".into())]);
    // The old file still has it.
    let d = delete_frame(&file, "APIC").unwrap();
    assert!(matches!(
        verify_delete(&d, &backup(), &file, "APIC"),
        Err(VerifyError::StillPresent)
    ));
    let (_, bare) = delete_and_verify(&written, "PRIV");
    assert!(collect_preserved_frames_all(&bare, 4).is_empty());
}

#[test]
fn merging_leaves_no_conflict() {
    let mut file = synth_mp3(&[id3_frame(b"TIT2", b"\x03One")]);
    file.truncate(find_audio_offset(&file));
    file.extend(synth_mp3(&[id3_frame(b"TIT2", b"\x03Two"), id3_frame(b"TPE1", b"\x03Band")]));
    assert_eq!(preview_merge(&file).unwrap().len(), 1);
    let w = apply_merge(&file, &[merge_decision("TIT2", "Ends in\0")]).unwrap();
    assert!(preview_merge(&w.data).unwrap().is_empty());
    assert_eq!(w.frame_count, 2);
}

#[test]
fn keys_read_from_any_bytes_stay_apart() {
    // Descriptions in bytes that are no UTF-8, and in an unknown encoding.
    let broken = id3_frame(b"TXXX", b"\x03a\xFFb\x00one");
    let other = id3_frame(b"TXXX", b"\x07a\xC3\x00two");
    let again = id3_frame(b"TXXX", b"\x03a\xFFb\x00three");
    let title = id3_frame(b"TIT2", b"\x03Title\x00");
    let file = synth_mp3_two_tags(&[broken, other], &[again, title]);
    assert_eq!(preview_merge(&file).unwrap().len(), 1);
    let decisions = [merge_decision("TXXX:a\u{FFFD}b", "three")];
    let (_, merged) = merge_and_verify(&file, &decisions);
    assert!(preview_merge(&merged).unwrap().is_empty());
    let frames = parse_text_frames(&merged).unwrap().0;
    assert!(frames.contains(&("TXXX:a\u{FFFD}b".into(), "three".into())));
    assert!(frames.contains(&("TXXX:a\u{FFFD}".into(), "two".into())));
    let (_, left) = delete_and_verify(&merged, "TXXX:a\u{FFFD}b");
    let keys: Vec<String> =
        parse_text_frames(&left).unwrap().0.into_iter().map(|(k, _)| k).collect();
    assert_eq!(keys, vec!["TXXX:a\u{FFFD}", "TIT2"]);
}
