use thmp5::library::scanner::comments::parse_comment_tags;
use thmp5::library::scanner::frame_id_to_field_name;
use thmp5::library::scanner::frames::{
    debug_error_message, debug_id3_text_frame, decode_utf16_with_bom, decode_utf16be,
    decode_utf16le, find_id3_text_frame, find_problematic_id3_frame, hex_preview,
    id3_text_encoding_name, list_frames, read_error_message, summarize_debug_info,
    utf8_decode_debug_summary, FrameDebugError, TagDecodeErrorKind,
};
use thmp5::library::scanner::tags::{
    cover_art_url, extended_fields, fallback_warning, gain_text, helper_failure, is_audio_file,
    list_tag_fields, metadata_from_fields, metadata_to_tag_infos, settle_metadata, settle_tag_list,
    FileFacts, Fractions, Picture, TagFields,
};
use thmp5::library::tag_writer::serialize::u32_to_synchsafe;
use thmp5::models::{MetadataReadResult, SourceTagInfo, TagProperty, TrackMetadata};

fn frame(id: &[u8; 4], data: &[u8]) -> Vec<u8> {
    let mut buf = Vec::new();
    buf.extend_from_slice(id);
    buf.extend_from_slice(&u32_to_synchsafe(data.len() as u32));
    buf.extend_from_slice(&[0, 0]);
    buf.extend_from_slice(data);
    buf
}

fn tagged(frames: &[Vec<u8>]) -> Vec<u8> {
    let body: Vec<u8> = frames.concat();
    let mut file = b"ID3\x04\x00\x00".to_vec();
    file.extend_from_slice(&u32_to_synchsafe(body.len() as u32));
    file.extend_from_slice(&body);
    file.extend_from_slice(b"audio");
    file
}

fn no_fields() -> TagFields {
    TagFields {
        title: None,
        artist: None,
        album: None,
        genre: None,
        comment: None,
        year: None,
        track: None,
        track_total: None,
        disk: None,
        extended: vec![],
        items: vec![],
    }
}

fn no_fractions() -> Fractions {
    Fractions {
        bpm_bits: None,
        replay_gain_track_db_bits: None,
        replay_gain_track_peak_bits: None,
        replay_gain_album_db_bits: None,
        replay_gain_album_peak_bits: None,
    }
}

#[test]
fn test_metadata_to_tag_infos_basic_fields() {
    let meta = TrackMetadata {
        title: Some("Hello".into()),
        artist: Some("World".into()),
        album: Some("Test Album".into()),
        year: Some(2024),
        track_number: Some(1),
        track_total: Some(13),
        disc_number: Some(2),
        ..Default::default()
    };

    let tags = metadata_to_tag_infos(&meta, &[]);

    let t = |name| {
        tags.iter()
            .find(|t| t.field_name == name)
            .map(|t| t.value.as_str())
    };
    assert_eq!(t("title"), Some("Hello"));
    assert_eq!(t("artist"), Some("World"));
    assert_eq!(t("album"), Some("Test Album"));
    assert_eq!(t("year"), Some("2024"));
    assert_eq!(t("track_number"), Some("1"));
    assert_eq!(t("track_total"), Some("13"));
    assert_eq!(t("disc_number"), Some("2"));
}

#[test]
fn test_metadata_to_tag_infos_filters_duplicate_extra_props() {
    let meta = TrackMetadata {
        title: Some("Title".into()),
        ..Default::default()
    };
    // All of these have matching fields in meta or are in the skip list.
    let extra_props = vec![
        TagProperty {
            key: "TITLE".into(),
            value: "Title".into(),
        },
        TagProperty {
            key: "ARTIST".into(),
            value: "Artist".into(),
        },
        TagProperty {
            key: "TRACKNUMBER".into(),
            value: "1/13".into(),
        },
        TagProperty {
            key: "DISCNUMBER".into(),
            value: "2/2".into(),
        },
        TagProperty {
            key: "SCRIPT".into(),
            value: "Jpan".into(),
        },
        TagProperty {
            key: "BARCODE".into(),
            value: "12345".into(),
        },
    ];

    let tags = metadata_to_tag_infos(&meta, &extra_props);

    // Duplicates should be filtered
    assert!(tags.iter().any(|t| t.value == "Title"));
    assert!(tags.iter().find(|t| t.frame_id == "TITLE").is_none());
    assert!(tags.iter().find(|t| t.frame_id == "ARTIST").is_none());
    assert!(tags.iter().find(|t| t.frame_id == "TRACKNUMBER").is_none());
    assert!(tags.iter().find(|t| t.frame_id == "DISCNUMBER").is_none());

    // Non-duplicate extras should appear
    assert!(tags.iter().any(|t| t.value == "Jpan"));
    assert!(tags.iter().any(|t| t.value == "12345"));
}

#[test]
fn audio_files_are_known_by_extension() {
    assert!(is_audio_file(Some("mp3")));
    assert!(is_audio_file(Some("FLAC")));
    assert!(!is_audio_file(Some("txt")));
    assert!(!is_audio_file(None));
}

#[test]
fn fields_are_listed_in_order() {
    let mut f = no_fields();
    f.title = Some("T".into());
    f.track = Some(3);
    f.extended = vec![("composer".into(), "C".into())];
    f.items = vec![
        ("Key: TXXX mood".into(), Some("calm".into())),
        ("Key: TIT2".into(), Some("T".into())),
        ("UserText empty".into(), None),
    ];
    let tags = list_tag_fields(&f);
    let shown: Vec<(&str, &str, &str)> = tags
        .iter()
        .map(|t| (t.frame_id.as_str(), t.field_name.as_str(), t.value.as_str()))
        .collect();
    assert_eq!(
        shown,
        vec![
            ("TIT2", "title", "T"),
            ("TRCK", "track_number", "3"),
            ("composer", "composer", "C"),
            ("Key: TXXX mood", "user_text", "calm"),
        ]
    );
    assert!(extended_fields().contains(&"composer"));
}

#[test]
fn a_file_without_a_title_is_named_after_itself() {
    let facts = FileFacts {
        extension: Some("MP3".into()),
        stem: Some("01 Song".into()),
        duration_ms: 1234,
    };
    let m = metadata_from_fields(&None, &no_fractions(), &facts);
    assert_eq!(m.title.as_deref(), Some("01 Song"));
    assert_eq!(m.format, "mp3");
    assert_eq!(m.duration_ms, 1234);
    let mut f = no_fields();
    f.title = Some("Real".into());
    f.extended = vec![("album_artist".into(), "AA".into())];
    let m = metadata_from_fields(&Some(f), &no_fractions(), &facts);
    assert_eq!(m.title.as_deref(), Some("Real"));
    assert_eq!(m.album_artist.as_deref(), Some("AA"));
    let unknown = FileFacts { extension: None, stem: None, duration_ms: 0 };
    assert_eq!(metadata_from_fields(&None, &no_fractions(), &unknown).format, "unknown");
}

#[test]
fn gains_lose_their_unit() {
    assert_eq!(gain_text(" -6.50 dB "), "-6.50");
    assert_eq!(gain_text("1.0"), "1.0");
    assert_eq!(gain_text("dBdB"), "");
}

#[test]
fn warnings_of_the_fallback_reader() {
    assert_eq!(
        fallback_warning("bad frame", None),
        "Metadata fallback via TagLib helper after Lofty failure: bad frame"
    );
    assert_eq!(
        fallback_warning("bad frame", Some("odd")),
        "Metadata fallback via TagLib helper after Lofty failure: bad frame. odd"
    );
    assert_eq!(helper_failure("h", " oops \n", "1"), "h: oops");
    assert_eq!(helper_failure("h", " ", "1"), "h: exit status 1");
}

fn titled(title: &str) -> TrackMetadata {
    TrackMetadata { title: Some(title.into()), ..Default::default() }
}

fn helped(title: &str) -> MetadataReadResult {
    MetadataReadResult {
        meta: titled(title),
        warning: Some("fallback".into()),
        all_tags: vec![TagProperty { key: "MOOD".into(), value: "calm".into() }],
        duplicate_frames: Vec::new(),
    }
}

#[test]
fn the_fallback_reader_stands_in_for_the_first() {
    let read = settle_metadata(Ok(titled("first")), Some(helped("second"))).unwrap();
    assert_eq!(read.meta.title.as_deref(), Some("first"));
    assert_eq!(read.warning, None);
    assert!(read.all_tags.is_empty() && read.duplicate_frames.is_empty());
    let read = settle_metadata(Ok(titled("first")), None).unwrap();
    assert_eq!(read.meta.title.as_deref(), Some("first"));
    let read = settle_metadata(Err("odd".into()), Some(helped("second"))).unwrap();
    assert_eq!(read.meta.title.as_deref(), Some("second"));
    assert_eq!(read.warning.as_deref(), Some("fallback"));
    assert_eq!(read.all_tags.len(), 1);
    assert_eq!(settle_metadata(Err("odd".into()), None).unwrap_err(), "odd");
}

#[test]
fn the_fallback_reader_lists_tags() {
    let info = |value: &str| SourceTagInfo {
        frame_id: "TIT2".into(),
        field_name: "title".into(),
        value: value.into(),
    };
    let values = |tags: Vec<SourceTagInfo>| -> Vec<String> {
        tags.into_iter().map(|t| t.value).collect()
    };
    let tags = settle_tag_list(Ok(vec![info("first")]), Some(helped("second"))).unwrap();
    assert_eq!(values(tags), vec!["first"]);
    let tags = settle_tag_list(Err("odd".into()), Some(helped("second"))).unwrap();
    assert_eq!(values(tags), vec!["second", "calm"]);
    assert_eq!(settle_tag_list(Err("odd".into()), None).unwrap_err(), "odd");
}

#[test]
fn the_front_cover_is_shown() {
    let picture = |front: bool, mime: Option<&str>, data: &[u8]| Picture {
        is_front: front,
        mime: mime.map(String::from),
        data: data.to_vec(),
    };
    assert_eq!(cover_art_url(&vec![]), None);
    assert_eq!(
        cover_art_url(&vec![
            picture(false, None, b"x"),
            picture(true, Some("image/png"), b"Man"),
        ]),
        Some("data:image/png;base64,TWFu".to_string())
    );
    // Without a front, the first; without a type, JPEG; padded where needed.
    assert_eq!(
        cover_art_url(&vec![picture(false, None, b"M"), picture(false, None, b"y")]),
        Some("data:image/jpeg;base64,TQ==".to_string())
    );
    assert_eq!(
        cover_art_url(&vec![picture(true, None, &[0xFB, 0xFF, 0xBF])]),
        Some("data:image/jpeg;base64,+/+/".to_string())
    );
}

#[test]
fn frames_have_readable_names() {
    assert_eq!(frame_id_to_field_name("TIT2"), "title");
    assert_eq!(id3_text_encoding_name(3), "UTF-8");
}

#[test]
fn utf16_is_decoded_strictly() {
    assert_eq!(decode_utf16be(b"\x00H\x00i"), Some("Hi".to_string()));
    assert_eq!(decode_utf16le(b"H\x00i\x00"), Some("Hi".to_string()));
    assert_eq!(decode_utf16le(b"H\x00i"), None);
    assert_eq!(decode_utf16be(&[0xD8, 0x34, 0xDD, 0x1E]), Some("\u{1D11E}".to_string()));
    assert_eq!(decode_utf16be(&[0xD8, 0x34]), None);
    assert_eq!(decode_utf16_with_bom(b"\xFE\xFF\x00H"), Some("H".to_string()));
    assert_eq!(decode_utf16_with_bom(b"\xFF\xFEH\x00"), Some("H".to_string()));
    assert_eq!(decode_utf16_with_bom(b"H\x00"), None);
}

#[test]
fn bytes_are_previewed() {
    assert_eq!(hex_preview(&[0x00, 0xAB, 0x10], 64), "00 AB 10");
    assert_eq!(hex_preview(&[0u8; 100], 4), "00 00 00 00");
}

#[test]
fn frames_of_a_tag_are_found_and_reported() {
    let file = tagged(&[
        frame(b"TIT2", b"\x03Song"),
        frame(b"TPE1", b"\x03Art\xFFist"),
        frame(b"TALB", b"\x01\xFF\xFEA"),
        frame(b"TCON", b""),
    ]);
    // A frame without content ends the list.
    assert_eq!(list_frames(&file).len(), 3);
    let found = find_id3_text_frame(&file, "TIT2").unwrap();
    assert_eq!(&file[found.start..found.end], b"\x03Song");
    assert!(find_id3_text_frame(&file, "TYER").is_none());
    assert_eq!(
        find_problematic_id3_frame(&file, TagDecodeErrorKind::InvalidUtf8),
        Some("TPE1".to_string())
    );
    assert_eq!(
        find_problematic_id3_frame(&file, TagDecodeErrorKind::Utf16OddLength),
        Some("TALB".to_string())
    );
    let info = debug_id3_text_frame(&file, "TIT2").unwrap();
    assert_eq!(info.declared_encoding_byte, 3);
    assert_eq!(info.payload_len, 4);
    assert_eq!(info.utf8.as_deref(), Some("Song"));
    assert_eq!(info.latin1.as_deref(), Some("Song"));
    assert_eq!(
        summarize_debug_info(&info),
        "ID3 debug: frame TIT2 / title declared encoding=3 (UTF-8) payload_len=4 utf8=ok \
         latin1=\"Song\" hex=53 6F 6E 67"
    );
    assert!(matches!(debug_id3_text_frame(&file, "TYER"), Err(FrameDebugError::NotFound)));
    assert!(matches!(debug_id3_text_frame(&file, "TCON"), Err(FrameDebugError::NotFound)));
    assert!(debug_error_message(FrameDebugError::NotFound, "TYER", "/a.mp3").contains("TYER"));
    assert!(debug_error_message(FrameDebugError::NoPayload, "TYER", "/a.mp3").contains("TYER"));
    let summary = utf8_decode_debug_summary(&file).unwrap();
    assert!(summary.starts_with("ID3 debug: frame TPE1"));
    assert!(summary.contains("utf8=invalid"));
    let message = read_error_message(&file, "Expected a UTF-8 string");
    assert!(message.contains("(frame TPE1 / artist)"));
}

#[test]
fn comments_hold_tags() {
    assert_eq!(
        parse_comment_tags("#chill late night, slow #TS:5/8; #\nwarm; "),
        vec!["#chill", "#TS:5/8;", "late night", "slow", "warm"]
    );
    assert_eq!(parse_comment_tags(""), Vec::<String>::new());
    assert_eq!(parse_comment_tags("one"), vec!["one"]);
}
