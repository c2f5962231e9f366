use thmp5::fingerprint::{choose_match, AcoustIdEntry};
use thmp5::library::import::settle_mbid;
use thmp5::library::scanner::raw_tags::build_raw_tags_json;
use thmp5::library::tag_writer::serialize::u32_to_synchsafe;
use thmp5::models::{MeanRating, ReleaseCompleteness, TrackMetadata};
use thmp5::storage::memory::eval::{apply_cmp, match_str};
use thmp5::storage::memory::rows::{
    find_mbid, read_tags, CatalogRows, PlayRecord, SourceRecord, StoredCatalog, StoredSource,
};
use thmp5::storage::memory::smart::SmartPlaylistError;
use thmp5::storage::memory::{
    derive_sort_name, id3_field_name, id_from_hash, name_hash, parse_trck, parse_trck_total,
    raw_tags_to_source_tags, tag_first, MemoryCatalog,
};
use thmp5::query::{CmpOp, StrOp};

const MBID: &str = "UFID:http://musicbrainz.org";

fn pairs(v: &[(&str, &str)]) -> Vec<(String, String)> {
    v.iter().map(|(a, b)| (a.to_string(), b.to_string())).collect()
}

fn source(id: &str, recording: &str, path: &str, tags: &[(&str, &str)]) -> SourceRecord {
    SourceRecord {
        id: id.into(),
        recording_id: recording.into(),
        source_type: "local_file".into(),
        file_path: Some(path.into()),
        format: Some("mp3".into()),
        duration_ms: Some(180_000),
        replay_gain_track_db_bits: None,
        replay_gain_track_peak_bits: None,
        tags: pairs(tags),
    }
}

/// Two albums of one artist, one track shared by two files, and a guest.
fn rows() -> CatalogRows {
    CatalogRows {
        sources: vec![
            source(
                "s1",
                "r1",
                "/m/1.mp3",
                &[
                    ("TIT2", "One"),
                    ("TPE1", "The Band"),
                    ("TALB", "First"),
                    ("TRCK", "1/2"),
                    ("TDRC", "1999"),
                    (MBID, "m1"),
                ],
            ),
            source(
                "s2",
                "r9",
                "/m/1b.mp3",
                &[("TIT2", "One again"), ("TPE1", "The Band"), (MBID, "m1")],
            ),
            source(
                "s3",
                "r3",
                "/m/3.mp3",
                &[
                    ("TIT2", "Three"),
                    ("TPE1", "The Band"),
                    ("TALB", "First"),
                    ("TRCK", "2/2"),
                    ("TCON", "Rock"),
                ],
            ),
            source(
                "s4",
                "r4",
                "/m/4.mp3",
                &[("TIT2", "Four"), ("TPE1", "Someone"), ("TALB", "Other"), ("TRCK", "1/3")],
            ),
        ],
        source_ratings: vec![("s1".into(), 4), ("s2".into(), 5), ("s4".into(), 2)],
        plays: vec![PlayRecord {
            recording_id: "r3".into(),
            play_count: 7,
            last_played: Some("2024-01-02 03:04:05".into()),
        }],
        recording_tags: pairs(&[("r3", "chill"), ("r4", "loud")]),
        playlists: pairs(&[("Mine", "r4")]),
    }
}

fn catalog() -> MemoryCatalog {
    MemoryCatalog::from_rows(&rows())
}

#[test]
fn sources_with_one_identifier_are_one_recording() {
    let c = catalog();
    let s = c.get_library_summary();
    assert_eq!((s.recording_count, s.source_count), (3, 4));
    let listed = c.list_recordings();
    let one = listed.iter().find(|r| r.id == "m1").unwrap();
    assert_eq!(one.title, "One");
    assert_eq!(one.source_paths, vec!["/m/1.mp3", "/m/1b.mp3"]);
    // The mean of four and five stars.
    assert_eq!(one.rating, Some(MeanRating { sum: 9, count: 2 }));
    assert_eq!(c.recording_of_source("s1").as_deref(), Some("m1"));
    assert_eq!(c.recording_of_source("nobody"), None);
}

#[test]
fn test_same_mbid_from_stored_tags() {
    let stored = |id: &str, json: &str| StoredSource {
        id: id.into(),
        recording_id: format!("rec-{id}"),
        source_type: "local_file".into(),
        file_path: Some(format!("/{id}.mp3")),
        format: None,
        duration_ms: None,
        replay_gain_track_db_bits: None,
        replay_gain_track_peak_bits: None,
        raw_tags_json: Some(json.into()),
    };
    let both = "[[\"TIT2\",\"Song\"],[\"UFID:http://musicbrainz.org\",\"m\"]]";
    let c = MemoryCatalog::from_stored(StoredCatalog {
        sources: vec![stored("a", both), stored("b", both), stored("c", "broken")],
        source_ratings: vec![],
        plays: vec![],
        recording_tags: vec![],
        playlists: vec![],
    });
    assert_eq!(c.get_library_summary().recording_count, 2);
    assert!(c.list_recordings().iter().any(|r| r.id == "m" && r.source_paths.len() == 2));
    assert_eq!(read_tags(&Some(both.into())).len(), 2);
    assert!(read_tags(&Some("broken".into())).is_empty());
    assert!(read_tags(&None).is_empty());
    assert_eq!(find_mbid(&read_tags(&Some(both.into()))), Some("m".to_string()));
}

#[test]
fn plays_and_tags_belong_to_recordings() {
    let c = catalog();
    let listed = c.list_recordings();
    let three = listed.iter().find(|r| r.title == "Three").unwrap();
    assert_eq!(three.play_count, 7);
    assert_eq!(three.last_played.as_deref(), Some("2024-01-02 03:04:05"));
    assert_eq!(three.tags, vec!["chill"]);
    assert_eq!(c.list_all_tags(), vec!["chill", "loud"]);
}

#[test]
fn artists_are_listed_by_sort_name() {
    let c = catalog();
    let artists = c.list_artists();
    let names: Vec<&str> = artists.iter().map(|a| a.name.as_str()).collect();
    assert_eq!(names, vec!["The Band", "Someone"]);
    assert_eq!(artists[0].sort_name, "Band, The");
    assert_eq!(artists[0].recording_count, 2);
    let detail = c.get_artist_detail(&artists[0].id).unwrap();
    assert_eq!(detail.release_groups.len(), 1);
    assert_eq!(detail.release_groups[0].title, "First");
    assert!(c.get_artist_detail("nobody").is_none());
    let (name, paths) = c.source_paths_for_artist(&artists[1].id);
    assert_eq!(name.as_deref(), Some("Someone"));
    assert_eq!(paths, vec!["/m/4.mp3"]);
}

#[test]
fn release_groups_are_searched_and_shown() {
    let c = catalog();
    assert_eq!(c.list_release_groups(None, None).len(), 2);
    let found = c.list_release_groups(None, Some("FIRST"));
    assert_eq!(found.len(), 1);
    let detail = c.get_release_group_detail(&found[0].id).unwrap();
    assert_eq!(detail.title, "First");
    assert!(matches!(detail.releases[0].completeness, ReleaseCompleteness::Complete));
    assert_eq!(detail.releases[0].mediums[0].tracks.len(), 2);
    let other = &c.list_release_groups(None, Some("other"))[0];
    let detail = c.get_release_group_detail(&other.id).unwrap();
    match &detail.releases[0].completeness {
        ReleaseCompleteness::Incomplete { missing_tracks } => {
            let positions: Vec<i64> = missing_tracks.iter().map(|t| t.track_position).collect();
            assert_eq!(positions, vec![2, 3]);
        }
        _ => panic!("two tracks of three are missing"),
    }
    assert_eq!(c.source_paths_for_release_group(&other.id), vec!["/m/4.mp3"]);
    assert!(c.get_release_group_detail("nothing").is_none());
}

#[test]
fn a_recording_is_shown_with_its_sources() {
    let c = catalog();
    let d = c.get_recording_detail("m1").unwrap();
    assert_eq!(d.sources.len(), 2);
    assert_eq!(d.artists[0].name, "The Band");
    assert_eq!(d.releases[0].release_group_title, "First");
    assert!(c.get_recording_detail("nothing").is_none());
}

#[test]
fn a_rating_reaches_artist_and_album() {
    let c = catalog();
    let u = c.rating_update(Some("/m/1.mp3"));
    assert_eq!(u.recording.id, "m1");
    assert_eq!(u.recording.ratings, vec![MeanRating { sum: 9, count: 2 }]);
    assert_eq!(u.release_groups.len(), 1);
    assert_eq!(u.artists.len(), 1);
}

#[test]
fn smart_playlists_are_evaluated() {
    let c = catalog();
    let titles = |q: &str| {
        let mut t: Vec<String> = c
            .evaluate_smart_playlist(q, &vec![], 1_700_000_000)
            .unwrap()
            .recordings
            .into_iter()
            .map(|r| r.title)
            .collect();
        t.sort();
        t
    };
    assert_eq!(titles("Rating >= 4"), vec!["One"]);
    assert_eq!(titles("Rating is null"), vec!["Three"]);
    assert_eq!(titles("HasTag chill OR InPlaylist Mine"), vec!["Four", "Three"]);
    assert_eq!(titles("Title contains \"O\" AND NOT Artist is \"someone\""), vec!["One"]);
    assert_eq!(titles("PlayCount >= 7"), vec!["Three"]);
    assert_eq!(titles("LastPlayed InLast 1 Years"), vec!["Three"]);
    assert_eq!(titles("LastPlayed NotInLast 1 Years"), vec!["Four", "One"]);
    let all = c
        .evaluate_smart_playlist("PlayCount >= 0 LIMIT 1 tracks", &vec![], 5)
        .unwrap();
    assert_eq!(all.recordings.len(), 1);
    assert_eq!(all.total_duration_ms, 180_000);
    assert!(matches!(
        c.evaluate_smart_playlist("Rating ~ 4", &vec![], 5),
        Err(SmartPlaylistError::Syntax)
    ));
    assert!(matches!(
        c.evaluate_smart_playlist("PlayCount >= 0 LIMIT 9223372036854775807 hours", &vec![], 5),
        Err(SmartPlaylistError::OutOfRange)
    ));
}

#[test]
fn album_ratings_are_given() {
    let c = catalog();
    let group = c.list_release_groups(None, Some("other"))[0].id.clone();
    let rated = c
        .evaluate_smart_playlist("AlbumRating >= 2", &vec![(group, 2)], 5)
        .unwrap();
    assert_eq!(rated.recordings.len(), 1);
    assert_eq!(rated.recordings[0].title, "Four");
}

#[test]
fn comparisons_of_queries() {
    assert!(apply_cmp(CmpOp::Gte, 4, 4));
    assert!(!apply_cmp(CmpOp::Lt, 4, 4));
    assert!(apply_cmp(CmpOp::Ne, 4, 5));
    assert!(match_str(StrOp::Contains, "Blue Train", "tRaIn"));
    assert!(!match_str(StrOp::Is, "Blue Train", "train"));
}

#[test]
fn names_and_numbers_in_tags() {
    assert_eq!(derive_sort_name("The Band"), "Band, The");
    assert_eq!(derive_sort_name("A Band"), "Band, A");
    assert_eq!(derive_sort_name("Theband"), "Theband");
    assert_eq!(parse_trck("3/12"), (Some(3), Some(12)));
    assert_eq!(parse_trck("x"), (None, None));
    assert_eq!(parse_trck_total("3/12"), Some(12));
    assert_eq!(id3_field_name("TIT2"), "Title");
    let tags = pairs(&[("TIT2", "a"), ("TIT2", "b")]);
    assert_eq!(tag_first(&tags, "TIT2").map(|s| s.as_str()), Some("a"));
    assert_eq!(raw_tags_to_source_tags(&tags).len(), 2);
}

#[test]
fn identifiers_come_from_names() {
    assert_eq!(name_hash("artist", "The Band"), name_hash("artist", " THE BAND "));
    assert_ne!(name_hash("artist", "The Band"), name_hash("artist", "A Band"));
    assert_eq!(id_from_hash("rg", &vec![0, 1, 2, 3, 4, 5, 6, 255, 9]), "mem-rg-00010203040506ff");
    // The first bytes of the SHA-256 of "abc".
    assert_eq!(name_hash("artist", "ABC"), "mem-artist-ba7816bf8f01cfea");
}

#[test]
fn the_catalogue_holds_what_files_assert() {
    let c = catalog();
    for group in &c.release_groups {
        assert!(c.recordings.iter().any(|r| r.release_group_id.as_ref() == Some(&group.id)));
    }
    for artist in &c.artists {
        assert!(c.recordings.iter().any(|r| r.artist_ids.contains(&artist.id)));
    }
    assert!(c.recordings.iter().all(|r| !r.sources.is_empty()));
    // Without its files an album is gone.
    let mut left = rows();
    left.sources.retain(|s| !s.tags.contains(&("TALB".to_string(), "First".to_string())));
    let c = MemoryCatalog::from_rows(&left);
    assert!(c.release_groups.iter().all(|g| g.title != "First"));
}

#[test]
fn a_recording_appears_on_the_releases_of_all_its_sources() {
    let mut all = rows();
    all.sources[1].tags = pairs(&[
        ("TIT2", "One again"),
        ("TPE1", "The Band"),
        ("TALB", "Early Best"),
        ("TRCK", "9/20"),
        ("TPOS", "2/2"),
        (MBID, "m1"),
    ]);
    all.sources.push(source(
        "s5",
        "r5",
        "/m/1c.mp3",
        &[("TPE1", "The Band"), ("TALB", "First"), ("TRCK", "7"), (MBID, "m1")],
    ));
    let c = MemoryCatalog::from_rows(&all);
    let d = c.get_recording_detail("m1").unwrap();
    let shown: Vec<(&str, Option<i64>, Option<i64>, Option<i64>)> = d
        .releases
        .iter()
        .map(|r| {
            (r.release_group_title.as_str(), r.track_position, r.disc_position, r.disc_total)
        })
        .collect();
    assert_eq!(
        shown,
        vec![
            ("Early Best", Some(9), Some(2), Some(2)),
            ("First", Some(1), None, Some(1)),
        ]
    );
    let rows = c.list_recordings();
    let row = rows.iter().find(|r| r.id == "m1").unwrap();
    assert_eq!(row.releases.len(), 2);
    // The second release lists the recording at its own place.
    let best = c.get_release_group_detail(&d.releases[0].release_group_id).unwrap();
    assert_eq!(best.title, "Early Best");
    assert_eq!(best.releases[0].mediums.len(), 1);
    let medium = &best.releases[0].mediums[0];
    assert_eq!((medium.position, medium.tracks[0].position), (2, 9));
    assert_eq!(medium.tracks[0].recording_id, "m1");
    match &best.releases[0].completeness {
        ReleaseCompleteness::Incomplete { missing_tracks } => assert_eq!(missing_tracks.len(), 19),
        _ => panic!("one track of twenty is there"),
    }
    assert_eq!(c.list_release_groups(None, Some("early")).len(), 1);
    let update = c.rating_update(Some("/m/1b.mp3"));
    assert_eq!(update.release_groups.len(), 2);
    assert!(c.list_recordings().iter().find(|r| r.title == "Four").unwrap().releases.len() == 1);
}

#[test]
fn an_artist_is_credited_once_on_a_recording() {
    let c = MemoryCatalog::from_rows(&CatalogRows {
        sources: vec![source(
            "s",
            "r",
            "/m/f.mp3",
            &[("TIT2", "F"), ("TPE1", "Foo"), ("TXXX:ARTISTS", "foo; FOO")],
        )],
        source_ratings: vec![("s".into(), 4)],
        plays: vec![],
        recording_tags: vec![],
        playlists: vec![],
    });
    for artist in c.list_artists() {
        assert_eq!(artist.recording_count, 1);
        assert_eq!(artist.ratings.len(), 1);
    }
}

#[test]
fn sources_of_one_release_can_contradict_each_other() {
    let mut all = rows();
    // A second file of the first track claims another total.
    all.sources[1].tags = pairs(&[
        ("TPE1", "The Band"),
        ("TALB", "First"),
        ("TRCK", "1/12"),
        (MBID, "m1"),
    ]);
    let c = MemoryCatalog::from_rows(&all);
    let first = &c.list_release_groups(None, Some("first"))[0];
    match &c.get_release_group_detail(&first.id).unwrap().releases[0].completeness {
        ReleaseCompleteness::Unknown { reason, disagreement_groups } => {
            assert_eq!(
                reason,
                "Sources disagree on total track count: 2 tracks from 2 sources, \
                 12 tracks from 1 source"
            );
            assert_eq!(disagreement_groups.len(), 2);
            assert_eq!(
                disagreement_groups[0].description,
                "2 sources claim 2 tracks on disc 1"
            );
            assert_eq!(disagreement_groups[0].source_paths, vec!["/m/1.mp3", "/m/3.mp3"]);
            assert_eq!(disagreement_groups[1].source_paths, vec!["/m/1b.mp3"]);
        }
        _ => panic!("two or twelve tracks"),
    }
    // The same claim for another release does not count here.
    all.sources[1].tags[1].1 = "Other Release".into();
    let c = MemoryCatalog::from_rows(&all);
    let first = &c.list_release_groups(None, Some("first"))[0];
    let detail = c.get_release_group_detail(&first.id).unwrap();
    assert!(matches!(detail.releases[0].completeness, ReleaseCompleteness::Complete));
}

fn id3_frame(id: &[u8; 4], data: &[u8]) -> Vec<u8> {
    let mut buf = id.to_vec();
    buf.extend_from_slice(&u32_to_synchsafe(data.len() as u32));
    buf.extend_from_slice(&[0, 0]);
    buf.extend_from_slice(data);
    buf
}

/// A file with the tags of a song, and further frames.
fn tagged_mp3(title: &str, further: &[Vec<u8>]) -> Vec<u8> {
    let text = |id: &[u8; 4], value: &str| id3_frame(id, &[&[3u8], value.as_bytes()].concat());
    let mut body = [
        text(b"TIT2", title),
        text(b"TPE1", "Artist"),
        text(b"TPE2", "Album Artist"),
        text(b"TALB", "Album"),
        text(b"TRCK", "1/1"),
        text(b"TPOS", "1/1"),
    ]
    .concat();
    body.extend(further.concat());
    let mut file = b"ID3\x04\x00\x00".to_vec();
    file.extend_from_slice(&u32_to_synchsafe(body.len() as u32));
    file.extend_from_slice(&body);
    file.extend_from_slice(&[0xFF, 0xFB, 0x90, 0x00]);
    file.resize(file.len() + 413, 0);
    file
}

fn tagged_meta(title: &str, mbid: &str) -> TrackMetadata {
    TrackMetadata {
        title: Some(title.into()),
        artist: Some("Artist".into()),
        album_artist: Some("Album Artist".into()),
        album: Some("Album".into()),
        year: Some(2024),
        track_number: Some(1),
        track_total: Some(1),
        disc_number: Some(1),
        duration_ms: 200_000,
        format: "mp3".into(),
        recording_mbid: Some(mbid.into()),
        ..Default::default()
    }
}

/// Imports songs as files with the given stored tags, and checks that one recording
/// has them all as its sources.
fn check_same_recording(mbid: &str, files: &[(&str, String)]) {
    let sources = files
        .iter()
        .map(|(path, json)| {
            let (settled, json) = settle_mbid(Some(mbid.into()), json.clone());
            assert_eq!(settled.as_deref(), Some(mbid));
            StoredSource {
                id: format!("source-{path}"),
                recording_id: format!("recording-{path}"),
                source_type: "local_file".into(),
                file_path: Some(path.to_string()),
                format: Some("mp3".into()),
                duration_ms: Some(200_000),
                replay_gain_track_db_bits: None,
                replay_gain_track_peak_bits: None,
                raw_tags_json: Some(json),
            }
        })
        .collect();
    let c = MemoryCatalog::from_stored(StoredCatalog {
        sources,
        source_ratings: vec![],
        plays: vec![],
        recording_tags: vec![],
        playlists: vec![],
    });
    let matching = c
        .list_recordings()
        .iter()
        .filter(|r| files.iter().all(|(path, _)| r.source_paths.contains(&path.to_string())))
        .count();
    assert_eq!(matching, 1);
}

#[test]
fn test_same_mbid_creates_same_recording() {
    let mbid = "b6e3c72a-5f0c-4e5d-9f0a-123456789abc";
    // Two lookups by sound, with other identifiers and the same recording.
    let lookup = |acoustid: &str| {
        let entry = AcoustIdEntry {
            id: acoustid.into(),
            score_bits: 1.0f32.to_bits(),
            recordings: vec![mbid.into()],
        };
        choose_match("ok", &vec![entry]).unwrap()
    };
    let (a, b) = (lookup("acoustid-a"), lookup("acoustid-b"));
    assert_eq!((a.acoustid.as_str(), b.acoustid.as_str()), ("acoustid-a", "acoustid-b"));
    assert_eq!(a.recording_mbid.as_deref(), Some(mbid));
    assert_eq!(b.recording_mbid.as_deref(), Some(mbid));
    check_same_recording(
        mbid,
        &[("/music/song1.mp3", "[]".into()), ("/music/song2.mp3", "[]".into())],
    );
    let read = |title: &str| {
        build_raw_tags_json(&tagged_mp3(title, &[]), &tagged_meta(title, mbid), &[])
    };
    let files = [("/music/song1.mp3", read("Song One")), ("/music/song2.mp3", read("Song Two"))];
    check_same_recording(mbid, &files);
}

#[test]
fn test_same_mbid_from_ufid_tag_creates_same_recording() {
    let mbid = "b6e3c72a-5f0c-4e5d-9f0a-987654321abc";
    let ufid = id3_frame(b"UFID", format!("http://musicbrainz.org\0{mbid}").as_bytes());
    let read = |title: &str| {
        let data = tagged_mp3(title, &[ufid.clone()]);
        let json = build_raw_tags_json(&data, &tagged_meta(title, mbid), &[]);
        assert_eq!(find_mbid(&read_tags(&Some(json.clone()))).as_deref(), Some(mbid));
        json
    };
    check_same_recording(
        mbid,
        &[
            ("/music/ufid_song1.mp3", read("UFID Song One")),
            ("/music/ufid_song2.mp3", read("UFID Song Two")),
        ],
    );
    // Without stored tags the identifier alone brings the files together.
    check_same_recording(
        mbid,
        &[("/music/ufid_song1.mp3", "[]".into()), ("/music/ufid_song2.mp3", "[]".into())],
    );
}
