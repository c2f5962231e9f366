use thmp5::calendar::{civil_from_days, sqlite_datetime_to_unix, timestamp};
use thmp5::db::{pool_connection_count, worker_count, Moment, PoolTracker};
use thmp5::models::{RecordingRow, ReleaseCompleteness};
use thmp5::query::{Limit, LimitUnit};
use thmp5::sleep_inhibitor::{InhibitAction, InhibitService, SleepInhibitor};
use thmp5::storage::completeness::{
    release_completeness, wants_track_totals, ReleaseContents, ReleaseTrack, SourceClaim,
};
use thmp5::storage::playlist::{
    apply_limit, can_limit, can_total, pseudo_shuffle, total_duration,
};
use thmp5::storage::sql::{parse_recording_row, smart_playlist_sql, RecordingColumns};
use thmp5::storage::memory::smart::SmartPlaylistError;

fn columns() -> RecordingColumns {
    RecordingColumns {
        id: "r".into(),
        title: "T".into(),
        duration_ms: Some(1000),
        primary_artist_id: None,
        artist_credit_name: None,
        genre: None,
        rating: Some(4),
        play_count: None,
        last_played: None,
        primary_source_id: None,
        primary_source_path: None,
        tags_raw: Some("a\0b".into()),
        artist_ids_raw: None,
        source_paths_raw: Some("/x".into()),
        releases_raw: Some("g\u{1}Group\u{1}3\u{1}\u{1}2\0h\u{1}Other".into()),
    }
}

fn row(ms: i64) -> RecordingRow {
    let mut c = columns();
    c.duration_ms = Some(ms);
    parse_recording_row(c)
}

#[test]
fn packed_columns_are_unpacked() {
    let r = parse_recording_row(columns());
    assert_eq!(r.tags, vec!["a", "b"]);
    assert!(r.artist_ids.is_empty());
    assert_eq!(r.source_paths, vec!["/x"]);
    assert_eq!(r.play_count, 0);
    assert_eq!(r.releases.len(), 2);
    let g = &r.releases[0];
    assert_eq!((g.release_group_id.as_str(), g.release_group_title.as_str()), ("g", "Group"));
    assert_eq!((g.track_position, g.disc_position, g.disc_total), (Some(3), None, Some(2)));
    assert_eq!(r.releases[1].track_position, None);
}

#[test]
fn a_smart_playlist_becomes_a_statement() {
    let (sql, limit) = smart_playlist_sql("Rating >= 4 LIMIT 2 tracks").unwrap();
    assert!(sql.starts_with("WITH\n"));
    assert!(sql.ends_with("smart_playlist_view spv WHERE rating >= 4)\nORDER BY RANDOM()"));
    assert_eq!(limit, Some(Limit { value: 2, unit: LimitUnit::Tracks }));
    assert!(matches!(smart_playlist_sql("Rating"), Err(SmartPlaylistError::Syntax)));
    assert!(matches!(
        smart_playlist_sql("LastPlayed InLast 9223372036854775807 Weeks"),
        Err(SmartPlaylistError::OutOfRange)
    ));
}

#[test]
fn limits_cut_a_playlist() {
    let limit = |value, unit| Some(Limit { value, unit });
    let mut rows = vec![row(30_000), row(40_000), row(50_000)];
    assert!(can_total(&rows));
    assert_eq!(total_duration(&rows), 120_000);
    apply_limit(&mut rows, limit(1, LimitUnit::Minutes));
    // Tracks are added until they take more than the minute.
    assert_eq!(rows.len(), 2);
    let mut whole = vec![row(60_000), row(60_000), row(60_000)];
    apply_limit(&mut whole, limit(1, LimitUnit::Minutes));
    assert_eq!(whole.len(), 2);
    apply_limit(&mut rows, limit(1, LimitUnit::Tracks));
    assert_eq!(rows.len(), 1);
    apply_limit(&mut rows, None);
    assert_eq!(rows.len(), 1);
    assert!(!can_limit(limit(i64::MAX, LimitUnit::Hours)));
    assert!(can_limit(limit(i64::MAX, LimitUnit::Tracks)));
    assert!(!can_total(&vec![row(i64::MAX), row(1)]));
}

#[test]
fn a_shuffle_keeps_everything() {
    let mut a: Vec<u32> = (0..50).collect();
    let mut b = a.clone();
    pseudo_shuffle(&mut a, 7);
    pseudo_shuffle(&mut b, 7);
    assert_eq!(a, b);
    assert_ne!(a, (0..50).collect::<Vec<u32>>());
    a.sort();
    assert_eq!(a, (0..50).collect::<Vec<u32>>());
}

fn track(disc: i64, position: i64, source: bool) -> ReleaseTrack {
    ReleaseTrack {
        disc_position: disc,
        track_position: position,
        title: format!("{disc}.{position}"),
        recording_id: format!("r{disc}{position}"),
        has_source: source,
    }
}

fn claim(path: &str, total: i64, disc: Option<i64>) -> SourceClaim {
    SourceClaim::new("Album", &Some("Album".into()), Some(path.into()), total, disc)
}

#[test]
fn releases_are_complete_or_not() {
    let complete = ReleaseContents {
        mediums: vec![1],
        tracks: vec![track(1, 1, true), track(1, 2, true)],
        claims: vec![claim("/1", 2, Some(1)), claim("/2", 2, Some(1))],
        disc_total: Some(1),
    };
    assert!(matches!(release_completeness(&complete), Some(ReleaseCompleteness::Complete)));
    assert!(!wants_track_totals(&complete));
    let incomplete = ReleaseContents {
        mediums: vec![1],
        tracks: vec![track(1, 1, true), track(1, 3, true)],
        claims: vec![claim("/1", 3, Some(1)), claim("/3", 3, Some(1))],
        disc_total: Some(1),
    };
    match release_completeness(&incomplete) {
        Some(ReleaseCompleteness::Incomplete { missing_tracks }) => {
            assert_eq!(missing_tracks.len(), 1);
            assert_eq!(missing_tracks.first().track_position, 2);
        }
        _ => panic!("the second track is missing"),
    }
    let unclaimed = ReleaseContents {
        mediums: vec![1],
        tracks: vec![track(1, 1, true)],
        claims: vec![],
        disc_total: None,
    };
    assert!(wants_track_totals(&unclaimed));
    assert!(matches!(
        release_completeness(&unclaimed),
        Some(ReleaseCompleteness::Unknown { .. })
    ));
}

#[test]
fn contradicting_claims_are_reported() {
    let c = ReleaseContents {
        mediums: vec![1],
        tracks: vec![track(1, 1, true), track(1, 2, true)],
        claims: vec![claim("/1", 10, Some(1)), claim("/2", 12, Some(1))],
        disc_total: Some(1),
    };
    match release_completeness(&c) {
        Some(ReleaseCompleteness::Unknown { reason, disagreement_groups }) => {
            assert_eq!(
                reason,
                "Sources disagree on total track count: 10 from 1 source, 12 from 1 source"
            );
            assert_eq!(disagreement_groups.len(), 2);
            assert_eq!(
                disagreement_groups[0].description,
                "1 source claims 1 disc with 10 tracks"
            );
            assert_eq!(disagreement_groups[1].source_paths, vec!["/2"]);
        }
        _ => panic!("ten or twelve tracks"),
    }
    let scattered = ReleaseContents { disc_total: None, ..c };
    match release_completeness(&scattered) {
        Some(ReleaseCompleteness::Unknown { reason, .. }) => assert_eq!(
            reason,
            "Sources disagree on total track count: 10 from 1 source (no disc info), \
             12 from 1 source (no disc info)"
        ),
        _ => panic!("ten or twelve tracks"),
    }
}

#[test]
fn discs_of_different_sizes_do_not_disagree() {
    let c = ReleaseContents {
        mediums: vec![1, 2],
        tracks: vec![track(1, 1, true), track(2, 1, true), track(2, 2, true)],
        claims: vec![
            claim("/1", 1, Some(1)),
            claim("/2", 2, Some(2)),
            claim("/3", 2, Some(2)),
        ],
        disc_total: Some(2),
    };
    assert!(matches!(release_completeness(&c), Some(ReleaseCompleteness::Complete)));
    let mut odd = c;
    odd.claims[1].track_total = 5;
    odd.claims[2].track_total = 4;
    match release_completeness(&odd) {
        Some(ReleaseCompleteness::Unknown { reason, disagreement_groups }) => {
            assert_eq!(
                reason,
                "Sources disagree on total track count: 2 discs with 1+5 tracks from 3 sources"
            );
            assert_eq!(
                disagreement_groups[0].description,
                "3 source claim 2 discs with 1+5 tracks"
            );
        }
        _ => panic!("the second disc is claimed in two ways"),
    }
    let mut larger = odd;
    larger.claims[1].track_total = 4;
    match release_completeness(&larger) {
        Some(ReleaseCompleteness::Incomplete { missing_tracks }) => {
            let places: Vec<(i64, i64)> =
                missing_tracks.iter().map(|m| (m.disc_position, m.track_position)).collect();
            assert_eq!(places, vec![(2, 3), (2, 4)]);
        }
        _ => panic!("two tracks of the second disc are missing"),
    }
}

fn missing_places(c: &ReleaseContents) -> Vec<(i64, i64)> {
    match release_completeness(c) {
        Some(ReleaseCompleteness::Incomplete { missing_tracks }) => {
            missing_tracks.iter().map(|m| (m.disc_position, m.track_position)).collect()
        }
        _ => panic!("the release is not complete"),
    }
}

#[test]
fn every_disc_needs_its_sources() {
    let mut c = ReleaseContents {
        mediums: vec![1, 2],
        tracks: (0..20).map(|i| track(1 + i / 10, 1 + i % 10, i < 15)).collect(),
        claims: (0..15).map(|i| claim(&format!("/{i}"), 10, Some(1 + i / 10))).collect(),
        disc_total: Some(2),
    };
    assert_eq!(missing_places(&c), vec![(2, 6), (2, 7), (2, 8), (2, 9), (2, 10)]);
    for t in c.tracks.iter_mut() {
        t.has_source = true;
    }
    assert!(matches!(release_completeness(&c), Some(ReleaseCompleteness::Complete)));
    // With one disc a track without a source is missing too, however few are claimed.
    let single = ReleaseContents {
        mediums: vec![1],
        tracks: vec![track(1, 1, true), track(1, 2, false)],
        claims: vec![claim("/1", 1, Some(1))],
        disc_total: Some(1),
    };
    assert_eq!(missing_places(&single), vec![(1, 2)]);
}

#[test]
fn a_source_of_another_release_has_no_say() {
    let other = |album: Option<&str>| {
        let album = album.map(|a| a.to_string());
        SourceClaim::new("Album", &album, Some("/other".into()), 35, Some(1))
    };
    let mut c = ReleaseContents {
        mediums: vec![1],
        tracks: (1..=23).map(|i| track(1, i, true)).collect(),
        claims: (1..=23).map(|i| claim(&format!("/{i}"), 23, Some(1))).collect(),
        disc_total: Some(1),
    };
    c.claims.push(other(Some("Compilation")));
    assert!(matches!(release_completeness(&c), Some(ReleaseCompleteness::Complete)));
    // A source that names no album counts.
    c.claims.push(other(None));
    assert!(matches!(release_completeness(&c), Some(ReleaseCompleteness::Unknown { .. })));
    let alone = ReleaseContents {
        mediums: vec![1],
        tracks: vec![track(1, 1, true)],
        claims: vec![other(Some("Compilation"))],
        disc_total: Some(1),
    };
    assert!(!wants_track_totals(&alone));
    let missing: Vec<(i64, i64)> = (2..=35).map(|i| (1, i)).collect();
    assert_eq!(missing_places(&alone), missing);
}

#[test]
fn sources_that_spell_the_album_otherwise_count() {
    let spelled = |album: &str, i: i64| {
        SourceClaim::new("Album", &Some(album.into()), Some(format!("/{i}")), 3, Some(1))
    };
    for album in ["album", "ALBUM", "Album (Deluxe Edition)"] {
        let c = ReleaseContents {
            mediums: vec![1],
            tracks: (1..=3).map(|i| track(1, i, true)).collect(),
            claims: (1..=3).map(|i| spelled(album, i)).collect(),
            disc_total: Some(1),
        };
        assert!(!wants_track_totals(&c));
        assert!(matches!(release_completeness(&c), Some(ReleaseCompleteness::Complete)));
    }
    let c = ReleaseContents {
        mediums: vec![1],
        tracks: (1..=2).map(|i| track(1, i, true)).collect(),
        claims: (1..=2).map(|i| spelled("album", i)).collect(),
        disc_total: Some(1),
    };
    assert_eq!(missing_places(&c), vec![(1, 3)]);
}

#[test]
fn a_total_over_all_discs_is_enough() {
    let c = ReleaseContents {
        mediums: vec![1, 2],
        tracks: vec![track(1, 1, true), track(2, 1, true)],
        claims: vec![claim("/1", 2, Some(1)), claim("/2", 2, Some(2))],
        disc_total: Some(2),
    };
    assert!(matches!(release_completeness(&c), Some(ReleaseCompleteness::Complete)));
    let mut one_claim = c;
    one_claim.claims.pop();
    assert!(matches!(release_completeness(&one_claim), Some(ReleaseCompleteness::Complete)));
    let mut without_source = one_claim;
    without_source.tracks[1].has_source = false;
    assert_eq!(missing_places(&without_source), vec![(2, 1)]);
    let mut larger = without_source;
    larger.tracks[1].has_source = true;
    larger.claims[0].track_total = 3;
    assert_eq!(missing_places(&larger), vec![(1, 2), (1, 3), (2, 2), (2, 3)]);
}

#[test]
fn a_disc_without_claims_leaves_a_release_undecided() {
    let c = ReleaseContents {
        mediums: vec![1, 2, 3],
        tracks: vec![
            track(1, 1, true),
            track(1, 2, true),
            track(1, 3, true),
            track(2, 1, true),
        ],
        claims: vec![claim("/1", 3, Some(1)), claim("/2", 5, Some(3))],
        disc_total: Some(3),
    };
    match release_completeness(&c) {
        Some(ReleaseCompleteness::Unknown { reason, disagreement_groups }) => {
            assert_eq!(reason, "No source files provide track_total information.");
            assert!(disagreement_groups.is_empty());
        }
        _ => panic!("nothing is known of the second disc"),
    }
}

#[test]
fn connections_are_tracked() {
    let mut t = PoolTracker::new();
    let a = t.register_waiter("list", Moment { ms: 10, unix_ms: 1000 });
    let b = t.register_waiter("scan", Moment { ms: 12, unix_ms: 1002 });
    assert_ne!(a, b);
    assert!(t.is_waiting(a));
    let lease = t.promote_waiter(a, Moment { ms: 15, unix_ms: 1005 });
    assert!(!t.is_waiting(a));
    let s = t.snapshot(4, 2, 20);
    assert_eq!((s.size, s.idle), (4, 2));
    assert_eq!((s.active_connection_count, s.waiting_request_count), (1, 1));
    assert_eq!(s.active_connections[0].held_for_ms, 5);
    assert_eq!(s.waiting_requests[0].waiting_for_ms, 8);
    assert_eq!(s.active_connections[0].purpose, "list");
    t.release(lease);
    t.remove_waiter(b);
    let s = t.snapshot(4, 4, 21);
    assert_eq!((s.active_connection_count, s.waiting_request_count), (0, 0));
    assert!(worker_count(None) >= 1);
    assert!(pool_connection_count(Some(8)) >= worker_count(Some(8)));
}

#[test]
fn the_computer_is_kept_awake() {
    let mut s = SleepInhibitor::new();
    assert_eq!(s.set_active(false), InhibitAction::Nothing);
    assert_eq!(s.set_active(true), InhibitAction::Acquire(InhibitService::DesktopPortal));
    assert_eq!(
        s.answered(InhibitService::DesktopPortal, false),
        InhibitAction::Acquire(InhibitService::ScreenSaver)
    );
    assert_eq!(
        s.answered(InhibitService::ScreenSaver, false),
        InhibitAction::Acquire(InhibitService::GnomeSession)
    );
    assert_eq!(s.answered(InhibitService::GnomeSession, false), InhibitAction::Nothing);
    assert_eq!(s.session, None);
    assert_eq!(s.answered(InhibitService::ScreenSaver, true), InhibitAction::Nothing);
    assert_eq!(s.set_active(true), InhibitAction::Nothing);
    assert_eq!(s.set_active(false), InhibitAction::Release(InhibitService::ScreenSaver));
    assert_eq!(s.session, None);
}

#[test]
fn dates_and_times() {
    assert_eq!(civil_from_days(0), (1970, 1, 1));
    assert_eq!(civil_from_days(-1), (1969, 12, 31));
    assert_eq!(civil_from_days(19_782), (2024, 2, 29));
    assert_eq!(timestamp(0), "19700101-000000");
    assert_eq!(sqlite_datetime_to_unix("1970-01-02 00:00:01"), Some(86_401));
    assert_eq!(sqlite_datetime_to_unix("2024-02-29 12:30:00"), Some(1_709_209_800));
    assert_eq!(sqlite_datetime_to_unix("short"), None);
}
