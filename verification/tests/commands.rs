use thmp5::commands::{
    app_bootstrap, app_config, external_command, list_page, music_root,
    not_found, playlist_name, queue_history_limit, recording_of_moved, recording_paths,
    require_sources, rescan_failure, rescan_path, rescan_paths, rescan_result, search_text,
    shell_words, sources_to_move, spawn_failure, stored_history_limit, validate_rating,
    PlaylistError,
};
use thmp5::models::{ExternalCommand, ImportProgress, LibrarySummary, RecordingRow};

fn strings(v: &[&str]) -> Vec<String> {
    v.iter().map(|s| s.to_string()).collect()
}

fn row(id: &str) -> RecordingRow {
    RecordingRow {
        id: id.to_string(),
        title: String::new(),
        duration_ms: None,
        primary_artist_id: None,
        artist_credit_name: None,
        genre: None,
        rating: None,
        play_count: 0,
        last_played: None,
        primary_source_id: None,
        primary_source_path: None,
        tags: vec![],
        artist_ids: vec![],
        source_paths: vec![],
        releases: vec![],
    }
}

#[test]
fn words_are_split_at_blanks_outside_quotes() {
    assert_eq!(shell_words("a b\tc"), strings(&["a", "b", "c"]));
    assert_eq!(shell_words("  a  "), strings(&["a"]));
    assert_eq!(shell_words(r#"edit "my file" 'x y'"#), strings(&["edit", "my file", "x y"]));
    // Quotes join what touches them, and an open quote runs to the end.
    assert_eq!(shell_words(r#"a"b c"d"#), strings(&["ab cd"]));
    assert_eq!(shell_words(r#"a "b c"#), strings(&["a", "b c"]));
    // An empty pair of quotes makes no word.
    assert!(shell_words(r#""" ''"#).is_empty());
    assert!(shell_words("").is_empty());
}

#[test]
fn a_command_names_its_file() {
    let (program, args) = external_command("open -f %% \"in %%\"", "/a b.mp3").unwrap();
    assert_eq!(program, "open");
    assert_eq!(args, strings(&["-f", "/a b.mp3", "in /a b.mp3"]));
    assert_eq!(external_command("  ", "/a.mp3"), Err("Empty command".to_string()));
    assert_eq!(spawn_failure("open", "gone"), "Failed to spawn 'open': gone");
}

#[test]
fn ratings_are_one_to_five_stars() {
    for n in 1..=5 {
        assert!(validate_rating(Some(n)).is_ok());
    }
    assert!(validate_rating(None).is_ok());
    assert_eq!(validate_rating(Some(0)), Err("Rating must be between 1 and 5.".to_string()));
    assert!(validate_rating(Some(6)).is_err());
}

#[test]
fn a_page_is_cut_out_of_a_list() {
    let rows = || vec![row("a"), row("b"), row("c")];
    let ids = |v: Vec<RecordingRow>| v.into_iter().map(|r| r.id).collect::<Vec<_>>();
    assert_eq!(ids(list_page(rows(), None, None)), strings(&["a", "b", "c"]));
    assert_eq!(ids(list_page(rows(), Some(1), Some(1))), strings(&["b"]));
    assert!(list_page(rows(), Some(2), Some(5)).is_empty());
    assert!(list_page(rows(), Some(0), None).is_empty());
    let many: Vec<RecordingRow> = (0..250).map(|_| row("x")).collect();
    assert_eq!(list_page(many, None, None).len(), 200);
}

#[test]
fn a_blank_search_is_none() {
    assert_eq!(search_text(Some("  blue ")), Some("blue".to_string()));
    assert_eq!(search_text(Some(" \t\u{00A0}")), None);
    assert_eq!(search_text(None), None);
}

#[test]
fn settings_are_brought_into_range() {
    assert_eq!(queue_history_limit(0), 1);
    assert_eq!(queue_history_limit(7), 7);
    assert_eq!(queue_history_limit(101), 100);
    assert_eq!(stored_history_limit(Some("12")), 12);
    assert_eq!(stored_history_limit(Some("-3")), -3);
    assert_eq!(stored_history_limit(Some("x")), 5);
    assert_eq!(stored_history_limit(None), 5);
    assert_eq!(music_root(" /m "), Ok("/m".to_string()));
    assert_eq!(music_root("  "), Err("Music root cannot be empty.".to_string()));
    assert_eq!(not_found("Artist", "7"), "Artist 7 not found");
}

#[test]
fn rescans_are_checked_and_reported() {
    assert_eq!(rescan_path(" /a.mp3\n"), Ok("/a.mp3".to_string()));
    assert_eq!(rescan_path(""), Err("Source path cannot be empty.".to_string()));
    assert_eq!(
        rescan_paths(&strings(&[" /a ", "", "/b"])),
        Ok(strings(&["/a", "/b"]))
    );
    assert_eq!(
        rescan_paths(&vec![]),
        Err("At least one source path is required.".to_string())
    );
    assert_eq!(
        require_sources(vec![], "for this artist"),
        Err("No local sources found for this artist.".to_string())
    );
    assert_eq!(require_sources(strings(&["/a"]), "x"), Ok(strings(&["/a"])));
    assert_eq!(rescan_failure("/a", None), "/a: Source file is missing");
    assert_eq!(rescan_failure("/a", Some("bad tag")), "/a:\nbad tag");
    assert_eq!(rescan_result(&vec![]), Ok(()));
    assert_eq!(
        rescan_result(&strings(&["one", "two"])),
        Err("Failed to rescan 2 source(s):\none\n\ntwo".to_string())
    );
}

#[test]
fn a_smart_playlist_needs_a_query_and_a_name() {
    assert_eq!(playlist_name(" Best ", "Rating >= 4").unwrap(), "Best");
    assert!(matches!(playlist_name(" ", "Rating >= 4"), Err(PlaylistError::EmptyName)));
    assert!(matches!(
        playlist_name("Best", "Rating >="),
        Err(PlaylistError::InvalidQuery(_))
    ));
}

#[test]
fn a_recording_is_read_again_by_its_files() {
    let mut a = row("a");
    a.source_paths = strings(&["", "/one", "/two", ""]);
    let rows = vec![row("b"), a];
    assert_eq!(recording_paths(&rows, "a"), Ok(strings(&["/one", "/two"])));
    assert_eq!(
        recording_paths(&rows, "b"),
        Err("No local sources found for this recording.".to_string())
    );
    assert_eq!(recording_paths(&rows, "c"), Err("Recording not found in catalog.".to_string()));
}

#[test]
fn a_moved_source_is_found_where_it_is_shown() {
    let all = strings(&["s", "t"]);
    assert_eq!(sources_to_move(vec![], &all), Err("No sources selected to move".to_string()));
    assert_eq!(sources_to_move(strings(&["s"]), &all), Ok(strings(&["s"])));
    assert_eq!(
        sources_to_move(strings(&["t", "s"]), &all),
        Err("At least one source must stay with the recording".to_string())
    );
    assert!(sources_to_move(strings(&["s"]), &vec![]).is_err());
    let mut a = row("a");
    a.primary_source_id = Some("s".into());
    let mut b = row("b");
    b.primary_source_id = Some("t".into());
    let rows = vec![row("n"), a, b];
    assert_eq!(recording_of_moved(&rows, "t"), Some("b".to_string()));
    assert_eq!(recording_of_moved(&rows, "u"), None);
}

#[test]
fn the_stored_configuration_is_read() {
    let commands = vec![ExternalCommand { name: "edit".into(), template: "vi %%".into() }];
    let config = app_config(Some("/music".into()), Some("12"), commands);
    assert_eq!(config.music_root.as_deref(), Some("/music"));
    assert_eq!(config.queue_history_limit, 12);
    assert_eq!(config.external_commands[0].name, "edit");
    let config = app_config(None, Some("twelve"), vec![]);
    assert_eq!(config.queue_history_limit, 5);
    let progress = ImportProgress {
        is_running: false,
        root_path: None,
        current_path: None,
        scanned: 0,
        imported: 0,
        skipped: 0,
        errors: 0,
        error_messages: vec![],
        started_at: None,
        finished_at: None,
        fingerprinting_count: 0,
    };
    let summary = LibrarySummary {
        recording_count: 3,
        artist_count: 2,
        release_group_count: 1,
        source_count: 4,
    };
    let shown = app_bootstrap(config, progress, summary);
    assert!(shown.needs_setup);
    assert_eq!(shown.library_summary.recording_count, 3);
}
