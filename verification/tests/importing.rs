use thmp5::file_issues::{FileIssueKind, FileIssueLog};
use thmp5::importer::{
    import_concurrency, missing_root, now_iso, ImportManager, TaskOutcome,
};
use thmp5::library::artist_fixes::check_artist_compound;
use thmp5::library::fix_merges::{
    choose_mbid, extract_single_mbid, group_files, group_sources, present_sources,
    sources_to_split, MergeSource, StoredFile,
};
use thmp5::library::import::{
    file_identity, file_sha256, hash_text, known_hash, plan_import, remove_mbid,
    remove_mbid_tags, settle_mbid, settle_tags, split_tags, ExistingSource, FileOutcome,
    IdentityError, ImportPlan,
};
use thmp5::models::{FixMergedRecordingsStats, ImportStats};

const MBID: &str = "UFID:http://musicbrainz.org";

fn pairs(v: &[(&str, &str)]) -> Vec<(String, String)> {
    v.iter().map(|(a, b)| (a.to_string(), b.to_string())).collect()
}

fn stored() -> ExistingSource {
    ExistingSource {
        id: "s".into(),
        file_size: Some(10),
        file_mtime_ms: Some(20),
        has_raw_tags: true,
        file_hash: Some("h".into()),
        fingerprint: Some("f".into()),
    }
}

#[test]
fn only_what_changed_is_read() {
    assert_eq!(plan_import(&Some(stored()), 10, 20), None);
    let all = Some(ImportPlan { needs_hash: true, needs_fingerprint: true });
    assert_eq!(plan_import(&None, 10, 20), all);
    assert_eq!(plan_import(&Some(stored()), 11, 20), all);
    assert_eq!(plan_import(&Some(stored()), 10, 21), all);
    let mut no_print = stored();
    no_print.fingerprint = None;
    let plan = plan_import(&Some(no_print), 10, 20).unwrap();
    assert!(!plan.needs_hash);
    assert!(plan.needs_fingerprint);
    assert_eq!(known_hash(&Some(stored()), 10, 20), Some("h".to_string()));
    assert_eq!(known_hash(&Some(stored()), 11, 20), None);
    assert_eq!(known_hash(&None, 10, 20), None);
}

#[test]
fn identifiers_and_tags_are_brought_together() {
    let (mbid, tags) = settle_tags(Some("m".into()), pairs(&[("TIT2", "T")]));
    assert_eq!(mbid.as_deref(), Some("m"));
    assert_eq!(tags, pairs(&[("TIT2", "T"), (MBID, "m")]));
    let (mbid, tags) = settle_tags(None, pairs(&[(MBID, ""), (MBID, "n")]));
    assert_eq!(mbid.as_deref(), Some("n"));
    assert_eq!(tags, pairs(&[(MBID, ""), (MBID, "n")]));
    let (mbid, tags) = settle_tags(None, pairs(&[("TIT2", "T")]));
    assert_eq!((mbid, tags), (None, pairs(&[("TIT2", "T")])));
}

#[test]
fn stored_tags_keep_their_meaning() {
    let (mbid, json) = settle_mbid(Some("m".into()), "[[\"TIT2\",\"a \\\"b\\\"\"]]".into());
    assert_eq!(mbid.as_deref(), Some("m"));
    assert_eq!(
        json,
        "[[\"TIT2\",\"a \\\"b\\\"\"],[\"UFID:http://musicbrainz.org\",\"m\"]]"
    );
    // Without an identifier the text stays, whatever it is.
    assert_eq!(settle_mbid(None, "not json".into()), (None, "not json".to_string()));
    assert_eq!(
        remove_mbid("[[\"UFID:http://musicbrainz.org\",\"m\"],[\"TIT2\",\"T\"]]"),
        Some("[[\"TIT2\",\"T\"]]".to_string())
    );
    assert_eq!(remove_mbid("{}"), None);
    assert_eq!(
        remove_mbid_tags(&pairs(&[(MBID, "m"), ("TIT2", "T"), (MBID, "n")])),
        pairs(&[("TIT2", "T")])
    );
}

#[test]
fn files_have_an_identity() {
    assert_eq!(file_identity(5, 7), Ok((5, 7)));
    assert_eq!(file_identity(u64::MAX, 7), Err(IdentityError::TooLarge));
    assert_eq!(file_identity(5, u128::MAX), Err(IdentityError::TimeOutOfRange));
    assert_ne!(IdentityError::TooLarge.message(), IdentityError::TimeOutOfRange.message());
}

#[test]
fn outcomes_of_an_import_are_counted() {
    let mut stats = ImportStats::new();
    stats.count_file(FileOutcome::Imported);
    stats.count_file(FileOutcome::Skipped);
    stats.count_file(FileOutcome::Failed { error: "bad".into() });
    assert_eq!((stats.scanned, stats.imported, stats.skipped, stats.errors), (3, 1, 1, 1));
    assert_eq!(stats.error_messages, vec!["bad"]);
    stats.count_walk_error(Some("/d"), "denied");
    assert_eq!(stats.errors, 2);
}

#[test]
fn a_scan_runs_once_at_a_time() {
    let mut m = ImportManager::new(FileIssueLog::new());
    assert!(!m.snapshot().is_running);
    assert!(m.begin_scan("/music", 1_700_000_000));
    assert!(!m.begin_scan("/other", 1_700_000_001));
    let p = m.snapshot();
    assert!(p.is_running);
    assert_eq!(p.root_path.as_deref(), Some("/music"));
    m.file_found("/music/a.mp3");
    m.task_started();
    m.task_read();
    m.handle_task_result(TaskOutcome::Imported);
    m.file_found("/music/b.mp3");
    m.handle_task_result(TaskOutcome::Failed {
        path: "/music/b.mp3".into(),
        shown_path: "/music/b.mp3".into(),
        detail: "bad tag".into(),
    });
    m.walk_done();
    m.finish_scan(None, 1_700_000_002);
    let p = m.snapshot();
    assert!(!p.is_running);
    assert_eq!((p.scanned, p.imported, p.errors), (2, 1, 1));
    assert_eq!(m.file_issues.all().len(), 1);
    assert_eq!(m.file_issues.all()[0].kind, FileIssueKind::ImportError);
    assert!(m.begin_scan("/music", 1_700_000_003));
    assert_eq!(m.snapshot().scanned, 0);
}

#[test]
fn imports_run_side_by_side() {
    assert!(import_concurrency(None) >= 1);
    assert!(import_concurrency(Some(64)) >= import_concurrency(Some(1)));
    assert!(missing_root("/m").contains("/m"));
    assert_eq!(now_iso(1_700_000_000), "1700000000");
}

#[test]
fn sources_are_grouped_by_identifier() {
    let row = |id: &str, mbid: Option<&str>| MergeSource {
        id: id.into(),
        file_path: format!("/{id}.mp3"),
        mbid: mbid.map(String::from),
    };
    let groups = group_sources(&vec![
        row("a", Some("m")),
        row("b", None),
        row("c", Some("n")),
        row("d", Some("m")),
    ]);
    assert_eq!(groups.len(), 1);
    assert_eq!(groups[0].mbid, "m");
    assert_eq!(groups[0].sources, pairs(&[("a", "/a.mp3"), ("d", "/d.mp3")]));
    let file = |id: &str| StoredFile {
        id: id.into(),
        file_path: format!("/{id}.mp3"),
        raw_tags_json: Some("[[\"UFID:http://musicbrainz.org\",\"m\"]]".into()),
    };
    assert_eq!(group_files(&vec![file("a"), file("b")])[0].sources.len(), 2);
}

#[test]
fn the_first_identifier_that_is_not_empty_counts() {
    let lists = vec![
        vec!["TIT2".to_string(), "T".to_string()],
        vec![MBID.to_string()],
        vec![MBID.to_string(), "".to_string()],
        vec![MBID.to_string(), "m".to_string(), "more".to_string()],
    ];
    assert_eq!(choose_mbid(&lists), Some("m".to_string()));
    assert_eq!(
        extract_single_mbid(&Some("[[\"UFID:http://musicbrainz.org\",\"m\"]]".into())),
        Some("m".to_string())
    );
    assert_eq!(extract_single_mbid(&Some("".into())), None);
    assert_eq!(extract_single_mbid(&Some("[1]".into())), None);
    assert_eq!(extract_single_mbid(&None), None);
}

#[test]
fn different_audio_is_split_off() {
    let sources = pairs(&[("a", "/a"), ("b", "/b"), ("c", "/c")]);
    assert_eq!(
        present_sources(&sources, &vec![true, false, true]),
        pairs(&[("a", "/a"), ("c", "/c")])
    );
    // The first stays whatever is said of it.
    assert_eq!(
        sources_to_split(&sources, &vec![false, true, false]),
        pairs(&[("c", "/c")])
    );
}

#[test]
fn repairs_are_counted() {
    let mut stats = FixMergedRecordingsStats::new();
    stats.count_checked();
    stats.count_split();
    stats.count_reimport("/a", None);
    stats.count_reimport("/b", Some("gone"));
    stats.note_group_error("m", "bad");
    assert_eq!(
        (stats.recordings_checked, stats.recordings_split, stats.sources_reimported),
        (1, 1, 1)
    );
    assert_eq!(stats.errors.len(), 2);
}

#[test]
fn a_compound_artist_is_told_by_its_files() {
    let paths: Vec<String> = ["/1", "/2", "/3", "/4"].iter().map(|s| s.to_string()).collect();
    let check = check_artist_compound(
        Some("A & B"),
        &paths,
        &vec![Some("A; B".into()), Some("a & b".into()), None, Some("B;C;A & b".into())],
    );
    assert!(check.is_compound);
    assert_eq!(check.evidence_count, 2);
    assert_eq!(check.total_sources_checked, 4);
    assert_eq!(check.individual_artist_names, vec!["A", "B", "C"]);
    assert_eq!(check.source_examples, vec!["/1", "/2", "/3"]);
    let nothing = check_artist_compound(None, &paths, &vec![]);
    assert!(!nothing.is_compound);
    assert_eq!(nothing.total_sources_checked, 0);
}

#[test]
fn content_is_known_by_its_hash() {
    assert_eq!(
        file_sha256(b"abc"),
        "ba7816bf8f01cfea414140de5dae2223b00361a396177a9cb410ff61f20015ad"
    );
    assert_eq!(
        file_sha256(b""),
        "e3b0c44298fc1c149afbf4c8996fb92427ae41e4649b934ca495991b7852b855"
    );
    assert_eq!(hash_text(&[0, 10, 255]), "000aff");
}

#[test]
fn a_moved_source_loses_its_identifier() {
    let json = "[[\"UFID:http://musicbrainz.org\",\"m\"],[\"TIT2\",\"T\"]]".to_string();
    assert_eq!(split_tags(Some(json)), Some("[[\"TIT2\",\"T\"]]".to_string()));
    assert_eq!(split_tags(Some("{}".into())), Some("{}".to_string()));
    assert_eq!(split_tags(None), None);
}
