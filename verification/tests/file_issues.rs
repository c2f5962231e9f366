use thmp5::file_issues::{is_backup_name, FileIssue, FileIssueKind, FileIssueLog};

#[test]
fn test_push_duplicate_frame_adds_issue() {
    let mut log = FileIssueLog::new();
    log.push_duplicate_frame("/path/a.mp3", "TIT2", "title", "Lofty Title", "First Title");
    let issues = log.all();
    assert_eq!(issues.len(), 1);
    assert_eq!(issues[0].file_path, "/path/a.mp3");
    assert_eq!(issues[0].kind, FileIssueKind::DuplicateFrame);
    assert_eq!(issues[0].frame_id.as_deref(), Some("TIT2"));
    assert_eq!(issues[0].lofty_value.as_deref(), Some("Lofty Title"));
    assert_eq!(issues[0].corrected_value.as_deref(), Some("First Title"));
}

#[test]
fn test_push_duplicate_frame_dedup_same_file_same_frame() {
    let mut log = FileIssueLog::new();
    log.push_duplicate_frame("/path/a.mp3", "TIT2", "title", "Lofty Title", "First Title");
    log.push_duplicate_frame("/path/a.mp3", "TIT2", "title", "Lofty Title", "First Title");
    let issues = log.all();
    assert_eq!(
        issues.len(),
        1,
        "pushing the same duplicate frame twice should result in one entry"
    );
}

#[test]
fn test_push_duplicate_frame_different_frames_same_file() {
    let mut log = FileIssueLog::new();
    log.push_duplicate_frame("/path/a.mp3", "TIT2", "title", "Lofty Title", "First Title");
    log.push_duplicate_frame(
        "/path/a.mp3",
        "TPE1",
        "artist",
        "Lofty Artist",
        "First Artist",
    );
    let issues = log.all();
    assert_eq!(issues.len(), 2);
}

#[test]
fn test_retain_removes_issues_by_predicate() {
    let mut log = FileIssueLog::new();
    log.push_duplicate_frame("/path/a.mp3", "TIT2", "title", "A", "B");
    log.push_duplicate_frame("/path/b.mp3", "TIT2", "title", "C", "D");
    log.retain(|issue| issue.file_path != "/path/a.mp3");
    let issues = log.all();
    assert_eq!(issues.len(), 1);
    assert_eq!(issues[0].file_path, "/path/b.mp3");
}

#[test]
fn test_retain_clears_all_duplicate_frame_issues_for_a_file() {
    let mut log = FileIssueLog::new();
    log.push_duplicate_frame("/path/a.mp3", "TIT2", "title", "A", "B");
    log.push_duplicate_frame("/path/a.mp3", "TPE1", "artist", "C", "D");
    log.push_duplicate_frame("/path/b.mp3", "TIT2", "title", "E", "F");

    // Simulate clearing all DuplicateFrame issues for /path/a.mp3
    log.retain(|issue| {
        !(issue.kind == FileIssueKind::DuplicateFrame && issue.file_path == "/path/a.mp3")
    });

    let issues = log.all();
    assert_eq!(issues.len(), 1);
    assert_eq!(issues[0].file_path, "/path/b.mp3");
}

fn kinds(issues: &[FileIssue]) -> Vec<FileIssueKind> {
    issues.iter().map(|i| i.kind).collect()
}

#[test]
fn issues_tell_what_is_wrong() {
    let mut log = FileIssueLog::new();
    log.push_import_error("/a.mp3", "bad");
    log.push_playback_error("/b.mp3", "gone");
    log.push_orphan_source("/c.mp3", "alone", "s", "r");
    log.push_duplicate_frame("/d.mp3", "TIT2", "title", "A \"x\"", "B");
    let issues = log.all();
    assert_eq!(
        kinds(&issues),
        vec![
            FileIssueKind::ImportError,
            FileIssueKind::PlaybackError,
            FileIssueKind::OrphanSource,
            FileIssueKind::DuplicateFrame,
        ]
    );
    assert_eq!(issues[2].source_id.as_deref(), Some("s"));
    assert_eq!(
        issues[3].message,
        "ID3v2 title (frame TIT2) has conflicting values: Lofty picked \"A \\\"x\\\"\", \
         raw first-value is \"B\""
    );
}

#[test]
fn a_rescan_settles_a_file() {
    let mut log = FileIssueLog::new();
    log.push_duplicate_frame("/a.mp3", "TIT2", "title", "A", "B");
    log.push_backup_exists("/a.mp3", "/a.mp3.old.thmp5bak");
    log.push_duplicate_frame("/b.mp3", "TIT2", "title", "A", "B");
    log.record_rescan("/a.mp3", &vec![], &vec!["/a.mp3.new.thmp5bak".to_string()]);
    let issues = log.all();
    assert_eq!(
        kinds(&issues),
        vec![FileIssueKind::DuplicateFrame, FileIssueKind::BackupFileExists]
    );
    assert_eq!(issues[0].file_path, "/b.mp3");
    assert_eq!(issues[1].backup_path.as_deref(), Some("/a.mp3.new.thmp5bak"));
    log.clear_backup("/a.mp3.new.thmp5bak");
    assert_eq!(log.all().len(), 1);
    log.clear(FileIssueKind::DuplicateFrame, "/b.mp3");
    assert!(log.all().is_empty());
}

#[test]
fn backups_are_known_by_name() {
    assert!(is_backup_name("a.mp3.20240101-000000.thmp5bak", "a.mp3"));
    assert!(!is_backup_name("b.mp3.20240101-000000.thmp5bak", "a.mp3"));
    assert!(!is_backup_name("a.mp3", "a.mp3"));
}
