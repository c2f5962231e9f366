//! The progress of a library scan.
//!
//! The scan itself walks directories and starts tasks; what it meets is handed to
//! the manager, which keeps the counts and the log of files that had problems.
use vstd::prelude::*;
use crate::file_issues;
use crate::file_issues::{FileIssueKind, FileIssueLog};
use crate::library::tag_writer::edit::clone_texts;
use crate::models::ImportProgress;
use crate::storage::memory::lists::clone_opt;
use crate::text;
use crate::text::decimal_string;

verus! {

/// Keeps the progress of the scan that runs or ran last.
#[derive(Debug)]
pub struct ImportManager {
    pub progress: ImportProgress,
    pub file_issues: FileIssueLog,
}

/// How the task for one file ended.
#[derive(Debug)]
pub enum TaskOutcome {
    /// The file was stored.
    Imported,
    /// The file was known already.
    Skipped,
    /// The file could not be read or stored. `shown_path` is the path as it is shown
    /// to the user.
    Failed { path: String, shown_path: String, detail: String },
    /// The task itself broke off.
    Crashed { error: String },
}

// ── Meaning ──────────────────────────────────────────────────────────────────

/// What a progress says.
#[verifier::ext_equal]
pub struct Progress {
    pub is_running: bool,
    pub root_path: Option<Seq<char>>,
    pub current_path: Option<Seq<char>>,
    pub scanned: u32,
    pub imported: u32,
    pub skipped: u32,
    pub errors: u32,
    pub error_messages: Seq<Seq<char>>,
    pub started_at: Option<Seq<char>>,
    pub finished_at: Option<Seq<char>>,
    pub fingerprinting_count: u32,
}

impl View for ImportProgress {
    type V = Progress;

    open spec fn view(&self) -> Progress {
        Progress {
            is_running: self.is_running,
            root_path: text::opt_text(self.root_path),
            current_path: text::opt_text(self.current_path),
            scanned: self.scanned,
            imported: self.imported,
            skipped: self.skipped,
            errors: self.errors,
            error_messages: text::texts(self.error_messages@),
            started_at: text::opt_text(self.started_at),
            finished_at: text::opt_text(self.finished_at),
            fingerprinting_count: self.fingerprinting_count,
        }
    }
}

/// The progress before any scan.
pub open spec fn idle() -> Progress {
    Progress {
        is_running: false,
        root_path: None,
        current_path: None,
        scanned: 0,
        imported: 0,
        skipped: 0,
        errors: 0,
        error_messages: Seq::empty(),
        started_at: None,
        finished_at: None,
        fingerprinting_count: 0,
    }
}

impl Progress {
    /// A progress after a scan was asked for: a scan that runs goes on.
    pub open spec fn begun(self, root: Seq<char>, now: Seq<char>) -> Progress {
        if self.is_running {
            self
        } else {
            Progress { is_running: true, root_path: Some(root), started_at: Some(now), ..idle() }
        }
    }

    /// A progress after an audio file was found.
    pub open spec fn found(self, path: Seq<char>) -> Progress {
        Progress { scanned: (self.scanned + 1) as u32, current_path: Some(path), ..self }
    }

    /// A progress after one more error.
    pub open spec fn failed(self, message: Seq<char>) -> Progress {
        Progress {
            errors: (self.errors + 1) as u32,
            error_messages: self.error_messages.push(message),
            ..self
        }
    }

    /// A progress after a task has ended.
    pub open spec fn ended(self, outcome: TaskOutcome) -> Progress {
        match outcome {
            TaskOutcome::Imported => Progress { imported: (self.imported + 1) as u32, ..self },
            TaskOutcome::Skipped => Progress { skipped: (self.skipped + 1) as u32, ..self },
            TaskOutcome::Failed { path, shown_path, detail } => self.failed(
                shown_path@ + ": "@ + detail@,
            ),
            TaskOutcome::Crashed { error } => self.failed("Importer task failed: "@ + error@),
        }
    }

    /// A progress after the scan has ended, perhaps with an error.
    pub open spec fn finished(self, error: Option<Seq<char>>, now: Seq<char>) -> Progress {
        let p = Progress { is_running: false, finished_at: Some(now), ..self };
        match error {
            Some(message) => p.failed(message),
            None => p,
        }
    }
}

// ── Executable ───────────────────────────────────────────────────────────────

fn idle_progress() -> (r: ImportProgress)
    ensures
        r@ == idle(),
{
    let r = ImportProgress {
        is_running: false,
        root_path: None,
        current_path: None,
        scanned: 0,
        imported: 0,
        skipped: 0,
        errors: 0,
        error_messages: Vec::new(),
        started_at: None,
        finished_at: None,
        fingerprinting_count: 0,
    };
    assert(r@ =~= idle());
    r
}

/// The view of an optional text.
pub open spec fn opt_str(o: Option<&str>) -> Option<Seq<char>> {
    match o {
        Some(s) => Some(s@),
        None => None,
    }
}

impl ImportManager {
    /// A manager for which no scan has run yet.
    pub fn new(file_issues: FileIssueLog) -> (r: ImportManager)
        ensures
            r.progress@ == idle(),
            r.file_issues == file_issues,
    {
        ImportManager { progress: idle_progress(), file_issues }
    }

    /// The progress as it is now.
    pub fn snapshot(&self) -> (r: ImportProgress)
        ensures
            r@ == self.progress@,
    {
        let p = &self.progress;
        ImportProgress {
            is_running: p.is_running,
            root_path: clone_opt(&p.root_path),
            current_path: clone_opt(&p.current_path),
            scanned: p.scanned,
            imported: p.imported,
            skipped: p.skipped,
            errors: p.errors,
            error_messages: clone_texts(&p.error_messages),
            started_at: clone_opt(&p.started_at),
            finished_at: clone_opt(&p.finished_at),
            fingerprinting_count: p.fingerprinting_count,
        }
    }

    /// Begins a scan unless one runs; tells whether one is to be started.
    pub fn begin_scan(&mut self, root_path: &str, now_secs: u64) -> (started: bool)
        ensures
            started == !old(self).progress@.is_running,
            final(self).progress@ == old(self).progress@.begun(
                root_path@,
                text::decimal(now_secs as nat),
            ),
            final(self).file_issues == old(self).file_issues,
    {
        if self.progress.is_running {
            return false;
        }
        let mut p = idle_progress();
        p.is_running = true;
        p.root_path = Some(root_path.to_owned());
        p.started_at = Some(now_iso(now_secs));
        self.progress = p;
        true
    }

    /// Notes an audio file that the scan has come to.
    pub fn file_found(&mut self, path: &str)
        requires
            old(self).progress.scanned < u32::MAX,
        ensures
            final(self).progress@ == old(self).progress@.found(path@),
            final(self).file_issues == old(self).file_issues,
    {
        self.progress.scanned = self.progress.scanned + 1;
        self.progress.current_path = Some(path.to_owned());
    }

    fn add_error(&mut self, message: String)
        requires
            old(self).progress.errors < u32::MAX,
        ensures
            final(self).progress@ == old(self).progress@.failed(message@),
            final(self).file_issues == old(self).file_issues,
    {
        let ghost before = text::texts(self.progress.error_messages@);
        self.progress.errors = self.progress.errors + 1;
        self.progress.error_messages.push(message);
        assert(text::texts(self.progress.error_messages@) =~= before.push(message@));
    }

    /// Notes a place that could not be walked; its path is logged where it is known.
    pub fn walk_failed(&mut self, path: Option<&str>, message: &str)
        requires
            old(self).progress.errors < u32::MAX,
        ensures
            final(self).progress@ == old(self).progress@.failed(message@),
            final(self).file_issues@ == match path {
                Some(p) => old(self).file_issues@.push(
                    file_issues::plain_issue(p@, FileIssueKind::ImportError, message@),
                ),
                None => old(self).file_issues@,
            },
    {
        if let Some(p) = path {
            self.file_issues.push_import_error(p, message);
        }
        self.add_error(message.to_owned());
    }

    /// Notes that the task for a file has begun to read it.
    pub fn task_started(&mut self)
        requires
            old(self).progress.fingerprinting_count < u32::MAX,
        ensures
            final(self).progress@ == (Progress {
                fingerprinting_count: (old(self).progress.fingerprinting_count + 1) as u32,
                ..old(self).progress@
            }),
            final(self).file_issues == old(self).file_issues,
    {
        self.progress.fingerprinting_count = self.progress.fingerprinting_count + 1;
    }

    /// Notes that the task for a file has read it.
    pub fn task_read(&mut self)
        ensures
            final(self).progress@ == (Progress {
                fingerprinting_count: if old(self).progress.fingerprinting_count == 0 {
                    0
                } else {
                    (old(self).progress.fingerprinting_count - 1) as u32
                },
                ..old(self).progress@
            }),
            final(self).file_issues == old(self).file_issues,
    {
        if self.progress.fingerprinting_count > 0 {
            self.progress.fingerprinting_count = self.progress.fingerprinting_count - 1;
        }
    }

    /// Notes how the task for a file ended.
    pub fn handle_task_result(&mut self, outcome: TaskOutcome)
        requires
            old(self).progress.imported < u32::MAX,
            old(self).progress.skipped < u32::MAX,
            old(self).progress.errors < u32::MAX,
        ensures
            final(self).progress@ == old(self).progress@.ended(outcome),
            final(self).file_issues@ == match outcome {
                TaskOutcome::Failed { path, shown_path, detail } => old(self).file_issues@.push(
                    file_issues::plain_issue(path@, FileIssueKind::ImportError, detail@),
                ),
                _ => old(self).file_issues@,
            },
    {
        match outcome {
            TaskOutcome::Imported => {
                self.progress.imported = self.progress.imported + 1;
            },
            TaskOutcome::Skipped => {
                self.progress.skipped = self.progress.skipped + 1;
            },
            TaskOutcome::Failed { path, shown_path, detail } => {
                self.file_issues.push_import_error(&path, &detail);
                let mut message = shown_path;
                message.append(": ");
                message.append(&detail);
                self.add_error(message);
            },
            TaskOutcome::Crashed { error } => {
                let mut message = "Importer task failed: ".to_owned();
                message.append(&error);
                self.add_error(message);
            },
        }
    }

    /// Notes that all files have been handled.
    pub fn walk_done(&mut self)
        ensures
            final(self).progress@ == (Progress { current_path: None, ..old(self).progress@ }),
            final(self).file_issues == old(self).file_issues,
    {
        self.progress.current_path = None;
    }

    /// Ends the scan.
    pub fn finish_scan(&mut self, error: Option<&str>, now_secs: u64)
        requires
            old(self).progress.errors < u32::MAX,
        ensures
            final(self).progress@ == old(self).progress@.finished(
                opt_str(error),
                text::decimal(now_secs as nat),
            ),
            final(self).file_issues == old(self).file_issues,
    {
        self.progress.is_running = false;
        self.progress.finished_at = Some(now_iso(now_secs));
        if let Some(message) = error {
            self.add_error(message.to_owned());
        }
    }
}

/// The error of a scan whose root is not there.
pub fn missing_root(shown_path: &str) -> (r: String)
    ensures
        r@ == "Import root does not exist: "@ + shown_path@,
{
    let mut r = "Import root does not exist: ".to_owned();
    r.append(shown_path);
    r
}

/// How many files are read at once: as many as there are processors, between two
/// and six; four when that is not known.
pub fn import_concurrency(parallelism: Option<usize>) -> (r: usize)
    ensures
        r == match parallelism {
            None => 4,
            Some(n) => if n > 6 {
                6
            } else if n < 2 {
                2
            } else {
                n as int
            },
        },
{
    match parallelism {
        None => 4,
        Some(n) => if n > 6 {
            6
        } else if n < 2 {
            2
        } else {
            n
        },
    }
}

/// A moment as the text of its seconds since 1970.
pub fn now_iso(secs: u64) -> (r: String)
    ensures
        r@ == text::decimal(secs as nat),
{
    decimal_string(secs)
}

// ── Laws ─────────────────────────────────────────────────────────────────────

/// A scan that runs is not begun again, and one that has ended is begun afresh.
pub proof fn law_scan_runs_once(
    p: Progress,
    root: Seq<char>,
    now: Seq<char>,
    other: Seq<char>,
    later: Seq<char>,
    error: Option<Seq<char>>,
)
    ensures
        p.begun(root, now).is_running,
        p.begun(root, now).begun(other, later) == p.begun(root, now),
        p.finished(error, now).begun(other, later) == idle().begun(other, later),
{
}

/// Every task that ends adds one to exactly one of the counts.
pub proof fn law_every_outcome_counts_once(p: Progress, outcome: TaskOutcome)
    requires
        p.imported < u32::MAX,
        p.skipped < u32::MAX,
        p.errors < u32::MAX,
    ensures
        p.ended(outcome).imported + p.ended(outcome).skipped + p.ended(outcome).errors
            == p.imported + p.skipped + p.errors + 1,
        p.ended(outcome).error_messages.len() - p.error_messages.len() == p.ended(outcome).errors
            - p.errors,
{
}

/// A scan that begins counts from zero, under its root and from its time.
pub proof fn law_scan_begins_anew(p: Progress, root: Seq<char>, now: Seq<char>)
    requires
        !p.is_running,
    ensures
        ({
            let b = p.begun(root, now);
            &&& b.is_running
            &&& b.root_path == Some(root) && b.started_at == Some(now) && b.finished_at is None
            &&& b.current_path is None
            &&& b.scanned == 0 && b.imported == 0 && b.skipped == 0 && b.errors == 0
            &&& b.error_messages.len() == 0
            &&& b.fingerprinting_count == 0
        }),
{
}

/// Each file that is found is counted, and shown as the current one.
pub proof fn law_found_files_are_counted(p: Progress, path: Seq<char>)
    requires
        p.scanned < u32::MAX,
    ensures
        p.found(path).scanned == p.scanned + 1,
        p.found(path).current_path == Some(path),
        p.found(path).imported == p.imported && p.found(path).skipped == p.skipped && p.found(
            path,
        ).errors == p.errors,
        p.found(path).error_messages == p.error_messages && p.found(path).is_running
            == p.is_running,
{
}

/// Each outcome is counted as what it is, and failures are told.
pub proof fn law_outcomes_are_told(p: Progress, outcome: TaskOutcome)
    requires
        p.imported < u32::MAX,
        p.skipped < u32::MAX,
        p.errors < u32::MAX,
    ensures
        outcome is Imported ==> p.ended(outcome).imported == p.imported + 1,
        outcome is Skipped ==> p.ended(outcome).skipped == p.skipped + 1,
        outcome is Failed || outcome is Crashed ==> p.ended(outcome).errors == p.errors + 1,
        outcome matches TaskOutcome::Failed { path, shown_path, detail } ==> p.ended(
            outcome,
        ).error_messages == p.error_messages.push(shown_path@ + ": "@ + detail@),
        outcome matches TaskOutcome::Crashed { error } ==> p.ended(outcome).error_messages
            == p.error_messages.push("Importer task failed: "@ + error@),
        p.ended(outcome).scanned == p.scanned && p.ended(outcome).is_running == p.is_running,
{
}

/// A scan that has finished does not run any more, and tells an error as its last.
pub proof fn law_finished_scan_rests(p: Progress, message: Seq<char>, now: Seq<char>)
    requires
        p.errors < u32::MAX,
    ensures
        !p.finished(None, now).is_running && !p.finished(Some(message), now).is_running,
        p.finished(None, now).finished_at == Some(now) && p.finished(
            Some(message),
            now,
        ).finished_at == Some(now),
        p.finished(None, now).errors == p.errors && p.finished(None, now).error_messages
            == p.error_messages,
        p.finished(Some(message), now).errors == p.errors + 1,
        p.finished(Some(message), now).error_messages == p.error_messages.push(message),
        p.finished(None, now).imported == p.imported && p.finished(None, now).skipped == p.skipped
            && p.finished(None, now).scanned == p.scanned,
{
}

/// As many files are read at once as there are processors, but at least two and at most
/// six; four where that is not known.
pub proof fn law_files_read_at_once(n: Option<usize>, r: usize)
    requires
        call_ensures(import_concurrency, (n,), r),
    ensures
        n is None ==> r == 4,
        n is Some && 2 <= n->0 <= 6 ==> r == n->0,
        n is Some && n->0 < 2 ==> r == 2,
        n is Some && n->0 > 6 ==> r == 6,
{
}

/// What happens to one file, and the end of a scan, leave what a progress says of the
/// scan as a whole; only the file that is read last is told anew.
pub proof fn law_progress_keeps_its_scan(
    p: Progress,
    path: Seq<char>,
    outcome: TaskOutcome,
    error: Option<Seq<char>>,
    now: Seq<char>,
)
    ensures
        p.found(path).root_path == p.root_path && p.found(path).started_at == p.started_at,
        p.found(path).finished_at == p.finished_at && p.found(path).fingerprinting_count
            == p.fingerprinting_count,
        p.ended(outcome).root_path == p.root_path && p.ended(outcome).started_at == p.started_at,
        p.ended(outcome).finished_at == p.finished_at && p.ended(outcome).current_path
            == p.current_path,
        p.ended(outcome).fingerprinting_count == p.fingerprinting_count,
        p.finished(error, now).root_path == p.root_path && p.finished(error, now).started_at
            == p.started_at,
        p.finished(error, now).current_path == p.current_path && p.finished(
            error,
            now,
        ).fingerprinting_count == p.fingerprinting_count,
        p.finished(error, now).scanned == p.scanned && p.finished(error, now).imported
            == p.imported && p.finished(error, now).skipped == p.skipped,
{
}

} // verus!
