//! The log of files that had problems.
use vstd::prelude::*;
use crate::models::DuplicateFrameInfo;
use crate::storage::memory::lists::clone_opt;
use crate::text;
use crate::text::{ends_with, same_text, starts_with};

verus! {

/// What is wrong with a file.
#[derive(Debug, Clone, Copy, PartialEq, Eq, Structural)]
pub enum FileIssueKind {
    ImportError,
    PlaybackError,
    OrphanSource,
    DuplicateFrame,
    BackupFileExists,
}

/// A problem with a file.
#[derive(Debug, PartialEq)]
pub struct FileIssue {
    pub file_path: String,
    pub kind: FileIssueKind,
    pub message: String,
    /// For an orphan source: the source.
    pub source_id: Option<String>,
    pub recording_id: Option<String>,
    /// For a duplicate frame: the frame.
    pub frame_id: Option<String>,
    /// For a duplicate frame: the name of its field.
    pub field_name: Option<String>,
    /// For a duplicate frame: the value that the tag reader picked.
    pub lofty_value: Option<String>,
    /// For a duplicate frame: the first value in the file.
    pub corrected_value: Option<String>,
    /// For a backup file: its path.
    pub backup_path: Option<String>,
}

/// The log of files that had problems, in the order in which they were noticed.
#[derive(Debug)]
pub struct FileIssueLog {
    pub issues: Vec<FileIssue>,
}

// ── Meaning ──────────────────────────────────────────────────────────────────

/// What an issue says.
#[verifier::ext_equal]
pub struct Issue {
    pub file_path: Seq<char>,
    pub kind: FileIssueKind,
    pub message: Seq<char>,
    pub source_id: Option<Seq<char>>,
    pub recording_id: Option<Seq<char>>,
    pub frame_id: Option<Seq<char>>,
    pub field_name: Option<Seq<char>>,
    pub lofty_value: Option<Seq<char>>,
    pub corrected_value: Option<Seq<char>>,
    pub backup_path: Option<Seq<char>>,
}

impl View for FileIssue {
    type V = Issue;

    open spec fn view(&self) -> Issue {
        Issue {
            file_path: self.file_path@,
            kind: self.kind,
            message: self.message@,
            source_id: text::opt_text(self.source_id),
            recording_id: text::opt_text(self.recording_id),
            frame_id: text::opt_text(self.frame_id),
            field_name: text::opt_text(self.field_name),
            lofty_value: text::opt_text(self.lofty_value),
            corrected_value: text::opt_text(self.corrected_value),
            backup_path: text::opt_text(self.backup_path),
        }
    }
}

/// What issues say.
pub open spec fn issues_view(v: Seq<FileIssue>) -> Seq<Issue> {
    v.map_values(|i: FileIssue| i@)
}

impl View for FileIssueLog {
    type V = Seq<Issue>;

    open spec fn view(&self) -> Seq<Issue> {
        issues_view(self.issues@)
    }
}

/// An issue of a kind with nothing but a message.
pub open spec fn plain_issue(path: Seq<char>, kind: FileIssueKind, message: Seq<char>) -> Issue {
    Issue {
        file_path: path,
        kind,
        message,
        source_id: None,
        recording_id: None,
        frame_id: None,
        field_name: None,
        lofty_value: None,
        corrected_value: None,
        backup_path: None,
    }
}

/// A duplicate frame.
pub struct Duplicate {
    pub frame_id: Seq<char>,
    pub field_name: Seq<char>,
    pub lofty_value: Seq<char>,
    pub corrected_value: Seq<char>,
}

impl View for DuplicateFrameInfo {
    type V = Duplicate;

    open spec fn view(&self) -> Duplicate {
        Duplicate {
            frame_id: self.frame_id@,
            field_name: self.field_name@,
            lofty_value: self.lofty_value@,
            corrected_value: self.corrected_value@,
        }
    }
}

/// A text in quotation marks, with special characters escaped.
pub uninterp spec fn quoted(s: Seq<char>) -> Seq<char>;

/// Whether a text has no character that is escaped when the text is quoted.
pub open spec fn is_plain(s: Seq<char>) -> bool {
    forall|i: int|
        0 <= i < s.len() ==> ' ' <= (#[trigger] s[i]) <= '~' && s[i] != '"' && s[i] != '\\'
}

/// The message for a frame whose values differ, given its values in quotation marks.
pub open spec fn conflict_text(
    field_name: Seq<char>,
    frame_id: Seq<char>,
    picked: Seq<char>,
    first: Seq<char>,
) -> Seq<char> {
    "ID3v2 "@ + field_name + " (frame "@ + frame_id + ") has conflicting values: Lofty picked "@
        + picked + ", raw first-value is "@ + first
}

/// The issue that a duplicate frame is.
pub open spec fn duplicate_issue(path: Seq<char>, d: Duplicate) -> Issue {
    Issue {
        frame_id: Some(d.frame_id),
        field_name: Some(d.field_name),
        lofty_value: Some(d.lofty_value),
        corrected_value: Some(d.corrected_value),
        ..plain_issue(
            path,
            FileIssueKind::DuplicateFrame,
            conflict_text(
                d.field_name,
                d.frame_id,
                quoted(d.lofty_value),
                quoted(d.corrected_value),
            ),
        )
    }
}

/// The issue that a left-over backup file is.
pub open spec fn backup_issue(path: Seq<char>, backup: Seq<char>) -> Issue {
    Issue {
        backup_path: Some(backup),
        ..plain_issue(
            path,
            FileIssueKind::BackupFileExists,
            "Backup file exists: "@ + backup,
        )
    }
}

/// Whether an issue says that a frame of a file is duplicate.
pub open spec fn is_duplicate_of(i: Issue, path: Seq<char>, frame: Seq<char>) -> bool {
    i.kind == FileIssueKind::DuplicateFrame && i.file_path == path && i.frame_id == Some(frame)
}

/// Whether a log says that a frame of a file is duplicate.
pub open spec fn has_duplicate(s: Seq<Issue>, path: Seq<char>, frame: Seq<char>) -> bool {
    exists|k: int| 0 <= k < s.len() && is_duplicate_of(#[trigger] s[k], path, frame)
}

/// A log after a duplicate frame was reported: each frame of a file is there once.
pub open spec fn with_duplicate(s: Seq<Issue>, path: Seq<char>, d: Duplicate) -> Seq<Issue> {
    if has_duplicate(s, path, d.frame_id) {
        s
    } else {
        s.push(duplicate_issue(path, d))
    }
}

/// A log after several duplicate frames were reported.
pub open spec fn with_duplicates(s: Seq<Issue>, path: Seq<char>, ds: Seq<Duplicate>) -> Seq<Issue>
    decreases ds.len(),
{
    if ds.len() == 0 {
        s
    } else {
        with_duplicate(with_duplicates(s, path, ds.drop_last()), path, ds.last())
    }
}

/// Whether an issue is not of a kind, or not of a file.
pub open spec fn spared(kind: FileIssueKind, path: Seq<char>) -> spec_fn(Issue) -> bool {
    |i: Issue| !(i.kind == kind && i.file_path == path)
}

/// A log after a file was read again: what was known of its duplicate frames and
/// backup files gives way to what was found.
pub open spec fn rescanned(
    s: Seq<Issue>,
    path: Seq<char>,
    ds: Seq<Duplicate>,
    backups: Seq<Seq<char>>,
) -> Seq<Issue> {
    with_duplicates(s.filter(spared(FileIssueKind::DuplicateFrame, path)), path, ds).filter(
        spared(FileIssueKind::BackupFileExists, path),
    ) + backups.map_values(|b: Seq<char>| backup_issue(path, b))
}

/// The elements of `s` that are marked in `kept`.
pub open spec fn marked<A>(s: Seq<A>, kept: Seq<bool>) -> Seq<A>
    decreases s.len(),
{
    if s.len() == 0 {
        s
    } else if kept.last() {
        marked(s.drop_last(), kept.drop_last()).push(s.last())
    } else {
        marked(s.drop_last(), kept.drop_last())
    }
}

/// Whether `kept` holds what a predicate said of each issue.
pub open spec fn said_of<F: Fn(&FileIssue) -> bool>(
    f: F,
    s: Seq<FileIssue>,
    kept: Seq<bool>,
) -> bool {
    &&& kept.len() == s.len()
    &&& forall|i: int| 0 <= i < s.len() ==> f.ensures((&#[trigger] s[i],), kept[i])
}

// ── Executable ───────────────────────────────────────────────────────────────

/// Writes a text with the `Debug` format of `str`, through `format!`. Claimed of
/// it: the result depends on the text alone, and printable ASCII without quotation
/// marks and backslashes only gets quotation marks around it.
#[verifier::external_body]
pub(crate) fn quote(s: &str) -> (r: String)
    ensures
        r@ == quoted(s@),
        is_plain(s@) ==> r@ == seq!['"'] + s@ + seq!['"'],
{
    format!("{:?}", s)
}

/// The message for a frame whose values differ, given its values in quotation marks.
pub fn conflict_message(field_name: &str, frame_id: &str, picked: &str, first: &str) -> (r: String)
    ensures
        r@ == conflict_text(field_name@, frame_id@, picked@, first@),
{
    let mut r = "ID3v2 ".to_owned();
    r.append(field_name);
    r.append(" (frame ");
    r.append(frame_id);
    r.append(") has conflicting values: Lofty picked ");
    r.append(picked);
    r.append(", raw first-value is ");
    r.append(first);
    r
}

fn copy_issue(i: &FileIssue) -> (r: FileIssue)
    ensures
        r == *i,
{
    FileIssue {
        file_path: i.file_path.clone(),
        kind: i.kind,
        message: i.message.clone(),
        source_id: clone_opt(&i.source_id),
        recording_id: clone_opt(&i.recording_id),
        frame_id: clone_opt(&i.frame_id),
        field_name: clone_opt(&i.field_name),
        lofty_value: clone_opt(&i.lofty_value),
        corrected_value: clone_opt(&i.corrected_value),
        backup_path: clone_opt(&i.backup_path),
    }
}

fn plain(path: &str, kind: FileIssueKind, message: String) -> (r: FileIssue)
    ensures
        r@ == plain_issue(path@, kind, message@),
{
    FileIssue {
        file_path: path.to_owned(),
        kind,
        message,
        source_id: None,
        recording_id: None,
        frame_id: None,
        field_name: None,
        lofty_value: None,
        corrected_value: None,
        backup_path: None,
    }
}

impl FileIssueLog {
    /// An empty log.
    pub fn new() -> (r: FileIssueLog)
        ensures
            r@ == Seq::<Issue>::empty(),
    {
        let r = FileIssueLog { issues: Vec::new() };
        assert(r@ =~= Seq::<Issue>::empty());
        r
    }

    fn push(&mut self, issue: FileIssue)
        ensures
            final(self)@ == old(self)@.push(issue@),
    {
        self.issues.push(issue);
        assert(self@ =~= old(self)@.push(issue@));
    }

    /// Reports that a file could not be imported.
    pub fn push_import_error(&mut self, file_path: &str, message: &str)
        ensures
            final(self)@ == old(self)@.push(
                plain_issue(file_path@, FileIssueKind::ImportError, message@),
            ),
    {
        self.push(plain(file_path, FileIssueKind::ImportError, message.to_owned()));
    }

    /// Reports that a file could not be played.
    pub fn push_playback_error(&mut self, file_path: &str, message: &str)
        ensures
            final(self)@ == old(self)@.push(
                plain_issue(file_path@, FileIssueKind::PlaybackError, message@),
            ),
    {
        self.push(plain(file_path, FileIssueKind::PlaybackError, message.to_owned()));
    }

    /// Reports a source that belongs to no recording.
    pub fn push_orphan_source(
        &mut self,
        file_path: &str,
        message: &str,
        source_id: &str,
        recording_id: &str,
    )
        ensures
            final(self)@ == old(self)@.push(
                (Issue {
                    source_id: Some(source_id@),
                    recording_id: Some(recording_id@),
                    ..plain_issue(file_path@, FileIssueKind::OrphanSource, message@)
                }),
            ),
    {
        let mut issue = plain(file_path, FileIssueKind::OrphanSource, message.to_owned());
        issue.source_id = Some(source_id.to_owned());
        issue.recording_id = Some(recording_id.to_owned());
        self.push(issue);
    }

    fn knows_duplicate(&self, file_path: &str, frame_id: &str) -> (r: bool)
        ensures
            r == has_duplicate(self@, file_path@, frame_id@),
    {
        let mut i: usize = 0;
        while i < self.issues.len()
            invariant
                i <= self.issues@.len(),
                forall|k: int|
                    0 <= k < i ==> !is_duplicate_of(
                        #[trigger] self@[k],
                        file_path@,
                        frame_id@,
                    ),
            decreases self.issues@.len() - i,
        {
            let issue = &self.issues[i];
            assert(self@[i as int] == issue@);
            let same_frame = match &issue.frame_id {
                Some(f) => same_text(f, frame_id),
                None => false,
            };
            if issue.kind == FileIssueKind::DuplicateFrame && same_frame && same_text(
                &issue.file_path,
                file_path,
            ) {
                return true;
            }
            i = i + 1;
        }
        assert(self@.len() == self.issues@.len());
        false
    }

    /// Reports a frame that occurs more than once with different values. A frame of
    /// a file that is already reported is not reported again.
    pub fn push_duplicate_frame(
        &mut self,
        file_path: &str,
        frame_id: &str,
        field_name: &str,
        lofty_value: &str,
        corrected_value: &str,
    )
        ensures
            final(self)@ == with_duplicate(
                old(self)@,
                file_path@,
                (Duplicate {
                    frame_id: frame_id@,
                    field_name: field_name@,
                    lofty_value: lofty_value@,
                    corrected_value: corrected_value@,
                }),
            ),
    {
        if self.knows_duplicate(file_path, frame_id) {
            return;
        }
        let picked = quote(lofty_value);
        let first = quote(corrected_value);
        let message = conflict_message(field_name, frame_id, &picked, &first);
        let mut issue = plain(file_path, FileIssueKind::DuplicateFrame, message);
        issue.frame_id = Some(frame_id.to_owned());
        issue.field_name = Some(field_name.to_owned());
        issue.lofty_value = Some(lofty_value.to_owned());
        issue.corrected_value = Some(corrected_value.to_owned());
        self.push(issue);
    }

    /// Reports a backup file that an edit of tags has left.
    pub fn push_backup_exists(&mut self, file_path: &str, backup_path: &str)
        ensures
            final(self)@ == old(self)@.push(backup_issue(file_path@, backup_path@)),
    {
        let mut message = "Backup file exists: ".to_owned();
        message.append(backup_path);
        let mut issue = plain(file_path, FileIssueKind::BackupFileExists, message);
        issue.backup_path = Some(backup_path.to_owned());
        self.push(issue);
    }

    /// All issues.
    pub fn all(&self) -> (r: Vec<FileIssue>)
        ensures
            r@ == self.issues@,
    {
        let mut r: Vec<FileIssue> = Vec::new();
        let mut i: usize = 0;
        while i < self.issues.len()
            invariant
                i <= self.issues@.len(),
                r@ == self.issues@.take(i as int),
            decreases self.issues@.len() - i,
        {
            r.push(copy_issue(&self.issues[i]));
            assert(r@ =~= self.issues@.take(i + 1));
            i = i + 1;
        }
        assert(self.issues@.take(self.issues@.len() as int) =~= self.issues@);
        r
    }

    /// Keeps the issues that satisfy a predicate.
    pub fn retain<F: Fn(&FileIssue) -> bool>(&mut self, f: F)
        requires
            forall|i: &FileIssue| #[trigger] f.requires((i,)),
        ensures
            exists|kept: Seq<bool>|
                #[trigger] said_of(f, old(self).issues@, kept) && final(self).issues@ == marked(
                    old(self).issues@,
                    kept,
                ),
    {
        let ghost before = self.issues@;
        let ghost mut kept: Seq<bool> = Seq::empty();
        let mut r: Vec<FileIssue> = Vec::new();
        let mut i: usize = 0;
        assert(before.take(0) =~= Seq::empty());
        while i < self.issues.len()
            invariant
                i <= self.issues@.len(),
                self.issues@ == before,
                forall|i: &FileIssue| #[trigger] f.requires((i,)),
                said_of(f, before.take(i as int), kept),
                r@ == marked(before.take(i as int), kept),
            decreases self.issues@.len() - i,
        {
            let keep = f(&self.issues[i]);
            let ghost told = kept;
            proof {
                kept = kept.push(keep);
                assert(before.take(i + 1).drop_last() =~= before.take(i as int));
                assert(before.take(i + 1).last() == before[i as int]);
                assert(kept.drop_last() =~= told);
                assert forall|k: int| 0 <= k < i + 1 implies f.ensures(
                    (&#[trigger] before.take(i + 1)[k],),
                    kept[k],
                ) by {
                    if k < i {
                        assert(before.take(i as int)[k] == before.take(i + 1)[k]);
                    }
                }
            }
            if keep {
                r.push(copy_issue(&self.issues[i]));
            }
            i = i + 1;
        }
        proof {
            assert(before.take(before.len() as int) =~= before);
        }
        self.issues = r;
    }

    /// Drops the issues of a kind that a file has.
    pub fn clear(&mut self, kind: FileIssueKind, file_path: &str)
        ensures
            final(self)@ == old(self)@.filter(spared(kind, file_path@)),
    {
        let ghost all = self@;
        let ghost keep = spared(kind, file_path@);
        let ghost before = self.issues@;
        let mut r: Vec<FileIssue> = Vec::new();
        let mut i: usize = 0;
        proof {
            assert(all.take(0) =~= Seq::empty());
            all.take(0).lemma_filter_len(keep);
            assert(issues_view(r@) =~= all.take(0).filter(keep));
        }
        while i < self.issues.len()
            invariant
                i <= self.issues@.len(),
                self.issues@ == before,
                all == issues_view(before),
                keep == spared(kind, file_path@),
                issues_view(r@) == all.take(i as int).filter(keep),
            decreases self.issues@.len() - i,
        {
            let issue = &self.issues[i];
            proof {
                assert(all.take(i + 1) =~= all.take(i as int).push(all[i as int]));
                all.take(i as int).lemma_filter_push(all[i as int], keep);
            }
            if !(issue.kind == kind && same_text(&issue.file_path, file_path)) {
                let ghost told = issues_view(r@);
                r.push(copy_issue(issue));
                assert(issues_view(r@) =~= told.push(all[i as int]));
            }
            i = i + 1;
        }
        assert(all.take(all.len() as int) =~= all);
        self.issues = r;
    }

    /// Drops the issue of a backup file.
    pub fn clear_backup(&mut self, backup_path: &str)
        ensures
            final(self)@ == old(self)@.filter(
                |i: Issue|
                    !(i.kind == FileIssueKind::BackupFileExists && i.backup_path == Some(
                        backup_path@,
                    )),
            ),
    {
        let ghost all = self@;
        let ghost keep = |i: Issue|
            !(i.kind == FileIssueKind::BackupFileExists && i.backup_path == Some(backup_path@));
        let ghost before = self.issues@;
        let mut r: Vec<FileIssue> = Vec::new();
        let mut i: usize = 0;
        proof {
            assert(all.take(0) =~= Seq::empty());
            all.take(0).lemma_filter_len(keep);
            assert(issues_view(r@) =~= all.take(0).filter(keep));
        }
        while i < self.issues.len()
            invariant
                i <= self.issues@.len(),
                self.issues@ == before,
                all == issues_view(before),
                keep == (|i: Issue|
                    !(i.kind == FileIssueKind::BackupFileExists && i.backup_path == Some(
                        backup_path@,
                    ))),
                issues_view(r@) == all.take(i as int).filter(keep),
            decreases self.issues@.len() - i,
        {
            let issue = &self.issues[i];
            proof {
                assert(all.take(i + 1) =~= all.take(i as int).push(all[i as int]));
                all.take(i as int).lemma_filter_push(all[i as int], keep);
            }
            let same = match &issue.backup_path {
                Some(p) => same_text(p, backup_path),
                None => false,
            };
            if !(issue.kind == FileIssueKind::BackupFileExists && same) {
                let ghost told = issues_view(r@);
                r.push(copy_issue(issue));
                assert(issues_view(r@) =~= told.push(all[i as int]));
            }
            i = i + 1;
        }
        assert(all.take(all.len() as int) =~= all);
        self.issues = r;
    }

    /// Takes in what reading a file again has found: its duplicate frames and the
    /// backup files beside it.
    pub fn record_rescan(
        &mut self,
        file_path: &str,
        duplicates: &Vec<DuplicateFrameInfo>,
        backups: &Vec<String>,
    )
        ensures
            final(self)@ == rescanned(
                old(self)@,
                file_path@,
                duplicates@.map_values(|d: DuplicateFrameInfo| d@),
                text::texts(backups@),
            ),
    {
        let ghost ds = duplicates@.map_values(|d: DuplicateFrameInfo| d@);
        self.clear(FileIssueKind::DuplicateFrame, file_path);
        let ghost cleared = self@;
        let mut i: usize = 0;
        while i < duplicates.len()
            invariant
                i <= duplicates@.len(),
                ds == duplicates@.map_values(|d: DuplicateFrameInfo| d@),
                self@ == with_duplicates(cleared, file_path@, ds.take(i as int)),
            decreases duplicates@.len() - i,
        {
            let d = &duplicates[i];
            proof {
                assert(ds.take(i + 1).drop_last() =~= ds.take(i as int));
                assert(ds.take(i + 1).last() == d@);
            }
            self.push_duplicate_frame(
                file_path,
                &d.frame_id,
                &d.field_name,
                &d.lofty_value,
                &d.corrected_value,
            );
            i = i + 1;
        }
        assert(ds.take(ds.len() as int) =~= ds);
        self.clear(FileIssueKind::BackupFileExists, file_path);
        let ghost base = self@;
        let ghost bs = text::texts(backups@).map_values(|b: Seq<char>| backup_issue(file_path@, b));
        let mut j: usize = 0;
        assert(base + bs.take(0) =~= base);
        while j < backups.len()
            invariant
                j <= backups@.len(),
                bs == text::texts(backups@).map_values(
                    |b: Seq<char>| backup_issue(file_path@, b),
                ),
                self@ == base + bs.take(j as int),
            decreases backups@.len() - j,
        {
            self.push_backup_exists(file_path, &backups[j]);
            proof {
                assert(text::texts(backups@)[j as int] == backups@[j as int]@);
                assert(base + bs.take(j + 1) =~= (base + bs.take(j as int)).push(bs[j as int]));
            }
            j = j + 1;
        }
        assert(bs.take(bs.len() as int) =~= bs);
    }
}

/// Whether a file beside another is a backup of it.
pub open spec fn names_backup(entry: Seq<char>, file_name: Seq<char>) -> bool {
    (file_name + "."@).is_prefix_of(entry) && ".thmp5bak"@.is_suffix_of(entry)
}

/// Whether a file beside another is a backup of it.
pub fn is_backup_name(entry_name: &str, file_name: &str) -> (r: bool)
    ensures
        r == names_backup(entry_name@, file_name@),
{
    let mut front = file_name.to_owned();
    front.append(".");
    starts_with(entry_name, &front) && ends_with(entry_name, ".thmp5bak")
}

// ── Laws ─────────────────────────────────────────────────────────────────────

/// Reporting the same duplicate frame of a file again changes nothing.
pub proof fn law_duplicate_is_reported_once(s: Seq<Issue>, path: Seq<char>, d: Duplicate)
    ensures
        with_duplicate(with_duplicate(s, path, d), path, d) == with_duplicate(s, path, d),
{
    let t = with_duplicate(s, path, d);
    if !has_duplicate(s, path, d.frame_id) {
        assert(is_duplicate_of(t[s.len() as int], path, d.frame_id));
    }
}

/// Clearing the issues of a kind that a file has leaves none of them, and leaves
/// all others.
pub proof fn law_clear_removes(s: Seq<Issue>, kind: FileIssueKind, path: Seq<char>, i: Issue)
    ensures
        s.filter(spared(kind, path)).contains(i) <==> s.contains(i) && !(i.kind == kind
            && i.file_path == path),
{
    let keep = spared(kind, path);
    let r = s.filter(keep);
    if r.contains(i) {
        let k = choose|k: int| 0 <= k < r.len() && r[k] == i;
        s.lemma_filter_pred(keep, k);
        assert(keep(i));
        s.lemma_filter_contains_rev(keep, i);
    }
    if s.contains(i) && keep(i) {
        let k = choose|k: int| 0 <= k < s.len() && s[k] == i;
        s.lemma_filter_contains(keep, k);
    }
}

proof fn lemma_filter_all<A>(s: Seq<A>, keep: spec_fn(A) -> bool)
    requires
        forall|k: int| 0 <= k < s.len() ==> keep(#[trigger] s[k]),
    ensures
        s.filter(keep) == s,
    decreases s.len(),
{
    reveal(Seq::filter);
    if s.len() > 0 {
        lemma_filter_all(s.drop_last(), keep);
        assert(s.drop_last().push(s.last()) =~= s);
        assert(keep(s[s.len() - 1]));
    }
}

proof fn lemma_filter_none<A>(s: Seq<A>, keep: spec_fn(A) -> bool)
    requires
        forall|k: int| 0 <= k < s.len() ==> !keep(#[trigger] s[k]),
    ensures
        s.filter(keep) == Seq::<A>::empty(),
    decreases s.len(),
{
    reveal(Seq::filter);
    if s.len() > 0 {
        lemma_filter_none(s.drop_last(), keep);
        assert(!keep(s[s.len() - 1]));
    }
}

proof fn lemma_filter_add<A>(a: Seq<A>, b: Seq<A>, keep: spec_fn(A) -> bool)
    ensures
        (a + b).filter(keep) == a.filter(keep) + b.filter(keep),
    decreases b.len(),
{
    if b.len() == 0 {
        assert(a + b =~= a);
        b.lemma_filter_len(keep);
        assert(b.filter(keep) =~= Seq::empty());
        assert(a.filter(keep) + b.filter(keep) =~= a.filter(keep));
    } else {
        let c = b.drop_last();
        lemma_filter_add(a, c, keep);
        assert(a + b =~= (a + c).push(b.last()));
        assert(b =~= c.push(b.last()));
        (a + c).lemma_filter_push(b.last(), keep);
        c.lemma_filter_push(b.last(), keep);
        assert(a.filter(keep) + c.filter(keep).push(b.last()) =~= (a.filter(keep) + c.filter(
            keep,
        )).push(b.last()));
    }
}

/// Duplicate frames of a file come after what the log says of others.
proof fn lemma_duplicates_after(s: Seq<Issue>, path: Seq<char>, ds: Seq<Duplicate>)
    requires
        forall|k: int|
            0 <= k < s.len() ==> spared(FileIssueKind::DuplicateFrame, path)(#[trigger] s[k]),
    ensures
        with_duplicates(s, path, ds) == s + with_duplicates(Seq::empty(), path, ds),
        forall|k: int|
            0 <= k < with_duplicates(Seq::empty(), path, ds).len() ==> (
            #[trigger] with_duplicates(Seq::empty(), path, ds)[k]).kind
                == FileIssueKind::DuplicateFrame && with_duplicates(
                Seq::empty(),
                path,
                ds,
            )[k].file_path == path,
    decreases ds.len(),
{
    if ds.len() == 0 {
        assert(s + Seq::<Issue>::empty() =~= s);
    } else {
        let front = ds.drop_last();
        lemma_duplicates_after(s, path, front);
        let alone = with_duplicates(Seq::empty(), path, front);
        let d = ds.last();
        let whole = s + alone;
        assert(has_duplicate(whole, path, d.frame_id) == has_duplicate(alone, path, d.frame_id)) by {
            if has_duplicate(alone, path, d.frame_id) {
                let k = choose|k: int|
                    0 <= k < alone.len() && is_duplicate_of(#[trigger] alone[k], path, d.frame_id);
                assert(whole[s.len() + k] == alone[k]);
            }
            if has_duplicate(whole, path, d.frame_id) {
                let k = choose|k: int|
                    0 <= k < whole.len() && is_duplicate_of(#[trigger] whole[k], path, d.frame_id);
                if k < s.len() {
                    assert(spared(FileIssueKind::DuplicateFrame, path)(s[k]));
                    assert(false);
                } else {
                    assert(alone[k - s.len()] == whole[k]);
                }
            }
        }
        assert(whole.push(duplicate_issue(path, d)) =~= s + alone.push(duplicate_issue(path, d)));
    }
}

/// What a log says after a file was read again: of other files and other kinds what
/// it said before, then the duplicate frames, then the backup files.
proof fn lemma_rescanned_parts(
    s: Seq<Issue>,
    path: Seq<char>,
    ds: Seq<Duplicate>,
    backups: Seq<Seq<char>>,
)
    ensures
        rescanned(s, path, ds, backups) == s.filter(
            spared(FileIssueKind::DuplicateFrame, path),
        ).filter(spared(FileIssueKind::BackupFileExists, path)) + with_duplicates(
            Seq::empty(),
            path,
            ds,
        ) + backups.map_values(|b: Seq<char>| backup_issue(path, b)),
{
    let no_dup = spared(FileIssueKind::DuplicateFrame, path);
    let no_backup = spared(FileIssueKind::BackupFileExists, path);
    let dups = with_duplicates(Seq::empty(), path, ds);
    let cleared = s.filter(no_dup);
    assert forall|k: int| 0 <= k < cleared.len() implies no_dup(#[trigger] cleared[k]) by {
        s.lemma_filter_pred(no_dup, k);
    }
    lemma_duplicates_after(cleared, path, ds);
    lemma_filter_add(cleared, dups, no_backup);
    lemma_filter_all(dups, no_backup);
}

/// Elements at the end that are dropped.
proof fn lemma_filter_end_dropped<A>(a: Seq<A>, b: Seq<A>, keep: spec_fn(A) -> bool)
    requires
        forall|k: int| 0 <= k < b.len() ==> !keep(#[trigger] b[k]),
    ensures
        (a + b).filter(keep) == a.filter(keep),
{
    lemma_filter_add(a, b, keep);
    lemma_filter_none(b, keep);
    assert(a.filter(keep) + Seq::<A>::empty() =~= a.filter(keep));
}

/// Elements at the end that stay.
proof fn lemma_filter_end_stays<A>(a: Seq<A>, b: Seq<A>, keep: spec_fn(A) -> bool)
    requires
        forall|k: int| 0 <= k < b.len() ==> keep(#[trigger] b[k]),
    ensures
        (a + b).filter(keep) == a.filter(keep) + b,
{
    lemma_filter_add(a, b, keep);
    lemma_filter_all(b, keep);
}

proof fn lemma_front_stays<A>(
    front: Seq<A>,
    middle: Seq<A>,
    back: Seq<A>,
    p: spec_fn(A) -> bool,
    q: spec_fn(A) -> bool,
)
    requires
        forall|k: int| 0 <= k < front.len() ==> p(#[trigger] front[k]) && q(front[k]),
        forall|k: int| 0 <= k < middle.len() ==> !p(#[trigger] middle[k]),
        forall|k: int| 0 <= k < back.len() ==> p(#[trigger] back[k]) && !q(back[k]),
    ensures
        (front + middle + back).filter(p).filter(q) == front,
{
    assert(front.filter(p) == front) by {
        lemma_filter_all(front, p);
    }
    assert((front + middle).filter(p) == front) by {
        lemma_filter_end_dropped(front, middle, p);
    }
    assert((front + middle + back).filter(p) == front + back) by {
        lemma_filter_end_stays(front + middle, back, p);
    }
    assert((front + back).filter(q) == front) by {
        lemma_filter_end_dropped(front, back, q);
        lemma_filter_all(front, q);
    }
}

/// Reading a file again that has not changed changes nothing in the log.
pub proof fn law_rescan_settles(
    s: Seq<Issue>,
    path: Seq<char>,
    ds: Seq<Duplicate>,
    backups: Seq<Seq<char>>,
)
    ensures
        rescanned(rescanned(s, path, ds, backups), path, ds, backups) == rescanned(
            s,
            path,
            ds,
            backups,
        ),
{
    let no_dup = spared(FileIssueKind::DuplicateFrame, path);
    let no_backup = spared(FileIssueKind::BackupFileExists, path);
    let cleared = s.filter(no_dup);
    let others = cleared.filter(no_backup);
    assert forall|k: int| 0 <= k < others.len() implies no_dup(#[trigger] others[k]) && no_backup(
        others[k],
    ) by {
        cleared.lemma_filter_pred(no_backup, k);
        cleared.lemma_filter_contains_rev(no_backup, others[k]);
        let m = choose|m: int| 0 <= m < cleared.len() && cleared[m] == others[k];
        s.lemma_filter_pred(no_dup, m);
    }
    lemma_rescanned_parts(s, path, ds, backups);
    lemma_rescanned_parts(rescanned(s, path, ds, backups), path, ds, backups);
    lemma_duplicates_after(Seq::empty(), path, ds);
    let dups = with_duplicates(Seq::empty(), path, ds);
    let left = backups.map_values(|b: Seq<char>| backup_issue(path, b));
    assert forall|k: int| 0 <= k < dups.len() implies !no_dup(#[trigger] dups[k]) by {}
    assert forall|k: int| 0 <= k < left.len() implies no_dup(#[trigger] left[k]) && !no_backup(
        left[k],
    ) by {}
    lemma_front_stays(others, dups, left, no_dup, no_backup);
}

/// Whether a frame is among duplicate frames.
pub open spec fn lists_frame(ds: Seq<Duplicate>, frame: Seq<char>) -> bool {
    exists|k: int| 0 <= k < ds.len() && (#[trigger] ds[k]).frame_id == frame
}

proof fn lemma_duplicates_are_listed(path: Seq<char>, ds: Seq<Duplicate>, frame: Seq<char>)
    ensures
        has_duplicate(with_duplicates(Seq::empty(), path, ds), path, frame) == lists_frame(
            ds,
            frame,
        ),
    decreases ds.len(),
{
    if ds.len() > 0 {
        let front = ds.drop_last();
        let d = ds.last();
        lemma_duplicates_are_listed(path, front, frame);
        let before = with_duplicates(Seq::empty(), path, front);
        let after = with_duplicates(Seq::empty(), path, ds);
        if lists_frame(front, frame) {
            let k = choose|k: int| 0 <= k < front.len() && (#[trigger] front[k]).frame_id == frame;
            assert(ds[k].frame_id == frame);
            let m = choose|m: int|
                0 <= m < before.len() && is_duplicate_of(#[trigger] before[m], path, frame);
            assert(is_duplicate_of(after[m], path, frame));
        } else if d.frame_id == frame {
            assert(ds[ds.len() - 1].frame_id == frame);
            assert(is_duplicate_of(after[before.len() as int], path, frame));
        } else {
            if has_duplicate(after, path, frame) {
                let m = choose|m: int|
                    0 <= m < after.len() && is_duplicate_of(#[trigger] after[m], path, frame);
                assert(m < before.len());
                assert(is_duplicate_of(before[m], path, frame));
            }
            if lists_frame(ds, frame) {
                let k = choose|k: int| 0 <= k < ds.len() && (#[trigger] ds[k]).frame_id == frame;
                assert(front[k].frame_id == frame);
            }
        }
    }
}

/// After a file was read again, the log tells of just those duplicate frames of it
/// that were found: what was repaired is gone.
pub proof fn law_rescan_tells_what_was_found(
    s: Seq<Issue>,
    path: Seq<char>,
    ds: Seq<Duplicate>,
    backups: Seq<Seq<char>>,
    frame: Seq<char>,
)
    ensures
        has_duplicate(rescanned(s, path, ds, backups), path, frame) == lists_frame(ds, frame),
{
    let no_dup = spared(FileIssueKind::DuplicateFrame, path);
    let no_backup = spared(FileIssueKind::BackupFileExists, path);
    let cleared = s.filter(no_dup);
    let others = cleared.filter(no_backup);
    let dups = with_duplicates(Seq::empty(), path, ds);
    let whole = rescanned(s, path, ds, backups);
    lemma_rescanned_parts(s, path, ds, backups);
    lemma_duplicates_are_listed(path, ds, frame);
    if has_duplicate(dups, path, frame) {
        let k = choose|k: int| 0 <= k < dups.len() && is_duplicate_of(#[trigger] dups[k], path, frame);
        assert(whole[others.len() + k] == dups[k]);
        assert(is_duplicate_of(whole[others.len() + k], path, frame));
    }
    if has_duplicate(whole, path, frame) {
        let k = choose|k: int|
            0 <= k < whole.len() && is_duplicate_of(#[trigger] whole[k], path, frame);
        if k < others.len() {
            cleared.lemma_filter_contains_rev(no_backup, others[k]);
            let m = choose|m: int| 0 <= m < cleared.len() && cleared[m] == others[k];
            s.lemma_filter_pred(no_dup, m);
            assert(false);
        } else if k < others.len() + dups.len() {
            assert(is_duplicate_of(dups[k - others.len()], path, frame));
        }
    }
}

/// What a rescan of a file leaves of the log: all that is not of its duplicates or
/// backups, and then just the backups that are there.
pub proof fn law_rescan_leaves_other_issues(
    s: Seq<Issue>,
    path: Seq<char>,
    ds: Seq<Duplicate>,
    backups: Seq<Seq<char>>,
    i: Issue,
)
    ensures
        !(i.file_path == path && (i.kind is DuplicateFrame || i.kind is BackupFileExists)) ==> (
        rescanned(s, path, ds, backups).contains(i) <==> s.contains(i)),
        i.file_path == path && i.kind is BackupFileExists ==> (rescanned(
            s,
            path,
            ds,
            backups,
        ).contains(i) <==> exists|k: int|
            0 <= k < backups.len() && i == backup_issue(path, #[trigger] backups[k])),
{
    let no_dup = spared(FileIssueKind::DuplicateFrame, path);
    let no_backup = spared(FileIssueKind::BackupFileExists, path);
    let dups = with_duplicates(Seq::empty(), path, ds);
    let rows = backups.map_values(|b: Seq<char>| backup_issue(path, b));
    let others = s.filter(no_dup).filter(no_backup);
    lemma_rescanned_parts(s, path, ds, backups);
    lemma_joined_contains(others + dups, rows, i);
    lemma_joined_contains(others, dups, i);
    law_clear_removes(s, FileIssueKind::DuplicateFrame, path, i);
    law_clear_removes(s.filter(no_dup), FileIssueKind::BackupFileExists, path, i);
    lemma_duplicates_after(Seq::empty(), path, ds);
    if dups.contains(i) {
        let k = choose|k: int| 0 <= k < dups.len() && dups[k] == i;
        assert(dups[k].kind == FileIssueKind::DuplicateFrame && dups[k].file_path == path);
    }
    if rows.contains(i) {
        let k = choose|k: int| 0 <= k < rows.len() && rows[k] == i;
        assert(i == backup_issue(path, backups[k]));
    }
    if exists|k: int| 0 <= k < backups.len() && i == backup_issue(path, #[trigger] backups[k]) {
        let k = choose|k: int|
            0 <= k < backups.len() && i == backup_issue(path, #[trigger] backups[k]);
        assert(rows[k] == i);
    }
}

proof fn lemma_joined_contains<A>(a: Seq<A>, b: Seq<A>, x: A)
    ensures
        (a + b).contains(x) <==> a.contains(x) || b.contains(x),
{
    if a.contains(x) {
        let i = choose|i: int| 0 <= i < a.len() && a[i] == x;
        assert((a + b)[i] == x);
    }
    if b.contains(x) {
        let i = choose|i: int| 0 <= i < b.len() && b[i] == x;
        assert((a + b)[a.len() + i] == x);
    }
    if (a + b).contains(x) {
        let i = choose|i: int| 0 <= i < (a + b).len() && (a + b)[i] == x;
        if i < a.len() {
            assert(a[i] == x);
        } else {
            assert(b[i - a.len()] == x);
        }
    }
}

/// Issues tell of their file: a duplicate frame with both of its values, a backup with its
/// path.
pub proof fn law_issues_tell_of_their_file(path: Seq<char>, d: Duplicate, backup: Seq<char>)
    ensures
        ({
            let i = duplicate_issue(path, d);
            &&& i.file_path == path && i.kind is DuplicateFrame
            &&& i.frame_id == Some(d.frame_id) && i.field_name == Some(d.field_name)
            &&& i.lofty_value == Some(d.lofty_value) && i.corrected_value == Some(d.corrected_value)
            &&& i.source_id is None && i.recording_id is None && i.backup_path is None
            &&& i.message == "ID3v2 "@ + d.field_name + " (frame "@ + d.frame_id
                + ") has conflicting values: Lofty picked "@ + quoted(d.lofty_value)
                + ", raw first-value is "@ + quoted(d.corrected_value)
        }),
        ({
            let i = backup_issue(path, backup);
            &&& i.file_path == path && i.kind is BackupFileExists
            &&& i.backup_path == Some(backup)
            &&& i.message == "Backup file exists: "@ + backup
            &&& i.source_id is None && i.recording_id is None && i.frame_id is None
        }),
{
}

/// Only the first value that is found of a frame is told.
pub proof fn law_first_duplicate_is_told(s: Seq<Issue>, path: Seq<char>, d: Duplicate, k: int)
    ensures
        (forall|i: int|
            0 <= i < s.len() ==> !((#[trigger] s[i]).kind is DuplicateFrame && s[i].file_path
                == path && s[i].frame_id == Some(d.frame_id))) ==> with_duplicate(s, path, d)
            == s.push(duplicate_issue(path, d)),
        0 <= k < s.len() && s[k].kind is DuplicateFrame && s[k].file_path == path && s[k].frame_id
            == Some(d.frame_id) ==> with_duplicate(s, path, d) == s,
{
    if 0 <= k < s.len() && s[k].kind is DuplicateFrame && s[k].file_path == path && s[k].frame_id
        == Some(d.frame_id) {
        assert(is_duplicate_of(s[k], path, d.frame_id));
    }
}

/// A backup is named by its file, a dot and anything, with the ending of backups.
pub proof fn law_backups_are_named_by_file(file_name: Seq<char>, middle: Seq<char>, entry: Seq<char>)
    ensures
        names_backup(file_name + "."@ + middle + ".thmp5bak"@, file_name),
        names_backup(entry, file_name) ==> entry.len() > file_name.len() && entry.take(
            file_name.len() as int,
        ) == file_name && entry[file_name.len() as int] == '.' && entry.len() >= 9 && entry.skip(
            entry.len() - 9,
        ) == ".thmp5bak"@,
{
    reveal_strlit(".");
    reveal_strlit(".thmp5bak");
    let e = file_name + "."@ + middle + ".thmp5bak"@;
    let front = file_name + "."@;
    assert(e.take(front.len() as int) =~= front);
    assert(e.skip(e.len() - 9) =~= ".thmp5bak"@);
    assert(front.is_prefix_of(e));
    assert(".thmp5bak"@.is_suffix_of(e));
    if names_backup(entry, file_name) {
        assert(entry.take(front.len() as int) == front);
        assert(entry.take(file_name.len() as int) =~= file_name) by {
            assert forall|i: int| 0 <= i < file_name.len() implies entry[i] == file_name[i] by {
                assert(entry.take(front.len() as int)[i] == front[i]);
            }
        }
        assert(entry.take(front.len() as int)[file_name.len() as int] == '.');
    }
}

/// Of marked issues just those that are marked stay, in order.
pub proof fn law_marked_stay<A>(s: Seq<A>, kept: Seq<bool>, x: A)
    requires
        kept.len() == s.len(),
    ensures
        marked(Seq::<A>::empty(), Seq::empty()).len() == 0,
        marked(s.push(x), kept.push(true)) == marked(s, kept).push(x),
        marked(s.push(x), kept.push(false)) == marked(s, kept),
{
    assert(s.push(x).drop_last() =~= s);
    assert(kept.push(true).drop_last() =~= kept);
    assert(kept.push(false).drop_last() =~= kept);
}

} // verus!
