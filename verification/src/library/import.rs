//! Deciding what to read of a file and what to store of it.
use vstd::prelude::*;
use crate::digest;
use crate::digest::{hex_encode, sha256};
use crate::models::ImportStats;
use crate::storage::memory::described;
use crate::storage::memory::lists::clone_opt;
use crate::storage::memory::rows;
use crate::storage::memory::rows::{find_mbid, json_to_tags};
use crate::text;
use crate::text::same_text;

verus! {

// ── What to read ─────────────────────────────────────────────────────────────

/// What is stored of a source.
#[derive(Debug)]
pub struct ExistingSource {
    pub id: String,
    pub file_size: Option<i64>,
    pub file_mtime_ms: Option<i64>,
    pub has_raw_tags: bool,
    pub file_hash: Option<String>,
    pub fingerprint: Option<String>,
}

/// What has to be found out about a file; its tags always have to.
#[derive(Debug, Clone, Copy, PartialEq, Eq, Structural)]
pub struct ImportPlan {
    pub needs_hash: bool,
    pub needs_fingerprint: bool,
}

/// Whether a file is the one that is stored, by size and time of change.
pub open spec fn unchanged(existing: Option<ExistingSource>, size: i64, mtime_ms: i64) -> bool {
    existing matches Some(e) && e.file_size == Some(size) && e.file_mtime_ms == Some(mtime_ms)
}

/// Whether a hash is stored.
pub open spec fn has_hash(existing: Option<ExistingSource>) -> bool {
    existing matches Some(e) && e.file_hash is Some
}

/// Whether tags are stored.
pub open spec fn has_tags(existing: Option<ExistingSource>) -> bool {
    existing matches Some(e) && e.has_raw_tags
}

/// Whether a fingerprint is stored.
pub open spec fn has_fingerprint(existing: Option<ExistingSource>) -> bool {
    existing matches Some(e) && e.fingerprint is Some
}

/// What has to be found out about a file: nothing when it has not changed and all is
/// stored; else what is not stored, or everything when it has changed.
pub open spec fn planned(existing: Option<ExistingSource>, size: i64, mtime_ms: i64) -> Option<
    ImportPlan,
> {
    let same = unchanged(existing, size, mtime_ms);
    if same && has_hash(existing) && has_tags(existing) && has_fingerprint(existing) {
        None
    } else {
        Some(
            ImportPlan {
                needs_hash: !same || !has_hash(existing),
                needs_fingerprint: !same || !has_fingerprint(existing),
            },
        )
    }
}

fn is_number(o: Option<i64>, n: i64) -> (r: bool)
    ensures
        r == (o == Some(n)),
{
    match o {
        Some(m) => m == n,
        None => false,
    }
}

/// Decides what has to be found out about a file; `None` when it can be skipped.
pub fn plan_import(existing: &Option<ExistingSource>, file_size: i64, file_mtime_ms: i64) -> (r:
    Option<ImportPlan>)
    ensures
        r == planned(*existing, file_size, file_mtime_ms),
{
    match existing {
        None => Some(ImportPlan { needs_hash: true, needs_fingerprint: true }),
        Some(e) => {
            let same = is_number(e.file_size, file_size) && is_number(
                e.file_mtime_ms,
                file_mtime_ms,
            );
            let hash = e.file_hash.is_some();
            let print = e.fingerprint.is_some();
            if same && hash && e.has_raw_tags && print {
                None
            } else {
                Some(ImportPlan { needs_hash: !same || !hash, needs_fingerprint: !same || !print })
            }
        },
    }
}

/// The stored hash of a file of which no new one is needed.
pub fn known_hash(existing: &Option<ExistingSource>, file_size: i64, file_mtime_ms: i64) -> (r:
    Option<String>)
    ensures
        r == if unchanged(*existing, file_size, file_mtime_ms) {
            existing->0.file_hash
        } else {
            None
        },
{
    match existing {
        Some(e) => if is_number(e.file_size, file_size) && is_number(
            e.file_mtime_ms,
            file_mtime_ms,
        ) {
            clone_opt(&e.file_hash)
        } else {
            None
        },
        None => None,
    }
}

// ── The MusicBrainz identifier ───────────────────────────────────────────────

/// The JSON text of pairs of texts.
pub uninterp spec fn json_of_tags(tags: Seq<(Seq<char>, Seq<char>)>) -> Seq<char>;

/// Writes pairs of texts with `serde_json::to_string`. Claimed of it: the result
/// depends on the pairs alone, and reading it with `serde_json::from_str` gives the
/// pairs back. It does not fail on texts.
#[verifier::external_body]
pub(crate) fn tags_to_json(tags: &Vec<(String, String)>) -> (r: String)
    ensures
        r@ == json_of_tags(text::pairs(tags@)),
        rows::tags_in_json(r@) == Some(text::pairs(tags@)),
{
    serde_json::to_string(tags).unwrap_or_default()
}

/// The tag that holds the MusicBrainz identifier of a recording.
pub open spec fn mbid_key() -> Seq<char> {
    "UFID:http://musicbrainz.org"@
}

/// Whether there is a tag with the key of the MusicBrainz identifier.
pub open spec fn has_mbid_key(tags: described::Tags) -> bool {
    exists|i: int| 0 <= i < tags.len() && (#[trigger] tags[i]).0 == mbid_key()
}

/// The tags in a text; none when they cannot be read.
pub open spec fn tags_or_none(json: Seq<char>) -> described::Tags {
    match rows::tags_in_json(json) {
        Some(tags) => tags,
        None => Seq::empty(),
    }
}

/// The identifier of a recording: the one that was found in the file, or the one in
/// its tags.
pub open spec fn settled_mbid(found: Option<Seq<char>>, tags: described::Tags) -> Option<
    Seq<char>,
> {
    match found {
        Some(mbid) => Some(mbid),
        None => rows::mbid_of(tags),
    }
}

/// The tags that are stored: with an identifier, they hold it.
pub open spec fn settled_tags(found: Option<Seq<char>>, tags: described::Tags) -> described::Tags {
    match settled_mbid(found, tags) {
        Some(mbid) => if has_mbid_key(tags) {
            tags
        } else {
            tags.push((mbid_key(), mbid))
        },
        None => tags,
    }
}

fn holds_mbid_key(tags: &Vec<(String, String)>) -> (r: bool)
    ensures
        r == has_mbid_key(text::pairs(tags@)),
{
    let ghost all = text::pairs(tags@);
    let mut i: usize = 0;
    while i < tags.len()
        invariant
            i <= tags@.len(),
            all == text::pairs(tags@),
            forall|k: int| 0 <= k < i ==> (#[trigger] all[k]).0 != mbid_key(),
        decreases tags@.len() - i,
    {
        assert(all[i as int].0 == tags@[i as int].0@);
        if same_text(&tags[i].0, "UFID:http://musicbrainz.org") {
            return true;
        }
        i = i + 1;
    }
    assert(all.len() == tags@.len());
    false
}

/// Brings the identifier of a recording and its tags together: an identifier that
/// was not found in the file is taken from the tags, and one that the tags do not
/// hold is added to them.
pub fn settle_tags(found: Option<String>, tags: Vec<(String, String)>) -> (r: (
    Option<String>,
    Vec<(String, String)>,
))
    ensures
        text::opt_text(r.0) == settled_mbid(text::opt_text(found), text::pairs(tags@)),
        text::pairs(r.1@) == settled_tags(text::opt_text(found), text::pairs(tags@)),
{
    let ghost all = text::pairs(tags@);
    let mut tags = tags;
    let mbid = match found {
        Some(m) => Some(m),
        None => find_mbid(&tags),
    };
    if let Some(m) = &mbid {
        if !holds_mbid_key(&tags) {
            tags.push(("UFID:http://musicbrainz.org".to_owned(), m.clone()));
            assert(text::pairs(tags@) =~= all.push((mbid_key(), m@)));
        }
    }
    (mbid, tags)
}

/// Brings the identifier of a recording and its stored tags together. Without an
/// identifier the text stays as it is.
pub fn settle_mbid(found: Option<String>, raw_tags_json: String) -> (r: (Option<String>, String))
    ensures
        ({
            let tags = tags_or_none(raw_tags_json@);
            let mbid = settled_mbid(text::opt_text(found), tags);
            &&& text::opt_text(r.0) == mbid
            &&& mbid is Some ==> r.1@ == json_of_tags(settled_tags(text::opt_text(found), tags))
                && rows::tags_in_json(r.1@) == Some(settled_tags(text::opt_text(found), tags))
            &&& mbid is None ==> r.1 == raw_tags_json
        }),
{
    let tags: Vec<(String, String)> = match json_to_tags(&raw_tags_json) {
        Some(t) => t,
        None => Vec::new(),
    };
    assert(text::pairs(tags@) =~= tags_or_none(raw_tags_json@));
    let (mbid, settled) = settle_tags(found, tags);
    if mbid.is_some() {
        let json = tags_to_json(&settled);
        (mbid, json)
    } else {
        (mbid, raw_tags_json)
    }
}

/// An identifier that was found in the file is the one that the stored tags give,
/// unless the tags had one of their own.
pub proof fn law_found_mbid_is_stored(mbid: Seq<char>, tags: described::Tags)
    requires
        mbid.len() > 0,
        !has_mbid_key(tags),
    ensures
        rows::mbid_of(settled_tags(Some(mbid), tags)) == Some(mbid),
{
    lemma_mbid_at_end(tags, mbid);
}

/// An identifier that the tags had of their own stays the one that they give.
pub proof fn law_tagged_mbid_stays(found: Option<Seq<char>>, tags: described::Tags)
    requires
        has_mbid_key(tags),
    ensures
        settled_tags(found, tags) == tags,
        found is None ==> settled_mbid(found, tags) == rows::mbid_of(settled_tags(found, tags)),
{
}

/// Settling tags that were settled changes nothing.
pub proof fn law_settled_tags_stay(found: Option<Seq<char>>, tags: described::Tags)
    ensures
        settled_tags(found, settled_tags(found, tags)) == settled_tags(found, tags),
{
    let once = settled_tags(found, tags);
    if let Some(mbid) = settled_mbid(found, tags) {
        if !has_mbid_key(tags) {
            assert(once[tags.len() as int].0 == mbid_key());
            assert(has_mbid_key(once));
        }
    }
}

proof fn lemma_mbid_at_end(tags: described::Tags, mbid: Seq<char>)
    requires
        mbid.len() > 0,
        !has_mbid_key(tags),
    ensures
        rows::mbid_of(tags.push((mbid_key(), mbid))) == Some(mbid),
    decreases tags.len(),
{
    let all = tags.push((mbid_key(), mbid));
    if tags.len() > 0 {
        assert(tags[0].0 != mbid_key());
        assert(all[0] == tags[0]);
        assert(all.skip(1) =~= tags.skip(1).push((mbid_key(), mbid)));
        assert(!has_mbid_key(tags.skip(1))) by {
            if has_mbid_key(tags.skip(1)) {
                let i = choose|i: int|
                    0 <= i < tags.skip(1).len() && (#[trigger] tags.skip(1)[i]).0 == mbid_key();
                assert(tags[i + 1].0 == mbid_key());
            }
        }
        lemma_mbid_at_end(tags.skip(1), mbid);
    }
}

/// The hash of a file is either planned for or stored.
pub proof fn law_hash_is_known_or_planned(
    existing: Option<ExistingSource>,
    size: i64,
    mtime_ms: i64,
)
    ensures
        planned(existing, size, mtime_ms) matches Some(plan) && !plan.needs_hash ==> unchanged(
            existing,
            size,
            mtime_ms,
        ) && existing->0.file_hash is Some,
{
}

/// A file that was stored with everything and has not changed is skipped; one that
/// has changed is read anew altogether.
pub proof fn law_only_changes_are_read(existing: ExistingSource, size: i64, mtime_ms: i64)
    ensures
        existing.file_hash is Some && existing.fingerprint is Some && existing.has_raw_tags
            && existing.file_size == Some(size) && existing.file_mtime_ms == Some(mtime_ms)
            ==> planned(Some(existing), size, mtime_ms) is None,
        existing.file_size != Some(size) || existing.file_mtime_ms != Some(mtime_ms) ==> planned(
            Some(existing),
            size,
            mtime_ms,
        ) == Some(ImportPlan { needs_hash: true, needs_fingerprint: true }),
{
}

// ── Splitting recordings ─────────────────────────────────────────────────────

/// Tags without the MusicBrainz identifier.
pub open spec fn without_mbid(tags: described::Tags) -> described::Tags {
    tags.filter(|t: (Seq<char>, Seq<char>)| t.0 != mbid_key())
}

/// Takes the MusicBrainz identifier out of stored tags; `None` when they cannot be
/// read.
pub fn remove_mbid(raw_tags_json: &str) -> (r: Option<String>)
    ensures
        match r {
            Some(json) => {
                &&& rows::tags_in_json(raw_tags_json@) is Some
                &&& json@ == json_of_tags(
                    without_mbid(rows::tags_in_json(raw_tags_json@).unwrap()),
                )
                &&& rows::tags_in_json(json@) == Some(
                    without_mbid(rows::tags_in_json(raw_tags_json@).unwrap()),
                )
            },
            None => rows::tags_in_json(raw_tags_json@) is None,
        },
{
    match json_to_tags(raw_tags_json) {
        Some(tags) => {
            let kept = remove_mbid_tags(&tags);
            Some(tags_to_json(&kept))
        },
        None => None,
    }
}

/// Takes the MusicBrainz identifier out of tags.
pub fn remove_mbid_tags(tags: &Vec<(String, String)>) -> (kept: Vec<(String, String)>)
    ensures
        text::pairs(kept@) == without_mbid(text::pairs(tags@)),
{
    let ghost all = text::pairs(tags@);
    let ghost keep = |t: (Seq<char>, Seq<char>)| t.0 != mbid_key();
    let mut kept: Vec<(String, String)> = Vec::new();
    let mut i: usize = 0;
    proof {
        assert(all.take(0) =~= Seq::empty());
        all.take(0).lemma_filter_len(keep);
        assert(text::pairs(kept@) =~= all.take(0).filter(keep));
    }
    while i < tags.len()
        invariant
            i <= tags@.len(),
            all == text::pairs(tags@),
            keep == (|t: (Seq<char>, Seq<char>)| t.0 != mbid_key()),
            text::pairs(kept@) == all.take(i as int).filter(keep),
        decreases tags@.len() - i,
    {
        let ghost before = text::pairs(kept@);
        proof {
            assert(all.take(i + 1) =~= all.take(i as int).push(all[i as int]));
            all.take(i as int).lemma_filter_push(all[i as int], keep);
            assert(all[i as int] == (tags@[i as int].0@, tags@[i as int].1@));
        }
        if !same_text(&tags[i].0, "UFID:http://musicbrainz.org") {
            kept.push((tags[i].0.clone(), tags[i].1.clone()));
            assert(text::pairs(kept@) =~= before.push(all[i as int]));
        }
        i = i + 1;
    }
    assert(all.take(all.len() as int) =~= all);
    kept
}

/// The stored tags of a source that moves to a recording of its own: those it has,
/// without the MusicBrainz identifier. Tags that cannot be read stay as they are.
pub fn split_tags(raw_tags_json: Option<String>) -> (r: Option<String>)
    ensures
        rows::stored_tags(r) == without_mbid(rows::stored_tags(raw_tags_json)),
{
    let removed = match &raw_tags_json {
        Some(json) => remove_mbid(json),
        None => None,
    };
    match removed {
        Some(json) => Some(json),
        None => {
            proof {
                let none = Seq::<(Seq<char>, Seq<char>)>::empty();
                assert(rows::stored_tags(raw_tags_json) =~= none);
                none.lemma_filter_len(|t: (Seq<char>, Seq<char>)| t.0 != mbid_key());
                assert(without_mbid(none) =~= none);
            }
            raw_tags_json
        },
    }
}

/// Whether a source moved to a recording: it is stored with it, and its tags have
/// lost the MusicBrainz identifier.
pub open spec fn moved_to(
    before: rows::SourceRecord,
    after: rows::SourceRecord,
    recording: Seq<char>,
) -> bool {
    &&& after.recording_id@ == recording
    &&& text::pairs(after.tags@) == without_mbid(text::pairs(before.tags@))
}

/// Splitting a recording makes one new recording of the moved sources and leaves all
/// others where they were.
pub proof fn law_split_makes_one_recording(
    before: Seq<rows::SourceRecord>,
    after: Seq<rows::SourceRecord>,
    moved: Set<int>,
    fresh: Seq<char>,
)
    requires
        after.len() == before.len(),
        forall|i: int|
            0 <= i < before.len() ==> if moved.contains(i) {
                moved_to(#[trigger] before[i], after[i], fresh)
            } else {
                after[i] == before[i]
            },
        forall|i: int| 0 <= i < before.len() ==> rows::recording_key(#[trigger] before[i]) != fresh,
    ensures
        forall|i: int|
            0 <= i < after.len() ==> (#[trigger] rows::recording_key(after[i]) == fresh
                <==> moved.contains(i)),
        forall|i: int|
            0 <= i < after.len() && !moved.contains(i) ==> #[trigger] rows::recording_key(after[i])
                == rows::recording_key(before[i]),
{
    assert forall|i: int| 0 <= i < after.len() implies (#[trigger] rows::recording_key(after[i])
        == fresh <==> moved.contains(i)) && (!moved.contains(i) ==> rows::recording_key(after[i])
        == rows::recording_key(before[i])) by {
        assert(rows::recording_key(before[i]) != fresh);
        law_removed_mbid_is_gone(text::pairs(before[i].tags@));
    }
}

/// Tags without the identifier give none, so that their source stands on its own.
pub proof fn law_removed_mbid_is_gone(tags: described::Tags)
    ensures
        rows::mbid_of(without_mbid(tags)) is None,
{
    let keep = |t: (Seq<char>, Seq<char>)| t.0 != mbid_key();
    let kept = without_mbid(tags);
    assert forall|i: int| 0 <= i < kept.len() implies (#[trigger] kept[i]).0 != mbid_key() by {
        tags.lemma_filter_pred(keep, i);
    }
    lemma_no_mbid(kept);
}

proof fn lemma_no_mbid(tags: described::Tags)
    requires
        forall|i: int| 0 <= i < tags.len() ==> (#[trigger] tags[i]).0 != mbid_key(),
    ensures
        rows::mbid_of(tags) is None,
    decreases tags.len(),
{
    if tags.len() > 0 {
        assert forall|i: int| 0 <= i < tags.skip(1).len() implies (#[trigger] tags.skip(1)[i]).0
            != mbid_key() by {
            assert(tags.skip(1)[i] == tags[i + 1]);
        }
        lemma_no_mbid(tags.skip(1));
    }
}

// ── The identity of a file ───────────────────────────────────────────────────

/// Why a file cannot be told apart by size and time.
#[derive(Debug, Clone, Copy, PartialEq, Eq, Structural)]
pub enum IdentityError {
    TooLarge,
    TimeOutOfRange,
}

/// The size of a file and the time of its last change, in milliseconds since 1970.
pub fn file_identity(len: u64, modified_ms: u128) -> (r: Result<(i64, i64), IdentityError>)
    ensures
        match r {
            Ok(id) => id.0 == len && id.1 == modified_ms,
            Err(IdentityError::TooLarge) => len > i64::MAX,
            Err(IdentityError::TimeOutOfRange) => len <= i64::MAX && modified_ms > i64::MAX,
        },
{
    if len > 0x7FFF_FFFF_FFFF_FFFF {
        Err(IdentityError::TooLarge)
    } else if modified_ms > 0x7FFF_FFFF_FFFF_FFFF {
        Err(IdentityError::TimeOutOfRange)
    } else {
        Ok((len as i64, modified_ms as i64))
    }
}

impl IdentityError {
    /// The message for the user.
    pub fn message(&self) -> (r: String)
        ensures
            r@ == match *self {
                IdentityError::TooLarge => "File too large to index"@,
                IdentityError::TimeOutOfRange => "File modification time out of range"@,
            },
    {
        match self {
            IdentityError::TooLarge => "File too large to index".to_owned(),
            IdentityError::TimeOutOfRange => "File modification time out of range".to_owned(),
        }
    }
}

/// A hash as it is stored: in hexadecimal.
pub fn hash_text(hash: &[u8]) -> (r: String)
    ensures
        r@ == digest::hex_text(hash@),
{
    hex_encode(hash)
}

/// The hash by which the content of a file is known.
pub fn file_sha256(data: &[u8]) -> (r: String)
    ensures
        r@ == digest::hex_text(digest::sha256_of(data@)),
{
    let hash = sha256(data);
    hash_text(hash.as_slice())
}

// ── Counting ─────────────────────────────────────────────────────────────────

/// How the import of a file ended.
#[derive(Debug)]
pub enum FileOutcome {
    Imported,
    Skipped,
    Failed { error: String },
}

impl ImportStats {
    /// Counts before any file.
    pub fn new() -> (r: ImportStats)
        ensures
            r.scanned == 0,
            r.imported == 0,
            r.skipped == 0,
            r.errors == 0,
            r.error_messages@.len() == 0,
    {
        ImportStats { scanned: 0, imported: 0, skipped: 0, errors: 0, error_messages: Vec::new() }
    }

    /// Counts a file and how its import ended.
    pub fn count_file(&mut self, outcome: FileOutcome)
        requires
            old(self).scanned < u32::MAX,
            old(self).imported < u32::MAX,
            old(self).skipped < u32::MAX,
            old(self).errors < u32::MAX,
        ensures
            final(self).scanned == old(self).scanned + 1,
            final(self).imported == old(self).imported + if outcome is Imported {
                1int
            } else {
                0
            },
            final(self).skipped == old(self).skipped + if outcome is Skipped {
                1int
            } else {
                0
            },
            final(self).errors == old(self).errors + if outcome is Failed {
                1int
            } else {
                0
            },
            text::texts(final(self).error_messages@) == match outcome {
                FileOutcome::Failed { error } => text::texts(old(self).error_messages@).push(
                    error@,
                ),
                _ => text::texts(old(self).error_messages@),
            },
    {
        let ghost before = text::texts(self.error_messages@);
        self.scanned = self.scanned + 1;
        match outcome {
            FileOutcome::Imported => {
                self.imported = self.imported + 1;
            },
            FileOutcome::Skipped => {
                self.skipped = self.skipped + 1;
            },
            FileOutcome::Failed { error } => {
                self.errors = self.errors + 1;
                self.error_messages.push(error);
                assert(text::texts(self.error_messages@) =~= before.push(error@));
            },
        }
    }

    /// Counts a place that could not be walked; its path is told where it is known.
    pub fn count_walk_error(&mut self, path: Option<&str>, error: &str)
        requires
            old(self).errors < u32::MAX,
        ensures
            final(self).scanned == old(self).scanned,
            final(self).imported == old(self).imported,
            final(self).skipped == old(self).skipped,
            final(self).errors == old(self).errors + 1,
            text::texts(final(self).error_messages@) == text::texts(
                old(self).error_messages@,
            ).push(
                match path {
                    Some(p) => p@ + ": "@ + error@,
                    None => error@,
                },
            ),
    {
        let ghost before = text::texts(self.error_messages@);
        let message = match path {
            Some(p) => {
                let mut m = p.to_owned();
                m.append(": ");
                m.append(error);
                m
            },
            None => error.to_owned(),
        };
        self.errors = self.errors + 1;
        self.error_messages.push(message);
        assert(text::texts(self.error_messages@) =~= before.push(message@));
    }
}

} // verus!
