//! Finding sources that share an identifier but are different recordings.
use vstd::prelude::*;
use crate::models::FixMergedRecordingsStats;
use crate::text;
use crate::text::{contains_text, same_text};

verus! {

/// A stored local file, its tags as the text that is stored.
#[derive(Debug)]
pub struct StoredFile {
    pub id: String,
    pub file_path: String,
    pub raw_tags_json: Option<String>,
}

/// A local file with the identifier that its tags give.
#[derive(Debug)]
pub struct MergeSource {
    pub id: String,
    pub file_path: String,
    pub mbid: Option<String>,
}

/// The sources that share an identifier, as identifier and path.
#[derive(Debug)]
pub struct MbidGroup {
    pub mbid: String,
    pub sources: Vec<(String, String)>,
}

// ── The identifier of a source ───────────────────────────────────────────────

/// The lists of texts that a JSON text holds; `None` when it is no array of arrays
/// of texts.
pub uninterp spec fn lists_in_json(json: Seq<char>) -> Option<Seq<Seq<Seq<char>>>>;

/// The texts of lists.
pub open spec fn list_views(v: Seq<Vec<String>>) -> Seq<Seq<Seq<char>>> {
    v.map_values(|l: Vec<String>| text::texts(l@))
}

/// Reads lists of texts with `serde_json::from_str`. Claimed of it: what it returns
/// depends on the text alone.
#[verifier::external_body]
fn json_to_lists(json: &str) -> (r: Option<Vec<Vec<String>>>)
    ensures
        match r {
            Some(lists) => lists_in_json(json@) == Some(list_views(lists@)),
            None => lists_in_json(json@) is None,
        },
{
    serde_json::from_str(json).ok()
}

/// The first identifier in lists of key and value that is not empty.
pub open spec fn first_mbid(lists: Seq<Seq<Seq<char>>>) -> Option<Seq<char>>
    decreases lists.len(),
{
    if lists.len() == 0 {
        None
    } else if lists[0].len() >= 2 && lists[0][0] == "UFID:http://musicbrainz.org"@
        && lists[0][1].len() > 0 {
        Some(lists[0][1])
    } else {
        first_mbid(lists.skip(1))
    }
}

/// The identifier in stored tags.
pub open spec fn stored_mbid(json: Option<String>) -> Option<Seq<char>> {
    match json {
        Some(j) => if j@.len() == 0 {
            None
        } else {
            match lists_in_json(j@) {
                Some(lists) => first_mbid(lists),
                None => None,
            }
        },
        None => None,
    }
}

/// Chooses the first identifier in lists of key and value that is not empty.
pub fn choose_mbid(lists: &Vec<Vec<String>>) -> (r: Option<String>)
    ensures
        text::opt_text(r) == first_mbid(list_views(lists@)),
{
    let ghost all = list_views(lists@);
    let mut i: usize = 0;
    assert(all.skip(0) =~= all);
    while i < lists.len()
        invariant
            i <= lists@.len(),
            all == list_views(lists@),
            first_mbid(all.skip(i as int)) == first_mbid(all),
        decreases lists@.len() - i,
    {
        let pair = &lists[i];
        proof {
            assert(all.skip(i as int)[0] == text::texts(pair@));
            assert(all.skip(i as int).skip(1) =~= all.skip(i + 1));
            assert(text::texts(pair@).len() == pair@.len());
        }
        if pair.len() >= 2 {
            assert(text::texts(pair@)[0] == pair@[0]@);
            assert(text::texts(pair@)[1] == pair@[1]@);
            if same_text(&pair[0], "UFID:http://musicbrainz.org") && !pair[1].as_str().is_empty() {
                return Some(pair[1].clone());
            }
        }
        i = i + 1;
    }
    None
}

/// The identifier in stored tags: the first that is not empty.
pub fn extract_single_mbid(raw_tags_json: &Option<String>) -> (r: Option<String>)
    ensures
        text::opt_text(r) == stored_mbid(*raw_tags_json),
{
    match raw_tags_json {
        None => None,
        Some(j) => if j.as_str().is_empty() {
            None
        } else {
            match json_to_lists(j) {
                Some(lists) => choose_mbid(&lists),
                None => None,
            }
        },
    }
}

// ── Groups ───────────────────────────────────────────────────────────────────

/// The identifiers of sources, in order of first appearance.
pub open spec fn mbids(rows: Seq<MergeSource>) -> Seq<Seq<char>> {
    text::distinct(rows.filter_map(|r: MergeSource| text::opt_text(r.mbid)))
}

/// The sources with an identifier.
pub open spec fn sources_with(rows: Seq<MergeSource>, mbid: Seq<char>) -> Seq<
    (Seq<char>, Seq<char>),
> {
    rows.filter_map(
        |r: MergeSource|
            if text::opt_text(r.mbid) == Some(mbid) {
                Some((r.id@, r.file_path@))
            } else {
                None
            },
    )
}

/// A group: an identifier and its sources.
pub type Group = (Seq<char>, Seq<(Seq<char>, Seq<char>)>);

/// The groups of more than one source.
pub open spec fn groups_of(rows: Seq<MergeSource>) -> Seq<Group> {
    mbids(rows).filter_map(
        |m: Seq<char>|
            if sources_with(rows, m).len() > 1 {
                Some((m, sources_with(rows, m)))
            } else {
                None
            },
    )
}

/// What groups say.
pub open spec fn group_views(v: Seq<MbidGroup>) -> Seq<Group> {
    v.map_values(|g: MbidGroup| (g.mbid@, text::pairs(g.sources@)))
}

/// Whether `rows` are stored files with the identifiers that their tags give.
pub open spec fn reads_files(rows: Seq<MergeSource>, stored: Seq<StoredFile>) -> bool {
    &&& rows.len() == stored.len()
    &&& forall|i: int|
        0 <= i < rows.len() ==> (#[trigger] rows[i]).id == stored[i].id && rows[i].file_path
            == stored[i].file_path && text::opt_text(rows[i].mbid) == stored_mbid(
            stored[i].raw_tags_json,
        )
}

/// Reads the identifiers of stored files.
pub fn read_files(stored: &Vec<StoredFile>) -> (rows: Vec<MergeSource>)
    ensures
        reads_files(rows@, stored@),
{
    let mut rows: Vec<MergeSource> = Vec::new();
    let mut i: usize = 0;
    while i < stored.len()
        invariant
            i <= stored@.len(),
            rows@.len() == i,
            forall|k: int|
                0 <= k < i ==> (#[trigger] rows@[k]).id == stored@[k].id && rows@[k].file_path
                    == stored@[k].file_path && text::opt_text(rows@[k].mbid) == stored_mbid(
                    stored@[k].raw_tags_json,
                ),
        decreases stored@.len() - i,
    {
        let mbid = extract_single_mbid(&stored[i].raw_tags_json);
        rows.push(
            MergeSource {
                id: stored[i].id.clone(),
                file_path: stored[i].file_path.clone(),
                mbid,
            },
        );
        i = i + 1;
    }
    rows
}

fn distinct_mbids(rows: &Vec<MergeSource>) -> (r: Vec<String>)
    ensures
        text::texts(r@) == mbids(rows@),
{
    let ghost f = |r: MergeSource| text::opt_text(r.mbid);
    let mut r: Vec<String> = Vec::new();
    let mut i: usize = 0;
    proof {
        assert(rows@.take(0) =~= Seq::empty());
        assert(text::texts(r@) =~= text::distinct(rows@.take(0).filter_map(f)));
    }
    while i < rows.len()
        invariant
            i <= rows@.len(),
            f == (|r: MergeSource| text::opt_text(r.mbid)),
            text::texts(r@) == text::distinct(rows@.take(i as int).filter_map(f)),
        decreases rows@.len() - i,
    {
        let ghost seen = rows@.take(i as int).filter_map(f);
        proof {
            rows@.lemma_filter_map_take_succ(f, i as int);
        }
        match &rows[i].mbid {
            Some(m) => {
                proof {
                    assert(f(rows@[i as int]) == Some(m@));
                    assert(seen + seq![m@] =~= seen.push(m@));
                    text::lemma_distinct_push(seen, m@);
                    text::lemma_distinct(seen);
                }
                if !contains_text(&r, m) {
                    let ghost before = text::texts(r@);
                    r.push(m.clone());
                    assert(text::texts(r@) =~= before.push(m@));
                }
            },
            None => {
                assert(f(rows@[i as int]) is None);
                assert(seen + Seq::<Seq<char>>::empty() =~= seen);
            },
        }
        i = i + 1;
    }
    assert(rows@.take(rows@.len() as int) =~= rows@);
    r
}

fn collect_sources(rows: &Vec<MergeSource>, mbid: &str) -> (r: Vec<(String, String)>)
    ensures
        text::pairs(r@) == sources_with(rows@, mbid@),
{
    let ghost f = |r: MergeSource|
        if text::opt_text(r.mbid) == Some(mbid@) {
            Some((r.id@, r.file_path@))
        } else {
            None
        };
    let mut r: Vec<(String, String)> = Vec::new();
    let mut i: usize = 0;
    proof {
        assert(rows@.take(0) =~= Seq::empty());
        assert(text::pairs(r@) =~= rows@.take(0).filter_map(f));
    }
    while i < rows.len()
        invariant
            i <= rows@.len(),
            f == (|r: MergeSource|
                if text::opt_text(r.mbid) == Some(mbid@) {
                    Some((r.id@, r.file_path@))
                } else {
                    None
                }),
            text::pairs(r@) == rows@.take(i as int).filter_map(f),
        decreases rows@.len() - i,
    {
        let ghost before = text::pairs(r@);
        proof {
            rows@.lemma_filter_map_take_succ(f, i as int);
        }
        let here = match &rows[i].mbid {
            Some(m) => same_text(m, mbid),
            None => false,
        };
        if here {
            r.push((rows[i].id.clone(), rows[i].file_path.clone()));
            assert(text::pairs(r@) =~= before.push(
                (rows@[i as int].id@, rows@[i as int].file_path@),
            ));
        }
        assert(text::pairs(r@) =~= rows@.take(i + 1).filter_map(f));
        i = i + 1;
    }
    assert(rows@.take(rows@.len() as int) =~= rows@);
    r
}

/// Groups stored files by the identifier that their tags give.
pub fn group_files(stored: &Vec<StoredFile>) -> (r: Vec<MbidGroup>)
    ensures
        exists|rows: Seq<MergeSource>| #[trigger]
            reads_files(rows, stored@) && group_views(r@) == groups_of(rows),
{
    let rows = read_files(stored);
    assert(reads_files(rows@, stored@));
    group_sources(&rows)
}

/// Groups sources by identifier; a group of one source is left out.
pub fn group_sources(rows: &Vec<MergeSource>) -> (r: Vec<MbidGroup>)
    ensures
        group_views(r@) == groups_of(rows@),
{
    let ids = distinct_mbids(rows);
    let ghost all = mbids(rows@);
    let ghost f = |m: Seq<char>|
        if sources_with(rows@, m).len() > 1 {
            Some((m, sources_with(rows@, m)))
        } else {
            None
        };
    let mut r: Vec<MbidGroup> = Vec::new();
    let mut i: usize = 0;
    proof {
        assert(text::texts(ids@).len() == ids@.len());
        assert(all.take(0) =~= Seq::empty());
        assert(group_views(r@) =~= all.take(0).filter_map(f));
    }
    while i < ids.len()
        invariant
            i <= ids@.len(),
            ids@.len() == all.len(),
            text::texts(ids@) == all,
            f == (|m: Seq<char>|
                if sources_with(rows@, m).len() > 1 {
                    Some((m, sources_with(rows@, m)))
                } else {
                    None
                }),
            group_views(r@) == all.take(i as int).filter_map(f),
        decreases ids@.len() - i,
    {
        let ghost before = group_views(r@);
        proof {
            all.lemma_filter_map_take_succ(f, i as int);
            assert(text::texts(ids@)[i as int] == ids@[i as int]@);
        }
        let sources = collect_sources(rows, &ids[i]);
        assert(text::pairs(sources@).len() == sources@.len());
        if sources.len() > 1 {
            let ghost views = text::pairs(sources@);
            r.push(MbidGroup { mbid: ids[i].clone(), sources });
            assert(group_views(r@) =~= before.push((ids@[i as int]@, views)));
        }
        assert(group_views(r@) =~= all.take(i + 1).filter_map(f));
        i = i + 1;
    }
    assert(all.take(all.len() as int) =~= all);
    r
}

// ── Splitting ────────────────────────────────────────────────────────────────

/// The sources that are marked.
pub open spec fn marked(sources: Seq<(Seq<char>, Seq<char>)>, marks: Seq<bool>) -> Seq<
    (Seq<char>, Seq<char>),
>
    decreases sources.len(),
{
    if sources.len() == 0 {
        sources
    } else {
        let front = marked(sources.drop_last(), marks.drop_last());
        if marks.last() {
            front.push(sources.last())
        } else {
            front
        }
    }
}

/// The sources whose files are there.
pub fn present_sources(sources: &Vec<(String, String)>, exists_on_disk: &Vec<bool>) -> (r: Vec<
    (String, String),
>)
    requires
        exists_on_disk@.len() == sources@.len(),
    ensures
        text::pairs(r@) == marked(text::pairs(sources@), exists_on_disk@),
{
    let ghost all = text::pairs(sources@);
    let mut r: Vec<(String, String)> = Vec::new();
    let mut i: usize = 0;
    assert(text::pairs(r@) =~= marked(all.take(0), exists_on_disk@.take(0)));
    while i < sources.len()
        invariant
            i <= sources@.len(),
            exists_on_disk@.len() == sources@.len(),
            all == text::pairs(sources@),
            text::pairs(r@) == marked(all.take(i as int), exists_on_disk@.take(i as int)),
        decreases sources@.len() - i,
    {
        let ghost before = text::pairs(r@);
        proof {
            assert(all.take(i + 1).drop_last() =~= all.take(i as int));
            assert(exists_on_disk@.take(i + 1).drop_last() =~= exists_on_disk@.take(i as int));
        }
        if exists_on_disk[i] {
            r.push((sources[i].0.clone(), sources[i].1.clone()));
            assert(text::pairs(r@) =~= before.push(all[i as int]));
        }
        i = i + 1;
    }
    proof {
        assert(all.take(all.len() as int) =~= all);
        assert(exists_on_disk@.take(all.len() as int) =~= exists_on_disk@);
    }
    r
}

/// Which sources are split off: those after the first whose audio is not that of the
/// first.
pub open spec fn differing(same_as_first: Seq<bool>) -> Seq<bool> {
    Seq::new(same_as_first.len(), |i: int| i > 0 && !same_as_first[i])
}

/// The sources that are split off from the first. `same_as_first` tells of each
/// source whether its audio is that of the first.
pub fn sources_to_split(sources: &Vec<(String, String)>, same_as_first: &Vec<bool>) -> (r: Vec<
    (String, String),
>)
    requires
        same_as_first@.len() == sources@.len(),
    ensures
        text::pairs(r@) == marked(text::pairs(sources@), differing(same_as_first@)),
{
    let mut marks: Vec<bool> = Vec::new();
    let mut i: usize = 0;
    while i < same_as_first.len()
        invariant
            i <= same_as_first@.len(),
            marks@.len() == i,
            forall|k: int|
                0 <= k < i ==> #[trigger] marks@[k] == (k > 0 && !same_as_first@[k]),
        decreases same_as_first@.len() - i,
    {
        marks.push(i > 0 && !same_as_first[i]);
        i = i + 1;
    }
    assert(marks@ =~= differing(same_as_first@));
    present_sources(sources, &marks)
}

/// The first source of a group always stays.
pub proof fn law_first_source_stays(same_as_first: Seq<bool>)
    requires
        same_as_first.len() > 0,
    ensures
        !differing(same_as_first)[0],
{
}

/// Splitting takes no source that has the audio of the first, and every other.
pub proof fn law_split_by_audio(same_as_first: Seq<bool>, i: int)
    requires
        0 < i < same_as_first.len(),
    ensures
        differing(same_as_first)[i] == !same_as_first[i],
{
}

// ── Counting ─────────────────────────────────────────────────────────────────

impl FixMergedRecordingsStats {
    /// Counts before any group.
    pub fn new() -> (r: FixMergedRecordingsStats)
        ensures
            r.recordings_checked == 0,
            r.recordings_split == 0,
            r.sources_reimported == 0,
            r.errors@.len() == 0,
    {
        FixMergedRecordingsStats {
            recordings_checked: 0,
            recordings_split: 0,
            sources_reimported: 0,
            errors: Vec::new(),
        }
    }

    /// Counts a group that is looked at.
    pub fn count_checked(&mut self)
        requires
            old(self).recordings_checked < u32::MAX,
        ensures
            *final(self) == (FixMergedRecordingsStats {
                recordings_checked: (old(self).recordings_checked + 1) as u32,
                ..*old(self)
            }),
    {
        self.recordings_checked = self.recordings_checked + 1;
    }

    /// Counts a group that was split.
    pub fn count_split(&mut self)
        requires
            old(self).recordings_split < u32::MAX,
        ensures
            *final(self) == (FixMergedRecordingsStats {
                recordings_split: (old(self).recordings_split + 1) as u32,
                ..*old(self)
            }),
    {
        self.recordings_split = self.recordings_split + 1;
    }

    /// Counts a source that was imported anew, or notes why it was not.
    pub fn count_reimport(&mut self, file_path: &str, error: Option<&str>)
        requires
            old(self).sources_reimported < u32::MAX,
        ensures
            final(self).recordings_checked == old(self).recordings_checked,
            final(self).recordings_split == old(self).recordings_split,
            final(self).sources_reimported == old(self).sources_reimported + if error is None {
                1int
            } else {
                0
            },
            text::texts(final(self).errors@) == match error {
                Some(e) => text::texts(old(self).errors@).push(
                    file_path@ + ": re-import failed: "@ + e@,
                ),
                None => text::texts(old(self).errors@),
            },
    {
        match error {
            None => {
                self.sources_reimported = self.sources_reimported + 1;
            },
            Some(e) => {
                let ghost before = text::texts(self.errors@);
                let mut m = file_path.to_owned();
                m.append(": re-import failed: ");
                m.append(e);
                self.errors.push(m);
                assert(text::texts(self.errors@) =~= before.push(m@));
            },
        }
    }

    /// Notes why a group could not be dealt with.
    pub fn note_group_error(&mut self, mbid: &str, error: &str)
        ensures
            final(self).recordings_checked == old(self).recordings_checked,
            final(self).recordings_split == old(self).recordings_split,
            final(self).sources_reimported == old(self).sources_reimported,
            text::texts(final(self).errors@) == text::texts(old(self).errors@).push(
                "MBID "@ + mbid@ + ": "@ + error@,
            ),
    {
        let ghost before = text::texts(self.errors@);
        let mut m = "MBID ".to_owned();
        m.append(mbid);
        m.append(": ");
        m.append(error);
        self.errors.push(m);
        assert(text::texts(self.errors@) =~= before.push(m@));
    }
}

} // verus!
