//! What a new rating of a source changes in the catalogue.
use vstd::prelude::*;
use crate::models::{EntityRatingUpdate, MeanRating, RecordingRatingUpdateResult};
use crate::text;
use crate::text::{contains_text, same_text};
use super::appears;
use super::appears::find_placed;
use super::lists;
use super::{MemRecording, MemoryCatalog, RawSource};

verus! {

// ── Meaning ──────────────────────────────────────────────────────────────────

/// An update: an identifier and ratings.
pub type Update = (Seq<char>, Seq<MeanRating>);

/// What an update says.
pub open spec fn update_view(u: EntityRatingUpdate) -> Update {
    (u.id@, u.ratings@)
}

/// What updates say.
pub open spec fn updates(v: Seq<EntityRatingUpdate>) -> Seq<Update> {
    v.map_values(|u: EntityRatingUpdate| update_view(u))
}

/// The paths of the sources of a recording.
pub open spec fn paths(r: MemRecording) -> Seq<Seq<char>> {
    r.sources@.filter_map(|s: RawSource| text::opt_text(s.file_path))
}

/// The place of the first recording that has a source with a path, or the number of
/// recordings.
pub open spec fn place_of_path(recs: Seq<MemRecording>, path: Seq<char>) -> int {
    text::first_at(recs.map_values(|r: MemRecording| paths(r).contains(path)), true)
}

/// The rating of a recording, if it has one.
pub open spec fn own_rating(r: MemRecording) -> Update {
    (
        r.id@,
        match super::recording_rating(r) {
            Some(m) => seq![m],
            None => Seq::empty(),
        },
    )
}

/// The ratings of an artist that is in the catalogue.
pub open spec fn artist_update(c: MemoryCatalog, id: Seq<char>) -> Option<Update> {
    if lists::artist_place(c.artists@, id) < c.artists@.len() {
        Some((id, lists::ratings_of(c.recordings@, lists::artist_recordings(c.recordings@, id))))
    } else {
        None
    }
}

/// The ratings of a release group that is in the catalogue.
pub open spec fn group_update(c: MemoryCatalog, id: Seq<char>) -> Option<Update> {
    if lists::group_place(c.release_groups@, id) < c.release_groups@.len() {
        Some((id, lists::ratings_of(c.recordings@, lists::group_recordings(c.recordings@, id))))
    } else {
        None
    }
}

/// Whether two recordings share an artist.
pub open spec fn share_artist(a: MemRecording, b: MemRecording) -> bool {
    exists|i: int|
        0 <= i < b.artist_ids@.len() && text::texts(a.artist_ids@).contains(
            (#[trigger] b.artist_ids@[i])@,
        )
}

/// Whether two recordings share a release group.
pub open spec fn share_group(a: MemRecording, b: MemRecording) -> bool {
    exists|i: int|
        0 <= i < b.placements@.len() && appears::is_in(a, (#[trigger] b.placements@[i]).id@)
}

/// The rating of a recording that shares an artist or a release group with another.
pub open spec fn affected_update(rated: MemRecording) -> spec_fn(MemRecording) -> Option<Update> {
    |r: MemRecording|
        if r.id@ != rated.id@ && (share_artist(rated, r) || share_group(rated, r)) {
            Some(own_rating(r))
        } else {
            None
        }
}

/// Whether a result tells what a new rating of the source with a path changes.
pub open spec fn tells_update(
    u: RecordingRatingUpdateResult,
    c: MemoryCatalog,
    path: Option<Seq<char>>,
) -> bool {
    let known = path matches Some(p) && place_of_path(c.recordings@, p) < c.recordings@.len();
    if known {
        let rated = c.recordings@[place_of_path(c.recordings@, path->0)];
        &&& update_view(u.recording) == own_rating(rated)
        &&& updates(u.artists@) == text::texts(rated.artist_ids@).filter_map(
            |id: Seq<char>| artist_update(c, id),
        )
        &&& updates(u.release_groups@) == appears::groups_in(rated).filter_map(
            |id: Seq<char>| group_update(c, id),
        )
        &&& updates(u.affected_recordings@) == c.recordings@.filter_map(affected_update(rated))
    } else {
        &&& update_view(u.recording) == (Seq::<char>::empty(), Seq::<MeanRating>::empty())
        &&& u.artists@.len() == 0
        &&& u.release_groups@.len() == 0
        &&& u.affected_recordings@.len() == 0
    }
}

// ── Executable ───────────────────────────────────────────────────────────────

fn own_update(r: &MemRecording) -> (u: EntityRatingUpdate)
    ensures
        update_view(u) == own_rating(*r),
{
    let mut ratings: Vec<MeanRating> = Vec::new();
    if let Some(m) = r.avg_rating() {
        ratings.push(m);
        assert(ratings@ =~= seq![m]);
    } else {
        assert(ratings@ =~= Seq::empty());
    }
    EntityRatingUpdate { id: r.id.clone(), ratings }
}

fn shares_artist(a: &MemRecording, b: &MemRecording) -> (r: bool)
    ensures
        r == share_artist(*a, *b),
{
    let mut i: usize = 0;
    while i < b.artist_ids.len()
        invariant
            i <= b.artist_ids@.len(),
            forall|k: int|
                0 <= k < i ==> !text::texts(a.artist_ids@).contains(
                    (#[trigger] b.artist_ids@[k])@,
                ),
        decreases b.artist_ids@.len() - i,
    {
        if contains_text(&a.artist_ids, &b.artist_ids[i]) {
            return true;
        }
        i = i + 1;
    }
    false
}

fn shares_group(a: &MemRecording, b: &MemRecording) -> (r: bool)
    ensures
        r == share_group(*a, *b),
{
    let mut i: usize = 0;
    while i < b.placements.len()
        invariant
            i <= b.placements@.len(),
            forall|k: int|
                0 <= k < i ==> !appears::is_in(*a, (#[trigger] b.placements@[k]).id@),
        decreases b.placements@.len() - i,
    {
        if find_placed(a, &b.placements[i].id).is_some() {
            return true;
        }
        i = i + 1;
    }
    false
}

fn has_source_path(r: &MemRecording, path: &str) -> (found: bool)
    ensures
        found == paths(*r).contains(path@),
{
    let all = lists::paths_of(&r.sources);
    contains_text(&all, path)
}

impl MemoryCatalog {
    fn find_by_path(&self, path: &str) -> (r: Option<usize>)
        ensures
            match r {
                Some(i) => i < self.recordings@.len() && i == place_of_path(
                    self.recordings@,
                    path@,
                ),
                None => place_of_path(self.recordings@, path@) >= self.recordings@.len(),
            },
    {
        let ghost marks = self.recordings@.map_values(
            |r: MemRecording| paths(r).contains(path@),
        );
        let mut i: usize = 0;
        while i < self.recordings.len()
            invariant
                i <= self.recordings@.len(),
                marks == self.recordings@.map_values(
                    |r: MemRecording| paths(r).contains(path@),
                ),
                forall|k: int| 0 <= k < i ==> marks[k] != true,
            decreases self.recordings@.len() - i,
        {
            if has_source_path(&self.recordings[i], path) {
                proof {
                    text::lemma_first_at_is(marks, true, i as int);
                }
                return Some(i);
            }
            i = i + 1;
        }
        proof {
            text::lemma_first_at_is(marks, true, i as int);
        }
        None
    }

    fn artist_updates(&self, ids: &Vec<String>) -> (r: Vec<EntityRatingUpdate>)
        ensures
            updates(r@) == text::texts(ids@).filter_map(|id: Seq<char>| artist_update(*self, id)),
    {
        let ghost all = text::texts(ids@);
        let ghost f = |id: Seq<char>| artist_update(*self, id);
        let mut r: Vec<EntityRatingUpdate> = Vec::new();
        let mut i: usize = 0;
        proof {
            assert(all.take(0) =~= Seq::empty());
            assert(updates(r@) =~= all.take(0).filter_map(f));
        }
        while i < ids.len()
            invariant
                i <= ids@.len(),
                all == text::texts(ids@),
                f == (|id: Seq<char>| artist_update(*self, id)),
                updates(r@) == all.take(i as int).filter_map(f),
            decreases ids@.len() - i,
        {
            let ghost before = updates(r@);
            proof {
                all.lemma_filter_map_take_succ(f, i as int);
                assert(all[i as int] == ids@[i as int]@);
            }
            if self.find_artist(&ids[i]).is_some() {
                let places = self.recordings_of_artist(&ids[i]);
                let u = EntityRatingUpdate {
                    id: ids[i].clone(),
                    ratings: self.ratings_at(&places),
                };
                r.push(u);
                assert(updates(r@) =~= before.push(update_view(u)));
            }
            assert(updates(r@) =~= all.take(i + 1).filter_map(f));
            i = i + 1;
        }
        assert(all.take(all.len() as int) =~= all);
        r
    }

    fn group_updates(&self, rated: &MemRecording) -> (r: Vec<EntityRatingUpdate>)
        ensures
            updates(r@) == appears::groups_in(*rated).filter_map(
                |id: Seq<char>| group_update(*self, id),
            ),
    {
        let ghost all = appears::groups_in(*rated);
        let ghost f = |id: Seq<char>| group_update(*self, id);
        let mut r: Vec<EntityRatingUpdate> = Vec::new();
        let mut i: usize = 0;
        proof {
            assert(all.take(0) =~= Seq::empty());
            assert(updates(r@) =~= all.take(0).filter_map(f));
        }
        while i < rated.placements.len()
            invariant
                i <= rated.placements@.len(),
                all == appears::groups_in(*rated),
                f == (|id: Seq<char>| group_update(*self, id)),
                updates(r@) == all.take(i as int).filter_map(f),
            decreases rated.placements@.len() - i,
        {
            let ghost before = updates(r@);
            let id = &rated.placements[i].id;
            proof {
                all.lemma_filter_map_take_succ(f, i as int);
                assert(all[i as int] == id@);
            }
            if self.find_group(id).is_some() {
                let places = self.recordings_in_group(id);
                let u = EntityRatingUpdate { id: id.clone(), ratings: self.ratings_at(&places) };
                r.push(u);
                assert(updates(r@) =~= before.push(update_view(u)));
            }
            assert(updates(r@) =~= all.take(i + 1).filter_map(f));
            i = i + 1;
        }
        assert(all.take(all.len() as int) =~= all);
        r
    }

    fn affected_updates(&self, rated: &MemRecording) -> (r: Vec<EntityRatingUpdate>)
        ensures
            updates(r@) == self.recordings@.filter_map(affected_update(*rated)),
    {
        let ghost f = affected_update(*rated);
        let mut r: Vec<EntityRatingUpdate> = Vec::new();
        let mut i: usize = 0;
        proof {
            assert(self.recordings@.take(0) =~= Seq::empty());
            assert(updates(r@) =~= self.recordings@.take(0).filter_map(f));
        }
        while i < self.recordings.len()
            invariant
                i <= self.recordings@.len(),
                f == affected_update(*rated),
                updates(r@) == self.recordings@.take(i as int).filter_map(f),
            decreases self.recordings@.len() - i,
        {
            let other = &self.recordings[i];
            let ghost before = updates(r@);
            proof {
                self.recordings@.lemma_filter_map_take_succ(f, i as int);
            }
            if !same_text(&other.id, &rated.id) {
                if shares_group(rated, other) || shares_artist(rated, other) {
                    let u = own_update(other);
                    r.push(u);
                    assert(updates(r@) =~= before.push(update_view(u)));
                }
            }
            assert(updates(r@) =~= self.recordings@.take(i + 1).filter_map(f));
            i = i + 1;
        }
        assert(self.recordings@.take(self.recordings@.len() as int) =~= self.recordings@);
        r
    }

    /// What a new rating of the source with a path changes: the ratings of its
    /// recording, of the artists and the release groups of that recording, and of
    /// the recordings that share one of these.
    pub fn rating_update(&self, source_path: Option<&str>) -> (u: RecordingRatingUpdateResult)
        ensures
            tells_update(u, *self, lists::opt_view(source_path)),
    {
        let place = match source_path {
            Some(p) => self.find_by_path(p),
            None => None,
        };
        match place {
            Some(i) => {
                let rated = &self.recordings[i];
                RecordingRatingUpdateResult {
                    recording: own_update(rated),
                    artists: self.artist_updates(&rated.artist_ids),
                    release_groups: self.group_updates(rated),
                    affected_recordings: self.affected_updates(rated),
                }
            },
            None => {
                let id = String::new();
                let ratings: Vec<MeanRating> = Vec::new();
                proof {
                    assert(id@ =~= Seq::empty());
                    assert(ratings@ =~= Seq::empty());
                }
                RecordingRatingUpdateResult {
                    recording: EntityRatingUpdate { id, ratings },
                    release_groups: Vec::new(),
                    artists: Vec::new(),
                    affected_recordings: Vec::new(),
                }
            },
        }
    }

    /// The recording whose first local file is a source.
    pub fn recording_of_source(&self, source_id: &str) -> (r: Option<String>)
        ensures
            match r {
                Some(id) => exists|i: int|
                    first_with_source(self.recordings@, source_id@, i) && id
                        == #[trigger] self.recordings@[i].id,
                None => forall|i: int|
                    0 <= i < self.recordings@.len() ==> !leads_with(
                        #[trigger] self.recordings@[i],
                        source_id@,
                    ),
            },
    {
        let mut i: usize = 0;
        while i < self.recordings.len()
            invariant
                i <= self.recordings@.len(),
                forall|k: int|
                    0 <= k < i ==> !leads_with(#[trigger] self.recordings@[k], source_id@),
            decreases self.recordings@.len() - i,
        {
            let rec = &self.recordings[i];
            if let Some(k) = lists::find_local(&rec.sources) {
                if same_text(&rec.sources[k].id, source_id) {
                    assert(first_with_source(self.recordings@, source_id@, i as int));
                    return Some(rec.id.clone());
                }
            }
            i = i + 1;
        }
        None
    }
}

/// Whether the first local file of a recording is a source.
pub open spec fn leads_with(r: MemRecording, source: Seq<char>) -> bool {
    let k = lists::local_source(r.sources@);
    k < r.sources@.len() && r.sources@[k].id@ == source
}

/// Whether a recording is the first whose first local file is a source.
pub open spec fn first_with_source(recs: Seq<MemRecording>, source: Seq<char>, i: int) -> bool {
    &&& 0 <= i < recs.len()
    &&& leads_with(recs[i], source)
    &&& forall|k: int| 0 <= k < i ==> !leads_with(#[trigger] recs[k], source)
}

/// A recording is never among those that its own rating affects.
pub proof fn law_rated_is_not_affected(c: MemoryCatalog, rated: MemRecording, u: Update)
    requires
        c.recordings@.filter_map(affected_update(rated)).contains(u),
    ensures
        u.0 != rated.id@,
{
    text::lemma_filter_map_source(c.recordings@, affected_update(rated), u);
}

} // verus!
