//! Listing what the catalogue in memory holds.
use vstd::prelude::*;
use crate::library::tag_writer::edit::clone_texts;
use crate::models::{
    ArtistRow, LibrarySummary, MeanRating, RecordingRow, ReleaseGroupRow,
};
use crate::sorting;
use crate::sorting::sort_strings;
use crate::text;
use crate::text::{contains_part, contains_text, same_text, str_le, lower_text};
use super::appears;
use super::appears::find_placed;
use super::{MemArtist, MemRecording, MemReleaseGroup, MemoryCatalog, RawSource};

verus! {

// ── Lookups ──────────────────────────────────────────────────────────────────

/// Whether an optional string holds the given text.
pub open spec fn is_text(o: Option<String>, t: Seq<char>) -> bool {
    text::opt_text(o) == Some(t)
}

/// The recordings of a release group.
pub open spec fn group_recordings(recs: Seq<MemRecording>, id: Seq<char>) -> Seq<int>
    decreases recs.len(),
{
    if recs.len() == 0 {
        Seq::empty()
    } else if appears::is_in(recs.last(), id) {
        group_recordings(recs.drop_last(), id).push(recs.len() - 1)
    } else {
        group_recordings(recs.drop_last(), id)
    }
}

/// The recordings that credit an artist, each once.
pub open spec fn artist_recordings(recs: Seq<MemRecording>, id: Seq<char>) -> Seq<int>
    decreases recs.len(),
{
    if recs.len() == 0 {
        Seq::empty()
    } else if text::texts(recs.last().artist_ids@).contains(id) {
        artist_recordings(recs.drop_last(), id).push(recs.len() - 1)
    } else {
        artist_recordings(recs.drop_last(), id)
    }
}

/// The ratings of recordings that have one.
pub open spec fn ratings_of(recs: Seq<MemRecording>, places: Seq<int>) -> Seq<MeanRating> {
    places.filter_map(|i: int| super::recording_rating(recs[i]))
}

/// The last of some texts in their order.
pub open spec fn latest(s: Seq<Seq<char>>) -> Option<Seq<char>>
    decreases s.len(),
{
    if s.len() == 0 {
        None
    } else {
        match latest(s.drop_last()) {
            Some(t) => if text::text_le(t, s.last()) {
                Some(s.last())
            } else {
                Some(t)
            },
            None => Some(s.last()),
        }
    }
}

/// When one of some recordings was last played.
pub open spec fn last_played_of(recs: Seq<MemRecording>, places: Seq<int>) -> Option<Seq<char>> {
    latest(places.filter_map(|i: int| text::opt_text(recs[i].last_played)))
}

/// The place of the first group with an identifier, or the number of groups.
pub open spec fn group_place(groups: Seq<MemReleaseGroup>, id: Seq<char>) -> int {
    text::first_at(groups.map_values(|g: MemReleaseGroup| g.id@), id)
}

/// The title of a release group, empty when it is not in the catalogue.
pub open spec fn group_title(groups: Seq<MemReleaseGroup>, id: Seq<char>) -> Seq<char> {
    if group_place(groups, id) < groups.len() {
        groups[group_place(groups, id)].title@
    } else {
        Seq::empty()
    }
}

/// The disc on which a recording stands in a release group, the first one when it is
/// unknown.
pub open spec fn disc_of(r: MemRecording, id: Seq<char>) -> i64 {
    match appears::disc_in(r, id) {
        Some(d) => d,
        None => 1,
    }
}

/// The highest disc among recordings of a release group, at least zero.
pub open spec fn highest_disc(recs: Seq<MemRecording>, places: Seq<int>, id: Seq<char>) -> i64
    decreases places.len(),
{
    if places.len() == 0 {
        0
    } else {
        let below = highest_disc(recs, places.drop_last(), id);
        let disc = disc_of(recs[places.last()], id);
        if disc > below {
            disc
        } else {
            below
        }
    }
}

/// How many discs a release group has, when recordings of it are known.
pub open spec fn disc_total_of(recs: Seq<MemRecording>, id: Seq<char>) -> Option<i64> {
    let places = group_recordings(recs, id);
    if places.len() == 0 {
        None
    } else {
        Some(highest_disc(recs, places, id))
    }
}

/// The place of the first local file among sources, or their number.
pub open spec fn local_source(sources: Seq<RawSource>) -> int {
    text::first_at(sources.map_values(|s: RawSource| s.source_type@), "local_file"@)
}

/// The places of a vector as integers.
pub open spec fn as_ints(v: Seq<usize>) -> Seq<int> {
    Seq::new(v.len(), |i: int| v[i] as int)
}

/// Whether all places are places of recordings.
pub open spec fn places_within(places: Seq<int>, n: nat) -> bool {
    forall|i: int| 0 <= i < places.len() ==> 0 <= #[trigger] places[i] < n
}

// ── Rows ─────────────────────────────────────────────────────────────────────

/// Whether `row` lists a recording.
pub open spec fn lists_recording(row: RecordingRow, rec: MemRecording, c: MemoryCatalog) -> bool {
    let local = local_source(rec.sources@);
    &&& row.id == rec.id
    &&& row.title == rec.title
    &&& row.duration_ms == rec.duration_ms
    &&& row.primary_artist_id == rec.primary_artist_id
    &&& row.artist_credit_name == rec.artist_credit_name
    &&& row.genre == rec.genre
    &&& row.rating == super::recording_rating(rec)
    &&& row.play_count == rec.play_count
    &&& row.last_played == rec.last_played
    &&& text::opt_text(row.primary_source_id) == if local < rec.sources@.len() {
        Some(rec.sources@[local].id@)
    } else {
        None
    }
    &&& text::opt_text(row.primary_source_path) == if local < rec.sources@.len() {
        text::opt_text(rec.sources@[local].file_path)
    } else {
        None
    }
    &&& text::texts(row.tags@) == text::texts(rec.tags@)
    &&& text::texts(row.artist_ids@) == text::texts(rec.artist_ids@)
    &&& text::texts(row.source_paths@) == rec.sources@.filter_map(
        |s: RawSource| text::opt_text(s.file_path),
    )
    &&& appears::info_views(row.releases@) == appears::appearances(rec, c)
}

/// The places of the release groups of which an artist is the primary one.
pub open spec fn owned_groups(groups: Seq<MemReleaseGroup>, id: Seq<char>) -> Seq<int>
    decreases groups.len(),
{
    if groups.len() == 0 {
        Seq::empty()
    } else if is_text(groups.last().artist_id, id) {
        owned_groups(groups.drop_last(), id).push(groups.len() - 1)
    } else {
        owned_groups(groups.drop_last(), id)
    }
}

/// Whether `row` lists the artist at a place.
pub open spec fn lists_artist(row: ArtistRow, c: MemoryCatalog, place: int) -> bool {
    let a = c.artists@[place];
    let places = artist_recordings(c.recordings@, a.id@);
    &&& row.id == a.id
    &&& row.name == a.name
    &&& row.sort_name == a.sort_name
    &&& row.release_group_count == owned_groups(c.release_groups@, a.id@).len() as i64
    &&& row.recording_count == places.len() as i64
    &&& row.ratings@ == ratings_of(c.recordings@, places)
    &&& text::opt_text(row.last_played) == last_played_of(c.recordings@, places)
}

/// Whether `row` lists a release group.
pub open spec fn lists_group(row: ReleaseGroupRow, g: MemReleaseGroup, c: MemoryCatalog) -> bool {
    let places = group_recordings(c.recordings@, g.id@);
    &&& row.id == g.id
    &&& row.title == g.title
    &&& row.artist_credit_name == g.artist_credit_name
    &&& row.primary_artist_id == g.artist_id
    &&& row.release_count == 1
    &&& row.recording_count == places.len() as i64
    &&& row.release_date == g.release_date
    &&& row.ratings@ == ratings_of(c.recordings@, places)
    &&& text::opt_text(row.last_played) == last_played_of(c.recordings@, places)
}

/// Whether an artist is credited on a recording of a release group.
pub open spec fn credited_on(recs: Seq<MemRecording>, artist: Seq<char>, group: Seq<char>) -> bool {
    exists|i: int|
        0 <= i < recs.len() && appears::is_in(#[trigger] recs[i], group)
            && text::texts(recs[i].artist_ids@).contains(artist)
}

/// Whether a search finds a release group by its title or its artist.
pub open spec fn found_by(g: MemReleaseGroup, search: Seq<char>) -> bool {
    let q = text::lowercase(search);
    ||| text::has_part(text::lowercase(g.title@), q)
    ||| g.artist_credit_name matches Some(n) && text::has_part(text::lowercase(n@), q)
}

/// Whether a release group is listed for an artist and a search.
pub open spec fn group_listed(
    recs: Seq<MemRecording>,
    artist: Option<Seq<char>>,
    search: Option<Seq<char>>,
) -> spec_fn(MemReleaseGroup) -> bool {
    |g: MemReleaseGroup|
        {
            &&& artist matches Some(a) ==> credited_on(recs, a, g.id@)
            &&& search matches Some(q) ==> found_by(g, q)
        }
}

/// The view of an optional string slice.
pub open spec fn opt_view(o: Option<&str>) -> Option<Seq<char>> {
    match o {
        Some(s) => Some(s@),
        None => None,
    }
}

/// The paths of the local files of recordings.
pub open spec fn local_paths(recs: Seq<MemRecording>, places: Seq<int>) -> Seq<Seq<char>> {
    places.map_values(
        |i: int|
            recs[i].sources@.filter_map(
                |s: RawSource|
                    if s.source_type@ == "local_file"@ {
                        text::opt_text(s.file_path)
                    } else {
                        None
                    },
            ),
    ).flatten()
}

/// Each of some texts once, in order.
pub open spec fn sorted_distinct(s: Seq<Seq<char>>) -> Seq<Seq<char>> {
    sorting::stable_sort(text::distinct(s), sorting::text_order())
}

/// The tags of all recordings.
pub open spec fn every_tag(recs: Seq<MemRecording>) -> Seq<Seq<char>> {
    recs.map_values(|r: MemRecording| text::texts(r.tags@)).flatten()
}

// ── Executable lookups ───────────────────────────────────────────────────────

/// Whether an optional string holds the given text.
pub(crate) fn holds_text(o: &Option<String>, t: &str) -> (r: bool)
    ensures
        r == is_text(*o, t@),
{
    match o {
        Some(s) => same_text(s, t),
        None => false,
    }
}

pub(crate) proof fn lemma_group_recordings(recs: Seq<MemRecording>, id: Seq<char>)
    ensures
        places_within(group_recordings(recs, id), recs.len()),
        group_recordings(recs, id).len() <= recs.len(),
        forall|i: int|
            0 <= i < group_recordings(recs, id).len() ==> appears::is_in(
                recs[#[trigger] group_recordings(recs, id)[i]],
                id,
            ),
        forall|j: int|
            0 <= j < recs.len() && appears::is_in(#[trigger] recs[j], id)
                ==> group_recordings(recs, id).contains(j),
    decreases recs.len(),
{
    if recs.len() > 0 {
        let front = recs.drop_last();
        let before = group_recordings(front, id);
        let all = group_recordings(recs, id);
        lemma_group_recordings(front, id);
        assert forall|i: int| 0 <= i < all.len() implies 0 <= #[trigger] all[i] < recs.len()
            && appears::is_in(recs[all[i]], id) by {
            if i < before.len() {
                assert(all[i] == before[i]);
                assert(front[before[i]] == recs[before[i]]);
            }
        }
        assert forall|j: int|
            0 <= j < recs.len() && appears::is_in(#[trigger] recs[j], id) implies all.contains(
            j,
        ) by {
            if j < front.len() {
                assert(front[j] == recs[j]);
                assert(before.contains(j));
                let k = choose|k: int| 0 <= k < before.len() && before[k] == j;
                assert(all[k] == j);
            } else {
                assert(all[all.len() - 1] == j);
            }
        }
    }
}

pub(crate) proof fn lemma_artist_recordings(recs: Seq<MemRecording>, id: Seq<char>)
    ensures
        places_within(artist_recordings(recs, id), recs.len()),
    decreases recs.len(),
{
    if recs.len() > 0 {
        lemma_artist_recordings(recs.drop_last(), id);
    }
}

impl MemoryCatalog {
    /// The recordings of a release group.
    pub(crate) fn recordings_in_group(&self, id: &str) -> (r: Vec<usize>)
        ensures
            as_ints(r@) == group_recordings(self.recordings@, id@),
            places_within(as_ints(r@), self.recordings@.len()),
    {
        let ghost recs = self.recordings@;
        let mut r: Vec<usize> = Vec::new();
        let mut i: usize = 0;
        assert(recs.take(0) =~= Seq::empty());
        assert(as_ints(r@) =~= group_recordings(recs.take(0), id@));
        while i < self.recordings.len()
            invariant
                i <= self.recordings@.len(),
                recs == self.recordings@,
                as_ints(r@) == group_recordings(recs.take(i as int), id@),
            decreases self.recordings@.len() - i,
        {
            proof {
                assert(recs.take(i + 1).drop_last() =~= recs.take(i as int));
                assert(recs.take(i + 1).last() == recs[i as int]);
            }
            let ghost before = as_ints(r@);
            if find_placed(&self.recordings[i], id).is_some() {
                r.push(i);
                assert(as_ints(r@) =~= before.push(i as int));
            }
            i = i + 1;
        }
        proof {
            assert(recs.take(recs.len() as int) =~= recs);
            lemma_group_recordings(recs, id@);
        }
        r
    }

    /// The recordings that credit an artist, each once.
    pub(crate) fn recordings_of_artist(&self, id: &str) -> (r: Vec<usize>)
        ensures
            as_ints(r@) == artist_recordings(self.recordings@, id@),
            places_within(as_ints(r@), self.recordings@.len()),
    {
        let ghost recs = self.recordings@;
        let mut r: Vec<usize> = Vec::new();
        let mut i: usize = 0;
        assert(recs.take(0) =~= Seq::empty());
        assert(as_ints(r@) =~= artist_recordings(recs.take(0), id@));
        while i < self.recordings.len()
            invariant
                i <= self.recordings@.len(),
                recs == self.recordings@,
                as_ints(r@) == artist_recordings(recs.take(i as int), id@),
            decreases self.recordings@.len() - i,
        {
            proof {
                assert(recs.take(i + 1).drop_last() =~= recs.take(i as int));
                assert(recs.take(i + 1).last() == recs[i as int]);
            }
            let ghost before = as_ints(r@);
            if contains_text(&self.recordings[i].artist_ids, id) {
                r.push(i);
                assert(as_ints(r@) =~= before.push(i as int));
            }
            i = i + 1;
        }
        proof {
            assert(recs.take(recs.len() as int) =~= recs);
            lemma_artist_recordings(recs, id@);
        }
        r
    }

    /// The ratings of recordings that have one.
    pub(crate) fn ratings_at(&self, places: &Vec<usize>) -> (r: Vec<MeanRating>)
        requires
            places_within(as_ints(places@), self.recordings@.len()),
        ensures
            r@ == ratings_of(self.recordings@, as_ints(places@)),
    {
        let ghost recs = self.recordings@;
        let ghost all = as_ints(places@);
        let ghost f = |i: int| super::recording_rating(recs[i]);
        let mut r: Vec<MeanRating> = Vec::new();
        let mut i: usize = 0;
        assert(all.take(0) =~= Seq::empty());
        while i < places.len()
            invariant
                i <= places@.len(),
                recs == self.recordings@,
                all == as_ints(places@),
                places_within(all, recs.len()),
                f == (|i: int| super::recording_rating(recs[i])),
                r@ == all.take(i as int).filter_map(f),
            decreases places@.len() - i,
        {
            proof {
                all.lemma_filter_map_take_succ(f, i as int);
                assert(all[i as int] == places@[i as int]);
            }
            if let Some(m) = self.recordings[places[i]].avg_rating() {
                r.push(m);
            }
            i = i + 1;
        }
        assert(all.take(all.len() as int) =~= all);
        assert(ratings_of(recs, all) == all.filter_map(f));
        r
    }

    /// When one of some recordings was last played.
    pub(crate) fn last_played_at(&self, places: &Vec<usize>) -> (r: Option<String>)
        requires
            places_within(as_ints(places@), self.recordings@.len()),
        ensures
            text::opt_text(r) == last_played_of(self.recordings@, as_ints(places@)),
    {
        let ghost recs = self.recordings@;
        let ghost all = as_ints(places@);
        let ghost f = |i: int| text::opt_text(recs[i].last_played);
        let mut r: Option<String> = None;
        let mut i: usize = 0;
        assert(all.take(0) =~= Seq::empty());
        while i < places.len()
            invariant
                i <= places@.len(),
                recs == self.recordings@,
                all == as_ints(places@),
                places_within(all, recs.len()),
                f == (|i: int| text::opt_text(recs[i].last_played)),
                text::opt_text(r) == latest(all.take(i as int).filter_map(f)),
            decreases places@.len() - i,
        {
            let ghost found = all.take(i as int).filter_map(f);
            proof {
                all.lemma_filter_map_take_succ(f, i as int);
                assert(all[i as int] == places@[i as int]);
            }
            match &self.recordings[places[i]].last_played {
                Some(t) => {
                    proof {
                        assert((found + seq![t@]).drop_last() =~= found);
                        assert((found + seq![t@]).last() == t@);
                    }
                    let later = match &r {
                        Some(s) => str_le(s, t),
                        None => true,
                    };
                    if later {
                        r = Some(t.clone());
                    }
                },
                None => {
                    assert(found + Seq::<Seq<char>>::empty() =~= found);
                },
            }
            i = i + 1;
        }
        assert(all.take(all.len() as int) =~= all);
        assert(last_played_of(recs, all) == latest(all.filter_map(f)));
        r
    }

    /// The place of the first group with an identifier.
    pub(crate) fn find_group(&self, id: &str) -> (r: Option<usize>)
        ensures
            match r {
                Some(i) => i == group_place(self.release_groups@, id@) && i
                    < self.release_groups@.len(),
                None => group_place(self.release_groups@, id@) >= self.release_groups@.len(),
            },
    {
        let ghost ids = self.release_groups@.map_values(|g: MemReleaseGroup| g.id@);
        let mut i: usize = 0;
        while i < self.release_groups.len()
            invariant
                i <= self.release_groups@.len(),
                ids == self.release_groups@.map_values(|g: MemReleaseGroup| g.id@),
                forall|k: int| 0 <= k < i ==> ids[k] != id@,
            decreases self.release_groups@.len() - i,
        {
            if same_text(&self.release_groups[i].id, id) {
                proof {
                    text::lemma_first_at_is(ids, id@, i as int);
                }
                return Some(i);
            }
            i = i + 1;
        }
        proof {
            text::lemma_first_at_is(ids, id@, i as int);
        }
        None
    }

    /// How many discs a release group has.
    pub(crate) fn disc_total(&self, id: &str) -> (r: Option<i64>)
        ensures
            r == disc_total_of(self.recordings@, id@),
    {
        let places = self.recordings_in_group(id);
        let ghost recs = self.recordings@;
        let ghost all = as_ints(places@);
        if places.len() == 0 {
            assert(all.len() == 0);
            return None;
        }
        let mut highest: i64 = 0;
        let mut i: usize = 0;
        assert(all.take(0) =~= Seq::empty());
        while i < places.len()
            invariant
                i <= places@.len(),
                recs == self.recordings@,
                all == as_ints(places@),
                places_within(all, recs.len()),
                highest == highest_disc(recs, all.take(i as int), id@),
            decreases places@.len() - i,
        {
            proof {
                assert(all.take(i + 1).drop_last() =~= all.take(i as int));
                assert(all.take(i + 1).last() == all[i as int]);
                assert(all[i as int] == places@[i as int]);
            }
            let disc: i64 = disc_or_first(&self.recordings[places[i]], id);
            if disc > highest {
                highest = disc;
            }
            i = i + 1;
        }
        assert(all.take(all.len() as int) =~= all);
        Some(highest)
    }
}

/// The disc on which a recording stands in a release group, the first one when it is
/// unknown.
pub(crate) fn disc_or_first(rec: &MemRecording, id: &str) -> (d: i64)
    ensures
        d == disc_of(*rec, id@),
{
    match find_placed(rec, id) {
        Some(p) => match p.disc {
            Some(d) => d,
            None => 1,
        },
        None => 1,
    }
}

/// The first local file among sources.
pub(crate) fn find_local(sources: &Vec<RawSource>) -> (r: Option<usize>)
    ensures
        match r {
            Some(i) => i == local_source(sources@) && i < sources@.len(),
            None => local_source(sources@) >= sources@.len(),
        },
{
    let ghost kinds = sources@.map_values(|s: RawSource| s.source_type@);
    let mut i: usize = 0;
    while i < sources.len()
        invariant
            i <= sources@.len(),
            kinds == sources@.map_values(|s: RawSource| s.source_type@),
            forall|k: int| 0 <= k < i ==> kinds[k] != "local_file"@,
        decreases sources@.len() - i,
    {
        if same_text(&sources[i].source_type, "local_file") {
            proof {
                text::lemma_first_at_is(kinds, "local_file"@, i as int);
            }
            return Some(i);
        }
        i = i + 1;
    }
    proof {
        text::lemma_first_at_is(kinds, "local_file"@, i as int);
    }
    None
}

/// The paths of sources that have one.
pub(crate) fn paths_of(sources: &Vec<RawSource>) -> (r: Vec<String>)
    ensures
        text::texts(r@) == sources@.filter_map(|s: RawSource| text::opt_text(s.file_path)),
{
    let ghost f = |s: RawSource| text::opt_text(s.file_path);
    let mut r: Vec<String> = Vec::new();
    let mut i: usize = 0;
    assert(sources@.take(0) =~= Seq::empty());
    assert(text::texts(r@) =~= sources@.take(0).filter_map(f));
    while i < sources.len()
        invariant
            i <= sources@.len(),
            f == (|s: RawSource| text::opt_text(s.file_path)),
            text::texts(r@) == sources@.take(i as int).filter_map(f),
        decreases sources@.len() - i,
    {
        proof {
            sources@.lemma_filter_map_take_succ(f, i as int);
        }
        let ghost before = text::texts(r@);
        match &sources[i].file_path {
            Some(p) => {
                r.push(p.clone());
                assert(text::texts(r@) =~= before + seq![p@]);
            },
            None => {
                assert(before + Seq::<Seq<char>>::empty() =~= before);
            },
        }
        i = i + 1;
    }
    assert(sources@.take(sources@.len() as int) =~= sources@);
    r
}

/// A copy of an optional string.
pub(crate) fn clone_opt(o: &Option<String>) -> (r: Option<String>)
    ensures
        r == *o,
{
    match o {
        Some(s) => Some(s.clone()),
        None => None,
    }
}

// ── Lists ────────────────────────────────────────────────────────────────────

/// Collects texts, each once.
fn push_distinct(out: &mut Vec<String>, x: &String, seen: Ghost<Seq<Seq<char>>>)
    requires
        text::texts(old(out)@) == text::distinct(seen@),
    ensures
        text::texts(final(out)@) == text::distinct(seen@.push(x@)),
{
    proof {
        text::lemma_distinct_push(seen@, x@);
        text::lemma_distinct(seen@);
    }
    if !contains_text(out, x) {
        let ghost before = text::texts(out@);
        out.push(x.clone());
        assert(text::texts(out@) =~= before.push(x@));
    }
}

impl MemoryCatalog {
    /// The row that lists a recording.
    pub fn mem_recording_to_row(&self, rec: &MemRecording) -> (row: RecordingRow)
        ensures
            lists_recording(row, *rec, *self),
    {
        let local = find_local(&rec.sources);
        let primary_source_id = match local {
            Some(i) => Some(rec.sources[i].id.clone()),
            None => None,
        };
        let primary_source_path = match local {
            Some(i) => clone_opt(&rec.sources[i].file_path),
            None => None,
        };
        RecordingRow {
            id: rec.id.clone(),
            title: rec.title.clone(),
            duration_ms: rec.duration_ms,
            primary_artist_id: clone_opt(&rec.primary_artist_id),
            artist_credit_name: clone_opt(&rec.artist_credit_name),
            genre: clone_opt(&rec.genre),
            rating: rec.avg_rating(),
            play_count: rec.play_count,
            last_played: clone_opt(&rec.last_played),
            primary_source_id,
            primary_source_path,
            tags: clone_texts(&rec.tags),
            artist_ids: clone_texts(&rec.artist_ids),
            source_paths: paths_of(&rec.sources),
            releases: self.releases_of(rec),
        }
    }

    /// All recordings.
    pub fn list_recordings(&self) -> (rows: Vec<RecordingRow>)
        ensures
            rows@.len() == self.recordings@.len(),
            forall|i: int|
                0 <= i < rows@.len() ==> lists_recording(
                    #[trigger] rows@[i],
                    self.recordings@[i],
                    *self,
                ),
    {
        let mut rows: Vec<RecordingRow> = Vec::new();
        let mut i: usize = 0;
        while i < self.recordings.len()
            invariant
                i <= self.recordings@.len(),
                rows@.len() == i,
                forall|k: int|
                    0 <= k < i ==> lists_recording(
                        #[trigger] rows@[k],
                        self.recordings@[k],
                        *self,
                    ),
            decreases self.recordings@.len() - i,
        {
            rows.push(self.mem_recording_to_row(&self.recordings[i]));
            i = i + 1;
        }
        rows
    }

    /// The places of the release groups of which an artist is the primary one.
    pub(crate) fn groups_owned_by(&self, id: &str) -> (r: Vec<usize>)
        ensures
            as_ints(r@) == owned_groups(self.release_groups@, id@),
            places_within(as_ints(r@), self.release_groups@.len()),
    {
        let ghost groups = self.release_groups@;
        let mut r: Vec<usize> = Vec::new();
        let mut i: usize = 0;
        assert(groups.take(0) =~= Seq::empty());
        assert(as_ints(r@) =~= owned_groups(groups.take(0), id@));
        while i < self.release_groups.len()
            invariant
                i <= self.release_groups@.len(),
                groups == self.release_groups@,
                as_ints(r@) == owned_groups(groups.take(i as int), id@),
                places_within(as_ints(r@), i as nat),
            decreases self.release_groups@.len() - i,
        {
            proof {
                assert(groups.take(i + 1).drop_last() =~= groups.take(i as int));
                assert(groups.take(i + 1).last() == groups[i as int]);
            }
            let ghost before = as_ints(r@);
            if holds_text(&self.release_groups[i].artist_id, id) {
                r.push(i);
                assert(as_ints(r@) =~= before.push(i as int));
            }
            i = i + 1;
        }
        assert(groups.take(groups.len() as int) =~= groups);
        r
    }

    /// All artists.
    pub fn list_artists(&self) -> (rows: Vec<ArtistRow>)
        ensures
            rows@.len() == self.artists@.len(),
            forall|i: int| 0 <= i < rows@.len() ==> lists_artist(#[trigger] rows@[i], *self, i),
    {
        let mut rows: Vec<ArtistRow> = Vec::new();
        let mut i: usize = 0;
        while i < self.artists.len()
            invariant
                i <= self.artists@.len(),
                rows@.len() == i,
                forall|k: int| 0 <= k < i ==> lists_artist(#[trigger] rows@[k], *self, k),
            decreases self.artists@.len() - i,
        {
            let places = self.recordings_of_artist(&self.artists[i].id);
            let owned = self.groups_owned_by(&self.artists[i].id);
            proof {
                assert(as_ints(places@).len() == places@.len());
                assert(as_ints(owned@).len() == owned@.len());
            }
            let row = ArtistRow {
                id: self.artists[i].id.clone(),
                name: self.artists[i].name.clone(),
                sort_name: self.artists[i].sort_name.clone(),
                release_group_count: owned.len() as i64,
                recording_count: places.len() as i64,
                ratings: self.ratings_at(&places),
                last_played: self.last_played_at(&places),
            };
            rows.push(row);
            i = i + 1;
        }
        rows
    }

    /// Whether an artist is credited on a recording of a release group.
    fn is_credited_on(&self, artist: &str, group: &str) -> (r: bool)
        ensures
            r == credited_on(self.recordings@, artist@, group@),
    {
        let mut i: usize = 0;
        while i < self.recordings.len()
            invariant
                i <= self.recordings@.len(),
                forall|k: int|
                    0 <= k < i ==> !(appears::is_in(#[trigger] self.recordings@[k], group@)
                        && text::texts(self.recordings@[k].artist_ids@).contains(artist@)),
            decreases self.recordings@.len() - i,
        {
            if find_placed(&self.recordings[i], group).is_some() && contains_text(
                &self.recordings[i].artist_ids,
                artist,
            ) {
                return true;
            }
            i = i + 1;
        }
        false
    }

    /// The row that lists a release group.
    fn group_row(&self, g: &MemReleaseGroup) -> (row: ReleaseGroupRow)
        ensures
            lists_group(row, *g, *self),
    {
        let places = self.recordings_in_group(&g.id);
        assert(as_ints(places@).len() == places@.len());
        ReleaseGroupRow {
            id: g.id.clone(),
            title: g.title.clone(),
            artist_credit_name: clone_opt(&g.artist_credit_name),
            primary_artist_id: clone_opt(&g.artist_id),
            release_count: 1,
            recording_count: places.len() as i64,
            release_date: clone_opt(&g.release_date),
            ratings: self.ratings_at(&places),
            last_played: self.last_played_at(&places),
        }
    }

    /// The release groups of an artist that a search finds; without an artist or a
    /// search, those that the other allows.
    pub fn list_release_groups(&self, artist_id: Option<&str>, search: Option<&str>) -> (rows: Vec<
        ReleaseGroupRow,
    >)
        ensures
            ({
                let listed = self.release_groups@.filter(
                    group_listed(self.recordings@, opt_view(artist_id), opt_view(search)),
                );
                &&& rows@.len() == listed.len()
                &&& forall|i: int|
                    0 <= i < rows@.len() ==> lists_group(#[trigger] rows@[i], listed[i], *self)
            }),
    {
        let ghost groups = self.release_groups@;
        let ghost keep = group_listed(self.recordings@, opt_view(artist_id), opt_view(search));
        let mut rows: Vec<ReleaseGroupRow> = Vec::new();
        let mut i: usize = 0;
        proof {
            assert(groups.take(0) =~= Seq::empty());
            groups.take(0).lemma_filter_len(keep);
        }
        while i < self.release_groups.len()
            invariant
                i <= self.release_groups@.len(),
                groups == self.release_groups@,
                keep == group_listed(self.recordings@, opt_view(artist_id), opt_view(search)),
                rows@.len() == groups.take(i as int).filter(keep).len(),
                forall|k: int|
                    0 <= k < rows@.len() ==> lists_group(
                        #[trigger] rows@[k],
                        groups.take(i as int).filter(keep)[k],
                        *self,
                    ),
            decreases self.release_groups@.len() - i,
        {
            let g = &self.release_groups[i];
            let ghost before = groups.take(i as int).filter(keep);
            proof {
                assert(groups.take(i + 1) =~= groups.take(i as int).push(groups[i as int]));
                groups.take(i as int).lemma_filter_push(groups[i as int], keep);
            }
            let by_artist = match artist_id {
                Some(a) => self.is_credited_on(a, &g.id),
                None => true,
            };
            let by_search = match search {
                Some(q) => {
                    let low = lower_text(q);
                    contains_part(&lower_text(&g.title), &low) || match &g.artist_credit_name {
                        Some(n) => contains_part(&lower_text(n), &low),
                        None => false,
                    }
                },
                None => true,
            };
            if by_artist && by_search {
                let row = self.group_row(g);
                rows.push(row);
                assert forall|k: int| 0 <= k < rows@.len() implies lists_group(
                    #[trigger] rows@[k],
                    groups.take(i + 1).filter(keep)[k],
                    *self,
                ) by {
                    if k < before.len() {
                        assert(lists_group(rows@[k], before[k], *self));
                    }
                }
            }
            i = i + 1;
        }
        assert(groups.take(groups.len() as int) =~= groups);
        rows
    }

    /// How much the catalogue holds.
    pub fn get_library_summary(&self) -> (s: LibrarySummary)
        ensures
            s.recording_count == self.recordings@.len() as i64,
            s.artist_count == self.artists@.len() as i64,
            s.release_group_count == self.release_groups@.len() as i64,
            s.source_count == self.source_count,
    {
        LibrarySummary {
            recording_count: self.recordings.len() as i64,
            artist_count: self.artists.len() as i64,
            release_group_count: self.release_groups.len() as i64,
            source_count: self.source_count,
        }
    }

    /// The tags of all recordings, each once, in order.
    pub fn list_all_tags(&self) -> (tags: Vec<String>)
        ensures
            text::texts(tags@) == sorted_distinct(every_tag(self.recordings@)),
    {
        let ghost rows = self.recordings@.map_values(|r: MemRecording| text::texts(r.tags@));
        let mut out: Vec<String> = Vec::new();
        let ghost mut seen: Seq<Seq<char>> = Seq::empty();
        let mut i: usize = 0;
        assert(rows.take(0) =~= Seq::empty());
        assert(text::texts(out@) =~= text::distinct(seen));
        while i < self.recordings.len()
            invariant
                i <= self.recordings@.len(),
                rows == self.recordings@.map_values(|r: MemRecording| text::texts(r.tags@)),
                seen == rows.take(i as int).flatten(),
                text::texts(out@) == text::distinct(seen),
            decreases self.recordings@.len() - i,
        {
            let tags = &self.recordings[i].tags;
            let ghost row = rows[i as int];
            let ghost start = seen;
            let mut k: usize = 0;
            assert(start + row.take(0) =~= start);
            while k < tags.len()
                invariant
                    k <= tags@.len(),
                    row == text::texts(tags@),
                    seen == start + row.take(k as int),
                    text::texts(out@) == text::distinct(seen),
                decreases tags@.len() - k,
            {
                push_distinct(&mut out, &tags[k], Ghost(seen));
                proof {
                    assert(start + row.take(k + 1) =~= (start + row.take(k as int)).push(
                        row[k as int],
                    ));
                    seen = seen.push(row[k as int]);
                }
                k = k + 1;
            }
            proof {
                assert(row.take(row.len() as int) =~= row);
                rows.take(i as int).lemma_flatten_push(row);
                assert(rows.take(i + 1) =~= rows.take(i as int).push(row));
            }
            i = i + 1;
        }
        assert(rows.take(rows.len() as int) =~= rows);
        sort_strings(out)
    }

    /// The paths of the local files of recordings, each once, in order.
    fn local_paths_at(&self, places: &Vec<usize>) -> (r: Vec<String>)
        requires
            places_within(as_ints(places@), self.recordings@.len()),
        ensures
            text::texts(r@) == sorted_distinct(
                local_paths(self.recordings@, as_ints(places@)),
            ),
    {
        let ghost recs = self.recordings@;
        let ghost all = as_ints(places@);
        let ghost f = |s: RawSource|
            if s.source_type@ == "local_file"@ {
                text::opt_text(s.file_path)
            } else {
                None
            };
        let ghost rows = all.map_values(|i: int| recs[i].sources@.filter_map(f));
        let mut out: Vec<String> = Vec::new();
        let ghost mut seen: Seq<Seq<char>> = Seq::empty();
        let mut i: usize = 0;
        assert(rows.take(0) =~= Seq::empty());
        assert(text::texts(out@) =~= text::distinct(seen));
        while i < places.len()
            invariant
                i <= places@.len(),
                recs == self.recordings@,
                all == as_ints(places@),
                places_within(all, recs.len()),
                f == (|s: RawSource|
                    if s.source_type@ == "local_file"@ {
                        text::opt_text(s.file_path)
                    } else {
                        None
                    }),
                rows == all.map_values(|i: int| recs[i].sources@.filter_map(f)),
                seen == rows.take(i as int).flatten(),
                text::texts(out@) == text::distinct(seen),
            decreases places@.len() - i,
        {
            assert(all[i as int] == places@[i as int]);
            let sources = &self.recordings[places[i]].sources;
            let ghost row = rows[i as int];
            let ghost start = seen;
            let mut k: usize = 0;
            assert(sources@.take(0) =~= Seq::empty());
            assert(start + sources@.take(0).filter_map(f) =~= start);
            while k < sources.len()
                invariant
                    k <= sources@.len(),
                    f == (|s: RawSource|
                        if s.source_type@ == "local_file"@ {
                            text::opt_text(s.file_path)
                        } else {
                            None
                        }),
                    seen == start + sources@.take(k as int).filter_map(f),
                    text::texts(out@) == text::distinct(seen),
                decreases sources@.len() - k,
            {
                let ghost found = sources@.take(k as int).filter_map(f);
                proof {
                    sources@.lemma_filter_map_take_succ(f, k as int);
                }
                if same_text(&sources[k].source_type, "local_file") {
                    if let Some(p) = &sources[k].file_path {
                        push_distinct(&mut out, p, Ghost(seen));
                        proof {
                            assert(start + (found + seq![p@]) =~= (start + found).push(p@));
                            seen = seen.push(p@);
                        }
                    }
                }
                assert(found + Seq::<Seq<char>>::empty() =~= found);
                k = k + 1;
            }
            proof {
                assert(sources@.take(sources@.len() as int) =~= sources@);
                rows.take(i as int).lemma_flatten_push(row);
                assert(rows.take(i + 1) =~= rows.take(i as int).push(row));
            }
            i = i + 1;
        }
        proof {
            assert(rows.take(rows.len() as int) =~= rows);
            assert(rows =~= all.map_values(
                |i: int|
                    recs[i].sources@.filter_map(
                        |s: RawSource|
                            if s.source_type@ == "local_file"@ {
                                text::opt_text(s.file_path)
                            } else {
                                None
                            },
                    ),
            ));
        }
        sort_strings(out)
    }

    /// The paths of the local files of a release group, each once, in order.
    pub fn source_paths_for_release_group(&self, rg_id: &str) -> (paths: Vec<String>)
        ensures
            text::texts(paths@) == sorted_distinct(
                local_paths(self.recordings@, group_recordings(self.recordings@, rg_id@)),
            ),
    {
        let places = self.recordings_in_group(rg_id);
        self.local_paths_at(&places)
    }

    /// The place of the first artist with an identifier.
    pub(crate) fn find_artist(&self, id: &str) -> (r: Option<usize>)
        ensures
            match r {
                Some(i) => i == artist_place(self.artists@, id@) && i < self.artists@.len(),
                None => artist_place(self.artists@, id@) >= self.artists@.len(),
            },
    {
        let ghost ids = self.artists@.map_values(|a: MemArtist| a.id@);
        let mut i: usize = 0;
        while i < self.artists.len()
            invariant
                i <= self.artists@.len(),
                ids == self.artists@.map_values(|a: MemArtist| a.id@),
                forall|k: int| 0 <= k < i ==> ids[k] != id@,
            decreases self.artists@.len() - i,
        {
            if same_text(&self.artists[i].id, id) {
                proof {
                    text::lemma_first_at_is(ids, id@, i as int);
                }
                return Some(i);
            }
            i = i + 1;
        }
        proof {
            text::lemma_first_at_is(ids, id@, i as int);
        }
        None
    }

    /// The name of an artist, and the paths of the local files of all recordings
    /// that credit the artist, each once, in order.
    pub fn source_paths_for_artist(&self, artist_id: &str) -> (r: (Option<String>, Vec<String>))
        ensures
            text::opt_text(r.0) == if artist_place(self.artists@, artist_id@)
                < self.artists@.len() {
                Some(self.artists@[artist_place(self.artists@, artist_id@)].name@)
            } else {
                None
            },
            text::texts(r.1@) == sorted_distinct(
                local_paths(self.recordings@, artist_recordings(self.recordings@, artist_id@)),
            ),
    {
        let name = match self.find_artist(artist_id) {
            Some(i) => Some(self.artists[i].name.clone()),
            None => None,
        };
        let places = self.recordings_of_artist(artist_id);
        (name, self.local_paths_at(&places))
    }
}

/// The place of the first artist with an identifier, or the number of artists.
pub open spec fn artist_place(artists: Seq<MemArtist>, id: Seq<char>) -> int {
    text::first_at(artists.map_values(|a: MemArtist| a.id@), id)
}

// ── Laws ─────────────────────────────────────────────────────────────────────

/// All recordings of an artist weigh the same: each recording that credits the
/// artist is counted once, however often it does so, and no other is.
pub proof fn law_recordings_count_once(recs: Seq<MemRecording>, id: Seq<char>)
    ensures
        artist_recordings(recs, id).no_duplicates(),
        forall|i: int|
            artist_recordings(recs, id).contains(i) <==> 0 <= i < recs.len() && text::texts(
                (#[trigger] recs[i]).artist_ids@,
            ).contains(id),
    decreases recs.len(),
{
    let all = artist_recordings(recs, id);
    if recs.len() > 0 {
        let front = recs.drop_last();
        let before = artist_recordings(front, id);
        law_recordings_count_once(front, id);
        lemma_artist_recordings(front, id);
        assert forall|i: int| all.contains(i) <==> 0 <= i < recs.len() && text::texts(
            (#[trigger] recs[i]).artist_ids@,
        ).contains(id) by {
            if 0 <= i < front.len() {
                assert(front[i] == recs[i]);
                if before.contains(i) {
                    let k = choose|k: int| 0 <= k < before.len() && before[k] == i;
                    assert(all[k] == i);
                }
            }
            if all.contains(i) {
                let k = choose|k: int| 0 <= k < all.len() && all[k] == i;
                if k < before.len() {
                    assert(before[k] == i);
                    assert(before.contains(i));
                }
            }
            if i == recs.len() - 1 && text::texts(recs[i].artist_ids@).contains(id) {
                assert(all[before.len() as int] == i);
            }
        }
    }
}

} // verus!
