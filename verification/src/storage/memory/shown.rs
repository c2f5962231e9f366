//! What the catalogue shows, and of what.
use vstd::prelude::*;
use crate::models::{
    ArtistDetail, ArtistReleaseGroup, ArtistRow, GuestAppearanceReleaseGroup, MeanRating,
    RecordingRow, RecordingRatingUpdateResult, ReleaseGroupRow,
};
use crate::sorting;
use crate::text;
use super::appears;
use super::artists;
use super::described;
use super::laws;
use super::lists;
use super::ratings;
use super::rows;
use super::{MemRecording, MemReleaseGroup, MemoryCatalog, RawSource};

verus! {

// ── Counting ─────────────────────────────────────────────────────────────────

/// The recordings of a release group are just those that are in it, each once.
pub proof fn law_group_recordings_are_exact(recs: Seq<MemRecording>, id: Seq<char>)
    ensures
        lists::group_recordings(recs, id).no_duplicates(),
        forall|i: int|
            lists::group_recordings(recs, id).contains(i) <==> 0 <= i < recs.len()
                && appears::is_in(#[trigger] recs[i], id),
    decreases recs.len(),
{
    lists::lemma_group_recordings(recs, id);
    let all = lists::group_recordings(recs, id);
    assert forall|i: int| all.contains(i) <==> 0 <= i < recs.len() && appears::is_in(
        #[trigger] recs[i],
        id,
    ) by {
        if all.contains(i) {
            let k = choose|k: int| 0 <= k < all.len() && all[k] == i;
            assert(appears::is_in(recs[all[k]], id));
        }
    }
    if recs.len() > 0 {
        let front = recs.drop_last();
        law_group_recordings_are_exact(front, id);
        lists::lemma_group_recordings(front, id);
    }
}

/// The release groups of an artist are just those that name them as their artist, each
/// once.
pub proof fn law_owned_groups_are_exact(groups: Seq<MemReleaseGroup>, id: Seq<char>)
    ensures
        lists::owned_groups(groups, id).no_duplicates(),
        forall|i: int|
            lists::owned_groups(groups, id).contains(i) <==> 0 <= i < groups.len() && (
            #[trigger] groups[i]).artist_id is Some && groups[i].artist_id->0@ == id,
        forall|k: int|
            0 <= k < lists::owned_groups(groups, id).len() ==> 0 <= #[trigger] lists::owned_groups(
                groups,
                id,
            )[k] < groups.len(),
    decreases groups.len(),
{
    if groups.len() > 0 {
        let front = groups.drop_last();
        let n = groups.len() - 1;
        law_owned_groups_are_exact(front, id);
        let before = lists::owned_groups(front, id);
        let all = lists::owned_groups(groups, id);
        assert forall|i: int| all.contains(i) <==> 0 <= i < groups.len() && (
        #[trigger] groups[i]).artist_id is Some && groups[i].artist_id->0@ == id by {
            if 0 <= i < n {
                assert(front[i] == groups[i]);
            }
            if before.contains(i) {
                let k = choose|k: int| 0 <= k < before.len() && before[k] == i;
                assert(all[k] == i);
                assert(0 <= before[k] < n);
            }
            if all.contains(i) && !before.contains(i) {
                let k = choose|k: int| 0 <= k < all.len() && all[k] == i;
                if k < before.len() {
                    assert(before[k] == i);
                }
            }
            if i == n && lists::is_text(groups[n].artist_id, id) {
                assert(all[before.len() as int] == n);
            }
        }
        assert forall|k: int| 0 <= k < all.len() implies 0 <= #[trigger] all[k] < groups.len() by {
            if k < before.len() {
                assert(all[k] == before[k]);
            }
        }
    }
}

/// The places of the recordings that credit an artist.
pub open spec fn crediting(recs: Seq<MemRecording>, id: Seq<char>) -> Set<int> {
    Set::new(|i: int| 0 <= i < recs.len() && text::texts(recs[i].artist_ids@).contains(id))
}

/// The places of the release groups that name an artist as theirs.
pub open spec fn owned_by(groups: Seq<MemReleaseGroup>, id: Seq<char>) -> Set<int> {
    Set::new(
        |i: int|
            0 <= i < groups.len() && groups[i].artist_id is Some && groups[i].artist_id->0@ == id,
    )
}

/// An artist is listed with the number of recordings that credit them and of release
/// groups that are theirs.
pub proof fn law_artist_row_counts(row: ArtistRow, c: MemoryCatalog, place: int)
    requires
        lists::lists_artist(row, c, place),
        c.recordings@.len() <= i64::MAX,
        c.release_groups@.len() <= i64::MAX,
    ensures
        row.id@ == c.artists@[place].id@,
        row.name@ == c.artists@[place].name@,
        row.sort_name@ == c.artists@[place].sort_name@,
        row.recording_count == crediting(c.recordings@, c.artists@[place].id@).len(),
        row.release_group_count == owned_by(c.release_groups@, c.artists@[place].id@).len(),
{
    let id = c.artists@[place].id@;
    let recs = c.recordings@;
    let groups = c.release_groups@;
    let a = lists::artist_recordings(recs, id);
    let b = lists::owned_groups(groups, id);
    let credited = crediting(recs, id);
    let owned = owned_by(groups, id);
    lists::law_recordings_count_once(recs, id);
    lists::lemma_artist_recordings(recs, id);
    law_owned_groups_are_exact(groups, id);
    a.unique_seq_to_set();
    b.unique_seq_to_set();
    assert forall|i: int| a.to_set().contains(i) <==> credited.contains(i) by {
        if 0 <= i < recs.len() {
            assert(a.contains(i) <==> text::texts(recs[i].artist_ids@).contains(id));
        } else if a.contains(i) {
            lemma_artist_places(recs, id, i);
        }
    }
    assert(a.to_set() =~= credited);
    assert forall|i: int| b.to_set().contains(i) <==> owned.contains(i) by {
        if 0 <= i < groups.len() {
            assert(b.contains(i) <==> groups[i].artist_id is Some && groups[i].artist_id->0@ == id);
        } else if b.contains(i) {
            let k = choose|k: int| 0 <= k < b.len() && b[k] == i;
            assert(0 <= b[k] < groups.len());
        }
    }
    assert(b.to_set() =~= owned);
    lemma_places_len(a, recs.len() as int);
    lemma_places_len(b, groups.len() as int);
}

proof fn lemma_artist_places(recs: Seq<MemRecording>, id: Seq<char>, i: int)
    requires
        lists::artist_recordings(recs, id).contains(i),
    ensures
        0 <= i < recs.len(),
{
    let a = lists::artist_recordings(recs, id);
    lists::lemma_artist_recordings(recs, id);
    let k = choose|k: int| 0 <= k < a.len() && a[k] == i;
    assert(0 <= a[k] < recs.len());
}

/// Distinct places within a bound are no more than the bound.
proof fn lemma_places_len(s: Seq<int>, n: int)
    requires
        0 <= n,
        s.no_duplicates(),
        forall|k: int| 0 <= k < s.len() ==> 0 <= #[trigger] s[k] < n,
    ensures
        s.len() <= n,
{
    s.unique_seq_to_set();
    vstd::set_lib::lemma_int_range(0, n);
    assert forall|i: int| s.to_set().contains(i) implies vstd::set_lib::set_int_range(
        0,
        n,
    ).contains(i) by {
        let k = choose|k: int| 0 <= k < s.len() && s[k] == i;
        assert(0 <= s[k] < n);
    }
    vstd::set_lib::lemma_len_subset(s.to_set(), vstd::set_lib::set_int_range(0, n));
}

/// A release group is listed under its own name, and counts the recordings in it.
pub proof fn law_group_row_counts(row: ReleaseGroupRow, g: MemReleaseGroup, c: MemoryCatalog)
    requires
        lists::lists_group(row, g, c),
        c.recordings@.len() <= i64::MAX,
    ensures
        row.id@ == g.id@,
        row.title@ == g.title@,
        text::opt_text(row.artist_credit_name) == text::opt_text(g.artist_credit_name),
        text::opt_text(row.primary_artist_id) == text::opt_text(g.artist_id),
        text::opt_text(row.release_date) == text::opt_text(g.release_date),
        row.recording_count == Set::new(
            |i: int| 0 <= i < c.recordings@.len() && appears::is_in(c.recordings@[i], g.id@),
        ).len(),
{
    let recs = c.recordings@;
    let a = lists::group_recordings(recs, g.id@);
    let members = Set::new(|i: int| 0 <= i < recs.len() && appears::is_in(recs[i], g.id@));
    law_group_recordings_are_exact(recs, g.id@);
    lists::lemma_group_recordings(recs, g.id@);
    a.unique_seq_to_set();
    assert forall|i: int| a.to_set().contains(i) <==> members.contains(i) by {
        if 0 <= i < recs.len() {
            assert(a.contains(i) <==> appears::is_in(recs[i], g.id@));
        } else if a.contains(i) {
            let k = choose|k: int| 0 <= k < a.len() && a[k] == i;
            assert(0 <= a[k] < recs.len());
        }
    }
    assert(a.to_set() =~= members);
    lemma_places_len(a, recs.len() as int);
}

// ── Ratings and plays ────────────────────────────────────────────────────────

/// The ratings of several recordings are just the ratings of those that have one.
pub proof fn law_ratings_are_those_of_recordings(
    recs: Seq<MemRecording>,
    places: Seq<int>,
    m: MeanRating,
)
    ensures
        lists::ratings_of(recs, places).contains(m) <==> exists|k: int|
            0 <= k < places.len() && super::recording_rating(recs[#[trigger] places[k]]) == Some(m),
        lists::ratings_of(recs, places).len() <= places.len(),
{
    let f = |i: int| super::recording_rating(recs[i]);
    if lists::ratings_of(recs, places).contains(m) {
        text::lemma_filter_map_source(places, f, m);
        let k = choose|k: int| 0 <= k < places.len() && f(#[trigger] places[k]) == Some(m);
        assert(super::recording_rating(recs[places[k]]) == Some(m));
    }
    if exists|k: int|
        0 <= k < places.len() && super::recording_rating(recs[#[trigger] places[k]]) == Some(m) {
        let k = choose|k: int|
            0 <= k < places.len() && super::recording_rating(recs[#[trigger] places[k]]) == Some(
                m,
            );
        text::lemma_filter_map_keeps(places, f, k);
    }
    lemma_kept_len(places, f);
}

proof fn lemma_kept_len<A, B>(s: Seq<A>, f: spec_fn(A) -> Option<B>)
    ensures
        s.filter_map(f).len() <= s.len(),
    decreases s.len(),
{
    if s.len() > 0 {
        let n = s.len() - 1;
        lemma_kept_len(s.take(n), f);
        s.lemma_filter_map_take_succ(f, n);
        assert(s.take(n + 1) =~= s);
    } else {
        assert(s.filter_map(f) =~= Seq::empty());
    }
}

/// The latest of several times is one of them, and none comes after it.
pub proof fn law_latest_is_a_bound(s: Seq<Seq<char>>)
    ensures
        match lists::latest(s) {
            Some(t) => s.contains(t) && forall|i: int|
                0 <= i < s.len() ==> text::text_le(#[trigger] s[i], t),
            None => s.len() == 0,
        },
    decreases s.len(),
{
    if s.len() > 0 {
        let t = s.drop_last();
        law_latest_is_a_bound(t);
        assert(s[s.len() - 1] == s.last());
        text::lemma_text_le_total(s.last(), s.last());
        if let Some(e) = lists::latest(t) {
            let k = choose|k: int| 0 <= k < t.len() && t[k] == e;
            assert(s[k] == e);
            text::lemma_text_le_total(e, s.last());
            assert forall|i: int| 0 <= i < s.len() implies text::text_le(
                #[trigger] s[i],
                lists::latest(s)->0,
            ) by {
                if i < t.len() {
                    assert(t[i] == s[i]);
                    text::lemma_text_le_transitive(s[i], e, lists::latest(s)->0);
                }
            }
        } else {
            assert(t.len() == 0);
        }
    }
}

/// Recordings were last played when the last of them was.
pub proof fn law_last_played_is_latest(recs: Seq<MemRecording>, places: Seq<int>, k: int)
    requires
        0 <= k < places.len(),
        recs[places[k]].last_played is Some,
    ensures
        lists::last_played_of(recs, places) matches Some(t) && text::text_le(
            recs[places[k]].last_played->0@,
            t,
        ) && exists|j: int|
            0 <= j < places.len() && text::opt_text(recs[#[trigger] places[j]].last_played) == Some(
                t,
            ),
{
    let f = |i: int| text::opt_text(recs[i].last_played);
    let all = places.filter_map(f);
    law_latest_is_a_bound(all);
    text::lemma_filter_map_keeps(places, f, k);
    let m = choose|m: int| 0 <= m < all.len() && all[m] == recs[places[k]].last_played->0@;
    assert(text::text_le(all[m], lists::latest(all)->0));
    text::lemma_filter_map_source(places, f, lists::latest(all)->0);
    let j = choose|j: int|
        0 <= j < places.len() && f(#[trigger] places[j]) == Some(lists::latest(all)->0);
    assert(text::opt_text(recs[places[j]].last_played) == Some(lists::latest(all)->0));
}

/// A release group has as many discs as the highest disc of its recordings tells.
pub proof fn law_highest_disc_is_a_bound(
    recs: Seq<MemRecording>,
    places: Seq<int>,
    id: Seq<char>,
    k: int,
)
    requires
        0 <= k < places.len(),
    ensures
        lists::disc_of(recs[places[k]], id) <= lists::highest_disc(recs, places, id),
        lists::highest_disc(recs, places, id) == 0 || exists|j: int|
            0 <= j < places.len() && lists::disc_of(recs[#[trigger] places[j]], id)
                == lists::highest_disc(recs, places, id),
    decreases places.len(),
{
    let front = places.drop_last();
    let below = lists::highest_disc(recs, front, id);
    let n = places.len() - 1;
    if front.len() > 0 {
        law_highest_disc_is_a_bound(recs, front, id, if k < n {
            k
        } else {
            0
        });
        if below != 0 {
            let j = choose|j: int|
                0 <= j < front.len() && lists::disc_of(recs[#[trigger] front[j]], id) == below;
            assert(lists::disc_of(recs[places[j]], id) == below);
        }
        if k < n {
            assert(front[k] == places[k]);
        }
    }
    assert(lists::disc_of(recs[places[n]], id) <= lists::highest_disc(recs, places, id));
}

// ── Rows ─────────────────────────────────────────────────────────────────────

/// A recording is listed under its own identifier, title and artists, with its tags,
/// and with the paths of its sources.
pub proof fn law_row_tells_recording(
    row: RecordingRow,
    rec: MemRecording,
    c: MemoryCatalog,
    s: Seq<char>,
)
    requires
        lists::lists_recording(row, rec, c),
    ensures
        row.id@ == rec.id@,
        row.title@ == rec.title@,
        row.duration_ms == rec.duration_ms,
        text::opt_text(row.artist_credit_name) == text::opt_text(rec.artist_credit_name),
        text::opt_text(row.primary_artist_id) == text::opt_text(rec.primary_artist_id),
        text::opt_text(row.genre) == text::opt_text(rec.genre),
        row.rating == super::recording_rating(rec),
        row.play_count == rec.play_count,
        text::opt_text(row.last_played) == text::opt_text(rec.last_played),
        row.tags@.len() == rec.tags@.len(),
        row.artist_ids@.len() == rec.artist_ids@.len(),
        text::texts(row.source_paths@).contains(s) <==> exists|i: int|
            0 <= i < rec.sources@.len() && (#[trigger] rec.sources@[i]).file_path is Some
                && rec.sources@[i].file_path->0@ == s,
{
    let f = |x: RawSource| text::opt_text(x.file_path);
    assert(text::texts(row.tags@).len() == row.tags@.len());
    assert(text::texts(row.artist_ids@).len() == row.artist_ids@.len());
    assert(text::texts(rec.tags@).len() == rec.tags@.len());
    assert(text::texts(rec.artist_ids@).len() == rec.artist_ids@.len());
    if text::texts(row.source_paths@).contains(s) {
        text::lemma_filter_map_source(rec.sources@, f, s);
        let i = choose|i: int| 0 <= i < rec.sources@.len() && f(#[trigger] rec.sources@[i]) == Some(
            s,
        );
        assert(rec.sources@[i].file_path->0@ == s);
    }
    if exists|i: int|
        0 <= i < rec.sources@.len() && (#[trigger] rec.sources@[i]).file_path is Some
            && rec.sources@[i].file_path->0@ == s {
        let i = choose|i: int|
            0 <= i < rec.sources@.len() && (#[trigger] rec.sources@[i]).file_path is Some
                && rec.sources@[i].file_path->0@ == s;
        text::lemma_filter_map_keeps(rec.sources@, f, i);
    }
}

/// A recording is listed with its first local file, where it has one.
pub proof fn law_row_names_first_local_file(
    row: RecordingRow,
    rec: MemRecording,
    c: MemoryCatalog,
    m: int,
)
    requires
        lists::lists_recording(row, rec, c),
        0 <= m < rec.sources@.len(),
        rec.sources@[m].source_type@ == "local_file"@,
        forall|j: int| 0 <= j < m ==> (#[trigger] rec.sources@[j]).source_type@ != "local_file"@,
    ensures
        text::opt_text(row.primary_source_id) == Some(rec.sources@[m].id@),
        text::opt_text(row.primary_source_path) == text::opt_text(rec.sources@[m].file_path),
        ratings::leads_with(rec, rec.sources@[m].id@),
{
    let kinds = rec.sources@.map_values(|s: RawSource| s.source_type@);
    assert forall|j: int| 0 <= j < m implies kinds[j] != "local_file"@ by {
        assert(rec.sources@[j].source_type@ != "local_file"@);
    }
    text::lemma_first_at_is(kinds, "local_file"@, m);
}

/// The local files of several recordings are just those sources of theirs that are
/// local files and have a path.
pub proof fn law_local_paths_are_exact(recs: Seq<MemRecording>, places: Seq<int>, p: Seq<char>)
    ensures
        lists::local_paths(recs, places).contains(p) <==> exists|k: int, i: int|
            #![trigger recs[places[k]].sources@[i]]
            0 <= k < places.len() && 0 <= i < recs[places[k]].sources@.len()
                && recs[places[k]].sources@[i].source_type@ == "local_file"@
                && recs[places[k]].sources@[i].file_path is Some
                && recs[places[k]].sources@[i].file_path->0@ == p,
{
    let f = |s: RawSource|
        if s.source_type@ == "local_file"@ {
            text::opt_text(s.file_path)
        } else {
            None
        };
    let g = |i: int| recs[i].sources@.filter_map(f);
    let table = places.map_values(g);
    assert(lists::local_paths(recs, places) == table.flatten()) by {
        assert(table =~= places.map_values(
            |i: int|
                recs[i].sources@.filter_map(
                    |s: RawSource|
                        if s.source_type@ == "local_file"@ {
                            text::opt_text(s.file_path)
                        } else {
                            None
                        },
                ),
        ));
    }
    if table.flatten().contains(p) {
        text::lemma_flatten_contains(table, p);
        let k = choose|k: int| 0 <= k < table.len() && (#[trigger] table[k]).contains(p);
        text::lemma_filter_map_source(recs[places[k]].sources@, f, p);
        let i = choose|i: int|
            0 <= i < recs[places[k]].sources@.len() && f(
                #[trigger] recs[places[k]].sources@[i],
            ) == Some(p);
        assert(recs[places[k]].sources@[i].file_path->0@ == p);
    }
    if exists|k: int, i: int|
        #![trigger recs[places[k]].sources@[i]]
        0 <= k < places.len() && 0 <= i < recs[places[k]].sources@.len()
            && recs[places[k]].sources@[i].source_type@ == "local_file"@
            && recs[places[k]].sources@[i].file_path is Some
            && recs[places[k]].sources@[i].file_path->0@ == p {
        let (k, i) = choose|k: int, i: int|
            #![trigger recs[places[k]].sources@[i]]
            0 <= k < places.len() && 0 <= i < recs[places[k]].sources@.len()
                && recs[places[k]].sources@[i].source_type@ == "local_file"@
                && recs[places[k]].sources@[i].file_path is Some
                && recs[places[k]].sources@[i].file_path->0@ == p;
        text::lemma_filter_map_keeps(recs[places[k]].sources@, f, i);
        let j = choose|j: int| 0 <= j < table[k].len() && table[k][j] == p;
        lemma_in_rows(table, k, j);
    }
}

proof fn lemma_in_rows<A>(s: Seq<Seq<A>>, i: int, j: int)
    requires
        0 <= i < s.len(),
        0 <= j < s[i].len(),
    ensures
        s.flatten().contains(s[i][j]),
    decreases s.len(),
{
    let x = s[i][j];
    if i == 0 {
        assert(s.flatten()[j] == x);
    } else {
        lemma_in_rows(s.drop_first(), i - 1, j);
        let rest = s.drop_first().flatten();
        let k = choose|k: int| 0 <= k < rest.len() && rest[k] == x;
        assert(s.flatten()[s.first().len() + k] == x);
    }
}

/// Texts that are listed once and in order are the same texts, without repetition, in
/// the order of a dictionary.
pub proof fn law_texts_are_listed_in_order(s: Seq<Seq<char>>, x: Seq<char>)
    ensures
        lists::sorted_distinct(s).contains(x) <==> s.contains(x),
        lists::sorted_distinct(s).no_duplicates(),
        forall|i: int, j: int|
            0 <= i < j < lists::sorted_distinct(s).len() ==> text::text_le(
                #[trigger] lists::sorted_distinct(s)[i],
                #[trigger] lists::sorted_distinct(s)[j],
            ),
{
    let d = text::distinct(s);
    let le = sorting::text_order();
    let r = lists::sorted_distinct(s);
    text::lemma_distinct(s);
    sorting::lemma_text_order();
    sorting::lemma_sort_contains(d, le, x);
    sorting::law_sort_orders(d, le);
    sorting::lemma_sort_keeps_distinct(d, le, |t: Seq<char>| t);
    assert(d.map_values(|t: Seq<char>| t) =~= d);
    assert(r.map_values(|t: Seq<char>| t) =~= r);
    assert forall|i: int, j: int| 0 <= i < j < r.len() implies text::text_le(
        #[trigger] r[i],
        #[trigger] r[j],
    ) by {
        assert(le(r[i], r[j]));
    }
}

/// All tags are those that some recording carries.
pub proof fn law_every_tag_is_carried(recs: Seq<MemRecording>, tag: Seq<char>)
    ensures
        lists::every_tag(recs).contains(tag) <==> exists|i: int|
            0 <= i < recs.len() && text::texts((#[trigger] recs[i]).tags@).contains(tag),
{
    let table = recs.map_values(|r: MemRecording| text::texts(r.tags@));
    if table.flatten().contains(tag) {
        text::lemma_flatten_contains(table, tag);
        let i = choose|i: int| 0 <= i < table.len() && (#[trigger] table[i]).contains(tag);
        assert(text::texts(recs[i].tags@).contains(tag));
    }
    if exists|i: int| 0 <= i < recs.len() && text::texts((#[trigger] recs[i]).tags@).contains(tag) {
        let i = choose|i: int|
            0 <= i < recs.len() && text::texts((#[trigger] recs[i]).tags@).contains(tag);
        let j = choose|j: int| 0 <= j < table[i].len() && table[i][j] == tag;
        lemma_in_rows(table, i, j);
    }
}

/// A search lists the release groups whose title or credit contains the text, without
/// regard to case; an artist narrows them to those on which they are credited.
pub proof fn law_groups_are_searched(
    recs: Seq<MemRecording>,
    g: MemReleaseGroup,
    artist: Seq<char>,
    search: Seq<char>,
)
    ensures
        lists::group_listed(recs, None, None)(g),
        lists::group_listed(recs, None, Some(search))(g) <==> text::has_part(
            text::lowercase(g.title@),
            text::lowercase(search),
        ) || (g.artist_credit_name is Some && text::has_part(
            text::lowercase(g.artist_credit_name->0@),
            text::lowercase(search),
        )),
        lists::group_listed(recs, Some(artist), None)(g) <==> exists|i: int|
            0 <= i < recs.len() && appears::is_in(#[trigger] recs[i], g.id@) && text::texts(
                recs[i].artist_ids@,
            ).contains(artist),
        lists::group_listed(recs, Some(artist), Some(search))(g) <==> lists::group_listed(
            recs,
            Some(artist),
            None,
        )(g) && lists::group_listed(recs, None, Some(search))(g),
{
}

// ── Appearances ──────────────────────────────────────────────────────────────

/// A recording stands on a release group where the first of its tags that name the
/// group place it: those that describe it, and then those of its sources in turn.
pub proof fn law_first_tags_place_a_recording(r: MemRecording, k: int, id: Seq<char>)
    requires
        appears::placed_views(r.placements@) == appears::placements(r.sources@),
        0 <= k < appears::every_tags(r.sources@).len(),
        described::group_of(appears::every_tags(r.sources@)[k]) == Some(id),
        forall|j: int|
            0 <= j < k ==> described::group_of(#[trigger] appears::every_tags(r.sources@)[j])
                != Some(id),
    ensures
        appears::is_in(r, id),
        appears::track_in(r, id) == described::track_of(appears::every_tags(r.sources@)[k]),
        appears::disc_in(r, id) == described::disc_of(appears::every_tags(r.sources@)[k]),
{
    let f = |t: described::Tags| appears::placement(t);
    let tags = appears::every_tags(r.sources@);
    let all = tags.filter_map(f);
    appears::lemma_in_by_tags(r, id);
    lemma_first_named(tags, k, id);
    let kept = appears::first_placements(all);
    let ids = appears::groups_in(r);
    let n = text::first_at(ids, id);
    text::lemma_first_at(ids, id);
    assert(ids[n] == id);
    assert(kept[n] == r.placements@[n]@);
    lemma_first_kept(all, kept[n]);
}

/// The first tags that name a group give the first placement in it.
proof fn lemma_first_named(tags: Seq<described::Tags>, k: int, id: Seq<char>)
    requires
        0 <= k < tags.len(),
        described::group_of(tags[k]) == Some(id),
        forall|j: int| 0 <= j < k ==> described::group_of(#[trigger] tags[j]) != Some(id),
    ensures
        ({
            let all = tags.filter_map(|t: described::Tags| appears::placement(t));
            exists|m: int|
                0 <= m < all.len() && #[trigger] all[m] == appears::placement(tags[k])->0 && forall|
                    j: int,
                |
                    0 <= j < m ==> (#[trigger] all[j]).0 != id
        }),
    decreases tags.len(),
{
    let f = |t: described::Tags| appears::placement(t);
    let n = tags.len() - 1;
    let all = tags.filter_map(f);
    tags.lemma_filter_map_take_succ(f, n);
    assert(tags.take(n + 1) =~= tags);
    let before = tags.take(n).filter_map(f);
    if k < n {
        assert forall|j: int| 0 <= j < k implies described::group_of(
            #[trigger] tags.take(n)[j],
        ) != Some(id) by {
            assert(tags[j] == tags.take(n)[j]);
        }
        lemma_first_named(tags.take(n), k, id);
        let m = choose|m: int|
            0 <= m < before.len() && #[trigger] before[m] == appears::placement(tags[k])->0
                && forall|j: int| 0 <= j < m ==> (#[trigger] before[j]).0 != id;
        assert(all[m] == before[m]);
        assert forall|j: int| 0 <= j < m implies (#[trigger] all[j]).0 != id by {
            assert(all[j] == before[j]);
        }
    } else {
        let m = before.len() as int;
        assert(all[m] == appears::placement(tags[k])->0);
        assert forall|j: int| 0 <= j < m implies (#[trigger] all[j]).0 != id by {
            assert(all[j] == before[j]);
            assert(before.contains(before[j]));
            text::lemma_filter_map_source(tags.take(n), f, before[j]);
            let i = choose|i: int|
                0 <= i < tags.take(n).len() && f(#[trigger] tags.take(n)[i]) == Some(before[j]);
            assert(described::group_of(tags[i]) != Some(id));
        }
    }
}

/// A placement that is kept is the first in its group.
proof fn lemma_first_kept(all: Seq<appears::Placement>, p: appears::Placement)
    requires
        appears::first_placements(all).contains(p),
    ensures
        exists|m: int|
            0 <= m < all.len() && #[trigger] all[m] == p && forall|j: int|
                0 <= j < m ==> (#[trigger] all[j]).0 != p.0,
        forall|m: int|
            0 <= m < all.len() && (#[trigger] all[m]).0 == p.0 && (forall|j: int|
                0 <= j < m ==> (#[trigger] all[j]).0 != p.0) ==> all[m] == p,
    decreases all.len(),
{
    if all.len() > 0 {
        let front = all.drop_last();
        let kept = appears::first_placements(front);
        let n = all.len() - 1;
        if kept.contains(p) {
            lemma_first_kept(front, p);
            let m = choose|m: int|
                0 <= m < front.len() && #[trigger] front[m] == p && forall|j: int|
                    0 <= j < m ==> (#[trigger] front[j]).0 != p.0;
            assert(all[m] == p);
            assert forall|j: int| 0 <= j < m implies (#[trigger] all[j]).0 != p.0 by {
                assert(all[j] == front[j]);
            }
        } else {
            let k = choose|k: int|
                0 <= k < appears::first_placements(all).len() && appears::first_placements(all)[k]
                    == p;
            if k < kept.len() {
                assert(kept[k] == p);
            }
            assert(p == all[n]);
            assert(!appears::placed_ids(kept).contains(p.0));
            appears::lemma_first_placements(front);
            assert(!appears::placed_ids(front).contains(p.0));
            assert forall|j: int| 0 <= j < n implies (#[trigger] all[j]).0 != p.0 by {
                assert(appears::placed_ids(front)[j] == all[j].0);
            }
        }
        let m = choose|m: int|
            0 <= m < all.len() && #[trigger] all[m] == p && forall|j: int|
                0 <= j < m ==> (#[trigger] all[j]).0 != p.0;
        assert forall|x: int|
            0 <= x < all.len() && (#[trigger] all[x]).0 == p.0 && (forall|j: int|
                0 <= j < x ==> (#[trigger] all[j]).0 != p.0) implies all[x] == p by {
            if x < m {
                assert(all[x].0 != p.0);
            } else if m < x {
                assert(all[m].0 != p.0);
            }
        }
    }
}

// ── Guests ───────────────────────────────────────────────────────────────────

/// An artist is a guest on just the release groups that are not theirs and that hold a
/// recording on which they are credited behind another artist.
pub proof fn law_guests_are_credited_behind_others(
    c: MemoryCatalog,
    artist: Seq<char>,
    group: Seq<char>,
)
    ensures
        artists::guest_groups(c, artist).contains(group) <==> (exists|i: int|
            0 <= i < c.recordings@.len() && appears::is_in(#[trigger] c.recordings@[i], group)
                && text::texts(c.recordings@[i].artist_ids@).contains(artist)
                && c.recordings@[i].artist_ids@[0]@ != artist) && !(exists|i: int|
            0 <= i < c.release_groups@.len() && (#[trigger] c.release_groups@[i]).id@ == group
                && c.release_groups@[i].artist_id is Some && c.release_groups@[i].artist_id->0@
                == artist),
{
    let recs = c.recordings@;
    let places = lists::artist_recordings(recs, artist);
    let f = |i: int| artists::guest_ids(c, artist, i);
    let table = places.map_values(f);
    let keep = |i: int| |g: Seq<char>| artists::guest_in(c, artist, i, g);
    lists::law_recordings_count_once(recs, artist);
    text::lemma_distinct(table.flatten());
    if artists::guest_groups(c, artist).contains(group) {
        assert(table.flatten().contains(group));
        text::lemma_flatten_contains(table, group);
        let k = choose|k: int| 0 <= k < table.len() && (#[trigger] table[k]).contains(group);
        let i = places[k];
        assert(places.contains(i));
        lemma_artist_places(recs, artist, i);
        let ids = appears::groups_in(recs[i]);
        let g = |group: Seq<char>| artists::guest_in(c, artist, i, group);
        assert(table[k] == ids.filter(g));
        ids.lemma_filter_contains_rev(g, group);
        let j = choose|j: int| 0 <= j < ids.filter(g).len() && ids.filter(g)[j] == group;
        ids.lemma_filter_pred(g, j);
        assert(appears::is_in(recs[i], group));
    }
    if (exists|i: int|
        0 <= i < recs.len() && appears::is_in(#[trigger] recs[i], group) && text::texts(
            recs[i].artist_ids@,
        ).contains(artist) && recs[i].artist_ids@[0]@ != artist) && !artists::owns_group(
        c.release_groups@,
        artist,
        group,
    ) {
        let i = choose|i: int|
            0 <= i < recs.len() && appears::is_in(#[trigger] recs[i], group) && text::texts(
                recs[i].artist_ids@,
            ).contains(artist) && recs[i].artist_ids@[0]@ != artist;
        assert(places.contains(i));
        let k = choose|k: int| 0 <= k < places.len() && places[k] == i;
        let ids = appears::groups_in(recs[i]);
        let g = |group: Seq<char>| artists::guest_in(c, artist, i, group);
        let m = choose|m: int| 0 <= m < ids.len() && ids[m] == group;
        assert(text::texts(recs[i].artist_ids@).len() == recs[i].artist_ids@.len());
        assert(g(ids[m]));
        ids.lemma_filter_contains(g, m);
        assert(table[k] == ids.filter(g));
        let j = choose|j: int| 0 <= j < table[k].len() && table[k][j] == group;
        lemma_in_rows(table, k, j);
    }
}

// ── Rating updates ───────────────────────────────────────────────────────────

/// A new rating affects just the other recordings that share an artist or a release
/// group with the rated one, and tells their own ratings.
pub proof fn law_rating_affects_what_shares(
    c: MemoryCatalog,
    rated: MemRecording,
    u: ratings::Update,
)
    ensures
        c.recordings@.filter_map(ratings::affected_update(rated)).contains(u) <==> exists|i: int|
            0 <= i < c.recordings@.len() && {
                let r = #[trigger] c.recordings@[i];
                &&& r.id@ != rated.id@
                &&& ratings::share_artist(rated, r) || ratings::share_group(rated, r)
                &&& u == ratings::own_rating(r)
            },
{
    let f = ratings::affected_update(rated);
    if c.recordings@.filter_map(f).contains(u) {
        text::lemma_filter_map_source(c.recordings@, f, u);
    }
    if exists|i: int|
        0 <= i < c.recordings@.len() && {
            let r = #[trigger] c.recordings@[i];
            &&& r.id@ != rated.id@
            &&& ratings::share_artist(rated, r) || ratings::share_group(rated, r)
            &&& u == ratings::own_rating(r)
        } {
        let i = choose|i: int|
            0 <= i < c.recordings@.len() && {
                let r = #[trigger] c.recordings@[i];
                &&& r.id@ != rated.id@
                &&& ratings::share_artist(rated, r) || ratings::share_group(rated, r)
                &&& u == ratings::own_rating(r)
            };
        text::lemma_filter_map_keeps(c.recordings@, f, i);
    }
}

/// Recordings share an artist where some artist is credited on both, and a release
/// group where both are in it; both go either way.
pub proof fn law_sharing_goes_both_ways(a: MemRecording, b: MemRecording)
    ensures
        ratings::share_artist(a, b) <==> exists|id: Seq<char>|
            #[trigger] text::texts(a.artist_ids@).contains(id) && text::texts(
                b.artist_ids@,
            ).contains(id),
        ratings::share_group(a, b) <==> exists|id: Seq<char>|
            #[trigger] appears::is_in(a, id) && appears::is_in(b, id),
{
    let x = text::texts(a.artist_ids@);
    let y = text::texts(b.artist_ids@);
    if ratings::share_artist(a, b) {
        let i = choose|i: int|
            0 <= i < b.artist_ids@.len() && x.contains((#[trigger] b.artist_ids@[i])@);
        assert(y[i] == b.artist_ids@[i]@);
        assert(x.contains(y[i]) && y.contains(y[i]));
    }
    if exists|id: Seq<char>| #[trigger] x.contains(id) && y.contains(id) {
        let id = choose|id: Seq<char>| #[trigger] x.contains(id) && y.contains(id);
        let i = choose|i: int| 0 <= i < y.len() && y[i] == id;
        assert(x.contains(b.artist_ids@[i]@));
    }
    let g = appears::groups_in(b);
    if ratings::share_group(a, b) {
        let i = choose|i: int|
            0 <= i < b.placements@.len() && appears::is_in(a, (#[trigger] b.placements@[i]).id@);
        assert(g[i] == b.placements@[i].id@);
        assert(appears::is_in(a, g[i]) && appears::is_in(b, g[i]));
    }
    if exists|id: Seq<char>| #[trigger] appears::is_in(a, id) && appears::is_in(b, id) {
        let id = choose|id: Seq<char>| #[trigger] appears::is_in(a, id) && appears::is_in(b, id);
        let i = choose|i: int| 0 <= i < g.len() && g[i] == id;
        assert(appears::is_in(a, b.placements@[i].id@));
    }
}

/// A new rating of a file tells the rating of its recording, which is the first that
/// has a source with that path, and of the artists and release groups of that recording
/// which the catalogue knows.
pub proof fn law_rating_reaches_recording_artists_and_groups(
    u: RecordingRatingUpdateResult,
    c: MemoryCatalog,
    path: Seq<char>,
    i: int,
)
    requires
        ratings::tells_update(u, c, Some(path)),
        0 <= i < c.recordings@.len(),
        exists|m: int|
            0 <= m < c.recordings@[i].sources@.len() && (
            #[trigger] c.recordings@[i].sources@[m]).file_path is Some
                && c.recordings@[i].sources@[m].file_path->0@ == path,
        forall|j: int, m: int|
            #![trigger c.recordings@[j].sources@[m]]
            0 <= j < i && 0 <= m < c.recordings@[j].sources@.len()
                && c.recordings@[j].sources@[m].file_path is Some
                ==> c.recordings@[j].sources@[m].file_path->0@ != path,
    ensures
        u.recording.id@ == c.recordings@[i].id@,
        match super::recording_rating(c.recordings@[i]) {
            Some(m) => u.recording.ratings@ == seq![m],
            None => u.recording.ratings@.len() == 0,
        },
        forall|a: int, k: int|
            #![trigger c.recordings@[i].artist_ids@[a], c.artists@[k]]
            0 <= a < c.recordings@[i].artist_ids@.len() && 0 <= k < c.artists@.len()
                && c.artists@[k].id@ == c.recordings@[i].artist_ids@[a]@ ==> ratings::updates(
                u.artists@,
            ).contains(
                (
                    c.artists@[k].id@,
                    lists::ratings_of(
                        c.recordings@,
                        lists::artist_recordings(c.recordings@, c.artists@[k].id@),
                    ),
                ),
            ),
        forall|g: int, k: int|
            #![trigger c.recordings@[i].placements@[g], c.release_groups@[k]]
            0 <= g < c.recordings@[i].placements@.len() && 0 <= k < c.release_groups@.len()
                && c.release_groups@[k].id@ == c.recordings@[i].placements@[g].id@
                ==> ratings::updates(u.release_groups@).contains(
                (
                    c.release_groups@[k].id@,
                    lists::ratings_of(
                        c.recordings@,
                        lists::group_recordings(c.recordings@, c.release_groups@[k].id@),
                    ),
                ),
            ),
{
    let recs = c.recordings@;
    let f = |s: RawSource| text::opt_text(s.file_path);
    let marks = recs.map_values(|r: MemRecording| ratings::paths(r).contains(path));
    let m = choose|m: int|
        0 <= m < recs[i].sources@.len() && (#[trigger] recs[i].sources@[m]).file_path is Some
            && recs[i].sources@[m].file_path->0@ == path;
    text::lemma_filter_map_keeps(recs[i].sources@, f, m);
    assert(marks[i]);
    assert forall|j: int| 0 <= j < i implies marks[j] != true by {
        if marks[j] {
            text::lemma_filter_map_source(recs[j].sources@, f, path);
            let m = choose|m: int|
                0 <= m < recs[j].sources@.len() && f(#[trigger] recs[j].sources@[m]) == Some(path);
            assert(recs[j].sources@[m].file_path->0@ != path);
        }
    }
    text::lemma_first_at_is(marks, true, i);
    let rated = recs[i];
    let by_artist = |id: Seq<char>| ratings::artist_update(c, id);
    let by_group = |id: Seq<char>| ratings::group_update(c, id);
    let credited = text::texts(rated.artist_ids@);
    let groups = appears::groups_in(rated);
    let artist_ids = c.artists@.map_values(|a: super::MemArtist| a.id@);
    let group_ids = c.release_groups@.map_values(|g: MemReleaseGroup| g.id@);
    assert forall|a: int, k: int|
        #![trigger rated.artist_ids@[a], c.artists@[k]]
        0 <= a < rated.artist_ids@.len() && 0 <= k < c.artists@.len() && c.artists@[k].id@
            == rated.artist_ids@[a]@ implies ratings::updates(u.artists@).contains(
        (
            c.artists@[k].id@,
            lists::ratings_of(recs, lists::artist_recordings(recs, c.artists@[k].id@)),
        ),
    ) by {
        let id = c.artists@[k].id@;
        assert(artist_ids[k] == id);
        text::lemma_first_at(artist_ids, id);
        assert(credited[a] == id);
        text::lemma_filter_map_keeps(credited, by_artist, a);
    }
    assert forall|g: int, k: int|
        #![trigger rated.placements@[g], c.release_groups@[k]]
        0 <= g < rated.placements@.len() && 0 <= k < c.release_groups@.len()
            && c.release_groups@[k].id@ == rated.placements@[g].id@ implies ratings::updates(
        u.release_groups@,
    ).contains(
        (
            c.release_groups@[k].id@,
            lists::ratings_of(recs, lists::group_recordings(recs, c.release_groups@[k].id@)),
        ),
    ) by {
        let id = c.release_groups@[k].id@;
        assert(group_ids[k] == id);
        text::lemma_first_at(group_ids, id);
        assert(groups[g] == id);
        text::lemma_filter_map_keeps(groups, by_group, g);
    }
}

// ── Artists ──────────────────────────────────────────────────────────────────

/// An artist is shown with all release groups that are theirs, by title, and with the
/// ones on which they are a guest, by title.
pub proof fn law_artist_is_shown_with_groups(
    d: ArtistDetail,
    c: MemoryCatalog,
    place: int,
    id: Seq<char>,
    k: int,
)
    requires
        artists::tells_artist(d, c, place, id),
        0 <= k < c.release_groups@.len(),
        c.release_groups@[k].artist_id is Some,
        c.release_groups@[k].artist_id->0@ == id,
    ensures
        d.id@ == c.artists@[place].id@,
        d.name@ == c.artists@[place].name@,
        exists|i: int|
            0 <= i < d.release_groups@.len() && (#[trigger] d.release_groups@[i]).id
                == c.release_groups@[k].id && d.release_groups@[i].title
                == c.release_groups@[k].title,
        forall|i: int, j: int|
            0 <= i < j < d.release_groups@.len() ==> text::text_le(
                (#[trigger] d.release_groups@[i]).title@,
                (#[trigger] d.release_groups@[j]).title@,
            ),
        forall|i: int, j: int|
            0 <= i < j < d.guest_appearances@.len() ==> text::text_le(
                (#[trigger] d.guest_appearances@[i]).title@,
                (#[trigger] d.guest_appearances@[j]).title@,
            ),
{
    let owned = lists::owned_groups(c.release_groups@, id);
    law_owned_groups_are_exact(c.release_groups@, id);
    assert(owned.contains(k));
    let groups = choose|groups: Seq<ArtistReleaseGroup>|
        #[trigger] artists::tell_owned_groups(groups, c, owned) && d.release_groups@
            == sorting::stable_sort(groups, artists::owned_order());
    let n = choose|n: int| 0 <= n < owned.len() && owned[n] == k;
    assert(artists::tells_owned(groups[n], c.release_groups@[owned[n]], c));
    artists::lemma_orders();
    assert(groups.contains(groups[n]));
    sorting::lemma_sort_contains(groups, artists::owned_order(), groups[n]);
    let i = choose|i: int| 0 <= i < d.release_groups@.len() && d.release_groups@[i] == groups[n];
    assert(d.release_groups@[i].id == c.release_groups@[k].id);
    sorting::law_sort_orders(groups, artists::owned_order());
    assert forall|i: int, j: int| 0 <= i < j < d.release_groups@.len() implies text::text_le(
        (#[trigger] d.release_groups@[i]).title@,
        (#[trigger] d.release_groups@[j]).title@,
    ) by {
        assert(artists::owned_order()(d.release_groups@[i], d.release_groups@[j]));
    }
    let places = lists::artist_recordings(c.recordings@, id);
    let guests = choose|guests: Seq<GuestAppearanceReleaseGroup>|
        #[trigger] artists::tell_guests(
            guests,
            c,
            id,
            artists::as_places(places),
            artists::guest_groups(c, id).filter(artists::known_group(c)),
        ) && d.guest_appearances@ == sorting::stable_sort(guests, artists::guest_order());
    sorting::law_sort_orders(guests, artists::guest_order());
    assert forall|i: int, j: int| 0 <= i < j < d.guest_appearances@.len() implies text::text_le(
        (#[trigger] d.guest_appearances@[i]).title@,
        (#[trigger] d.guest_appearances@[j]).title@,
    ) by {
        assert(artists::guest_order()(d.guest_appearances@[i], d.guest_appearances@[j]));
    }
}

} // verus!
