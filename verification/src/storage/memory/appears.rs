//! The release groups on which a recording appears.
//!
//! A recording can have sources from several releases. Each source names its own
//! release group and position, and the recording appears on all of them.
use vstd::prelude::*;
use crate::models::ReleaseInfo;
use crate::sorting;
use crate::sorting::sort_vec;
use crate::text;
use crate::text::{same_text, str_le};
use super::described;
use super::described::{disc_position, group_id, track_position};
use super::lists;
use super::rows;
use super::rows::describing_tags;
use super::{parse_trck_total, tag_first, MemRecording, MemoryCatalog, Placed, RawSource};

verus! {

// ── Meaning ──────────────────────────────────────────────────────────────────

/// Where tags place a recording: release group, track, disc and number of tracks.
pub type Placement = (Seq<char>, Option<i64>, Option<i64>, Option<i64>);

/// A release group on which a recording appears: identifier, title, track, disc
/// and number of discs.
pub type Appearance = (Seq<char>, Seq<char>, Option<i64>, Option<i64>, Option<i64>);

impl View for Placed {
    type V = (Seq<char>, Option<i64>, Option<i64>, Option<i64>);

    open spec fn view(&self) -> Placement {
        (self.id@, self.track, self.disc, self.total)
    }
}

/// The number of tracks that tags claim.
pub open spec fn total_of(t: described::Tags) -> Option<i64> {
    match super::tag_value(t, "TRCK"@) {
        Some(v) => super::slash_number(v, 1),
        None => None,
    }
}

/// Where tags place a recording, if they name an album and an artist.
pub open spec fn placement(t: described::Tags) -> Option<Placement> {
    match described::group_of(t) {
        Some(id) => Some((id, described::track_of(t), described::disc_of(t), total_of(t))),
        None => None,
    }
}

/// The tags of a recording: those that describe it, and then those of each source.
pub open spec fn every_tags(sources: Seq<RawSource>) -> Seq<described::Tags> {
    seq![rows::main_tags(sources)] + sources.map_values(|s: RawSource| text::pairs(s.tags@))
}

/// The release groups of placements.
pub open spec fn placed_ids(s: Seq<Placement>) -> Seq<Seq<char>> {
    s.map_values(|p: Placement| p.0)
}

/// Of the placements in one release group, the first.
pub open spec fn first_placements(s: Seq<Placement>) -> Seq<Placement>
    decreases s.len(),
{
    if s.len() == 0 {
        s
    } else {
        let front = first_placements(s.drop_last());
        if placed_ids(front).contains(s.last().0) {
            front
        } else {
            front.push(s.last())
        }
    }
}

/// Where the sources of a recording place it, each release group once.
pub open spec fn placements(sources: Seq<RawSource>) -> Seq<Placement> {
    first_placements(every_tags(sources).filter_map(|t: described::Tags| placement(t)))
}

/// What placements say.
pub open spec fn placed_views(v: Seq<Placed>) -> Seq<Placement> {
    v.map_values(|p: Placed| p@)
}

/// The release groups of a recording.
pub open spec fn groups_in(r: MemRecording) -> Seq<Seq<char>> {
    placed_ids(placed_views(r.placements@))
}

/// Whether a recording is in a release group.
pub open spec fn is_in(r: MemRecording, id: Seq<char>) -> bool {
    groups_in(r).contains(id)
}

/// Where a recording stands in a release group.
pub open spec fn placement_in(r: MemRecording, id: Seq<char>) -> Option<Placement> {
    if is_in(r, id) {
        Some(r.placements@[text::first_at(groups_in(r), id)]@)
    } else {
        None
    }
}

/// The track at which a recording stands in a release group, if it is known.
pub open spec fn track_in(r: MemRecording, id: Seq<char>) -> Option<i64> {
    match placement_in(r, id) {
        Some(p) => p.1,
        None => None,
    }
}

/// The disc on which a recording stands in a release group, if it is known.
pub open spec fn disc_in(r: MemRecording, id: Seq<char>) -> Option<i64> {
    match placement_in(r, id) {
        Some(p) => p.2,
        None => None,
    }
}

/// A placement as it is shown.
pub open spec fn shown(p: Placement, c: MemoryCatalog) -> Appearance {
    (
        p.0,
        lists::group_title(c.release_groups@, p.0),
        p.1,
        p.2,
        lists::disc_total_of(c.recordings@, p.0),
    )
}

/// The order of appearances by title.
pub open spec fn title_order() -> spec_fn(Appearance, Appearance) -> bool {
    |a: Appearance, b: Appearance| text::text_le(a.1, b.1)
}

/// The release groups on which a recording appears, by title.
pub open spec fn appearances(rec: MemRecording, c: MemoryCatalog) -> Seq<Appearance> {
    sorting::stable_sort(
        placed_views(rec.placements@).map_values(|p: Placement| shown(p, c)),
        title_order(),
    )
}

/// What is told of a release group.
pub open spec fn info_view(i: ReleaseInfo) -> Appearance {
    (
        i.release_group_id@,
        i.release_group_title@,
        i.track_position,
        i.disc_position,
        i.disc_total,
    )
}

/// What is told of release groups.
pub open spec fn info_views(v: Seq<ReleaseInfo>) -> Seq<Appearance> {
    v.map_values(|i: ReleaseInfo| info_view(i))
}

// ── Executable ───────────────────────────────────────────────────────────────

/// Where tags place a recording.
pub(crate) fn place(tags: &[(String, String)]) -> (r: Option<Placed>)
    ensures
        match r {
            Some(p) => placement(text::pairs(tags@)) == Some(p@),
            None => placement(text::pairs(tags@)) is None,
        },
{
    match group_id(tags) {
        Some(id) => {
            let total = match tag_first(tags, "TRCK") {
                Some(v) => parse_trck_total(v),
                None => None,
            };
            Some(
                Placed { id, track: track_position(tags), disc: disc_position(tags), total },
            )
        },
        None => None,
    }
}

/// Adds a placement unless its release group is there already.
fn add_placed(out: &mut Vec<Placed>, found: Option<Placed>, Ghost(seen): Ghost<Seq<Placement>>)
    requires
        placed_views(old(out)@) == first_placements(seen),
    ensures
        placed_views(final(out)@) == first_placements(
            match found {
                Some(p) => seen.push(p@),
                None => seen,
            },
        ),
{
    if let Some(p) = found {
        let ghost before = placed_views(out@);
        let ghost ids = placed_ids(before);
        assert(seen.push(p@).drop_last() =~= seen);
        let mut i: usize = 0;
        while i < out.len()
            invariant
                i <= out@.len(),
                out@ == old(out)@,
                before == placed_views(out@),
                before == first_placements(seen),
                ids == placed_ids(before),
                seen.push(p@).drop_last() == seen,
                found == Some(p),
                forall|k: int| 0 <= k < i ==> ids[k] != p.id@,
            decreases out@.len() - i,
        {
            assert(ids[i as int] == out@[i as int].id@);
            if same_text(&out[i].id, &p.id) {
                assert(ids.contains(p@.0));
                return;
            }
            i = i + 1;
        }
        assert(!ids.contains(p@.0));
        out.push(p);
        assert(placed_views(out@) =~= before.push(p@));
    }
}

/// Where the sources of a recording place it.
pub(crate) fn place_all(sources: &Vec<RawSource>) -> (r: Vec<Placed>)
    ensures
        placed_views(r@) == placements(sources@),
{
    let ghost f = |t: described::Tags| placement(t);
    let ghost all = every_tags(sources@);
    let mut r: Vec<Placed> = Vec::new();
    proof {
        assert(placed_views(r@) =~= first_placements(Seq::empty()));
        assert(all.take(0) =~= Seq::empty());
        all.lemma_filter_map_take_succ(f, 0);
        assert(all[0] == rows::main_tags(sources@));
        assert(all.take(0).filter_map(f) =~= Seq::<Placement>::empty());
    }
    if sources.len() > 0 {
        let found = place(describing_tags(sources));
        proof {
            if found is Some {
                assert(all.take(1).filter_map(f) =~= Seq::<Placement>::empty().push(found->0@));
            } else {
                assert(all.take(1).filter_map(f) =~= Seq::<Placement>::empty());
            }
        }
        add_placed(&mut r, found, Ghost(Seq::empty()));
    } else {
        assert(super::tag_value(rows::main_tags(sources@), "TALB"@) is None);
        assert(all.take(1).filter_map(f) =~= Seq::<Placement>::empty());
    }
    let mut i: usize = 0;
    while i < sources.len()
        invariant
            i <= sources@.len(),
            all == every_tags(sources@),
            f == (|t: described::Tags| placement(t)),
            placed_views(r@) == first_placements(
                all.take(i + 1).filter_map(f),
            ),
        decreases sources@.len() - i,
    {
        let ghost seen = all.take(i + 1).filter_map(f);
        let found = place(sources[i].tags.as_slice());
        proof {
            all.lemma_filter_map_take_succ(f, i + 1);
            assert(all[i + 1] == text::pairs(sources@[i as int].tags@));
            if found is Some {
                assert(all.take(i + 2).filter_map(f) =~= seen.push(found->0@));
            } else {
                assert(all.take(i + 2).filter_map(f) =~= seen);
            }
        }
        add_placed(&mut r, found, Ghost(seen));
        i = i + 1;
    }
    assert(all.take(all.len() as int) =~= all);
    r
}

proof fn lemma_title_order()
    ensures
        sorting::total_preorder(title_order()),
        sorting::total_preorder(
            |a: ReleaseInfo, b: ReleaseInfo|
                text::text_le(a.release_group_title@, b.release_group_title@),
        ),
{
    let le = title_order();
    assert forall|x: Appearance, y: Appearance| #[trigger] le(x, y) || le(y, x) by {
        text::lemma_text_le_total(x.1, y.1);
    }
    assert forall|x: Appearance, y: Appearance, z: Appearance| #[trigger]
        le(x, y) && #[trigger] le(y, z) implies le(x, z) by {
        text::lemma_text_le_transitive(x.1, y.1, z.1);
    }
    let li = |a: ReleaseInfo, b: ReleaseInfo|
        text::text_le(a.release_group_title@, b.release_group_title@);
    assert forall|x: ReleaseInfo, y: ReleaseInfo| #[trigger] li(x, y) || li(y, x) by {
        text::lemma_text_le_total(x.release_group_title@, y.release_group_title@);
    }
    assert forall|x: ReleaseInfo, y: ReleaseInfo, z: ReleaseInfo| #[trigger]
        li(x, y) && #[trigger] li(y, z) implies li(x, z) by {
        text::lemma_text_le_transitive(
            x.release_group_title@,
            y.release_group_title@,
            z.release_group_title@,
        );
    }
}

/// Where a recording stands in a release group.
pub(crate) fn find_placed<'a>(rec: &'a MemRecording, id: &str) -> (r: Option<&'a Placed>)
    ensures
        match r {
            Some(p) => placement_in(*rec, id@) == Some(p@),
            None => placement_in(*rec, id@) is None,
        },
        r is Some <==> is_in(*rec, id@),
{
    let ghost ids = groups_in(*rec);
    let mut i: usize = 0;
    while i < rec.placements.len()
        invariant
            i <= rec.placements@.len(),
            ids == groups_in(*rec),
            forall|k: int| 0 <= k < i ==> ids[k] != id@,
        decreases rec.placements@.len() - i,
    {
        assert(ids[i as int] == rec.placements@[i as int].id@);
        if same_text(&rec.placements[i].id, id) {
            proof {
                text::lemma_first_at_is(ids, id@, i as int);
                assert(ids.contains(id@));
            }
            return Some(&rec.placements[i]);
        }
        i = i + 1;
    }
    assert(ids.len() == rec.placements@.len());
    None
}

impl MemoryCatalog {
    /// The release groups on which a recording appears, by title.
    pub(crate) fn releases_of(&self, rec: &MemRecording) -> (r: Vec<ReleaseInfo>)
        ensures
            info_views(r@) == appearances(*rec, *self),
    {
        let ghost all = placed_views(rec.placements@).map_values(
            |p: Placement| shown(p, *self),
        );
        let mut infos: Vec<ReleaseInfo> = Vec::new();
        let mut i: usize = 0;
        while i < rec.placements.len()
            invariant
                i <= rec.placements@.len(),
                all == placed_views(rec.placements@).map_values(
                    |p: Placement| shown(p, *self),
                ),
                info_views(infos@) == all.take(i as int),
            decreases rec.placements@.len() - i,
        {
            let p = &rec.placements[i];
            let ghost before = info_views(infos@);
            let release_group_title = match self.find_group(&p.id) {
                Some(g) => self.release_groups[g].title.clone(),
                None => String::new(),
            };
            let info = ReleaseInfo {
                release_group_id: p.id.clone(),
                release_group_title,
                track_position: p.track,
                disc_position: p.disc,
                disc_total: self.disc_total(&p.id),
            };
            infos.push(info);
            proof {
                assert(release_group_title@ =~= lists::group_title(
                    self.release_groups@,
                    p.id@,
                ));
                assert(info_view(info) == all[i as int]);
                assert(info_views(infos@) =~= before.push(all[i as int]));
                assert(all.take(i + 1) =~= all.take(i as int).push(all[i as int]));
            }
            i = i + 1;
        }
        assert(all.take(all.len() as int) =~= all);
        let ghost order = |a: ReleaseInfo, b: ReleaseInfo|
            text::text_le(a.release_group_title@, b.release_group_title@);
        proof {
            lemma_title_order();
            sorting::lemma_sort_map(
                infos@,
                |i: ReleaseInfo| info_view(i),
                order,
                title_order(),
            );
        }
        let le = |a: &ReleaseInfo, b: &ReleaseInfo| -> (r: bool)
            ensures
                r == text::text_le(a.release_group_title@, b.release_group_title@),
            { str_le(&a.release_group_title, &b.release_group_title) };
        sort_vec(infos, le, Ghost(order))
    }
}

// ── Laws ─────────────────────────────────────────────────────────────────────

pub(crate) proof fn lemma_first_placements(s: Seq<Placement>)
    ensures
        placed_ids(first_placements(s)).no_duplicates(),
        forall|x: Seq<char>|
            placed_ids(first_placements(s)).contains(x) <==> #[trigger] placed_ids(s).contains(x),
    decreases s.len(),
{
    if s.len() > 0 {
        let front = s.drop_last();
        let p = s.last();
        lemma_first_placements(front);
        let kept = first_placements(front);
        assert(placed_ids(s) =~= placed_ids(front).push(p.0));
        assert(placed_ids(kept.push(p)) =~= placed_ids(kept).push(p.0));
        assert forall|x: Seq<char>|
            placed_ids(first_placements(s)).contains(x) <==> #[trigger] placed_ids(s).contains(
                x,
            ) by {
            lemma_push_contains(placed_ids(front), p.0, x);
            lemma_push_contains(placed_ids(kept), p.0, x);
            assert(placed_ids(kept).contains(x) <==> placed_ids(front).contains(x));
        }
    }
}

proof fn lemma_push_contains(s: Seq<Seq<char>>, y: Seq<char>, x: Seq<char>)
    ensures
        s.push(y).contains(x) <==> s.contains(x) || x == y,
{
    assert(s.push(y)[s.len() as int] == y);
    if s.contains(x) {
        let i = choose|i: int| 0 <= i < s.len() && s[i] == x;
        assert(s.push(y)[i] == x);
    }
    if s.push(y).contains(x) && x != y {
        let i = choose|i: int| 0 <= i < s.push(y).len() && s.push(y)[i] == x;
        assert(s[i] == x);
    }
}

/// A recording is in just the release groups that some of its tags name.
pub proof fn lemma_in_by_tags(r: MemRecording, id: Seq<char>)
    requires
        placed_views(r.placements@) == placements(r.sources@),
    ensures
        is_in(r, id) <==> exists|k: int|
            0 <= k < every_tags(r.sources@).len() && described::group_of(
                #[trigger] every_tags(r.sources@)[k],
            ) == Some(id),
{
    let f = |t: described::Tags| placement(t);
    let tags = every_tags(r.sources@);
    let all = tags.filter_map(f);
    lemma_first_placements(all);
    assert(is_in(r, id) <==> placed_ids(all).contains(id));
    if placed_ids(all).contains(id) {
        let j = choose|j: int| 0 <= j < placed_ids(all).len() && placed_ids(all)[j] == id;
        assert(all.contains(all[j]));
        text::lemma_filter_map_source(tags, f, all[j]);
        let k = choose|k: int| 0 <= k < tags.len() && f(#[trigger] tags[k]) == Some(all[j]);
        assert(described::group_of(tags[k]) == Some(id));
    }
    if exists|k: int|
        0 <= k < tags.len() && described::group_of(#[trigger] tags[k]) == Some(id) {
        let k = choose|k: int|
            0 <= k < tags.len() && described::group_of(#[trigger] tags[k]) == Some(id);
        text::lemma_filter_map_keeps(tags, f, k);
        let p = placement(tags[k])->0;
        let j = choose|j: int| 0 <= j < all.len() && all[j] == p;
        assert(placed_ids(all)[j] == id);
    }
}

/// A recording appears on every release group that one of its sources names, on
/// each once, and in the order of their titles.
pub proof fn law_appears_on_every_release(rec: MemRecording, c: MemoryCatalog)
    requires
        placed_views(rec.placements@) == placements(rec.sources@),
    ensures
        appearances(rec, c).map_values(|a: Appearance| a.0).no_duplicates(),
        sorting::sorted(appearances(rec, c), title_order()),
        forall|i: int|
            0 <= i < rec.sources@.len() && described::group_of(
                text::pairs((#[trigger] rec.sources@[i]).tags@),
            ) is Some ==> appearances(rec, c).map_values(|a: Appearance| a.0).contains(
                described::group_of(text::pairs(rec.sources@[i].tags@))->0,
            ),
{
    let f = |t: described::Tags| placement(t);
    let tags = every_tags(rec.sources@);
    let all = tags.filter_map(f);
    let kept = first_placements(all);
    let shown_all = kept.map_values(|p: Placement| shown(p, c));
    let id = |a: Appearance| a.0;
    let r = appearances(rec, c);
    lemma_first_placements(all);
    lemma_title_order();
    assert(shown_all.map_values(id) =~= placed_ids(kept));
    sorting::law_sort_orders(shown_all, title_order());
    sorting::lemma_sort_keeps_distinct(shown_all, title_order(), id);
    assert forall|i: int|
        0 <= i < rec.sources@.len() && described::group_of(
            text::pairs((#[trigger] rec.sources@[i]).tags@),
        ) is Some implies r.map_values(id).contains(
        described::group_of(text::pairs(rec.sources@[i].tags@))->0,
    ) by {
        let t = text::pairs(rec.sources@[i].tags@);
        let x = described::group_of(t)->0;
        assert(tags[i + 1] == t);
        text::lemma_filter_map_keeps(tags, f, i + 1);
        let p = placement(t)->0;
        assert(all.contains(p));
        let j = choose|j: int| 0 <= j < all.len() && all[j] == p;
        assert(placed_ids(all)[j] == x);
        assert(placed_ids(all).contains(x));
        assert(placed_ids(kept).contains(x));
        let k = choose|k: int| 0 <= k < placed_ids(kept).len() && placed_ids(kept)[k] == x;
        assert(shown_all.contains(shown_all[k]));
        sorting::lemma_sort_contains(shown_all, title_order(), shown_all[k]);
        let m = choose|m: int| 0 <= m < r.len() && r[m] == shown_all[k];
        assert(r.map_values(id)[m] == x);
    }
}

} // verus!
