//! What the catalogue in memory tells of an artist.
use vstd::prelude::*;
use crate::models::{
    ArtistDetail, ArtistReleaseGroup, GuestAppearanceReleaseGroup, GuestAppearanceTrack,
};
use crate::sorting;
use crate::sorting::sort_vec;
use crate::text;
use crate::text::{contains_text, same_text, str_le};
use super::appears;
use super::appears::find_placed;
use super::lists;
use super::lists::clone_opt;
use super::{MemRecording, MemReleaseGroup, MemoryCatalog};

verus! {

// ── Meaning ──────────────────────────────────────────────────────────────────

/// Whether `r` tells of a release group of an artist.
pub open spec fn tells_owned(r: ArtistReleaseGroup, g: MemReleaseGroup, c: MemoryCatalog) -> bool {
    let places = lists::group_recordings(c.recordings@, g.id@);
    &&& r.id == g.id
    &&& r.title == g.title
    &&& r.rg_type is None
    &&& r.release_date == g.release_date
    &&& r.recording_count == places.len() as i64
    &&& r.ratings@ == lists::ratings_of(c.recordings@, places)
    &&& r.primary_artist_id == g.artist_id
    &&& r.artist_credit_name == g.artist_credit_name
}

/// The order of release groups by title.
pub open spec fn owned_order() -> spec_fn(ArtistReleaseGroup, ArtistReleaseGroup) -> bool {
    |a: ArtistReleaseGroup, b: ArtistReleaseGroup| text::text_le(a.title@, b.title@)
}

/// The order of guest appearances by title.
pub open spec fn guest_order() -> spec_fn(
    GuestAppearanceReleaseGroup,
    GuestAppearanceReleaseGroup,
) -> bool {
    |a: GuestAppearanceReleaseGroup, b: GuestAppearanceReleaseGroup|
        text::text_le(a.title@, b.title@)
}

/// Whether groups tell of the release groups at some places.
pub open spec fn tell_owned_groups(
    groups: Seq<ArtistReleaseGroup>,
    c: MemoryCatalog,
    places: Seq<int>,
) -> bool {
    &&& groups.len() == places.len()
    &&& forall|i: int|
        0 <= i < groups.len() ==> tells_owned(
            #[trigger] groups[i],
            c.release_groups@[places[i]],
            c,
        )
}

/// Whether an artist is a guest on a recording: credited, but not first.
pub open spec fn is_guest_on(r: MemRecording, artist: Seq<char>) -> bool {
    &&& r.artist_ids@.len() > 0
    &&& r.artist_ids@[0]@ != artist
    &&& text::texts(r.artist_ids@).contains(artist)
}

/// Whether an artist is the primary one of a release group.
pub open spec fn owns_group(groups: Seq<MemReleaseGroup>, artist: Seq<char>, id: Seq<char>) -> bool {
    exists|i: int|
        0 <= i < groups.len() && (#[trigger] groups[i]).id@ == id && lists::is_text(
            groups[i].artist_id,
            artist,
        )
}

/// Whether a recording is a guest appearance of an artist in a release group.
pub open spec fn guest_in(c: MemoryCatalog, artist: Seq<char>, place: int, group: Seq<char>) -> bool {
    &&& is_guest_on(c.recordings@[place], artist)
    &&& appears::is_in(c.recordings@[place], group)
    &&& !owns_group(c.release_groups@, artist, group)
}

/// The release groups in which a recording is a guest appearance of an artist.
pub open spec fn guest_ids(c: MemoryCatalog, artist: Seq<char>, place: int) -> Seq<Seq<char>> {
    appears::groups_in(c.recordings@[place]).filter(
        |group: Seq<char>| guest_in(c, artist, place, group),
    )
}

/// The release groups in which an artist appears as a guest, in order of first
/// appearance.
pub open spec fn guest_groups(c: MemoryCatalog, artist: Seq<char>) -> Seq<Seq<char>> {
    text::distinct(
        lists::artist_recordings(c.recordings@, artist).map_values(
            |i: int| guest_ids(c, artist, i),
        ).flatten(),
    )
}

/// The position of a track: disc, track, and the place of its recording.
pub type Spot = (Option<i64>, Option<i64>, usize);

/// Whether an unknown number, or a number, comes no later than another.
pub open spec fn opt_le(a: Option<i64>, b: Option<i64>) -> bool {
    match (a, b) {
        (None, _) => true,
        (Some(_), None) => false,
        (Some(x), Some(y)) => x <= y,
    }
}

/// The order of tracks by disc and position.
pub open spec fn spot_order() -> spec_fn(Spot, Spot) -> bool {
    |a: Spot, b: Spot|
        if a.0 == b.0 {
            opt_le(a.1, b.1)
        } else {
            opt_le(a.0, b.0)
        }
}

/// The tracks of a release group on which an artist appears as a guest, in order.
pub open spec fn guest_spots(
    c: MemoryCatalog,
    artist: Seq<char>,
    places: Seq<usize>,
    group: Seq<char>,
) -> Seq<Spot> {
    sorting::stable_sort(
        places.filter_map(
            |i: usize|
                if guest_in(c, artist, i as int, group) {
                    Some(
                        (
                            appears::disc_in(c.recordings@[i as int], group),
                            appears::track_in(c.recordings@[i as int], group),
                            i,
                        ),
                    )
                } else {
                    None
                },
        ),
        spot_order(),
    )
}

/// Whether `t` tells of a track on which an artist appears as a guest.
pub open spec fn tells_guest_track(
    t: GuestAppearanceTrack,
    r: MemRecording,
    group: Seq<char>,
) -> bool {
    &&& t.recording_id == r.id
    &&& t.recording_title == r.title
    &&& t.track_position == appears::track_in(r, group)
    &&& t.disc_position == appears::disc_in(r, group)
}

/// Whether `r` tells of a release group in which an artist appears as a guest.
pub open spec fn tells_guest(
    r: GuestAppearanceReleaseGroup,
    c: MemoryCatalog,
    artist: Seq<char>,
    places: Seq<usize>,
    group: Seq<char>,
) -> bool {
    let g = c.release_groups@[lists::group_place(c.release_groups@, group)];
    let spots = guest_spots(c, artist, places, group);
    &&& r.id@ == group
    &&& r.title == g.title
    &&& r.rg_type is None
    &&& r.release_date == g.release_date
    &&& r.primary_artist_id == g.artist_id
    &&& r.artist_credit_name == g.artist_credit_name
    &&& r.tracks@.len() == spots.len()
    &&& forall|i: int|
        0 <= i < r.tracks@.len() ==> tells_guest_track(
            #[trigger] r.tracks@[i],
            c.recordings@[spots[i].2 as int],
            group,
        )
}

/// Places as indices.
pub open spec fn as_places(places: Seq<int>) -> Seq<usize> {
    Seq::new(places.len(), |i: int| places[i] as usize)
}

/// Whether a release group is in the catalogue.
pub open spec fn known_group(c: MemoryCatalog) -> spec_fn(Seq<char>) -> bool {
    |g: Seq<char>| lists::group_place(c.release_groups@, g) < c.release_groups@.len()
}

/// Whether appearances tell of release groups in which an artist is a guest.
pub open spec fn tell_guests(
    appearances: Seq<GuestAppearanceReleaseGroup>,
    c: MemoryCatalog,
    artist: Seq<char>,
    places: Seq<usize>,
    groups: Seq<Seq<char>>,
) -> bool {
    &&& appearances.len() == groups.len()
    &&& forall|i: int|
        0 <= i < appearances.len() ==> tells_guest(
            #[trigger] appearances[i],
            c,
            artist,
            places,
            groups[i],
        )
}

/// Whether `d` tells of the artist at a place: their own release groups and those
/// in which they appear as a guest, both by title.
pub open spec fn tells_artist(d: ArtistDetail, c: MemoryCatalog, place: int, id: Seq<char>) -> bool {
    let a = c.artists@[place];
    let places = lists::artist_recordings(c.recordings@, id);
    let owned = lists::owned_groups(c.release_groups@, id);
    &&& d.id == a.id
    &&& d.name == a.name
    &&& d.sort_name == a.sort_name
    &&& d.mbid is None
    &&& d.ratings@ == lists::ratings_of(c.recordings@, places)
    &&& text::opt_text(d.last_played) == lists::last_played_of(c.recordings@, places)
    &&& d.recording_count == places.len() as i64
    &&& d.release_group_count == owned.len() as i64
    &&& exists|groups: Seq<ArtistReleaseGroup>|
        #[trigger] tell_owned_groups(groups, c, owned) && d.release_groups@
            == sorting::stable_sort(groups, owned_order())
    &&& exists|guests: Seq<GuestAppearanceReleaseGroup>|
        #[trigger] tell_guests(
            guests,
            c,
            id,
            as_places(places),
            guest_groups(c, id).filter(known_group(c)),
        ) && d.guest_appearances@ == sorting::stable_sort(guests, guest_order())
}

// ── Executable ───────────────────────────────────────────────────────────────

pub(crate) proof fn lemma_orders()
    ensures
        sorting::total_preorder(owned_order()),
        sorting::total_preorder(guest_order()),
        sorting::total_preorder(spot_order()),
{
    let a = owned_order();
    assert forall|x: ArtistReleaseGroup, y: ArtistReleaseGroup| #[trigger] a(x, y) || a(y, x) by {
        text::lemma_text_le_total(x.title@, y.title@);
    }
    assert forall|x: ArtistReleaseGroup, y: ArtistReleaseGroup, z: ArtistReleaseGroup| #[trigger]
        a(x, y) && #[trigger] a(y, z) implies a(x, z) by {
        text::lemma_text_le_transitive(x.title@, y.title@, z.title@);
    }
    let b = guest_order();
    assert forall|x: GuestAppearanceReleaseGroup, y: GuestAppearanceReleaseGroup| #[trigger]
        b(x, y) || b(y, x) by {
        text::lemma_text_le_total(x.title@, y.title@);
    }
    assert forall|
        x: GuestAppearanceReleaseGroup,
        y: GuestAppearanceReleaseGroup,
        z: GuestAppearanceReleaseGroup,
    | #[trigger] b(x, y) && #[trigger] b(y, z) implies b(x, z) by {
        text::lemma_text_le_transitive(x.title@, y.title@, z.title@);
    }
}

/// The disc and the track of a recording in a release group.
fn disc_and_track(rec: &MemRecording, group: &str) -> (r: (Option<i64>, Option<i64>))
    ensures
        r.0 == appears::disc_in(*rec, group@),
        r.1 == appears::track_in(*rec, group@),
{
    match find_placed(rec, group) {
        Some(p) => (p.disc, p.track),
        None => (None, None),
    }
}

fn option_le(a: Option<i64>, b: Option<i64>) -> (r: bool)
    ensures
        r == opt_le(a, b),
{
    match a {
        None => true,
        Some(x) => match b {
            None => false,
            Some(y) => x <= y,
        },
    }
}

fn same_option(a: Option<i64>, b: Option<i64>) -> (r: bool)
    ensures
        r == (a == b),
{
    match a {
        None => b.is_none(),
        Some(x) => match b {
            None => false,
            Some(y) => x == y,
        },
    }
}

impl MemoryCatalog {
    fn does_own_group(&self, artist: &str, id: &str) -> (r: bool)
        ensures
            r == owns_group(self.release_groups@, artist@, id@),
    {
        let mut i: usize = 0;
        while i < self.release_groups.len()
            invariant
                i <= self.release_groups@.len(),
                forall|k: int|
                    0 <= k < i ==> !((#[trigger] self.release_groups@[k]).id@ == id@
                        && lists::is_text(self.release_groups@[k].artist_id, artist@)),
            decreases self.release_groups@.len() - i,
        {
            if same_text(&self.release_groups[i].id, id) && lists::holds_text(
                &self.release_groups[i].artist_id,
                artist,
            ) {
                return true;
            }
            i = i + 1;
        }
        false
    }

    /// Whether a recording is a guest appearance of an artist in a release group.
    fn is_guest_in(&self, artist: &str, place: usize, group: &str) -> (r: bool)
        requires
            place < self.recordings@.len(),
        ensures
            r == guest_in(*self, artist@, place as int, group@),
    {
        let rec = &self.recordings[place];
        if rec.artist_ids.len() == 0 || same_text(&rec.artist_ids[0], artist) || !contains_text(
            &rec.artist_ids,
            artist,
        ) {
            return false;
        }
        find_placed(rec, group).is_some() && !self.does_own_group(artist, group)
    }

    /// Collects the release groups in which a recording is a guest appearance of an
    /// artist, each once.
    fn push_guest_groups(
        &self,
        out: &mut Vec<String>,
        artist: &str,
        place: usize,
        Ghost(seen): Ghost<Seq<Seq<char>>>,
    )
        requires
            place < self.recordings@.len(),
            text::texts(old(out)@) == text::distinct(seen),
        ensures
            text::texts(final(out)@) == text::distinct(
                seen + guest_ids(*self, artist@, place as int),
            ),
    {
        let rec = &self.recordings[place];
        let ghost all = appears::groups_in(*rec);
        let ghost keep = |group: Seq<char>| guest_in(*self, artist@, place as int, group);
        let mut i: usize = 0;
        proof {
            assert(all.take(0) =~= Seq::empty());
            all.take(0).lemma_filter_len(keep);
            assert(seen + all.take(0).filter(keep) =~= seen);
        }
        while i < rec.placements.len()
            invariant
                i <= rec.placements@.len(),
                place < self.recordings@.len(),
                *rec == self.recordings@[place as int],
                all == appears::groups_in(*rec),
                keep == (|group: Seq<char>| guest_in(*self, artist@, place as int, group)),
                text::texts(out@) == text::distinct(seen + all.take(i as int).filter(keep)),
            decreases rec.placements@.len() - i,
        {
            let id = &rec.placements[i].id;
            let ghost found = seen + all.take(i as int).filter(keep);
            proof {
                assert(all[i as int] == id@);
                assert(all.take(i + 1) =~= all.take(i as int).push(id@));
                all.take(i as int).lemma_filter_push(id@, keep);
            }
            if self.is_guest_in(artist, place, id) {
                proof {
                    assert(seen + all.take(i + 1).filter(keep) =~= found.push(id@));
                    text::lemma_distinct_push(found, id@);
                    text::lemma_distinct(found);
                }
                if !contains_text(out, id) {
                    let ghost before = text::texts(out@);
                    out.push(id.clone());
                    assert(text::texts(out@) =~= before.push(id@));
                }
            }
            i = i + 1;
        }
        assert(all.take(all.len() as int) =~= all);
    }

    /// The release groups in which an artist appears as a guest.
    fn guest_groups_at(&self, artist: &str, places: &Vec<usize>) -> (r: Vec<String>)
        requires
            lists::as_ints(places@) == lists::artist_recordings(self.recordings@, artist@),
            lists::places_within(lists::as_ints(places@), self.recordings@.len()),
        ensures
            text::texts(r@) == guest_groups(*self, artist@),
    {
        let ghost all = lists::as_ints(places@);
        let ghost rows = all.map_values(|i: int| guest_ids(*self, artist@, i));
        let mut r: Vec<String> = Vec::new();
        let mut i: usize = 0;
        proof {
            assert(rows.take(0) =~= Seq::empty());
            assert(text::texts(r@) =~= text::distinct(rows.take(0).flatten()));
        }
        while i < places.len()
            invariant
                i <= places@.len(),
                all == lists::as_ints(places@),
                lists::places_within(all, self.recordings@.len()),
                rows == all.map_values(|i: int| guest_ids(*self, artist@, i)),
                text::texts(r@) == text::distinct(rows.take(i as int).flatten()),
            decreases places@.len() - i,
        {
            let ghost found = rows.take(i as int).flatten();
            proof {
                assert(all[i as int] == places@[i as int]);
                rows.take(i as int).lemma_flatten_push(rows[i as int]);
                assert(rows.take(i + 1) =~= rows.take(i as int).push(rows[i as int]));
            }
            self.push_guest_groups(&mut r, artist, places[i], Ghost(found));
            i = i + 1;
        }
        assert(rows.take(rows.len() as int) =~= rows);
        r
    }

    /// The tracks of a release group on which an artist appears as a guest.
    fn guest_spots_at(&self, artist: &str, places: &Vec<usize>, group: &str) -> (r: Vec<Spot>)
        requires
            lists::places_within(lists::as_ints(places@), self.recordings@.len()),
        ensures
            r@ == guest_spots(*self, artist@, places@, group@),
            forall|i: int| 0 <= i < r@.len() ==> (#[trigger] r@[i]).2 < self.recordings@.len(),
    {
        let ghost f = |i: usize|
            if guest_in(*self, artist@, i as int, group@) {
                Some(
                    (
                        appears::disc_in(self.recordings@[i as int], group@),
                        appears::track_in(self.recordings@[i as int], group@),
                        i,
                    ),
                )
            } else {
                None
            };
        let mut r: Vec<Spot> = Vec::new();
        let mut i: usize = 0;
        assert(places@.take(0) =~= Seq::empty());
        while i < places.len()
            invariant
                i <= places@.len(),
                lists::places_within(lists::as_ints(places@), self.recordings@.len()),
                f == (|i: usize|
                    if guest_in(*self, artist@, i as int, group@) {
                        Some(
                            (
                                appears::disc_in(self.recordings@[i as int], group@),
                                appears::track_in(self.recordings@[i as int], group@),
                                i,
                            ),
                        )
                    } else {
                        None
                    }),
                r@ == places@.take(i as int).filter_map(f),
                forall|k: int| 0 <= k < r@.len() ==> (#[trigger] r@[k]).2 < self.recordings@.len(),
            decreases places@.len() - i,
        {
            proof {
                places@.lemma_filter_map_take_succ(f, i as int);
                assert(lists::as_ints(places@)[i as int] == places@[i as int]);
            }
            if self.is_guest_in(artist, places[i], group) {
                let (disc, track) = disc_and_track(&self.recordings[places[i]], group);
                r.push((disc, track, places[i]));
            }
            i = i + 1;
        }
        let ghost unsorted = r@;
        proof {
            assert(places@.take(places@.len() as int) =~= places@);
            lemma_orders();
        }
        let le = |a: &Spot, b: &Spot| -> (r: bool)
            ensures
                r == spot_order()(*a, *b),
            {
                if same_option(a.0, b.0) {
                    option_le(a.1, b.1)
                } else {
                    option_le(a.0, b.0)
                }
            };
        let sorted = sort_vec(r, le, Ghost(spot_order()));
        assert forall|i: int| 0 <= i < sorted@.len() implies (#[trigger] sorted@[i]).2
            < self.recordings@.len() by {
            assert(sorted@.contains(sorted@[i]));
            sorting::lemma_sort_contains(unsorted, spot_order(), sorted@[i]);
            let k = choose|k: int| 0 <= k < unsorted.len() && unsorted[k] == sorted@[i];
            assert(unsorted[k].2 < self.recordings@.len());
        }
        sorted
    }

    /// What the catalogue tells of a release group in which an artist is a guest.
    fn guest_detail(&self, artist: &str, places: &Vec<usize>, group: &String, place: usize) -> (r:
        GuestAppearanceReleaseGroup)
        requires
            place < self.release_groups@.len(),
            place == lists::group_place(self.release_groups@, group@),
            lists::places_within(lists::as_ints(places@), self.recordings@.len()),
        ensures
            tells_guest(r, *self, artist@, places@, group@),
    {
        let spots = self.guest_spots_at(artist, places, group);
        let mut tracks: Vec<GuestAppearanceTrack> = Vec::new();
        let mut i: usize = 0;
        while i < spots.len()
            invariant
                i <= spots@.len(),
                tracks@.len() == i,
                forall|k: int|
                    0 <= k < spots@.len() ==> (#[trigger] spots@[k]).2 < self.recordings@.len(),
                forall|k: int|
                    0 <= k < i ==> tells_guest_track(
                        #[trigger] tracks@[k],
                        self.recordings@[spots@[k].2 as int],
                        group@,
                    ),
            decreases spots@.len() - i,
        {
            let spot = spots[i];
            let rec = &self.recordings[spot.2];
            let (disc_position, track_position) = disc_and_track(rec, group);
            tracks.push(
                GuestAppearanceTrack {
                    recording_id: rec.id.clone(),
                    recording_title: rec.title.clone(),
                    track_position,
                    disc_position,
                },
            );
            i = i + 1;
        }
        let g = &self.release_groups[place];
        GuestAppearanceReleaseGroup {
            id: group.clone(),
            title: g.title.clone(),
            rg_type: None,
            release_date: clone_opt(&g.release_date),
            primary_artist_id: clone_opt(&g.artist_id),
            artist_credit_name: clone_opt(&g.artist_credit_name),
            tracks,
        }
    }

    /// The release groups in which an artist is a guest, by title.
    fn guest_details(&self, artist: &str, places: &Vec<usize>) -> (r: Vec<
        GuestAppearanceReleaseGroup,
    >)
        requires
            lists::as_ints(places@) == lists::artist_recordings(self.recordings@, artist@),
            lists::places_within(lists::as_ints(places@), self.recordings@.len()),
        ensures
            exists|guests: Seq<GuestAppearanceReleaseGroup>|
                #[trigger] tell_guests(
                    guests,
                    *self,
                    artist@,
                    places@,
                    guest_groups(*self, artist@).filter(known_group(*self)),
                ) && r@ == sorting::stable_sort(guests, guest_order()),
    {
        let groups = self.guest_groups_at(artist, places);
        let ghost all = text::texts(groups@);
        let ghost keep = known_group(*self);
        let mut r: Vec<GuestAppearanceReleaseGroup> = Vec::new();
        let mut i: usize = 0;
        proof {
            assert(all.take(0) =~= Seq::empty());
            all.take(0).lemma_filter_len(keep);
        }
        while i < groups.len()
            invariant
                i <= groups@.len(),
                all == text::texts(groups@),
                keep == known_group(*self),
                lists::places_within(lists::as_ints(places@), self.recordings@.len()),
                tell_guests(r@, *self, artist@, places@, all.take(i as int).filter(keep)),
            decreases groups@.len() - i,
        {
            let ghost before = all.take(i as int).filter(keep);
            let ghost old_r = r@;
            proof {
                assert(all.take(i + 1) =~= all.take(i as int).push(all[i as int]));
                all.take(i as int).lemma_filter_push(all[i as int], keep);
            }
            if let Some(place) = self.find_group(&groups[i]) {
                let d = self.guest_detail(artist, places, &groups[i], place);
                r.push(d);
                assert forall|k: int| 0 <= k < r@.len() implies tells_guest(
                    #[trigger] r@[k],
                    *self,
                    artist@,
                    places@,
                    all.take(i + 1).filter(keep)[k],
                ) by {
                    if k < before.len() {
                        assert(r@[k] == old_r[k]);
                    }
                }
            }
            i = i + 1;
        }
        proof {
            assert(all.take(all.len() as int) =~= all);
            lemma_orders();
        }
        let ghost guests = r@;
        let le = |a: &GuestAppearanceReleaseGroup, b: &GuestAppearanceReleaseGroup| -> (r: bool)
            ensures
                r == text::text_le(a.title@, b.title@),
            { str_le(&a.title, &b.title) };
        assert(tell_guests(
            guests,
            *self,
            artist@,
            places@,
            guest_groups(*self, artist@).filter(known_group(*self)),
        ));
        sort_vec(r, le, Ghost(guest_order()))
    }

    /// The release groups of an artist, by title.
    fn owned_details(&self, owned: &Vec<usize>) -> (r: Vec<ArtistReleaseGroup>)
        requires
            lists::places_within(lists::as_ints(owned@), self.release_groups@.len()),
        ensures
            exists|groups: Seq<ArtistReleaseGroup>|
                #[trigger] tell_owned_groups(groups, *self, lists::as_ints(owned@)) && r@
                    == sorting::stable_sort(groups, owned_order()),
            r@.len() == owned@.len(),
    {
        let ghost all = lists::as_ints(owned@);
        let mut r: Vec<ArtistReleaseGroup> = Vec::new();
        let mut i: usize = 0;
        while i < owned.len()
            invariant
                i <= owned@.len(),
                all == lists::as_ints(owned@),
                lists::places_within(all, self.release_groups@.len()),
                r@.len() == i,
                forall|k: int|
                    0 <= k < i ==> tells_owned(
                        #[trigger] r@[k],
                        self.release_groups@[all[k]],
                        *self,
                    ),
            decreases owned@.len() - i,
        {
            assert(all[i as int] == owned@[i as int]);
            let g = &self.release_groups[owned[i]];
            let places = self.recordings_in_group(&g.id);
            assert(lists::as_ints(places@).len() == places@.len());
            r.push(
                ArtistReleaseGroup {
                    id: g.id.clone(),
                    title: g.title.clone(),
                    rg_type: None,
                    release_date: clone_opt(&g.release_date),
                    recording_count: places.len() as i64,
                    ratings: self.ratings_at(&places),
                    primary_artist_id: clone_opt(&g.artist_id),
                    artist_credit_name: clone_opt(&g.artist_credit_name),
                },
            );
            i = i + 1;
        }
        let ghost groups = r@;
        proof {
            lemma_orders();
            assert(tell_owned_groups(groups, *self, all));
            sorting::law_sort_orders(groups, owned_order());
        }
        let le = |a: &ArtistReleaseGroup, b: &ArtistReleaseGroup| -> (r: bool)
            ensures
                r == text::text_le(a.title@, b.title@),
            { str_le(&a.title, &b.title) };
        sort_vec(r, le, Ghost(owned_order()))
    }

    /// What the catalogue tells of an artist; `None` when the artist is not there.
    pub fn get_artist_detail(&self, id: &str) -> (r: Option<ArtistDetail>)
        ensures
            match r {
                Some(d) => lists::artist_place(self.artists@, id@) < self.artists@.len()
                    && tells_artist(
                    d,
                    *self,
                    lists::artist_place(self.artists@, id@),
                    id@,
                ),
                None => lists::artist_place(self.artists@, id@) >= self.artists@.len(),
            },
    {
        let place: usize = match self.find_artist(id) {
            Some(i) => i,
            None => {
                return None;
            },
        };
        let places = self.recordings_of_artist(id);
        let owned = self.groups_owned_by(id);
        let ghost found = lists::artist_recordings(self.recordings@, id@);
        proof {
            assert(lists::as_ints(places@).len() == places@.len());
            assert(lists::as_ints(owned@).len() == owned@.len());
            assert(as_places(found) =~= places@) by {
                assert forall|i: int| 0 <= i < found.len() implies #[trigger] found[i]
                    == places@[i] by {
                    assert(lists::as_ints(places@)[i] == places@[i]);
                }
            }
        }
        let release_groups = self.owned_details(&owned);
        let guest_appearances = self.guest_details(id, &places);
        let a = &self.artists[place];
        Some(
            ArtistDetail {
                id: a.id.clone(),
                name: a.name.clone(),
                sort_name: a.sort_name.clone(),
                mbid: None,
                ratings: self.ratings_at(&places),
                last_played: self.last_played_at(&places),
                recording_count: places.len() as i64,
                release_group_count: release_groups.len() as i64,
                release_groups,
                guest_appearances,
            },
        )
    }
}

} // verus!
