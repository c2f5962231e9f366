//! Building the catalogue from stored rows.
use vstd::prelude::*;
use crate::sorting;
use crate::sorting::sort_vec;
use crate::text;
use crate::text::{contains_text, same_text, str_le, lower_text};
use super::appears;
use super::described;
use super::described::{
    album_artist_name, artist_names, credits, group_artist_id, group_id, release_year, tag_copy,
};
use super::laws;
use super::rows;
use super::rows::{
    build_recording, describing_tags, listed_recordings, read_sources, recording_keys, CatalogRows,
    StoredCatalog,
};
use super::{MemArtist, MemRecording, MemReleaseGroup, MemoryCatalog};

verus! {

// ── Meaning ──────────────────────────────────────────────────────────────────

/// A release group: identifier, title, artist identifier, credited name and date.
pub type Group = (
    Seq<char>,
    Seq<char>,
    Option<Seq<char>>,
    Option<Seq<char>>,
    Option<Seq<char>>,
);

impl View for MemReleaseGroup {
    type V = (
        Seq<char>,
        Seq<char>,
        Option<Seq<char>>,
        Option<Seq<char>>,
        Option<Seq<char>>,
    );

    open spec fn view(&self) -> Group {
        (
            self.id@,
            self.title@,
            text::opt_text(self.artist_id),
            text::opt_text(self.artist_credit_name),
            text::opt_text(self.release_date),
        )
    }
}

/// Whether recordings are those that rows describe, in order.
pub open spec fn tell_recordings(
    recs: Seq<MemRecording>,
    all: CatalogRows,
    ids: Seq<Seq<char>>,
) -> bool {
    &&& recs.len() == ids.len()
    &&& forall|i: int|
        0 <= i < recs.len() ==> rows::tells_recording(#[trigger] recs[i], all, ids[i])
}

/// The describing tags of recordings.
pub open spec fn tags_of(recs: Seq<MemRecording>) -> Seq<described::Tags> {
    recs.map_values(|r: MemRecording| rows::main_tags(r.sources@))
}

/// The tags of all sources of recordings. Those that describe a recording come first.
pub open spec fn group_tags(recs: Seq<MemRecording>) -> Seq<described::Tags> {
    recs.map_values(|r: MemRecording| appears::every_tags(r.sources@)).flatten()
}

/// Of credits with the same identifier, the first.
pub open spec fn first_credits(s: Seq<described::Credit>) -> Seq<described::Credit>
    decreases s.len(),
{
    if s.len() == 0 {
        s
    } else {
        let front = first_credits(s.drop_last());
        if credit_ids(front).contains(s.last().0) {
            front
        } else {
            front.push(s.last())
        }
    }
}

/// The identifiers of credits.
pub open spec fn credit_ids(s: Seq<described::Credit>) -> Seq<Seq<char>> {
    s.map_values(|c: described::Credit| c.0)
}

/// The artists that recordings credit, in order of first appearance.
pub open spec fn artists_of(ts: Seq<described::Tags>) -> Seq<described::Credit> {
    first_credits(ts.map_values(|t: described::Tags| described::credits_of(t)).flatten())
}

/// The order of artists by sort name, whatever the case.
pub open spec fn artist_order() -> spec_fn(described::Credit, described::Credit) -> bool {
    |a: described::Credit, b: described::Credit|
        text::text_le(text::lowercase(a.2), text::lowercase(b.2))
}

/// The release groups that tags name, in order of first appearance.
pub open spec fn group_ids(ts: Seq<described::Tags>) -> Seq<Seq<char>> {
    text::distinct(ts.filter_map(|t: described::Tags| described::group_of(t)))
}

/// Whether tags place a recording in a release group.
pub open spec fn in_group(id: Seq<char>) -> spec_fn(described::Tags) -> bool {
    |t: described::Tags| described::group_of(t) == Some(id)
}

/// The year of a recording, if any.
pub open spec fn dated(t: described::Tags) -> Option<Seq<char>> {
    match described::year_of(t) {
        Some(y) => if y.len() == 0 {
            None
        } else {
            Some(y)
        },
        None => None,
    }
}

/// The earliest of texts.
pub open spec fn earliest(s: Seq<Seq<char>>) -> Option<Seq<char>>
    decreases s.len(),
{
    if s.len() == 0 {
        None
    } else {
        match earliest(s.drop_last()) {
            Some(e) => Some(
                if text::text_le(e, s.last()) {
                    e
                } else {
                    s.last()
                },
            ),
            None => Some(s.last()),
        }
    }
}

/// A release group: what the first tags say of it, and the earliest year of all.
pub open spec fn group_at(ts: Seq<described::Tags>, id: Seq<char>) -> Group {
    let members = ts.filter(in_group(id));
    (
        id,
        super::tag_value(members[0], "TALB"@).unwrap(),
        described::album_artist_id(members[0]),
        described::album_artist(members[0]),
        earliest(members.filter_map(|t: described::Tags| dated(t))),
    )
}

/// The release groups that tags name.
pub open spec fn groups_of(ts: Seq<described::Tags>) -> Seq<Group> {
    group_ids(ts).map_values(|id: Seq<char>| group_at(ts, id))
}

/// The lower-case sort name of an artist; empty when the artist is unknown.
pub open spec fn sort_key(artists: Seq<described::Credit>, id: Option<Seq<char>>) -> Seq<char> {
    match id {
        Some(id) => {
            let k = text::first_at(credit_ids(artists), id);
            if k < artists.len() {
                text::lowercase(artists[k].2)
            } else {
                Seq::empty()
            }
        },
        None => Seq::empty(),
    }
}

/// The order of pairs of texts.
pub open spec fn pair_le(a: (Seq<char>, Seq<char>), b: (Seq<char>, Seq<char>)) -> bool {
    if a.0 == b.0 {
        text::text_le(a.1, b.1)
    } else {
        text::text_le(a.0, b.0)
    }
}

/// The order of recordings by artist and title.
pub open spec fn recording_order(artists: Seq<described::Credit>) -> spec_fn(
    MemRecording,
    MemRecording,
) -> bool {
    |a: MemRecording, b: MemRecording|
        pair_le(
            (sort_key(artists, text::opt_text(a.primary_artist_id)), text::lowercase(a.title@)),
            (sort_key(artists, text::opt_text(b.primary_artist_id)), text::lowercase(b.title@)),
        )
}

/// The order of release groups by artist and title.
pub open spec fn group_order(artists: Seq<described::Credit>) -> spec_fn(Group, Group) -> bool {
    |a: Group, b: Group|
        pair_le(
            (sort_key(artists, a.2), text::lowercase(a.1)),
            (sort_key(artists, b.2), text::lowercase(b.1)),
        )
}

/// Artists as credits.
pub open spec fn as_credits(s: Seq<MemArtist>) -> Seq<described::Credit> {
    s.map_values(|a: MemArtist| a@)
}

/// Release groups as what they say.
pub open spec fn as_groups(s: Seq<MemReleaseGroup>) -> Seq<Group> {
    s.map_values(|g: MemReleaseGroup| g@)
}

/// Whether a catalogue holds just these recordings, their artists and their
/// release groups, in order.
pub open spec fn holds_recordings(c: MemoryCatalog, recs: Seq<MemRecording>) -> bool {
    &&& as_credits(c.artists@) == sorting::stable_sort(artists_of(tags_of(recs)), artist_order())
    &&& as_groups(c.release_groups@) == sorting::stable_sort(
        groups_of(group_tags(recs)),
        group_order(as_credits(c.artists@)),
    )
    &&& c.recordings@ == sorting::stable_sort(recs, recording_order(as_credits(c.artists@)))
}

/// Whether a catalogue is the one that rows describe.
pub open spec fn describes(all: CatalogRows, c: MemoryCatalog) -> bool {
    &&& exists|recs: Seq<MemRecording>|
        #[trigger] tell_recordings(recs, all, rows::recording_ids(all.sources@))
            && holds_recordings(c, recs)
    &&& text::pairs(c.playlists@) == text::pairs(all.playlists@)
    &&& c.source_count == all.sources@.len() as i64
}

// ── Orders ───────────────────────────────────────────────────────────────────

proof fn lemma_pair_le(a: (Seq<char>, Seq<char>), b: (Seq<char>, Seq<char>))
    ensures
        pair_le(a, b) || pair_le(b, a),
{
    text::lemma_text_le_total(a.0, b.0);
    text::lemma_text_le_total(a.1, b.1);
}

proof fn lemma_pair_le_transitive(
    a: (Seq<char>, Seq<char>),
    b: (Seq<char>, Seq<char>),
    c: (Seq<char>, Seq<char>),
)
    requires
        pair_le(a, b),
        pair_le(b, c),
    ensures
        pair_le(a, c),
{
    if a.0 == b.0 && b.0 == c.0 {
        text::lemma_text_le_transitive(a.1, b.1, c.1);
    } else if a.0 != b.0 && b.0 != c.0 {
        text::lemma_text_le_transitive(a.0, b.0, c.0);
        if a.0 == c.0 {
            text::lemma_text_le_antisymmetric(a.0, b.0);
        }
    }
}

proof fn lemma_orders(artists: Seq<described::Credit>)
    ensures
        sorting::total_preorder(artist_order()),
        sorting::total_preorder(recording_order(artists)),
        sorting::total_preorder(group_order(artists)),
        sorting::total_preorder(|a: MemArtist, b: MemArtist| artist_order()(a@, b@)),
        sorting::total_preorder(
            |a: MemReleaseGroup, b: MemReleaseGroup| group_order(artists)(a@, b@),
        ),
{
    let le = artist_order();
    assert forall|x: described::Credit, y: described::Credit| #[trigger] le(x, y) || le(y, x) by {
        text::lemma_text_le_total(text::lowercase(x.2), text::lowercase(y.2));
    }
    assert forall|x: described::Credit, y: described::Credit, z: described::Credit| #[trigger]
        le(x, y) && #[trigger] le(y, z) implies le(x, z) by {
        text::lemma_text_le_transitive(
            text::lowercase(x.2),
            text::lowercase(y.2),
            text::lowercase(z.2),
        );
    }
    let key = |a: MemRecording|
        (sort_key(artists, text::opt_text(a.primary_artist_id)), text::lowercase(a.title@));
    let re = recording_order(artists);
    assert forall|x: MemRecording, y: MemRecording| #[trigger] re(x, y) || re(y, x) by {
        lemma_pair_le(key(x), key(y));
    }
    assert forall|x: MemRecording, y: MemRecording, z: MemRecording| #[trigger]
        re(x, y) && #[trigger] re(y, z) implies re(x, z) by {
        lemma_pair_le_transitive(key(x), key(y), key(z));
    }
    let gkey = |a: Group| (sort_key(artists, a.2), text::lowercase(a.1));
    let ge = group_order(artists);
    assert forall|x: Group, y: Group| #[trigger] ge(x, y) || ge(y, x) by {
        lemma_pair_le(gkey(x), gkey(y));
    }
    assert forall|x: Group, y: Group, z: Group| #[trigger] ge(x, y) && #[trigger] ge(
        y,
        z,
    ) implies ge(x, z) by {
        lemma_pair_le_transitive(gkey(x), gkey(y), gkey(z));
    }
    let la = |a: MemArtist, b: MemArtist| artist_order()(a@, b@);
    assert forall|x: MemArtist, y: MemArtist| #[trigger] la(x, y) || la(y, x) by {
        assert(le(x@, y@) || le(y@, x@));
    }
    assert forall|x: MemArtist, y: MemArtist, z: MemArtist| #[trigger] la(x, y) && #[trigger] la(
        y,
        z,
    ) implies la(x, z) by {
        assert(le(x@, y@) && le(y@, z@));
    }
    let lg = |a: MemReleaseGroup, b: MemReleaseGroup| group_order(artists)(a@, b@);
    assert forall|x: MemReleaseGroup, y: MemReleaseGroup| #[trigger] lg(x, y) || lg(y, x) by {
        assert(ge(x@, y@) || ge(y@, x@));
    }
    assert forall|x: MemReleaseGroup, y: MemReleaseGroup, z: MemReleaseGroup| #[trigger]
        lg(x, y) && #[trigger] lg(y, z) implies lg(x, z) by {
        assert(ge(x@, y@) && ge(y@, z@));
    }
}

// ── Artists ──────────────────────────────────────────────────────────────────

fn has_artist(artists: &Vec<MemArtist>, id: &str) -> (r: bool)
    ensures
        r == credit_ids(as_credits(artists@)).contains(id@),
{
    let ghost ids = credit_ids(as_credits(artists@));
    let mut i: usize = 0;
    while i < artists.len()
        invariant
            i <= artists@.len(),
            ids == credit_ids(as_credits(artists@)),
            forall|k: int| 0 <= k < i ==> ids[k] != id@,
        decreases artists@.len() - i,
    {
        assert(ids[i as int] == artists@[i as int].id@);
        if same_text(&artists[i].id, id) {
            return true;
        }
        i = i + 1;
    }
    assert(ids.len() == artists@.len());
    false
}

/// Adds the artists that are not there yet.
fn add_artists(artists: &mut Vec<MemArtist>, more: Vec<MemArtist>, Ghost(seen): Ghost<
    Seq<described::Credit>,
>)
    requires
        as_credits(old(artists)@) == first_credits(seen),
    ensures
        as_credits(final(artists)@) == first_credits(seen + as_credits(more@)),
{
    let ghost all = as_credits(more@);
    let mut i: usize = 0;
    assert(seen + all.take(0) =~= seen);
    while i < more.len()
        invariant
            i <= more@.len(),
            all == as_credits(more@),
            as_credits(artists@) == first_credits(seen + all.take(i as int)),
        decreases more@.len() - i,
    {
        let ghost x = all[i as int];
        proof {
            assert(seen + all.take(i + 1) =~= (seen + all.take(i as int)).push(x));
            assert((seen + all.take(i as int)).push(x).drop_last() =~= seen + all.take(i as int));
            assert(x == more@[i as int]@);
        }
        if !has_artist(artists, &more[i].id) {
            let ghost before = as_credits(artists@);
            artists.push(
                MemArtist {
                    id: more[i].id.clone(),
                    name: more[i].name.clone(),
                    sort_name: more[i].sort_name.clone(),
                },
            );
            assert(as_credits(artists@) =~= before.push(x));
        }
        i = i + 1;
    }
    assert(all.take(all.len() as int) =~= all);
}

/// The artists that recordings credit.
fn collect_artists(recs: &Vec<MemRecording>) -> (r: Vec<MemArtist>)
    requires
        forall|i: int| 0 <= i < recs@.len() ==> (#[trigger] recs@[i]).sources@.len() > 0,
    ensures
        as_credits(r@) == artists_of(tags_of(recs@)),
{
    let ghost f = |t: described::Tags| described::credits_of(t);
    let ghost ts = tags_of(recs@);
    let mut r: Vec<MemArtist> = Vec::new();
    let mut i: usize = 0;
    proof {
        assert(ts.take(0).map_values(f).flatten() =~= Seq::empty());
        assert(as_credits(r@) =~= first_credits(Seq::empty()));
    }
    while i < recs.len()
        invariant
            i <= recs@.len(),
            ts == tags_of(recs@),
            f == (|t: described::Tags| described::credits_of(t)),
            forall|k: int| 0 <= k < recs@.len() ==> (#[trigger] recs@[k]).sources@.len() > 0,
            as_credits(r@) == first_credits(ts.take(i as int).map_values(f).flatten()),
        decreases recs@.len() - i,
    {
        let tags = describing_tags(&recs[i].sources);
        let names = artist_names(tags);
        let more = credits(tags, &names);
        let ghost seen = ts.take(i as int).map_values(f);
        proof {
            assert(ts.take(i + 1).map_values(f) =~= seen.push(f(ts[i as int])));
            seen.lemma_flatten_push(f(ts[i as int]));
            assert(as_credits(more@) =~= f(ts[i as int]));
        }
        add_artists(&mut r, more, Ghost(seen.flatten()));
        i = i + 1;
    }
    assert(ts.take(ts.len() as int) =~= ts);
    r
}

// ── Release groups ───────────────────────────────────────────────────────────

/// What lists of tags say.
pub open spec fn tag_views(v: Seq<&[(String, String)]>) -> Seq<described::Tags> {
    v.map_values(|t: &[(String, String)]| text::pairs(t@))
}

/// The tags of all sources of recordings.
fn collect_tags(recs: &Vec<MemRecording>) -> (r: Vec<&[(String, String)]>)
    requires
        forall|i: int| 0 <= i < recs@.len() ==> (#[trigger] recs@[i]).sources@.len() > 0,
    ensures
        tag_views(r@) == group_tags(recs@),
{
    let ghost rows = recs@.map_values(|r: MemRecording| appears::every_tags(r.sources@));
    let mut r: Vec<&[(String, String)]> = Vec::new();
    let mut i: usize = 0;
    proof {
        assert(rows.take(0) =~= Seq::empty());
        assert(tag_views(r@) =~= rows.take(0).flatten());
    }
    while i < recs.len()
        invariant
            i <= recs@.len(),
            rows == recs@.map_values(|r: MemRecording| appears::every_tags(r.sources@)),
            forall|k: int| 0 <= k < recs@.len() ==> (#[trigger] recs@[k]).sources@.len() > 0,
            tag_views(r@) == rows.take(i as int).flatten(),
        decreases recs@.len() - i,
    {
        let sources = &recs[i].sources;
        let ghost seen = rows.take(i as int).flatten();
        let ghost row = rows[i as int];
        proof {
            rows.take(i as int).lemma_flatten_push(row);
            assert(rows.take(i + 1) =~= rows.take(i as int).push(row));
        }
        r.push(describing_tags(sources));
        assert(tag_views(r@) =~= seen + row.take(1));
        let mut j: usize = 0;
        while j < sources.len()
            invariant
                j <= sources@.len(),
                row == appears::every_tags(sources@),
                tag_views(r@) == seen + row.take(j + 1),
            decreases sources@.len() - j,
        {
            let ghost before = tag_views(r@);
            r.push(sources[j].tags.as_slice());
            proof {
                assert(tag_views(r@) =~= before.push(text::pairs(sources@[j as int].tags@)));
                assert(row[j + 1] == text::pairs(sources@[j as int].tags@));
                assert(seen + row.take(j + 2) =~= before.push(row[j + 1]));
            }
            j = j + 1;
        }
        assert(row.take(row.len() as int) =~= row);
        i = i + 1;
    }
    assert(rows.take(rows.len() as int) =~= rows);
    r
}

/// The release groups that tags name, in order of first appearance.
fn collect_group_ids(all: &Vec<&[(String, String)]>) -> (r: Vec<String>)
    ensures
        text::texts(r@) == group_ids(tag_views(all@)),
{
    let ghost f = |t: described::Tags| described::group_of(t);
    let ghost ts = tag_views(all@);
    let mut r: Vec<String> = Vec::new();
    let mut i: usize = 0;
    proof {
        assert(ts.take(0) =~= Seq::empty());
        assert(text::texts(r@) =~= text::distinct(ts.take(0).filter_map(f)));
    }
    while i < all.len()
        invariant
            i <= all@.len(),
            ts == tag_views(all@),
            f == (|t: described::Tags| described::group_of(t)),
            text::texts(r@) == text::distinct(ts.take(i as int).filter_map(f)),
        decreases all@.len() - i,
    {
        let ghost found = ts.take(i as int).filter_map(f);
        proof {
            ts.lemma_filter_map_take_succ(f, i as int);
        }
        match group_id(all[i]) {
            Some(id) => {
                proof {
                    assert(found + seq![id@] =~= found.push(id@));
                    text::lemma_distinct_push(found, id@);
                    text::lemma_distinct(found);
                }
                if !contains_text(&r, &id) {
                    let ghost before = text::texts(r@);
                    r.push(id);
                    assert(text::texts(r@) =~= before.push(id@));
                }
            },
            None => {
                assert(found + Seq::<Seq<char>>::empty() =~= found);
            },
        }
        i = i + 1;
    }
    assert(ts.take(ts.len() as int) =~= ts);
    r
}

/// The earlier of a known date and a year.
fn earlier(known: Option<String>, year: String) -> (r: String)
    ensures
        Some(r@) == match text::opt_text(known) {
            Some(e) => Some(
                if text::text_le(e, year@) {
                    e
                } else {
                    year@
                },
            ),
            None => Some(year@),
        },
{
    match known {
        Some(e) => if str_le(&e, &year) {
            e
        } else {
            year
        },
        None => year,
    }
}

/// The recordings in a release group have a first one.
proof fn lemma_group_has_member(ts: Seq<described::Tags>, id: Seq<char>)
    requires
        group_ids(ts).contains(id),
    ensures
        ts.filter(in_group(id)).len() > 0,
{
    let f = |t: described::Tags| described::group_of(t);
    text::lemma_distinct(ts.filter_map(f));
    text::lemma_filter_map_source(ts, f, id);
    let k = choose|k: int| 0 <= k < ts.len() && f(#[trigger] ts[k]) == Some(id);
    ts.lemma_filter_contains(in_group(id), k);
}

/// A release group that tags name.
fn collect_group(all: &Vec<&[(String, String)]>, id: &String) -> (r: MemReleaseGroup)
    requires
        group_ids(tag_views(all@)).contains(id@),
    ensures
        r@ == group_at(tag_views(all@), id@),
{
    let ghost ts = tag_views(all@);
    let ghost keep = in_group(id@);
    let ghost f = |t: described::Tags| dated(t);
    let mut first: Option<usize> = None;
    let mut date: Option<String> = None;
    let mut i: usize = 0;
    proof {
        assert(ts.take(0) =~= Seq::empty());
        ts.take(0).lemma_filter_len(keep);
        assert(ts.take(0).filter(keep) =~= Seq::empty());
        assert(ts.take(0).filter(keep).filter_map(f) =~= Seq::empty());
    }
    while i < all.len()
        invariant
            i <= all@.len(),
            ts == tag_views(all@),
            keep == in_group(id@),
            f == (|t: described::Tags| dated(t)),
            match first {
                Some(k) => k < i && ts.take(i as int).filter(keep).len() > 0 && ts.take(
                    i as int,
                ).filter(keep)[0] == ts[k as int],
                None => ts.take(i as int).filter(keep).len() == 0,
            },
            text::opt_text(date) == earliest(ts.take(i as int).filter(keep).filter_map(f)),
        decreases all@.len() - i,
    {
        let ghost members = ts.take(i as int).filter(keep);
        let tags = all[i];
        let ghost t = ts[i as int];
        proof {
            assert(ts.take(i + 1) =~= ts.take(i as int).push(t));
            ts.take(i as int).lemma_filter_push(t, keep);
        }
        let here = match group_id(tags) {
            Some(g) => same_text(&g, id),
            None => false,
        };
        if here {
            proof {
                let more = members.push(t);
                assert(ts.take(i + 1).filter(keep) == more);
                more.lemma_filter_map_take_succ(f, members.len() as int);
                assert(more.take(members.len() as int) =~= members);
                assert(more.take(members.len() as int + 1) =~= more);
            }
            if first.is_none() {
                first = Some(i);
            }
            let ghost found = members.filter_map(f);
            match release_year(tags) {
                Some(year) => {
                    let cs = text::chars_of(&year);
                    if cs.len() > 0 {
                        proof {
                            assert((found + seq![year@]).drop_last() =~= found);
                            assert((found + seq![year@]).last() == year@);
                        }
                        date = Some(earlier(date, year));
                    } else {
                        assert(found + Seq::<Seq<char>>::empty() =~= found);
                    }
                },
                None => {
                    assert(found + Seq::<Seq<char>>::empty() =~= found);
                },
            }
        }
        i = i + 1;
    }
    proof {
        assert(ts.take(ts.len() as int) =~= ts);
        lemma_group_has_member(ts, id@);
    }
    let k: usize = match first {
        Some(k) => k,
        None => 0,
    };
    let tags = all[k];
    proof {
        ts.lemma_filter_pred(keep, 0);
        assert(keep(ts[k as int]));
    }
    let album = match tag_copy(tags, "TALB") {
        Some(a) => a,
        None => "".to_owned(),
    };
    MemReleaseGroup {
        id: id.clone(),
        title: album,
        artist_id: group_artist_id(tags),
        artist_credit_name: album_artist_name(tags),
        release_date: date,
    }
}

/// The release groups that tags name.
fn collect_groups(all: &Vec<&[(String, String)]>) -> (r: Vec<MemReleaseGroup>)
    ensures
        as_groups(r@) == groups_of(tag_views(all@)),
{
    let ids = collect_group_ids(all);
    let ghost ts = tag_views(all@);
    let mut r: Vec<MemReleaseGroup> = Vec::new();
    let mut i: usize = 0;
    while i < ids.len()
        invariant
            i <= ids@.len(),
            ts == tag_views(all@),
            text::texts(ids@) == group_ids(ts),
            r@.len() == i,
            forall|k: int| 0 <= k < i ==> (#[trigger] r@[k])@ == group_at(ts, ids@[k]@),
        decreases ids@.len() - i,
    {
        proof {
            assert(text::texts(ids@)[i as int] == ids@[i as int]@);
            assert(group_ids(ts).contains(ids@[i as int]@));
        }
        r.push(collect_group(all, &ids[i]));
        i = i + 1;
    }
    proof {
        assert(text::texts(ids@).len() == ids@.len());
        assert forall|k: int| 0 <= k < r@.len() implies #[trigger] as_groups(r@)[k] == groups_of(
            ts,
        )[k] by {
            assert(text::texts(ids@)[k] == ids@[k]@);
        }
        assert(as_groups(r@) =~= groups_of(ts));
    }
    r
}

// ── Sorting ──────────────────────────────────────────────────────────────────

/// The lower-case sort name of an artist.
fn artist_key(artists: &Vec<MemArtist>, id: &Option<String>) -> (r: String)
    ensures
        r@ == sort_key(as_credits(artists@), text::opt_text(*id)),
{
    let ghost ids = credit_ids(as_credits(artists@));
    match id {
        None => {
            let r = String::new();
            assert(r@ =~= Seq::empty());
            r
        },
        Some(name) => {
            let mut i: usize = 0;
            while i < artists.len()
                invariant
                    i <= artists@.len(),
                    ids == credit_ids(as_credits(artists@)),
                    forall|k: int| 0 <= k < i ==> ids[k] != name@,
                    *id == Some(*name),
                decreases artists@.len() - i,
            {
                assert(ids[i as int] == artists@[i as int].id@);
                if same_text(&artists[i].id, name) {
                    proof {
                        text::lemma_first_at_is(ids, name@, i as int);
                    }
                    return lower_text(&artists[i].sort_name);
                }
                i = i + 1;
            }
            proof {
                text::lemma_first_at_is(ids, name@, i as int);
            }
            let r = String::new();
            assert(r@ =~= Seq::empty());
            r
        },
    }
}

fn pair_of_texts_le(a0: &str, a1: &str, b0: &str, b1: &str) -> (r: bool)
    ensures
        r == pair_le((a0@, a1@), (b0@, b1@)),
{
    if same_text(a0, b0) {
        str_le(a1, b1)
    } else {
        str_le(a0, b0)
    }
}

fn sort_artists(artists: Vec<MemArtist>) -> (r: Vec<MemArtist>)
    ensures
        as_credits(r@) == sorting::stable_sort(as_credits(artists@), artist_order()),
{
    let ghost order = |a: MemArtist, b: MemArtist| artist_order()(a@, b@);
    proof {
        lemma_orders(Seq::empty());
        sorting::lemma_sort_map(artists@, |a: MemArtist| a@, order, artist_order());
    }
    let le = |a: &MemArtist, b: &MemArtist| -> (r: bool)
        ensures
            r == artist_order()(a@, b@),
        { str_le(&lower_text(&a.sort_name), &lower_text(&b.sort_name)) };
    sort_vec(artists, le, Ghost(order))
}

fn sort_groups(groups: Vec<MemReleaseGroup>, artists: &Vec<MemArtist>) -> (r: Vec<MemReleaseGroup>)
    ensures
        as_groups(r@) == sorting::stable_sort(
            as_groups(groups@),
            group_order(as_credits(artists@)),
        ),
{
    let ghost known = as_credits(artists@);
    let ghost order = |a: MemReleaseGroup, b: MemReleaseGroup| group_order(known)(a@, b@);
    proof {
        lemma_orders(known);
        sorting::lemma_sort_map(
            groups@,
            |g: MemReleaseGroup| g@,
            order,
            group_order(known),
        );
    }
    let le = |a: &MemReleaseGroup, b: &MemReleaseGroup| -> (r: bool)
        ensures
            r == group_order(as_credits(artists@))(a@, b@),
        {
            pair_of_texts_le(
                &artist_key(artists, &a.artist_id),
                &lower_text(&a.title),
                &artist_key(artists, &b.artist_id),
                &lower_text(&b.title),
            )
        };
    sort_vec(groups, le, Ghost(order))
}

fn sort_recordings(recs: Vec<MemRecording>, artists: &Vec<MemArtist>) -> (r: Vec<MemRecording>)
    ensures
        r@ == sorting::stable_sort(recs@, recording_order(as_credits(artists@))),
{
    proof {
        lemma_orders(as_credits(artists@));
    }
    let le = |a: &MemRecording, b: &MemRecording| -> (r: bool)
        ensures
            r == recording_order(as_credits(artists@))(*a, *b),
        {
            pair_of_texts_le(
                &artist_key(artists, &a.primary_artist_id),
                &lower_text(&a.title),
                &artist_key(artists, &b.primary_artist_id),
                &lower_text(&b.title),
            )
        };
    sort_vec(recs, le, Ghost(recording_order(as_credits(artists@))))
}

/// Copies of pairs of texts.
fn clone_pairs(v: &Vec<(String, String)>) -> (r: Vec<(String, String)>)
    ensures
        text::pairs(r@) == text::pairs(v@),
{
    let mut r: Vec<(String, String)> = Vec::new();
    let mut i: usize = 0;
    while i < v.len()
        invariant
            i <= v@.len(),
            r@.len() == i,
            forall|k: int|
                0 <= k < i ==> (#[trigger] r@[k]).0@ == v@[k].0@ && r@[k].1@ == v@[k].1@,
        decreases v@.len() - i,
    {
        r.push((v[i].0.clone(), v[i].1.clone()));
        i = i + 1;
    }
    assert(text::pairs(r@) =~= text::pairs(v@));
    r
}

/// All recordings that rows describe.
fn collect_recordings(all: &CatalogRows) -> (r: Vec<MemRecording>)
    ensures
        tell_recordings(r@, *all, rows::recording_ids(all.sources@)),
        forall|i: int| 0 <= i < r@.len() ==> (#[trigger] r@[i]).sources@.len() > 0,
{
    let keys = recording_keys(&all.sources);
    let ids = listed_recordings(&keys, Ghost(all.sources@));
    let ghost wanted = rows::recording_ids(all.sources@);
    let mut r: Vec<MemRecording> = Vec::new();
    let mut i: usize = 0;
    assert(text::texts(ids@).len() == ids@.len());
    while i < ids.len()
        invariant
            i <= ids@.len(),
            rows::tell_keys(keys@, all.sources@),
            text::texts(ids@) == wanted,
            wanted == rows::recording_ids(all.sources@),
            r@.len() == i,
            forall|k: int|
                0 <= k < i ==> rows::tells_recording(#[trigger] r@[k], *all, wanted[k]),
            forall|k: int| 0 <= k < i ==> (#[trigger] r@[k]).sources@.len() > 0,
        decreases ids@.len() - i,
    {
        proof {
            assert(text::texts(ids@)[i as int] == ids@[i as int]@);
            assert(wanted.contains(ids@[i as int]@));
            rows::lemma_listed_has_source(all.sources@, ids@[i as int]@);
            rows::lemma_stored_len(all.sources@, ids@[i as int]@);
        }
        r.push(build_recording(all, &keys, &ids[i]));
        i = i + 1;
    }
    r
}

impl MemoryCatalog {
    /// Builds the catalogue of what is stored: the tags of the sources are read, and
    /// the rows describe it.
    pub fn from_stored(stored: StoredCatalog) -> (c: MemoryCatalog)
        ensures
            exists|all: CatalogRows| #[trigger]
                rows::reads_catalog(all, stored) && describes(all, c),
    {
        let sources = read_sources(&stored.sources);
        let all = CatalogRows {
            sources,
            source_ratings: stored.source_ratings,
            plays: stored.plays,
            recording_tags: stored.recording_tags,
            playlists: stored.playlists,
        };
        let c = MemoryCatalog::from_rows(&all);
        assert(rows::reads_catalog(all, stored));
        c
    }

    /// Builds the catalogue that rows describe.
    pub fn from_rows(all: &CatalogRows) -> (c: MemoryCatalog)
        ensures
            describes(*all, c),
    {
        let recs = collect_recordings(all);
        let ghost unsorted = recs@;
        let found = collect_artists(&recs);
        let artists = sort_artists(found);
        let every_tags = collect_tags(&recs);
        let groups = collect_groups(&every_tags);
        let release_groups = sort_groups(groups, &artists);
        let recordings = sort_recordings(recs, &artists);
        let c = MemoryCatalog {
            recordings,
            artists,
            release_groups,
            playlists: clone_pairs(&all.playlists),
            source_count: all.sources.len() as i64,
        };
        assert(tell_recordings(unsorted, *all, rows::recording_ids(all.sources@)));
        assert(holds_recordings(c, unsorted));
        c
    }
}

// ── Laws ─────────────────────────────────────────────────────────────────────

proof fn lemma_first_credits(s: Seq<described::Credit>)
    ensures
        credit_ids(first_credits(s)).no_duplicates(),
        forall|i: int|
            0 <= i < s.len() ==> credit_ids(first_credits(s)).contains((#[trigger] s[i]).0),
    decreases s.len(),
{
    let r = first_credits(s);
    if s.len() > 0 {
        let front = first_credits(s.drop_last());
        lemma_first_credits(s.drop_last());
        if !credit_ids(front).contains(s.last().0) {
            assert(credit_ids(r) =~= credit_ids(front).push(s.last().0));
        }
        assert forall|i: int| 0 <= i < s.len() implies credit_ids(r).contains(
            (#[trigger] s[i]).0,
        ) by {
            if i < s.len() - 1 {
                assert(s.drop_last()[i] == s[i]);
                let k = choose|k: int|
                    0 <= k < credit_ids(front).len() && credit_ids(front)[k] == s[i].0;
                assert(credit_ids(r)[k] == s[i].0);
            } else if !credit_ids(front).contains(s.last().0) {
                assert(credit_ids(r)[front.len() as int] == s.last().0);
            }
        }
    }
}

/// The identifiers of recordings.
pub open spec fn catalog_ids(s: Seq<MemRecording>) -> Seq<Seq<char>> {
    s.map_values(|r: MemRecording| r.id@)
}

/// The identifiers of release groups.
pub open spec fn group_keys(s: Seq<Group>) -> Seq<Seq<char>> {
    s.map_values(|g: Group| g.0)
}

proof fn lemma_unsorted_consistent(
    all: CatalogRows,
    recs: Seq<MemRecording>,
)
    requires
        tell_recordings(recs, all, rows::recording_ids(all.sources@)),
    ensures
        catalog_ids(recs).no_duplicates(),
        credit_ids(artists_of(tags_of(recs))).no_duplicates(),
        group_keys(groups_of(group_tags(recs))).no_duplicates(),
        forall|i: int, j: int|
            0 <= i < recs.len() && 0 <= j < recs[i].artist_ids@.len() ==> credit_ids(
                artists_of(tags_of(recs)),
            ).contains((#[trigger] recs[i].artist_ids@[j])@),
        forall|i: int, id: Seq<char>|
            0 <= i < recs.len() && #[trigger] appears::is_in(recs[i], id) ==> group_keys(
                groups_of(group_tags(recs)),
            ).contains(id),
{
    let ts = tags_of(recs);
    let f = |t: described::Tags| described::credits_of(t);
    let g = |t: described::Tags| described::group_of(t);
    text::lemma_distinct(all.sources@.map_values(|r: rows::SourceRecord| rows::recording_key(r)));
    assert(catalog_ids(recs) =~= rows::recording_ids(all.sources@));
    lemma_first_credits(ts.map_values(f).flatten());
    let gs = group_tags(recs);
    text::lemma_distinct(gs.filter_map(g));
    assert(group_keys(groups_of(gs)) =~= group_ids(gs));
    assert forall|i: int, j: int|
        0 <= i < recs.len() && 0 <= j < recs[i].artist_ids@.len() implies credit_ids(
        artists_of(ts),
    ).contains((#[trigger] recs[i].artist_ids@[j])@) by {
        assert(rows::tells_recording(recs[i], all, rows::recording_ids(all.sources@)[i]));
        let c = described::credits_of(ts[i]);
        assert(text::texts(recs[i].artist_ids@)[j] == recs[i].artist_ids@[j]@);
        assert(described::ids_of(ts[i])[j] == c[j].0);
        assert(ts.map_values(f)[i] == c);
        lemma_in_flat(ts.map_values(f), i, j);
        let flat = ts.map_values(f).flatten();
        let k = choose|k: int| 0 <= k < flat.len() && flat[k] == c[j];
        assert(credit_ids(first_credits(flat)).contains(flat[k].0));
    }
    assert forall|i: int, id: Seq<char>|
        0 <= i < recs.len() && #[trigger] appears::is_in(recs[i], id) implies group_keys(
        groups_of(gs),
    ).contains(id) by {
        assert(rows::tells_recording(recs[i], all, rows::recording_ids(all.sources@)[i]));
        appears::lemma_in_by_tags(recs[i], id);
        let row = appears::every_tags(recs[i].sources@);
        let k = choose|k: int|
            0 <= k < row.len() && described::group_of(#[trigger] row[k]) == Some(id);
        let table = recs.map_values(|r: MemRecording| appears::every_tags(r.sources@));
        assert(table[i] == row);
        lemma_in_flat(table, i, k);
        let m = choose|m: int| 0 <= m < gs.len() && gs[m] == row[k];
        assert(g(gs[m]) == Some(id));
        text::lemma_filter_map_keeps(gs, g, m);
    }
}

/// An element of a row is in the flattened rows.
proof fn lemma_in_flat<A>(s: Seq<Seq<A>>, i: int, j: int)
    requires
        0 <= i < s.len(),
        0 <= j < s[i].len(),
    ensures
        s.flatten().contains(s[i][j]),
    decreases s.len(),
{
    let x = s[i][j];
    if i == 0 {
        assert(s.flatten() == s.first() + s.drop_first().flatten());
        assert(s.flatten()[j] == x);
    } else {
        lemma_in_flat(s.drop_first(), i - 1, j);
        let rest = s.drop_first().flatten();
        let k = choose|k: int| 0 <= k < rest.len() && rest[k] == x;
        assert(s.flatten() == s.first() + rest);
        assert(s.flatten()[s.first().len() + k] == x);
    }
}

/// A catalogue built from rows is consistent: no recording, artist or release group
/// occurs twice, and every artist and release group that a recording names is
/// there.
pub proof fn law_catalog_is_consistent(all: CatalogRows, c: MemoryCatalog)
    requires
        describes(all, c),
    ensures
        catalog_ids(c.recordings@).no_duplicates(),
        credit_ids(as_credits(c.artists@)).no_duplicates(),
        group_keys(as_groups(c.release_groups@)).no_duplicates(),
        forall|i: int, j: int|
            0 <= i < c.recordings@.len() && 0 <= j < c.recordings@[i].artist_ids@.len()
                ==> credit_ids(as_credits(c.artists@)).contains(
                (#[trigger] c.recordings@[i].artist_ids@[j])@,
            ),
        forall|i: int, id: Seq<char>|
            0 <= i < c.recordings@.len() && #[trigger] appears::is_in(c.recordings@[i], id)
                ==> group_keys(as_groups(c.release_groups@)).contains(id),
{
    let recs = choose|recs: Seq<MemRecording>|
        #[trigger] tell_recordings(recs, all, rows::recording_ids(all.sources@))
            && holds_recordings(c, recs);
    let known = as_credits(c.artists@);
    lemma_unsorted_consistent(all, recs);
    lemma_orders(known);
    let artists = artists_of(tags_of(recs));
    let groups = groups_of(group_tags(recs));
    sorting::lemma_sort_keeps_distinct(recs, recording_order(known), |r: MemRecording| r.id@);
    sorting::lemma_sort_keeps_distinct(artists, artist_order(), |c: described::Credit| c.0);
    sorting::lemma_sort_keeps_distinct(groups, group_order(known), |g: Group| g.0);
    assert forall|i: int, j: int|
        0 <= i < c.recordings@.len() && 0 <= j
            < c.recordings@[i].artist_ids@.len() implies credit_ids(known).contains(
        (#[trigger] c.recordings@[i].artist_ids@[j])@,
    ) by {
        let r = c.recordings@[i];
        assert(c.recordings@.contains(r));
        sorting::lemma_sort_contains(recs, recording_order(known), r);
        let a = choose|a: int| 0 <= a < recs.len() && recs[a] == r;
        assert(recs[a].artist_ids@[j] == r.artist_ids@[j]);
        let id = r.artist_ids@[j]@;
        let k = choose|k: int| 0 <= k < credit_ids(artists).len() && credit_ids(artists)[k] == id;
        assert(artists.contains(artists[k]));
        sorting::lemma_sort_contains(artists, artist_order(), artists[k]);
        let m = choose|m: int| 0 <= m < known.len() && known[m] == artists[k];
        assert(credit_ids(known)[m] == id);
    }
    assert forall|i: int, id: Seq<char>|
        0 <= i < c.recordings@.len() && #[trigger] appears::is_in(
            c.recordings@[i],
            id,
        ) implies group_keys(as_groups(c.release_groups@)).contains(id) by {
        let r = c.recordings@[i];
        assert(c.recordings@.contains(r));
        sorting::lemma_sort_contains(recs, recording_order(known), r);
        let a = choose|a: int| 0 <= a < recs.len() && recs[a] == r;
        assert(appears::is_in(recs[a], id));
        let k = choose|k: int| 0 <= k < group_keys(groups).len() && group_keys(groups)[k] == id;
        assert(groups.contains(groups[k]));
        sorting::lemma_sort_contains(groups, group_order(known), groups[k]);
        let sorted = as_groups(c.release_groups@);
        let m = choose|m: int| 0 <= m < sorted.len() && sorted[m] == groups[k];
        assert(group_keys(sorted)[m] == id);
    }
}

/// Sources with the same MusicBrainz identifier are sources of one recording: some
/// recording of the catalogue has the paths of both.
pub proof fn law_same_mbid_same_recording(all: CatalogRows, c: MemoryCatalog, i: int, j: int)
    requires
        describes(all, c),
        0 <= i < all.sources@.len(),
        0 <= j < all.sources@.len(),
        rows::mbid_of(text::pairs(all.sources@[i].tags@)) is Some,
        rows::mbid_of(text::pairs(all.sources@[i].tags@)) == rows::mbid_of(
            text::pairs(all.sources@[j].tags@),
        ),
    ensures
        exists|k: int|
            0 <= k < c.recordings@.len() && has_path(
                #[trigger] c.recordings@[k],
                all.sources@[i].file_path,
            ) && has_path(c.recordings@[k], all.sources@[j].file_path),
{
    let recs = choose|recs: Seq<MemRecording>|
        #[trigger] tell_recordings(recs, all, rows::recording_ids(all.sources@))
            && holds_recordings(c, recs);
    let stored = all.sources@;
    let keys = stored.map_values(|r: rows::SourceRecord| rows::recording_key(r));
    let id = rows::recording_key(stored[i]);
    let ids = rows::recording_ids(stored);
    text::lemma_distinct(keys);
    assert(keys[i] == id);
    assert(keys.contains(id));
    assert(ids.contains(id));
    let a = choose|a: int| 0 <= a < ids.len() && ids[a] == id;
    assert(rows::tells_recording(recs[a], all, ids[a]));
    lemma_source_kept(all, recs[a], id, i);
    lemma_source_kept(all, recs[a], id, j);
    let known = as_credits(c.artists@);
    lemma_orders(known);
    assert(recs.contains(recs[a]));
    sorting::lemma_sort_contains(recs, recording_order(known), recs[a]);
    let k = choose|k: int| 0 <= k < c.recordings@.len() && c.recordings@[k] == recs[a];
    assert(has_path(c.recordings@[k], stored[i].file_path));
}

/// Whether a recording has a source with a path.
pub open spec fn has_path(r: MemRecording, path: Option<String>) -> bool {
    exists|k: int| 0 <= k < r.sources@.len() && (#[trigger] r.sources@[k]).file_path == path
}

proof fn lemma_source_kept(all: CatalogRows, r: MemRecording, id: Seq<char>, i: int)
    requires
        rows::tells_recording(r, all, id),
        0 <= i < all.sources@.len(),
        rows::recording_key(all.sources@[i]) == id,
    ensures
        has_path(r, all.sources@[i].file_path),
{
    let stored = all.sources@;
    let keep = |x: rows::SourceRecord| rows::recording_key(x) == id;
    stored.lemma_filter_contains(keep, i);
    rows::lemma_stored_contains(stored, id, stored[i]);
    let wanted = rows::sources_of(stored, id);
    let m = choose|m: int| 0 <= m < wanted.len() && wanted[m] == stored[i];
    assert(r.sources@[m].file_path == stored[i].file_path);
}

/// Whether some recording is in a release group.
pub open spec fn names_group(recs: Seq<MemRecording>, id: Seq<char>) -> bool {
    exists|i: int|
        0 <= i < recs.len() && appears::is_in(#[trigger] recs[i], id)
}

/// Whether some recording credits an artist.
pub open spec fn names_artist(recs: Seq<MemRecording>, id: Seq<char>) -> bool {
    exists|i: int|
        0 <= i < recs.len() && text::texts((#[trigger] recs[i]).artist_ids@).contains(id)
}

proof fn lemma_first_credits_source(s: Seq<described::Credit>, x: described::Credit)
    requires
        first_credits(s).contains(x),
    ensures
        s.contains(x),
    decreases s.len(),
{
    if s.len() > 0 {
        let t = s.drop_last();
        if first_credits(t).contains(x) {
            lemma_first_credits_source(t, x);
            let k = choose|k: int| 0 <= k < t.len() && t[k] == x;
            assert(s[k] == x);
        } else {
            let k = choose|k: int| 0 <= k < first_credits(s).len() && first_credits(s)[k] == x;
            if k < first_credits(t).len() {
                assert(first_credits(t)[k] == x);
            }
            assert(s[s.len() - 1] == x);
        }
    }
}

proof fn lemma_recording_has_source(all: CatalogRows, recs: Seq<MemRecording>, a: int)
    requires
        tell_recordings(recs, all, rows::recording_ids(all.sources@)),
        0 <= a < recs.len(),
    ensures
        recs[a].sources@.len() > 0,
{
    let ids = rows::recording_ids(all.sources@);
    let keys = all.sources@.map_values(|r: rows::SourceRecord| rows::recording_key(r));
    text::lemma_distinct(keys);
    assert(rows::tells_recording(recs[a], all, ids[a]));
    assert(ids.contains(ids[a]));
    assert(keys.contains(ids[a]));
    let m = choose|m: int| 0 <= m < keys.len() && keys[m] == ids[a];
    lemma_source_kept(all, recs[a], ids[a], m);
}

proof fn lemma_group_is_named(all: CatalogRows, recs: Seq<MemRecording>, id: Seq<char>)
    requires
        tell_recordings(recs, all, rows::recording_ids(all.sources@)),
        group_ids(group_tags(recs)).contains(id),
    ensures
        names_group(recs, id),
{
    let ts = group_tags(recs);
    let g = |t: described::Tags| described::group_of(t);
    text::lemma_distinct(ts.filter_map(g));
    text::lemma_filter_map_source(ts, g, id);
    let m = choose|m: int| 0 <= m < ts.len() && g(#[trigger] ts[m]) == Some(id);
    let table = recs.map_values(|r: MemRecording| appears::every_tags(r.sources@));
    assert(ts.contains(ts[m]));
    text::lemma_flatten_contains(table, ts[m]);
    let a = choose|a: int| 0 <= a < table.len() && (#[trigger] table[a]).contains(ts[m]);
    let k = choose|k: int| 0 <= k < table[a].len() && table[a][k] == ts[m];
    assert(rows::tells_recording(recs[a], all, rows::recording_ids(all.sources@)[a]));
    assert(described::group_of(appears::every_tags(recs[a].sources@)[k]) == Some(id));
    appears::lemma_in_by_tags(recs[a], id);
}

proof fn lemma_artist_is_named(
    all: CatalogRows,
    recs: Seq<MemRecording>,
    credit: described::Credit,
)
    requires
        tell_recordings(recs, all, rows::recording_ids(all.sources@)),
        artists_of(tags_of(recs)).contains(credit),
    ensures
        names_artist(recs, credit.0),
{
    let ts = tags_of(recs);
    let f = |t: described::Tags| described::credits_of(t);
    let credited = ts.map_values(f);
    lemma_first_credits_source(credited.flatten(), credit);
    text::lemma_flatten_contains(credited, credit);
    let a = choose|a: int| 0 <= a < credited.len() && (#[trigger] credited[a]).contains(credit);
    assert(rows::tells_recording(recs[a], all, rows::recording_ids(all.sources@)[a]));
    let credits = described::credits_of(ts[a]);
    let j = choose|j: int| 0 <= j < credits.len() && credits[j] == credit;
    assert(described::ids_of(ts[a])[j] == credit.0);
    assert(text::texts(recs[a].artist_ids@).contains(credit.0));
}

/// A catalogue holds nothing that no file asserts: every recording has a source,
/// every release group has a recording, and every artist is credited on one.
pub proof fn law_catalog_holds_what_files_assert(all: CatalogRows, c: MemoryCatalog)
    requires
        describes(all, c),
    ensures
        forall|i: int|
            0 <= i < c.recordings@.len() ==> (#[trigger] c.recordings@[i]).sources@.len() > 0,
        forall|k: int|
            0 <= k < c.release_groups@.len() ==> names_group(
                c.recordings@,
                (#[trigger] c.release_groups@[k]).id@,
            ),
        forall|k: int|
            0 <= k < c.artists@.len() ==> names_artist(
                c.recordings@,
                (#[trigger] c.artists@[k]).id@,
            ),
{
    let recs = choose|recs: Seq<MemRecording>|
        #[trigger] tell_recordings(recs, all, rows::recording_ids(all.sources@))
            && holds_recordings(c, recs);
    let known = as_credits(c.artists@);
    lemma_orders(known);
    assert forall|r: MemRecording| c.recordings@.contains(r) <==> #[trigger] recs.contains(r) by {
        sorting::lemma_sort_contains(recs, recording_order(known), r);
    }
    assert forall|i: int| 0 <= i < c.recordings@.len() implies (
    #[trigger] c.recordings@[i]).sources@.len() > 0 by {
        assert(c.recordings@.contains(c.recordings@[i]));
        assert(recs.contains(c.recordings@[i]));
        let a = choose|a: int| 0 <= a < recs.len() && recs[a] == c.recordings@[i];
        lemma_recording_has_source(all, recs, a);
    }
    assert forall|k: int| 0 <= k < c.release_groups@.len() implies names_group(
        c.recordings@,
        (#[trigger] c.release_groups@[k]).id@,
    ) by {
        let id = c.release_groups@[k].id@;
        let sorted = as_groups(c.release_groups@);
        let groups = groups_of(group_tags(recs));
        assert(sorted[k].0 == id);
        assert(sorted.contains(sorted[k]));
        sorting::lemma_sort_contains(groups, group_order(known), sorted[k]);
        let m = choose|m: int| 0 <= m < groups.len() && groups[m] == sorted[k];
        assert(group_ids(group_tags(recs))[m] == id);
        lemma_group_is_named(all, recs, id);
        let a = choose|a: int|
            0 <= a < recs.len() && appears::is_in(#[trigger] recs[a], id);
        assert(recs.contains(recs[a]));
        let n = choose|n: int| 0 <= n < c.recordings@.len() && c.recordings@[n] == recs[a];
        assert(appears::is_in(c.recordings@[n], id));
    }
    assert forall|k: int| 0 <= k < c.artists@.len() implies names_artist(
        c.recordings@,
        (#[trigger] c.artists@[k]).id@,
    ) by {
        let artists = artists_of(tags_of(recs));
        assert(known[k].0 == c.artists@[k].id@);
        assert(known.contains(known[k]));
        sorting::lemma_sort_contains(artists, artist_order(), known[k]);
        lemma_artist_is_named(all, recs, known[k]);
        let a = choose|a: int|
            0 <= a < recs.len() && text::texts((#[trigger] recs[a]).artist_ids@).contains(
                known[k].0,
            );
        assert(recs.contains(recs[a]));
        let n = choose|n: int| 0 <= n < c.recordings@.len() && c.recordings@[n] == recs[a];
        assert(text::texts(c.recordings@[n].artist_ids@).contains(known[k].0));
    }
}

/// A recording is on every release that one of its files names: the recording that
/// has the file is in the file's release group, and the release group is there.
pub proof fn law_files_place_recordings(
    all: CatalogRows,
    c: MemoryCatalog,
    i: int,
    id: Seq<char>,
)
    requires
        describes(all, c),
        0 <= i < all.sources@.len(),
        described::group_of(text::pairs(all.sources@[i].tags@)) == Some(id),
    ensures
        exists|k: int|
            0 <= k < c.recordings@.len() && has_path(
                #[trigger] c.recordings@[k],
                all.sources@[i].file_path,
            ) && appears::is_in(c.recordings@[k], id),
        group_keys(as_groups(c.release_groups@)).contains(id),
{
    let recs = choose|recs: Seq<MemRecording>|
        #[trigger] tell_recordings(recs, all, rows::recording_ids(all.sources@))
            && holds_recordings(c, recs);
    let stored = all.sources@;
    let keys = stored.map_values(|r: rows::SourceRecord| rows::recording_key(r));
    let key = rows::recording_key(stored[i]);
    let ids = rows::recording_ids(stored);
    text::lemma_distinct(keys);
    assert(keys[i] == key);
    assert(keys.contains(key));
    assert(ids.contains(key));
    let a = choose|a: int| 0 <= a < ids.len() && ids[a] == key;
    assert(rows::tells_recording(recs[a], all, ids[a]));
    lemma_source_kept(all, recs[a], key, i);
    let keep = |x: rows::SourceRecord| rows::recording_key(x) == key;
    stored.lemma_filter_contains(keep, i);
    rows::lemma_stored_contains(stored, key, stored[i]);
    let wanted = rows::sources_of(stored, key);
    let m = choose|m: int| 0 <= m < wanted.len() && wanted[m] == stored[i];
    let tags = appears::every_tags(recs[a].sources@);
    assert(text::pairs(recs[a].sources@[m].tags@) == text::pairs(stored[i].tags@));
    assert(tags[m + 1] == text::pairs(stored[i].tags@));
    appears::lemma_in_by_tags(recs[a], id);
    let known = as_credits(c.artists@);
    lemma_orders(known);
    assert(recs.contains(recs[a]));
    sorting::lemma_sort_contains(recs, recording_order(known), recs[a]);
    let k = choose|k: int| 0 <= k < c.recordings@.len() && c.recordings@[k] == recs[a];
    assert(has_path(c.recordings@[k], stored[i].file_path));
    assert(appears::is_in(c.recordings@[k], id));
    law_catalog_is_consistent(all, c);
}

/// Every recording of the catalogue tells of the sources stored under its identifier,
/// and every source is told of by one.
pub proof fn law_recordings_tell_of_their_sources(all: CatalogRows, c: MemoryCatalog, k: int, i: int)
    requires
        describes(all, c),
        0 <= k < c.recordings@.len(),
        0 <= i < all.sources@.len(),
    ensures
        rows::tells_recording(c.recordings@[k], all, c.recordings@[k].id@),
        exists|n: int|
            0 <= n < c.recordings@.len() && (#[trigger] c.recordings@[n]).id@
                == rows::recording_key(all.sources@[i]),
{
    let recs = choose|recs: Seq<MemRecording>|
        #[trigger] tell_recordings(recs, all, rows::recording_ids(all.sources@))
            && holds_recordings(c, recs);
    let known = as_credits(c.artists@);
    lemma_orders(known);
    let ids = rows::recording_ids(all.sources@);
    let r = c.recordings@[k];
    assert(c.recordings@.contains(r));
    sorting::lemma_sort_contains(recs, recording_order(known), r);
    let a = choose|a: int| 0 <= a < recs.len() && recs[a] == r;
    assert(rows::tells_recording(recs[a], all, ids[a]));
    let keys = all.sources@.map_values(|r: rows::SourceRecord| rows::recording_key(r));
    let key = rows::recording_key(all.sources@[i]);
    text::lemma_distinct(keys);
    assert(keys[i] == key);
    assert(keys.contains(key));
    assert(ids.contains(key));
    let b = choose|b: int| 0 <= b < ids.len() && ids[b] == key;
    assert(rows::tells_recording(recs[b], all, ids[b]));
    assert(recs.contains(recs[b]));
    sorting::lemma_sort_contains(recs, recording_order(known), recs[b]);
    let n = choose|n: int| 0 <= n < c.recordings@.len() && c.recordings@[n] == recs[b];
    assert(c.recordings@[n].id@ == key);
}

/// Tags of the sources of a recording are tags of stored sources.
proof fn lemma_tags_are_stored(all: CatalogRows, recs: Seq<MemRecording>, t: described::Tags)
    requires
        tell_recordings(recs, all, rows::recording_ids(all.sources@)),
        group_tags(recs).contains(t),
    ensures
        exists|i: int|
            0 <= i < all.sources@.len() && text::pairs((#[trigger] all.sources@[i]).tags@) == t,
{
    let table = recs.map_values(|r: MemRecording| appears::every_tags(r.sources@));
    let ids = rows::recording_ids(all.sources@);
    text::lemma_flatten_contains(table, t);
    let a = choose|a: int| 0 <= a < table.len() && (#[trigger] table[a]).contains(t);
    let r = recs[a];
    lemma_recording_has_source(all, recs, a);
    assert(rows::tells_recording(r, all, ids[a]));
    let k = choose|k: int| 0 <= k < table[a].len() && table[a][k] == t;
    let kinds = r.sources@.map_values(|s: super::RawSource| s.source_type@);
    text::lemma_first_at(kinds, "local_file"@);
    let m = if k > 0 {
        k - 1
    } else if super::lists::local_source(r.sources@) < r.sources@.len() {
        super::lists::local_source(r.sources@)
    } else {
        0
    };
    assert(text::pairs(r.sources@[m].tags@) == t);
    rows::law_sources_carry_what_is_stored(r, all, ids[a], m);
}

/// A release group takes its title and its credit from one of its files, and is dated
/// by the earliest year that its files name.
pub proof fn law_group_is_described_by_its_files(all: CatalogRows, c: MemoryCatalog, k: int)
    requires
        describes(all, c),
        0 <= k < c.release_groups@.len(),
    ensures
        exists|i: int|
            0 <= i < all.sources@.len() && {
                let t = text::pairs((#[trigger] all.sources@[i]).tags@);
                let g = c.release_groups@[k];
                &&& described::group_of(t) == Some(g.id@)
                &&& laws::first_says(t, "TALB"@, g.title@)
                &&& forall|artist: Seq<char>|
                    #[trigger] laws::first_says(t, "TPE2"@, artist) ==> text::opt_text(
                        g.artist_credit_name,
                    ) == Some(artist)
                &&& forall|artist: Seq<char>|
                    laws::lacks(t, "TPE2"@) && #[trigger] laws::first_says(t, "TPE1"@, artist)
                        ==> text::opt_text(g.artist_credit_name) == Some(artist)
                &&& forall|id: Seq<char>|
                    #[trigger] laws::first_says(t, "TXXX:MusicBrainz Artist Id"@, id)
                        ==> text::opt_text(g.artist_id) == Some(id)
            },
{
    let recs = choose|recs: Seq<MemRecording>|
        #[trigger] tell_recordings(recs, all, rows::recording_ids(all.sources@))
            && holds_recordings(c, recs);
    let known = as_credits(c.artists@);
    lemma_orders(known);
    let ts = group_tags(recs);
    let groups = groups_of(ts);
    let listed = as_groups(c.release_groups@);
    let g = c.release_groups@[k];
    assert(listed.contains(listed[k]));
    sorting::lemma_sort_contains(groups, group_order(known), listed[k]);
    let n = choose|n: int| 0 <= n < groups.len() && groups[n] == listed[k];
    let id = group_ids(ts)[n];
    assert(group_at(ts, id) == listed[k]);
    assert(group_ids(ts).contains(id));
    lemma_group_has_member(ts, id);
    let members = ts.filter(in_group(id));
    let t = members[0];
    assert(members.contains(t));
    ts.lemma_filter_contains_rev(in_group(id), t);
    ts.lemma_filter_pred(in_group(id), 0);
    lemma_tags_are_stored(all, recs, t);
    let i = choose|i: int|
        0 <= i < all.sources@.len() && text::pairs((#[trigger] all.sources@[i]).tags@) == t;
    laws::law_first_tag_counts(t, "TALB"@);
    laws::law_first_tag_counts(t, "TPE1"@);
    laws::law_first_tag_counts(t, "TPE2"@);
    laws::law_first_tag_counts(t, "TXXX:MusicBrainz Artist Id"@);
    assert(listed[k] == g@);
    assert(described::group_of(text::pairs(all.sources@[i].tags@)) == Some(g.id@));
}

/// The release group of a compilation: two files with the same album and the same album
/// artist are in one release group, whatever artists they name. Where all files of the
/// release group carry that album artist, it is credited to them.
pub proof fn law_compilation_is_one_group(
    all: CatalogRows,
    c: MemoryCatalog,
    i: int,
    j: int,
    album: Seq<char>,
    artist: Seq<char>,
)
    requires
        describes(all, c),
        0 <= i < all.sources@.len(),
        0 <= j < all.sources@.len(),
        laws::first_says(text::pairs(all.sources@[i].tags@), "TALB"@, album),
        laws::first_says(text::pairs(all.sources@[j].tags@), "TALB"@, album),
        laws::first_says(text::pairs(all.sources@[i].tags@), "TPE2"@, artist),
        laws::first_says(text::pairs(all.sources@[j].tags@), "TPE2"@, artist),
        laws::lacks(
            text::pairs(all.sources@[i].tags@),
            "TXXX:MusicBrainz Release Group Id"@,
        ),
        laws::lacks(
            text::pairs(all.sources@[j].tags@),
            "TXXX:MusicBrainz Release Group Id"@,
        ),
    ensures
        exists|k: int|
            0 <= k < c.release_groups@.len() && {
                let id = (#[trigger] c.release_groups@[k]).id@;
                &&& exists|a: int|
                    0 <= a < c.recordings@.len() && has_path(
                        #[trigger] c.recordings@[a],
                        all.sources@[i].file_path,
                    ) && appears::is_in(c.recordings@[a], id)
                &&& exists|b: int|
                    0 <= b < c.recordings@.len() && has_path(
                        #[trigger] c.recordings@[b],
                        all.sources@[j].file_path,
                    ) && appears::is_in(c.recordings@[b], id)
                &&& (forall|m: int|
                    0 <= m < all.sources@.len() && described::group_of(
                        text::pairs((#[trigger] all.sources@[m]).tags@),
                    ) == Some(id) ==> laws::first_says(
                        text::pairs(all.sources@[m].tags@),
                        "TPE2"@,
                        artist,
                    )) ==> text::opt_text(c.release_groups@[k].artist_credit_name) == Some(artist)
            },
{
    let t = text::pairs(all.sources@[i].tags@);
    let u = text::pairs(all.sources@[j].tags@);
    laws::law_album_artist_makes_the_group(t, u, album, artist);
    let id = described::group_of(t)->0;
    law_files_place_recordings(all, c, i, id);
    law_files_place_recordings(all, c, j, id);
    let listed = as_groups(c.release_groups@);
    let k = choose|k: int| 0 <= k < group_keys(listed).len() && group_keys(listed)[k] == id;
    assert(c.release_groups@[k].id@ == id);
    law_group_is_described_by_its_files(all, c, k);
}

/// The earliest of several dates is one of them, and none comes before it.
pub proof fn law_earliest_is_a_bound(s: Seq<Seq<char>>)
    ensures
        match earliest(s) {
            Some(e) => s.contains(e) && forall|i: int|
                0 <= i < s.len() ==> text::text_le(e, #[trigger] s[i]),
            None => s.len() == 0,
        },
    decreases s.len(),
{
    if s.len() > 0 {
        let t = s.drop_last();
        law_earliest_is_a_bound(t);
        assert(s[s.len() - 1] == s.last());
        text::lemma_text_le_total(s.last(), s.last());
        if let Some(e) = earliest(t) {
            let k = choose|k: int| 0 <= k < t.len() && t[k] == e;
            assert(s[k] == e);
            text::lemma_text_le_total(e, s.last());
            assert forall|i: int| 0 <= i < s.len() implies text::text_le(
                earliest(s)->0,
                #[trigger] s[i],
            ) by {
                if i < t.len() {
                    assert(t[i] == s[i]);
                    text::lemma_text_le_transitive(earliest(s)->0, e, s[i]);
                }
            }
        } else {
            assert(t.len() == 0);
        }
    }
}

/// A release group is dated by the earliest year of its files that name one.
pub proof fn law_group_is_dated_by_earliest_year(
    all: CatalogRows,
    c: MemoryCatalog,
    k: int,
    i: int,
    date: Seq<char>,
)
    requires
        describes(all, c),
        0 <= k < c.release_groups@.len(),
        0 <= i < all.sources@.len(),
        described::group_of(text::pairs(all.sources@[i].tags@)) == Some(c.release_groups@[k].id@),
        laws::first_says(text::pairs(all.sources@[i].tags@), "TDRC"@, date),
        date.len() >= 4,
    ensures
        c.release_groups@[k].release_date matches Some(d) && text::text_le(d@, date.take(4)),
{
    let recs = choose|recs: Seq<MemRecording>|
        #[trigger] tell_recordings(recs, all, rows::recording_ids(all.sources@))
            && holds_recordings(c, recs);
    let known = as_credits(c.artists@);
    lemma_orders(known);
    let ts = group_tags(recs);
    let groups = groups_of(ts);
    let listed = as_groups(c.release_groups@);
    let t = text::pairs(all.sources@[i].tags@);
    assert(listed.contains(listed[k]));
    sorting::lemma_sort_contains(groups, group_order(known), listed[k]);
    let n = choose|n: int| 0 <= n < groups.len() && groups[n] == listed[k];
    let id = group_ids(ts)[n];
    assert(group_at(ts, id) == listed[k]);
    assert(listed[k] == c.release_groups@[k]@);
    assert(id == c.release_groups@[k].id@);
    lemma_stored_tags_are_used(all, recs, i);
    let members = ts.filter(in_group(id));
    let m = choose|m: int| 0 <= m < ts.len() && ts[m] == t;
    ts.lemma_filter_contains(in_group(id), m);
    let f = |t: described::Tags| dated(t);
    let p = choose|p: int| 0 <= p < members.len() && members[p] == t;
    laws::law_year_is_front_of_date(t, date);
    assert(described::year_of(t)->0 =~= date.take(4));
    assert(f(members[p]) == Some(date.take(4)));
    text::lemma_filter_map_keeps(members, f, p);
    let dates = members.filter_map(f);
    law_earliest_is_a_bound(dates);
    let q = choose|q: int| 0 <= q < dates.len() && dates[q] == date.take(4);
    assert(text::text_le(earliest(dates)->0, dates[q]));
}

proof fn lemma_stored_tags_are_used(all: CatalogRows, recs: Seq<MemRecording>, i: int)
    requires
        tell_recordings(recs, all, rows::recording_ids(all.sources@)),
        0 <= i < all.sources@.len(),
    ensures
        group_tags(recs).contains(text::pairs(all.sources@[i].tags@)),
{
    let stored = all.sources@;
    let keys = stored.map_values(|r: rows::SourceRecord| rows::recording_key(r));
    let key = rows::recording_key(stored[i]);
    let ids = rows::recording_ids(stored);
    text::lemma_distinct(keys);
    assert(keys[i] == key);
    assert(keys.contains(key));
    assert(ids.contains(key));
    let a = choose|a: int| 0 <= a < ids.len() && ids[a] == key;
    assert(rows::tells_recording(recs[a], all, ids[a]));
    let keep = |x: rows::SourceRecord| rows::recording_key(x) == key;
    stored.lemma_filter_contains(keep, i);
    rows::lemma_stored_contains(stored, key, stored[i]);
    let wanted = rows::sources_of(stored, key);
    let m = choose|m: int| 0 <= m < wanted.len() && wanted[m] == stored[i];
    let row = appears::every_tags(recs[a].sources@);
    assert(rows::tells_source(recs[a].sources@[m], wanted[m], all.source_ratings@));
    assert(row[m + 1] == text::pairs(stored[i].tags@));
    let table = recs.map_values(|r: MemRecording| appears::every_tags(r.sources@));
    assert(table[a] == row);
    lemma_in_flat(table, a, m + 1);
}

/// Artists are listed by their sort names, without regard to case.
pub proof fn law_artists_are_listed_by_sort_name(all: CatalogRows, c: MemoryCatalog, i: int, j: int)
    requires
        describes(all, c),
        0 <= i < j < c.artists@.len(),
    ensures
        text::text_le(
            text::lowercase(c.artists@[i].sort_name@),
            text::lowercase(c.artists@[j].sort_name@),
        ),
{
    let recs = choose|recs: Seq<MemRecording>|
        #[trigger] tell_recordings(recs, all, rows::recording_ids(all.sources@))
            && holds_recordings(c, recs);
    let known = as_credits(c.artists@);
    lemma_orders(known);
    sorting::law_sort_orders(artists_of(tags_of(recs)), artist_order());
    assert(artist_order()(known[i], known[j]));
}

/// Recordings of one artist are listed by title, without regard to case.
pub proof fn law_recordings_of_an_artist_are_listed_by_title(
    all: CatalogRows,
    c: MemoryCatalog,
    i: int,
    j: int,
)
    requires
        describes(all, c),
        0 <= i < j < c.recordings@.len(),
        text::opt_text(c.recordings@[i].primary_artist_id) == text::opt_text(
            c.recordings@[j].primary_artist_id,
        ),
    ensures
        text::text_le(
            text::lowercase(c.recordings@[i].title@),
            text::lowercase(c.recordings@[j].title@),
        ),
{
    let recs = choose|recs: Seq<MemRecording>|
        #[trigger] tell_recordings(recs, all, rows::recording_ids(all.sources@))
            && holds_recordings(c, recs);
    let known = as_credits(c.artists@);
    lemma_orders(known);
    sorting::law_sort_orders(recs, recording_order(known));
    assert(recording_order(known)(c.recordings@[i], c.recordings@[j]));
}

/// Recordings are listed in the order of their artists: of two recordings by different
/// artists the one whose artist is listed first comes first, unless the sort names are
/// the same but for case.
pub proof fn law_recordings_are_listed_by_artist(
    all: CatalogRows,
    c: MemoryCatalog,
    i: int,
    j: int,
    a: int,
    b: int,
)
    requires
        describes(all, c),
        0 <= i < j < c.recordings@.len(),
        0 <= a < c.artists@.len(),
        0 <= b < c.artists@.len(),
        text::opt_text(c.recordings@[i].primary_artist_id) == Some(c.artists@[a].id@),
        text::opt_text(c.recordings@[j].primary_artist_id) == Some(c.artists@[b].id@),
    ensures
        text::text_le(
            text::lowercase(c.artists@[a].sort_name@),
            text::lowercase(c.artists@[b].sort_name@),
        ),
{
    let recs = choose|recs: Seq<MemRecording>|
        #[trigger] tell_recordings(recs, all, rows::recording_ids(all.sources@))
            && holds_recordings(c, recs);
    let known = as_credits(c.artists@);
    lemma_orders(known);
    law_catalog_is_consistent(all, c);
    sorting::law_sort_orders(recs, recording_order(known));
    assert(recording_order(known)(c.recordings@[i], c.recordings@[j]));
    let ids = credit_ids(known);
    text::lemma_first_at(ids, ids[a]);
    text::lemma_first_at(ids, ids[b]);
    assert(ids[a] == c.artists@[a].id@);
    assert(ids[b] == c.artists@[b].id@);
    assert(text::first_at(ids, ids[a]) == a);
    assert(text::first_at(ids, ids[b]) == b);
    text::lemma_text_le_total(
        text::lowercase(known[a].2),
        text::lowercase(known[a].2),
    );
}

/// The catalogue counts the stored sources and keeps the playlists as they are stored.
pub proof fn law_sources_are_counted(all: CatalogRows, c: MemoryCatalog, i: int)
    requires
        describes(all, c),
        all.sources@.len() <= i64::MAX,
        0 <= i < all.playlists@.len(),
    ensures
        c.source_count == all.sources@.len(),
        c.playlists@.len() == all.playlists@.len(),
        c.playlists@[i].0@ == all.playlists@[i].0@,
        c.playlists@[i].1@ == all.playlists@[i].1@,
{
    assert(text::pairs(c.playlists@)[i] == text::pairs(all.playlists@)[i]);
    assert(text::pairs(c.playlists@).len() == c.playlists@.len());
}

/// Groups of one artist are listed by title, without regard to case.
pub proof fn law_groups_of_an_artist_are_listed_by_title(
    all: CatalogRows,
    c: MemoryCatalog,
    i: int,
    j: int,
)
    requires
        describes(all, c),
        0 <= i < j < c.release_groups@.len(),
        text::opt_text(c.release_groups@[i].artist_id) == text::opt_text(
            c.release_groups@[j].artist_id,
        ),
    ensures
        text::text_le(
            text::lowercase(c.release_groups@[i].title@),
            text::lowercase(c.release_groups@[j].title@),
        ),
{
    let recs = choose|recs: Seq<MemRecording>|
        #[trigger] tell_recordings(recs, all, rows::recording_ids(all.sources@))
            && holds_recordings(c, recs);
    let known = as_credits(c.artists@);
    lemma_orders(known);
    sorting::law_sort_orders(groups_of(group_tags(recs)), group_order(known));
    let listed = as_groups(c.release_groups@);
    assert(group_order(known)(listed[i], listed[j]));
}

/// Groups are listed in the order of their artists, as recordings are.
pub proof fn law_groups_are_listed_by_artist(
    all: CatalogRows,
    c: MemoryCatalog,
    i: int,
    j: int,
    a: int,
    b: int,
)
    requires
        describes(all, c),
        0 <= i < j < c.release_groups@.len(),
        0 <= a < c.artists@.len(),
        0 <= b < c.artists@.len(),
        text::opt_text(c.release_groups@[i].artist_id) == Some(c.artists@[a].id@),
        text::opt_text(c.release_groups@[j].artist_id) == Some(c.artists@[b].id@),
    ensures
        text::text_le(
            text::lowercase(c.artists@[a].sort_name@),
            text::lowercase(c.artists@[b].sort_name@),
        ),
{
    let recs = choose|recs: Seq<MemRecording>|
        #[trigger] tell_recordings(recs, all, rows::recording_ids(all.sources@))
            && holds_recordings(c, recs);
    let known = as_credits(c.artists@);
    lemma_orders(known);
    law_catalog_is_consistent(all, c);
    sorting::law_sort_orders(groups_of(group_tags(recs)), group_order(known));
    let listed = as_groups(c.release_groups@);
    assert(group_order(known)(listed[i], listed[j]));
    let ids = credit_ids(known);
    text::lemma_first_at(ids, ids[a]);
    text::lemma_first_at(ids, ids[b]);
    assert(ids[a] == c.artists@[a].id@);
    assert(ids[b] == c.artists@[b].id@);
    assert(text::first_at(ids, ids[a]) == a);
    assert(text::first_at(ids, ids[b]) == b);
    text::lemma_text_le_total(
        text::lowercase(known[a].2),
        text::lowercase(known[a].2),
    );
}

/// Where no artist is listed for a group or a recording, it stands before all those
/// whose artist is listed under a sort name.
pub proof fn law_unattributed_come_first(
    all: CatalogRows,
    c: MemoryCatalog,
    i: int,
    j: int,
    b: int,
)
    requires
        describes(all, c),
        0 <= b < c.artists@.len(),
        text::lowercase(c.artists@[b].sort_name@).len() > 0,
    ensures
        0 <= i < c.release_groups@.len() && 0 <= j < c.release_groups@.len()
            && c.release_groups@[i].artist_id is None && text::opt_text(
            c.release_groups@[j].artist_id,
        ) == Some(c.artists@[b].id@) ==> i < j,
        0 <= i < c.recordings@.len() && 0 <= j < c.recordings@.len()
            && c.recordings@[i].primary_artist_id is None && text::opt_text(
            c.recordings@[j].primary_artist_id,
        ) == Some(c.artists@[b].id@) ==> i < j,
{
    let recs = choose|recs: Seq<MemRecording>|
        #[trigger] tell_recordings(recs, all, rows::recording_ids(all.sources@))
            && holds_recordings(c, recs);
    let known = as_credits(c.artists@);
    lemma_orders(known);
    law_catalog_is_consistent(all, c);
    sorting::law_sort_orders(groups_of(group_tags(recs)), group_order(known));
    sorting::law_sort_orders(recs, recording_order(known));
    let listed = as_groups(c.release_groups@);
    let ids = credit_ids(known);
    text::lemma_first_at(ids, ids[b]);
    assert(ids[b] == c.artists@[b].id@);
    assert(text::first_at(ids, ids[b]) == b);
    assert(!text::text_le(text::lowercase(known[b].2), Seq::<char>::empty()));
    if 0 <= j < i < listed.len() {
        assert(group_order(known)(listed[j], listed[i]));
    }
    if 0 <= j < i < c.recordings@.len() {
        assert(recording_order(known)(c.recordings@[j], c.recordings@[i]));
    }
}

/// The date of a group is no empty text, and a stored file of the group gives it as its
/// year.
pub proof fn law_group_date_is_a_year_of_a_file(all: CatalogRows, c: MemoryCatalog, k: int)
    requires
        describes(all, c),
        0 <= k < c.release_groups@.len(),
        c.release_groups@[k].release_date is Some,
    ensures
        c.release_groups@[k].release_date->0@.len() > 0,
        exists|i: int|
            0 <= i < all.sources@.len() && {
                let t = text::pairs((#[trigger] all.sources@[i]).tags@);
                &&& described::group_of(t) == Some(c.release_groups@[k].id@)
                &&& described::year_of(t) == Some(c.release_groups@[k].release_date->0@)
            },
{
    let recs = choose|recs: Seq<MemRecording>|
        #[trigger] tell_recordings(recs, all, rows::recording_ids(all.sources@))
            && holds_recordings(c, recs);
    let known = as_credits(c.artists@);
    lemma_orders(known);
    let ts = group_tags(recs);
    let groups = groups_of(ts);
    let listed = as_groups(c.release_groups@);
    assert(listed.contains(listed[k]));
    sorting::lemma_sort_contains(groups, group_order(known), listed[k]);
    let n = choose|n: int| 0 <= n < groups.len() && groups[n] == listed[k];
    let id = group_ids(ts)[n];
    assert(group_at(ts, id) == listed[k]);
    assert(listed[k] == c.release_groups@[k]@);
    let members = ts.filter(in_group(id));
    let f = |t: described::Tags| dated(t);
    let dates = members.filter_map(f);
    law_earliest_is_a_bound(dates);
    let d = earliest(dates)->0;
    text::lemma_filter_map_source(members, f, d);
    let q = choose|q: int| 0 <= q < members.len() && f(#[trigger] members[q]) == Some(d);
    let t = members[q];
    assert(members.contains(t));
    ts.lemma_filter_contains_rev(in_group(id), t);
    ts.lemma_filter_pred(in_group(id), q);
    lemma_tags_are_stored(all, recs, t);
    let i = choose|i: int|
        0 <= i < all.sources@.len() && text::pairs((#[trigger] all.sources@[i]).tags@) == t;
    assert(described::group_of(text::pairs(all.sources@[i].tags@)) == Some(id));
}

/// An artist is listed as the first credit with its identifier gives it.
pub proof fn law_first_credit_counts(s: Seq<described::Credit>, i: int)
    requires
        0 <= i < s.len(),
        forall|j: int| 0 <= j < i ==> (#[trigger] s[j]).0 != s[i].0,
    ensures
        first_credits(s).contains(s[i]),
    decreases s.len(),
{
    let front = first_credits(s.drop_last());
    if i < s.len() - 1 {
        assert(s.drop_last()[i] == s[i]);
        law_first_credit_counts(s.drop_last(), i);
        let k = choose|k: int| 0 <= k < front.len() && front[k] == s[i];
        assert(first_credits(s)[k] == s[i]);
    } else {
        if credit_ids(front).contains(s[i].0) {
            let k = choose|k: int|
                0 <= k < credit_ids(front).len() && credit_ids(front)[k] == s[i].0;
            assert(front.contains(front[k]));
            lemma_first_credits_source(s.drop_last(), front[k]);
            let j = choose|j: int| 0 <= j < s.drop_last().len() && s.drop_last()[j] == front[k];
            assert(s[j].0 == s[i].0);
        }
        assert(first_credits(s)[front.len() as int] == s[i]);
    }
}

} // verus!
