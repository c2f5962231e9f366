//! What is told of a recording, an artist or a release group in detail.
use vstd::prelude::*;
use vstd::utf8::*;
use crate::digest;
use crate::models::{
    ArtistDetail, GuestAppearanceReleaseGroup, MediumDetail, RecordingDetail, ReleaseDetail,
    ReleaseGroupDetail, SmartPlaylistResult,
};
use crate::query::{ExprModel, Limit};
use crate::sorting;
use crate::storage::completeness;
use crate::text;
use super::appears;
use super::appears::{Appearance, Placement};
use super::artists;
use super::artists::Spot;
use super::detail;
use super::groups;
use super::groups::Claim;
use super::lists;
use super::rows;
use super::rows::{CatalogRows, SourceRecord, StoredCatalog, StoredSource};
use super::smart;
use super::{MemRecording, MemReleaseGroup, MemoryCatalog};

verus! {

// ── Appearances ──────────────────────────────────────────────────────────────

/// A release group is called by its title where the catalogue knows it, the first under
/// its identifier, and by nothing where it does not.
pub proof fn law_groups_are_called_by_title(s: Seq<MemReleaseGroup>, id: Seq<char>, k: int)
    requires
        0 <= k <= s.len(),
        forall|i: int| 0 <= i < k ==> (#[trigger] s[i]).id@ != id,
        k < s.len() ==> s[k].id@ == id,
    ensures
        lists::group_place(s, id) == k,
        k < s.len() ==> lists::group_title(s, id) == s[k].title@,
        k == s.len() ==> lists::group_title(s, id).len() == 0,
{
    let ids = s.map_values(|g: MemReleaseGroup| g.id@);
    assert forall|i: int| 0 <= i < k implies ids[i] != id by {
        assert(s[i].id@ != id);
    }
    text::lemma_first_at_is(ids, id, k);
}

/// A release group has as many discs as the highest disc of a recording in it says, where
/// a recording on no known disc is on the first.
pub proof fn law_discs_are_counted_by_the_highest(
    recs: Seq<MemRecording>,
    id: Seq<char>,
    i: int,
)
    requires
        0 <= i < recs.len(),
        appears::is_in(recs[i], id),
    ensures
        lists::disc_total_of(recs, id) matches Some(n) && n >= match appears::disc_in(recs[i], id) {
            Some(d) => d,
            None => 1,
        } && (n == 0 || exists|k: int|
            0 <= k < recs.len() && appears::is_in(#[trigger] recs[k], id) && n
                == match appears::disc_in(recs[k], id) {
                Some(d) => d,
                None => 1,
            }),
{
    let places = lists::group_recordings(recs, id);
    super::shown::law_group_recordings_are_exact(recs, id);
    lists::lemma_group_recordings(recs, id);
    assert(places.contains(i));
    let k = choose|k: int| 0 <= k < places.len() && places[k] == i;
    super::shown::law_highest_disc_is_a_bound(recs, places, id, k);
    let n = lists::highest_disc(recs, places, id);
    if n != 0 {
        let j = choose|j: int|
            0 <= j < places.len() && lists::disc_of(recs[#[trigger] places[j]], id) == n;
        assert(appears::is_in(recs[places[j]], id));
    }
}

/// A recording appears on the release groups in which its sources place it, with its
/// positions there, by the groups' titles.
pub proof fn law_appearances_are_placements(rec: MemRecording, c: MemoryCatalog, a: Appearance)
    ensures
        appears::appearances(rec, c).contains(a) <==> exists|i: int|
            0 <= i < rec.placements@.len() && a.0 == (#[trigger] rec.placements@[i]).id@ && a.1
                == lists::group_title(c.release_groups@, rec.placements@[i].id@) && a.2
                == rec.placements@[i].track && a.3 == rec.placements@[i].disc && a.4
                == lists::disc_total_of(c.recordings@, rec.placements@[i].id@),
        forall|i: int, j: int|
            0 <= i < j < appears::appearances(rec, c).len() ==> text::text_le(
                (#[trigger] appears::appearances(rec, c)[i]).1,
                (#[trigger] appears::appearances(rec, c)[j]).1,
            ),
{
    let le = appears::title_order();
    let all = appears::placed_views(rec.placements@).map_values(
        |p: Placement| appears::shown(p, c),
    );
    let r = appears::appearances(rec, c);
    assert forall|x: Appearance, y: Appearance| #[trigger] le(x, y) || le(y, x) by {
        text::lemma_text_le_total(x.1, y.1);
    }
    assert forall|x: Appearance, y: Appearance, z: Appearance| #[trigger]
        le(x, y) && #[trigger] le(y, z) implies le(x, z) by {
        text::lemma_text_le_transitive(x.1, y.1, z.1);
    }
    sorting::law_sort_orders(all, le);
    sorting::lemma_sort_contains(all, le, a);
    assert forall|i: int, j: int| 0 <= i < j < r.len() implies text::text_le(
        (#[trigger] r[i]).1,
        (#[trigger] r[j]).1,
    ) by {
        assert(le(r[i], r[j]));
    }
    if all.contains(a) {
        let i = choose|i: int| 0 <= i < all.len() && all[i] == a;
        assert(a.0 == rec.placements@[i].id@);
    }
    if exists|i: int|
        0 <= i < rec.placements@.len() && a.0 == (#[trigger] rec.placements@[i]).id@ && a.1
            == lists::group_title(c.release_groups@, rec.placements@[i].id@) && a.2
            == rec.placements@[i].track && a.3 == rec.placements@[i].disc && a.4
            == lists::disc_total_of(c.recordings@, rec.placements@[i].id@) {
        let i = choose|i: int|
            0 <= i < rec.placements@.len() && a.0 == (#[trigger] rec.placements@[i]).id@ && a.1
                == lists::group_title(c.release_groups@, rec.placements@[i].id@) && a.2
                == rec.placements@[i].track && a.3 == rec.placements@[i].disc && a.4
                == lists::disc_total_of(c.recordings@, rec.placements@[i].id@);
        assert(all[i] == a);
    }
}

// ── Recordings ───────────────────────────────────────────────────────────────

/// A recording is told with all that is known of it, its artists in order, the first of
/// them as the main one, and its sources.
pub proof fn law_recording_is_told(d: RecordingDetail, rec: MemRecording, c: MemoryCatalog, i: int)
    requires
        detail::tells_recording(d, rec, c),
        rec.artist_ids@.len() <= i64::MAX,
    ensures
        d.id@ == rec.id@ && d.title@ == rec.title@,
        d.duration_ms == rec.duration_ms,
        text::opt_text(d.genre) == text::opt_text(rec.genre),
        text::opt_text(d.bpm) == text::opt_text(rec.bpm),
        text::opt_text(d.comment) == text::opt_text(rec.comment),
        text::opt_text(d.artist_credit_name) == text::opt_text(rec.artist_credit_name),
        text::opt_text(d.primary_artist_id) == text::opt_text(rec.primary_artist_id),
        d.play_count == rec.play_count,
        text::opt_text(d.last_played) == text::opt_text(rec.last_played),
        d.artists@.len() == rec.artist_ids@.len(),
        0 <= i < d.artists@.len() ==> {
            let a = d.artists@[i];
            &&& a.artist_id@ == rec.artist_ids@[i]@
            &&& a.position == i
            &&& i == 0 ==> a.role@ == "main"@
            &&& i > 0 ==> a.role@ == "featuring"@
            &&& i < rec.all_artist_names@.len() ==> a.name@ == rec.all_artist_names@[i]@
        },
        d.sources@.len() == rec.sources@.len(),
        0 <= i < d.sources@.len() ==> {
            let s = d.sources@[i];
            let src = rec.sources@[i];
            &&& s.id@ == src.id@
            &&& s.source_type@ == src.source_type@
            &&& text::opt_text(s.file_path) == text::opt_text(src.file_path)
            &&& text::opt_text(s.format) == text::opt_text(src.format)
            &&& s.duration_ms == src.duration_ms
            &&& s.replay_gain_track_db_bits == src.replay_gain_track_db_bits
            &&& s.replay_gain_track_peak_bits == src.replay_gain_track_peak_bits
            &&& s.tags@.len() == src.tags@.len()
            &&& forall|k: int|
                0 <= k < s.tags@.len() ==> (#[trigger] s.tags@[k]).frame_id@ == src.tags@[k].0@
                    && s.tags@[k].value@ == src.tags@[k].1@ && s.tags@[k].field_name@
                    == super::shown_field(src.tags@[k].0@)
        },
{
    if 0 <= i < d.artists@.len() {
        assert(detail::tells_artist(d.artists@[i], rec, i));
    }
    if 0 <= i < d.sources@.len() {
        let s = d.sources@[i];
        let src = rec.sources@[i];
        assert(detail::tells_source(s, src));
        assert forall|k: int| 0 <= k < s.tags@.len() implies (#[trigger] s.tags@[k]).frame_id@
            == src.tags@[k].0@ && s.tags@[k].value@ == src.tags@[k].1@ && s.tags@[k].field_name@
            == super::shown_field(src.tags@[k].0@) by {
            assert(super::shows_tag(s.tags@[k], src.tags@[k]));
        }
    }
}

/// A recording is found where its identifier first stands.
pub proof fn law_recording_is_found(recs: Seq<MemRecording>, id: Seq<char>, k: int)
    requires
        0 <= k <= recs.len(),
        forall|i: int| 0 <= i < k ==> (#[trigger] recs[i]).id@ != id,
        k < recs.len() ==> recs[k].id@ == id,
    ensures
        detail::recording_place(recs, id) == k,
{
    let ids = recs.map_values(|r: MemRecording| r.id@);
    assert forall|i: int| 0 <= i < k implies ids[i] != id by {
        assert(recs[i].id@ != id);
    }
    text::lemma_first_at_is(ids, id, k);
}

/// A tag of the user is shown under its description.
pub proof fn law_user_tags_show_description(description: Seq<char>)
    ensures
        super::shown_field("TXXX:"@ + description) == "User Text ("@ + description + ")"@,
{
    reveal_strlit("TXXX:");
    reveal_strlit("TIT2");
    reveal_strlit("TPE1");
    reveal_strlit("TPE2");
    reveal_strlit("TALB");
    reveal_strlit("TRCK");
    reveal_strlit("TPOS");
    reveal_strlit("TYER");
    reveal_strlit("TDRC");
    reveal_strlit("TCON");
    reveal_strlit("TBPM");
    reveal_strlit("COMM");
    reveal_strlit("TSOP");
    let key = "TXXX:"@ + description;
    assert(key[1] == 'X' && key[0] == 'T' && key.len() >= 5);
    assert(key.take(5) =~= "TXXX:"@);
    assert("TXXX:"@.is_prefix_of(key));
    assert(key.skip(5) =~= description);
}

/// The names under which common tags are shown.
pub proof fn law_common_tags_are_named()
    ensures
        super::shown_field("TIT2"@) == "Title"@,
        super::shown_field("TPE1"@) == "Artist"@,
        super::shown_field("TPE2"@) == "Album Artist"@,
        super::shown_field("TALB"@) == "Album"@,
        super::shown_field("TRCK"@) == "Track Number"@,
        super::shown_field("TPOS"@) == "Disc Number"@,
        super::shown_field("TYER"@) == "Year"@,
        super::shown_field("TDRC"@) == "Year"@,
        super::shown_field("TCON"@) == "Genre"@,
        super::shown_field("TBPM"@) == "BPM"@,
        super::shown_field("COMM"@) == "Comment"@,
        super::shown_field("TSOP"@) == "Performer Sort Order"@,
{
    reveal_strlit("TIT2");
    reveal_strlit("TPE1");
    reveal_strlit("TPE2");
    reveal_strlit("TALB");
    reveal_strlit("TRCK");
    reveal_strlit("TPOS");
    reveal_strlit("TYER");
    reveal_strlit("TDRC");
    reveal_strlit("TCON");
    reveal_strlit("TBPM");
    reveal_strlit("COMM");
    reveal_strlit("TSOP");
    assert("TIT2"@[1] == 'I');
    assert("TPE1"@[1] == 'P' && "TPE1"@[2] == 'E' && "TPE1"@[3] == '1');
    assert("TPE2"@[1] == 'P' && "TPE2"@[2] == 'E' && "TPE2"@[3] == '2');
    assert("TALB"@[1] == 'A');
    assert("TRCK"@[1] == 'R');
    assert("TPOS"@[1] == 'P' && "TPOS"@[2] == 'O');
    assert("TYER"@[1] == 'Y');
    assert("TDRC"@[1] == 'D');
    assert("TCON"@[1] == 'C');
    assert("TBPM"@[1] == 'B');
    assert("COMM"@[0] == 'C');
    assert("TSOP"@[1] == 'S');
}

/// Names that differ only in case and in blanks around them go by one identifier, which
/// tells its kind and has sixteen digits.
pub proof fn law_names_are_hashed(kind: Seq<char>, a: Seq<char>, b: Seq<char>)
    ensures
        text::trim(text::lowercase(a)) == text::trim(text::lowercase(b)) ==> super::hashed_name(
            kind,
            a,
        ) == super::hashed_name(kind, b),
        super::hashed_name(kind, a) == "mem-"@ + kind + "-"@ + digest::hex_text(
            digest::sha256_of(encode_utf8(text::trim(text::lowercase(a)))).take(8),
        ),
{
}

// ── Release groups ───────────────────────────────────────────────────────────

/// A release group is told under its name, with one release as long as there is a
/// recording in it.
pub proof fn law_group_is_told(d: ReleaseGroupDetail, id: Seq<char>, c: MemoryCatalog, place: int)
    requires
        groups::tells_group(d, id, c, place),
    ensures
        ({
            let g = c.release_groups@[place];
            &&& d.id@ == g.id@ && d.title@ == g.title@
            &&& text::opt_text(d.artist_credit_name) == text::opt_text(g.artist_credit_name)
            &&& text::opt_text(d.primary_artist_id) == text::opt_text(g.artist_id)
            &&& text::opt_text(d.release_date) == text::opt_text(g.release_date)
            &&& d.releases@.len() == 1 <==> exists|i: int|
                0 <= i < c.recordings@.len() && appears::is_in(#[trigger] c.recordings@[i], id)
            &&& d.releases@.len() <= 1
            &&& d.releases@.len() == 1 ==> d.releases@[0].title@ == g.title@ && text::opt_text(
                d.releases@[0].release_date,
            ) == text::opt_text(g.release_date)
        }),
{
    let places = lists::group_recordings(c.recordings@, id);
    super::shown::law_group_recordings_are_exact(c.recordings@, id);
    if places.len() > 0 {
        assert(places.contains(places[0]));
        assert(appears::is_in(c.recordings@[places[0]], id));
    }
    if exists|i: int|
        0 <= i < c.recordings@.len() && appears::is_in(#[trigger] c.recordings@[i], id) {
        let i = choose|i: int|
            0 <= i < c.recordings@.len() && appears::is_in(#[trigger] c.recordings@[i], id);
        assert(places.contains(i));
    }
}

/// The front of a text within a number of bytes; of plain ASCII as many characters.
pub proof fn law_front_of_ascii(s: Seq<char>, n: int)
    requires
        forall|i: int| 0 <= i < s.len() ==> (#[trigger] s[i]) as u32 <= 127,
        0 <= n,
    ensures
        n <= s.len() ==> groups::front_within(s, n) == s.take(n),
        n >= s.len() ==> groups::front_within(s, n) == s,
    decreases s.len(),
{
    if s.len() > 0 {
        let rest = s.skip(1);
        assert(s[0] as u32 <= 127);
        if n > 0 {
            assert forall|i: int| 0 <= i < rest.len() implies (#[trigger] rest[i]) as u32
                <= 127 by {
                assert(rest[i] == s[i + 1]);
            }
            law_front_of_ascii(rest, n - 1);
            assert(n <= s.len() ==> seq![s[0]] + rest.take(n - 1) =~= s.take(n));
            assert(seq![s[0]] + rest =~= s);
        } else {
            assert(groups::front_within(s, n) =~= s.take(n));
        }
    } else {
        assert(groups::front_within(s, n) =~= s);
        if n == 0 {
            assert(s.take(0) =~= s);
        }
    }
}

/// The parts of a release go by its identifier's front and their positions.
pub proof fn law_parts_of_release_are_named(
    r: ReleaseDetail,
    id: Seq<char>,
    c: MemoryCatalog,
    place: int,
    places: Seq<usize>,
    i: int,
    k: int,
)
    requires
        groups::tells_release(r, id, c, place, places),
        0 <= i < r.mediums@.len(),
        0 <= k < r.mediums@[i].tracks@.len(),
    ensures
        r.id@ == "mem-rel-"@ + groups::front_within(id, 16),
        r.mediums@[i].id@ == "mem-medium-"@ + groups::front_within(id, 16) + "-"@
            + text::signed_decimal(r.mediums@[i].position as int),
        r.mediums@[i].tracks@[k].id@ == "mem-track-"@ + groups::front_within(id, 16) + "-"@
            + text::signed_decimal(r.mediums@[i].position as int) + "-"@ + text::signed_decimal(
            r.mediums@[i].tracks@[k].position as int,
        ),
        r.mediums@.len() == groups::discs_of(c.recordings@, lists::as_ints(places), id).len(),
        r.mediums@[i].position == groups::discs_of(c.recordings@, lists::as_ints(places), id)[i],
{
    let discs = groups::discs_of(c.recordings@, lists::as_ints(places), id);
    let m = r.mediums@[i];
    assert(groups::tells_medium(m, id, discs[i], c.recordings@, places));
    let slots = groups::slots_of(c.recordings@, places, id, discs[i]);
    assert(groups::tells_track(m.tracks@[k], id, discs[i], slots[k], c.recordings@));
}

/// A track tells of its recording, and of the first local file of that.
pub proof fn law_track_tells_of_recording(
    m: MediumDetail,
    id: Seq<char>,
    disc: i64,
    recs: Seq<MemRecording>,
    places: Seq<usize>,
    k: int,
    f: int,
)
    requires
        groups::tells_medium(m, id, disc, recs, places),
        0 <= k < m.tracks@.len(),
    ensures
        exists|j: int|
            0 <= j < places.len() && {
                let rec = recs[#[trigger] places[j] as int];
                let t = m.tracks@[k];
                &&& t.recording_id@ == rec.id@
                &&& t.recording_title@ == rec.title@
                &&& t.duration_ms == rec.duration_ms
                &&& text::opt_text(t.artist_credit_name) == text::opt_text(rec.artist_credit_name)
                &&& text::opt_text(t.primary_artist_id) == text::opt_text(rec.primary_artist_id)
                &&& t.has_source <==> rec.sources@.len() > 0
                &&& t.title is None
                &&& lists::disc_of(rec, id) == disc
                &&& t.position == groups::track_of(rec, id)
                &&& 0 <= f < rec.sources@.len() && rec.sources@[f].source_type@ == "local_file"@ && (
                forall|x: int|
                    0 <= x < f ==> (#[trigger] rec.sources@[x]).source_type@ != "local_file"@)
                    ==> text::opt_text(t.primary_source_id) == Some(rec.sources@[f].id@)
                &&& (forall|x: int|
                    0 <= x < rec.sources@.len() ==> (#[trigger] rec.sources@[x]).source_type@
                        != "local_file"@) ==> t.primary_source_id is None
            },
{
    let slots = groups::slots_of(recs, places, id, disc);
    let pick = |i: usize|
        if lists::disc_of(recs[i as int], id) == disc {
            Some((groups::track_of(recs[i as int], id), i))
        } else {
            None
        };
    let found = places.filter_map(pick);
    groups::lemma_slot_order();
    let slot = slots[k];
    assert(slots.contains(slot));
    sorting::lemma_sort_contains(found, groups::slot_order(), slot);
    text::lemma_filter_map_source(places, pick, slot);
    let j = choose|j: int| 0 <= j < places.len() && pick(#[trigger] places[j]) == Some(slot);
    let rec = recs[places[j] as int];
    let t = m.tracks@[k];
    assert(groups::tells_track(t, id, disc, slot, recs));
    let kinds = rec.sources@.map_values(|s: super::RawSource| s.source_type@);
    if 0 <= f < rec.sources@.len() && rec.sources@[f].source_type@ == "local_file"@ && (forall|x:
        int|
        0 <= x < f ==> (#[trigger] rec.sources@[x]).source_type@ != "local_file"@) {
        assert forall|x: int| 0 <= x < f implies kinds[x] != "local_file"@ by {
            assert(rec.sources@[x].source_type@ != "local_file"@);
        }
        text::lemma_first_at_is(kinds, "local_file"@, f);
    }
    if forall|x: int|
        0 <= x < rec.sources@.len() ==> (#[trigger] rec.sources@[x]).source_type@
            != "local_file"@ {
        assert forall|x: int| 0 <= x < kinds.len() implies kinds[x] != "local_file"@ by {
            assert(rec.sources@[x].source_type@ != "local_file"@);
        }
        text::lemma_first_at_is(kinds, "local_file"@, kinds.len() as int);
    }
    assert(places[j] == slot.1);
}

/// Where the claims for a disc contradict each other, each number is told in order, with
/// the paths that claim it; claims that agree are not told.
pub proof fn law_contradicting_claims_are_told(claims: Seq<Claim>, disc: i64, p: Seq<char>, k: int)
    ensures
        (forall|i: int, j: int|
            0 <= i < claims.len() && 0 <= j < claims.len() ==> (#[trigger] claims[i]).0 == (
            #[trigger] claims[j]).0) ==> groups::disc_groups(claims, disc).len() == 0,
        forall|i: int, j: int|
            0 <= i < claims.len() && 0 <= j < claims.len() && (#[trigger] claims[i]).0 != (
            #[trigger] claims[j]).0 ==> groups::disc_groups(claims, disc).len()
                == detail::claimed_totals(groups::totals_in(claims)).len(),
        0 <= k < groups::disc_groups(claims, disc).len() ==> (groups::disc_groups(
            claims,
            disc,
        )[k].1.contains(p) <==> exists|i: int|
            0 <= i < claims.len() && (#[trigger] claims[i]).0 == detail::claimed_totals(
                groups::totals_in(claims),
            )[k] && claims[i].1 == Some(p)),
{
    let totals = groups::totals_in(claims);
    if forall|i: int, j: int|
        0 <= i < claims.len() && 0 <= j < claims.len() ==> (#[trigger] claims[i]).0 == (
        #[trigger] claims[j]).0 {
        assert forall|i: int, j: int|
            0 <= i < totals.len() && 0 <= j < totals.len() implies totals[i] == totals[j] by {
            assert(claims[i].0 == claims[j].0);
        }
        assert(completeness::unanimous(totals));
    }
    assert forall|i: int, j: int|
        0 <= i < claims.len() && 0 <= j < claims.len() && (#[trigger] claims[i]).0 != (
        #[trigger] claims[j]).0 implies groups::disc_groups(claims, disc).len()
        == detail::claimed_totals(totals).len() by {
        assert(totals[i] != totals[j]);
    }
    let told = groups::disc_groups(claims, disc);
    if 0 <= k < told.len() {
        let n = detail::claimed_totals(totals)[k];
        let pick = groups::claiming(n);
        if told[k].1.contains(p) {
            text::lemma_filter_map_source(claims, pick, p);
            let i = choose|i: int| 0 <= i < claims.len() && pick(#[trigger] claims[i]) == Some(p);
            assert(claims[i].0 == n);
        }
        if exists|i: int|
            0 <= i < claims.len() && (#[trigger] claims[i]).0 == n && claims[i].1 == Some(p) {
            let i = choose|i: int|
                0 <= i < claims.len() && (#[trigger] claims[i]).0 == n && claims[i].1 == Some(p);
            text::lemma_filter_map_keeps(claims, pick, i);
        }
    }
}

/// The numbers that are claimed are listed once each and in order.
pub proof fn law_claimed_numbers_are_listed(claims: Seq<i64>, n: i64)
    ensures
        detail::claimed_totals(claims).contains(n) <==> claims.contains(n),
        detail::claimed_totals(claims).no_duplicates(),
        forall|i: int, j: int|
            0 <= i < j < detail::claimed_totals(claims).len() ==> #[trigger] detail::claimed_totals(
                claims,
            )[i] <= #[trigger] detail::claimed_totals(claims)[j],
{
    let le = sorting::number_order();
    let d = text::distinct(claims);
    let r = detail::claimed_totals(claims);
    text::lemma_distinct(claims);
    assert(sorting::total_preorder(le));
    sorting::law_sort_orders(d, le);
    sorting::lemma_sort_contains(d, le, n);
    sorting::lemma_sort_keeps_distinct(d, le, |t: i64| t);
    assert(d.map_values(|t: i64| t) =~= d);
    assert(r.map_values(|t: i64| t) =~= r);
    assert forall|i: int, j: int| 0 <= i < j < r.len() implies #[trigger] r[i]
        <= #[trigger] r[j] by {
        assert(le(r[i], r[j]));
    }
}

// ── Guests ───────────────────────────────────────────────────────────────────

/// A guest appearance tells of its release group, and of the tracks on which the artist
/// is a guest: by disc, and on a disc by position, those without one first.
pub proof fn law_guest_tracks_are_told(
    r: GuestAppearanceReleaseGroup,
    c: MemoryCatalog,
    artist: Seq<char>,
    places: Seq<usize>,
    group: Seq<char>,
    k: int,
)
    requires
        artists::tells_guest(r, c, artist, places, group),
        0 <= k < c.release_groups@.len(),
        c.release_groups@[k].id@ == group,
        forall|i: int| 0 <= i < k ==> (#[trigger] c.release_groups@[i]).id@ != group,
    ensures
        r.id@ == group,
        r.title@ == c.release_groups@[k].title@,
        text::opt_text(r.release_date) == text::opt_text(c.release_groups@[k].release_date),
        text::opt_text(r.primary_artist_id) == text::opt_text(c.release_groups@[k].artist_id),
        text::opt_text(r.artist_credit_name) == text::opt_text(
            c.release_groups@[k].artist_credit_name,
        ),
        forall|i: int, j: int|
            0 <= i < j < r.tracks@.len() && (#[trigger] r.tracks@[i]).disc_position is Some && (
            #[trigger] r.tracks@[j]).disc_position is Some ==> r.tracks@[i].disc_position->0
                <= r.tracks@[j].disc_position->0,
        forall|i: int, j: int|
            0 <= i < j < r.tracks@.len() && (#[trigger] r.tracks@[j]).disc_position is None ==> (
            #[trigger] r.tracks@[i]).disc_position is None,
        forall|i: int, j: int|
            0 <= i < j < r.tracks@.len() && (#[trigger] r.tracks@[i]).disc_position == (
            #[trigger] r.tracks@[j]).disc_position && r.tracks@[i].track_position is Some
                && r.tracks@[j].track_position is Some ==> r.tracks@[i].track_position->0
                <= r.tracks@[j].track_position->0,
        forall|j: int|
            0 <= j < places.len() && (#[trigger] places[j]) < c.recordings@.len() && {
                let rec = c.recordings@[places[j] as int];
                &&& rec.artist_ids@.len() > 0 && rec.artist_ids@[0]@ != artist
                &&& text::texts(rec.artist_ids@).contains(artist)
                &&& appears::is_in(rec, group)
                &&& forall|g: int|
                    0 <= g < c.release_groups@.len() && (#[trigger] c.release_groups@[g]).id@
                        == group ==> text::opt_text(c.release_groups@[g].artist_id) != Some(artist)
            } ==> exists|i: int|
                0 <= i < r.tracks@.len() && (#[trigger] r.tracks@[i]).recording_id@
                    == c.recordings@[places[j] as int].id@ && r.tracks@[i].recording_title@
                    == c.recordings@[places[j] as int].title@,
{
    law_groups_are_called_by_title(c.release_groups@, group, k);
    let spots = artists::guest_spots(c, artist, places, group);
    let pick = |i: usize|
        if artists::guest_in(c, artist, i as int, group) {
            Some(
                (
                    appears::disc_in(c.recordings@[i as int], group),
                    appears::track_in(c.recordings@[i as int], group),
                    i,
                ),
            )
        } else {
            None
        };
    let found = places.filter_map(pick);
    let le = artists::spot_order();
    artists::lemma_orders();
    sorting::law_sort_orders(found, le);
    assert forall|i: int| 0 <= i < r.tracks@.len() implies (#[trigger] r.tracks@[i]).disc_position
        == spots[i].0 && r.tracks@[i].track_position == spots[i].1 && r.tracks@[i].recording_id@
        == c.recordings@[spots[i].2 as int].id@ && r.tracks@[i].recording_title@
        == c.recordings@[spots[i].2 as int].title@ by {
        assert(artists::tells_guest_track(
            r.tracks@[i],
            c.recordings@[spots[i].2 as int],
            group,
        ));
        assert(spots.contains(spots[i]));
        sorting::lemma_sort_contains(found, le, spots[i]);
        text::lemma_filter_map_source(places, pick, spots[i]);
        let j = choose|j: int| 0 <= j < places.len() && pick(#[trigger] places[j]) == Some(spots[i]);
        assert(pick(places[j]) is Some);
    }
    assert forall|i: int, j: int| 0 <= i < j < spots.len() implies le(
        #[trigger] spots[i],
        #[trigger] spots[j],
    ) by {}
    assert forall|j: int|
        0 <= j < places.len() && (#[trigger] places[j]) < c.recordings@.len() && {
            let rec = c.recordings@[places[j] as int];
            &&& rec.artist_ids@.len() > 0 && rec.artist_ids@[0]@ != artist
            &&& text::texts(rec.artist_ids@).contains(artist)
            &&& appears::is_in(rec, group)
            &&& forall|g: int|
                0 <= g < c.release_groups@.len() && (#[trigger] c.release_groups@[g]).id@ == group
                    ==> text::opt_text(c.release_groups@[g].artist_id) != Some(artist)
        } implies exists|i: int|
        0 <= i < r.tracks@.len() && (#[trigger] r.tracks@[i]).recording_id@
            == c.recordings@[places[j] as int].id@ && r.tracks@[i].recording_title@
            == c.recordings@[places[j] as int].title@ by {
        assert(artists::guest_in(c, artist, places[j] as int, group));
        text::lemma_filter_map_keeps(places, pick, j);
        let x: Spot = pick(places[j])->0;
        sorting::lemma_sort_contains(found, le, x);
        let i = choose|i: int| 0 <= i < spots.len() && spots[i] == x;
        assert(r.tracks@[i].recording_id@ == c.recordings@[places[j] as int].id@);
    }
}

/// An artist is told with the guest appearances on all release groups that the catalogue
/// knows.
pub proof fn law_guest_appearances_are_told(
    d: ArtistDetail,
    c: MemoryCatalog,
    place: int,
    id: Seq<char>,
    k: int,
)
    requires
        artists::tells_artist(d, c, place, id),
        0 <= k < c.release_groups@.len(),
        artists::guest_groups(c, id).contains(c.release_groups@[k].id@),
    ensures
        exists|i: int|
            0 <= i < d.guest_appearances@.len() && (#[trigger] d.guest_appearances@[i]).id@
                == c.release_groups@[k].id@,
        d.sort_name@ == c.artists@[place].sort_name@,
{
    let group = c.release_groups@[k].id@;
    let keep = artists::known_group(c);
    let all = artists::guest_groups(c, id);
    let places = lists::artist_recordings(c.recordings@, id);
    let ids = c.release_groups@.map_values(|g: MemReleaseGroup| g.id@);
    assert(ids[k] == group);
    text::lemma_first_at(ids, group);
    let m = choose|m: int| 0 <= m < all.len() && all[m] == group;
    all.lemma_filter_contains(keep, m);
    let kept = all.filter(keep);
    let n = choose|n: int| 0 <= n < kept.len() && kept[n] == group;
    let guests = choose|guests: Seq<GuestAppearanceReleaseGroup>|
        #[trigger] artists::tell_guests(guests, c, id, artists::as_places(places), kept)
            && d.guest_appearances@ == sorting::stable_sort(guests, artists::guest_order());
    assert(artists::tells_guest(guests[n], c, id, artists::as_places(places), kept[n]));
    artists::lemma_orders();
    assert(guests.contains(guests[n]));
    sorting::lemma_sort_contains(guests, artists::guest_order(), guests[n]);
    let i = choose|i: int|
        0 <= i < d.guest_appearances@.len() && d.guest_appearances@[i] == guests[n];
    assert(d.guest_appearances@[i].id@ == group);
}

// ── What is stored ───────────────────────────────────────────────────────────

/// What is stored of a source is read as it is; tags that cannot be read are none.
pub proof fn law_stored_sources_are_read(
    row: SourceRecord,
    stored: StoredSource,
    tags: Seq<(Seq<char>, Seq<char>)>,
)
    requires
        rows::reads_source(row, stored),
    ensures
        row.id@ == stored.id@ && row.recording_id@ == stored.recording_id@,
        row.source_type@ == stored.source_type@,
        text::opt_text(row.file_path) == text::opt_text(stored.file_path),
        text::opt_text(row.format) == text::opt_text(stored.format),
        row.duration_ms == stored.duration_ms,
        row.replay_gain_track_db_bits == stored.replay_gain_track_db_bits,
        row.replay_gain_track_peak_bits == stored.replay_gain_track_peak_bits,
        stored.raw_tags_json is Some && rows::tags_in_json(stored.raw_tags_json->0@) == Some(tags)
            ==> text::pairs(row.tags@) == tags,
        stored.raw_tags_json is Some && rows::tags_in_json(stored.raw_tags_json->0@) is None
            ==> row.tags@.len() == 0,
        stored.raw_tags_json is None ==> row.tags@.len() == 0,
{
    assert(text::pairs(row.tags@).len() == row.tags@.len());
}

/// A catalogue is read source by source, with all else as it is stored.
pub proof fn law_stored_catalogue_is_read(read: CatalogRows, stored: StoredCatalog, i: int)
    requires
        rows::reads_catalog(read, stored),
    ensures
        read.sources@.len() == stored.sources@.len(),
        0 <= i < read.sources@.len() ==> rows::reads_source(read.sources@[i], stored.sources@[i]),
        read.source_ratings@ == stored.source_ratings@,
        read.plays@ == stored.plays@,
        read.recording_tags@ == stored.recording_tags@,
        read.playlists@ == stored.playlists@,
{
    if 0 <= i < read.sources@.len() {
        assert(rows::reads_source(read.sources@[i], stored.sources@[i]));
    }
}

// ── Playlists ────────────────────────────────────────────────────────────────

/// A playlist tells how long it plays, and the query it was made from.
pub proof fn law_playlist_tells_its_query(
    result: SmartPlaylistResult,
    c: MemoryCatalog,
    q: Seq<char>,
    e: ExprModel,
    limit: Option<Limit>,
    albums: Seq<(String, i64)>,
    now: i64,
)
    requires
        smart::is_playlist(result, c, q, e, limit, albums, now),
    ensures
        result.sql@ == "(evaluated in-memory from query: "@ + q + ")"@,
        result.total_duration_ms == crate::storage::playlist::total_ms(result.recordings@),
{
}

/// A number in front of a slash, and one behind it, may have blanks around them.
pub proof fn law_blanks_around_numbers(a: Seq<char>, b: Seq<char>)
    requires
        !a.contains('/'),
    ensures
        super::slash_number(a + seq!['/'] + b, 0) == text::number(text::trim(a)),
        super::slash_number(a + seq!['/'] + b, 1) == text::number(text::trim(b)),
        super::slash_number(a, 0) == text::number(text::trim(a)),
        super::slash_number(a, 1) is None,
        super::before_slash(a + seq!['/'] + b) == text::number(text::trim(a)),
        super::before_slash(a) == text::number(text::trim(a)),
{
    let s = a + seq!['/'] + b;
    let n = a.len() as int;
    assert forall|i: int| 0 <= i < n implies s[i] != '/' && a[i] != '/' by {
        assert(a.contains(a[i]));
        assert(s[i] == a[i]);
    }
    assert(s[n] == '/');
    text::lemma_first_at_is(s, '/', n);
    text::lemma_first_at_is(a, '/', n);
    assert(s.take(n) =~= a);
    assert(s.skip(n + 1) =~= b);
    reveal_with_fuel(text::split_limited, 3);
    assert(text::split_limited(s, '/', 2) =~= seq![a, b]);
    assert(text::split_limited(a, '/', 2) =~= seq![a]);
    assert(text::split(s, '/')[0] == a);
}

} // verus!
