//! What the catalogue in memory tells of a release group.
use vstd::prelude::*;
use vstd::utf8::*;
use crate::models;
use crate::models::{
    non_empty, MediumDetail, MissingTrackDetail, ReleaseCompleteness, ReleaseDetail,
    ReleaseGroupDetail, SourceDisagreementGroup, TrackDetail,
};
use crate::sorting;
use crate::sorting::{sort_numbers, sort_vec};
use crate::storage::completeness;
use crate::storage::completeness::{
    all_same, claim_word_of, distinct_numbers, plural_of,
};
use crate::text;
use crate::text::{chars_of, same_text, signed_string, string_from_chars};
use super::appears;
use super::appears::{find_placed, place};
use super::described;
use super::detail;
use super::detail::{disc_completeness, DiscCompleteness};
use super::laws;
use super::lists;
use super::lists::{clone_opt, disc_or_first, find_local};
use super::{MemRecording, MemoryCatalog, RawSource};

verus! {

// ── Meaning ──────────────────────────────────────────────────────────────────

/// The longest front of a text that takes at most `n` bytes.
pub open spec fn front_within(s: Seq<char>, n: int) -> Seq<char>
    decreases s.len(),
{
    if s.len() > 0 && encode_scalar(s[0] as u32).len() <= n {
        seq![s[0]] + front_within(s.skip(1), n - encode_scalar(s[0] as u32).len())
    } else {
        Seq::empty()
    }
}

/// The position of a recording on its disc in a release group, zero when it is
/// unknown.
pub open spec fn track_of(r: MemRecording, id: Seq<char>) -> i64 {
    match appears::track_in(r, id) {
        Some(t) => t,
        None => 0,
    }
}

/// The discs of recordings in a release group, in order.
pub open spec fn discs_of(recs: Seq<MemRecording>, places: Seq<int>, id: Seq<char>) -> Seq<i64> {
    sorting::stable_sort(
        text::distinct(places.map_values(|i: int| lists::disc_of(recs[i], id))),
        sorting::number_order(),
    )
}

/// A track of a disc: its position and the place of its recording.
pub type Slot = (i64, usize);

/// The order of tracks on a disc.
pub open spec fn slot_order() -> spec_fn(Slot, Slot) -> bool {
    |a: Slot, b: Slot| a.0 <= b.0
}

/// The tracks of a disc, in order.
pub open spec fn slots_of(
    recs: Seq<MemRecording>,
    places: Seq<usize>,
    id: Seq<char>,
    disc: i64,
) -> Seq<Slot> {
    sorting::stable_sort(
        places.filter_map(
            |i: usize|
                if lists::disc_of(recs[i as int], id) == disc {
                    Some((track_of(recs[i as int], id), i))
                } else {
                    None
                },
        ),
        slot_order(),
    )
}

/// A track total that a source claims, and the path of the source.
pub type Claim = (i64, Option<Seq<char>>);

/// What a source claims of a disc of a release group, if it is on that disc.
pub open spec fn claim_by(s: RawSource, id: Seq<char>, disc: i64) -> Option<Claim> {
    match appears::placement(text::pairs(s.tags@)) {
        Some(p) => {
            let on = match p.2 {
                Some(d) => d,
                None => 1,
            };
            match p.3 {
                Some(n) => if p.0 == id && on == disc {
                    Some((n, text::opt_text(s.file_path)))
                } else {
                    None
                },
                None => None,
            }
        },
        None => None,
    }
}

/// What the sources of a recording claim of a disc.
pub open spec fn claims_by(r: MemRecording, id: Seq<char>, disc: i64) -> Seq<Claim> {
    r.sources@.filter_map(|s: RawSource| claim_by(s, id, disc))
}

/// What the sources of a disc claim of it.
pub open spec fn disc_claims(
    recs: Seq<MemRecording>,
    slots: Seq<Slot>,
    id: Seq<char>,
    disc: i64,
) -> Seq<Claim> {
    slots.map_values(|s: Slot| claims_by(recs[s.1 as int], id, disc)).flatten()
}

/// The track totals of claims.
pub open spec fn totals_in(claims: Seq<Claim>) -> Seq<i64> {
    claims.map_values(|c: Claim| c.0)
}

/// The path of a source that claims a total.
pub open spec fn claiming(total: i64) -> spec_fn(Claim) -> Option<Seq<char>> {
    |c: Claim|
        if c.0 == total {
            c.1
        } else {
            None
        }
}

/// The paths of the sources that claim a total.
pub open spec fn paths_for(claims: Seq<Claim>, total: i64) -> Seq<Seq<char>> {
    claims.filter_map(claiming(total))
}

/// The sources that claim one total for a disc.
pub open spec fn claimants(claims: Seq<Claim>, disc: i64, total: i64) -> completeness::Group {
    let paths = paths_for(claims, total);
    let count = paths.len() as int;
    (
        text::decimal(count as nat) + " source"@ + completeness::plural(count) + " "@
            + completeness::claim_word(count) + " "@ + text::signed_decimal(total as int)
            + " track"@ + completeness::plural(total as int) + " on disc "@
            + text::signed_decimal(disc as int),
        paths,
    )
}

/// The groups of sources that contradict each other about a disc.
pub open spec fn disc_groups(claims: Seq<Claim>, disc: i64) -> Seq<completeness::Group> {
    if completeness::unanimous(totals_in(claims)) {
        Seq::empty()
    } else {
        detail::claimed_totals(totals_in(claims)).map_values(
            |t: i64| claimants(claims, disc, t),
        )
    }
}

/// The positions of a disc at which a track is present.
pub open spec fn present_on(slots: Seq<Slot>) -> Seq<i64> {
    slots.filter_map(
        |s: Slot|
            if s.0 > 0 {
                Some(s.0)
            } else {
                None
            },
    )
}

/// Whether `t` tells of a track.
pub open spec fn tells_track(
    t: TrackDetail,
    id: Seq<char>,
    disc: i64,
    slot: Slot,
    recs: Seq<MemRecording>,
) -> bool {
    let rec = recs[slot.1 as int];
    let local = lists::local_source(rec.sources@);
    &&& t.id@ == "mem-track-"@ + front_within(id, 16) + "-"@ + text::signed_decimal(disc as int)
        + "-"@ + text::signed_decimal(slot.0 as int)
    &&& t.position == slot.0
    &&& t.title is None
    &&& t.duration_ms == rec.duration_ms
    &&& t.recording_id == rec.id
    &&& t.recording_title == rec.title
    &&& t.artist_credit_name == rec.artist_credit_name
    &&& t.primary_artist_id == rec.primary_artist_id
    &&& t.has_source == (rec.sources@.len() > 0)
    &&& text::opt_text(t.primary_source_id) == if local < rec.sources@.len() {
        Some(rec.sources@[local].id@)
    } else {
        None
    }
}

/// Whether `m` tells of a disc.
pub open spec fn tells_medium(
    m: MediumDetail,
    id: Seq<char>,
    disc: i64,
    recs: Seq<MemRecording>,
    places: Seq<usize>,
) -> bool {
    let slots = slots_of(recs, places, id, disc);
    &&& m.id@ == "mem-medium-"@ + front_within(id, 16) + "-"@ + text::signed_decimal(disc as int)
    &&& m.position == disc
    &&& m.format is None
    &&& m.tracks@.len() == slots.len()
    &&& forall|i: int|
        0 <= i < m.tracks@.len() ==> tells_track(#[trigger] m.tracks@[i], id, disc, slots[i], recs)
}

/// Whether `v` judges a disc by its tracks.
pub open spec fn judges(
    v: DiscCompleteness,
    recs: Seq<MemRecording>,
    places: Seq<usize>,
    id: Seq<char>,
    disc: i64,
) -> bool {
    let slots = slots_of(recs, places, id, disc);
    detail::judges_disc(
        v,
        disc,
        present_on(slots),
        totals_in(disc_claims(recs, slots, id, disc)),
    )
}

/// The place of the first disc that cannot be judged.
pub open spec fn first_unknown(verdicts: Seq<DiscCompleteness>) -> Option<int>
    decreases verdicts.len(),
{
    if verdicts.len() == 0 {
        None
    } else {
        match first_unknown(verdicts.drop_last()) {
            Some(k) => Some(k),
            None => if verdicts.last() is Unknown {
                Some(verdicts.len() - 1)
            } else {
                None
            },
        }
    }
}

proof fn lemma_first_unknown(verdicts: Seq<DiscCompleteness>)
    ensures
        match first_unknown(verdicts) {
            Some(k) => 0 <= k < verdicts.len() && verdicts[k] is Unknown && forall|i: int|
                0 <= i < k ==> !(#[trigger] verdicts[i] is Unknown),
            None => forall|i: int| 0 <= i < verdicts.len() ==> !(#[trigger] verdicts[i] is Unknown),
        },
    decreases verdicts.len(),
{
    if verdicts.len() > 0 {
        let front = verdicts.drop_last();
        lemma_first_unknown(front);
        assert forall|i: int| 0 <= i < front.len() implies front[i] == #[trigger] verdicts[i] by {}
    }
}

/// The tracks that are missing on some discs.
pub open spec fn all_missing(verdicts: Seq<DiscCompleteness>) -> Seq<completeness::Missing>
    decreases verdicts.len(),
{
    if verdicts.len() == 0 {
        Seq::empty()
    } else {
        all_missing(verdicts.drop_last()) + match verdicts.last() {
            DiscCompleteness::Incomplete(missing) => completeness::missing_views(missing@),
            _ => Seq::empty(),
        }
    }
}

/// Whether `r` sums up the verdicts on the discs of a release. Where one of them
/// cannot be judged, the sources that contradict each other about it are named.
pub open spec fn sums_up(
    r: ReleaseCompleteness,
    verdicts: Seq<DiscCompleteness>,
    groups: Seq<Seq<completeness::Group>>,
) -> bool {
    match first_unknown(verdicts) {
        Some(k) => {
            &&& r is Unknown
            &&& verdicts[k] matches DiscCompleteness::Unknown(why) && r->reason@ == why@
            &&& completeness::group_views(r->disagreement_groups@) == groups[k]
        },
        None => if all_missing(verdicts).len() > 0 {
            &&& r is Incomplete
            &&& completeness::missing_views(models::missing_items(r->missing_tracks))
                == all_missing(verdicts)
        } else {
            r is Complete
        },
    }
}

/// The groups of sources that contradict each other about discs, disc by disc.
pub open spec fn groups_by_disc(
    recs: Seq<MemRecording>,
    places: Seq<usize>,
    id: Seq<char>,
    discs: Seq<i64>,
) -> Seq<Seq<completeness::Group>> {
    discs.map_values(
        |d: i64| disc_groups(disc_claims(recs, slots_of(recs, places, id, d), id, d), d),
    )
}

/// Whether verdicts judge the discs of a release.
pub open spec fn judge_all(
    verdicts: Seq<DiscCompleteness>,
    recs: Seq<MemRecording>,
    places: Seq<usize>,
    id: Seq<char>,
    discs: Seq<i64>,
) -> bool {
    &&& verdicts.len() == discs.len()
    &&& forall|i: int|
        0 <= i < discs.len() ==> judges(#[trigger] verdicts[i], recs, places, id, discs[i])
}

/// Whether `r` tells of the one release of a release group.
pub open spec fn tells_release(
    r: ReleaseDetail,
    id: Seq<char>,
    c: MemoryCatalog,
    place: int,
    places: Seq<usize>,
) -> bool {
    let g = c.release_groups@[place];
    let discs = discs_of(c.recordings@, lists::as_ints(places), id);
    &&& r.id@ == "mem-rel-"@ + front_within(id, 16)
    &&& r.title == g.title
    &&& r.release_date == g.release_date
    &&& r.country is None
    &&& r.label is None
    &&& r.catalog_number is None
    &&& r.mediums@.len() == discs.len()
    &&& forall|i: int|
        0 <= i < r.mediums@.len() ==> tells_medium(
            #[trigger] r.mediums@[i],
            id,
            discs[i],
            c.recordings@,
            places,
        )
    &&& exists|verdicts: Seq<DiscCompleteness>|
        #[trigger] judge_all(verdicts, c.recordings@, places, id, discs) && sums_up(
            r.completeness,
            verdicts,
            groups_by_disc(c.recordings@, places, id, discs),
        )
}

/// Whether `d` tells of the release group at a place.
pub open spec fn tells_group(
    d: ReleaseGroupDetail,
    id: Seq<char>,
    c: MemoryCatalog,
    place: int,
) -> bool {
    let g = c.release_groups@[place];
    let places = lists::group_recordings(c.recordings@, id);
    &&& d.id == g.id
    &&& d.title == g.title
    &&& d.rg_type is None
    &&& d.artist_credit_name == g.artist_credit_name
    &&& d.primary_artist_id == g.artist_id
    &&& d.ratings@ == lists::ratings_of(c.recordings@, places)
    &&& text::opt_text(d.last_played) == lists::last_played_of(c.recordings@, places)
    &&& d.release_date == g.release_date
    &&& if places.len() == 0 {
        d.releases@.len() == 0
    } else {
        d.releases@.len() == 1 && tells_release(
            d.releases@[0],
            id,
            c,
            place,
            Seq::new(places.len(), |i: int| places[i] as usize),
        )
    }
}

// ── Executable ───────────────────────────────────────────────────────────────

/// The longest front of a text that takes at most `limit` bytes.
fn front_of(s: &str, limit: usize) -> (r: String)
    ensures
        r@ == front_within(s@, limit as int),
{
    let cs = chars_of(s);
    let mut left: usize = limit;
    let mut i: usize = 0;
    assert(cs@.skip(0) =~= cs@);
    assert(cs@.take(0) + front_within(cs@, limit as int) =~= front_within(cs@, limit as int));
    loop
        invariant
            i <= cs@.len(),
            cs@ == s@,
            cs@.take(i as int) + front_within(cs@.skip(i as int), left as int) == front_within(
                s@,
                limit as int,
            ),
        ensures
            i <= cs@.len(),
            cs@.take(i as int) == front_within(s@, limit as int),
        decreases cs@.len() - i,
    {
        if i >= cs.len() {
            assert(cs@.take(i as int) + front_within(cs@.skip(i as int), left as int)
                =~= cs@.take(i as int));
            break;
        }
        let code: u32 = cs[i] as u32;
        let width: usize = if code <= 0x7F {
            1
        } else if code <= 0x7FF {
            2
        } else if code <= 0xFFFF {
            3
        } else {
            4
        };
        proof {
            char_is_scalar(cs@[i as int]);
            assert(cs@.skip(i as int)[0] == cs@[i as int]);
            assert(width == encode_scalar(code).len());
            assert(cs@.skip(i as int).skip(1) =~= cs@.skip(i + 1));
        }
        if width > left {
            assert(cs@.take(i as int) + front_within(cs@.skip(i as int), left as int)
                =~= cs@.take(i as int));
            break;
        }
        proof {
            let rest = front_within(cs@.skip(i + 1), left - width);
            assert(cs@.take(i as int) + (seq![cs@[i as int]] + rest) =~= cs@.take(i + 1) + rest);
        }
        left = left - width;
        i = i + 1;
    }
    string_from_chars(vstd::slice::slice_subrange(cs.as_slice(), 0, i))
}

fn track_or_zero(rec: &MemRecording, id: &str) -> (t: i64)
    ensures
        t == track_of(*rec, id@),
{
    match find_placed(rec, id) {
        Some(p) => match p.track {
            Some(t) => t,
            None => 0,
        },
        None => 0,
    }
}

/// What claims say.
spec fn claim_views(v: Seq<(i64, Option<String>)>) -> Seq<Claim> {
    v.map_values(|c: (i64, Option<String>)| (c.0, text::opt_text(c.1)))
}

/// Adds what the sources of a recording claim of a disc.
fn push_claims(out: &mut Vec<(i64, Option<String>)>, rec: &MemRecording, id: &str, disc: i64)
    ensures
        claim_views(final(out)@) == claim_views(old(out)@) + claims_by(*rec, id@, disc),
{
    let ghost start = claim_views(out@);
    let ghost all = rec.sources@;
    let ghost f = |s: RawSource| claim_by(s, id@, disc);
    let mut i: usize = 0;
    proof {
        assert(all.take(0) =~= Seq::empty());
        assert(start + all.take(0).filter_map(f) =~= start);
    }
    while i < rec.sources.len()
        invariant
            i <= rec.sources@.len(),
            all == rec.sources@,
            f == (|s: RawSource| claim_by(s, id@, disc)),
            claim_views(out@) == start + all.take(i as int).filter_map(f),
        decreases rec.sources@.len() - i,
    {
        let source = &rec.sources[i];
        let ghost before = claim_views(out@);
        proof {
            all.lemma_filter_map_take_succ(f, i as int);
        }
        let mut claimed: Option<i64> = None;
        if let Some(p) = place(source.tags.as_slice()) {
            let on: i64 = match p.disc {
                Some(d) => d,
                None => 1,
            };
            if on == disc && same_text(&p.id, id) {
                claimed = p.total;
            }
        }
        match claimed {
            Some(n) => {
                out.push((n, clone_opt(&source.file_path)));
                proof {
                    let c = (n, text::opt_text(source.file_path));
                    assert(claim_views(out@) =~= before.push(c));
                    assert(start + all.take(i + 1).filter_map(f) =~= before.push(c));
                }
            },
            None => {
                assert(start + all.take(i + 1).filter_map(f) =~= before);
            },
        }
        i = i + 1;
    }
    assert(all.take(all.len() as int) =~= all);
}

/// The track totals of claims.
fn totals_of(claims: &Vec<(i64, Option<String>)>) -> (r: Vec<i64>)
    ensures
        r@ == totals_in(claim_views(claims@)),
{
    let mut r: Vec<i64> = Vec::new();
    let mut i: usize = 0;
    while i < claims.len()
        invariant
            i <= claims@.len(),
            r@.len() == i,
            forall|k: int| 0 <= k < i ==> r@[k] == (#[trigger] claims@[k]).0,
        decreases claims@.len() - i,
    {
        r.push(claims[i].0);
        i = i + 1;
    }
    assert(r@ =~= totals_in(claim_views(claims@)));
    r
}

/// The paths of the sources that claim a total.
fn paths_claiming(claims: &Vec<(i64, Option<String>)>, total: i64) -> (r: Vec<String>)
    ensures
        text::texts(r@) == paths_for(claim_views(claims@), total),
{
    let ghost all = claim_views(claims@);
    let ghost f = claiming(total);
    let mut r: Vec<String> = Vec::new();
    let mut i: usize = 0;
    proof {
        assert(all.take(0) =~= Seq::empty());
        assert(text::texts(r@) =~= all.take(0).filter_map(f));
    }
    while i < claims.len()
        invariant
            i <= claims@.len(),
            all == claim_views(claims@),
            f == claiming(total),
            text::texts(r@) == all.take(i as int).filter_map(f),
        decreases claims@.len() - i,
    {
        let ghost before = text::texts(r@);
        proof {
            all.lemma_filter_map_take_succ(f, i as int);
            assert(before + Seq::<Seq<char>>::empty() =~= before);
        }
        if claims[i].0 == total {
            if let Some(p) = &claims[i].1 {
                r.push(p.clone());
                assert(text::texts(r@) =~= before + seq![p@]);
            }
        }
        i = i + 1;
    }
    assert(all.take(i as int) =~= all);
    r
}

/// The groups of sources that contradict each other about a disc.
fn contradictions(claims: &Vec<(i64, Option<String>)>, disc: i64) -> (r: Vec<
    SourceDisagreementGroup,
>)
    ensures
        completeness::group_views(r@) == disc_groups(claim_views(claims@), disc),
{
    let found = totals_of(claims);
    let mut r: Vec<SourceDisagreementGroup> = Vec::new();
    if all_same(&found) {
        assert(completeness::group_views(r@) =~= Seq::empty());
        return r;
    }
    let totals = sort_numbers(distinct_numbers(&found));
    let ghost all = claim_views(claims@);
    let ghost f = |t: i64| claimants(all, disc, t);
    let mut i: usize = 0;
    assert(completeness::group_views(r@) =~= totals@.map_values(f).take(0));
    while i < totals.len()
        invariant
            i <= totals@.len(),
            all == claim_views(claims@),
            f == (|t: i64| claimants(all, disc, t)),
            completeness::group_views(r@) == totals@.map_values(f).take(i as int),
        decreases totals@.len() - i,
    {
        let t: i64 = totals[i];
        let source_paths = paths_claiming(claims, t);
        assert(text::texts(source_paths@).len() == source_paths@.len());
        let count: usize = source_paths.len();
        let mut description = text::decimal_string(count as u64);
        description.append(" source");
        description.append(plural_of(count as i128));
        description.append(" ");
        description.append(claim_word_of(count));
        description.append(" ");
        description.append(&signed_string(t));
        description.append(" track");
        description.append(plural_of(t as i128));
        description.append(" on disc ");
        description.append(&signed_string(disc));
        let ghost before = completeness::group_views(r@);
        r.push(SourceDisagreementGroup { description, source_paths });
        proof {
            assert(completeness::group_views(r@) =~= before.push(f(t)));
            assert(totals@.map_values(f).take(i + 1) =~= totals@.map_values(f).take(
                i as int,
            ).push(f(t)));
        }
        i = i + 1;
    }
    assert(totals@.map_values(f).take(i as int) =~= totals@.map_values(f));
    r
}

pub(crate) proof fn lemma_slot_order()
    ensures
        sorting::total_preorder(slot_order()),
{
}

impl MemoryCatalog {
    /// The tracks of a disc, in order.
    fn disc_slots(&self, places: &Vec<usize>, id: &str, disc: i64) -> (r: Vec<Slot>)
        requires
            lists::places_within(lists::as_ints(places@), self.recordings@.len()),
        ensures
            r@ == slots_of(self.recordings@, places@, id@, disc),
            forall|i: int| 0 <= i < r@.len() ==> (#[trigger] r@[i]).1 < self.recordings@.len(),
    {
        let ghost recs = self.recordings@;
        let ghost f = |i: usize|
            if lists::disc_of(recs[i as int], id@) == disc {
                Some((track_of(recs[i as int], id@), i))
            } else {
                None
            };
        let mut r: Vec<Slot> = Vec::new();
        let mut i: usize = 0;
        assert(places@.take(0) =~= Seq::empty());
        while i < places.len()
            invariant
                i <= places@.len(),
                recs == self.recordings@,
                lists::places_within(lists::as_ints(places@), recs.len()),
                f == (|i: usize|
                    if lists::disc_of(recs[i as int], id@) == disc {
                        Some((track_of(recs[i as int], id@), i))
                    } else {
                        None
                    }),
                r@ == places@.take(i as int).filter_map(f),
                forall|k: int| 0 <= k < r@.len() ==> (#[trigger] r@[k]).1 < recs.len(),
            decreases places@.len() - i,
        {
            proof {
                places@.lemma_filter_map_take_succ(f, i as int);
                assert(lists::as_ints(places@)[i as int] == places@[i as int]);
            }
            let rec = &self.recordings[places[i]];
            if disc_or_first(rec, id) == disc {
                r.push((track_or_zero(rec, id), places[i]));
            }
            i = i + 1;
        }
        let ghost unsorted = r@;
        proof {
            assert(places@.take(places@.len() as int) =~= places@);
            lemma_slot_order();
        }
        let le = |a: &Slot, b: &Slot| -> (r: bool)
            ensures
                r == (a.0 <= b.0),
            { a.0 <= b.0 };
        let sorted = sort_vec(r, le, Ghost(slot_order()));
        assert forall|i: int| 0 <= i < sorted@.len() implies (#[trigger] sorted@[i]).1
            < recs.len() by {
            assert(sorted@.contains(sorted@[i]));
            sorting::lemma_sort_contains(unsorted, slot_order(), sorted@[i]);
            let k = choose|k: int| 0 <= k < unsorted.len() && unsorted[k] == sorted@[i];
            assert(unsorted[k].1 < recs.len());
        }
        sorted
    }

    /// What the catalogue tells of a track.
    fn track_detail(&self, id: &str, disc: i64, slot: Slot) -> (t: TrackDetail)
        requires
            slot.1 < self.recordings@.len(),
        ensures
            tells_track(t, id@, disc, slot, self.recordings@),
    {
        let rec = &self.recordings[slot.1];
        let mut track_id = "mem-track-".to_owned();
        track_id.append(&front_of(id, 16));
        track_id.append("-");
        track_id.append(&signed_string(disc));
        track_id.append("-");
        track_id.append(&signed_string(slot.0));
        let primary_source_id = match find_local(&rec.sources) {
            Some(i) => Some(rec.sources[i].id.clone()),
            None => None,
        };
        TrackDetail {
            id: track_id,
            position: slot.0,
            title: None,
            duration_ms: rec.duration_ms,
            recording_id: rec.id.clone(),
            recording_title: rec.title.clone(),
            artist_credit_name: clone_opt(&rec.artist_credit_name),
            primary_artist_id: clone_opt(&rec.primary_artist_id),
            has_source: rec.sources.len() > 0,
            primary_source_id,
        }
    }

    /// What the catalogue tells of a disc, how complete the disc is, and which of its
    /// sources contradict each other.
    fn medium_detail(&self, id: &str, disc: i64, places: &Vec<usize>) -> (r: (
        MediumDetail,
        DiscCompleteness,
        Vec<SourceDisagreementGroup>,
    ))
        requires
            lists::places_within(lists::as_ints(places@), self.recordings@.len()),
        ensures
            tells_medium(r.0, id@, disc, self.recordings@, places@),
            judges(r.1, self.recordings@, places@, id@, disc),
            completeness::group_views(r.2@) == disc_groups(
                disc_claims(
                    self.recordings@,
                    slots_of(self.recordings@, places@, id@, disc),
                    id@,
                    disc,
                ),
                disc,
            ),
    {
        let ghost recs = self.recordings@;
        let slots = self.disc_slots(places, id, disc);
        let ghost rows = slots@.map_values(
            |s: Slot| claims_by(recs[s.1 as int], id@, disc),
        );
        let ghost g = |s: Slot|
            if s.0 > 0 {
                Some(s.0)
            } else {
                None
            };
        let mut tracks: Vec<TrackDetail> = Vec::new();
        let mut claims: Vec<(i64, Option<String>)> = Vec::new();
        let mut present: Vec<i64> = Vec::new();
        let mut i: usize = 0;
        proof {
            assert(slots@.take(0) =~= Seq::empty());
            assert(rows.take(0) =~= Seq::empty());
            assert(claim_views(claims@) =~= rows.take(0).flatten());
        }
        while i < slots.len()
            invariant
                i <= slots@.len(),
                recs == self.recordings@,
                rows == slots@.map_values(
                    |s: Slot| claims_by(recs[s.1 as int], id@, disc),
                ),
                g == (|s: Slot|
                    if s.0 > 0 {
                        Some(s.0)
                    } else {
                        None
                    }),
                forall|k: int| 0 <= k < slots@.len() ==> (#[trigger] slots@[k]).1 < recs.len(),
                tracks@.len() == i,
                forall|k: int|
                    0 <= k < i ==> tells_track(#[trigger] tracks@[k], id@, disc, slots@[k], recs),
                claim_views(claims@) == rows.take(i as int).flatten(),
                present@ == slots@.take(i as int).filter_map(g),
            decreases slots@.len() - i,
        {
            proof {
                rows.take(i as int).lemma_flatten_push(rows[i as int]);
                assert(rows.take(i + 1) =~= rows.take(i as int).push(rows[i as int]));
                slots@.lemma_filter_map_take_succ(g, i as int);
            }
            let slot = slots[i];
            push_claims(&mut claims, &self.recordings[slot.1], id, disc);
            if slot.0 > 0 {
                present.push(slot.0);
            }
            tracks.push(self.track_detail(id, disc, slot));
            i = i + 1;
        }
        assert(slots@.take(slots@.len() as int) =~= slots@);
        assert(rows.take(rows.len() as int) =~= rows);
        let verdict = disc_completeness(disc, &present, &totals_of(&claims));
        let groups = contradictions(&claims, disc);
        let mut medium_id = "mem-medium-".to_owned();
        medium_id.append(&front_of(id, 16));
        medium_id.append("-");
        medium_id.append(&signed_string(disc));
        (MediumDetail { id: medium_id, position: disc, format: None, tracks }, verdict, groups)
    }

    /// The discs of recordings, in order.
    fn discs_at(&self, places: &Vec<usize>, id: &str) -> (r: Vec<i64>)
        requires
            lists::places_within(lists::as_ints(places@), self.recordings@.len()),
        ensures
            r@ == discs_of(self.recordings@, lists::as_ints(places@), id@),
    {
        let ghost recs = self.recordings@;
        let ghost all = lists::as_ints(places@);
        let mut found: Vec<i64> = Vec::new();
        let mut i: usize = 0;
        while i < places.len()
            invariant
                i <= places@.len(),
                recs == self.recordings@,
                all == lists::as_ints(places@),
                lists::places_within(all, recs.len()),
                found@.len() == i,
                forall|k: int|
                    0 <= k < i ==> #[trigger] found@[k] == lists::disc_of(recs[all[k]], id@),
            decreases places@.len() - i,
        {
            assert(all[i as int] == places@[i as int]);
            found.push(disc_or_first(&self.recordings[places[i]], id));
            i = i + 1;
        }
        assert(found@ =~= all.map_values(|i: int| lists::disc_of(recs[i], id@)));
        sort_numbers(distinct_numbers(&found))
    }

    /// What the catalogue tells of the one release of a release group.
    fn release_detail(&self, id: &str, place: usize, places: &Vec<usize>) -> (r: ReleaseDetail)
        requires
            place < self.release_groups@.len(),
            lists::places_within(lists::as_ints(places@), self.recordings@.len()),
        ensures
            tells_release(r, id@, *self, place as int, places@),
    {
        let ghost recs = self.recordings@;
        let discs = self.discs_at(places, id);
        let mut mediums: Vec<MediumDetail> = Vec::new();
        let mut missing: Vec<MissingTrackDetail> = Vec::new();
        let mut unknown: Option<(String, Vec<SourceDisagreementGroup>)> = None;
        let ghost groups = groups_by_disc(recs, places@, id@, discs@);
        let ghost mut verdicts: Seq<DiscCompleteness> = Seq::empty();
        let mut i: usize = 0;
        assert(completeness::missing_views(missing@) =~= all_missing(verdicts));
        while i < discs.len()
            invariant
                i <= discs@.len(),
                recs == self.recordings@,
                lists::places_within(lists::as_ints(places@), recs.len()),
                mediums@.len() == i,
                forall|k: int|
                    0 <= k < i ==> tells_medium(
                        #[trigger] mediums@[k],
                        id@,
                        discs@[k],
                        recs,
                        places@,
                    ),
                verdicts.len() == i,
                forall|k: int|
                    0 <= k < i ==> judges(#[trigger] verdicts[k], recs, places@, id@, discs@[k]),
                groups == groups_by_disc(recs, places@, id@, discs@),
                match unknown {
                    Some((why, found)) => {
                        &&& first_unknown(verdicts) matches Some(k) && 0 <= k < i
                        &&& verdicts[first_unknown(verdicts)->0] matches DiscCompleteness::Unknown(
                            w,
                        ) && w@ == why@
                        &&& completeness::group_views(found@)
                            == groups[first_unknown(verdicts)->0]
                    },
                    None => first_unknown(verdicts) is None,
                },
                completeness::missing_views(missing@) == all_missing(verdicts),
            decreases discs@.len() - i,
        {
            let (medium, verdict, contradicting) = self.medium_detail(id, discs[i], places);
            mediums.push(medium);
            let ghost before = completeness::missing_views(missing@);
            proof {
                let more = verdicts.push(verdict);
                assert(more.drop_last() =~= verdicts);
                assert(more.last() == verdict);
                verdicts = more;
            }
            match verdict {
                DiscCompleteness::Complete => {
                    assert(before + Seq::<completeness::Missing>::empty() =~= before);
                },
                DiscCompleteness::Incomplete(more_missing) => {
                    let ghost added = completeness::missing_views(more_missing@);
                    let ghost kept = missing@;
                    let mut tail = more_missing;
                    missing.append(&mut tail);
                    assert(completeness::missing_views(missing@) =~= before + added);
                },
                DiscCompleteness::Unknown(why) => {
                    assert(before + Seq::<completeness::Missing>::empty() =~= before);
                    if unknown.is_none() {
                        unknown = Some((why, contradicting));
                    }
                },
            }
            i = i + 1;
        }
        assert(judge_all(verdicts, recs, places@, id@, discs@));
        assert(completeness::missing_views(missing@).len() == missing@.len());
        let result = match unknown {
            Some((reason, disagreement_groups)) => ReleaseCompleteness::Unknown {
                reason,
                disagreement_groups,
            },
            None => match non_empty(missing) {
                Some(missing_tracks) => ReleaseCompleteness::Incomplete { missing_tracks },
                None => ReleaseCompleteness::Complete,
            },
        };
        assert(sums_up(result, verdicts, groups));
        let g = &self.release_groups[place];
        let mut release_id = "mem-rel-".to_owned();
        release_id.append(&front_of(id, 16));
        ReleaseDetail {
            id: release_id,
            title: g.title.clone(),
            release_date: clone_opt(&g.release_date),
            country: None,
            label: None,
            catalog_number: None,
            mediums,
            completeness: result,
        }
    }

    /// What the catalogue tells of a release group; `None` when it is not there.
    pub fn get_release_group_detail(&self, id: &str) -> (r: Option<ReleaseGroupDetail>)
        ensures
            match r {
                Some(d) => lists::group_place(self.release_groups@, id@)
                    < self.release_groups@.len() && tells_group(
                    d,
                    id@,
                    *self,
                    lists::group_place(self.release_groups@, id@),
                ),
                None => lists::group_place(self.release_groups@, id@)
                    >= self.release_groups@.len(),
            },
    {
        let place: usize = match self.find_group(id) {
            Some(i) => i,
            None => {
                return None;
            },
        };
        let places = self.recordings_in_group(id);
        let ghost found = lists::group_recordings(self.recordings@, id@);
        assert(lists::as_ints(places@).len() == places@.len());
        let mut releases: Vec<ReleaseDetail> = Vec::new();
        if places.len() > 0 {
            releases.push(self.release_detail(id, place, &places));
            assert(Seq::new(found.len(), |i: int| found[i] as usize) =~= places@) by {
                assert forall|i: int| 0 <= i < found.len() implies #[trigger] found[i]
                    == places@[i] by {
                    assert(lists::as_ints(places@)[i] == places@[i]);
                }
            }
        }
        let g = &self.release_groups[place];
        Some(
            ReleaseGroupDetail {
                id: g.id.clone(),
                title: g.title.clone(),
                rg_type: None,
                artist_credit_name: clone_opt(&g.artist_credit_name),
                primary_artist_id: clone_opt(&g.artist_id),
                ratings: self.ratings_at(&places),
                last_played: self.last_played_at(&places),
                release_date: clone_opt(&g.release_date),
                releases,
            },
        )
    }
}

// ── Laws ─────────────────────────────────────────────────────────────────────

/// What a source claims counts for the release that it names, and for no other on
/// which its recording appears.
pub proof fn law_claims_stay_with_their_release(s: RawSource, id: Seq<char>, disc: i64)
    requires
        claim_by(s, id, disc) is Some,
    ensures
        described::group_of(text::pairs(s.tags@)) == Some(id),
        forall|other: Seq<char>, d: i64| other != id ==> #[trigger] claim_by(s, other, d) is None,
{
}

/// Whether a recording of a release stands at a position of a disc.
pub open spec fn fills(
    recs: Seq<MemRecording>,
    places: Seq<usize>,
    id: Seq<char>,
    disc: i64,
    position: i64,
) -> bool {
    exists|k: int|
        0 <= k < places.len() && lists::disc_of(recs[#[trigger] places[k] as int], id) == disc
            && track_of(recs[places[k] as int], id) == position
}

/// The positions that are present on a disc are those at which a recording stands.
pub proof fn law_present_positions_are_filled(
    recs: Seq<MemRecording>,
    places: Seq<usize>,
    id: Seq<char>,
    disc: i64,
    position: i64,
)
    requires
        position > 0,
    ensures
        present_on(slots_of(recs, places, id, disc)).contains(position) <==> fills(
            recs,
            places,
            id,
            disc,
            position,
        ),
{
    let f = |i: usize|
        if lists::disc_of(recs[i as int], id) == disc {
            Some((track_of(recs[i as int], id), i))
        } else {
            None
        };
    let g = |s: Slot|
        if s.0 > 0 {
            Some(s.0)
        } else {
            None
        };
    let found = places.filter_map(f);
    let slots = slots_of(recs, places, id, disc);
    lemma_slot_order();
    if present_on(slots).contains(position) {
        text::lemma_filter_map_source(slots, g, position);
        let j = choose|j: int| 0 <= j < slots.len() && g(#[trigger] slots[j]) == Some(position);
        assert(slots.contains(slots[j]));
        sorting::lemma_sort_contains(found, slot_order(), slots[j]);
        text::lemma_filter_map_source(places, f, slots[j]);
        let k = choose|k: int| 0 <= k < places.len() && f(#[trigger] places[k]) == Some(slots[j]);
        assert(track_of(recs[places[k] as int], id) == position);
    }
    if fills(recs, places, id, disc, position) {
        let k = choose|k: int|
            0 <= k < places.len() && lists::disc_of(recs[#[trigger] places[k] as int], id) == disc
                && track_of(recs[places[k] as int], id) == position;
        text::lemma_filter_map_keeps(places, f, k);
        let s: Slot = (position, places[k]);
        assert(found.contains(s));
        sorting::lemma_sort_contains(found, slot_order(), s);
        let j = choose|j: int| 0 <= j < slots.len() && slots[j] == s;
        text::lemma_filter_map_keeps(slots, g, j);
    }
}

proof fn lemma_all_missing(verdicts: Seq<DiscCompleteness>, m: completeness::Missing)
    ensures
        all_missing(verdicts).contains(m) <==> exists|i: int|
            0 <= i < verdicts.len() && (#[trigger] verdicts[i] matches DiscCompleteness::Incomplete(
                missing,
            ) && completeness::missing_views(missing@).contains(m)),
    decreases verdicts.len(),
{
    if verdicts.len() > 0 {
        let front = verdicts.drop_last();
        lemma_all_missing(front, m);
        let a = all_missing(front);
        let b = match verdicts.last() {
            DiscCompleteness::Incomplete(missing) => completeness::missing_views(missing@),
            _ => Seq::empty(),
        };
        let both = a + b;
        if a.contains(m) {
            let k = choose|k: int| 0 <= k < a.len() && a[k] == m;
            assert(both[k] == m);
            let i = choose|i: int|
                0 <= i < front.len() && (#[trigger] front[i] matches DiscCompleteness::Incomplete(
                    missing,
                ) && completeness::missing_views(missing@).contains(m));
            assert(verdicts[i] == front[i]);
        }
        if b.contains(m) {
            let k = choose|k: int| 0 <= k < b.len() && b[k] == m;
            assert(both[a.len() + k] == m);
            assert(verdicts[verdicts.len() - 1] == verdicts.last());
        }
        if both.contains(m) {
            let k = choose|k: int| 0 <= k < both.len() && both[k] == m;
            if k < a.len() {
                assert(a[k] == m);
            } else {
                assert(b[k - a.len()] == m);
            }
        }
        if exists|i: int|
            0 <= i < verdicts.len() && (#[trigger] verdicts[i] matches DiscCompleteness::Incomplete(
                missing,
            ) && completeness::missing_views(missing@).contains(m)) {
            let i = choose|i: int|
                0 <= i < verdicts.len()
                    && (#[trigger] verdicts[i] matches DiscCompleteness::Incomplete(missing)
                    && completeness::missing_views(missing@).contains(m));
            if i < front.len() {
                assert(front[i] == verdicts[i]);
            }
        }
    }
}

/// A release none of whose discs is undecided is complete exactly where all of its
/// discs are, and misses otherwise just what one of its discs misses. With an undecided
/// disc it is undecided, for the reason of the first such disc.
pub proof fn law_release_sums_up_its_discs(
    r: ReleaseCompleteness,
    verdicts: Seq<DiscCompleteness>,
    groups: Seq<Seq<completeness::Group>>,
    m: completeness::Missing,
)
    requires
        sums_up(r, verdicts, groups),
        forall|i: int|
            0 <= i < verdicts.len() ==> (#[trigger] verdicts[i] matches DiscCompleteness::Incomplete(
                missing,
            ) ==> missing@.len() > 0),
    ensures
        r is Unknown <==> exists|i: int|
            0 <= i < verdicts.len() && #[trigger] verdicts[i] is Unknown,
        r is Complete <==> forall|i: int|
            0 <= i < verdicts.len() ==> #[trigger] verdicts[i] is Complete,
        r is Incomplete ==> (completeness::missing_views(
            models::missing_items(r->missing_tracks),
        ).contains(m) <==> exists|i: int|
            0 <= i < verdicts.len() && (#[trigger] verdicts[i] matches DiscCompleteness::Incomplete(
                missing,
            ) && completeness::missing_views(missing@).contains(m))),
        forall|i: int|
            0 <= i < verdicts.len() && #[trigger] verdicts[i] is Unknown && (forall|j: int|
                0 <= j < i ==> !(#[trigger] verdicts[j] is Unknown)) ==> r->reason@
                == verdicts[i]->Unknown_0@ && completeness::group_views(r->disagreement_groups@)
                == groups[i],
{
    lemma_first_unknown(verdicts);
    lemma_all_missing(verdicts, m);
    if let Some(k) = first_unknown(verdicts) {
        assert(verdicts[k] is Unknown);
    } else {
        if all_missing(verdicts).len() > 0 {
            let x = all_missing(verdicts)[0];
            lemma_all_missing(verdicts, x);
            assert(all_missing(verdicts).contains(x));
            let i = choose|i: int|
                0 <= i < verdicts.len()
                    && (#[trigger] verdicts[i] matches DiscCompleteness::Incomplete(missing)
                    && completeness::missing_views(missing@).contains(x));
            assert(!(verdicts[i] is Complete));
        } else {
            assert forall|i: int| 0 <= i < verdicts.len() implies #[trigger] verdicts[i] is Complete by {
                if let DiscCompleteness::Incomplete(missing) = verdicts[i] {
                    let x = completeness::missing_views(missing@)[0];
                    assert(completeness::missing_views(missing@).contains(x));
                    lemma_all_missing(verdicts, x);
                }
            }
        }
    }
}

/// What the sources of a disc claim of its number of tracks.
pub open spec fn claimed_on(
    recs: Seq<MemRecording>,
    places: Seq<usize>,
    id: Seq<char>,
    disc: i64,
) -> Seq<i64> {
    totals_in(disc_claims(recs, slots_of(recs, places, id, disc), id, disc))
}

/// Whether the sources of a disc claim one number of tracks, and not zero.
pub open spec fn agreed_on(
    recs: Seq<MemRecording>,
    places: Seq<usize>,
    id: Seq<char>,
    disc: i64,
) -> bool {
    let claims = claimed_on(recs, places, id, disc);
    &&& claims.len() > 0
    &&& claims[0] != 0
    &&& forall|j: int| 0 <= j < claims.len() ==> #[trigger] claims[j] == claims[0]
}

/// A release whose sources agree, for every disc, on a number of tracks above zero is
/// complete exactly where a recording stands at every position up to that number. It
/// misses just the positions at which none stands.
pub proof fn law_release_misses_what_no_file_fills(
    r: ReleaseDetail,
    id: Seq<char>,
    c: MemoryCatalog,
    place: int,
    places: Seq<usize>,
    m: completeness::Missing,
)
    requires
        tells_release(r, id, c, place, places),
        forall|i: int|
            0 <= i < discs_of(c.recordings@, lists::as_ints(places), id).len() ==> agreed_on(
                c.recordings@,
                places,
                id,
                #[trigger] discs_of(c.recordings@, lists::as_ints(places), id)[i],
            ),
    ensures
        ({
            let discs = discs_of(c.recordings@, lists::as_ints(places), id);
            &&& !(r.completeness is Unknown)
            &&& r.completeness is Complete <==> forall|i: int, p: i64|
                0 <= i < discs.len() && 1 <= p <= claimed_on(
                    c.recordings@,
                    places,
                    id,
                    discs[i],
                )[0] ==> #[trigger] fills(c.recordings@, places, id, discs[i], p)
            &&& r.completeness is Incomplete ==> (completeness::missing_views(
                models::missing_items(r.completeness->missing_tracks),
            ).contains(m) <==> m.2.len() == 0 && m.3 is None && exists|i: int|
                0 <= i < discs.len() && #[trigger] discs[i] == m.0 && 1 <= m.1 <= claimed_on(
                    c.recordings@,
                    places,
                    id,
                    discs[i],
                )[0] && !fills(c.recordings@, places, id, discs[i], m.1))
        }),
{
    let recs = c.recordings@;
    let discs = discs_of(recs, lists::as_ints(places), id);
    let groups = groups_by_disc(recs, places, id, discs);
    let verdicts = choose|verdicts: Seq<DiscCompleteness>|
        #[trigger] judge_all(verdicts, recs, places, id, discs) && sums_up(
            r.completeness,
            verdicts,
            groups,
        );
    assert forall|i: int| 0 <= i < verdicts.len() implies !(#[trigger] verdicts[i] is Unknown) && (
    verdicts[i] matches DiscCompleteness::Incomplete(missing) ==> missing@.len() > 0) && (
    verdicts[i] is Complete <==> forall|p: i64|
        1 <= p <= claimed_on(recs, places, id, discs[i])[0] ==> #[trigger] fills(
            recs,
            places,
            id,
            discs[i],
            p,
        )) by {
        let d = discs[i];
        let claims = claimed_on(recs, places, id, d);
        let present = present_on(slots_of(recs, places, id, d));
        assert(judges(verdicts[i], recs, places, id, d));
        assert(agreed_on(recs, places, id, d));
        detail::law_disc_is_judged_by_positions(verdicts[i], d, present, claims, m);
        if claims[0] > 0 {
            detail::law_disc_complete_iff_all_present(verdicts[i], d, present, claims);
        } else {
            assert(detail::absent(d, present, claims[0] as int).len() == 0);
        }
        assert forall|p: i64| p > 0 implies #[trigger] present.contains(p) == fills(
            recs,
            places,
            id,
            d,
            p,
        ) by {
            law_present_positions_are_filled(recs, places, id, d, p);
        }
        assert((forall|p: i64| 1 <= p <= claims[0] ==> #[trigger] present.contains(p)) == (
        forall|p: i64| 1 <= p <= claims[0] ==> #[trigger] fills(recs, places, id, d, p))) by {
            if forall|p: i64| 1 <= p <= claims[0] ==> #[trigger] fills(recs, places, id, d, p) {
                assert forall|p: i64| 1 <= p <= claims[0] implies #[trigger] present.contains(p) by {
                    assert(fills(recs, places, id, d, p));
                }
            }
            if forall|p: i64| 1 <= p <= claims[0] ==> #[trigger] present.contains(p) {
                assert forall|p: i64| 1 <= p <= claims[0] implies #[trigger] fills(
                    recs,
                    places,
                    id,
                    d,
                    p,
                ) by {
                    assert(present.contains(p));
                }
            }
        }
    }
    law_release_sums_up_its_discs(r.completeness, verdicts, groups, m);
    if r.completeness is Complete {
        assert forall|i: int, p: i64|
            0 <= i < discs.len() && 1 <= p <= claimed_on(
                recs,
                places,
                id,
                discs[i],
            )[0] implies #[trigger] fills(recs, places, id, discs[i], p) by {
            assert(verdicts[i] is Complete);
        }
    } else {
        let i = choose|i: int| 0 <= i < verdicts.len() && !(#[trigger] verdicts[i] is Complete);
        let p = choose|p: i64|
            1 <= p <= claimed_on(recs, places, id, discs[i])[0] && !#[trigger] fills(
                recs,
                places,
                id,
                discs[i],
                p,
            );
        assert(!fills(recs, places, id, discs[i], p));
    }
    if r.completeness is Incomplete {
        assert forall|i: int| 0 <= i < verdicts.len() implies ((#[trigger] verdicts[i] matches
            DiscCompleteness::Incomplete(missing) && completeness::missing_views(
            missing@,
        ).contains(m)) <==> m.2.len() == 0 && m.3 is None && discs[i] == m.0 && 1 <= m.1
            <= claimed_on(recs, places, id, discs[i])[0] && !fills(
            recs,
            places,
            id,
            discs[i],
            m.1,
        )) by {
            let d = discs[i];
            let claims = claimed_on(recs, places, id, d);
            let present = present_on(slots_of(recs, places, id, d));
            assert(judges(verdicts[i], recs, places, id, d));
            detail::law_disc_is_judged_by_positions(verdicts[i], d, present, claims, m);
            if m.1 > 0 {
                law_present_positions_are_filled(recs, places, id, d, m.1);
            }
        }
        let found = completeness::missing_views(
            models::missing_items(r.completeness->missing_tracks),
        );
        if found.contains(m) {
            let i = choose|i: int|
                0 <= i < verdicts.len()
                    && (#[trigger] verdicts[i] matches DiscCompleteness::Incomplete(missing)
                    && completeness::missing_views(missing@).contains(m));
            assert(discs[i] == m.0);
        }
        if m.2.len() == 0 && m.3 is None && exists|i: int|
            0 <= i < discs.len() && #[trigger] discs[i] == m.0 && 1 <= m.1 <= claimed_on(
                recs,
                places,
                id,
                discs[i],
            )[0] && !fills(recs, places, id, discs[i], m.1) {
            let i = choose|i: int|
                0 <= i < discs.len() && #[trigger] discs[i] == m.0 && 1 <= m.1 <= claimed_on(
                    recs,
                    places,
                    id,
                    discs[i],
                )[0] && !fills(recs, places, id, discs[i], m.1);
            assert(verdicts[i] is Incomplete);
        }
    }
}

/// The discs of a release are those on which its recordings stand, each once and in
/// order.
pub proof fn law_discs_hold_recordings(
    recs: Seq<MemRecording>,
    places: Seq<int>,
    id: Seq<char>,
    disc: i64,
)
    ensures
        discs_of(recs, places, id).no_duplicates(),
        forall|i: int, j: int|
            0 <= i < j < discs_of(recs, places, id).len() ==> #[trigger] discs_of(
                recs,
                places,
                id,
            )[i] <= #[trigger] discs_of(recs, places, id)[j],
        discs_of(recs, places, id).contains(disc) <==> exists|k: int|
            0 <= k < places.len() && lists::disc_of(recs[#[trigger] places[k]], id) == disc,
{
    let all = places.map_values(|i: int| lists::disc_of(recs[i], id));
    let d = text::distinct(all);
    let le = sorting::number_order();
    text::lemma_distinct(all);
    assert(sorting::total_preorder(le));
    sorting::law_sort_orders(d, le);
    sorting::lemma_sort_contains(d, le, disc);
    sorting::lemma_sort_keeps_distinct(d, le, |x: i64| x);
    assert(d.map_values(|x: i64| x) =~= d);
    assert(discs_of(recs, places, id).map_values(|x: i64| x) =~= discs_of(recs, places, id));
    if all.contains(disc) {
        let k = choose|k: int| 0 <= k < all.len() && all[k] == disc;
        assert(lists::disc_of(recs[places[k]], id) == disc);
    }
    if exists|k: int|
        0 <= k < places.len() && lists::disc_of(recs[#[trigger] places[k]], id) == disc {
        let k = choose|k: int|
            0 <= k < places.len() && lists::disc_of(recs[#[trigger] places[k]], id) == disc;
        assert(all[k] == disc);
    }
    let s = discs_of(recs, places, id);
    assert forall|i: int, j: int| 0 <= i < j < s.len() implies #[trigger] s[i] <= #[trigger] s[j] by {
        assert(le(s[i], s[j]));
    }
}

/// A disc lists every recording that stands on it, in the order of positions.
pub proof fn law_disc_lists_its_recordings(
    m: MediumDetail,
    id: Seq<char>,
    disc: i64,
    recs: Seq<MemRecording>,
    places: Seq<usize>,
)
    requires
        tells_medium(m, id, disc, recs, places),
    ensures
        m.position == disc,
        forall|i: int, j: int|
            0 <= i < j < m.tracks@.len() ==> (#[trigger] m.tracks@[i]).position <= (
            #[trigger] m.tracks@[j]).position,
        forall|k: int|
            0 <= k < places.len() && lists::disc_of(recs[#[trigger] places[k] as int], id) == disc
                ==> exists|i: int|
                0 <= i < m.tracks@.len() && (#[trigger] m.tracks@[i]).recording_id
                    == recs[places[k] as int].id && m.tracks@[i].position == track_of(
                    recs[places[k] as int],
                    id,
                ),
        forall|i: int|
            0 <= i < m.tracks@.len() ==> exists|k: int|
                0 <= k < places.len() && lists::disc_of(recs[#[trigger] places[k] as int], id)
                    == disc && recs[places[k] as int].id == (#[trigger] m.tracks@[i]).recording_id,
{
    let f = |i: usize|
        if lists::disc_of(recs[i as int], id) == disc {
            Some((track_of(recs[i as int], id), i))
        } else {
            None
        };
    let found = places.filter_map(f);
    let slots = slots_of(recs, places, id, disc);
    lemma_slot_order();
    sorting::law_sort_orders(found, slot_order());
    assert forall|i: int, j: int| 0 <= i < j < m.tracks@.len() implies (
    #[trigger] m.tracks@[i]).position <= (#[trigger] m.tracks@[j]).position by {
        assert(tells_track(m.tracks@[i], id, disc, slots[i], recs));
        assert(tells_track(m.tracks@[j], id, disc, slots[j], recs));
        assert(slot_order()(slots[i], slots[j]));
    }
    assert forall|k: int|
        0 <= k < places.len() && lists::disc_of(
            recs[#[trigger] places[k] as int],
            id,
        ) == disc implies exists|i: int|
        0 <= i < m.tracks@.len() && (#[trigger] m.tracks@[i]).recording_id
            == recs[places[k] as int].id && m.tracks@[i].position == track_of(
            recs[places[k] as int],
            id,
        ) by {
        text::lemma_filter_map_keeps(places, f, k);
        let s: Slot = (track_of(recs[places[k] as int], id), places[k]);
        sorting::lemma_sort_contains(found, slot_order(), s);
        let i = choose|i: int| 0 <= i < slots.len() && slots[i] == s;
        assert(tells_track(m.tracks@[i], id, disc, slots[i], recs));
    }
    assert forall|i: int| 0 <= i < m.tracks@.len() implies exists|k: int|
        0 <= k < places.len() && lists::disc_of(recs[#[trigger] places[k] as int], id) == disc
            && recs[places[k] as int].id == (#[trigger] m.tracks@[i]).recording_id by {
        assert(tells_track(m.tracks@[i], id, disc, slots[i], recs));
        assert(slots.contains(slots[i]));
        sorting::lemma_sort_contains(found, slot_order(), slots[i]);
        text::lemma_filter_map_source(places, f, slots[i]);
        let k = choose|k: int| 0 <= k < places.len() && f(#[trigger] places[k]) == Some(slots[i]);
        assert(recs[places[k] as int].id == m.tracks@[i].recording_id);
    }
}

/// A source claims a number of tracks for the disc and the release that its own tags
/// name, and for no other: the number behind the slash of its track tag. A disc tag
/// that is absent stands for the first disc.
pub proof fn law_claims_are_tagged(
    s: RawSource,
    id: Seq<char>,
    track: i64,
    total: i64,
    disc: i64,
)
    requires
        described::group_of(text::pairs(s.tags@)) == Some(id),
        laws::first_says(
            text::pairs(s.tags@),
            "TRCK"@,
            text::signed_decimal(track as int) + seq!['/'] + text::signed_decimal(total as int),
        ),
        laws::first_says(text::pairs(s.tags@), "TPOS"@, text::signed_decimal(disc as int)) || (
        laws::lacks(text::pairs(s.tags@), "TPOS"@) && disc == 1),
    ensures
        claim_by(s, id, disc) == Some((total, text::opt_text(s.file_path))),
        forall|other: i64| other != disc ==> #[trigger] claim_by(s, id, other) is None,
{
    let t = text::pairs(s.tags@);
    laws::law_first_tag_counts(t, "TRCK"@);
    laws::law_position_and_total(track, total);
    laws::law_plain_numbers_place_tracks(t, track, disc);
}

} // verus!
