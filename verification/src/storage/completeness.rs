//! Deciding whether a release is complete.
//!
//! A release is a set of discs with tracks. Its sources claim how many tracks
//! their disc has. Where the claims agree, they tell which tracks are missing;
//! where they do not, the claims themselves are reported. Only the sources that
//! belong to the release have a say, unless none does: then all of them have.
use vstd::prelude::*;
use crate::models;
use crate::models::{
    non_empty, MissingTrackDetail, ReleaseCompleteness, SourceDisagreementGroup,
};
use crate::sorting;
use crate::sorting::{sort_numbers, sort_strings};
use crate::text;
use crate::text::{contains_text, decimal_string, same_text, signed_string};

verus! {

/// A track of a release.
#[derive(Debug)]
pub struct ReleaseTrack {
    pub disc_position: i64,
    pub track_position: i64,
    pub title: String,
    pub recording_id: String,
    /// Whether the recording has a source.
    pub has_source: bool,
}

/// What one source of a track claims.
#[derive(Debug)]
pub struct SourceClaim {
    pub file_path: Option<String>,
    pub track_total: i64,
    pub disc_position: Option<i64>,
    /// Whether the source belongs to the release. A recording can be on several
    /// releases, and a source made for another one says nothing of this one while
    /// there are sources of its own.
    pub on_release: bool,
}

impl SourceClaim {
    /// The claim of a source, beside a release of the given title. The source
    /// belongs to the release unless its tags name another album.
    pub fn new(
        title: &str,
        album: &Option<String>,
        file_path: Option<String>,
        track_total: i64,
        disc_position: Option<i64>,
    ) -> (r: SourceClaim)
        ensures
            r.file_path == file_path,
            r.track_total == track_total,
            r.disc_position == disc_position,
            r.on_release == (match *album {
                Some(a) => a@ == title@,
                None => true,
            }),
    {
        let on_release = match album {
            Some(a) => same_text(a, title),
            None => true,
        };
        SourceClaim { file_path, track_total, disc_position, on_release }
    }
}

/// The tracks of a release, in order of disc and position, and the claims of
/// their sources.
#[derive(Debug)]
pub struct ReleaseContents {
    /// Positions of the discs, in order.
    pub mediums: Vec<i64>,
    pub tracks: Vec<ReleaseTrack>,
    pub claims: Vec<SourceClaim>,
    /// The highest disc position, known where a source makes a claim.
    pub disc_total: Option<i64>,
}

// ── Counting ─────────────────────────────────────────────────────────────────

/// Whether some source belongs to the release.
pub open spec fn any_own(claims: Seq<SourceClaim>) -> bool {
    exists|i: int| 0 <= i < claims.len() && (#[trigger] claims[i]).on_release
}

/// Whether a claim counts: its source belongs to the release, or none does.
pub open spec fn counts(own: bool, x: SourceClaim) -> bool {
    x.on_release || !own
}

/// What a claim says, if it counts.
pub open spec fn said<A>(own: bool, x: SourceClaim, what: Option<A>) -> Option<A> {
    if counts(own, x) {
        what
    } else {
        None
    }
}

/// The track totals that the sources of a release claim.
pub open spec fn totals(claims: Seq<SourceClaim>) -> Seq<i64> {
    let own = any_own(claims);
    claims.filter_map(|x: SourceClaim| said(own, x, Some(x.track_total)))
}

/// Whether the sources of a release should be read again for their track totals:
/// there are tracks, and no source claims a total.
pub fn wants_track_totals(c: &ReleaseContents) -> (r: bool)
    ensures
        r == (c.tracks@.len() > 0 && totals(c.claims@).len() == 0),
{
    let found = track_totals(&c.claims);
    c.tracks.len() > 0 && found.len() == 0
}

/// A track that is missing: disc, position, title, and the recording if known.
pub type Missing = (i64, i64, Seq<char>, Option<Seq<char>>);

/// The view of a missing track.
pub open spec fn missing_view(m: MissingTrackDetail) -> Missing {
    (m.disc_position, m.track_position, m.title@, text::opt_text(m.recording_id))
}

/// The view of a list of missing tracks.
pub open spec fn missing_views(v: Seq<MissingTrackDetail>) -> Seq<Missing> {
    Seq::new(v.len(), |i: int| missing_view(v[i]))
}

/// The tracks without a source.
pub open spec fn sourceless(tracks: Seq<ReleaseTrack>) -> Seq<Missing> {
    tracks.filter_map(
        |t: ReleaseTrack|
            if t.has_source {
                None
            } else {
                Some((t.disc_position, t.track_position, t.title@, Some(t.recording_id@)))
            },
    )
}

/// Whether a track stands at a position of a disc.
pub open spec fn occupied(tracks: Seq<ReleaseTrack>, disc: i64, position: int) -> bool {
    exists|i: int|
        0 <= i < tracks.len() && (#[trigger] tracks[i]).disc_position == disc
            && tracks[i].track_position == position
}

/// The positions from 1 to `n` of a disc at which no track stands.
pub open spec fn phantoms(tracks: Seq<ReleaseTrack>, disc: i64, n: int) -> Seq<Missing>
    decreases n,
{
    if n <= 0 {
        Seq::empty()
    } else if occupied(tracks, disc, n) {
        phantoms(tracks, disc, n - 1)
    } else {
        phantoms(tracks, disc, n - 1).push((disc, n as i64, Seq::empty(), None))
    }
}

/// The positions from 1 to `n` of several discs at which no track stands.
pub open spec fn phantoms_on(tracks: Seq<ReleaseTrack>, discs: Seq<i64>, n: int) -> Seq<Missing> {
    discs.map_values(|d: i64| phantoms(tracks, d, n)).flatten()
}

// ── Claims ───────────────────────────────────────────────────────────────────

/// The track totals claimed for a disc.
pub open spec fn disc_claims(claims: Seq<SourceClaim>, disc: i64) -> Seq<i64> {
    let own = any_own(claims);
    claims.filter_map(
        |x: SourceClaim|
            if counts(own, x) && x.disc_position == Some(disc) {
                Some(x.track_total)
            } else {
                None
            },
    )
}

/// The discs that claims speak of, in order of first mention.
pub open spec fn claimed_discs(claims: Seq<SourceClaim>) -> Seq<i64> {
    let own = any_own(claims);
    text::distinct(claims.filter_map(|x: SourceClaim| said(own, x, x.disc_position)))
}

/// Whether `v` is claimed most often, and is the largest such value.
pub open spec fn is_most_claimed(s: Seq<i64>, v: i64) -> bool {
    &&& s.contains(v)
    &&& forall|w: i64| #[trigger]
        s.contains(w) ==> s.to_multiset().count(w) < s.to_multiset().count(v) || (
        s.to_multiset().count(w) == s.to_multiset().count(v) && w <= v)
}

/// The value claimed most often, the largest such value on a tie.
pub open spec fn most_claimed(s: Seq<i64>) -> Option<i64> {
    if s.len() == 0 {
        None
    } else {
        Some(choose|v: i64| is_most_claimed(s, v))
    }
}

/// Whether all claims are the same.
pub open spec fn unanimous(s: Seq<i64>) -> bool {
    forall|i: int, j: int| 0 <= i < s.len() && 0 <= j < s.len() ==> s[i] == s[j]
}

/// The discs that hold tracks, in order of first track.
pub open spec fn track_discs(tracks: Seq<ReleaseTrack>) -> Seq<i64> {
    text::distinct(tracks.map_values(|t: ReleaseTrack| t.disc_position))
}

/// The tracks of a disc.
pub open spec fn tracks_on(tracks: Seq<ReleaseTrack>, disc: i64) -> Seq<ReleaseTrack> {
    tracks.filter(|t: ReleaseTrack| t.disc_position == disc)
}

/// What the claims say of a disc that holds tracks.
pub enum DiscClaim {
    Unclaimed,
    Fewer,
    Exact,
    More,
}

/// How the value claimed most often for a disc compares with its tracks.
pub open spec fn disc_claim(c: ReleaseContents, disc: i64) -> DiscClaim {
    match most_claimed(disc_claims(c.claims@, disc)) {
        None => DiscClaim::Unclaimed,
        Some(n) => if n < tracks_on(c.tracks@, disc).len() {
            DiscClaim::Fewer
        } else if n == tracks_on(c.tracks@, disc).len() {
            DiscClaim::Exact
        } else {
            DiscClaim::More
        },
    }
}

/// The missing positions of the discs for which more tracks are claimed than
/// there are.
pub open spec fn claimed_phantoms(c: ReleaseContents) -> Seq<Missing> {
    track_discs(c.tracks@).map_values(
        |d: i64|
            if disc_claim(c, d) is More {
                phantoms(c.tracks@, d, most_claimed(disc_claims(c.claims@, d))->0 as int)
            } else {
                Seq::empty()
            },
    ).flatten()
}

// ── Verdict ──────────────────────────────────────────────────────────────────

/// What can be said of a release.
pub enum Verdict {
    /// There is nothing to judge by, for the given reason.
    Nothing(Seq<char>),
    Complete,
    Incomplete(Seq<Missing>),
    /// The claims contradict each other.
    Disagreement,
}

/// Whether a release has several discs, of which its sources speak.
pub open spec fn by_disc(c: ReleaseContents) -> bool {
    (c.disc_total matches Some(dt) && dt > 1) && claimed_discs(c.claims@).len() > 0
}

/// The tracks that are missing by what is claimed for each disc.
pub open spec fn missing_by_disc(c: ReleaseContents) -> Seq<Missing> {
    sourceless(c.tracks@) + claimed_phantoms(c)
}

/// The verdict disc by disc. A disc of which nothing is claimed leaves a release
/// undecided in which nothing else is missing.
pub open spec fn disc_verdict(c: ReleaseContents) -> Verdict {
    let discs = track_discs(c.tracks@);
    let claimed = claimed_discs(c.claims@);
    if forall|i: int| 0 <= i < discs.len() ==> disc_claim(c, #[trigger] discs[i]) is Exact {
        if sourceless(c.tracks@).len() == 0 {
            Verdict::Complete
        } else {
            Verdict::Incomplete(sourceless(c.tracks@))
        }
    } else if exists|i: int|
        0 <= i < claimed.len() && !unanimous(disc_claims(c.claims@, #[trigger] claimed[i])) {
        Verdict::Disagreement
    } else if exists|i: int|
        0 <= i < discs.len() && disc_claim(c, #[trigger] discs[i]) is Fewer {
        Verdict::Disagreement
    } else if missing_by_disc(c).len() == 0 {
        Verdict::Nothing("No source files provide track_total information."@)
    } else {
        Verdict::Incomplete(missing_by_disc(c))
    }
}

/// The verdict on a release. Where the claims differ and there are several discs,
/// they are taken disc by disc.
pub open spec fn verdict(c: ReleaseContents) -> Verdict {
    let t = totals(c.claims@);
    if c.tracks@.len() == 0 {
        Verdict::Nothing("No tracks on this release."@)
    } else if t.len() == 0 {
        Verdict::Nothing("No source files provide track_total information."@)
    } else if !unanimous(t) {
        if by_disc(c) {
            disc_verdict(c)
        } else {
            Verdict::Disagreement
        }
    } else if t[0] == 0 {
        Verdict::Nothing("Track total is zero."@)
    } else if sourceless(c.tracks@).len() > 0 {
        Verdict::Incomplete(sourceless(c.tracks@))
    } else if c.tracks@.len() >= t[0] {
        Verdict::Complete
    } else {
        Verdict::Incomplete(phantoms_on(c.tracks@, c.mediums@, t[0] as int))
    }
}

// ── Disagreement ─────────────────────────────────────────────────────────────

/// The plural ending of a count.
pub open spec fn plural(n: int) -> Seq<char> {
    if n == 1 {
        ""@
    } else {
        "s"@
    }
}

/// `claims` for one source, `claim` for several.
pub open spec fn claim_word(n: int) -> Seq<char> {
    if n == 1 {
        "claims"@
    } else {
        "claim"@
    }
}

/// The paths of the sources that claim a total.
pub open spec fn paths_claiming(claims: Seq<SourceClaim>, total: i64) -> Seq<Seq<char>> {
    let own = any_own(claims);
    claims.filter_map(
        |x: SourceClaim|
            if counts(own, x) && x.track_total == total {
                text::opt_text(x.file_path)
            } else {
                None
            },
    )
}

/// The totals claimed by sources with a path, in ascending order.
pub open spec fn totals_with_paths(claims: Seq<SourceClaim>) -> Seq<i64> {
    let own = any_own(claims);
    sorting::stable_sort(
        text::distinct(
            claims.filter_map(
                |x: SourceClaim|
                    if counts(own, x) && x.file_path is Some {
                        Some(x.track_total)
                    } else {
                        None
                    },
            ),
        ),
        sorting::number_order(),
    )
}

/// The layout that sources with one total claim.
pub open spec fn total_layout(disc_total: Option<i64>, total: i64) -> Seq<char> {
    (match disc_total {
        None => "(no total disc info) "@,
        Some(dt) => if dt > 1 {
            text::signed_decimal(dt as int) + " disc with "@
        } else {
            "1 disc with "@
        },
    }) + text::signed_decimal(total as int) + " track"@ + plural(total as int)
}

/// The part of the reason that speaks of one total.
pub open spec fn total_part(disc_total: Option<i64>, total: i64, count: int) -> Seq<char> {
    text::signed_decimal(total as int) + " from "@ + text::decimal(count as nat) + " source"@
        + plural(count) + (if disc_total is None {
        " (no disc info)"@
    } else {
        ""@
    })
}

/// A group of sources: what they claim, and their paths.
pub type Group = (Seq<char>, Seq<Seq<char>>);

/// The heading of a group of sources.
pub open spec fn group_heading(count: int, layout: Seq<char>) -> Seq<char> {
    text::decimal(count as nat) + " source "@ + claim_word(count) + " "@ + layout
}

/// The group of the sources that claim one total.
pub open spec fn total_group(c: ReleaseContents, total: i64) -> Group {
    let paths = paths_claiming(c.claims@, total);
    (group_heading(paths.len() as int, total_layout(c.disc_total, total)), paths)
}

/// The paths of all claiming sources, each once, in order.
pub open spec fn claiming_paths(claims: Seq<SourceClaim>) -> Seq<Seq<char>> {
    let own = any_own(claims);
    sorting::stable_sort(
        text::distinct(
            claims.filter_map(|x: SourceClaim| said(own, x, text::opt_text(x.file_path))),
        ),
        sorting::text_order(),
    )
}

/// The value claimed most often for each claimed disc, in order of disc.
pub open spec fn disc_sizes(claims: Seq<SourceClaim>) -> Seq<Seq<char>> {
    sorting::stable_sort(claimed_discs(claims), sorting::number_order()).map_values(
        |d: i64| text::signed_decimal(most_claimed(disc_claims(claims, d))->0 as int),
    )
}

/// The layout of several discs, disc by disc.
pub open spec fn discs_layout(c: ReleaseContents) -> Seq<char> {
    let count = claiming_paths(c.claims@).len() as int;
    text::signed_decimal(c.disc_total->0 as int) + " disc"@ + plural(c.disc_total->0 as int)
        + " with "@ + text::joined(disc_sizes(c.claims@), "+"@) + " track"@ + plural(count)
}

/// The groups of sources that a disagreement reports.
pub open spec fn disagreement_groups(c: ReleaseContents) -> Seq<Group> {
    if by_disc(c) {
        let paths = claiming_paths(c.claims@);
        seq![(group_heading(paths.len() as int, discs_layout(c)), paths)]
    } else {
        totals_with_paths(c.claims@).map_values(|t: i64| total_group(c, t))
    }
}

/// The reason that a disagreement gives.
pub open spec fn disagreement_reason(c: ReleaseContents) -> Seq<char> {
    "Sources disagree on total track count: "@ + text::joined(
        if by_disc(c) {
            let count = claiming_paths(c.claims@).len() as int;
            seq![
                discs_layout(c) + " from "@ + text::decimal(count as nat) + " source"@ + plural(
                    count,
                ),
            ]
        } else {
            totals_with_paths(c.claims@).map_values(
                |t: i64|
                    total_part(c.disc_total, t, paths_claiming(c.claims@, t).len() as int),
            )
        },
        ", "@,
    )
}

/// The view of groups of sources.
pub open spec fn group_views(v: Seq<SourceDisagreementGroup>) -> Seq<Group> {
    Seq::new(v.len(), |i: int| (v[i].description@, text::texts(v[i].source_paths@)))
}

/// Whether a result reports the verdict on a release.
pub open spec fn reports(r: ReleaseCompleteness, c: ReleaseContents) -> bool {
    match verdict(c) {
        Verdict::Complete => r is Complete,
        Verdict::Incomplete(missing) => {
            &&& r is Incomplete
            &&& missing_views(models::missing_items(r->missing_tracks)) == missing
        },
        Verdict::Nothing(why) => {
            &&& r is Unknown
            &&& r->reason@ == why
            &&& r->disagreement_groups@.len() == 0
        },
        Verdict::Disagreement => {
            &&& r is Unknown
            &&& r->reason@ == disagreement_reason(c)
            &&& group_views(r->disagreement_groups@) == disagreement_groups(c)
        },
    }
}

/// Whether a release that is found incomplete has a track to show for it.
pub open spec fn shows_what_is_missing(c: ReleaseContents) -> bool {
    verdict(c) matches Verdict::Incomplete(missing) ==> missing.len() > 0
}

// ── Counting, executable ─────────────────────────────────────────────────────

pub(crate) fn contains_number(v: &Vec<i64>, x: i64) -> (r: bool)
    ensures
        r == v@.contains(x),
{
    let mut i: usize = 0;
    while i < v.len()
        invariant
            i <= v@.len(),
            forall|k: int| 0 <= k < i ==> v@[k] != x,
        decreases v@.len() - i,
    {
        if v[i] == x {
            return true;
        }
        i = i + 1;
    }
    false
}

/// The distinct numbers of `v`, in order of first appearance.
pub(crate) fn distinct_numbers(v: &Vec<i64>) -> (r: Vec<i64>)
    ensures
        r@ == text::distinct(v@),
{
    let mut r: Vec<i64> = Vec::new();
    let mut i: usize = 0;
    assert(v@.take(0) =~= Seq::empty());
    while i < v.len()
        invariant
            i <= v@.len(),
            r@ == text::distinct(v@.take(i as int)),
        decreases v@.len() - i,
    {
        assert(v@.take(i + 1).drop_last() =~= v@.take(i as int));
        if !contains_number(&r, v[i]) {
            r.push(v[i]);
        }
        i = i + 1;
    }
    assert(v@.take(v@.len() as int) =~= v@);
    r
}

fn has_own(claims: &Vec<SourceClaim>) -> (r: bool)
    ensures
        r == any_own(claims@),
{
    let mut i: usize = 0;
    while i < claims.len()
        invariant
            i <= claims@.len(),
            forall|k: int| 0 <= k < i ==> !(#[trigger] claims@[k]).on_release,
        decreases claims@.len() - i,
    {
        if claims[i].on_release {
            return true;
        }
        i = i + 1;
    }
    false
}

fn track_totals(claims: &Vec<SourceClaim>) -> (r: Vec<i64>)
    ensures
        r@ == totals(claims@),
{
    let own: bool = has_own(claims);
    let ghost f = |x: SourceClaim| said(own, x, Some(x.track_total));
    let mut r: Vec<i64> = Vec::new();
    let mut i: usize = 0;
    assert(claims@.take(0) =~= Seq::empty());
    while i < claims.len()
        invariant
            i <= claims@.len(),
            f == (|x: SourceClaim| said(own, x, Some(x.track_total))),
            r@ == claims@.take(i as int).filter_map(f),
        decreases claims@.len() - i,
    {
        proof {
            claims@.lemma_filter_map_take_succ(f, i as int);
        }
        if claims[i].on_release || !own {
            r.push(claims[i].track_total);
        }
        i = i + 1;
    }
    assert(claims@.take(claims@.len() as int) =~= claims@);
    r
}

fn sourceless_tracks(tracks: &Vec<ReleaseTrack>) -> (r: Vec<MissingTrackDetail>)
    ensures
        missing_views(r@) == sourceless(tracks@),
{
    let ghost f = |t: ReleaseTrack|
        if t.has_source {
            None
        } else {
            Some((t.disc_position, t.track_position, t.title@, Some(t.recording_id@)))
        };
    let mut r: Vec<MissingTrackDetail> = Vec::new();
    let mut i: usize = 0;
    assert(tracks@.take(0) =~= Seq::empty());
    assert(missing_views(r@) =~= tracks@.take(0).filter_map(f));
    while i < tracks.len()
        invariant
            i <= tracks@.len(),
            f == (|t: ReleaseTrack|
                if t.has_source {
                    None
                } else {
                    Some((t.disc_position, t.track_position, t.title@, Some(t.recording_id@)))
                }),
            missing_views(r@) == tracks@.take(i as int).filter_map(f),
        decreases tracks@.len() - i,
    {
        proof {
            tracks@.lemma_filter_map_take_succ(f, i as int);
        }
        let ghost before = missing_views(r@);
        if !tracks[i].has_source {
            let m = MissingTrackDetail {
                disc_position: tracks[i].disc_position,
                track_position: tracks[i].track_position,
                title: tracks[i].title.clone(),
                recording_id: Some(tracks[i].recording_id.clone()),
            };
            r.push(m);
            assert(missing_views(r@) =~= before + seq![missing_view(m)]);
        } else {
            assert(before + Seq::<Missing>::empty() =~= before);
        }
        i = i + 1;
    }
    assert(tracks@.take(tracks@.len() as int) =~= tracks@);
    r
}

fn is_occupied(tracks: &Vec<ReleaseTrack>, disc: i64, position: i64) -> (r: bool)
    ensures
        r == occupied(tracks@, disc, position as int),
{
    let mut i: usize = 0;
    while i < tracks.len()
        invariant
            i <= tracks@.len(),
            forall|k: int|
                0 <= k < i ==> !((#[trigger] tracks@[k]).disc_position == disc
                    && tracks@[k].track_position == position),
        decreases tracks@.len() - i,
    {
        if tracks[i].disc_position == disc && tracks[i].track_position == position {
            return true;
        }
        i = i + 1;
    }
    false
}

/// Appends the positions from 1 to `n` of a disc at which no track stands.
fn push_phantoms(out: &mut Vec<MissingTrackDetail>, tracks: &Vec<ReleaseTrack>, disc: i64, n: i64)
    ensures
        missing_views(final(out)@) == missing_views(old(out)@) + phantoms(
            tracks@,
            disc,
            n as int,
        ),
{
    let ghost before = missing_views(out@);
    let mut p: i64 = 0;
    assert(before + phantoms(tracks@, disc, 0) =~= before);
    while p < n
        invariant
            0 <= p,
            p <= n || n < 0,
            n < 0 ==> p == 0,
            missing_views(out@) == before + phantoms(tracks@, disc, p as int),
        decreases n - p,
    {
        p = p + 1;
        if !is_occupied(tracks, disc, p) {
            let ghost so_far = missing_views(out@);
            let m = MissingTrackDetail {
                disc_position: disc,
                track_position: p,
                title: String::new(),
                recording_id: None,
            };
            out.push(m);
            assert(missing_views(out@) =~= so_far.push(missing_view(m)));
            assert(missing_views(out@) =~= before + phantoms(tracks@, disc, p as int));
        }
    }
}

fn disc_claims_of(claims: &Vec<SourceClaim>, disc: i64) -> (r: Vec<i64>)
    ensures
        r@ == disc_claims(claims@, disc),
{
    let own: bool = has_own(claims);
    let ghost f = |x: SourceClaim|
        if counts(own, x) && x.disc_position == Some(disc) {
            Some(x.track_total)
        } else {
            None
        };
    let mut r: Vec<i64> = Vec::new();
    let mut i: usize = 0;
    assert(claims@.take(0) =~= Seq::empty());
    while i < claims.len()
        invariant
            i <= claims@.len(),
            f == (|x: SourceClaim|
                if counts(own, x) && x.disc_position == Some(disc) {
                    Some(x.track_total)
                } else {
                    None
                }),
            r@ == claims@.take(i as int).filter_map(f),
        decreases claims@.len() - i,
    {
        proof {
            claims@.lemma_filter_map_take_succ(f, i as int);
        }
        if let Some(d) = claims[i].disc_position {
            if (claims[i].on_release || !own) && d == disc {
                r.push(claims[i].track_total);
            }
        }
        i = i + 1;
    }
    assert(claims@.take(claims@.len() as int) =~= claims@);
    r
}

fn claimed_discs_of(claims: &Vec<SourceClaim>) -> (r: Vec<i64>)
    ensures
        r@ == claimed_discs(claims@),
{
    let own: bool = has_own(claims);
    let ghost f = |x: SourceClaim| said(own, x, x.disc_position);
    let mut r: Vec<i64> = Vec::new();
    let mut i: usize = 0;
    assert(claims@.take(0) =~= Seq::empty());
    while i < claims.len()
        invariant
            i <= claims@.len(),
            f == (|x: SourceClaim| said(own, x, x.disc_position)),
            r@ == claims@.take(i as int).filter_map(f),
        decreases claims@.len() - i,
    {
        proof {
            claims@.lemma_filter_map_take_succ(f, i as int);
        }
        if claims[i].on_release || !own {
            if let Some(d) = claims[i].disc_position {
                r.push(d);
            }
        }
        i = i + 1;
    }
    assert(claims@.take(claims@.len() as int) =~= claims@);
    distinct_numbers(&r)
}

pub(crate) fn count_of(s: &Vec<i64>, v: i64) -> (n: usize)
    ensures
        n == s@.to_multiset().count(v),
        n <= s@.len(),
{
    let mut n: usize = 0;
    let mut i: usize = 0;
    proof {
        assert(s@.take(0) =~= Seq::empty());
        s@.take(0).to_multiset_ensures();
    }
    while i < s.len()
        invariant
            i <= s@.len(),
            n <= i,
            n == s@.take(i as int).to_multiset().count(v),
        decreases s@.len() - i,
    {
        proof {
            assert(s@.take(i + 1) =~= s@.take(i as int).push(s@[i as int]));
            s@.take(i as int).to_multiset_ensures();
        }
        if s[i] == v {
            n = n + 1;
        }
        i = i + 1;
    }
    assert(s@.take(s@.len() as int) =~= s@);
    n
}

pub(crate) proof fn lemma_most_claimed(s: Seq<i64>, v: i64)
    requires
        is_most_claimed(s, v),
    ensures
        most_claimed(s) == Some(v),
{
    let w = choose|w: i64| is_most_claimed(s, w);
    assert(is_most_claimed(s, w));
    assert(s.contains(v) && s.contains(w));
}

fn most_claimed_of(s: &Vec<i64>) -> (r: Option<i64>)
    ensures
        r == most_claimed(s@),
        r is Some ==> is_most_claimed(s@, r->0),
{
    if s.len() == 0 {
        return None;
    }
    let mut best: i64 = s[0];
    let mut best_count: usize = count_of(s, best);
    let mut i: usize = 1;
    while i < s.len()
        invariant
            1 <= i <= s@.len(),
            s@.contains(best),
            best_count == s@.to_multiset().count(best),
            forall|k: int|
                0 <= k < i ==> {
                    let c = s@.to_multiset().count(#[trigger] s@[k]);
                    c < best_count || (c == best_count && s@[k] <= best)
                },
        decreases s@.len() - i,
    {
        let c: usize = count_of(s, s[i]);
        if c > best_count || (c == best_count && s[i] > best) {
            best = s[i];
            best_count = c;
        }
        i = i + 1;
    }
    proof {
        assert forall|w: i64| #[trigger] s@.contains(w) implies s@.to_multiset().count(w)
            < s@.to_multiset().count(best) || (s@.to_multiset().count(w)
            == s@.to_multiset().count(best) && w <= best) by {
            let k = choose|k: int| 0 <= k < s@.len() && s@[k] == w;
            assert(s@[k] == w);
        }
        lemma_most_claimed(s@, best);
    }
    Some(best)
}

pub(crate) fn all_same(s: &Vec<i64>) -> (r: bool)
    ensures
        r == unanimous(s@),
{
    let mut i: usize = 1;
    while i < s.len()
        invariant
            1 <= i,
            forall|k: int| 0 <= k < i && k < s@.len() ==> #[trigger] s@[k] == s@[0],
        decreases s@.len() - i,
    {
        if s[i] != s[0] {
            return false;
        }
        i = i + 1;
    }
    true
}

fn track_discs_of(tracks: &Vec<ReleaseTrack>) -> (r: Vec<i64>)
    ensures
        r@ == track_discs(tracks@),
{
    let mut r: Vec<i64> = Vec::new();
    let mut i: usize = 0;
    while i < tracks.len()
        invariant
            i <= tracks@.len(),
            r@.len() == i,
            forall|k: int| 0 <= k < i ==> r@[k] == (#[trigger] tracks@[k]).disc_position,
        decreases tracks@.len() - i,
    {
        r.push(tracks[i].disc_position);
        i = i + 1;
    }
    assert(r@ =~= tracks@.map_values(|t: ReleaseTrack| t.disc_position));
    distinct_numbers(&r)
}

fn count_on(tracks: &Vec<ReleaseTrack>, disc: i64) -> (n: usize)
    ensures
        n == tracks_on(tracks@, disc).len(),
{
    let ghost f = |t: ReleaseTrack| t.disc_position == disc;
    let mut n: usize = 0;
    let mut i: usize = 0;
    proof {
        assert(tracks@.take(0) =~= Seq::empty());
        tracks@.take(0).lemma_filter_len(f);
    }
    while i < tracks.len()
        invariant
            i <= tracks@.len(),
            n <= i,
            f == (|t: ReleaseTrack| t.disc_position == disc),
            n == tracks@.take(i as int).filter(f).len(),
        decreases tracks@.len() - i,
    {
        proof {
            assert(tracks@.take(i + 1) =~= tracks@.take(i as int).push(tracks@[i as int]));
            tracks@.take(i as int).lemma_filter_push(tracks@[i as int], f);
        }
        if tracks[i].disc_position == disc {
            n = n + 1;
        }
        i = i + 1;
    }
    assert(tracks@.take(tracks@.len() as int) =~= tracks@);
    n
}

// ── Verdict, executable ──────────────────────────────────────────────────────

/// How the value claimed most often for a disc compares with its tracks, and that
/// value when more are claimed than there are.
fn judge_disc(c: &ReleaseContents, disc: i64) -> (r: (DiscClaim, i64))
    ensures
        r.0 == disc_claim(*c, disc),
        r.0 is More ==> most_claimed(disc_claims(c.claims@, disc)) == Some(r.1),
{
    let actual: i128 = count_on(&c.tracks, disc) as i128;
    match most_claimed_of(&disc_claims_of(&c.claims, disc)) {
        None => (DiscClaim::Unclaimed, 0),
        Some(n) => {
            if (n as i128) < actual {
                (DiscClaim::Fewer, n)
            } else if n as i128 == actual {
                (DiscClaim::Exact, n)
            } else {
                (DiscClaim::More, n)
            }
        },
    }
}

/// The outcome of judging a release disc by disc.
enum DiscOutcome {
    Undecided,
    Complete,
    Missing(Vec<MissingTrackDetail>),
    Disagreement,
}

/// Whether an outcome is the given verdict.
spec fn is_outcome(o: DiscOutcome, v: Verdict) -> bool {
    match v {
        Verdict::Complete => o is Complete,
        Verdict::Incomplete(missing) => o is Missing && missing_views(o->Missing_0@) == missing,
        Verdict::Disagreement => o is Disagreement,
        Verdict::Nothing(why) => o is Undecided && why
            == "No source files provide track_total information."@,
    }
}

/// Whether a release is to be judged disc by disc.
fn judged_by_disc(c: &ReleaseContents) -> (r: bool)
    ensures
        r == by_disc(*c),
{
    let several = match c.disc_total {
        Some(dt) => dt > 1,
        None => false,
    };
    several && claimed_discs_of(&c.claims).len() > 0
}

/// Judges a release disc by disc.
fn judge_discs(c: &ReleaseContents) -> (r: DiscOutcome)
    ensures
        is_outcome(r, disc_verdict(*c)),
{
    let claimed = claimed_discs_of(&c.claims);
    let discs = track_discs_of(&c.tracks);
    let mut all_exact = true;
    let mut any_fewer = false;
    let mut i: usize = 0;
    while i < discs.len()
        invariant
            i <= discs@.len(),
            discs@ == track_discs(c.tracks@),
            all_exact == (forall|k: int|
                0 <= k < i ==> disc_claim(*c, #[trigger] discs@[k]) is Exact),
            any_fewer == (exists|k: int|
                0 <= k < i && disc_claim(*c, #[trigger] discs@[k]) is Fewer),
        decreases discs@.len() - i,
    {
        let (claim, _n) = judge_disc(c, discs[i]);
        let ghost was_exact = all_exact;
        let ghost was_fewer = any_fewer;
        match claim {
            DiscClaim::Exact => {},
            DiscClaim::Fewer => {
                all_exact = false;
                any_fewer = true;
            },
            _ => {
                all_exact = false;
            },
        }
        proof {
            if !(disc_claim(*c, discs@[i as int]) is Exact) {
                assert(!(forall|k: int|
                    0 <= k < i + 1 ==> disc_claim(*c, #[trigger] discs@[k]) is Exact));
            }
            if was_fewer && !(disc_claim(*c, discs@[i as int]) is Fewer) {
                let k = choose|k: int|
                    0 <= k < i && disc_claim(*c, #[trigger] discs@[k]) is Fewer;
                assert(disc_claim(*c, discs@[k]) is Fewer);
            }
        }
        i = i + 1;
    }
    if all_exact {
        let missing = sourceless_tracks(&c.tracks);
        assert(missing_views(missing@).len() == missing@.len());
        return if missing.len() == 0 {
            DiscOutcome::Complete
        } else {
            DiscOutcome::Missing(missing)
        };
    }
    let mut j: usize = 0;
    while j < claimed.len()
        invariant
            j <= claimed@.len(),
            claimed@ == claimed_discs(c.claims@),
            discs@ == track_discs(c.tracks@),
            !(forall|k: int|
                0 <= k < discs@.len() ==> disc_claim(*c, #[trigger] discs@[k]) is Exact),
            forall|k: int|
                0 <= k < j ==> unanimous(disc_claims(c.claims@, #[trigger] claimed@[k])),
        decreases claimed@.len() - j,
    {
        if !all_same(&disc_claims_of(&c.claims, claimed[j])) {
            return DiscOutcome::Disagreement;
        }
        j = j + 1;
    }
    if any_fewer {
        return DiscOutcome::Disagreement;
    }
    let mut missing = sourceless_tracks(&c.tracks);
    let ghost f = |d: i64|
        if disc_claim(*c, d) is More {
            phantoms(c.tracks@, d, most_claimed(disc_claims(c.claims@, d))->0 as int)
        } else {
            Seq::empty()
        };
    let ghost rows = discs@.map_values(f);
    let ghost start = missing_views(missing@);
    let mut k: usize = 0;
    assert(rows.take(0) =~= Seq::empty());
    assert(start + rows.take(0).flatten() =~= start);
    while k < discs.len()
        invariant
            k <= discs@.len(),
            rows == discs@.map_values(f),
            f == (|d: i64|
                if disc_claim(*c, d) is More {
                    phantoms(c.tracks@, d, most_claimed(disc_claims(c.claims@, d))->0 as int)
                } else {
                    Seq::empty()
                }),
            missing_views(missing@) == start + rows.take(k as int).flatten(),
        decreases discs@.len() - k,
    {
        let (claim, n) = judge_disc(c, discs[k]);
        proof {
            rows.take(k as int).lemma_flatten_push(rows[k as int]);
            assert(rows.take(k + 1) =~= rows.take(k as int).push(rows[k as int]));
        }
        match claim {
            DiscClaim::More => {
                push_phantoms(&mut missing, &c.tracks, discs[k], n);
            },
            _ => {},
        }
        assert(missing_views(missing@) =~= start + rows.take(k + 1).flatten());
        k = k + 1;
    }
    assert(rows.take(rows.len() as int) =~= rows);
    assert(claimed_phantoms(*c) == rows.flatten());
    assert(missing_views(missing@).len() == missing@.len());
    if missing.len() == 0 {
        DiscOutcome::Undecided
    } else {
        DiscOutcome::Missing(missing)
    }
}

/// Missing tracks of a release that is found incomplete.
fn incomplete(missing: Vec<MissingTrackDetail>) -> (r: Option<ReleaseCompleteness>)
    ensures
        match r {
            Some(x) => missing@.len() > 0 && x is Incomplete && models::missing_items(
                x->missing_tracks,
            ) == missing@,
            None => missing@.len() == 0,
        },
{
    match non_empty(missing) {
        Some(missing_tracks) => Some(ReleaseCompleteness::Incomplete { missing_tracks }),
        None => None,
    }
}

fn unknown(why: &str) -> (r: ReleaseCompleteness)
    ensures
        r is Unknown,
        r->reason@ == why@,
        r->disagreement_groups@.len() == 0,
{
    ReleaseCompleteness::Unknown { reason: why.to_owned(), disagreement_groups: Vec::new() }
}

/// Decides whether a release is complete, and says which tracks are missing or on
/// what its sources disagree. `None` when a release is found incomplete with no
/// track to show for it, as happens where tracks stand on no disc.
pub fn release_completeness(c: &ReleaseContents) -> (r: Option<ReleaseCompleteness>)
    ensures
        match r {
            Some(x) => shows_what_is_missing(*c) && reports(x, *c),
            None => !shows_what_is_missing(*c),
        },
{
    let totals_found = track_totals(&c.claims);
    if c.tracks.len() == 0 {
        return Some(unknown("No tracks on this release."));
    }
    if totals_found.len() == 0 {
        return Some(unknown("No source files provide track_total information."));
    }
    let total: i64 = totals_found[0];
    if !all_same(&totals_found) {
        if !judged_by_disc(c) {
            return Some(describe_disagreement(c));
        }
        return match judge_discs(c) {
            DiscOutcome::Undecided => Some(
                unknown("No source files provide track_total information."),
            ),
            DiscOutcome::Complete => Some(ReleaseCompleteness::Complete),
            DiscOutcome::Missing(missing) => {
                assert(missing_views(missing@).len() == missing@.len());
                incomplete(missing)
            },
            DiscOutcome::Disagreement => Some(describe_disagreement(c)),
        };
    }
    if total == 0 {
        return Some(unknown("Track total is zero."));
    }
    let without_source = sourceless_tracks(&c.tracks);
    assert(missing_views(without_source@).len() == without_source@.len());
    if without_source.len() > 0 {
        return incomplete(without_source);
    }
    if c.tracks.len() as i128 >= total as i128 {
        return Some(ReleaseCompleteness::Complete);
    }
    let mut missing: Vec<MissingTrackDetail> = Vec::new();
    let ghost rows = c.mediums@.map_values(|d: i64| phantoms(c.tracks@, d, total as int));
    let mut i: usize = 0;
    assert(rows.take(0) =~= Seq::empty());
    assert(missing_views(missing@) =~= rows.take(0).flatten());
    while i < c.mediums.len()
        invariant
            i <= c.mediums@.len(),
            rows == c.mediums@.map_values(|d: i64| phantoms(c.tracks@, d, total as int)),
            missing_views(missing@) == rows.take(i as int).flatten(),
        decreases c.mediums@.len() - i,
    {
        proof {
            rows.take(i as int).lemma_flatten_push(rows[i as int]);
            assert(rows.take(i + 1) =~= rows.take(i as int).push(rows[i as int]));
        }
        push_phantoms(&mut missing, &c.tracks, c.mediums[i], total);
        i = i + 1;
    }
    assert(rows.take(rows.len() as int) =~= rows);
    assert(missing_views(missing@).len() == missing@.len());
    incomplete(missing)
}

// ── Disagreement, executable ─────────────────────────────────────────────────

pub(crate) fn plural_of(n: i128) -> (r: &'static str)
    ensures
        r@ == plural(n as int),
{
    if n == 1 {
        ""
    } else {
        "s"
    }
}

pub(crate) fn claim_word_of(n: usize) -> (r: &'static str)
    ensures
        r@ == claim_word(n as int),
{
    if n == 1 {
        "claims"
    } else {
        "claim"
    }
}

fn paths_claiming_of(claims: &Vec<SourceClaim>, total: i64) -> (r: Vec<String>)
    ensures
        text::texts(r@) == paths_claiming(claims@, total),
{
    let own: bool = has_own(claims);
    let ghost f = |x: SourceClaim|
        if counts(own, x) && x.track_total == total {
            text::opt_text(x.file_path)
        } else {
            None
        };
    let mut r: Vec<String> = Vec::new();
    let mut i: usize = 0;
    assert(claims@.take(0) =~= Seq::empty());
    assert(text::texts(r@) =~= claims@.take(0).filter_map(f));
    while i < claims.len()
        invariant
            i <= claims@.len(),
            f == (|x: SourceClaim|
                if counts(own, x) && x.track_total == total {
                    text::opt_text(x.file_path)
                } else {
                    None
                }),
            text::texts(r@) == claims@.take(i as int).filter_map(f),
        decreases claims@.len() - i,
    {
        proof {
            claims@.lemma_filter_map_take_succ(f, i as int);
        }
        let ghost before = text::texts(r@);
        if (claims[i].on_release || !own) && claims[i].track_total == total {
            if let Some(p) = &claims[i].file_path {
                r.push(p.clone());
                assert(text::texts(r@) =~= before + seq![p@]);
            }
        }
        assert(before + Seq::<Seq<char>>::empty() =~= before);
        i = i + 1;
    }
    assert(claims@.take(claims@.len() as int) =~= claims@);
    r
}

fn totals_with_paths_of(claims: &Vec<SourceClaim>) -> (r: Vec<i64>)
    ensures
        r@ == totals_with_paths(claims@),
{
    let own: bool = has_own(claims);
    let ghost f = |x: SourceClaim|
        if counts(own, x) && x.file_path is Some {
            Some(x.track_total)
        } else {
            None
        };
    let mut r: Vec<i64> = Vec::new();
    let mut i: usize = 0;
    assert(claims@.take(0) =~= Seq::empty());
    while i < claims.len()
        invariant
            i <= claims@.len(),
            f == (|x: SourceClaim|
                if counts(own, x) && x.file_path is Some {
                    Some(x.track_total)
                } else {
                    None
                }),
            r@ == claims@.take(i as int).filter_map(f),
        decreases claims@.len() - i,
    {
        proof {
            claims@.lemma_filter_map_take_succ(f, i as int);
        }
        if (claims[i].on_release || !own) && claims[i].file_path.is_some() {
            r.push(claims[i].track_total);
        }
        i = i + 1;
    }
    assert(claims@.take(claims@.len() as int) =~= claims@);
    sort_numbers(distinct_numbers(&r))
}

fn claiming_paths_of(claims: &Vec<SourceClaim>) -> (r: Vec<String>)
    ensures
        text::texts(r@) == claiming_paths(claims@),
{
    let own: bool = has_own(claims);
    let ghost f = |x: SourceClaim| said(own, x, text::opt_text(x.file_path));
    let mut r: Vec<String> = Vec::new();
    let mut i: usize = 0;
    proof {
        assert(claims@.take(0) =~= Seq::empty());
        assert(text::texts(r@) =~= text::distinct(claims@.take(0).filter_map(f)));
    }
    while i < claims.len()
        invariant
            i <= claims@.len(),
            f == (|x: SourceClaim| said(own, x, text::opt_text(x.file_path))),
            text::texts(r@) == text::distinct(claims@.take(i as int).filter_map(f)),
        decreases claims@.len() - i,
    {
        let ghost found = claims@.take(i as int).filter_map(f);
        proof {
            claims@.lemma_filter_map_take_succ(f, i as int);
            text::lemma_distinct(found);
        }
        assert(found + Seq::<Seq<char>>::empty() =~= found);
        if claims[i].on_release || !own {
            if let Some(p) = &claims[i].file_path {
                let ghost before = text::texts(r@);
                proof {
                    assert(found + seq![p@] =~= found.push(p@));
                    text::lemma_distinct_push(found, p@);
                }
                if !contains_text(&r, p) {
                    r.push(p.clone());
                    assert(text::texts(r@) =~= before.push(p@));
                }
            }
        }
        i = i + 1;
    }
    assert(claims@.take(claims@.len() as int) =~= claims@);
    sort_strings(r)
}

fn total_layout_of(disc_total: Option<i64>, total: i64) -> (s: String)
    ensures
        s@ == total_layout(disc_total, total),
{
    let mut s = match disc_total {
        None => "(no total disc info) ".to_owned(),
        Some(dt) => {
            if dt > 1 {
                let mut t = signed_string(dt);
                t.append(" disc with ");
                t
            } else {
                "1 disc with ".to_owned()
            }
        },
    };
    s.append(&signed_string(total));
    s.append(" track");
    s.append(plural_of(total as i128));
    s
}

fn total_part_of(disc_total: Option<i64>, total: i64, count: usize) -> (s: String)
    ensures
        s@ == total_part(disc_total, total, count as int),
{
    let mut s = signed_string(total);
    s.append(" from ");
    s.append(&decimal_string(count as u64));
    s.append(" source");
    s.append(plural_of(count as i128));
    if disc_total.is_none() {
        s.append(" (no disc info)");
    } else {
        s.append("");
    }
    s
}

fn group_heading_of(count: usize, layout: &str) -> (s: String)
    ensures
        s@ == group_heading(count as int, layout@),
{
    let mut s = decimal_string(count as u64);
    s.append(" source ");
    s.append(claim_word_of(count));
    s.append(" ");
    s.append(layout);
    s
}

fn disc_sizes_of(claims: &Vec<SourceClaim>) -> (r: Vec<String>)
    ensures
        text::texts(r@) == disc_sizes(claims@),
{
    let discs = sort_numbers(claimed_discs_of(claims));
    let ghost all = disc_sizes(claims@);
    let mut r: Vec<String> = Vec::new();
    let mut i: usize = 0;
    while i < discs.len()
        invariant
            i <= discs@.len(),
            discs@ == sorting::stable_sort(claimed_discs(claims@), sorting::number_order()),
            all == disc_sizes(claims@),
            text::texts(r@) == all.take(i as int),
        decreases discs@.len() - i,
    {
        let ghost before = text::texts(r@);
        let found = disc_claims_of(claims, discs[i]);
        proof {
            lemma_claimed_disc_has_claims(claims@, discs@[i as int]);
        }
        let best: i64 = match most_claimed_of(&found) {
            Some(n) => n,
            None => 0,
        };
        r.push(signed_string(best));
        assert(text::texts(r@) =~= before.push(all[i as int]));
        assert(all.take(i + 1) =~= all.take(i as int).push(all[i as int]));
        i = i + 1;
    }
    assert(all.take(i as int) =~= all);
    r
}

proof fn lemma_claimed_disc_has_claims(claims: Seq<SourceClaim>, disc: i64)
    requires
        sorting::stable_sort(claimed_discs(claims), sorting::number_order()).contains(disc),
    ensures
        disc_claims(claims, disc).len() > 0,
{
    let own = any_own(claims);
    let f = |x: SourceClaim| said(own, x, x.disc_position);
    let g = |x: SourceClaim|
        if counts(own, x) && x.disc_position == Some(disc) {
            Some(x.track_total)
        } else {
            None
        };
    let found = claims.filter_map(f);
    sorting::lemma_text_order();
    sorting::lemma_sort_contains(claimed_discs(claims), sorting::number_order(), disc);
    text::lemma_distinct(found);
    text::lemma_filter_map_source(claims, f, disc);
    let i = choose|i: int| 0 <= i < claims.len() && f(#[trigger] claims[i]) == Some(disc);
    text::lemma_filter_map_keeps(claims, g, i);
}

fn discs_layout_of(c: &ReleaseContents, dt: i64, count: usize) -> (s: String)
    requires
        c.disc_total == Some(dt),
        count == claiming_paths(c.claims@).len(),
    ensures
        s@ == discs_layout(*c),
{
    let mut s = signed_string(dt);
    s.append(" disc");
    s.append(plural_of(dt as i128));
    s.append(" with ");
    s.append(&text::join(&disc_sizes_of(&c.claims), "+"));
    s.append(" track");
    s.append(plural_of(count as i128));
    s
}

/// Reports on what the sources of a release disagree.
fn describe_disagreement(c: &ReleaseContents) -> (r: ReleaseCompleteness)
    ensures
        r is Unknown,
        r->reason@ == disagreement_reason(*c),
        group_views(r->disagreement_groups@) == disagreement_groups(*c),
{
    let mut groups: Vec<SourceDisagreementGroup> = Vec::new();
    let mut parts: Vec<String> = Vec::new();
    let claimed = claimed_discs_of(&c.claims);
    let several = match c.disc_total {
        Some(dt) => if dt > 1 && claimed.len() > 0 {
            Some(dt)
        } else {
            None
        },
        None => None,
    };
    match several {
        Some(dt) => {
            let source_paths = claiming_paths_of(&c.claims);
            assert(text::texts(source_paths@).len() == source_paths@.len());
            let count: usize = source_paths.len();
            let layout = discs_layout_of(c, dt, count);
            let description = group_heading_of(count, &layout);
            let mut part = layout;
            part.append(" from ");
            part.append(&decimal_string(count as u64));
            part.append(" source");
            part.append(plural_of(count as i128));
            parts.push(part);
            groups.push(SourceDisagreementGroup { description, source_paths });
            proof {
                assert(text::texts(parts@) =~= seq![
                    discs_layout(*c) + " from "@ + text::decimal(count as nat) + " source"@
                        + plural(count as int),
                ]);
                assert(group_views(groups@) =~= disagreement_groups(*c));
            }
        },
        None => {
            let found = totals_with_paths_of(&c.claims);
            let ghost part_of = |t: i64|
                total_part(c.disc_total, t, paths_claiming(c.claims@, t).len() as int);
            let ghost group_of = |t: i64| total_group(*c, t);
            let mut i: usize = 0;
            assert(text::texts(parts@) =~= found@.map_values(part_of).take(0));
            assert(group_views(groups@) =~= found@.map_values(group_of).take(0));
            while i < found.len()
                invariant
                    i <= found@.len(),
                    part_of == (|t: i64|
                        total_part(c.disc_total, t, paths_claiming(c.claims@, t).len() as int)),
                    group_of == (|t: i64| total_group(*c, t)),
                    text::texts(parts@) == found@.map_values(part_of).take(i as int),
                    group_views(groups@) == found@.map_values(group_of).take(i as int),
                decreases found@.len() - i,
            {
                let t: i64 = found[i];
                let source_paths = paths_claiming_of(&c.claims, t);
                assert(text::texts(source_paths@).len() == source_paths@.len());
                let count: usize = source_paths.len();
                let part = total_part_of(c.disc_total, t, count);
                let description = group_heading_of(count, &total_layout_of(c.disc_total, t));
                let ghost old_parts = text::texts(parts@);
                let ghost old_groups = group_views(groups@);
                parts.push(part);
                groups.push(SourceDisagreementGroup { description, source_paths });
                proof {
                    assert(text::texts(parts@) =~= old_parts.push(part_of(t)));
                    assert(group_views(groups@) =~= old_groups.push(group_of(t)));
                    assert(found@.map_values(part_of).take(i + 1) =~= found@.map_values(
                        part_of,
                    ).take(i as int).push(part_of(t)));
                    assert(found@.map_values(group_of).take(i + 1) =~= found@.map_values(
                        group_of,
                    ).take(i as int).push(group_of(t)));
                }
                i = i + 1;
            }
            proof {
                assert(found@.map_values(part_of).take(i as int) =~= found@.map_values(part_of));
                assert(found@.map_values(group_of).take(i as int) =~= found@.map_values(group_of));
            }
        },
    }
    let mut reason = "Sources disagree on total track count: ".to_owned();
    reason.append(&text::join(&parts, ", "));
    ReleaseCompleteness::Unknown { reason, disagreement_groups: groups }
}

// ── Laws ─────────────────────────────────────────────────────────────────────

proof fn lemma_phantoms_of_one_more(
    tracks: Seq<ReleaseTrack>,
    t: ReleaseTrack,
    disc: i64,
    n: int,
)
    requires
        n <= i64::MAX,
    ensures
        phantoms(tracks.push(t), disc, n).len() >= phantoms(tracks, disc, n).len()
            - if t.disc_position == disc && 1 <= t.track_position <= n {
            1int
        } else {
            0int
        },
    decreases n,
{
    if n > 0 {
        let more = tracks.push(t);
        lemma_phantoms_of_one_more(tracks, t, disc, n - 1);
        if occupied(tracks, disc, n) {
            let i = choose|i: int|
                0 <= i < tracks.len() && (#[trigger] tracks[i]).disc_position == disc
                    && tracks[i].track_position == n;
            assert(more[i] == tracks[i]);
        } else if occupied(more, disc, n) {
            let i = choose|i: int|
                0 <= i < more.len() && (#[trigger] more[i]).disc_position == disc
                    && more[i].track_position == n;
            if i < tracks.len() {
                assert(more[i] == tracks[i]);
            }
        }
    }
}

/// A disc with fewer tracks than positions has an empty position.
proof fn lemma_phantoms_exist(tracks: Seq<ReleaseTrack>, disc: i64, n: int)
    requires
        0 <= n <= i64::MAX,
    ensures
        phantoms(tracks, disc, n).len() >= n - tracks_on(tracks, disc).len(),
    decreases tracks.len(),
{
    let f = |t: ReleaseTrack| t.disc_position == disc;
    if tracks.len() == 0 {
        lemma_phantoms_of_nothing(tracks, disc, n);
    } else {
        let front = tracks.drop_last();
        lemma_phantoms_exist(front, disc, n);
        lemma_phantoms_of_one_more(front, tracks.last(), disc, n);
        assert(tracks =~= front.push(tracks.last()));
        front.lemma_filter_push(tracks.last(), f);
    }
}

proof fn lemma_phantoms_of_nothing(tracks: Seq<ReleaseTrack>, disc: i64, n: int)
    requires
        tracks.len() == 0,
        0 <= n,
    ensures
        phantoms(tracks, disc, n).len() == n,
    decreases n,
{
    if n > 0 {
        lemma_phantoms_of_nothing(tracks, disc, n - 1);
    }
}

proof fn lemma_flatten_has<A>(rows: Seq<Seq<A>>, i: int)
    requires
        0 <= i < rows.len(),
        rows[i].len() > 0,
    ensures
        rows.flatten().len() > 0,
{
    rows.lemma_flatten_length_ge_single_element_length(i);
    rows.lemma_flatten_and_flatten_alt_are_equivalent();
}

/// A release whose tracks stand on its discs is never found incomplete without a
/// track to show for it.
pub proof fn law_incomplete_shows_tracks(c: ReleaseContents)
    requires
        forall|i: int|
            0 <= i < c.tracks@.len() ==> c.mediums@.contains(
                (#[trigger] c.tracks@[i]).disc_position,
            ),
    ensures
        shows_what_is_missing(c),
{
    let tracks = c.tracks@;
    let t = totals(c.claims@);
    if verdict(c) is Incomplete && unanimous(t) && sourceless(tracks).len() == 0 {
        assert(c.mediums@.contains(tracks[0].disc_position));
        let m = c.mediums@[0];
        let f = |x: ReleaseTrack| x.disc_position == m;
        lemma_phantoms_exist(tracks, m, t[0] as int);
        tracks.lemma_filter_len(f);
        let rows = c.mediums@.map_values(|d: i64| phantoms(tracks, d, t[0] as int));
        assert(rows[0].len() > 0);
        lemma_flatten_has(rows, 0);
    }
}

/// A release is found complete only where every track has a source, and where there
/// are as many tracks as its sources agree on, or, where their claims differ, as many
/// on every disc as are claimed most often for it.
pub proof fn law_complete_has_every_source(c: ReleaseContents)
    requires
        verdict(c) is Complete,
    ensures
        c.tracks@.len() > 0,
        forall|i: int| 0 <= i < c.tracks@.len() ==> (#[trigger] c.tracks@[i]).has_source,
        unanimous(totals(c.claims@)) ==> c.tracks@.len() >= totals(c.claims@)[0],
        !unanimous(totals(c.claims@)) ==> forall|i: int|
            0 <= i < track_discs(c.tracks@).len() ==> disc_claim(
                c,
                #[trigger] track_discs(c.tracks@)[i],
            ) is Exact,
{
    let f = |t: ReleaseTrack|
        if t.has_source {
            None
        } else {
            Some((t.disc_position, t.track_position, t.title@, Some(t.recording_id@)))
        };
    assert forall|i: int| 0 <= i < c.tracks@.len() implies (#[trigger] c.tracks@[i]).has_source by {
        if !c.tracks@[i].has_source {
            text::lemma_filter_map_keeps(c.tracks@, f, i);
        }
    }
}

/// Beside a source of the release, what a source of another one claims does not
/// count: it changes neither the verdict nor what is reported.
pub proof fn law_other_releases_have_no_say(c: ReleaseContents, d: ReleaseContents, x: SourceClaim)
    requires
        any_own(c.claims@),
        !x.on_release,
        d.mediums == c.mediums,
        d.tracks == c.tracks,
        d.disc_total == c.disc_total,
        d.claims@ == c.claims@.push(x),
    ensures
        verdict(d) == verdict(c),
        disagreement_reason(d) == disagreement_reason(c),
        disagreement_groups(d) == disagreement_groups(c),
{
    let a = c.claims@;
    let b = d.claims@;
    let own = true;
    assert(any_own(b)) by {
        let i = choose|i: int| 0 <= i < a.len() && (#[trigger] a[i]).on_release;
        assert(b[i] == a[i]);
    }
    lemma_skipped(a, x, |x: SourceClaim| said(own, x, Some(x.track_total)));
    lemma_skipped(a, x, |x: SourceClaim| said(own, x, x.disc_position));
    lemma_skipped(a, x, |x: SourceClaim| said(own, x, text::opt_text(x.file_path)));
    lemma_skipped(
        a,
        x,
        |x: SourceClaim|
            if counts(own, x) && x.file_path is Some {
                Some(x.track_total)
            } else {
                None
            },
    );
    assert forall|disc: i64| #[trigger] disc_claims(b, disc) == disc_claims(a, disc) by {
        lemma_skipped(
            a,
            x,
            |x: SourceClaim|
                if counts(own, x) && x.disc_position == Some(disc) {
                    Some(x.track_total)
                } else {
                    None
                },
        );
    }
    assert forall|total: i64| #[trigger] paths_claiming(b, total) == paths_claiming(a, total) by {
        lemma_skipped(
            a,
            x,
            |x: SourceClaim|
                if counts(own, x) && x.track_total == total {
                    text::opt_text(x.file_path)
                } else {
                    None
                },
        );
    }
    assert(totals(b) == totals(a));
    assert(claimed_discs(b) == claimed_discs(a));
    assert(claiming_paths(b) == claiming_paths(a));
    assert(totals_with_paths(b) == totals_with_paths(a));
    lemma_same_claims(c, d);
}

/// Where no source belongs to the release, all claims count as if all did.
pub proof fn law_without_own_sources_all_count(c: ReleaseContents, d: ReleaseContents)
    requires
        !any_own(c.claims@),
        d.mediums == c.mediums,
        d.tracks == c.tracks,
        d.disc_total == c.disc_total,
        d.claims@ == c.claims@.map_values(
            |x: SourceClaim| SourceClaim { on_release: true, ..x },
        ),
    ensures
        verdict(d) == verdict(c),
        disagreement_reason(d) == disagreement_reason(c),
        disagreement_groups(d) == disagreement_groups(c),
{
    let a = c.claims@;
    let b = d.claims@;
    let own = any_own(b);
    lemma_counted_alike(
        a,
        b,
        |x: SourceClaim| said(false, x, Some(x.track_total)),
        |x: SourceClaim| said(own, x, Some(x.track_total)),
    );
    lemma_counted_alike(
        a,
        b,
        |x: SourceClaim| said(false, x, x.disc_position),
        |x: SourceClaim| said(own, x, x.disc_position),
    );
    lemma_counted_alike(
        a,
        b,
        |x: SourceClaim| said(false, x, text::opt_text(x.file_path)),
        |x: SourceClaim| said(own, x, text::opt_text(x.file_path)),
    );
    lemma_counted_alike(
        a,
        b,
        |x: SourceClaim|
            if counts(false, x) && x.file_path is Some {
                Some(x.track_total)
            } else {
                None
            },
        |x: SourceClaim|
            if counts(own, x) && x.file_path is Some {
                Some(x.track_total)
            } else {
                None
            },
    );
    assert forall|disc: i64| #[trigger] disc_claims(b, disc) == disc_claims(a, disc) by {
        lemma_counted_alike(
            a,
            b,
            |x: SourceClaim|
                if counts(false, x) && x.disc_position == Some(disc) {
                    Some(x.track_total)
                } else {
                    None
                },
            |x: SourceClaim|
                if counts(own, x) && x.disc_position == Some(disc) {
                    Some(x.track_total)
                } else {
                    None
                },
        );
    }
    assert forall|total: i64| #[trigger] paths_claiming(b, total) == paths_claiming(a, total) by {
        lemma_counted_alike(
            a,
            b,
            |x: SourceClaim|
                if counts(false, x) && x.track_total == total {
                    text::opt_text(x.file_path)
                } else {
                    None
                },
            |x: SourceClaim|
                if counts(own, x) && x.track_total == total {
                    text::opt_text(x.file_path)
                } else {
                    None
                },
        );
    }
    assert(totals(b) == totals(a));
    assert(claimed_discs(b) == claimed_discs(a));
    assert(claiming_paths(b) == claiming_paths(a));
    assert(totals_with_paths(b) == totals_with_paths(a));
    lemma_same_claims(c, d);
}

/// Claims that say the same one by one say the same together.
proof fn lemma_counted_alike<A>(
    a: Seq<SourceClaim>,
    b: Seq<SourceClaim>,
    f: spec_fn(SourceClaim) -> Option<A>,
    g: spec_fn(SourceClaim) -> Option<A>,
)
    requires
        a.len() == b.len(),
        forall|i: int| 0 <= i < a.len() ==> f(#[trigger] a[i]) == g(b[i]),
    ensures
        a.filter_map(f) == b.filter_map(g),
    decreases a.len(),
{
    if a.len() > 0 {
        let n = a.len() - 1;
        assert(f(a[n]) == g(b[n]));
        assert forall|i: int| 0 <= i < n implies f(#[trigger] a.take(n)[i]) == g(b.take(n)[i]) by {
            assert(a.take(n)[i] == a[i]);
        }
        lemma_counted_alike(a.take(n), b.take(n), f, g);
        a.lemma_filter_map_take_succ(f, n);
        b.lemma_filter_map_take_succ(g, n);
        assert(a.take(n + 1) =~= a);
        assert(b.take(n + 1) =~= b);
    } else {
        assert(a =~= b);
        assert(a.filter_map(f) =~= b.filter_map(g));
    }
}

/// Claims that say the same lead to the same verdict and the same report.
proof fn lemma_same_claims(c: ReleaseContents, d: ReleaseContents)
    requires
        d.mediums == c.mediums,
        d.tracks == c.tracks,
        d.disc_total == c.disc_total,
        totals(d.claims@) == totals(c.claims@),
        claimed_discs(d.claims@) == claimed_discs(c.claims@),
        claiming_paths(d.claims@) == claiming_paths(c.claims@),
        totals_with_paths(d.claims@) == totals_with_paths(c.claims@),
        forall|disc: i64| #[trigger] disc_claims(d.claims@, disc) == disc_claims(c.claims@, disc),
        forall|total: i64| #[trigger]
            paths_claiming(d.claims@, total) == paths_claiming(c.claims@, total),
    ensures
        verdict(d) == verdict(c),
        disagreement_reason(d) == disagreement_reason(c),
        disagreement_groups(d) == disagreement_groups(c),
{
    let a = c.claims@;
    let b = d.claims@;
    assert forall|disc: i64| #[trigger] disc_claim(d, disc) == disc_claim(c, disc) by {}
    let discs = track_discs(c.tracks@);
    let missing_c = |disc: i64|
        if disc_claim(c, disc) is More {
            phantoms(c.tracks@, disc, most_claimed(disc_claims(a, disc))->0 as int)
        } else {
            Seq::empty()
        };
    let missing_d = |disc: i64|
        if disc_claim(d, disc) is More {
            phantoms(d.tracks@, disc, most_claimed(disc_claims(b, disc))->0 as int)
        } else {
            Seq::empty()
        };
    assert(discs.map_values(missing_d) =~= discs.map_values(missing_c));
    assert(claimed_phantoms(d) == claimed_phantoms(c));
    assert(disc_sizes(b) =~= disc_sizes(a));
    let found = totals_with_paths(a);
    assert(found.map_values(|t: i64| total_group(d, t)) =~= found.map_values(
        |t: i64| total_group(c, t),
    ));
    assert(found.map_values(
        |t: i64| total_part(d.disc_total, t, paths_claiming(b, t).len() as int),
    ) =~= found.map_values(
        |t: i64| total_part(c.disc_total, t, paths_claiming(a, t).len() as int),
    ));
    assert(by_disc(d) == by_disc(c));
    lemma_same_disc_verdict(c, d);
}

proof fn lemma_skipped<A>(
    claims: Seq<SourceClaim>,
    x: SourceClaim,
    f: spec_fn(SourceClaim) -> Option<A>,
)
    requires
        f(x) is None,
    ensures
        claims.push(x).filter_map(f) == claims.filter_map(f),
{
    let more = claims.push(x);
    more.lemma_filter_map_take_succ(f, claims.len() as int);
    assert(more.take(more.len() as int) =~= more);
    assert(more.take(claims.len() as int) =~= claims);
    assert(claims.filter_map(f) + Seq::<A>::empty() =~= claims.filter_map(f));
}

proof fn lemma_same_disc_verdict(c: ReleaseContents, d: ReleaseContents)
    requires
        d.tracks == c.tracks,
        claimed_discs(d.claims@) == claimed_discs(c.claims@),
        claimed_phantoms(d) == claimed_phantoms(c),
        forall|disc: i64| #[trigger] disc_claims(d.claims@, disc) == disc_claims(c.claims@, disc),
        forall|disc: i64| #[trigger] disc_claim(d, disc) == disc_claim(c, disc),
    ensures
        disc_verdict(d) == disc_verdict(c),
{
    let discs = track_discs(c.tracks@);
    let claimed = claimed_discs(c.claims@);
    assert((forall|i: int| 0 <= i < discs.len() ==> disc_claim(d, #[trigger] discs[i]) is Exact)
        == (forall|i: int| 0 <= i < discs.len() ==> disc_claim(c, #[trigger] discs[i]) is Exact));
    assert((exists|i: int| 0 <= i < discs.len() && disc_claim(d, #[trigger] discs[i]) is Fewer)
        == (exists|i: int| 0 <= i < discs.len() && disc_claim(c, #[trigger] discs[i]) is Fewer));
    assert((exists|i: int|
        0 <= i < claimed.len() && !unanimous(disc_claims(d.claims@, #[trigger] claimed[i]))) == (
    exists|i: int|
        0 <= i < claimed.len() && !unanimous(disc_claims(c.claims@, #[trigger] claimed[i]))));
}

pub(crate) proof fn lemma_agreed_is_most_claimed(s: Seq<i64>)
    requires
        s.len() > 0,
        unanimous(s),
    ensures
        most_claimed(s) == Some(s[0]),
{
    assert(s.contains(s[0]));
    assert forall|w: i64| #[trigger] s.contains(w) implies w == s[0] by {
        let i = choose|i: int| 0 <= i < s.len() && s[i] == w;
        assert(s[i] == s[0]);
    }
    assert(is_most_claimed(s, s[0]));
}

/// Discs may have different numbers of tracks: where the sources of every disc that
/// holds tracks claim just its number, they do not disagree.
pub proof fn law_discs_may_differ(c: ReleaseContents)
    requires
        c.disc_total matches Some(dt) && dt > 1,
        forall|i: int|
            0 <= i < track_discs(c.tracks@).len() ==> disc_claims(
                c.claims@,
                #[trigger] track_discs(c.tracks@)[i],
            ).len() > 0,
        forall|i: int, j: int|
            0 <= i < track_discs(c.tracks@).len() && 0 <= j < disc_claims(
                c.claims@,
                track_discs(c.tracks@)[i],
            ).len() ==> #[trigger] disc_claims(c.claims@, track_discs(c.tracks@)[i])[j]
                == tracks_on(c.tracks@, track_discs(c.tracks@)[i]).len(),
    ensures
        !(verdict(c) is Disagreement),
{
    let tracks = c.tracks@;
    let discs = track_discs(tracks);
    if tracks.len() > 0 {
        text::lemma_distinct(tracks.map_values(|t: ReleaseTrack| t.disc_position));
        assert(tracks.map_values(|t: ReleaseTrack| t.disc_position)[0] == tracks[0].disc_position);
        assert(tracks.map_values(|t: ReleaseTrack| t.disc_position).contains(
            tracks[0].disc_position,
        ));
        assert(discs.contains(tracks[0].disc_position));
        let d = discs[0];
        let own = any_own(c.claims@);
        let f = |x: SourceClaim|
            if counts(own, x) && x.disc_position == Some(d) {
                Some(x.track_total)
            } else {
                None
            };
        let g = |x: SourceClaim| said(own, x, x.disc_position);
        let s = disc_claims(c.claims@, d);
        assert(s.len() > 0);
        assert(s.contains(s[0]));
        text::lemma_filter_map_source(c.claims@, f, s[0]);
        let k = choose|k: int| 0 <= k < c.claims@.len() && f(#[trigger] c.claims@[k]) == Some(s[0]);
        assert(c.claims@[k].disc_position == Some(d));
        text::lemma_filter_map_keeps(c.claims@, g, k);
        text::lemma_distinct(c.claims@.filter_map(g));
        assert(claimed_discs(c.claims@).contains(d));
        assert forall|i: int| 0 <= i < discs.len() implies disc_claim(
            c,
            #[trigger] discs[i],
        ) is Exact by {
            let s = disc_claims(c.claims@, discs[i]);
            assert(s[0] == tracks_on(tracks, discs[i]).len());
            assert(unanimous(s));
            lemma_agreed_is_most_claimed(s);
        }
    }
}

} // verus!
