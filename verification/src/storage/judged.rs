//! How releases are judged.
use vstd::prelude::*;
use crate::sorting;
use crate::text;
use super::completeness;
use super::completeness::{Missing, ReleaseContents, ReleaseTrack, SourceClaim, Verdict};

verus! {

/// Whether a claim is heard: it belongs to the release, or none does.
pub open spec fn heard(claims: Seq<SourceClaim>, i: int) -> bool {
    &&& 0 <= i < claims.len()
    &&& claims[i].on_release || forall|j: int|
        0 <= j < claims.len() ==> !(#[trigger] claims[j]).on_release
}

proof fn lemma_heard(claims: Seq<SourceClaim>, i: int)
    requires
        0 <= i < claims.len(),
    ensures
        heard(claims, i) == completeness::counts(completeness::any_own(claims), claims[i]),
{
}

/// Whether a claim of the number is heard.
pub open spec fn claimed(claims: Seq<SourceClaim>, n: i64) -> bool {
    exists|i: int| #[trigger] heard(claims, i) && claims[i].track_total == n
}

/// Whether a claim of the number is heard for a disc.
pub open spec fn claimed_of(claims: Seq<SourceClaim>, disc: i64, n: i64) -> bool {
    exists|i: int| #[trigger]
        heard(claims, i) && claims[i].track_total == n && claims[i].disc_position == Some(disc)
}

/// How many tracks of a release are on a disc.
pub open spec fn size_of(tracks: Seq<ReleaseTrack>, disc: i64) -> nat {
    tracks.filter(|t: ReleaseTrack| t.disc_position == disc).len()
}

/// Whether a missing track is one of the release that has no source.
pub open spec fn lacks_source(tracks: Seq<ReleaseTrack>, m: Missing) -> bool {
    exists|i: int|
        0 <= i < tracks.len() && !(#[trigger] tracks[i]).has_source && m == (
            tracks[i].disc_position,
            tracks[i].track_position,
            tracks[i].title@,
            Some(tracks[i].recording_id@),
        )
}

/// Whether a missing track stands for a position up to the given one that no track of
/// the release has on its disc.
pub open spec fn stands_open(tracks: Seq<ReleaseTrack>, n: int, m: Missing) -> bool {
    &&& 1 <= m.1 <= n
    &&& m.2.len() == 0
    &&& m.3 is None
    &&& forall|i: int|
        0 <= i < tracks.len() ==> !((#[trigger] tracks[i]).disc_position == m.0
            && tracks[i].track_position == m.1)
}

/// The claims that are heard are just those that are counted.
pub proof fn law_totals_are_heard(claims: Seq<SourceClaim>, n: i64)
    ensures
        completeness::totals(claims).contains(n) <==> claimed(claims, n),
{
    let own = completeness::any_own(claims);
    let f = |x: SourceClaim| completeness::said(own, x, Some(x.track_total));
    if completeness::totals(claims).contains(n) {
        text::lemma_filter_map_source(claims, f, n);
        let i = choose|i: int| 0 <= i < claims.len() && f(#[trigger] claims[i]) == Some(n);
        lemma_heard(claims, i);
        assert(heard(claims, i) && claims[i].track_total == n);
    }
    if claimed(claims, n) {
        let i = choose|i: int| #[trigger] heard(claims, i) && claims[i].track_total == n;
        lemma_heard(claims, i);
        text::lemma_filter_map_keeps(claims, f, i);
    }
}

/// The claims for a disc are those that are heard and name it.
pub proof fn law_disc_claims_are_heard(claims: Seq<SourceClaim>, disc: i64, n: i64)
    ensures
        completeness::disc_claims(claims, disc).contains(n) <==> claimed_of(claims, disc, n),
{
    let own = completeness::any_own(claims);
    let f = |x: SourceClaim|
        if completeness::counts(own, x) && x.disc_position == Some(disc) {
            Some(x.track_total)
        } else {
            None
        };
    if completeness::disc_claims(claims, disc).contains(n) {
        text::lemma_filter_map_source(claims, f, n);
        let i = choose|i: int| 0 <= i < claims.len() && f(#[trigger] claims[i]) == Some(n);
        lemma_heard(claims, i);
        assert(heard(claims, i));
    }
    if claimed_of(claims, disc, n) {
        let i = choose|i: int| #[trigger]
            heard(claims, i) && claims[i].track_total == n && claims[i].disc_position == Some(disc);
        lemma_heard(claims, i);
        text::lemma_filter_map_keeps(claims, f, i);
    }
}

/// The discs with claims are just those that a claim names that is heard.
pub proof fn law_claimed_discs_are_heard(claims: Seq<SourceClaim>, disc: i64)
    ensures
        completeness::claimed_discs(claims).contains(disc) <==> exists|n: i64| #[trigger]
            claimed_of(claims, disc, n),
{
    let own = completeness::any_own(claims);
    let f = |x: SourceClaim| completeness::said(own, x, x.disc_position);
    text::lemma_distinct(claims.filter_map(f));
    if completeness::claimed_discs(claims).contains(disc) {
        assert(claims.filter_map(f).contains(disc));
        text::lemma_filter_map_source(claims, f, disc);
        let i = choose|i: int| 0 <= i < claims.len() && f(#[trigger] claims[i]) == Some(disc);
        lemma_heard(claims, i);
        assert(heard(claims, i));
        assert(claimed_of(claims, disc, claims[i].track_total));
    }
    if exists|n: i64| #[trigger] claimed_of(claims, disc, n) {
        let n = choose|n: i64| #[trigger] claimed_of(claims, disc, n);
        let i = choose|i: int| #[trigger]
            heard(claims, i) && claims[i].track_total == n && claims[i].disc_position == Some(disc);
        lemma_heard(claims, i);
        text::lemma_filter_map_keeps(claims, f, i);
        assert(claims.filter_map(f).contains(disc));
    }
}

/// The tracks without a source are missing, each under its position, title and
/// recording.
pub proof fn law_sourceless_are_missing(tracks: Seq<ReleaseTrack>, m: Missing)
    ensures
        completeness::sourceless(tracks).contains(m) <==> lacks_source(tracks, m),
{
    let f = |t: ReleaseTrack|
        if t.has_source {
            None
        } else {
            Some((t.disc_position, t.track_position, t.title@, Some(t.recording_id@)))
        };
    if completeness::sourceless(tracks).contains(m) {
        text::lemma_filter_map_source(tracks, f, m);
        let i = choose|i: int| 0 <= i < tracks.len() && f(#[trigger] tracks[i]) == Some(m);
        assert(!tracks[i].has_source);
    }
    if lacks_source(tracks, m) {
        let i = choose|i: int|
            0 <= i < tracks.len() && !(#[trigger] tracks[i]).has_source && m == (
                tracks[i].disc_position,
                tracks[i].track_position,
                tracks[i].title@,
                Some(tracks[i].recording_id@),
            );
        text::lemma_filter_map_keeps(tracks, f, i);
    }
}

/// The open positions of a disc are just those from one up that no track has, in order.
pub proof fn law_open_positions(tracks: Seq<ReleaseTrack>, disc: i64, n: int, m: Missing)
    requires
        n <= i64::MAX,
    ensures
        completeness::phantoms(tracks, disc, n).contains(m) <==> m.0 == disc && stands_open(
            tracks,
            n,
            m,
        ),
        forall|i: int, j: int|
            0 <= i < j < completeness::phantoms(tracks, disc, n).len()
                ==> #[trigger] completeness::phantoms(tracks, disc, n)[i].1
                < #[trigger] completeness::phantoms(tracks, disc, n)[j].1,
        forall|i: int|
            0 <= i < completeness::phantoms(tracks, disc, n).len()
                ==> #[trigger] completeness::phantoms(tracks, disc, n)[i].1 <= n,
    decreases n,
{
    let all = completeness::phantoms(tracks, disc, n);
    if n > 0 {
        let before = completeness::phantoms(tracks, disc, n - 1);
        law_open_positions(tracks, disc, n - 1, m);
        let last: Missing = (disc, n as i64, Seq::empty(), None);
        if completeness::occupied(tracks, disc, n) {
            let i = choose|i: int|
                0 <= i < tracks.len() && (#[trigger] tracks[i]).disc_position == disc
                    && tracks[i].track_position == n;
            assert(!(m.0 == disc && m.1 == n && stands_open(tracks, n, m)));
        } else {
            assert(all == before.push(last));
            assert(all[before.len() as int] == last);
            if m.0 == disc && stands_open(tracks, n, m) && m.1 == n {
                assert(m.2 =~= Seq::empty());
                assert(m == last);
            }
            if before.contains(m) {
                let k = choose|k: int| 0 <= k < before.len() && before[k] == m;
                assert(all[k] == m);
            }
            if all.contains(m) && !before.contains(m) {
                let k = choose|k: int| 0 <= k < all.len() && all[k] == m;
                if k < before.len() {
                    assert(before[k] == m);
                }
                assert(m == last);
                assert forall|i: int| 0 <= i < tracks.len() implies !((
                #[trigger] tracks[i]).disc_position == m.0 && tracks[i].track_position
                    == m.1) by {}
            }
        }
    }
}

/// The open positions of several discs are those of each.
pub proof fn law_open_positions_of_discs(
    tracks: Seq<ReleaseTrack>,
    discs: Seq<i64>,
    n: int,
    m: Missing,
)
    requires
        n <= i64::MAX,
    ensures
        completeness::phantoms_on(tracks, discs, n).contains(m) <==> discs.contains(m.0)
            && stands_open(tracks, n, m),
{
    let table = discs.map_values(|d: i64| completeness::phantoms(tracks, d, n));
    if table.flatten().contains(m) {
        text::lemma_flatten_contains(table, m);
        let k = choose|k: int| 0 <= k < table.len() && (#[trigger] table[k]).contains(m);
        law_open_positions(tracks, discs[k], n, m);
        assert(discs.contains(discs[k]));
    }
    if discs.contains(m.0) && stands_open(tracks, n, m) {
        let k = choose|k: int| 0 <= k < discs.len() && discs[k] == m.0;
        law_open_positions(tracks, discs[k], n, m);
        let j = choose|j: int| 0 <= j < table[k].len() && table[k][j] == m;
        lemma_in_table(table, k, j);
    }
}

proof fn lemma_in_table<A>(s: Seq<Seq<A>>, i: int, j: int)
    requires
        0 <= i < s.len(),
        0 <= j < s[i].len(),
    ensures
        s.flatten().contains(s[i][j]),
    decreases s.len(),
{
    let x = s[i][j];
    if i == 0 {
        assert(s.flatten()[j] == x);
    } else {
        lemma_in_table(s.drop_first(), i - 1, j);
        let rest = s.drop_first().flatten();
        let k = choose|k: int| 0 <= k < rest.len() && rest[k] == x;
        assert(s.flatten()[s.first().len() + k] == x);
    }
}

/// Of several claims the one that is made most often counts, and of those made equally
/// often the highest.
pub proof fn law_most_frequent_claim_counts(s: Seq<i64>, v: i64)
    requires
        s.contains(v),
        forall|w: i64| #[trigger]
            s.contains(w) ==> s.to_multiset().count(w) <= s.to_multiset().count(v),
        forall|w: i64| #[trigger]
            s.contains(w) && s.to_multiset().count(w) == s.to_multiset().count(v) ==> w <= v,
    ensures
        completeness::most_claimed(s) == Some(v),
{
    assert(completeness::is_most_claimed(s, v)) by {
        assert forall|w: i64| #[trigger] s.contains(w) implies s.to_multiset().count(w)
            < s.to_multiset().count(v) || (s.to_multiset().count(w) == s.to_multiset().count(v) && w
            <= v) by {}
    }
    completeness::lemma_most_claimed(s, v);
}

/// Without tracks, or without a claim, there is nothing to judge by.
pub proof fn law_nothing_to_judge_by(c: ReleaseContents)
    ensures
        c.tracks@.len() == 0 ==> completeness::verdict(c) == Verdict::Nothing(
            "No tracks on this release."@,
        ),
        c.tracks@.len() > 0 && c.claims@.len() == 0 ==> completeness::verdict(c)
            == Verdict::Nothing("No source files provide track_total information."@),
{
    if c.claims@.len() == 0 {
        let t = completeness::totals(c.claims@);
        if t.len() > 0 {
            assert(t.contains(t[0]));
            law_totals_are_heard(c.claims@, t[0]);
        }
    }
}

/// Where every claim that is heard gives one number, that number judges the release: it
/// is complete where all its tracks have a source and there are as many as claimed.
/// Otherwise the tracks without a source are missing, and where there are none, the open
/// positions of every disc.
pub proof fn law_agreed_number_judges(c: ReleaseContents, n: i64)
    requires
        c.tracks@.len() > 0,
        claimed(c.claims@, n),
        forall|i: int| #[trigger] heard(c.claims@, i) ==> c.claims@[i].track_total == n,
    ensures
        n == 0 ==> completeness::verdict(c) == Verdict::Nothing("Track total is zero."@),
        n != 0 ==> {
            let every = forall|i: int|
                0 <= i < c.tracks@.len() ==> (#[trigger] c.tracks@[i]).has_source;
            &&& completeness::verdict(c) is Complete <==> every && c.tracks@.len() >= n
            &&& !every || c.tracks@.len() < n ==> (completeness::verdict(
                c,
            ) matches Verdict::Incomplete(missing) && forall|m: Missing| #[trigger]
                missing.contains(m) <==> if every {
                    c.mediums@.contains(m.0) && stands_open(c.tracks@, n as int, m)
                } else {
                    lacks_source(c.tracks@, m)
                })
        },
{
    let t = completeness::totals(c.claims@);
    law_totals_are_heard(c.claims@, n);
    assert forall|i: int| 0 <= i < t.len() implies t[i] == n by {
        assert(t.contains(t[i]));
        law_totals_are_heard(c.claims@, t[i]);
    }
    assert(t.len() > 0 && completeness::unanimous(t) && t[0] == n);
    let lost = completeness::sourceless(c.tracks@);
    assert forall|m: Missing| #[trigger] lost.contains(m) <==> lacks_source(c.tracks@, m) by {
        law_sourceless_are_missing(c.tracks@, m);
    }
    let every = forall|i: int| 0 <= i < c.tracks@.len() ==> (#[trigger] c.tracks@[i]).has_source;
    if lost.len() > 0 {
        assert(lost.contains(lost[0]));
        assert(!every);
    } else {
        assert forall|i: int| 0 <= i < c.tracks@.len() implies (
        #[trigger] c.tracks@[i]).has_source by {
            let x = c.tracks@[i];
            let m: Missing = (x.disc_position, x.track_position, x.title@, Some(x.recording_id@));
            if !x.has_source {
                assert(lacks_source(c.tracks@, m));
                assert(lost.contains(m));
            }
        }
        let open = completeness::phantoms_on(c.tracks@, c.mediums@, n as int);
        assert forall|m: Missing| #[trigger] open.contains(m) <==> c.mediums@.contains(m.0)
            && stands_open(c.tracks@, n as int, m) by {
            law_open_positions_of_discs(c.tracks@, c.mediums@, n as int, m);
        }
    }
}

/// Two numbers that are claimed for a release of one disc, or of no known number of
/// discs, contradict each other.
pub proof fn law_different_numbers_contradict(c: ReleaseContents, a: i64, b: i64)
    requires
        c.tracks@.len() > 0,
        claimed(c.claims@, a),
        claimed(c.claims@, b),
        a != b,
    ensures
        (c.disc_total matches Some(n) ==> n <= 1) ==> completeness::verdict(c) is Disagreement,
        (forall|i: int| #[trigger] heard(c.claims@, i) ==> c.claims@[i].disc_position is None)
            ==> completeness::verdict(c) is Disagreement,
{
    lemma_contradict(c, a, b);
    let discs = completeness::claimed_discs(c.claims@);
    if discs.len() > 0 {
        assert(discs.contains(discs[0]));
        law_claimed_discs_are_heard(c.claims@, discs[0]);
        let n = choose|n: i64| #[trigger] claimed_of(c.claims@, discs[0], n);
        let i = choose|i: int| #[trigger]
            heard(c.claims@, i) && c.claims@[i].track_total == n && c.claims@[i].disc_position
                == Some(discs[0]);
        assert(heard(c.claims@, i));
    }
}

proof fn lemma_contradict(c: ReleaseContents, a: i64, b: i64)
    requires
        claimed(c.claims@, a),
        claimed(c.claims@, b),
        a != b,
    ensures
        completeness::totals(c.claims@).len() > 0,
        !completeness::unanimous(completeness::totals(c.claims@)),
{
    let t = completeness::totals(c.claims@);
    law_totals_are_heard(c.claims@, a);
    law_totals_are_heard(c.claims@, b);
    let i = choose|i: int| 0 <= i < t.len() && t[i] == a;
    let j = choose|j: int| 0 <= j < t.len() && t[j] == b;
    assert(t[i] != t[j]);
}

/// Whether the claims that are heard agree on the number of tracks of a disc.
pub open spec fn agreed_size(claims: Seq<SourceClaim>, disc: i64, n: i64) -> bool {
    &&& claimed_of(claims, disc, n)
    &&& forall|m: i64| #[trigger] claimed_of(claims, disc, m) ==> m == n
}

proof fn lemma_agreed_size(c: ReleaseContents, disc: i64, n: i64)
    requires
        agreed_size(c.claims@, disc, n),
    ensures
        completeness::unanimous(completeness::disc_claims(c.claims@, disc)),
        completeness::most_claimed(completeness::disc_claims(c.claims@, disc)) == Some(n),
        completeness::disc_claim(c, disc) is Exact <==> n == size_of(c.tracks@, disc),
        completeness::disc_claim(c, disc) is Fewer <==> n < size_of(c.tracks@, disc),
        completeness::disc_claim(c, disc) is More <==> n > size_of(c.tracks@, disc),
{
    let s = completeness::disc_claims(c.claims@, disc);
    law_disc_claims_are_heard(c.claims@, disc, n);
    assert forall|i: int| 0 <= i < s.len() implies s[i] == n by {
        assert(s.contains(s[i]));
        law_disc_claims_are_heard(c.claims@, disc, s[i]);
    }
    assert(completeness::unanimous(s));
    completeness::lemma_agreed_is_most_claimed(s);
}

proof fn lemma_track_disc(tracks: Seq<ReleaseTrack>, disc: i64)
    ensures
        completeness::track_discs(tracks).contains(disc) <==> exists|i: int|
            0 <= i < tracks.len() && (#[trigger] tracks[i]).disc_position == disc,
{
    let all = tracks.map_values(|t: ReleaseTrack| t.disc_position);
    text::lemma_distinct(all);
    if all.contains(disc) {
        let i = choose|i: int| 0 <= i < all.len() && all[i] == disc;
        assert(tracks[i].disc_position == disc);
    }
    if exists|i: int| 0 <= i < tracks.len() && (#[trigger] tracks[i]).disc_position == disc {
        let i = choose|i: int| 0 <= i < tracks.len() && (#[trigger] tracks[i]).disc_position == disc;
        assert(all[i] == disc);
    }
}

/// A release of several discs, for which different numbers are claimed, is judged disc
/// by disc. Where the claims for every disc with tracks agree on just the number it has,
/// only the tracks without a source are missing.
pub proof fn law_discs_are_judged_by_their_own_claims(c: ReleaseContents, a: i64, b: i64)
    requires
        c.tracks@.len() > 0,
        claimed(c.claims@, a),
        claimed(c.claims@, b),
        a != b,
        c.disc_total matches Some(n) && n > 1,
        forall|i: int|
            0 <= i < c.tracks@.len() ==> exists|n: i64| #[trigger]
                agreed_size(c.claims@, (#[trigger] c.tracks@[i]).disc_position, n) && n == size_of(
                    c.tracks@,
                    c.tracks@[i].disc_position,
                ),
    ensures
        (forall|i: int| 0 <= i < c.tracks@.len() ==> (#[trigger] c.tracks@[i]).has_source)
            <==> completeness::verdict(c) is Complete,
        completeness::verdict(c) is Complete || (completeness::verdict(
            c,
        ) matches Verdict::Incomplete(missing) && forall|m: Missing| #[trigger]
            missing.contains(m) <==> lacks_source(c.tracks@, m)),
{
    lemma_contradict(c, a, b);
    let discs = completeness::track_discs(c.tracks@);
    assert forall|k: int| 0 <= k < discs.len() implies completeness::disc_claim(
        c,
        #[trigger] discs[k],
    ) is Exact by {
        assert(discs.contains(discs[k]));
        lemma_track_disc(c.tracks@, discs[k]);
        let i = choose|i: int|
            0 <= i < c.tracks@.len() && (#[trigger] c.tracks@[i]).disc_position == discs[k];
        let n = choose|n: i64| #[trigger]
            agreed_size(c.claims@, c.tracks@[i].disc_position, n) && n == size_of(
                c.tracks@,
                c.tracks@[i].disc_position,
            );
        lemma_agreed_size(c, discs[k], n);
    }
    let d = c.tracks@[0].disc_position;
    let n = choose|n: i64| #[trigger] agreed_size(c.claims@, d, n) && n == size_of(c.tracks@, d);
    assert(claimed_of(c.claims@, d, n));
    law_claimed_discs_are_heard(c.claims@, d);
    assert(completeness::by_disc(c));
    let lost = completeness::sourceless(c.tracks@);
    assert forall|m: Missing| #[trigger] lost.contains(m) <==> lacks_source(c.tracks@, m) by {
        law_sourceless_are_missing(c.tracks@, m);
    }
    if lost.len() > 0 {
        assert(lost.contains(lost[0]));
    } else {
        assert forall|i: int| 0 <= i < c.tracks@.len() implies (
        #[trigger] c.tracks@[i]).has_source by {
            let x = c.tracks@[i];
            let m: Missing = (x.disc_position, x.track_position, x.title@, Some(x.recording_id@));
            if !x.has_source {
                assert(lacks_source(c.tracks@, m));
                assert(lost.contains(m));
            }
        }
    }
}

/// Where the claims for a disc with tracks agree on fewer than it has, they are
/// contradicted.
pub proof fn law_fewer_than_there_are_is_a_contradiction(
    c: ReleaseContents,
    a: i64,
    b: i64,
    i: int,
    n: i64,
)
    requires
        c.tracks@.len() > 0,
        claimed(c.claims@, a),
        claimed(c.claims@, b),
        a != b,
        c.disc_total matches Some(n) && n > 1,
        0 <= i < c.tracks@.len(),
        agreed_size(c.claims@, c.tracks@[i].disc_position, n),
        n < size_of(c.tracks@, c.tracks@[i].disc_position),
    ensures
        completeness::verdict(c) is Disagreement,
{
    lemma_contradict(c, a, b);
    let d = c.tracks@[i].disc_position;
    law_claimed_discs_are_heard(c.claims@, d);
    assert(claimed_of(c.claims@, d, n));
    lemma_agreed_size(c, d, n);
    lemma_track_disc(c.tracks@, d);
    let discs = completeness::track_discs(c.tracks@);
    let k = choose|k: int| 0 <= k < discs.len() && discs[k] == d;
    assert(completeness::disc_claim(c, discs[k]) is Fewer);
}

/// Where the claims for each disc with claims agree, and on no fewer tracks than the disc
/// has, the tracks without a source are missing and the open positions of the discs that
/// should have more.
pub proof fn law_more_than_there_are_leaves_positions_open(
    c: ReleaseContents,
    a: i64,
    b: i64,
    i: int,
    n: i64,
)
    requires
        c.tracks@.len() > 0,
        claimed(c.claims@, a),
        claimed(c.claims@, b),
        a != b,
        c.disc_total matches Some(n) && n > 1,
        forall|d: i64, n: i64| #[trigger]
            claimed_of(c.claims@, d, n) ==> agreed_size(c.claims@, d, n) && n >= size_of(
                c.tracks@,
                d,
            ),
        0 <= i < c.tracks@.len(),
        claimed_of(c.claims@, c.tracks@[i].disc_position, n),
        n > size_of(c.tracks@, c.tracks@[i].disc_position),
    ensures
        completeness::verdict(c) matches Verdict::Incomplete(missing) ==> forall|m: Missing|
         #[trigger]
            missing.contains(m) <==> lacks_source(c.tracks@, m) || exists|j: int, k: i64|
                #![trigger c.tracks@[j], stands_open(c.tracks@, k as int, m)]
                0 <= j < c.tracks@.len() && c.tracks@[j].disc_position == m.0 && claimed_of(
                    c.claims@,
                    m.0,
                    k,
                ) && k > size_of(c.tracks@, m.0) && stands_open(c.tracks@, k as int, m),
        !(completeness::verdict(c) is Complete),
        !(completeness::verdict(c) is Disagreement),
{
    lemma_contradict(c, a, b);
    let d = c.tracks@[i].disc_position;
    law_claimed_discs_are_heard(c.claims@, d);
    lemma_agreed_size(c, d, n);
    let discs = completeness::track_discs(c.tracks@);
    lemma_track_disc(c.tracks@, d);
    let k0 = choose|k: int| 0 <= k < discs.len() && discs[k] == d;
    assert(!(completeness::disc_claim(c, discs[k0]) is Exact));
    let claims = completeness::claimed_discs(c.claims@);
    assert forall|k: int| 0 <= k < claims.len() implies completeness::unanimous(
        completeness::disc_claims(c.claims@, #[trigger] claims[k]),
    ) by {
        assert(claims.contains(claims[k]));
        law_claimed_discs_are_heard(c.claims@, claims[k]);
        let n = choose|n: i64| #[trigger] claimed_of(c.claims@, claims[k], n);
        lemma_agreed_size(c, claims[k], n);
    }
    assert forall|k: int| 0 <= k < discs.len() implies !(completeness::disc_claim(
        c,
        #[trigger] discs[k],
    ) is Fewer) by {
        lemma_disc_claimed(c, discs[k]);
    }
    let missing = completeness::missing_by_disc(c);
    let lost = completeness::sourceless(c.tracks@);
    let open = completeness::claimed_phantoms(c);
    assert forall|m: Missing| #[trigger] missing.contains(m) <==> lacks_source(c.tracks@, m)
        || exists|j: int, k: i64|
        #![trigger c.tracks@[j], stands_open(c.tracks@, k as int, m)]
        0 <= j < c.tracks@.len() && c.tracks@[j].disc_position == m.0 && claimed_of(
            c.claims@,
            m.0,
            k,
        ) && k > size_of(c.tracks@, m.0) && stands_open(c.tracks@, k as int, m) by {
        law_sourceless_are_missing(c.tracks@, m);
        lemma_either(lost, open, m);
        lemma_claimed_open(c, m);
    }
}

proof fn lemma_either<A>(a: Seq<A>, b: Seq<A>, x: A)
    ensures
        (a + b).contains(x) <==> a.contains(x) || b.contains(x),
{
    if a.contains(x) {
        let i = choose|i: int| 0 <= i < a.len() && a[i] == x;
        assert((a + b)[i] == x);
    }
    if b.contains(x) {
        let i = choose|i: int| 0 <= i < b.len() && b[i] == x;
        assert((a + b)[a.len() + i] == x);
    }
    if (a + b).contains(x) {
        let i = choose|i: int| 0 <= i < (a + b).len() && (a + b)[i] == x;
        if i < a.len() {
            assert(a[i] == x);
        } else {
            assert(b[i - a.len()] == x);
        }
    }
}

/// What is claimed for a disc, where the claims for each disc agree.
proof fn lemma_disc_claimed(c: ReleaseContents, d: i64)
    requires
        forall|d: i64, n: i64| #[trigger]
            claimed_of(c.claims@, d, n) ==> agreed_size(c.claims@, d, n) && n >= size_of(
                c.tracks@,
                d,
            ),
    ensures
        !(completeness::disc_claim(c, d) is Fewer),
        forall|n: i64| #[trigger]
            claimed_of(c.claims@, d, n) && n > size_of(c.tracks@, d) ==> completeness::disc_claim(
                c,
                d,
            ) is More && completeness::most_claimed(completeness::disc_claims(c.claims@, d))
                == Some(n),
        completeness::disc_claim(c, d) is More ==> exists|n: i64| #[trigger]
            claimed_of(c.claims@, d, n) && n > size_of(c.tracks@, d)
                && completeness::most_claimed(completeness::disc_claims(c.claims@, d)) == Some(n),
{
    let s = completeness::disc_claims(c.claims@, d);
    if s.len() > 0 {
        assert(s.contains(s[0]));
        law_disc_claims_are_heard(c.claims@, d, s[0]);
        lemma_agreed_size(c, d, s[0]);
    }
    assert forall|n: i64| #[trigger]
        claimed_of(c.claims@, d, n) && n > size_of(
            c.tracks@,
            d,
        ) implies completeness::disc_claim(c, d) is More && completeness::most_claimed(
        completeness::disc_claims(c.claims@, d),
    ) == Some(n) by {
        lemma_agreed_size(c, d, n);
    }
}

proof fn lemma_claimed_open(c: ReleaseContents, m: Missing)
    requires
        forall|d: i64, n: i64| #[trigger]
            claimed_of(c.claims@, d, n) ==> agreed_size(c.claims@, d, n) && n >= size_of(
                c.tracks@,
                d,
            ),
    ensures
        completeness::claimed_phantoms(c).contains(m) <==> exists|j: int, k: i64|
            #![trigger c.tracks@[j], stands_open(c.tracks@, k as int, m)]
            0 <= j < c.tracks@.len() && c.tracks@[j].disc_position == m.0 && claimed_of(
                c.claims@,
                m.0,
                k,
            ) && k > size_of(c.tracks@, m.0) && stands_open(c.tracks@, k as int, m),
{
    let discs = completeness::track_discs(c.tracks@);
    let f = |d: i64|
        if completeness::disc_claim(c, d) is More {
            completeness::phantoms(
                c.tracks@,
                d,
                completeness::most_claimed(completeness::disc_claims(c.claims@, d))->0 as int,
            )
        } else {
            Seq::empty()
        };
    let table = discs.map_values(f);
    lemma_disc_claimed(c, m.0);
    lemma_track_disc(c.tracks@, m.0);
    if table.flatten().contains(m) {
        text::lemma_flatten_contains(table, m);
        let k = choose|k: int| 0 <= k < table.len() && (#[trigger] table[k]).contains(m);
        let d = discs[k];
        assert(discs.contains(d));
        lemma_disc_claimed(c, d);
        let n = choose|n: i64| #[trigger]
            claimed_of(c.claims@, d, n) && n > size_of(c.tracks@, d)
                && completeness::most_claimed(completeness::disc_claims(c.claims@, d)) == Some(n);
        law_open_positions(c.tracks@, d, n as int, m);
        let j = choose|j: int|
            0 <= j < c.tracks@.len() && (#[trigger] c.tracks@[j]).disc_position == m.0;
        assert(c.tracks@[j].disc_position == m.0 && stands_open(c.tracks@, n as int, m));
    }
    if exists|j: int, k: i64|
        #![trigger c.tracks@[j], stands_open(c.tracks@, k as int, m)]
        0 <= j < c.tracks@.len() && c.tracks@[j].disc_position == m.0 && claimed_of(
            c.claims@,
            m.0,
            k,
        ) && k > size_of(c.tracks@, m.0) && stands_open(c.tracks@, k as int, m) {
        let (j, n) = choose|j: int, k: i64|
            #![trigger c.tracks@[j], stands_open(c.tracks@, k as int, m)]
            0 <= j < c.tracks@.len() && c.tracks@[j].disc_position == m.0 && claimed_of(
                c.claims@,
                m.0,
                k,
            ) && k > size_of(c.tracks@, m.0) && stands_open(c.tracks@, k as int, m);
        let k = choose|k: int| 0 <= k < discs.len() && discs[k] == m.0;
        law_open_positions(c.tracks@, m.0, n as int, m);
        let x = choose|x: int| 0 <= x < table[k].len() && table[k][x] == m;
        lemma_in_table(table, k, x);
    }
}

/// Two numbers that are claimed for one disc contradict each other, where the tracks of
/// some disc are not just as many as the claims for it agree on.
pub proof fn law_different_numbers_of_a_disc_contradict(
    c: ReleaseContents,
    d: i64,
    a: i64,
    b: i64,
    i: int,
    n: i64,
)
    requires
        claimed_of(c.claims@, d, a),
        claimed_of(c.claims@, d, b),
        a != b,
        0 <= i < c.tracks@.len(),
        agreed_size(c.claims@, c.tracks@[i].disc_position, n),
        n != size_of(c.tracks@, c.tracks@[i].disc_position),
    ensures
        completeness::verdict(c) is Disagreement,
{
    let x = choose|i: int| #[trigger]
        heard(c.claims@, i) && c.claims@[i].track_total == a && c.claims@[i].disc_position == Some(
            d,
        );
    let y = choose|i: int| #[trigger]
        heard(c.claims@, i) && c.claims@[i].track_total == b && c.claims@[i].disc_position == Some(
            d,
        );
    assert(heard(c.claims@, x) && heard(c.claims@, y));
    assert(claimed(c.claims@, a) && claimed(c.claims@, b));
    lemma_contradict(c, a, b);
    let e = c.tracks@[i].disc_position;
    lemma_agreed_size(c, e, n);
    lemma_track_disc(c.tracks@, e);
    let discs = completeness::track_discs(c.tracks@);
    let k = choose|k: int| 0 <= k < discs.len() && discs[k] == e;
    assert(!(completeness::disc_claim(c, discs[k]) is Exact));
    law_claimed_discs_are_heard(c.claims@, d);
    let claims = completeness::claimed_discs(c.claims@);
    let j = choose|j: int| 0 <= j < claims.len() && claims[j] == d;
    let s = completeness::disc_claims(c.claims@, d);
    law_disc_claims_are_heard(c.claims@, d, a);
    law_disc_claims_are_heard(c.claims@, d, b);
    let p = choose|p: int| 0 <= p < s.len() && s[p] == a;
    let q = choose|q: int| 0 <= q < s.len() && s[q] == b;
    assert(s[p] != s[q]);
    assert(!completeness::unanimous(completeness::disc_claims(c.claims@, claims[j])));
}

/// A contradiction is told by the numbers that are claimed, in order, each with the paths
/// of the sources that claim it.
pub proof fn law_contradiction_names_its_sources(c: ReleaseContents, n: i64, p: Seq<char>)
    requires
        !completeness::by_disc(c),
    ensures
        ({
            let totals = completeness::totals_with_paths(c.claims@);
            let groups = completeness::disagreement_groups(c);
            &&& groups.len() == totals.len()
            &&& totals.no_duplicates()
            &&& forall|i: int, j: int|
                0 <= i < j < totals.len() ==> #[trigger] totals[i] <= #[trigger] totals[j]
            &&& totals.contains(n) <==> exists|i: int| #[trigger]
                heard(c.claims@, i) && c.claims@[i].track_total == n
                    && c.claims@[i].file_path is Some
            &&& forall|k: int|
                0 <= k < totals.len() ==> ((#[trigger] groups[k]).1.contains(p) <==> exists|i: int|
                 #[trigger]
                    heard(c.claims@, i) && c.claims@[i].track_total == totals[k]
                        && c.claims@[i].file_path is Some && c.claims@[i].file_path->0@ == p)
        }),
{
    let claims = c.claims@;
    let own = completeness::any_own(claims);
    let f = |x: SourceClaim|
        if completeness::counts(own, x) && x.file_path is Some {
            Some(x.track_total)
        } else {
            None
        };
    let d = text::distinct(claims.filter_map(f));
    let le = sorting::number_order();
    let totals = completeness::totals_with_paths(claims);
    let groups = completeness::disagreement_groups(c);
    text::lemma_distinct(claims.filter_map(f));
    assert(sorting::total_preorder(le));
    sorting::law_sort_orders(d, le);
    sorting::lemma_sort_contains(d, le, n);
    sorting::lemma_sort_keeps_distinct(d, le, |t: i64| t);
    assert(d.map_values(|t: i64| t) =~= d);
    assert(totals.map_values(|t: i64| t) =~= totals);
    assert forall|i: int, j: int| 0 <= i < j < totals.len() implies #[trigger] totals[i]
        <= #[trigger] totals[j] by {
        assert(le(totals[i], totals[j]));
    }
    if totals.contains(n) {
        assert(claims.filter_map(f).contains(n));
        text::lemma_filter_map_source(claims, f, n);
        let i = choose|i: int| 0 <= i < claims.len() && f(#[trigger] claims[i]) == Some(n);
        lemma_heard(claims, i);
        assert(heard(claims, i));
    }
    if exists|i: int| #[trigger]
        heard(claims, i) && claims[i].track_total == n && claims[i].file_path is Some {
        let i = choose|i: int| #[trigger]
            heard(claims, i) && claims[i].track_total == n && claims[i].file_path is Some;
        lemma_heard(claims, i);
        text::lemma_filter_map_keeps(claims, f, i);
        assert(claims.filter_map(f).contains(n));
    }
    assert forall|k: int| 0 <= k < totals.len() implies ((#[trigger] groups[k]).1.contains(p)
        <==> exists|i: int| #[trigger]
        heard(claims, i) && claims[i].track_total == totals[k] && claims[i].file_path is Some
            && claims[i].file_path->0@ == p) by {
        lemma_paths_claiming(claims, totals[k], p);
    }
}

proof fn lemma_paths_claiming(claims: Seq<SourceClaim>, n: i64, p: Seq<char>)
    ensures
        completeness::paths_claiming(claims, n).contains(p) <==> exists|i: int| #[trigger]
            heard(claims, i) && claims[i].track_total == n && claims[i].file_path is Some
                && claims[i].file_path->0@ == p,
{
    let own = completeness::any_own(claims);
    let f = |x: SourceClaim|
        if completeness::counts(own, x) && x.track_total == n {
            text::opt_text(x.file_path)
        } else {
            None
        };
    if completeness::paths_claiming(claims, n).contains(p) {
        text::lemma_filter_map_source(claims, f, p);
        let i = choose|i: int| 0 <= i < claims.len() && f(#[trigger] claims[i]) == Some(p);
        lemma_heard(claims, i);
        assert(heard(claims, i));
    }
    if exists|i: int| #[trigger]
        heard(claims, i) && claims[i].track_total == n && claims[i].file_path is Some
            && claims[i].file_path->0@ == p {
        let i = choose|i: int| #[trigger]
            heard(claims, i) && claims[i].track_total == n && claims[i].file_path is Some
                && claims[i].file_path->0@ == p;
        lemma_heard(claims, i);
        text::lemma_filter_map_keeps(claims, f, i);
    }
}

/// A contradiction between discs is told by one group, which lists the paths of all
/// sources that are heard, each once and in order.
pub proof fn law_contradiction_of_discs_names_all_sources(c: ReleaseContents, p: Seq<char>)
    requires
        completeness::by_disc(c),
    ensures
        ({
            let groups = completeness::disagreement_groups(c);
            &&& groups.len() == 1
            &&& groups[0].1.contains(p) <==> exists|i: int| #[trigger]
                heard(c.claims@, i) && c.claims@[i].file_path is Some && c.claims@[i].file_path->0@
                    == p
            &&& groups[0].1.no_duplicates()
            &&& forall|i: int, j: int|
                0 <= i < j < groups[0].1.len() ==> text::text_le(
                    #[trigger] groups[0].1[i],
                    #[trigger] groups[0].1[j],
                )
        }),
{
    let claims = c.claims@;
    let own = completeness::any_own(claims);
    let f = |x: SourceClaim| completeness::said(own, x, text::opt_text(x.file_path));
    let d = text::distinct(claims.filter_map(f));
    let le = sorting::text_order();
    let paths = completeness::claiming_paths(claims);
    assert(completeness::disagreement_groups(c)[0].1 == paths);
    text::lemma_distinct(claims.filter_map(f));
    sorting::lemma_text_order();
    sorting::law_sort_orders(d, le);
    sorting::lemma_sort_contains(d, le, p);
    sorting::lemma_sort_keeps_distinct(d, le, |t: Seq<char>| t);
    assert(d.map_values(|t: Seq<char>| t) =~= d);
    assert(paths.map_values(|t: Seq<char>| t) =~= paths);
    assert forall|i: int, j: int| 0 <= i < j < paths.len() implies text::text_le(
        #[trigger] paths[i],
        #[trigger] paths[j],
    ) by {
        assert(le(paths[i], paths[j]));
    }
    if paths.contains(p) {
        assert(claims.filter_map(f).contains(p));
        text::lemma_filter_map_source(claims, f, p);
        let i = choose|i: int| 0 <= i < claims.len() && f(#[trigger] claims[i]) == Some(p);
        lemma_heard(claims, i);
        assert(heard(claims, i));
    }
    if exists|i: int| #[trigger]
        heard(claims, i) && claims[i].file_path is Some && claims[i].file_path->0@ == p {
        let i = choose|i: int| #[trigger]
            heard(claims, i) && claims[i].file_path is Some && claims[i].file_path->0@ == p;
        lemma_heard(claims, i);
        text::lemma_filter_map_keeps(claims, f, i);
        assert(claims.filter_map(f).contains(p));
    }
}

/// Words for one and for several.
pub proof fn law_contradictions_are_worded(n: int, total: i64, layout: Seq<char>)
    requires
        n > 1,
        total > 1,
    ensures
        completeness::group_heading(1, layout) == "1 source claims "@ + layout,
        completeness::group_heading(n, layout) == text::decimal(n as nat) + " source claim "@
            + layout,
        completeness::total_layout(None, 1) == "(no total disc info) 1 track"@,
        completeness::total_layout(Some(1), 1) == "1 disc with 1 track"@,
        completeness::total_layout(Some(1), total) == "1 disc with "@ + text::decimal(total as nat)
            + " tracks"@,
        completeness::total_layout(Some(total), 1) == text::decimal(total as nat)
            + " disc with 1 track"@,
        completeness::total_part(None, 1, 1) == "1 from 1 source (no disc info)"@,
        completeness::total_part(Some(1), total, n) == text::decimal(total as nat) + " from "@
            + text::decimal(n as nat) + " sources"@,
{
    reveal_strlit("1 source claims ");
    reveal_strlit(" source claim ");
    reveal_strlit(" source ");
    reveal_strlit("claims");
    reveal_strlit("claim");
    reveal_strlit(" ");
    reveal_strlit("");
    reveal_strlit("s");
    reveal_strlit("(no total disc info) 1 track");
    reveal_strlit("(no total disc info) ");
    reveal_strlit("1 disc with 1 track");
    reveal_strlit("1 disc with ");
    reveal_strlit(" disc with ");
    reveal_strlit(" disc with 1 track");
    reveal_strlit(" track");
    reveal_strlit(" tracks");
    reveal_strlit("1 from 1 source (no disc info)");
    reveal_strlit(" from ");
    reveal_strlit(" source");
    reveal_strlit(" sources");
    reveal_strlit(" (no disc info)");
    text::law_decimal_reads_back(1);
    assert(text::decimal(1) =~= seq!['1']);
    assert(completeness::group_heading(1, layout) =~= "1 source claims "@ + layout);
    assert(completeness::group_heading(n, layout) =~= text::decimal(n as nat) + " source claim "@
        + layout);
    assert(completeness::total_layout(None, 1) =~= "(no total disc info) 1 track"@);
    assert(completeness::total_layout(Some(1), 1) =~= "1 disc with 1 track"@);
    assert(completeness::total_layout(Some(1), total) =~= "1 disc with "@ + text::decimal(
        total as nat,
    ) + " tracks"@);
    assert(completeness::total_layout(Some(total), 1) =~= text::decimal(total as nat)
        + " disc with 1 track"@);
    assert(completeness::total_part(None, 1, 1) =~= "1 from 1 source (no disc info)"@);
    assert(completeness::total_part(Some(1), total, n) =~= text::decimal(total as nat) + " from "@
        + text::decimal(n as nat) + " sources"@);
}

} // verus!
