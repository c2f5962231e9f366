//! What the catalogue in memory tells of one recording, artist or release group.
use vstd::prelude::*;
use vstd::utf8::*;
use crate::models::{MissingTrackDetail, RecordingArtistInfo, RecordingDetail, SourceDetail};
use crate::sorting;
use crate::sorting::sort_numbers;
use crate::storage::completeness;
use crate::storage::completeness::{
    all_same, contains_number, count_of, distinct_numbers, plural_of,
};
use crate::text;
use crate::text::{same_text, signed_string};
use super::appears;
use super::lists;
use super::lists::clone_opt;
use super::{raw_tags_to_source_tags, MemRecording, MemoryCatalog, RawSource};

verus! {

// ── Recordings ───────────────────────────────────────────────────────────────

/// Whether `a` tells of the artist at a position of a recording.
pub open spec fn tells_artist(a: RecordingArtistInfo, rec: MemRecording, pos: int) -> bool {
    &&& a.artist_id == rec.artist_ids@[pos]
    &&& a.name@ == if pos < rec.all_artist_names@.len() {
        rec.all_artist_names@[pos]@
    } else {
        Seq::empty()
    }
    &&& a.position == pos as i64
    &&& a.role@ == if pos == 0 {
        "main"@
    } else {
        "featuring"@
    }
    &&& a.credited_as is None
}

/// Whether `s` tells of a source.
pub open spec fn tells_source(s: SourceDetail, src: RawSource) -> bool {
    &&& s.id == src.id
    &&& s.source_type == src.source_type
    &&& s.file_path == src.file_path
    &&& s.format == src.format
    &&& s.duration_ms == src.duration_ms
    &&& s.replay_gain_track_db_bits == src.replay_gain_track_db_bits
    &&& s.replay_gain_track_peak_bits == src.replay_gain_track_peak_bits
    &&& s.tags@.len() == src.tags@.len()
    &&& forall|i: int|
        0 <= i < s.tags@.len() ==> super::shows_tag(#[trigger] s.tags@[i], src.tags@[i])
}

/// Whether `d` tells of a recording.
pub open spec fn tells_recording(d: RecordingDetail, rec: MemRecording, c: MemoryCatalog) -> bool {
    &&& d.id == rec.id
    &&& d.title == rec.title
    &&& d.duration_ms == rec.duration_ms
    &&& d.genre == rec.genre
    &&& d.bpm == rec.bpm
    &&& d.comment == rec.comment
    &&& d.artist_credit_name == rec.artist_credit_name
    &&& d.primary_artist_id == rec.primary_artist_id
    &&& d.artist_credit_text is None
    &&& d.mbid is None
    &&& d.acoustid is None
    &&& d.rating == super::recording_rating(rec)
    &&& d.play_count == rec.play_count
    &&& d.last_played == rec.last_played
    &&& d.artists@.len() == rec.artist_ids@.len()
    &&& forall|i: int|
        0 <= i < d.artists@.len() ==> tells_artist(#[trigger] d.artists@[i], rec, i)
    &&& appears::info_views(d.releases@) == appears::appearances(rec, c)
    &&& d.sources@.len() == rec.sources@.len()
    &&& forall|i: int|
        0 <= i < d.sources@.len() ==> tells_source(#[trigger] d.sources@[i], rec.sources@[i])
}

/// The place of the first recording with an identifier, or the number of
/// recordings.
pub open spec fn recording_place(recs: Seq<MemRecording>, id: Seq<char>) -> int {
    text::first_at(recs.map_values(|r: MemRecording| r.id@), id)
}

/// The artists of a recording.
fn artists_of(rec: &MemRecording) -> (r: Vec<RecordingArtistInfo>)
    ensures
        r@.len() == rec.artist_ids@.len(),
        forall|i: int| 0 <= i < r@.len() ==> tells_artist(#[trigger] r@[i], *rec, i),
{
    let mut r: Vec<RecordingArtistInfo> = Vec::new();
    let mut i: usize = 0;
    while i < rec.artist_ids.len()
        invariant
            i <= rec.artist_ids@.len(),
            r@.len() == i,
            forall|k: int| 0 <= k < i ==> tells_artist(#[trigger] r@[k], *rec, k),
        decreases rec.artist_ids@.len() - i,
    {
        let name = if i < rec.all_artist_names.len() {
            rec.all_artist_names[i].clone()
        } else {
            String::new()
        };
        let role = if i == 0 {
            "main".to_owned()
        } else {
            "featuring".to_owned()
        };
        r.push(
            RecordingArtistInfo {
                artist_id: rec.artist_ids[i].clone(),
                name,
                position: i as i64,
                role,
                credited_as: None,
            },
        );
        i = i + 1;
    }
    r
}

/// The sources of a recording.
fn sources_of(rec: &MemRecording) -> (r: Vec<SourceDetail>)
    ensures
        r@.len() == rec.sources@.len(),
        forall|i: int| 0 <= i < r@.len() ==> tells_source(#[trigger] r@[i], rec.sources@[i]),
{
    let mut r: Vec<SourceDetail> = Vec::new();
    let mut i: usize = 0;
    while i < rec.sources.len()
        invariant
            i <= rec.sources@.len(),
            r@.len() == i,
            forall|k: int| 0 <= k < i ==> tells_source(#[trigger] r@[k], rec.sources@[k]),
        decreases rec.sources@.len() - i,
    {
        let src = &rec.sources[i];
        r.push(
            SourceDetail {
                id: src.id.clone(),
                source_type: src.source_type.clone(),
                file_path: clone_opt(&src.file_path),
                format: clone_opt(&src.format),
                duration_ms: src.duration_ms,
                replay_gain_track_db_bits: src.replay_gain_track_db_bits,
                replay_gain_track_peak_bits: src.replay_gain_track_peak_bits,
                tags: raw_tags_to_source_tags(&src.tags),
            },
        );
        i = i + 1;
    }
    r
}

impl MemoryCatalog {
    /// What the catalogue tells of a recording; `None` when it is not there.
    pub fn get_recording_detail(&self, id: &str) -> (r: Option<RecordingDetail>)
        ensures
            match r {
                Some(d) => recording_place(self.recordings@, id@) < self.recordings@.len()
                    && tells_recording(
                    d,
                    self.recordings@[recording_place(self.recordings@, id@)],
                    *self,
                ),
                None => recording_place(self.recordings@, id@) >= self.recordings@.len(),
            },
    {
        let ghost ids = self.recordings@.map_values(|r: MemRecording| r.id@);
        let mut i: usize = 0;
        while i < self.recordings.len() && !same_text(&self.recordings[i].id, id)
            invariant
                i <= self.recordings@.len(),
                ids == self.recordings@.map_values(|r: MemRecording| r.id@),
                forall|k: int| 0 <= k < i ==> ids[k] != id@,
            decreases self.recordings@.len() - i,
        {
            i = i + 1;
        }
        proof {
            text::lemma_first_at_is(ids, id@, i as int);
        }
        if i >= self.recordings.len() {
            return None;
        }
        let rec = &self.recordings[i];
        Some(
            RecordingDetail {
                id: rec.id.clone(),
                title: rec.title.clone(),
                duration_ms: rec.duration_ms,
                genre: clone_opt(&rec.genre),
                bpm: clone_opt(&rec.bpm),
                comment: clone_opt(&rec.comment),
                artist_credit_name: clone_opt(&rec.artist_credit_name),
                primary_artist_id: clone_opt(&rec.primary_artist_id),
                artist_credit_text: None,
                mbid: None,
                acoustid: None,
                rating: rec.avg_rating(),
                play_count: rec.play_count,
                last_played: clone_opt(&rec.last_played),
                artists: artists_of(rec),
                releases: self.releases_of(rec),
                sources: sources_of(rec),
            },
        )
    }
}

// ── Completeness of a disc ───────────────────────────────────────────────────

/// Whether the tracks of a disc are all there.
#[derive(Debug)]
pub enum DiscCompleteness {
    Complete,
    Incomplete(Vec<MissingTrackDetail>),
    Unknown(String),
}

/// The positions from 1 to `n` that are not present.
pub open spec fn absent(disc: i64, present: Seq<i64>, n: int) -> Seq<completeness::Missing>
    decreases n,
{
    if n <= 0 {
        Seq::empty()
    } else if present.contains(n as i64) {
        absent(disc, present, n - 1)
    } else {
        absent(disc, present, n - 1).push((disc, n as i64, Seq::empty(), None))
    }
}

/// The part of a reason that speaks of one claimed total.
pub open spec fn claim_part(claims: Seq<i64>, total: i64) -> Seq<char> {
    let count = claims.to_multiset().count(total);
    text::signed_decimal(total as int) + " track"@ + completeness::plural(total as int)
        + " from "@ + text::decimal(count) + " source"@ + completeness::plural(count as int)
}

/// The distinct totals that are claimed, in ascending order.
pub open spec fn claimed_totals(claims: Seq<i64>) -> Seq<i64> {
    sorting::stable_sort(text::distinct(claims), sorting::number_order())
}

/// Whether `r` says how complete a disc is, by the positions that are present and
/// the totals that its sources claim.
pub open spec fn judges_disc(
    r: DiscCompleteness,
    disc: i64,
    present: Seq<i64>,
    claims: Seq<i64>,
) -> bool {
    if claims.len() == 0 {
        r matches DiscCompleteness::Unknown(why) && why@
            == "No source files provide track_total information."@
    } else if !completeness::unanimous(claims) {
        r matches DiscCompleteness::Unknown(why) && why@
            == "Sources disagree on total track count: "@ + text::joined(
            claimed_totals(claims).map_values(|t: i64| claim_part(claims, t)),
            ", "@,
        )
    } else if claims[0] == 0 {
        r matches DiscCompleteness::Unknown(why) && why@ == "Track total is zero."@
    } else if absent(disc, present, claims[0] as int).len() == 0 {
        r is Complete
    } else {
        r matches DiscCompleteness::Incomplete(missing) && completeness::missing_views(missing@)
            == absent(disc, present, claims[0] as int)
    }
}

/// Says how complete a disc is.
pub fn disc_completeness(disc_pos: i64, present: &Vec<i64>, claims: &Vec<i64>) -> (r:
    DiscCompleteness)
    ensures
        judges_disc(r, disc_pos, present@, claims@),
{
    if claims.len() == 0 {
        return DiscCompleteness::Unknown(
            "No source files provide track_total information.".to_owned(),
        );
    }
    if !all_same(claims) {
        let totals = sort_numbers(distinct_numbers(claims));
        let ghost f = |t: i64| claim_part(claims@, t);
        let mut parts: Vec<String> = Vec::new();
        let mut i: usize = 0;
        assert(text::texts(parts@) =~= totals@.map_values(f).take(0));
        while i < totals.len()
            invariant
                i <= totals@.len(),
                f == (|t: i64| claim_part(claims@, t)),
                text::texts(parts@) == totals@.map_values(f).take(i as int),
            decreases totals@.len() - i,
        {
            let t: i64 = totals[i];
            let count: usize = count_of(claims, t);
            let mut part = signed_string(t);
            part.append(" track");
            part.append(plural_of(t as i128));
            part.append(" from ");
            part.append(&text::decimal_string(count as u64));
            part.append(" source");
            part.append(plural_of(count as i128));
            let ghost before = text::texts(parts@);
            parts.push(part);
            proof {
                assert(text::texts(parts@) =~= before.push(f(t)));
                assert(totals@.map_values(f).take(i + 1) =~= totals@.map_values(f).take(
                    i as int,
                ).push(f(t)));
            }
            i = i + 1;
        }
        assert(totals@.map_values(f).take(i as int) =~= totals@.map_values(f));
        let mut why = "Sources disagree on total track count: ".to_owned();
        why.append(&text::join(&parts, ", "));
        return DiscCompleteness::Unknown(why);
    }
    let total: i64 = claims[0];
    if total == 0 {
        return DiscCompleteness::Unknown("Track total is zero.".to_owned());
    }
    let mut missing: Vec<MissingTrackDetail> = Vec::new();
    let mut p: i64 = 0;
    assert(completeness::missing_views(missing@) =~= absent(disc_pos, present@, 0));
    while p < total
        invariant
            0 <= p,
            p <= total || total < 0,
            total < 0 ==> p == 0,
            completeness::missing_views(missing@) == absent(disc_pos, present@, p as int),
        decreases total - p,
    {
        p = p + 1;
        if !contains_number(present, p) {
            let ghost before = completeness::missing_views(missing@);
            let m = MissingTrackDetail {
                disc_position: disc_pos,
                track_position: p,
                title: String::new(),
                recording_id: None,
            };
            missing.push(m);
            assert(completeness::missing_views(missing@) =~= before.push(
                completeness::missing_view(m),
            ));
            assert(completeness::missing_views(missing@) =~= absent(
                disc_pos,
                present@,
                p as int,
            ));
        }
    }
    assert(completeness::missing_views(missing@).len() == missing@.len());
    if missing.len() == 0 {
        DiscCompleteness::Complete
    } else {
        DiscCompleteness::Incomplete(missing)
    }
}

/// A disc with one claimed total above zero is complete exactly when every
/// position up to the total is present.
pub proof fn law_disc_complete_iff_all_present(
    r: DiscCompleteness,
    disc: i64,
    present: Seq<i64>,
    claims: Seq<i64>,
)
    requires
        judges_disc(r, disc, present, claims),
        claims.len() > 0,
        completeness::unanimous(claims),
        claims[0] > 0,
    ensures
        r is Complete <==> forall|p: i64| 1 <= p <= claims[0] ==> #[trigger] present.contains(p),
{
    lemma_absent_empty(disc, present, claims[0] as int);
}

proof fn lemma_absent_empty(disc: i64, present: Seq<i64>, n: int)
    requires
        0 <= n <= i64::MAX,
    ensures
        absent(disc, present, n).len() == 0 <==> forall|p: i64|
            1 <= p <= n ==> #[trigger] present.contains(p),
    decreases n,
{
    if n > 0 {
        lemma_absent_empty(disc, present, n - 1);
        if forall|p: i64| 1 <= p <= n - 1 ==> #[trigger] present.contains(p) {
            if present.contains(n as i64) {
                assert forall|p: i64| 1 <= p <= n implies #[trigger] present.contains(p) by {
                    if p == n {
                    }
                }
            }
        } else {
            let p = choose|p: i64| 1 <= p <= n - 1 && !#[trigger] present.contains(p);
            assert(!present.contains(p));
        }
    }
}

/// The positions that are missing on a disc are just those up to its number of tracks
/// at which nothing is present.
pub proof fn law_absent_positions(disc: i64, present: Seq<i64>, n: int, m: completeness::Missing)
    requires
        n <= i64::MAX,
    ensures
        absent(disc, present, n).contains(m) <==> m.0 == disc && 1 <= m.1 <= n
            && !present.contains(m.1) && m.2.len() == 0 && m.3 is None,
    decreases n,
{
    if n > 0 {
        law_absent_positions(disc, present, n - 1, m);
        let before = absent(disc, present, n - 1);
        let x: completeness::Missing = (disc, n as i64, Seq::empty(), None);
        if m.2.len() == 0 {
            assert(m.2 =~= Seq::empty());
        }
        if !present.contains(n as i64) {
            assert(before.push(x)[before.len() as int] == x);
            if before.contains(m) {
                let k = choose|k: int| 0 <= k < before.len() && before[k] == m;
                assert(before.push(x)[k] == m);
            }
            if before.push(x).contains(m) && m != x {
                let k = choose|k: int| 0 <= k < before.push(x).len() && before.push(x)[k] == m;
                assert(before[k] == m);
            }
        }
    }
}

/// A disc on whose number of tracks the sources agree is judged by its positions: it is
/// complete or misses just the empty ones. Any other disc is not decided.
pub proof fn law_disc_is_judged_by_positions(
    r: DiscCompleteness,
    disc: i64,
    present: Seq<i64>,
    claims: Seq<i64>,
    m: completeness::Missing,
)
    requires
        judges_disc(r, disc, present, claims),
    ensures
        r is Unknown <==> claims.len() == 0 || claims[0] == 0 || exists|i: int|
            0 <= i < claims.len() && #[trigger] claims[i] != claims[0],
        r matches DiscCompleteness::Incomplete(missing) ==> missing@.len() > 0 && (
        completeness::missing_views(missing@).contains(m) <==> m.0 == disc && 1 <= m.1 <= claims[0]
            && !present.contains(m.1) && m.2.len() == 0 && m.3 is None),
{
    if claims.len() > 0 {
        law_absent_positions(disc, present, claims[0] as int, m);
        if !completeness::unanimous(claims) {
            let (i, j) = choose|i: int, j: int|
                0 <= i < claims.len() && 0 <= j < claims.len() && claims[i] != claims[j];
            assert(claims[i] != claims[0] || claims[j] != claims[0]);
        }
    }
}

} // verus!
