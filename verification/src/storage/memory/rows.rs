//! The stored rows a catalogue is built from, and the recordings they describe.
use vstd::prelude::*;
use crate::sorting;
use crate::sorting::sort_vec;
use crate::text;
use crate::text::{contains_text, same_text, str_le};
use super::appears;
use super::appears::place_all;
use super::described;
use super::described::{
    artist_names, credit_ids, credits, group_id, release_year, tag_copy, title,
};
use super::laws;
use super::lists;
use super::lists::{clone_opt, find_local};
use super::{MemRecording, RawSource};

verus! {

/// A stored source, its tags as the text that is stored. The gain and peak are the
/// bit patterns of double-precision numbers.
#[derive(Debug)]
pub struct StoredSource {
    pub id: String,
    pub recording_id: String,
    pub source_type: String,
    pub file_path: Option<String>,
    pub format: Option<String>,
    pub duration_ms: Option<i64>,
    pub replay_gain_track_db_bits: Option<u64>,
    pub replay_gain_track_peak_bits: Option<u64>,
    pub raw_tags_json: Option<String>,
}

/// A source with its tags.
#[derive(Debug)]
pub struct SourceRecord {
    pub id: String,
    pub recording_id: String,
    pub source_type: String,
    pub file_path: Option<String>,
    pub format: Option<String>,
    pub duration_ms: Option<i64>,
    pub replay_gain_track_db_bits: Option<u64>,
    pub replay_gain_track_peak_bits: Option<u64>,
    pub tags: Vec<(String, String)>,
}

/// How often a recording was played, and when last.
#[derive(Debug)]
pub struct PlayRecord {
    pub recording_id: String,
    pub play_count: i64,
    pub last_played: Option<String>,
}

/// Everything that a catalogue is built from.
#[derive(Debug)]
pub struct CatalogRows {
    pub sources: Vec<SourceRecord>,
    /// Source identifiers, each with its stars.
    pub source_ratings: Vec<(String, i64)>,
    pub plays: Vec<PlayRecord>,
    /// Recording identifiers, each with a tag.
    pub recording_tags: Vec<(String, String)>,
    /// Playlist names, each with the identifier of a recording.
    pub playlists: Vec<(String, String)>,
}

/// Everything that is stored and a catalogue is built from.
#[derive(Debug)]
pub struct StoredCatalog {
    pub sources: Vec<StoredSource>,
    /// Source identifiers, each with its stars.
    pub source_ratings: Vec<(String, i64)>,
    pub plays: Vec<PlayRecord>,
    /// Recording identifiers, each with a tag.
    pub recording_tags: Vec<(String, String)>,
    /// Playlist names, each with the identifier of a recording.
    pub playlists: Vec<(String, String)>,
}

// ── Stored tags ──────────────────────────────────────────────────────────────

/// The pairs of texts that a JSON text holds; `None` when it is no array of pairs
/// of texts.
pub uninterp spec fn tags_in_json(json: Seq<char>) -> Option<Seq<(Seq<char>, Seq<char>)>>;

/// Reads pairs of texts with `serde_json::from_str`. Claimed of it: what it
/// returns depends on the text alone.
#[verifier::external_body]
pub(crate) fn json_to_tags(json: &str) -> (r: Option<Vec<(String, String)>>)
    ensures
        match r {
            Some(tags) => tags_in_json(json@) == Some(text::pairs(tags@)),
            None => tags_in_json(json@) is None,
        },
{
    serde_json::from_str(json).ok()
}

/// The tags in a stored text; none when there is no text or it cannot be read.
pub open spec fn stored_tags(json: Option<String>) -> described::Tags {
    match json {
        Some(j) => match tags_in_json(j@) {
            Some(tags) => tags,
            None => Seq::empty(),
        },
        None => Seq::empty(),
    }
}

/// Reads stored tags.
pub fn read_tags(json: &Option<String>) -> (r: Vec<(String, String)>)
    ensures
        text::pairs(r@) == stored_tags(*json),
{
    match json {
        Some(j) => match json_to_tags(j) {
            Some(tags) => tags,
            None => {
                let r: Vec<(String, String)> = Vec::new();
                assert(text::pairs(r@) =~= Seq::empty());
                r
            },
        },
        None => {
            let r: Vec<(String, String)> = Vec::new();
            assert(text::pairs(r@) =~= Seq::empty());
            r
        },
    }
}

/// Whether `row` is a stored source with its tags read.
pub open spec fn reads_source(row: SourceRecord, stored: StoredSource) -> bool {
    &&& row.id == stored.id
    &&& row.recording_id == stored.recording_id
    &&& row.source_type == stored.source_type
    &&& row.file_path == stored.file_path
    &&& row.format == stored.format
    &&& row.duration_ms == stored.duration_ms
    &&& row.replay_gain_track_db_bits == stored.replay_gain_track_db_bits
    &&& row.replay_gain_track_peak_bits == stored.replay_gain_track_peak_bits
    &&& text::pairs(row.tags@) == stored_tags(stored.raw_tags_json)
}

/// Whether `rows` are stored sources with their tags read, in order.
pub open spec fn reads_sources(rows: Seq<SourceRecord>, stored: Seq<StoredSource>) -> bool {
    &&& rows.len() == stored.len()
    &&& forall|i: int| 0 <= i < rows.len() ==> reads_source(#[trigger] rows[i], stored[i])
}

/// Whether `rows` are what is stored, with the tags of the sources read.
pub open spec fn reads_catalog(rows: CatalogRows, stored: StoredCatalog) -> bool {
    &&& reads_sources(rows.sources@, stored.sources@)
    &&& rows.source_ratings == stored.source_ratings
    &&& rows.plays == stored.plays
    &&& rows.recording_tags == stored.recording_tags
    &&& rows.playlists == stored.playlists
}

/// Reads the tags of stored sources.
pub fn read_sources(stored: &Vec<StoredSource>) -> (rows: Vec<SourceRecord>)
    ensures
        reads_sources(rows@, stored@),
{
    let mut rows: Vec<SourceRecord> = Vec::new();
    let mut i: usize = 0;
    while i < stored.len()
        invariant
            i <= stored@.len(),
            rows@.len() == i,
            forall|k: int| 0 <= k < i ==> reads_source(#[trigger] rows@[k], stored@[k]),
        decreases stored@.len() - i,
    {
        let s = &stored[i];
        rows.push(
            SourceRecord {
                id: s.id.clone(),
                recording_id: s.recording_id.clone(),
                source_type: s.source_type.clone(),
                file_path: clone_opt(&s.file_path),
                format: clone_opt(&s.format),
                duration_ms: s.duration_ms,
                replay_gain_track_db_bits: s.replay_gain_track_db_bits,
                replay_gain_track_peak_bits: s.replay_gain_track_peak_bits,
                tags: read_tags(&s.raw_tags_json),
            },
        );
        i = i + 1;
    }
    rows
}

// ── Meaning ──────────────────────────────────────────────────────────────────

/// The stars of a source: the last ones stored for it.
pub open spec fn rating_of(ratings: Seq<(String, i64)>, id: Seq<char>) -> Option<i64>
    decreases ratings.len(),
{
    if ratings.len() == 0 {
        None
    } else if ratings.last().0@ == id {
        Some(ratings.last().1)
    } else {
        rating_of(ratings.drop_last(), id)
    }
}

/// The MusicBrainz identifier that tags give: the first that is not empty.
pub open spec fn mbid_of(tags: described::Tags) -> Option<Seq<char>>
    decreases tags.len(),
{
    if tags.len() == 0 {
        None
    } else if tags[0].0 == "UFID:http://musicbrainz.org"@ && tags[0].1.len() > 0 {
        Some(tags[0].1)
    } else {
        mbid_of(tags.skip(1))
    }
}

/// The recording of a stored source: sources whose tags give the same MusicBrainz
/// identifier are of the same recording; without one, the stored recording counts.
pub open spec fn recording_key(row: SourceRecord) -> Seq<char> {
    match mbid_of(text::pairs(row.tags@)) {
        Some(mbid) => mbid,
        None => row.recording_id@,
    }
}

/// The recordings that have sources, in order of first appearance.
pub open spec fn recording_ids(rows: Seq<SourceRecord>) -> Seq<Seq<char>> {
    text::distinct(rows.map_values(|r: SourceRecord| recording_key(r)))
}

/// The stored sources of a recording.
pub open spec fn rows_of(rows: Seq<SourceRecord>, id: Seq<char>) -> Seq<SourceRecord> {
    rows.filter(|r: SourceRecord| recording_key(r) == id)
}

/// Whether a path comes no later than another; an unknown one comes first.
pub open spec fn path_le(a: Option<String>, b: Option<String>) -> bool {
    match (a, b) {
        (None, _) => true,
        (Some(_), None) => false,
        (Some(x), Some(y)) => text::text_le(x@, y@),
    }
}

/// The order of sources by path.
pub open spec fn path_order() -> spec_fn(SourceRecord, SourceRecord) -> bool {
    |a: SourceRecord, b: SourceRecord| path_le(a.file_path, b.file_path)
}

/// The stored sources of a recording, by path.
pub open spec fn sources_of(rows: Seq<SourceRecord>, id: Seq<char>) -> Seq<SourceRecord> {
    sorting::stable_sort(rows_of(rows, id), path_order())
}

/// Whether a source is the stored one, with its stars.
pub open spec fn tells_source(
    s: RawSource,
    row: SourceRecord,
    ratings: Seq<(String, i64)>,
) -> bool {
    &&& s.id == row.id
    &&& s.source_type == row.source_type
    &&& s.file_path == row.file_path
    &&& s.format == row.format
    &&& s.duration_ms == row.duration_ms
    &&& s.replay_gain_track_db_bits == row.replay_gain_track_db_bits
    &&& s.replay_gain_track_peak_bits == row.replay_gain_track_peak_bits
    &&& text::pairs(s.tags@) == text::pairs(row.tags@)
    &&& s.rating == rating_of(ratings, row.id@)
}

/// The tags that describe a recording: those of its first local file, or of its
/// first source.
pub open spec fn main_tags(sources: Seq<RawSource>) -> described::Tags {
    if sources.len() == 0 {
        Seq::empty()
    } else if lists::local_source(sources) < sources.len() {
        text::pairs(sources[lists::local_source(sources)].tags@)
    } else {
        text::pairs(sources[0].tags@)
    }
}

/// The greatest of numbers.
pub open spec fn greatest(s: Seq<i64>) -> Option<i64>
    decreases s.len(),
{
    if s.len() == 0 {
        None
    } else {
        match greatest(s.drop_last()) {
            Some(n) => Some(
                if s.last() > n {
                    s.last()
                } else {
                    n
                },
            ),
            None => Some(s.last()),
        }
    }
}

/// The identifiers under which user data of a recording is stored: its own and
/// those stored with its sources.
pub open spec fn stored_ids(rows: Seq<SourceRecord>, id: Seq<char>) -> Seq<Seq<char>> {
    sources_of(rows, id).map_values(|r: SourceRecord| r.recording_id@).push(id)
}

/// The sum of two numbers, kept in the range of 64-bit integers.
pub open spec fn capped_sum(a: i64, b: i64) -> i64 {
    if a + b > i64::MAX {
        i64::MAX
    } else if a + b < i64::MIN {
        i64::MIN
    } else {
        (a + b) as i64
    }
}

/// How often a recording was played, and when last. A stored play that does not say
/// when is left out.
pub open spec fn plays_of(plays: Seq<PlayRecord>, ids: Seq<Seq<char>>) -> (i64, Option<Seq<char>>)
    decreases plays.len(),
{
    if plays.len() == 0 {
        (0, None)
    } else {
        let front = plays_of(plays.drop_last(), ids);
        let p = plays.last();
        if ids.contains(p.recording_id@) && p.last_played is Some {
            (
                capped_sum(front.0, p.play_count),
                match front.1 {
                    Some(last) => if text::text_le(p.last_played.unwrap()@, last) {
                        Some(last)
                    } else {
                        Some(p.last_played.unwrap()@)
                    },
                    None => Some(p.last_played.unwrap()@),
                },
            )
        } else {
            front
        }
    }
}

/// The tags that a user gave to a recording.
pub open spec fn user_tags(rows: Seq<(String, String)>, ids: Seq<Seq<char>>) -> Seq<Seq<char>> {
    rows.filter_map(
        |r: (String, String)|
            if ids.contains(r.0@) {
                Some(r.1@)
            } else {
                None
            },
    )
}

/// Whether `r` is the recording that rows describe under an identifier.
pub open spec fn tells_recording(r: MemRecording, rows: CatalogRows, id: Seq<char>) -> bool {
    let stored = sources_of(rows.sources@, id);
    let ids = stored_ids(rows.sources@, id);
    let t = main_tags(r.sources@);
    &&& r.id@ == id
    &&& r.sources@.len() == stored.len()
    &&& forall|i: int|
        0 <= i < r.sources@.len() ==> tells_source(
            #[trigger] r.sources@[i],
            stored[i],
            rows.source_ratings@,
        )
    &&& r.title@ == described::title_of(t)
    &&& r.duration_ms == greatest(r.sources@.filter_map(|s: RawSource| s.duration_ms))
    &&& text::opt_text(r.genre) == super::tag_value(t, "TCON"@)
    &&& text::opt_text(r.bpm) == super::tag_value(t, "TBPM"@)
    &&& text::opt_text(r.comment) == super::tag_value(t, "COMM"@)
    &&& text::opt_text(r.primary_artist_id) == if described::ids_of(t).len() > 0 {
        Some(described::ids_of(t)[0])
    } else {
        None
    }
    &&& text::opt_text(r.artist_credit_name) == super::tag_value(t, "TPE1"@)
    &&& text::texts(r.artist_ids@) == described::ids_of(t)
    &&& text::texts(r.all_artist_names@) == described::names_of(t)
    &&& text::opt_text(r.release_group_id) == described::group_of(t)
    &&& appears::placed_views(r.placements@) == appears::placements(r.sources@)
    &&& text::opt_text(r.release_year) == described::year_of(t)
    &&& r.play_count == plays_of(rows.plays@, ids).0
    &&& text::opt_text(r.last_played) == plays_of(rows.plays@, ids).1
    &&& text::texts(r.tags@) == user_tags(rows.recording_tags@, ids)
}

// ── Executable ───────────────────────────────────────────────────────────────

fn rating_for(ratings: &Vec<(String, i64)>, id: &str) -> (r: Option<i64>)
    ensures
        r == rating_of(ratings@, id@),
{
    let mut n: usize = ratings.len();
    assert(ratings@.take(ratings@.len() as int) =~= ratings@);
    while n > 0
        invariant
            n <= ratings@.len(),
            rating_of(ratings@.take(n as int), id@) == rating_of(ratings@, id@),
        decreases n,
    {
        assert(ratings@.take(n as int).drop_last() =~= ratings@.take(n - 1));
        assert(ratings@.take(n as int).last() == ratings@[n - 1]);
        if same_text(&ratings[n - 1].0, id) {
            return Some(ratings[n - 1].1);
        }
        n = n - 1;
    }
    None
}

fn add_capped(a: i64, b: i64) -> (r: i64)
    ensures
        r == capped_sum(a, b),
{
    let sum: i128 = a as i128 + b as i128;
    if sum > 0x7FFF_FFFF_FFFF_FFFF {
        i64::MAX
    } else if sum < -0x8000_0000_0000_0000 {
        i64::MIN
    } else {
        sum as i64
    }
}

fn plays_for(plays: &Vec<PlayRecord>, ids: &Vec<String>) -> (r: (i64, Option<String>))
    ensures
        r.0 == plays_of(plays@, text::texts(ids@)).0,
        text::opt_text(r.1) == plays_of(plays@, text::texts(ids@)).1,
{
    let mut count: i64 = 0;
    let mut last: Option<String> = None;
    let mut i: usize = 0;
    while i < plays.len()
        invariant
            i <= plays@.len(),
            count == plays_of(plays@.take(i as int), text::texts(ids@)).0,
            text::opt_text(last) == plays_of(plays@.take(i as int), text::texts(ids@)).1,
        decreases plays@.len() - i,
    {
        let p = &plays[i];
        proof {
            assert(plays@.take(i + 1).drop_last() =~= plays@.take(i as int));
            assert(plays@.take(i + 1).last() == *p);
        }
        if let Some(when) = &p.last_played {
            if contains_text(ids, &p.recording_id) {
                count = add_capped(count, p.play_count);
                let later = match &last {
                    Some(l) => !str_le(when, l),
                    None => true,
                };
                if later {
                    last = Some(when.clone());
                }
            }
        }
        i = i + 1;
    }
    assert(plays@.take(plays@.len() as int) =~= plays@);
    (count, last)
}

fn tags_for(rows: &Vec<(String, String)>, ids: &Vec<String>) -> (r: Vec<String>)
    ensures
        text::texts(r@) == user_tags(rows@, text::texts(ids@)),
{
    let ghost f = |r: (String, String)|
        if text::texts(ids@).contains(r.0@) {
            Some(r.1@)
        } else {
            None
        };
    let mut r: Vec<String> = Vec::new();
    let mut i: usize = 0;
    assert(rows@.take(0) =~= Seq::empty());
    assert(text::texts(r@) =~= rows@.take(0).filter_map(f));
    while i < rows.len()
        invariant
            i <= rows@.len(),
            f == (|r: (String, String)|
                if text::texts(ids@).contains(r.0@) {
                    Some(r.1@)
                } else {
                    None
                }),
            text::texts(r@) == rows@.take(i as int).filter_map(f),
        decreases rows@.len() - i,
    {
        let ghost before = text::texts(r@);
        proof {
            rows@.lemma_filter_map_take_succ(f, i as int);
        }
        if contains_text(ids, &rows[i].0) {
            r.push(rows[i].1.clone());
            assert(text::texts(r@) =~= before.push(rows@[i as int].1@));
        }
        assert(text::texts(r@) =~= rows@.take(i + 1).filter_map(f));
        i = i + 1;
    }
    assert(rows@.take(rows@.len() as int) =~= rows@);
    r
}

proof fn lemma_path_order()
    ensures
        sorting::total_preorder(|a: &SourceRecord, b: &SourceRecord| path_order()(*a, *b)),
{
    let le = |a: &SourceRecord, b: &SourceRecord| path_order()(*a, *b);
    assert forall|x: &SourceRecord, y: &SourceRecord| #[trigger] le(x, y) || le(y, x) by {
        if let (Some(p), Some(q)) = (x.file_path, y.file_path) {
            text::lemma_text_le_total(p@, q@);
        }
    }
    assert forall|x: &SourceRecord, y: &SourceRecord, z: &SourceRecord| #[trigger]
        le(x, y) && #[trigger] le(y, z) implies le(x, z) by {
        if let (Some(p), Some(q), Some(r)) = (x.file_path, y.file_path, z.file_path) {
            text::lemma_text_le_transitive(p@, q@, r@);
        }
    }
}

fn earlier_path(a: &Option<String>, b: &Option<String>) -> (r: bool)
    ensures
        r == path_le(*a, *b),
{
    match a {
        None => true,
        Some(x) => match b {
            None => false,
            Some(y) => str_le(x, y),
        },
    }
}

/// Whether `keys` holds the recording of each stored source.
pub open spec fn tell_keys(keys: Seq<String>, rows: Seq<SourceRecord>) -> bool {
    &&& keys.len() == rows.len()
    &&& forall|i: int| 0 <= i < keys.len() ==> (#[trigger] keys[i])@ == recording_key(rows[i])
}

/// The MusicBrainz identifier that tags give.
pub fn find_mbid(tags: &Vec<(String, String)>) -> (r: Option<String>)
    ensures
        text::opt_text(r) == mbid_of(text::pairs(tags@)),
{
    let ghost all = text::pairs(tags@);
    let mut i: usize = 0;
    assert(all.skip(0) =~= all);
    while i < tags.len()
        invariant
            i <= tags@.len(),
            all == text::pairs(tags@),
            mbid_of(all.skip(i as int)) == mbid_of(all),
        decreases tags@.len() - i,
    {
        proof {
            assert(all.skip(i as int)[0] == all[i as int]);
            assert(all.skip(i as int).skip(1) =~= all.skip(i + 1));
        }
        if same_text(&tags[i].0, "UFID:http://musicbrainz.org") && !tags[i].1.as_str().is_empty() {
            return Some(tags[i].1.clone());
        }
        i = i + 1;
    }
    None
}

/// The recording of each stored source.
pub(crate) fn recording_keys(rows: &Vec<SourceRecord>) -> (r: Vec<String>)
    ensures
        tell_keys(r@, rows@),
{
    let mut r: Vec<String> = Vec::new();
    let mut i: usize = 0;
    while i < rows.len()
        invariant
            i <= rows@.len(),
            r@.len() == i,
            forall|k: int| 0 <= k < i ==> (#[trigger] r@[k])@ == recording_key(rows@[k]),
        decreases rows@.len() - i,
    {
        let key = match find_mbid(&rows[i].tags) {
            Some(mbid) => mbid,
            None => rows[i].recording_id.clone(),
        };
        r.push(key);
        i = i + 1;
    }
    r
}

/// The stored sources of a recording, by path.
fn stored_sources<'a>(rows: &'a Vec<SourceRecord>, keys: &Vec<String>, id: &str) -> (r: Vec<
    &'a SourceRecord,
>)
    requires
        tell_keys(keys@, rows@),
    ensures
        r@.map_values(|x: &SourceRecord| *x) == sources_of(rows@, id@),
{
    let ghost keep = |r: SourceRecord| recording_key(r) == id@;
    let ghost read = |x: &SourceRecord| *x;
    let mut r: Vec<&SourceRecord> = Vec::new();
    let mut i: usize = 0;
    proof {
        assert(rows@.take(0) =~= Seq::empty());
        rows@.take(0).lemma_filter_len(keep);
        assert(r@.map_values(read) =~= rows@.take(0).filter(keep));
    }
    while i < rows.len()
        invariant
            i <= rows@.len(),
            tell_keys(keys@, rows@),
            keep == (|r: SourceRecord| recording_key(r) == id@),
            read == (|x: &SourceRecord| *x),
            r@.map_values(read) == rows@.take(i as int).filter(keep),
        decreases rows@.len() - i,
    {
        let ghost before = r@.map_values(read);
        proof {
            assert(rows@.take(i + 1) =~= rows@.take(i as int).push(rows@[i as int]));
            rows@.take(i as int).lemma_filter_push(rows@[i as int], keep);
        }
        if same_text(&keys[i], id) {
            r.push(&rows[i]);
            assert(r@.map_values(read) =~= before.push(rows@[i as int]));
        }
        i = i + 1;
    }
    let ghost le_ref = |a: &SourceRecord, b: &SourceRecord| path_order()(*a, *b);
    proof {
        assert(rows@.take(rows@.len() as int) =~= rows@);
        lemma_path_order();
        sorting::lemma_sort_map(r@, read, le_ref, path_order());
    }
    let le = |a: &&SourceRecord, b: &&SourceRecord| -> (r: bool)
        ensures
            r == path_le(a.file_path, b.file_path),
        { earlier_path(&a.file_path, &b.file_path) };
    sort_vec(r, le, Ghost(le_ref))
}

fn copy_tags(tags: &Vec<(String, String)>) -> (r: Vec<(String, String)>)
    ensures
        text::pairs(r@) == text::pairs(tags@),
{
    let mut r: Vec<(String, String)> = Vec::new();
    let mut i: usize = 0;
    while i < tags.len()
        invariant
            i <= tags@.len(),
            text::pairs(r@) == text::pairs(tags@).take(i as int),
        decreases tags@.len() - i,
    {
        let ghost before = text::pairs(r@);
        r.push((tags[i].0.clone(), tags[i].1.clone()));
        assert(text::pairs(r@) =~= before.push(text::pairs(tags@)[i as int]));
        i = i + 1;
        assert(text::pairs(r@) =~= text::pairs(tags@).take(i as int));
    }
    assert(text::pairs(r@) =~= text::pairs(tags@));
    r
}

/// A stored source with its stars.
fn source_of(row: &SourceRecord, ratings: &Vec<(String, i64)>) -> (s: RawSource)
    ensures
        tells_source(s, *row, ratings@),
{
    RawSource {
        id: row.id.clone(),
        source_type: row.source_type.clone(),
        file_path: clone_opt(&row.file_path),
        format: clone_opt(&row.format),
        duration_ms: row.duration_ms,
        replay_gain_track_db_bits: row.replay_gain_track_db_bits,
        replay_gain_track_peak_bits: row.replay_gain_track_peak_bits,
        tags: copy_tags(&row.tags),
        rating: rating_for(ratings, &row.id),
    }
}

/// The longest of the known durations.
fn longest(sources: &Vec<RawSource>) -> (r: Option<i64>)
    ensures
        r == greatest(sources@.filter_map(|s: RawSource| s.duration_ms)),
{
    let ghost f = |s: RawSource| s.duration_ms;
    let mut r: Option<i64> = None;
    let mut i: usize = 0;
    assert(sources@.take(0) =~= Seq::empty());
    while i < sources.len()
        invariant
            i <= sources@.len(),
            f == (|s: RawSource| s.duration_ms),
            r == greatest(sources@.take(i as int).filter_map(f)),
        decreases sources@.len() - i,
    {
        let ghost found = sources@.take(i as int).filter_map(f);
        proof {
            sources@.lemma_filter_map_take_succ(f, i as int);
        }
        match sources[i].duration_ms {
            Some(n) => {
                proof {
                    assert((found + seq![n]).drop_last() =~= found);
                    assert((found + seq![n]).last() == n);
                }
                r = match r {
                    Some(m) => Some(
                        if n > m {
                            n
                        } else {
                            m
                        },
                    ),
                    None => Some(n),
                };
            },
            None => {
                assert(found + Seq::<i64>::empty() =~= found);
            },
        }
        i = i + 1;
    }
    assert(sources@.take(sources@.len() as int) =~= sources@);
    r
}

/// The tags that describe a recording.
pub(crate) fn describing_tags(sources: &Vec<RawSource>) -> (r: &[(String, String)])
    requires
        sources@.len() > 0,
    ensures
        text::pairs(r@) == main_tags(sources@),
{
    match find_local(sources) {
        Some(i) => sources[i].tags.as_slice(),
        None => sources[0].tags.as_slice(),
    }
}

/// The recording that rows describe under an identifier.
pub(crate) fn build_recording(rows: &CatalogRows, keys: &Vec<String>, id: &str) -> (r:
    MemRecording)
    requires
        tell_keys(keys@, rows.sources@),
        rows_of(rows.sources@, id@).len() > 0,
    ensures
        tells_recording(r, *rows, id@),
{
    let stored = stored_sources(&rows.sources, keys, id);
    let ghost wanted = sources_of(rows.sources@, id@);
    let mut sources: Vec<RawSource> = Vec::new();
    let mut ids: Vec<String> = Vec::new();
    let mut i: usize = 0;
    assert(stored@.map_values(|x: &SourceRecord| *x).len() == stored@.len());
    while i < stored.len()
        invariant
            i <= stored@.len(),
            stored@.len() == wanted.len(),
            stored@.map_values(|x: &SourceRecord| *x) == wanted,
            sources@.len() == i,
            ids@.len() == i,
            forall|k: int| 0 <= k < i ==> (#[trigger] ids@[k])@ == wanted[k].recording_id@,
            forall|k: int|
                0 <= k < i ==> tells_source(
                    #[trigger] sources@[k],
                    wanted[k],
                    rows.source_ratings@,
                ),
        decreases stored@.len() - i,
    {
        assert(stored@.map_values(|x: &SourceRecord| *x)[i as int] == *stored@[i as int]);
        sources.push(source_of(stored[i], &rows.source_ratings));
        ids.push(stored[i].recording_id.clone());
        i = i + 1;
    }
    ids.push(id.to_owned());
    proof {
        lemma_stored_len(rows.sources@, id@);
        assert(text::texts(ids@) =~= stored_ids(rows.sources@, id@));
    }
    let duration_ms = longest(&sources);
    let tags = describing_tags(&sources);
    let ghost t = main_tags(sources@);
    let all_artist_names = artist_names(tags);
    let artists = credits(tags, &all_artist_names);
    let artist_ids = credit_ids(&artists);
    let name = title(tags);
    let genre = tag_copy(tags, "TCON");
    let bpm = tag_copy(tags, "TBPM");
    let comment = tag_copy(tags, "COMM");
    let artist_credit_name = tag_copy(tags, "TPE1");
    let release_group_id = group_id(tags);
    let placements = place_all(&sources);
    let year = release_year(tags);
    assert(text::texts(artist_ids@).len() == artist_ids@.len());
    let primary_artist_id = if artist_ids.len() > 0 {
        assert(text::texts(artist_ids@)[0] == artist_ids@[0]@);
        Some(artist_ids[0].clone())
    } else {
        None
    };
    let (play_count, last_played) = plays_for(&rows.plays, &ids);
    MemRecording {
        id: id.to_owned(),
        title: name,
        duration_ms,
        genre,
        bpm,
        comment,
        sources,
        primary_artist_id,
        artist_credit_name,
        artist_ids,
        all_artist_names,
        release_group_id,
        placements,
        release_year: year,
        play_count,
        last_played,
        tags: tags_for(&rows.recording_tags, &ids),
    }
}

proof fn lemma_path_order_total()
    ensures
        sorting::total_preorder(path_order()),
{
    lemma_path_order();
    let le = path_order();
    let le_ref = |a: &SourceRecord, b: &SourceRecord| path_order()(*a, *b);
    assert forall|x: SourceRecord, y: SourceRecord| #[trigger] le(x, y) || le(y, x) by {
        assert(le_ref(&x, &y) || le_ref(&y, &x));
    }
    assert forall|x: SourceRecord, y: SourceRecord, z: SourceRecord| #[trigger] le(x, y)
        && #[trigger] le(y, z) implies le(x, z) by {
        assert(le_ref(&x, &y) && le_ref(&y, &z));
    }
}

pub(crate) proof fn lemma_stored_len(rows: Seq<SourceRecord>, id: Seq<char>)
    ensures
        sources_of(rows, id).len() == rows_of(rows, id).len(),
{
    lemma_path_order_total();
    sorting::law_sort_orders(rows_of(rows, id), path_order());
}

/// A stored source of a recording is among its sources by path.
pub(crate) proof fn lemma_stored_contains(rows: Seq<SourceRecord>, id: Seq<char>, row: SourceRecord)
    requires
        rows_of(rows, id).contains(row),
    ensures
        sources_of(rows, id).contains(row),
{
    lemma_path_order_total();
    sorting::lemma_sort_contains(rows_of(rows, id), path_order(), row);
}

/// The recordings that have sources, in order of first appearance.
pub(crate) fn listed_recordings(keys: &Vec<String>, rows: Ghost<Seq<SourceRecord>>) -> (r: Vec<
    String,
>)
    requires
        tell_keys(keys@, rows@),
    ensures
        text::texts(r@) == recording_ids(rows@),
{
    let ghost all = rows@.map_values(|r: SourceRecord| recording_key(r));
    let mut r: Vec<String> = Vec::new();
    let mut i: usize = 0;
    proof {
        assert(all.take(0) =~= Seq::empty());
        assert(text::texts(r@) =~= text::distinct(all.take(0)));
    }
    while i < keys.len()
        invariant
            i <= keys@.len(),
            tell_keys(keys@, rows@),
            all == rows@.map_values(|r: SourceRecord| recording_key(r)),
            text::texts(r@) == text::distinct(all.take(i as int)),
        decreases keys@.len() - i,
    {
        let ghost x = keys@[i as int]@;
        proof {
            assert(all.take(i + 1) =~= all.take(i as int).push(x));
            text::lemma_distinct_push(all.take(i as int), x);
            text::lemma_distinct(all.take(i as int));
        }
        if !contains_text(&r, &keys[i]) {
            let ghost before = text::texts(r@);
            r.push(keys[i].clone());
            assert(text::texts(r@) =~= before.push(x));
        }
        i = i + 1;
    }
    assert(all.take(all.len() as int) =~= all);
    r
}

/// Every listed recording has a source.
pub(crate) proof fn lemma_listed_has_source(rows: Seq<SourceRecord>, id: Seq<char>)
    requires
        recording_ids(rows).contains(id),
    ensures
        rows_of(rows, id).len() > 0,
{
    let all = rows.map_values(|r: SourceRecord| recording_key(r));
    text::lemma_distinct(all);
    assert(all.contains(id));
    let k = choose|k: int| 0 <= k < all.len() && all[k] == id;
    let keep = |r: SourceRecord| recording_key(r) == id;
    assert(recording_key(rows[k]) == id);
    assert(rows.contains(rows[k]));
    rows.lemma_filter_contains(keep, k);
    assert(rows_of(rows, id).contains(rows[k]));
}

// ── Laws ─────────────────────────────────────────────────────────────────────

/// Of several ratings of a source the last counts.
pub proof fn law_last_rating_counts(ratings: Seq<(String, i64)>, id: Seq<char>, k: int)
    requires
        0 <= k < ratings.len(),
        ratings[k].0@ == id,
        forall|j: int| k < j < ratings.len() ==> (#[trigger] ratings[j]).0@ != id,
    ensures
        rating_of(ratings, id) == Some(ratings[k].1),
    decreases ratings.len(),
{
    if k < ratings.len() - 1 {
        assert(ratings[ratings.len() - 1].0@ != id);
        assert forall|j: int| k < j < ratings.drop_last().len() implies (
        #[trigger] ratings.drop_last()[j]).0@ != id by {
            assert(ratings[j].0@ != id);
        }
        law_last_rating_counts(ratings.drop_last(), id, k);
    }
}

/// A source that nobody rated has no rating.
pub proof fn law_unrated_source(ratings: Seq<(String, i64)>, id: Seq<char>)
    requires
        forall|j: int| 0 <= j < ratings.len() ==> (#[trigger] ratings[j]).0@ != id,
    ensures
        rating_of(ratings, id) is None,
    decreases ratings.len(),
{
    if ratings.len() > 0 {
        assert(ratings[ratings.len() - 1].0@ != id);
        assert forall|j: int| 0 <= j < ratings.drop_last().len() implies (
        #[trigger] ratings.drop_last()[j]).0@ != id by {
            assert(ratings[j].0@ != id);
        }
        law_unrated_source(ratings.drop_last(), id);
    }
}

/// Whether a tag gives a MusicBrainz identifier.
pub open spec fn gives_mbid(tag: (Seq<char>, Seq<char>)) -> bool {
    tag.0 == "UFID:http://musicbrainz.org"@ && tag.1.len() > 0
}

/// The MusicBrainz identifier is that of the first tag that gives one.
pub proof fn law_first_mbid_counts(tags: described::Tags, k: int)
    requires
        0 <= k < tags.len(),
        gives_mbid(tags[k]),
        forall|j: int| 0 <= j < k ==> !gives_mbid(#[trigger] tags[j]),
    ensures
        mbid_of(tags) == Some(tags[k].1),
    decreases tags.len(),
{
    if k > 0 {
        assert(!gives_mbid(tags[0]));
        assert forall|j: int| 0 <= j < k - 1 implies !gives_mbid(#[trigger] tags.skip(1)[j]) by {
            assert(!gives_mbid(tags[j + 1]));
        }
        law_first_mbid_counts(tags.skip(1), k - 1);
    }
}

/// Tags without a MusicBrainz identifier give none.
pub proof fn law_no_mbid(tags: described::Tags)
    requires
        forall|j: int| 0 <= j < tags.len() ==> !gives_mbid(#[trigger] tags[j]),
    ensures
        mbid_of(tags) is None,
    decreases tags.len(),
{
    if tags.len() > 0 {
        assert(!gives_mbid(tags[0]));
        assert forall|j: int| 0 <= j < tags.len() - 1 implies !gives_mbid(
            #[trigger] tags.skip(1)[j],
        ) by {
            assert(!gives_mbid(tags[j + 1]));
        }
        law_no_mbid(tags.skip(1));
    }
}

/// A source belongs to the recording with its MusicBrainz identifier, or else to the
/// one under which it is stored. Sources of different recordings stay apart.
pub proof fn law_sources_belong_to_recordings(rows: Seq<SourceRecord>, i: int, id: Seq<char>)
    requires
        0 <= i < rows.len(),
    ensures
        forall|k: int|
            0 <= k < rows[i].tags@.len() && gives_mbid(#[trigger] text::pairs(rows[i].tags@)[k]) && (
            forall|j: int|
                0 <= j < k ==> !gives_mbid(#[trigger] text::pairs(rows[i].tags@)[j])) ==> (
            sources_of(rows, id).contains(rows[i]) <==> id == rows[i].tags@[k].1@),
        (forall|j: int|
            0 <= j < rows[i].tags@.len() ==> !gives_mbid(
                #[trigger] text::pairs(rows[i].tags@)[j],
            )) ==> (sources_of(rows, id).contains(rows[i]) <==> id == rows[i].recording_id@),
{
    let t = text::pairs(rows[i].tags@);
    let keep = |r: SourceRecord| recording_key(r) == id;
    lemma_path_order_total();
    sorting::lemma_sort_contains(rows_of(rows, id), path_order(), rows[i]);
    if keep(rows[i]) {
        rows.lemma_filter_contains(keep, i);
    }
    if rows_of(rows, id).contains(rows[i]) {
        let k = choose|k: int| 0 <= k < rows_of(rows, id).len() && rows_of(rows, id)[k] == rows[i];
        rows.lemma_filter_pred(keep, k);
    }
    assert forall|k: int|
        0 <= k < rows[i].tags@.len() && gives_mbid(#[trigger] t[k]) && (forall|j: int|
            0 <= j < k ==> !gives_mbid(#[trigger] t[j])) implies (sources_of(rows, id).contains(
        rows[i],
    ) <==> id == rows[i].tags@[k].1@) by {
        law_first_mbid_counts(t, k);
    }
    if forall|j: int| 0 <= j < rows[i].tags@.len() ==> !gives_mbid(#[trigger] t[j]) {
        law_no_mbid(t);
    }
}

/// The sources of a recording are ordered by path, and sources without one come first.
pub proof fn law_sources_are_ordered_by_path(rows: Seq<SourceRecord>, id: Seq<char>, i: int, j: int)
    requires
        0 <= i < j < sources_of(rows, id).len(),
    ensures
        sources_of(rows, id)[j].file_path is None ==> sources_of(rows, id)[i].file_path is None,
        sources_of(rows, id)[i].file_path is Some && sources_of(rows, id)[j].file_path is Some
            ==> text::text_le(
            sources_of(rows, id)[i].file_path->0@,
            sources_of(rows, id)[j].file_path->0@,
        ),
{
    lemma_path_order_total();
    sorting::law_sort_orders(rows_of(rows, id), path_order());
    let s = sources_of(rows, id);
    assert(path_order()(s[i], s[j]));
}

/// The longest of several durations is one of them, and none is longer.
pub proof fn law_greatest_is_a_bound(s: Seq<i64>)
    ensures
        match greatest(s) {
            Some(n) => s.contains(n) && forall|i: int| 0 <= i < s.len() ==> #[trigger] s[i] <= n,
            None => s.len() == 0,
        },
    decreases s.len(),
{
    if s.len() > 0 {
        let t = s.drop_last();
        law_greatest_is_a_bound(t);
        assert(s[s.len() - 1] == s.last());
        if let Some(n) = greatest(t) {
            let k = choose|k: int| 0 <= k < t.len() && t[k] == n;
            assert(s[k] == n);
            assert forall|i: int| 0 <= i < s.len() implies #[trigger] s[i] <= greatest(s)->0 by {
                if i < t.len() {
                    assert(t[i] == s[i]);
                }
            }
        } else {
            assert(t.len() == 0);
        }
    }
}

/// Plays of any of a recording's identifiers are added up, and the latest counts as
/// the last one. Plays of others, and records without a time, change nothing.
pub proof fn law_plays_are_added(plays: Seq<PlayRecord>, p: PlayRecord, ids: Seq<Seq<char>>)
    ensures
        plays_of(Seq::empty(), ids) == (0i64, None::<Seq<char>>),
        !ids.contains(p.recording_id@) || p.last_played is None ==> plays_of(plays.push(p), ids)
            == plays_of(plays, ids),
        ids.contains(p.recording_id@) && p.last_played is Some ==> ({
            let before = plays_of(plays, ids);
            let after = plays_of(plays.push(p), ids);
            &&& i64::MIN <= before.0 + p.play_count <= i64::MAX ==> after.0 == before.0
                + p.play_count
            &&& after.1 is Some
            &&& text::text_le(p.last_played->0@, after.1->0)
            &&& before.1 is Some ==> text::text_le(before.1->0, after.1->0)
            &&& after.1 == before.1 || after.1 == Some(p.last_played->0@)
        }),
{
    assert(plays.push(p).drop_last() =~= plays);
    if p.last_played is Some {
        let t = p.last_played->0@;
        text::lemma_text_le_total(t, t);
        if let Some(last) = plays_of(plays, ids).1 {
            text::lemma_text_le_total(last, last);
            text::lemma_text_le_total(t, last);
        }
    }
}

/// A recording carries just the tags that were given to one of its identifiers.
pub proof fn law_user_tags_follow_identifiers(
    rows: Seq<(String, String)>,
    ids: Seq<Seq<char>>,
    tag: Seq<char>,
)
    ensures
        user_tags(rows, ids).contains(tag) <==> exists|i: int|
            0 <= i < rows.len() && (#[trigger] rows[i]).1@ == tag && ids.contains(rows[i].0@),
{
    let f = |r: (String, String)|
        if ids.contains(r.0@) {
            Some(r.1@)
        } else {
            None
        };
    if user_tags(rows, ids).contains(tag) {
        text::lemma_filter_map_source(rows, f, tag);
        let i = choose|i: int| 0 <= i < rows.len() && f(#[trigger] rows[i]) == Some(tag);
        assert(rows[i].1@ == tag);
    }
    if exists|i: int|
        0 <= i < rows.len() && (#[trigger] rows[i]).1@ == tag && ids.contains(rows[i].0@) {
        let i = choose|i: int|
            0 <= i < rows.len() && (#[trigger] rows[i]).1@ == tag && ids.contains(rows[i].0@);
        text::lemma_filter_map_keeps(rows, f, i);
    }
}

/// The identifiers of a recording are its own and those under which its sources are
/// stored.
pub proof fn law_identifiers_of_recording(rows: Seq<SourceRecord>, id: Seq<char>, x: Seq<char>)
    ensures
        stored_ids(rows, id).contains(x) <==> x == id || exists|i: int|
            0 <= i < sources_of(rows, id).len() && (#[trigger] sources_of(
                rows,
                id,
            )[i]).recording_id@ == x,
{
    let s = sources_of(rows, id);
    let all = s.map_values(|r: SourceRecord| r.recording_id@);
    assert(all.push(id)[s.len() as int] == id);
    if stored_ids(rows, id).contains(x) && x != id {
        let i = choose|i: int| 0 <= i < all.push(id).len() && all.push(id)[i] == x;
        assert(s[i].recording_id@ == x);
    }
    if exists|i: int| 0 <= i < s.len() && (#[trigger] s[i]).recording_id@ == x {
        let i = choose|i: int| 0 <= i < s.len() && (#[trigger] s[i]).recording_id@ == x;
        assert(all.push(id)[i] == x);
    }
}

/// Whether a source describes its recording: it is the first local file, or the first
/// source where none is a local file.
pub open spec fn describes_recording(sources: Seq<RawSource>, m: int) -> bool {
    &&& 0 <= m < sources.len()
    &&& (sources[m].source_type@ == "local_file"@ && forall|j: int|
        0 <= j < m ==> (#[trigger] sources[j]).source_type@ != "local_file"@) || (m == 0 && forall|
        j: int,
    |
        0 <= j < sources.len() ==> (#[trigger] sources[j]).source_type@ != "local_file"@)
}

proof fn lemma_describing(sources: Seq<RawSource>, m: int)
    requires
        describes_recording(sources, m),
    ensures
        main_tags(sources) == text::pairs(sources[m].tags@),
{
    let kinds = sources.map_values(|s: RawSource| s.source_type@);
    if sources[m].source_type@ == "local_file"@ {
        assert forall|j: int| 0 <= j < m implies kinds[j] != "local_file"@ by {
            assert(sources[j].source_type@ != "local_file"@);
        }
        text::lemma_first_at_is(kinds, "local_file"@, m);
    } else {
        assert forall|j: int| 0 <= j < kinds.len() implies kinds[j] != "local_file"@ by {
            assert(sources[j].source_type@ != "local_file"@);
        }
        text::lemma_first_at_is(kinds, "local_file"@, kinds.len() as int);
    }
}

/// A recording says of itself what the tags of its describing source say first.
pub proof fn law_recording_says_what_its_file_says(
    r: MemRecording,
    rows: CatalogRows,
    id: Seq<char>,
    m: int,
    v: Seq<char>,
)
    requires
        tells_recording(r, rows, id),
        describes_recording(r.sources@, m),
    ensures
        ({
            let t = text::pairs(r.sources@[m].tags@);
            &&& laws::first_says(t, "TIT2"@, v) ==> r.title@ == v
            &&& laws::first_says(t, "TCON"@, v) <==> text::opt_text(r.genre) == Some(v)
            &&& laws::first_says(t, "TBPM"@, v) <==> text::opt_text(r.bpm) == Some(v)
            &&& laws::first_says(t, "COMM"@, v) <==> text::opt_text(r.comment) == Some(v)
            &&& laws::first_says(t, "TPE1"@, v) <==> text::opt_text(r.artist_credit_name) == Some(v)
            &&& text::texts(r.all_artist_names@).contains(v) <==> laws::first_says(t, "TPE1"@, v)
                || exists|list: Seq<char>|
                #[trigger] laws::first_says(t, "TXXX:ARTISTS"@, list) && laws::listed_in(list, v)
            &&& laws::first_says(t, "TDRC"@, v) && v.len() >= 4 ==> text::opt_text(r.release_year)
                == Some(v.take(4))
            &&& r.all_artist_names@.len() == r.artist_ids@.len()
            &&& r.artist_ids@.len() > 0 ==> text::opt_text(r.primary_artist_id) == Some(
                r.artist_ids@[0]@,
            )
        }),
{
    let t = text::pairs(r.sources@[m].tags@);
    lemma_describing(r.sources@, m);
    laws::law_title_is_tagged(t, v);
    laws::law_first_tag_counts(t, "TCON"@);
    laws::law_first_tag_counts(t, "TBPM"@);
    laws::law_first_tag_counts(t, "COMM"@);
    laws::law_first_tag_counts(t, "TPE1"@);
    laws::law_tags_name_artists(t, v);
    laws::law_year_is_front_of_date(t, v);
    if laws::first_says(t, "TDRC"@, v) && v.len() >= 4 {
        assert(described::year_of(t)->0 =~= v.take(4));
    }
    assert(text::texts(r.all_artist_names@).len() == r.all_artist_names@.len());
    assert(text::texts(r.artist_ids@).len() == r.artist_ids@.len());
    if r.artist_ids@.len() > 0 {
        assert(text::texts(r.artist_ids@)[0] == r.artist_ids@[0]@);
    }
}

/// A source in the catalogue carries what is stored of it: its identifier, path,
/// duration and tags, and its rating.
pub proof fn law_sources_carry_what_is_stored(
    r: MemRecording,
    rows: CatalogRows,
    id: Seq<char>,
    i: int,
)
    requires
        tells_recording(r, rows, id),
        0 <= i < r.sources@.len(),
    ensures
        exists|k: int|
            0 <= k < rows.sources@.len() && {
                let row = #[trigger] rows.sources@[k];
                let s = r.sources@[i];
                &&& s.id@ == row.id@
                &&& s.source_type@ == row.source_type@
                &&& text::opt_text(s.file_path) == text::opt_text(row.file_path)
                &&& text::opt_text(s.format) == text::opt_text(row.format)
                &&& s.duration_ms == row.duration_ms
                &&& s.replay_gain_track_db_bits == row.replay_gain_track_db_bits
                &&& s.replay_gain_track_peak_bits == row.replay_gain_track_peak_bits
                &&& text::pairs(s.tags@) == text::pairs(row.tags@)
                &&& s.rating == rating_of(rows.source_ratings@, row.id@)
            },
        r.sources@[i].duration_ms matches Some(ms) ==> r.duration_ms matches Some(most) && ms
            <= most,
        r.duration_ms matches Some(most) ==> exists|k: int|
            0 <= k < r.sources@.len() && (#[trigger] r.sources@[k]).duration_ms == Some(most),
{
    let stored = sources_of(rows.sources@, id);
    let keep = |x: SourceRecord| recording_key(x) == id;
    assert(tells_source(r.sources@[i], stored[i], rows.source_ratings@));
    lemma_path_order_total();
    assert(stored.contains(stored[i]));
    sorting::lemma_sort_contains(rows_of(rows.sources@, id), path_order(), stored[i]);
    rows.sources@.lemma_filter_contains_rev(keep, stored[i]);
    let k = choose|k: int| 0 <= k < rows.sources@.len() && rows.sources@[k] == stored[i];
    assert(rows.sources@[k].id@ == r.sources@[i].id@);
    let f = |s: RawSource| s.duration_ms;
    let all = r.sources@.filter_map(f);
    law_greatest_is_a_bound(all);
    if let Some(ms) = r.sources@[i].duration_ms {
        text::lemma_filter_map_keeps(r.sources@, f, i);
        let j = choose|j: int| 0 <= j < all.len() && all[j] == ms;
        assert(all[j] <= greatest(all)->0);
    }
    if let Some(most) = r.duration_ms {
        text::lemma_filter_map_source(r.sources@, f, most);
    }
}

/// Plays that no number can hold are counted up to the largest there is, and down to the
/// smallest.
pub proof fn law_plays_stop_at_the_largest(
    plays: Seq<PlayRecord>,
    p: PlayRecord,
    ids: Seq<Seq<char>>,
)
    requires
        ids.contains(p.recording_id@),
        p.last_played is Some,
    ensures
        plays_of(plays, ids).0 + p.play_count > i64::MAX ==> plays_of(plays.push(p), ids).0
            == i64::MAX,
        plays_of(plays, ids).0 + p.play_count < i64::MIN ==> plays_of(plays.push(p), ids).0
            == i64::MIN,
{
    assert(plays.push(p).drop_last() =~= plays);
}

} // verus!
