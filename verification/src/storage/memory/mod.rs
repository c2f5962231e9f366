//! The catalogue held in memory.
//!
//! The catalogue is built from the tags of all sources: recordings, the artists
//! they credit and the release groups they belong to are derived anew each time.
use vstd::prelude::*;
use vstd::utf8::*;
use crate::digest;
use crate::digest::{hex_encode, sha256};
use crate::models::{MeanRating, SourceTagInfo};
use crate::text;
use crate::text::{chars_of, parse_number, same_text, split_chars_limited, lower_text, trim_chars};

pub mod appears;
pub mod artists;
pub mod load;
pub mod described;
pub mod detail;
pub mod eval;
pub mod groups;
pub mod laws;
pub mod lists;
pub mod ratings;
pub mod rows;
pub mod shown;
pub mod smart;
pub mod told;

verus! {

// ── Data ─────────────────────────────────────────────────────────────────────

/// A source of a recording with its tags. The gain and peak are the bit patterns
/// of double-precision numbers.
#[derive(Debug)]
pub struct RawSource {
    pub id: String,
    pub source_type: String,
    pub file_path: Option<String>,
    pub format: Option<String>,
    pub duration_ms: Option<i64>,
    pub replay_gain_track_db_bits: Option<u64>,
    pub replay_gain_track_peak_bits: Option<u64>,
    pub tags: Vec<(String, String)>,
    pub rating: Option<i64>,
}

#[derive(Debug)]
pub struct MemArtist {
    pub id: String,
    pub name: String,
    pub sort_name: String,
}

#[derive(Debug)]
pub struct MemReleaseGroup {
    pub id: String,
    pub title: String,
    pub artist_id: Option<String>,
    pub artist_credit_name: Option<String>,
    pub release_date: Option<String>,
}

/// Where a source places its recording: the release group, the track, the disc and
/// the number of tracks that it claims.
#[derive(Debug)]
pub struct Placed {
    pub id: String,
    pub track: Option<i64>,
    pub disc: Option<i64>,
    pub total: Option<i64>,
}

/// A recording. The first of its artists is the primary one, the others are
/// guests; `bpm` is the text of its tag.
#[derive(Debug)]
pub struct MemRecording {
    pub id: String,
    pub title: String,
    pub duration_ms: Option<i64>,
    pub genre: Option<String>,
    pub bpm: Option<String>,
    pub comment: Option<String>,
    pub sources: Vec<RawSource>,
    pub primary_artist_id: Option<String>,
    pub artist_credit_name: Option<String>,
    pub artist_ids: Vec<String>,
    pub all_artist_names: Vec<String>,
    /// The release group that the describing tags name.
    pub release_group_id: Option<String>,
    /// Where the sources place the recording, each release group once.
    pub placements: Vec<Placed>,
    pub release_year: Option<String>,
    pub play_count: i64,
    pub last_played: Option<String>,
    pub tags: Vec<String>,
}

/// All recordings, artists and release groups, in the order in which they are
/// listed.
#[derive(Debug)]
pub struct MemoryCatalog {
    pub recordings: Vec<MemRecording>,
    pub artists: Vec<MemArtist>,
    pub release_groups: Vec<MemReleaseGroup>,
    /// Playlist names, each with a recording that is in the playlist.
    pub playlists: Vec<(String, String)>,
    pub source_count: i64,
}

// ── Ratings ──────────────────────────────────────────────────────────────────

/// The ratings of sources that have one.
pub open spec fn source_ratings(sources: Seq<RawSource>) -> Seq<i64> {
    sources.filter_map(|s: RawSource| s.rating)
}

/// The sum of numbers.
pub open spec fn sum_of(s: Seq<i64>) -> int
    decreases s.len(),
{
    if s.len() == 0 {
        0
    } else {
        sum_of(s.drop_last()) + s.last()
    }
}

/// The rating of a recording: the mean of the ratings of its sources.
pub open spec fn recording_rating(r: MemRecording) -> Option<MeanRating> {
    let ratings = source_ratings(r.sources@);
    if ratings.len() == 0 {
        None
    } else {
        Some(MeanRating { sum: sum_of(ratings) as i128, count: ratings.len() as u64 })
    }
}

impl MemRecording {
    /// The rating of a recording: the mean of the ratings of its sources.
    pub fn avg_rating(&self) -> (r: Option<MeanRating>)
        ensures
            r == recording_rating(*self),
            r matches Some(m) ==> m.count > 0,
    {
        let ghost f = |s: RawSource| s.rating;
        let mut sum: i128 = 0;
        let mut count: u64 = 0;
        let mut i: usize = 0;
        assert(self.sources@.take(0) =~= Seq::empty());
        while i < self.sources.len()
            invariant
                i <= self.sources@.len(),
                count <= i,
                f == (|s: RawSource| s.rating),
                count == self.sources@.take(i as int).filter_map(f).len(),
                sum == sum_of(self.sources@.take(i as int).filter_map(f)),
                -0x8000_0000_0000_0000 * count <= sum <= 0x7FFF_FFFF_FFFF_FFFF * count,
            decreases self.sources@.len() - i,
        {
            let ghost found = self.sources@.take(i as int).filter_map(f);
            proof {
                self.sources@.lemma_filter_map_take_succ(f, i as int);
            }
            match self.sources[i].rating {
                Some(n) => {
                    proof {
                        assert((found + seq![n]).drop_last() =~= found);
                        assert((found + seq![n]).last() == n);
                    }
                    sum = sum + n as i128;
                    count = count + 1;
                },
                None => {
                    assert(found + Seq::<i64>::empty() =~= found);
                },
            }
            i = i + 1;
        }
        assert(self.sources@.take(self.sources@.len() as int) =~= self.sources@);
        if count == 0 {
            None
        } else {
            Some(MeanRating { sum, count })
        }
    }
}

/// The whole number nearest to a mean, halves away from zero.
pub open spec fn rounded(m: MeanRating) -> int {
    let size = if m.sum >= 0 {
        m.sum as int
    } else {
        -m.sum
    };
    let q = size / m.count as int + if 2 * (size % m.count as int) >= m.count {
        1int
    } else {
        0int
    };
    if m.sum >= 0 {
        q
    } else {
        -q
    }
}

/// A number brought into the range of 64-bit integers.
pub open spec fn saturated(n: int) -> int {
    if n > i64::MAX {
        i64::MAX as int
    } else if n < i64::MIN {
        i64::MIN as int
    } else {
        n
    }
}

impl MeanRating {
    /// The whole number nearest to the mean, halves away from zero.
    pub fn rounded(&self) -> (r: i64)
        requires
            self.count > 0,
        ensures
            r == saturated(rounded(*self)),
    {
        let negative = self.sum < 0;
        let size: u128 = if negative {
            if self.sum == i128::MIN {
                0x8000_0000_0000_0000_0000_0000_0000_0000
            } else {
                (-self.sum) as u128
            }
        } else {
            self.sum as u128
        };
        let count: u128 = self.count as u128;
        let mut q: u128 = size / count;
        if 2 * (size % count) >= count {
            q = q + 1;
        }
        if negative {
            if q >= 0x8000_0000_0000_0000 {
                i64::MIN
            } else {
                -(q as i64)
            }
        } else if q > 0x7FFF_FFFF_FFFF_FFFF {
            i64::MAX
        } else {
            q as i64
        }
    }
}

// ── Tags ─────────────────────────────────────────────────────────────────────

/// The value of the first tag under `key`.
pub open spec fn tag_value(tags: Seq<(Seq<char>, Seq<char>)>, key: Seq<char>) -> Option<Seq<char>>
    decreases tags.len(),
{
    if tags.len() == 0 {
        None
    } else if tags[0].0 == key {
        Some(tags[0].1)
    } else {
        tag_value(tags.skip(1), key)
    }
}

/// The value of the first tag under `key`.
pub fn tag_first<'a>(tags: &'a [(String, String)], key: &str) -> (r: Option<&'a String>)
    ensures
        match r {
            Some(v) => tag_value(text::pairs(tags@), key@) == Some(v@),
            None => tag_value(text::pairs(tags@), key@) is None,
        },
{
    let ghost all = text::pairs(tags@);
    let mut i: usize = 0;
    assert(all.skip(0) =~= all);
    while i < tags.len()
        invariant
            i <= tags@.len(),
            all == text::pairs(tags@),
            tag_value(all.skip(i as int), key@) == tag_value(all, key@),
        decreases tags@.len() - i,
    {
        proof {
            assert(all.skip(i as int)[0] == all[i as int]);
            assert(all.skip(i as int).skip(1) =~= all.skip(i + 1));
        }
        if same_text(&tags[i].0, key) {
            return Some(&tags[i].1);
        }
        i = i + 1;
    }
    None
}

/// The number in a part of `N/M`, blanks around it dropped.
pub open spec fn slash_number(s: Seq<char>, part: int) -> Option<i64> {
    let parts = text::split_limited(s, '/', 2);
    if part < parts.len() {
        text::number(text::trim(parts[part]))
    } else {
        None
    }
}

/// Reads `N` or `N/M` as position and total.
pub fn parse_trck(s: &str) -> (r: (Option<i64>, Option<i64>))
    ensures
        r.0 == slash_number(s@, 0),
        r.1 == slash_number(s@, 1),
{
    let cs = chars_of(s);
    let parts = split_chars_limited(&cs, '/', 2);
    assert(text::pieces(parts@).len() == parts@.len());
    let pos = if parts.len() > 0 {
        parse_number(&trim_chars(&parts[0]))
    } else {
        None
    };
    let total = if parts.len() > 1 {
        parse_number(&trim_chars(&parts[1]))
    } else {
        None
    };
    (pos, total)
}

/// Reads the total of `N/M`.
pub fn parse_trck_total(s: &str) -> (r: Option<i64>)
    ensures
        r == slash_number(s@, 1),
{
    parse_trck(s).1
}

/// Reads the number before the first slash.
pub open spec fn before_slash(s: Seq<char>) -> Option<i64> {
    text::number(text::trim(text::split(s, '/')[0]))
}

/// Reads the number before the first slash.
pub fn parse_before_slash(s: &str) -> (r: Option<i64>)
    ensures
        r == before_slash(s@),
{
    let cs = chars_of(s);
    let n: usize = text::find_char(&cs, '/');
    let piece = text::chars_between(&cs, 0, n);
    assert(piece@ =~= text::split(s@, '/')[0]);
    parse_number(&trim_chars(&piece))
}

/// An identifier made from a hash: its first eight bytes in hexadecimal digits.
pub open spec fn hash_id(kind: Seq<char>, hash: Seq<u8>) -> Seq<char> {
    "mem-"@ + kind + "-"@ + digest::hex_text(hash.take(8))
}

/// An identifier made from a name, by way of the SHA-256 of the lower-case name.
pub open spec fn hashed_name(kind: Seq<char>, key: Seq<char>) -> Seq<char> {
    hash_id(kind, digest::sha256_of(encode_utf8(text::trim(text::lowercase(key)))))
}

/// An identifier made from a hash.
pub fn id_from_hash(kind: &str, hash: &Vec<u8>) -> (r: String)
    requires
        hash@.len() >= 8,
    ensures
        r@ == hash_id(kind@, hash@),
{
    let front = vstd::slice::slice_subrange(hash.as_slice(), 0, 8);
    assert(front@ =~= hash@.take(8));
    let mut r = "mem-".to_owned();
    r.append(kind);
    r.append("-");
    r.append(&hex_encode(front));
    r
}

/// An identifier made from a name.
pub fn name_hash(kind: &str, key: &str) -> (r: String)
    ensures
        r@ == hashed_name(kind@, key@),
{
    let name = text::trimmed(&lower_text(key));
    let hash = sha256(name.as_str().as_bytes());
    id_from_hash(kind, &hash)
}

/// Whether the lower-case name begins with an article of so many characters.
pub open spec fn has_article(name: Seq<char>, article: Seq<char>) -> bool {
    article.is_prefix_of(text::lowercase(name)) && name.len() >= article.len()
}

/// A name with its leading article moved to the end.
pub open spec fn sort_name_of(name: Seq<char>) -> Seq<char> {
    if has_article(name, "the "@) {
        name.skip(4) + ", The"@
    } else if has_article(name, "a "@) {
        name.skip(2) + ", A"@
    } else if has_article(name, "an "@) {
        name.skip(3) + ", An"@
    } else {
        name
    }
}

/// Moves the leading article of a name to the end.
pub fn derive_sort_name(name: &str) -> (r: String)
    ensures
        r@ == sort_name_of(name@),
{
    proof {
        reveal_strlit("the ");
        reveal_strlit("a ");
        reveal_strlit("an ");
    }
    let cs = chars_of(name);
    let lower = lower_text(name);
    if text::starts_with(&lower, "the ") && cs.len() >= 4 {
        let mut r = name.substring_char(4, cs.len()).to_owned();
        assert(r@ =~= name@.skip(4));
        r.append(", The");
        r
    } else if text::starts_with(&lower, "a ") && cs.len() >= 2 {
        let mut r = name.substring_char(2, cs.len()).to_owned();
        assert(r@ =~= name@.skip(2));
        r.append(", A");
        r
    } else if text::starts_with(&lower, "an ") && cs.len() >= 3 {
        let mut r = name.substring_char(3, cs.len()).to_owned();
        assert(r@ =~= name@.skip(3));
        r.append(", An");
        r
    } else {
        name.to_owned()
    }
}

/// The name under which a tag is shown.
pub open spec fn shown_field(frame_id: Seq<char>) -> Seq<char> {
    if frame_id == "TIT2"@ {
        "Title"@
    } else if frame_id == "TPE1"@ {
        "Artist"@
    } else if frame_id == "TPE2"@ {
        "Album Artist"@
    } else if frame_id == "TALB"@ {
        "Album"@
    } else if frame_id == "TRCK"@ {
        "Track Number"@
    } else if frame_id == "TPOS"@ {
        "Disc Number"@
    } else if frame_id == "TYER"@ || frame_id == "TDRC"@ {
        "Year"@
    } else if frame_id == "TCON"@ {
        "Genre"@
    } else if frame_id == "TBPM"@ {
        "BPM"@
    } else if frame_id == "COMM"@ {
        "Comment"@
    } else if frame_id == "TSOP"@ {
        "Performer Sort Order"@
    } else if "TXXX:"@.is_prefix_of(frame_id) {
        "User Text ("@ + frame_id.skip(5) + ")"@
    } else {
        frame_id
    }
}

/// The name under which a tag is shown.
pub fn id3_field_name(frame_id: &str) -> (r: String)
    ensures
        r@ == shown_field(frame_id@),
{
    if same_text(frame_id, "TIT2") {
        "Title".to_owned()
    } else if same_text(frame_id, "TPE1") {
        "Artist".to_owned()
    } else if same_text(frame_id, "TPE2") {
        "Album Artist".to_owned()
    } else if same_text(frame_id, "TALB") {
        "Album".to_owned()
    } else if same_text(frame_id, "TRCK") {
        "Track Number".to_owned()
    } else if same_text(frame_id, "TPOS") {
        "Disc Number".to_owned()
    } else if same_text(frame_id, "TYER") || same_text(frame_id, "TDRC") {
        "Year".to_owned()
    } else if same_text(frame_id, "TCON") {
        "Genre".to_owned()
    } else if same_text(frame_id, "TBPM") {
        "BPM".to_owned()
    } else if same_text(frame_id, "COMM") {
        "Comment".to_owned()
    } else if same_text(frame_id, "TSOP") {
        "Performer Sort Order".to_owned()
    } else if text::starts_with(frame_id, "TXXX:") {
        proof {
            reveal_strlit("TXXX:");
        }
        let cs = chars_of(frame_id);
        let mut r = "User Text (".to_owned();
        let rest = frame_id.substring_char(5, cs.len());
        assert(rest@ =~= frame_id@.skip(5));
        r.append(rest);
        r.append(")");
        r
    } else {
        frame_id.to_owned()
    }
}

/// Whether `t` shows a tag.
pub open spec fn shows_tag(t: SourceTagInfo, tag: (String, String)) -> bool {
    &&& t.frame_id == tag.0
    &&& t.field_name@ == shown_field(tag.0@)
    &&& t.value == tag.1
}

/// The tags of a source, as they are shown.
pub fn raw_tags_to_source_tags(tags: &Vec<(String, String)>) -> (r: Vec<SourceTagInfo>)
    ensures
        r@.len() == tags@.len(),
        forall|i: int| 0 <= i < r@.len() ==> shows_tag(#[trigger] r@[i], tags@[i]),
{
    let mut r: Vec<SourceTagInfo> = Vec::new();
    let mut i: usize = 0;
    while i < tags.len()
        invariant
            i <= tags@.len(),
            r@.len() == i,
            forall|k: int| 0 <= k < i ==> shows_tag(#[trigger] r@[k], tags@[k]),
        decreases tags@.len() - i,
    {
        r.push(
            SourceTagInfo {
                frame_id: tags[i].0.clone(),
                field_name: id3_field_name(&tags[i].0),
                value: tags[i].1.clone(),
            },
        );
        i = i + 1;
    }
    r
}

} // verus!
