//! Reading rows of the SQL catalogue.
//!
//! A query packs lists into one column, with NUL between items and U+0001 between
//! the fields of an item.
use vstd::prelude::*;
use crate::models::{MeanRating, RecordingRow, ReleaseInfo};
use crate::query;
use crate::query::grammar::parse;
use crate::query::sql::{can_compile, compile};
use crate::query::Limit;
use crate::storage::memory::smart::SmartPlaylistError;
use crate::text;
use crate::text::{chars_of, parse_number, split_chars, split_chars_limited, string_from_chars};

verus! {

/// The columns of a recording.
#[derive(Debug)]
pub struct RecordingColumns {
    pub id: String,
    pub title: String,
    pub duration_ms: Option<i64>,
    pub primary_artist_id: Option<String>,
    pub artist_credit_name: Option<String>,
    pub genre: Option<String>,
    pub rating: Option<i64>,
    pub play_count: Option<i64>,
    pub last_played: Option<String>,
    pub primary_source_id: Option<String>,
    pub primary_source_path: Option<String>,
    pub tags_raw: Option<String>,
    pub artist_ids_raw: Option<String>,
    pub source_paths_raw: Option<String>,
    pub releases_raw: Option<String>,
}

/// The items of a packed list; empty items are dropped.
pub open spec fn items(raw: Option<String>) -> Seq<Seq<char>> {
    match raw {
        None => Seq::empty(),
        Some(s) => text::split(s@, '\0').filter(|p: Seq<char>| p.len() > 0),
    }
}

/// The field at a position, or the empty text.
pub open spec fn field(parts: Seq<Seq<char>>, i: int) -> Seq<char> {
    if i < parts.len() {
        parts[i]
    } else {
        Seq::empty()
    }
}

/// Whether `r` holds the fields of a packed release.
pub open spec fn unpacks_release(r: ReleaseInfo, item: Seq<char>) -> bool {
    let parts = text::split_limited(item, '\u{1}', 5);
    &&& r.release_group_id@ == field(parts, 0)
    &&& r.release_group_title@ == field(parts, 1)
    &&& r.track_position == text::number(field(parts, 2))
    &&& r.disc_position == text::number(field(parts, 3))
    &&& r.disc_total == text::number(field(parts, 4))
}

/// Whether `r` holds what the columns say.
pub open spec fn unpacks(r: RecordingRow, c: RecordingColumns) -> bool {
    &&& r.id == c.id
    &&& r.title == c.title
    &&& r.duration_ms == c.duration_ms
    &&& r.primary_artist_id == c.primary_artist_id
    &&& r.artist_credit_name == c.artist_credit_name
    &&& r.genre == c.genre
    &&& r.rating == match c.rating {
        Some(n) => Some(MeanRating { sum: n as i128, count: 1 }),
        None => None,
    }
    &&& r.play_count == match c.play_count {
        Some(n) => n,
        None => 0,
    }
    &&& r.last_played == c.last_played
    &&& r.primary_source_id == c.primary_source_id
    &&& r.primary_source_path == c.primary_source_path
    &&& text::texts(r.tags@) == items(c.tags_raw)
    &&& text::texts(r.artist_ids@) == items(c.artist_ids_raw)
    &&& text::texts(r.source_paths@) == items(c.source_paths_raw)
    &&& r.releases@.len() == items(c.releases_raw).len()
    &&& forall|i: int|
        0 <= i < r.releases@.len() ==> unpacks_release(
            #[trigger] r.releases@[i],
            items(c.releases_raw)[i],
        )
}

/// Unpacks a list.
fn unpack_items(raw: &Option<String>) -> (r: Vec<Vec<char>>)
    ensures
        text::pieces(r@) == items(*raw),
{
    let mut r: Vec<Vec<char>> = Vec::new();
    match raw {
        None => {
            assert(text::pieces(r@) =~= items(*raw));
        },
        Some(s) => {
            let cs = chars_of(s);
            let parts = split_chars(&cs, '\0');
            let ghost all = text::pieces(parts@);
            let ghost keep = |p: Seq<char>| p.len() > 0;
            let mut i: usize = 0;
            proof {
                assert(all.take(0) =~= Seq::empty());
                all.take(0).lemma_filter_len(keep);
                assert(text::pieces(r@) =~= all.take(0).filter(keep));
            }
            while i < parts.len()
                invariant
                    i <= parts@.len(),
                    all == text::pieces(parts@),
                    keep == (|p: Seq<char>| p.len() > 0),
                    text::pieces(r@) == all.take(i as int).filter(keep),
                decreases parts@.len() - i,
            {
                proof {
                    assert(all.take(i + 1) =~= all.take(i as int).push(all[i as int]));
                    all.take(i as int).lemma_filter_push(all[i as int], keep);
                }
                let ghost before = text::pieces(r@);
                if parts[i].len() > 0 {
                    let piece = text::chars_between(&parts[i], 0, parts[i].len());
                    assert(piece@ =~= all[i as int]);
                    r.push(piece);
                    assert(text::pieces(r@) =~= before.push(all[i as int]));
                }
                i = i + 1;
            }
            assert(all.take(all.len() as int) =~= all);
        },
    }
    r
}

/// Unpacks a list of strings.
fn unpack_strings(raw: &Option<String>) -> (r: Vec<String>)
    ensures
        text::texts(r@) == items(*raw),
{
    let parts = unpack_items(raw);
    let mut r: Vec<String> = Vec::new();
    let mut i: usize = 0;
    while i < parts.len()
        invariant
            i <= parts@.len(),
            r@.len() == i,
            forall|k: int| 0 <= k < i ==> (#[trigger] r@[k])@ == parts@[k]@,
        decreases parts@.len() - i,
    {
        r.push(string_from_chars(&parts[i]));
        i = i + 1;
    }
    assert(text::texts(r@) =~= text::pieces(parts@));
    r
}

/// The text of the field at a position.
fn field_text(parts: &Vec<Vec<char>>, i: usize) -> (s: String)
    ensures
        s@ == field(text::pieces(parts@), i as int),
{
    if i < parts.len() {
        string_from_chars(&parts[i])
    } else {
        String::new()
    }
}

/// The number in the field at a position.
fn field_number(parts: &Vec<Vec<char>>, i: usize) -> (n: Option<i64>)
    ensures
        n == text::number(field(text::pieces(parts@), i as int)),
{
    if i < parts.len() {
        parse_number(&parts[i])
    } else {
        None
    }
}

/// Turns the columns of a recording into a row.
pub fn parse_recording_row(c: RecordingColumns) -> (r: RecordingRow)
    ensures
        unpacks(r, c),
{
    let tags = unpack_strings(&c.tags_raw);
    let artist_ids = unpack_strings(&c.artist_ids_raw);
    let source_paths = unpack_strings(&c.source_paths_raw);
    let packed = unpack_items(&c.releases_raw);
    let mut releases: Vec<ReleaseInfo> = Vec::new();
    let mut i: usize = 0;
    while i < packed.len()
        invariant
            i <= packed@.len(),
            releases@.len() == i,
            text::pieces(packed@) == items(c.releases_raw),
            forall|k: int|
                0 <= k < i ==> unpacks_release(
                    #[trigger] releases@[k],
                    items(c.releases_raw)[k],
                ),
        decreases packed@.len() - i,
    {
        assert(text::pieces(packed@)[i as int] == packed@[i as int]@);
        let parts = split_chars_limited(&packed[i], '\u{1}', 5);
        let release = ReleaseInfo {
            release_group_id: field_text(&parts, 0),
            release_group_title: field_text(&parts, 1),
            track_position: field_number(&parts, 2),
            disc_position: field_number(&parts, 3),
            disc_total: field_number(&parts, 4),
        };
        releases.push(release);
        i = i + 1;
    }
    assert(text::pieces(packed@).len() == packed@.len());
    RecordingRow {
        id: c.id,
        title: c.title,
        duration_ms: c.duration_ms,
        primary_artist_id: c.primary_artist_id,
        artist_credit_name: c.artist_credit_name,
        genre: c.genre,
        rating: match c.rating {
            Some(n) => Some(MeanRating { sum: n as i128, count: 1 }),
            None => None,
        },
        play_count: match c.play_count {
            Some(n) => n,
            None => 0,
        },
        last_played: c.last_played,
        primary_source_id: c.primary_source_id,
        primary_source_path: c.primary_source_path,
        tags,
        artist_ids,
        source_paths,
        releases,
    }
}

// ── Smart playlists ──────────────────────────────────────────────────────────

/// The part of a smart playlist's statement before its condition.
pub const PLAYLIST_SELECT: &'static str = "WITH
  ph_agg AS (
    SELECT recording_id,
           COUNT(*)       AS play_count,
           MAX(played_at) AS last_played
    FROM play_history
    GROUP BY recording_id
  ),
  src_primary AS (
    SELECT recording_id, MIN(file_path) AS file_path
    FROM source
    WHERE source_type = 'local_file' AND file_path IS NOT NULL
    GROUP BY recording_id
  ),
  tags_agg AS (
    SELECT recording_id, GROUP_CONCAT(tag, char(0)) AS tags_raw
    FROM (SELECT recording_id, tag FROM recording_tag ORDER BY recording_id, tag)
    GROUP BY recording_id
  ),
  source_paths_agg AS (
    SELECT recording_id, GROUP_CONCAT(file_path, char(0)) AS source_paths_raw
    FROM (
      SELECT recording_id, file_path FROM source
      WHERE source_type = 'local_file' AND file_path IS NOT NULL
      ORDER BY recording_id, file_path
    )
    GROUP BY recording_id
  ),
  artists_agg AS (
    SELECT recording_id, GROUP_CONCAT(artist_id, char(0)) AS artist_ids_raw
    FROM (
      SELECT recording_id, artist_id
      FROM recording_artist
      ORDER BY recording_id, position
    )
    GROUP BY recording_id
  ),
  releases_agg AS (
    SELECT recording_id, GROUP_CONCAT(entry, char(0)) AS releases_raw
    FROM (
      SELECT t2.recording_id,
             rg2.id || char(1) ||
             rg2.title || char(1) ||
             COALESCE(CAST(t2.position AS TEXT), '') || char(1) ||
             COALESCE(CAST(m2.position AS TEXT), '') || char(1) ||
             COALESCE(CAST((SELECT MAX(m3.position) FROM medium m3 WHERE m3.release_id = rel2.id) AS TEXT), '') AS entry
      FROM track t2
      JOIN medium m2         ON m2.id = t2.medium_id
      JOIN release rel2      ON rel2.id = m2.release_id
      JOIN release_group rg2 ON rg2.id = rel2.release_group_id
      ORDER BY t2.recording_id, rg2.title, m2.position, t2.position
    )
    GROUP BY recording_id
  )
SELECT r.id, r.title, r.duration_ms, a.id AS primary_artist_id,
       COALESCE(ra.credited_as, a.name) AS artist_credit_name, r.genre,
       ur.stars AS rating, COALESCE(ph.play_count, 0) AS play_count, ph.last_played,
       ps.id AS primary_source_id, sp.file_path AS primary_source_path,
       ta.tags_raw, spa.source_paths_raw, aa.artist_ids_raw, ragg.releases_raw
FROM recording r
LEFT JOIN recording_artist ra ON ra.recording_id = r.id AND ra.position = 0
LEFT JOIN artist a ON a.id = ra.artist_id
LEFT JOIN user_rating ur ON ur.recording_id = r.id
LEFT JOIN ph_agg ph ON ph.recording_id = r.id
LEFT JOIN src_primary sp ON sp.recording_id = r.id
LEFT JOIN source ps ON ps.file_path = sp.file_path
LEFT JOIN tags_agg ta ON ta.recording_id = r.id
LEFT JOIN source_paths_agg spa ON spa.recording_id = r.id
LEFT JOIN artists_agg aa ON aa.recording_id = r.id
LEFT JOIN releases_agg ragg ON ragg.recording_id = r.id
WHERE r.id IN (SELECT spv.id FROM smart_playlist_view spv WHERE ";

/// The part of a smart playlist's statement after its condition.
pub const PLAYLIST_ORDER: &'static str = ")
ORDER BY RANDOM()";

/// The statement that finds the recordings of a smart playlist, in random order,
/// and the limit to apply to them.
pub fn smart_playlist_sql(query_text: &str) -> (r: Result<
    (String, Option<Limit>),
    SmartPlaylistError,
>)
    ensures
        match query::grammar::query(query_text@) {
            None => r == Err::<(String, Option<Limit>), SmartPlaylistError>(
                SmartPlaylistError::Syntax,
            ),
            Some((e, limit)) => if query::sql::expr_fits(e) {
                &&& r is Ok
                &&& r->Ok_0.0@ == PLAYLIST_SELECT@ + query::sql::expr_sql(e) + PLAYLIST_ORDER@
                &&& r->Ok_0.1 == limit
            } else {
                r == Err::<(String, Option<Limit>), SmartPlaylistError>(
                    SmartPlaylistError::OutOfRange,
                )
            },
        },
{
    let parsed = match parse(query_text) {
        Ok(p) => p,
        Err(_) => {
            return Err(SmartPlaylistError::Syntax);
        },
    };
    if !can_compile(&parsed.expr) {
        return Err(SmartPlaylistError::OutOfRange);
    }
    let (condition, limit) = compile(&parsed);
    let mut sql = PLAYLIST_SELECT.to_owned();
    sql.append(&condition);
    sql.append(PLAYLIST_ORDER);
    Ok((sql, limit))
}

// ── Laws ─────────────────────────────────────────────────────────────────────

/// Texts that are packed with a NUL between them come apart again; there is nothing to
/// unpack in an absent column.
pub proof fn law_packed_texts_come_apart(raw: Option<String>, parts: Seq<Seq<char>>)
    requires
        forall|i: int| 0 <= i < parts.len() ==> (#[trigger] parts[i]).len() > 0,
        forall|i: int| 0 <= i < parts.len() ==> !(#[trigger] parts[i]).contains('\0'),
    ensures
        raw is None ==> items(raw).len() == 0,
        raw is Some && raw->0@ == text::joined(parts, seq!['\0']) ==> items(raw) == parts,
{
    let keep = |p: Seq<char>| p.len() > 0;
    reveal(Seq::filter);
    if raw is Some && raw->0@ == text::joined(parts, seq!['\0']) {
        if parts.len() > 0 {
            text::law_joined_parts_split_again(parts, '\0');
            lemma_filter_all(parts, keep);
        } else {
            text::lemma_first_at(raw->0@, '\0');
            assert(raw->0@.len() == 0);
            let all = text::split(raw->0@, '\0');
            assert(all == seq![raw->0@]);
            let none = all.drop_last();
            assert(none.len() == 0 && !keep(all.last()));
            assert(none.filter(keep) =~= Seq::empty());
            assert(all.filter(keep) == none.filter(keep));
            assert(items(raw) =~= parts);
        }
    }
}

proof fn lemma_filter_all<A>(s: Seq<A>, keep: spec_fn(A) -> bool)
    requires
        forall|i: int| 0 <= i < s.len() ==> keep(#[trigger] s[i]),
    ensures
        s.filter(keep) == s,
    decreases s.len(),
{
    reveal(Seq::filter);
    if s.len() > 0 {
        assert forall|i: int| 0 <= i < s.drop_last().len() implies keep(
            #[trigger] s.drop_last()[i],
        ) by {
            assert(s[i] == s.drop_last()[i]);
        }
        lemma_filter_all(s.drop_last(), keep);
        assert(s.drop_last().push(s.last()) =~= s);
    } else {
        assert(s.filter(keep) =~= s);
    }
}

/// A number as it is packed: its digits, or nothing.
pub open spec fn packed_number(n: Option<i64>) -> Seq<char> {
    match n {
        Some(n) => text::signed_decimal(n as int),
        None => Seq::empty(),
    }
}

/// A release that is packed field by field, with an SOH between them, comes apart again.
pub proof fn law_packed_release_comes_apart(
    r: ReleaseInfo,
    id: Seq<char>,
    title: Seq<char>,
    track: Option<i64>,
    disc: Option<i64>,
    discs: Option<i64>,
)
    requires
        !id.contains('\u{1}'),
        !title.contains('\u{1}'),
        unpacks_release(
            r,
            text::joined(
                seq![id, title, packed_number(track), packed_number(disc), packed_number(discs)],
                seq!['\u{1}'],
            ),
        ),
    ensures
        r.release_group_id@ == id,
        r.release_group_title@ == title,
        r.track_position == track,
        r.disc_position == disc,
        r.disc_total == discs,
{
    let parts = seq![id, title, packed_number(track), packed_number(disc), packed_number(discs)];
    lemma_packed_number(track);
    lemma_packed_number(disc);
    lemma_packed_number(discs);
    assert forall|i: int| 0 <= i < parts.len() implies !(#[trigger] parts[i]).contains(
        '\u{1}',
    ) by {
        assert(i == 0 || i == 1 || i == 2 || i == 3 || i == 4);
    }
    text::law_joined_parts_split_again(parts, '\u{1}');
    let s = text::joined(parts, seq!['\u{1}']);
    assert(text::split_limited(s, '\u{1}', 5) == parts);
}

proof fn lemma_packed_number(n: Option<i64>)
    ensures
        text::number(packed_number(n)) == n,
        !packed_number(n).contains('\u{1}'),
{
    if let Some(k) = n {
        text::law_number_reads_back(k);
        text::law_decimal_reads_back((if k < 0 {
            -k
        } else {
            k as int
        }) as nat);
        text::law_numbers_are_digits(text::signed_decimal(k as int));
        let s = text::signed_decimal(k as int);
        assert forall|i: int| 0 <= i < s.len() implies s[i] != '\u{1}' by {}
    }
}

/// A stored recording keeps its columns; its rating is whole, and a play count that is
/// absent is zero.
pub proof fn law_columns_are_kept(r: RecordingRow, c: RecordingColumns)
    requires
        unpacks(r, c),
    ensures
        r.id@ == c.id@,
        r.title@ == c.title@,
        r.duration_ms == c.duration_ms,
        text::opt_text(r.primary_artist_id) == text::opt_text(c.primary_artist_id),
        text::opt_text(r.artist_credit_name) == text::opt_text(c.artist_credit_name),
        text::opt_text(r.genre) == text::opt_text(c.genre),
        r.rating is Some <==> c.rating is Some,
        c.rating is Some ==> r.rating->0.sum == c.rating->0 && r.rating->0.count == 1,
        c.play_count is Some ==> r.play_count == c.play_count->0,
        c.play_count is None ==> r.play_count == 0,
        text::opt_text(r.last_played) == text::opt_text(c.last_played),
        text::opt_text(r.primary_source_id) == text::opt_text(c.primary_source_id),
        text::opt_text(r.primary_source_path) == text::opt_text(c.primary_source_path),
{
}

} // verus!
