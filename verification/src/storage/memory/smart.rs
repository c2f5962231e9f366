//! Smart playlists over the catalogue in memory.
use vstd::prelude::*;
use crate::models::{RecordingRow, SmartPlaylistResult};
use crate::query;
use crate::query::{parse, ExprModel, Limit};
use crate::storage::playlist;
use crate::storage::playlist::{apply_limit, can_limit, can_total, pseudo_shuffle, total_duration};
use super::eval;
use super::eval::{can_evaluate, eval_expr};
use super::lists;
use super::MemoryCatalog;

verus! {

/// Why a smart playlist was not evaluated.
#[derive(Debug, Clone, Copy, PartialEq, Eq, Structural)]
pub enum SmartPlaylistError {
    /// The query does not follow the grammar.
    Syntax,
    /// A span of time, a limit or a duration is too large to be counted.
    OutOfRange,
}

/// The places of the recordings of which an expression holds.
pub open spec fn matching(
    c: MemoryCatalog,
    e: ExprModel,
    albums: Seq<(String, i64)>,
    now: i64,
    n: int,
) -> Seq<int>
    decreases n,
{
    if n <= 0 {
        Seq::empty()
    } else if eval::expr_holds(e, c.recordings@[n - 1], c.playlists@, albums, now) {
        matching(c, e, albums, now, n - 1).push(n - 1)
    } else {
        matching(c, e, albums, now, n - 1)
    }
}

/// Whether `rows` list the recordings at some places.
pub open spec fn list_places(rows: Seq<RecordingRow>, c: MemoryCatalog, places: Seq<int>) -> bool {
    &&& rows.len() == places.len()
    &&& forall|i: int|
        0 <= i < rows.len() ==> lists::lists_recording(
            #[trigger] rows[i],
            c.recordings@[places[i]],
            c,
        )
}

/// Whether `rows` are the shuffled rows of all matching recordings.
pub open spec fn are_shuffled_matches(
    rows: Seq<RecordingRow>,
    c: MemoryCatalog,
    e: ExprModel,
    albums: Seq<(String, i64)>,
    now: i64,
) -> bool {
    exists|listed: Seq<RecordingRow>|
        {
            &&& #[trigger] list_places(
                listed,
                c,
                matching(c, e, albums, now, c.recordings@.len() as int),
            )
            &&& rows == playlist::shuffled(listed, now as u64)
        }
}

/// Whether a result is the smart playlist of a query: the matching recordings,
/// shuffled with the time as seed and cut down to the limit.
pub open spec fn is_playlist(
    result: SmartPlaylistResult,
    c: MemoryCatalog,
    q: Seq<char>,
    e: ExprModel,
    limit: Option<Limit>,
    albums: Seq<(String, i64)>,
    now: i64,
) -> bool {
    &&& exists|rows: Seq<RecordingRow>|
        {
            &&& #[trigger] are_shuffled_matches(rows, c, e, albums, now)
            &&& result.recordings@ == rows.take(playlist::kept_count(rows, limit))
        }
    &&& result.total_duration_ms == playlist::total_ms(result.recordings@)
    &&& result.sql@ == "(evaluated in-memory from query: "@ + q + ")"@
}

impl MemoryCatalog {
    /// Evaluates a smart playlist. `albums` holds the rating of each rated release
    /// group, cut down to a whole number.
    pub fn evaluate_smart_playlist(&self, text: &str, albums: &Vec<(String, i64)>, now: i64) -> (r:
        Result<SmartPlaylistResult, SmartPlaylistError>)
        ensures
            match query::grammar::query(text@) {
                None => r == Err::<SmartPlaylistResult, SmartPlaylistError>(
                    SmartPlaylistError::Syntax,
                ),
                Some((e, limit)) => match r {
                    Ok(result) => {
                        &&& eval::expr_in_range(e, now)
                        &&& playlist::limit_fits(limit)
                        &&& is_playlist(result, *self, text@, e, limit, albums@, now)
                    },
                    Err(why) => {
                        &&& why is OutOfRange
                        &&& eval::expr_in_range(e, now) && playlist::limit_fits(limit)
                            ==> exists|rows: Seq<RecordingRow>|
                            #[trigger] are_shuffled_matches(rows, *self, e, albums@, now)
                                && !playlist::durations_fit(rows)
                    },
                },
            },
    {
        let parsed = match parse(text) {
            Ok(p) => p,
            Err(_) => {
                return Err(SmartPlaylistError::Syntax);
            },
        };
        if !can_evaluate(&parsed.expr, now) || !can_limit(parsed.limit) {
            return Err(SmartPlaylistError::OutOfRange);
        }
        let ghost e = parsed.expr.model();
        let mut rows: Vec<RecordingRow> = Vec::new();
        let mut i: usize = 0;
        while i < self.recordings.len()
            invariant
                i <= self.recordings@.len(),
                e == parsed.expr.model(),
                eval::expr_in_range(e, now),
                list_places(rows@, *self, matching(*self, e, albums@, now, i as int)),
            decreases self.recordings@.len() - i,
        {
            let ghost places = matching(*self, e, albums@, now, i as int);
            if eval_expr(&parsed.expr, &self.recordings[i], &self.playlists, albums, now) {
                let ghost before = rows@;
                let row = self.mem_recording_to_row(&self.recordings[i]);
                rows.push(row);
                proof {
                    let more = places.push(i as int);
                    assert forall|k: int| 0 <= k < rows@.len() implies lists::lists_recording(
                        #[trigger] rows@[k],
                        self.recordings@[more[k]],
                        *self,
                    ) by {
                        if k < before.len() {
                            assert(rows@[k] == before[k]);
                        }
                    }
                }
            }
            i = i + 1;
        }
        let ghost listed = rows@;
        pseudo_shuffle(&mut rows, now as u64);
        assert(are_shuffled_matches(rows@, *self, e, albums@, now)) by {
            assert(list_places(
                listed,
                *self,
                matching(*self, e, albums@, now, self.recordings@.len() as int),
            ));
        }
        if !can_total(&rows) {
            return Err(SmartPlaylistError::OutOfRange);
        }
        let ghost all = rows@;
        apply_limit(&mut rows, parsed.limit);
        proof {
            playlist::lemma_kept_durations_fit(all, parsed.limit);
        }
        let total_duration_ms: i64 = total_duration(&rows);
        let mut sql = "(evaluated in-memory from query: ".to_owned();
        sql.append(text);
        sql.append(")");
        Ok(SmartPlaylistResult { recordings: rows, total_duration_ms, sql })
    }
}

// ── Laws ─────────────────────────────────────────────────────────────────────

/// The matching recordings are just those of which the expression holds, each once.
pub proof fn law_matching_is_exact(
    c: MemoryCatalog,
    e: ExprModel,
    albums: Seq<(String, i64)>,
    now: i64,
    n: int,
    k: int,
)
    requires
        0 <= n,
    ensures
        matching(c, e, albums, now, n).contains(k) <==> 0 <= k < n && eval::expr_holds(
            e,
            c.recordings@[k],
            c.playlists@,
            albums,
            now,
        ),
        matching(c, e, albums, now, n).no_duplicates(),
        forall|i: int|
            0 <= i < matching(c, e, albums, now, n).len() ==> 0 <= #[trigger] matching(
                c,
                e,
                albums,
                now,
                n,
            )[i] < n,
    decreases n,
{
    if n > 0 {
        law_matching_is_exact(c, e, albums, now, n - 1, k);
        let before = matching(c, e, albums, now, n - 1);
        let after = matching(c, e, albums, now, n);
        if eval::expr_holds(e, c.recordings@[n - 1], c.playlists@, albums, now) {
            assert(after[before.len() as int] == n - 1);
            if before.contains(k) {
                let i = choose|i: int| 0 <= i < before.len() && before[i] == k;
                assert(after[i] == k);
            }
            if after.contains(k) && k != n - 1 {
                let i = choose|i: int| 0 <= i < after.len() && after[i] == k;
                assert(before[i] == k);
            }
            assert forall|i: int| 0 <= i < after.len() implies 0 <= #[trigger] after[i] < n by {
                if i < before.len() {
                    assert(after[i] == before[i]);
                }
            }
        }
    }
}

/// A smart playlist lists only recordings of which its expression holds, and without a
/// limit it lists every one of them.
pub proof fn law_playlist_lists_what_matches(
    result: SmartPlaylistResult,
    c: MemoryCatalog,
    q: Seq<char>,
    e: ExprModel,
    limit: Option<Limit>,
    albums: Seq<(String, i64)>,
    now: i64,
    i: int,
    k: int,
)
    requires
        is_playlist(result, c, q, e, limit, albums, now),
    ensures
        0 <= i < result.recordings@.len() ==> exists|m: int|
            0 <= m < c.recordings@.len() && eval::expr_holds(
                e,
                #[trigger] c.recordings@[m],
                c.playlists@,
                albums,
                now,
            ) && result.recordings@[i].id == c.recordings@[m].id && result.recordings@[i].title
                == c.recordings@[m].title,
        limit is None && 0 <= k < c.recordings@.len() && eval::expr_holds(
            e,
            c.recordings@[k],
            c.playlists@,
            albums,
            now,
        ) ==> exists|j: int|
            0 <= j < result.recordings@.len() && (#[trigger] result.recordings@[j]).id
                == c.recordings@[k].id,
{
    let n = c.recordings@.len() as int;
    let places = matching(c, e, albums, now, n);
    let rows = choose|rows: Seq<RecordingRow>|
        {
            &&& #[trigger] are_shuffled_matches(rows, c, e, albums, now)
            &&& result.recordings@ == rows.take(playlist::kept_count(rows, limit))
        };
    let listed = choose|listed: Seq<RecordingRow>|
        {
            &&& #[trigger] list_places(listed, c, places)
            &&& rows == playlist::shuffled(listed, now as u64)
        };
    playlist::law_shuffle_is_permutation(listed, now as u64);
    match limit {
        Some(l) => {
            if l.unit is Tracks {
            } else {
                playlist::law_time_limit(rows, l);
            }
        },
        None => {},
    }
    if 0 <= i < result.recordings@.len() {
        let row = result.recordings@[i];
        assert(rows[i] == row);
        assert(rows.contains(row));
        playlist::lemma_shuffle_contains(listed, now as u64, row);
        let p = choose|p: int| 0 <= p < listed.len() && listed[p] == row;
        law_matching_is_exact(c, e, albums, now, n, places[p]);
        assert(places.contains(places[p]));
        assert(lists::lists_recording(listed[p], c.recordings@[places[p]], c));
        assert(eval::expr_holds(e, c.recordings@[places[p]], c.playlists@, albums, now));
    }
    if limit is None && 0 <= k < n && eval::expr_holds(
        e,
        c.recordings@[k],
        c.playlists@,
        albums,
        now,
    ) {
        law_matching_is_exact(c, e, albums, now, n, k);
        let p = choose|p: int| 0 <= p < places.len() && places[p] == k;
        assert(lists::lists_recording(listed[p], c.recordings@[places[p]], c));
        assert(listed.contains(listed[p]));
        playlist::lemma_shuffle_contains(listed, now as u64, listed[p]);
        let j = choose|j: int| 0 <= j < rows.len() && rows[j] == listed[p];
        assert(result.recordings@[j].id == c.recordings@[k].id);
    }
}

} // verus!
