//! Evaluating smart-playlist queries over the catalogue in memory.
use vstd::prelude::*;
use vstd::utf8::*;
use crate::calendar;
use crate::calendar::sqlite_datetime_to_unix;
use crate::query::{
    CmpOp, Expr, ExprModel, LastPlayedDir, Predicate, PredicateModel, StrOp, TimeUnit,
};
use crate::text;
use crate::text::{chars_of, contains_part, contains_text, parse_number, same_text, lower_text};
use super::MemRecording;

verus! {

// ── Meaning ──────────────────────────────────────────────────────────────────

/// Whether a comparison holds.
pub open spec fn compares(op: CmpOp, a: i64, b: i64) -> bool {
    match op {
        CmpOp::Gte => a >= b,
        CmpOp::Lte => a <= b,
        CmpOp::Gt => a > b,
        CmpOp::Lt => a < b,
        CmpOp::Eq => a == b,
        CmpOp::Ne => a != b,
    }
}

/// Whether a text is, or contains, another, without regard to case.
pub open spec fn matches_text(op: StrOp, haystack: Seq<char>, needle: Seq<char>) -> bool {
    match op {
        StrOp::Is => text::lowercase(haystack) == text::lowercase(needle),
        StrOp::Contains => text::has_part(text::lowercase(haystack), text::lowercase(needle)),
    }
}

/// A span of time in days; a month has 30 days and a year 365.
pub open spec fn span_days(n: i64, unit: TimeUnit) -> int {
    match unit {
        TimeUnit::Days => n as int,
        TimeUnit::Weeks => n * 7,
        TimeUnit::Months => n * 30,
        TimeUnit::Years => n * 365,
    }
}

/// The moment that lies a span of time before `now`, in seconds.
pub open spec fn moment_before(now: i64, n: i64, unit: TimeUnit) -> int {
    now - span_days(n, unit) * 86400
}

/// Whether a recording was played since a moment. A time that cannot be read
/// counts as never.
pub open spec fn played_since(last_played: Option<String>, moment: int) -> bool {
    match last_played {
        None => false,
        Some(s) => match calendar::datetime_seconds(encode_utf8(s@)) {
            Some(t) => t >= moment,
            None => false,
        },
    }
}

/// Whether a recording is in a playlist.
pub open spec fn in_playlist(
    playlists: Seq<(String, String)>,
    name: Seq<char>,
    id: Seq<char>,
) -> bool {
    text::pairs(playlists).contains((name, id))
}

/// The rating of a release group, cut down to a whole number.
pub open spec fn album_stars(albums: Seq<(String, i64)>, id: Option<String>) -> Option<i64> {
    match id {
        None => None,
        Some(s) => first_stars(albums, s@),
    }
}

/// The number that stands beside the first entry under `id`.
pub open spec fn first_stars(albums: Seq<(String, i64)>, id: Seq<char>) -> Option<i64>
    decreases albums.len(),
{
    if albums.len() == 0 {
        None
    } else if albums[0].0@ == id {
        Some(albums[0].1)
    } else {
        first_stars(albums.skip(1), id)
    }
}

/// Whether a predicate holds of a recording.
pub open spec fn predicate_holds(
    p: PredicateModel,
    rec: MemRecording,
    playlists: Seq<(String, String)>,
    albums: Seq<(String, i64)>,
    now: i64,
) -> bool {
    match p {
        PredicateModel::RatingNull => super::recording_rating(rec) is None,
        PredicateModel::Rating(op, n) => match super::recording_rating(rec) {
            Some(m) => compares(op, super::saturated(super::rounded(m)) as i64, n),
            None => false,
        },
        PredicateModel::AlbumRating(op, n) => match album_stars(albums, rec.release_group_id) {
            Some(stars) => compares(op, stars, n),
            None => false,
        },
        PredicateModel::LastPlayed(dir, n, unit) => match dir {
            LastPlayedDir::InLast => played_since(rec.last_played, moment_before(now, n, unit)),
            LastPlayedDir::NotInLast => !played_since(
                rec.last_played,
                moment_before(now, n, unit),
            ),
        },
        PredicateModel::PlayCount(op, n) => compares(op, rec.play_count, n),
        PredicateModel::InPlaylist(name) => in_playlist(playlists, name, rec.id@),
        PredicateModel::NotInPlaylist(name) => !in_playlist(playlists, name, rec.id@),
        PredicateModel::HasTag(tag) => text::texts(rec.tags@).contains(tag),
        PredicateModel::Title(op, s) => matches_text(op, rec.title@, s),
        PredicateModel::Artist(op, s) => exists|i: int|
            0 <= i < rec.all_artist_names@.len() && matches_text(
                op,
                (#[trigger] rec.all_artist_names@[i])@,
                s,
            ),
        PredicateModel::Genre(op, s) => match rec.genre {
            Some(g) => matches_text(op, g@, s),
            None => false,
        },
        PredicateModel::Year(op, n) => match rec.release_year {
            Some(y) => match text::number(y@) {
                Some(year) => compares(op, year, n),
                None => false,
            },
            None => false,
        },
    }
}

/// Whether an expression holds of a recording.
pub open spec fn expr_holds(
    e: ExprModel,
    rec: MemRecording,
    playlists: Seq<(String, String)>,
    albums: Seq<(String, i64)>,
    now: i64,
) -> bool
    decreases e,
{
    match e {
        ExprModel::And(a, b) => expr_holds(*a, rec, playlists, albums, now) && expr_holds(
            *b,
            rec,
            playlists,
            albums,
            now,
        ),
        ExprModel::Or(a, b) => expr_holds(*a, rec, playlists, albums, now) || expr_holds(
            *b,
            rec,
            playlists,
            albums,
            now,
        ),
        ExprModel::Not(a) => !expr_holds(*a, rec, playlists, albums, now),
        ExprModel::Pred(p) => predicate_holds(p, rec, playlists, albums, now),
    }
}

/// Whether the moments that a predicate speaks of can be counted in seconds.
pub open spec fn predicate_in_range(p: PredicateModel, now: i64) -> bool {
    match p {
        PredicateModel::LastPlayed(_, n, unit) => {
            &&& i64::MIN <= span_days(n, unit) * 86400 <= i64::MAX
            &&& i64::MIN <= moment_before(now, n, unit) <= i64::MAX
        },
        _ => true,
    }
}

/// Whether the moments that an expression speaks of can be counted in seconds.
pub open spec fn expr_in_range(e: ExprModel, now: i64) -> bool
    decreases e,
{
    match e {
        ExprModel::And(a, b) => expr_in_range(*a, now) && expr_in_range(*b, now),
        ExprModel::Or(a, b) => expr_in_range(*a, now) && expr_in_range(*b, now),
        ExprModel::Not(a) => expr_in_range(*a, now),
        ExprModel::Pred(p) => predicate_in_range(p, now),
    }
}

// ── Evaluator ────────────────────────────────────────────────────────────────

/// Compares two numbers.
pub fn apply_cmp(op: CmpOp, a: i64, b: i64) -> (r: bool)
    ensures
        r == compares(op, a, b),
{
    match op {
        CmpOp::Gte => a >= b,
        CmpOp::Lte => a <= b,
        CmpOp::Gt => a > b,
        CmpOp::Lt => a < b,
        CmpOp::Eq => a == b,
        CmpOp::Ne => a != b,
    }
}

/// Compares two texts without regard to case.
pub fn match_str(op: StrOp, haystack: &str, needle: &str) -> (r: bool)
    ensures
        r == matches_text(op, haystack@, needle@),
{
    let h = lower_text(haystack);
    let n = lower_text(needle);
    match op {
        StrOp::Is => same_text(&h, &n),
        StrOp::Contains => contains_part(&h, &n),
    }
}

fn played_since_moment(last_played: &Option<String>, moment: i64) -> (r: bool)
    ensures
        r == played_since(*last_played, moment as int),
{
    match last_played {
        None => false,
        Some(s) => match sqlite_datetime_to_unix(s) {
            Some(t) => t >= moment,
            None => false,
        },
    }
}

fn is_in_playlist(playlists: &Vec<(String, String)>, name: &str, id: &str) -> (r: bool)
    ensures
        r == in_playlist(playlists@, name@, id@),
{
    let mut i: usize = 0;
    while i < playlists.len()
        invariant
            i <= playlists@.len(),
            forall|k: int| 0 <= k < i ==> text::pairs(playlists@)[k] != (name@, id@),
        decreases playlists@.len() - i,
    {
        if same_text(&playlists[i].0, name) && same_text(&playlists[i].1, id) {
            assert(text::pairs(playlists@)[i as int] == (name@, id@));
            return true;
        }
        i = i + 1;
    }
    false
}

fn stars_of(albums: &Vec<(String, i64)>, id: &Option<String>) -> (r: Option<i64>)
    ensures
        r == album_stars(albums@, *id),
{
    match id {
        None => None,
        Some(s) => {
            let mut i: usize = 0;
            assert(albums@.skip(0) =~= albums@);
            while i < albums.len()
                invariant
                    i <= albums@.len(),
                    *id == Some(*s),
                    first_stars(albums@.skip(i as int), s@) == first_stars(albums@, s@),
                decreases albums@.len() - i,
            {
                proof {
                    assert(albums@.skip(i as int)[0] == albums@[i as int]);
                    assert(albums@.skip(i as int).skip(1) =~= albums@.skip(i + 1));
                }
                if same_text(&albums[i].0, s) {
                    return Some(albums[i].1);
                }
                i = i + 1;
            }
            None
        },
    }
}

fn any_artist_matches(names: &Vec<String>, op: StrOp, s: &str) -> (r: bool)
    ensures
        r == exists|i: int|
            0 <= i < names@.len() && matches_text(op, (#[trigger] names@[i])@, s@),
{
    let mut i: usize = 0;
    while i < names.len()
        invariant
            i <= names@.len(),
            forall|k: int| 0 <= k < i ==> !matches_text(op, (#[trigger] names@[k])@, s@),
        decreases names@.len() - i,
    {
        if match_str(op, &names[i], s) {
            return true;
        }
        i = i + 1;
    }
    false
}

/// Whether a predicate holds of a recording.
pub fn eval_pred(
    pred: &Predicate,
    rec: &MemRecording,
    playlists: &Vec<(String, String)>,
    albums: &Vec<(String, i64)>,
    now: i64,
) -> (r: bool)
    requires
        predicate_in_range(pred@, now),
    ensures
        r == predicate_holds(pred@, *rec, playlists@, albums@, now),
{
    match pred {
        Predicate::RatingNull => rec.avg_rating().is_none(),
        Predicate::Rating(op, n) => match rec.avg_rating() {
            Some(m) => apply_cmp(*op, m.rounded(), *n),
            None => false,
        },
        Predicate::AlbumRating(op, n) => match stars_of(albums, &rec.release_group_id) {
            Some(stars) => apply_cmp(*op, stars, *n),
            None => false,
        },
        Predicate::LastPlayed(dir, n, unit) => {
            let days: i64 = match *unit {
                TimeUnit::Days => *n,
                TimeUnit::Weeks => *n * 7,
                TimeUnit::Months => *n * 30,
                TimeUnit::Years => *n * 365,
            };
            let moment: i64 = now - days * 86400;
            match *dir {
                LastPlayedDir::InLast => played_since_moment(&rec.last_played, moment),
                LastPlayedDir::NotInLast => !played_since_moment(&rec.last_played, moment),
            }
        },
        Predicate::PlayCount(op, n) => apply_cmp(*op, rec.play_count, *n),
        Predicate::InPlaylist(name) => is_in_playlist(playlists, name, &rec.id),
        Predicate::NotInPlaylist(name) => !is_in_playlist(playlists, name, &rec.id),
        Predicate::HasTag(tag) => contains_text(&rec.tags, tag),
        Predicate::Title(op, s) => match_str(*op, &rec.title, s),
        Predicate::Artist(op, s) => any_artist_matches(&rec.all_artist_names, *op, s),
        Predicate::Genre(op, s) => match &rec.genre {
            Some(g) => match_str(*op, g, s),
            None => false,
        },
        Predicate::Year(op, n) => match &rec.release_year {
            Some(y) => match parse_number(&chars_of(y)) {
                Some(year) => apply_cmp(*op, year, *n),
                None => false,
            },
            None => false,
        },
    }
}

/// Whether an expression holds of a recording.
pub fn eval_expr(
    expr: &Expr,
    rec: &MemRecording,
    playlists: &Vec<(String, String)>,
    albums: &Vec<(String, i64)>,
    now: i64,
) -> (r: bool)
    requires
        expr_in_range(expr.model(), now),
    ensures
        r == expr_holds(expr.model(), *rec, playlists@, albums@, now),
    decreases expr,
{
    match expr {
        Expr::And(a, b) => eval_expr(a, rec, playlists, albums, now) && eval_expr(
            b,
            rec,
            playlists,
            albums,
            now,
        ),
        Expr::Or(a, b) => eval_expr(a, rec, playlists, albums, now) || eval_expr(
            b,
            rec,
            playlists,
            albums,
            now,
        ),
        Expr::Not(e) => !eval_expr(e, rec, playlists, albums, now),
        Expr::Pred(pred) => eval_pred(pred, rec, playlists, albums, now),
    }
}

/// Whether [`eval_expr`] accepts an expression: the moments that it speaks of can
/// be counted in seconds.
pub fn can_evaluate(expr: &Expr, now: i64) -> (r: bool)
    ensures
        r == expr_in_range(expr.model(), now),
    decreases expr,
{
    match expr {
        Expr::And(a, b) => can_evaluate(a, now) && can_evaluate(b, now),
        Expr::Or(a, b) => can_evaluate(a, now) && can_evaluate(b, now),
        Expr::Not(e) => can_evaluate(e, now),
        Expr::Pred(pred) => match pred {
            Predicate::LastPlayed(_, n, unit) => {
                let days: i128 = match *unit {
                    TimeUnit::Days => *n as i128,
                    TimeUnit::Weeks => *n as i128 * 7,
                    TimeUnit::Months => *n as i128 * 30,
                    TimeUnit::Years => *n as i128 * 365,
                };
                let seconds: i128 = days * 86400;
                let moment: i128 = now as i128 - seconds;
                i64::MIN as i128 <= seconds && seconds <= i64::MAX as i128 && i64::MIN as i128
                    <= moment && moment <= i64::MAX as i128
            },
            _ => true,
        },
    }
}

// ── Laws ─────────────────────────────────────────────────────────────────────

/// A recording was played in the last span of time or it was not, never both.
pub proof fn law_last_played_is_decided(
    rec: MemRecording,
    playlists: Seq<(String, String)>,
    albums: Seq<(String, i64)>,
    now: i64,
    n: i64,
    unit: TimeUnit,
)
    ensures
        predicate_holds(
            PredicateModel::LastPlayed(LastPlayedDir::InLast, n, unit),
            rec,
            playlists,
            albums,
            now,
        ) != predicate_holds(
            PredicateModel::LastPlayed(LastPlayedDir::NotInLast, n, unit),
            rec,
            playlists,
            albums,
            now,
        ),
{
}

/// A recording is in a playlist or it is not, never both.
pub proof fn law_playlist_is_decided(
    rec: MemRecording,
    playlists: Seq<(String, String)>,
    albums: Seq<(String, i64)>,
    now: i64,
    name: Seq<char>,
)
    ensures
        predicate_holds(PredicateModel::InPlaylist(name), rec, playlists, albums, now)
            != predicate_holds(PredicateModel::NotInPlaylist(name), rec, playlists, albums, now),
{
}

/// No comparison with stars holds of a recording without a rating.
pub proof fn law_unrated_compares_with_nothing(
    rec: MemRecording,
    playlists: Seq<(String, String)>,
    albums: Seq<(String, i64)>,
    now: i64,
    op: CmpOp,
    n: i64,
)
    requires
        predicate_holds(PredicateModel::RatingNull, rec, playlists, albums, now),
    ensures
        !predicate_holds(PredicateModel::Rating(op, n), rec, playlists, albums, now),
{
}

/// A recording of a year is compared with a number by that year.
pub proof fn law_year_is_compared(
    rec: MemRecording,
    playlists: Seq<(String, String)>,
    albums: Seq<(String, i64)>,
    now: i64,
    y: i64,
    n: i64,
)
    requires
        rec.release_year is Some,
        rec.release_year->0@ == text::signed_decimal(y as int),
    ensures
        predicate_holds(
            PredicateModel::Year(CmpOp::Gte, n),
            rec,
            playlists,
            albums,
            now,
        ) <==> y >= n,
        predicate_holds(
            PredicateModel::Year(CmpOp::Lte, n),
            rec,
            playlists,
            albums,
            now,
        ) <==> y <= n,
        predicate_holds(
            PredicateModel::Year(CmpOp::Gt, n),
            rec,
            playlists,
            albums,
            now,
        ) <==> y > n,
        predicate_holds(
            PredicateModel::Year(CmpOp::Lt, n),
            rec,
            playlists,
            albums,
            now,
        ) <==> y < n,
        predicate_holds(
            PredicateModel::Year(CmpOp::Eq, n),
            rec,
            playlists,
            albums,
            now,
        ) <==> y == n,
        predicate_holds(
            PredicateModel::Year(CmpOp::Ne, n),
            rec,
            playlists,
            albums,
            now,
        ) <==> y != n,
{
    text::law_number_reads_back(y);
}

/// No comparison holds of a recording whose year is unknown or no number.
pub proof fn law_unknown_year_compares_with_nothing(
    rec: MemRecording,
    playlists: Seq<(String, String)>,
    albums: Seq<(String, i64)>,
    now: i64,
    op: CmpOp,
    n: i64,
)
    requires
        rec.release_year matches Some(y) ==> exists|i: int|
            0 <= i < y@.len() && !('0' <= #[trigger] y@[i] <= '9' || y@[i] == '-' || y@[i] == '+'),
    ensures
        !predicate_holds(PredicateModel::Year(op, n), rec, playlists, albums, now),
{
    if let Some(y) = rec.release_year {
        text::law_numbers_are_digits(y@);
    }
}

/// A recording is compared with a number by how often it was played.
pub proof fn law_play_count_is_compared(
    rec: MemRecording,
    playlists: Seq<(String, String)>,
    albums: Seq<(String, i64)>,
    now: i64,
    n: i64,
)
    ensures
        predicate_holds(
            PredicateModel::PlayCount(CmpOp::Gte, n),
            rec,
            playlists,
            albums,
            now,
        ) <==> rec.play_count >= n,
        predicate_holds(
            PredicateModel::PlayCount(CmpOp::Lte, n),
            rec,
            playlists,
            albums,
            now,
        ) <==> rec.play_count <= n,
        predicate_holds(
            PredicateModel::PlayCount(CmpOp::Gt, n),
            rec,
            playlists,
            albums,
            now,
        ) <==> rec.play_count > n,
        predicate_holds(
            PredicateModel::PlayCount(CmpOp::Lt, n),
            rec,
            playlists,
            albums,
            now,
        ) <==> rec.play_count < n,
        predicate_holds(
            PredicateModel::PlayCount(CmpOp::Eq, n),
            rec,
            playlists,
            albums,
            now,
        ) <==> rec.play_count == n,
        predicate_holds(
            PredicateModel::PlayCount(CmpOp::Ne, n),
            rec,
            playlists,
            albums,
            now,
        ) <==> rec.play_count != n,
{
}

/// A recording is compared with stars by the mean of its ratings, rounded to the
/// nearest whole number.
pub proof fn law_rating_is_compared(
    rec: MemRecording,
    playlists: Seq<(String, String)>,
    albums: Seq<(String, i64)>,
    now: i64,
    stars: i64,
    n: i64,
)
    requires
        super::recording_rating(rec) is Some,
        super::recording_rating(rec)->0.sum >= 0,
        2 * stars * super::recording_rating(rec)->0.count <= 2 * super::recording_rating(rec)->0.sum
            + super::recording_rating(rec)->0.count < 2 * (stars + 1) * super::recording_rating(
            rec,
        )->0.count,
    ensures
        predicate_holds(
            PredicateModel::Rating(CmpOp::Gte, n),
            rec,
            playlists,
            albums,
            now,
        ) <==> stars >= n,
        predicate_holds(
            PredicateModel::Rating(CmpOp::Lte, n),
            rec,
            playlists,
            albums,
            now,
        ) <==> stars <= n,
        predicate_holds(
            PredicateModel::Rating(CmpOp::Gt, n),
            rec,
            playlists,
            albums,
            now,
        ) <==> stars > n,
        predicate_holds(
            PredicateModel::Rating(CmpOp::Lt, n),
            rec,
            playlists,
            albums,
            now,
        ) <==> stars < n,
        predicate_holds(
            PredicateModel::Rating(CmpOp::Eq, n),
            rec,
            playlists,
            albums,
            now,
        ) <==> stars == n,
        predicate_holds(
            PredicateModel::Rating(CmpOp::Ne, n),
            rec,
            playlists,
            albums,
            now,
        ) <==> stars != n,
        !predicate_holds(PredicateModel::RatingNull, rec, playlists, albums, now),
{
    let m = super::recording_rating(rec)->0;
    let c = m.count as int;
    let r = super::rounded(m);
    assert(c > 0) by (nonlinear_arith)
        requires
            c >= 0,
            2 * stars * c < 2 * (stars + 1) * c,
    ;
    super::laws::law_rounding_is_nearest(m);
    assert(r == stars) by (nonlinear_arith)
        requires
            c > 0,
            2 * stars * c < 2 * (r + 1) * c,
            2 * r * c < 2 * (stars + 1) * c,
    ;
}

/// A recording is unrated exactly where none of its sources is rated.
pub proof fn law_unrated_has_no_rated_source(
    rec: MemRecording,
    playlists: Seq<(String, String)>,
    albums: Seq<(String, i64)>,
    now: i64,
)
    ensures
        predicate_holds(PredicateModel::RatingNull, rec, playlists, albums, now) <==> forall|i: int|
            0 <= i < rec.sources@.len() ==> (#[trigger] rec.sources@[i]).rating is None,
{
    if forall|i: int|
        0 <= i < rec.sources@.len() ==> (#[trigger] rec.sources@[i]).rating is None {
        super::laws::law_nothing_is_unrated(rec);
    } else {
        let i = choose|i: int|
            0 <= i < rec.sources@.len() && (#[trigger] rec.sources@[i]).rating is Some;
        text::lemma_filter_map_keeps(rec.sources@, |s: super::RawSource| s.rating, i);
    }
}

/// An album is compared with a number by its stars; a recording without an album, or
/// on one without stars, compares with nothing.
pub proof fn law_album_rating_is_compared(
    rec: MemRecording,
    playlists: Seq<(String, String)>,
    albums: Seq<(String, i64)>,
    now: i64,
    k: int,
    n: i64,
)
    requires
        rec.release_group_id is Some,
        0 <= k < albums.len(),
        albums[k].0@ == rec.release_group_id->0@,
        forall|j: int| 0 <= j < k ==> (#[trigger] albums[j]).0@ != rec.release_group_id->0@,
    ensures
        predicate_holds(
            PredicateModel::AlbumRating(CmpOp::Gte, n),
            rec,
            playlists,
            albums,
            now,
        ) <==> albums[k].1 >= n,
        predicate_holds(
            PredicateModel::AlbumRating(CmpOp::Lte, n),
            rec,
            playlists,
            albums,
            now,
        ) <==> albums[k].1 <= n,
        predicate_holds(
            PredicateModel::AlbumRating(CmpOp::Gt, n),
            rec,
            playlists,
            albums,
            now,
        ) <==> albums[k].1 > n,
        predicate_holds(
            PredicateModel::AlbumRating(CmpOp::Lt, n),
            rec,
            playlists,
            albums,
            now,
        ) <==> albums[k].1 < n,
        predicate_holds(
            PredicateModel::AlbumRating(CmpOp::Eq, n),
            rec,
            playlists,
            albums,
            now,
        ) <==> albums[k].1 == n,
        predicate_holds(
            PredicateModel::AlbumRating(CmpOp::Ne, n),
            rec,
            playlists,
            albums,
            now,
        ) <==> albums[k].1 != n,
{
    lemma_first_stars(albums, rec.release_group_id->0@, k);
}

proof fn lemma_first_stars(albums: Seq<(String, i64)>, id: Seq<char>, k: int)
    requires
        0 <= k <= albums.len(),
        k < albums.len() ==> albums[k].0@ == id,
        forall|j: int| 0 <= j < k ==> (#[trigger] albums[j]).0@ != id,
    ensures
        first_stars(albums, id) == if k < albums.len() {
            Some(albums[k].1)
        } else {
            None
        },
    decreases albums.len(),
{
    if k > 0 {
        assert(albums[0].0@ != id);
        assert forall|j: int| 0 <= j < k - 1 implies (#[trigger] albums.skip(1)[j]).0@ != id by {
            assert(albums[j + 1].0@ != id);
        }
        lemma_first_stars(albums.skip(1), id, k - 1);
    }
}

/// No comparison holds of the album of a recording that has none, or none with stars.
pub proof fn law_unrated_album_compares_with_nothing(
    rec: MemRecording,
    playlists: Seq<(String, String)>,
    albums: Seq<(String, i64)>,
    now: i64,
    op: CmpOp,
    n: i64,
)
    requires
        rec.release_group_id matches Some(id) ==> forall|j: int|
            0 <= j < albums.len() ==> (#[trigger] albums[j]).0@ != id@,
    ensures
        !predicate_holds(PredicateModel::AlbumRating(op, n), rec, playlists, albums, now),
{
    if let Some(id) = rec.release_group_id {
        lemma_first_stars(albums, id@, albums.len() as int);
    }
}

/// A recording was played in the last days where it was played no longer ago than so
/// many days of 86,400 seconds. Weeks, months and years are 7, 30 and 365 days.
pub proof fn law_last_played_is_counted_in_days(
    rec: MemRecording,
    playlists: Seq<(String, String)>,
    albums: Seq<(String, i64)>,
    now: i64,
    t: int,
    days: i64,
    n: i64,
)
    requires
        rec.last_played is Some,
        calendar::datetime_seconds(encode_utf8(rec.last_played->0@)) == Some(t),
    ensures
        predicate_holds(
            PredicateModel::LastPlayed(LastPlayedDir::InLast, days, TimeUnit::Days),
            rec,
            playlists,
            albums,
            now,
        ) <==> now - t <= days * 86400,
        days == 7 * n ==> predicate_holds(
            PredicateModel::LastPlayed(LastPlayedDir::InLast, n, TimeUnit::Weeks),
            rec,
            playlists,
            albums,
            now,
        ) == (now - t <= days * 86400),
        days == 30 * n ==> predicate_holds(
            PredicateModel::LastPlayed(LastPlayedDir::InLast, n, TimeUnit::Months),
            rec,
            playlists,
            albums,
            now,
        ) == (now - t <= days * 86400),
        days == 365 * n ==> predicate_holds(
            PredicateModel::LastPlayed(LastPlayedDir::InLast, n, TimeUnit::Years),
            rec,
            playlists,
            albums,
            now,
        ) == (now - t <= days * 86400),
{
}

/// A recording that was never played was played in no span of time.
pub proof fn law_never_played(
    rec: MemRecording,
    playlists: Seq<(String, String)>,
    albums: Seq<(String, i64)>,
    now: i64,
    n: i64,
    unit: TimeUnit,
)
    requires
        rec.last_played is None,
    ensures
        !predicate_holds(
            PredicateModel::LastPlayed(LastPlayedDir::InLast, n, unit),
            rec,
            playlists,
            albums,
            now,
        ),
        predicate_holds(
            PredicateModel::LastPlayed(LastPlayedDir::NotInLast, n, unit),
            rec,
            playlists,
            albums,
            now,
        ),
{
}

/// A recording is in the playlists that hold its identifier under their name, and has
/// the tags that it carries.
pub proof fn law_playlists_and_tags_are_looked_up(
    rec: MemRecording,
    playlists: Seq<(String, String)>,
    albums: Seq<(String, i64)>,
    now: i64,
    name: Seq<char>,
)
    ensures
        predicate_holds(PredicateModel::InPlaylist(name), rec, playlists, albums, now) <==> exists|
            i: int,
        |
            0 <= i < playlists.len() && (#[trigger] playlists[i]).0@ == name && playlists[i].1@
                == rec.id@,
        predicate_holds(PredicateModel::HasTag(name), rec, playlists, albums, now) <==> exists|
            i: int,
        |
            0 <= i < rec.tags@.len() && (#[trigger] rec.tags@[i])@ == name,
{
    let all = text::pairs(playlists);
    if all.contains((name, rec.id@)) {
        let i = choose|i: int| 0 <= i < all.len() && all[i] == (name, rec.id@);
        assert(playlists[i].0@ == name);
    }
    if exists|i: int|
        0 <= i < playlists.len() && (#[trigger] playlists[i]).0@ == name && playlists[i].1@
            == rec.id@ {
        let i = choose|i: int|
            0 <= i < playlists.len() && (#[trigger] playlists[i]).0@ == name && playlists[i].1@
                == rec.id@;
        assert(all[i] == (name, rec.id@));
    }
    let tags = text::texts(rec.tags@);
    if tags.contains(name) {
        let i = choose|i: int| 0 <= i < tags.len() && tags[i] == name;
        assert(rec.tags@[i]@ == name);
    }
    if exists|i: int| 0 <= i < rec.tags@.len() && (#[trigger] rec.tags@[i])@ == name {
        let i = choose|i: int| 0 <= i < rec.tags@.len() && (#[trigger] rec.tags@[i])@ == name;
        assert(tags[i] == name);
    }
}

/// Texts are found without regard to case: `is` asks for the whole text, `contains`
/// for a part of it. An artist is found where one of the names fits, and a genre
/// only where there is one.
pub proof fn law_texts_are_found_without_case(
    rec: MemRecording,
    playlists: Seq<(String, String)>,
    albums: Seq<(String, i64)>,
    now: i64,
    s: Seq<char>,
)
    ensures
        predicate_holds(PredicateModel::Title(StrOp::Is, s), rec, playlists, albums, now)
            <==> text::lowercase(rec.title@) == text::lowercase(s),
        predicate_holds(PredicateModel::Title(StrOp::Contains, s), rec, playlists, albums, now)
            <==> exists|a: Seq<char>, b: Seq<char>|
            text::lowercase(rec.title@) == #[trigger] (a + text::lowercase(s) + b),
        predicate_holds(PredicateModel::Artist(StrOp::Is, s), rec, playlists, albums, now)
            <==> exists|i: int|
            0 <= i < rec.all_artist_names@.len() && text::lowercase(
                (#[trigger] rec.all_artist_names@[i])@,
            ) == text::lowercase(s),
        predicate_holds(PredicateModel::Artist(StrOp::Contains, s), rec, playlists, albums, now)
            <==> exists|i: int|
            0 <= i < rec.all_artist_names@.len() && has_inside(
                text::lowercase((#[trigger] rec.all_artist_names@[i])@),
                text::lowercase(s),
            ),
        predicate_holds(PredicateModel::Genre(StrOp::Is, s), rec, playlists, albums, now) <==> (
        rec.genre matches Some(g) && text::lowercase(g@) == text::lowercase(s)),
        predicate_holds(PredicateModel::Genre(StrOp::Contains, s), rec, playlists, albums, now)
            <==> (rec.genre matches Some(g) && has_inside(
            text::lowercase(g@),
            text::lowercase(s),
        )),
{
    text::law_part_stands_inside(text::lowercase(rec.title@), text::lowercase(s));
    if let Some(g) = rec.genre {
        text::law_part_stands_inside(text::lowercase(g@), text::lowercase(s));
    }
    assert forall|i: int| 0 <= i < rec.all_artist_names@.len() implies matches_text(
        StrOp::Contains,
        (#[trigger] rec.all_artist_names@[i])@,
        s,
    ) == has_inside(text::lowercase(rec.all_artist_names@[i]@), text::lowercase(s)) by {
        text::law_part_stands_inside(
            text::lowercase(rec.all_artist_names@[i]@),
            text::lowercase(s),
        );
    }
    let names = rec.all_artist_names@;
    if predicate_holds(PredicateModel::Artist(StrOp::Contains, s), rec, playlists, albums, now) {
        let i = choose|i: int|
            0 <= i < names.len() && matches_text(StrOp::Contains, (#[trigger] names[i])@, s);
        assert(has_inside(text::lowercase(names[i]@), text::lowercase(s)));
    }
    if exists|i: int|
        0 <= i < names.len() && has_inside(
            text::lowercase((#[trigger] names[i])@),
            text::lowercase(s),
        ) {
        let i = choose|i: int|
            0 <= i < names.len() && has_inside(
                text::lowercase((#[trigger] names[i])@),
                text::lowercase(s),
            );
        assert(matches_text(StrOp::Contains, names[i]@, s));
    }
    if predicate_holds(PredicateModel::Artist(StrOp::Is, s), rec, playlists, albums, now) {
        let i = choose|i: int|
            0 <= i < names.len() && matches_text(StrOp::Is, (#[trigger] names[i])@, s);
        assert(text::lowercase(names[i]@) == text::lowercase(s));
    }
    if exists|i: int|
        0 <= i < names.len() && text::lowercase((#[trigger] names[i])@) == text::lowercase(s) {
        let i = choose|i: int|
            0 <= i < names.len() && text::lowercase((#[trigger] names[i])@) == text::lowercase(s);
        assert(matches_text(StrOp::Is, names[i]@, s));
    }
}

/// Whether a text can be taken apart around another.
pub open spec fn has_inside(s: Seq<char>, part: Seq<char>) -> bool {
    exists|a: Seq<char>, b: Seq<char>| s == #[trigger] (a + part + b)
}

/// Conditions are joined as in logic: both, one of them, or the opposite.
pub proof fn law_conditions_are_joined(
    rec: MemRecording,
    playlists: Seq<(String, String)>,
    albums: Seq<(String, i64)>,
    now: i64,
    a: ExprModel,
    b: ExprModel,
    p: PredicateModel,
)
    ensures
        expr_holds(ExprModel::And(Box::new(a), Box::new(b)), rec, playlists, albums, now)
            <==> expr_holds(a, rec, playlists, albums, now) && expr_holds(
            b,
            rec,
            playlists,
            albums,
            now,
        ),
        expr_holds(ExprModel::Or(Box::new(a), Box::new(b)), rec, playlists, albums, now)
            <==> expr_holds(a, rec, playlists, albums, now) || expr_holds(
            b,
            rec,
            playlists,
            albums,
            now,
        ),
        expr_holds(ExprModel::Not(Box::new(a)), rec, playlists, albums, now) <==> !expr_holds(
            a,
            rec,
            playlists,
            albums,
            now,
        ),
        expr_holds(ExprModel::Pred(p), rec, playlists, albums, now) <==> predicate_holds(
            p,
            rec,
            playlists,
            albums,
            now,
        ),
{
}

} // verus!
