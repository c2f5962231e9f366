//! Compiling queries to SQL.
//!
//! A query becomes a condition for
//! `SELECT … FROM smart_playlist_view WHERE {condition}`.
use vstd::prelude::*;
use crate::text;
use crate::text::{chars_of, signed_string, string_from_chars, lower_text};
use super::{
    CmpOp, Expr, ExprModel, LastPlayedDir, Limit, ParsedQuery, Predicate, PredicateModel, StrOp,
    TimeUnit,
};

verus! {

// ── Meaning ──────────────────────────────────────────────────────────────────

/// A character in a `LIKE` pattern with `\` as its escape, inside a SQL string.
pub open spec fn like_char(c: char) -> Seq<char> {
    if c == '\\' || c == '%' || c == '_' {
        seq!['\\', c]
    } else {
        text::quoted_char(c)
    }
}

/// A text in a `LIKE` pattern inside a SQL string.
pub open spec fn like_escaped(s: Seq<char>) -> Seq<char> {
    s.flat_map(|c: char| like_char(c))
}

/// A comparison operator in SQL.
pub open spec fn op_sql(op: CmpOp) -> Seq<char> {
    match op {
        CmpOp::Gte => ">="@,
        CmpOp::Lte => "<="@,
        CmpOp::Gt => ">"@,
        CmpOp::Lt => "<"@,
        CmpOp::Eq => "="@,
        CmpOp::Ne => "!="@,
    }
}

/// A unit of time in SQL, where weeks are counted in days.
pub open spec fn unit_sql(unit: TimeUnit) -> Seq<char> {
    match unit {
        TimeUnit::Days => "days"@,
        TimeUnit::Weeks => "days"@,
        TimeUnit::Months => "months"@,
        TimeUnit::Years => "years"@,
    }
}

/// A count of time units as SQL counts them.
pub open spec fn sql_count(n: i64, unit: TimeUnit) -> int {
    match unit {
        TimeUnit::Weeks => n * 7,
        _ => n as int,
    }
}

/// A span of time in SQL.
pub open spec fn interval_sql(n: i64, unit: TimeUnit) -> Seq<char> {
    text::signed_decimal(sql_count(n, unit)) + " "@ + unit_sql(unit)
}

/// The condition of a predicate.
pub open spec fn predicate_sql(p: PredicateModel) -> Seq<char> {
    match p {
        PredicateModel::RatingNull => "rating IS NULL"@,
        PredicateModel::Rating(op, n) => "rating "@ + op_sql(op) + " "@ + text::signed_decimal(n as int),
        PredicateModel::AlbumRating(op, n) => "album_rating "@ + op_sql(op) + " "@ + text::signed_decimal(n as int),
        PredicateModel::LastPlayed(dir, n, unit) => match dir {
            LastPlayedDir::InLast => "(last_played IS NOT NULL AND last_played >= datetime('now', '-"@
                + interval_sql(n, unit) + "'))"@,
            LastPlayedDir::NotInLast => "(last_played IS NULL OR last_played < datetime('now', '-"@
                + interval_sql(n, unit) + "'))"@,
        },
        PredicateModel::PlayCount(op, n) => "play_count "@ + op_sql(op) + " "@ + text::signed_decimal(n as int),
        PredicateModel::InPlaylist(s) => "id IN (SELECT pt.recording_id FROM playlist_track pt JOIN playlist p ON p.id = pt.playlist_id WHERE p.name = '"@ + text::quotes_doubled(s) + "')"@,
        PredicateModel::NotInPlaylist(s) => "id NOT IN (SELECT pt.recording_id FROM playlist_track pt JOIN playlist p ON p.id = pt.playlist_id WHERE p.name = '"@ + text::quotes_doubled(s) + "')"@,
        PredicateModel::HasTag(s) => "id IN (SELECT recording_id FROM recording_tag WHERE tag = '"@ + text::quotes_doubled(s) + "')"@,
        PredicateModel::Title(op, s) => match op {
            StrOp::Contains => "lower(title) LIKE '%"@ + like_escaped(text::lowercase(s)) + "%' ESCAPE '\\'"@,
            StrOp::Is => "lower(title) = '"@ + text::quotes_doubled(text::lowercase(s)) + "'"@,
        },
        PredicateModel::Artist(op, s) => match op {
            StrOp::Contains => "id IN (SELECT ra.recording_id FROM recording_artist ra JOIN artist a ON a.id = ra.artist_id WHERE lower(COALESCE(ra.credited_as, a.name)) LIKE '%"@ + like_escaped(text::lowercase(s)) + "%' ESCAPE '\\')"@,
            StrOp::Is => "id IN (SELECT ra.recording_id FROM recording_artist ra JOIN artist a ON a.id = ra.artist_id WHERE lower(COALESCE(ra.credited_as, a.name)) = '"@ + text::quotes_doubled(text::lowercase(s)) + "')"@,
        },
        PredicateModel::Genre(op, s) => match op {
            StrOp::Contains => "(genre IS NOT NULL AND lower(genre) LIKE '%"@ + like_escaped(text::lowercase(s)) + "%' ESCAPE '\\')"@,
            StrOp::Is => "lower(genre) = '"@ + text::quotes_doubled(text::lowercase(s)) + "'"@,
        },
        PredicateModel::Year(op, n) => "id IN (SELECT DISTINCT t.recording_id FROM track t JOIN medium m ON m.id = t.medium_id JOIN release rel ON rel.id = m.release_id WHERE rel.release_date IS NOT NULL AND CAST(substr(rel.release_date, 1, 4) AS INTEGER) "@ + op_sql(op) + " "@ + text::signed_decimal(n as int) + ")"@,
    }
}

/// The condition of an expression.
pub open spec fn expr_sql(e: ExprModel) -> Seq<char>
    decreases e,
{
    match e {
        ExprModel::And(a, b) => "("@ + expr_sql(*a) + " AND "@ + expr_sql(*b) + ")"@,
        ExprModel::Or(a, b) => "("@ + expr_sql(*a) + " OR "@ + expr_sql(*b) + ")"@,
        ExprModel::Not(a) => "NOT ("@ + expr_sql(*a) + ")"@,
        ExprModel::Pred(p) => predicate_sql(p),
    }
}

/// Whether every span of weeks of a predicate can be counted in days.
pub open spec fn predicate_fits(p: PredicateModel) -> bool {
    match p {
        PredicateModel::LastPlayed(_, n, unit) => i64::MIN <= sql_count(n, unit) <= i64::MAX,
        _ => true,
    }
}

/// Whether every span of weeks of an expression can be counted in days.
pub open spec fn expr_fits(e: ExprModel) -> bool
    decreases e,
{
    match e {
        ExprModel::And(a, b) => expr_fits(*a) && expr_fits(*b),
        ExprModel::Or(a, b) => expr_fits(*a) && expr_fits(*b),
        ExprModel::Not(a) => expr_fits(*a),
        ExprModel::Pred(p) => predicate_fits(p),
    }
}

// ── Compiler ─────────────────────────────────────────────────────────────────

/// Doubles every single quote, so that a text can stand in a SQL string.
pub fn sql_esc(s: &str) -> (r: String)
    ensures
        r@ == text::quotes_doubled(s@),
{
    let cs = chars_of(s);
    let ghost f = |c: char| text::quoted_char(c);
    let mut out: Vec<char> = Vec::new();
    let mut i: usize = 0;
    assert(cs@.take(0).flat_map(f) =~= Seq::empty());
    while i < cs.len()
        invariant
            i <= cs@.len(),
            f == (|c: char| text::quoted_char(c)),
            out@ == cs@.take(i as int).flat_map(f),
        decreases cs@.len() - i,
    {
        proof {
            cs@.take(i as int).lemma_flat_map_push(f, cs@[i as int]);
            assert(cs@.take(i + 1) =~= cs@.take(i as int).push(cs@[i as int]));
        }
        let ghost before = out@;
        if cs[i] == '\'' {
            out.push('\'');
        }
        out.push(cs[i]);
        assert(out@ =~= before + text::quoted_char(cs@[i as int]));
        i = i + 1;
    }
    assert(cs@.take(cs@.len() as int) =~= cs@);
    string_from_chars(&out)
}

/// Escapes the special characters of a `LIKE` pattern, and single quotes.
pub fn sql_like_esc(s: &str) -> (r: String)
    ensures
        r@ == like_escaped(s@),
{
    let cs = chars_of(s);
    let ghost f = |c: char| like_char(c);
    let mut out: Vec<char> = Vec::new();
    let mut i: usize = 0;
    assert(cs@.take(0).flat_map(f) =~= Seq::empty());
    while i < cs.len()
        invariant
            i <= cs@.len(),
            f == (|c: char| like_char(c)),
            out@ == cs@.take(i as int).flat_map(f),
        decreases cs@.len() - i,
    {
        proof {
            cs@.take(i as int).lemma_flat_map_push(f, cs@[i as int]);
            assert(cs@.take(i + 1) =~= cs@.take(i as int).push(cs@[i as int]));
        }
        let ghost before = out@;
        if cs[i] == '\\' || cs[i] == '%' || cs[i] == '_' {
            out.push('\\');
        } else if cs[i] == '\'' {
            out.push('\'');
        }
        out.push(cs[i]);
        assert(out@ =~= before + like_char(cs@[i as int]));
        i = i + 1;
    }
    assert(cs@.take(cs@.len() as int) =~= cs@);
    string_from_chars(&out)
}

/// A comparison operator in SQL.
pub fn cmp_op_sql(op: CmpOp) -> (r: &'static str)
    ensures
        r@ == op_sql(op),
{
    match op {
        CmpOp::Gte => ">=",
        CmpOp::Lte => "<=",
        CmpOp::Gt => ">",
        CmpOp::Lt => "<",
        CmpOp::Eq => "=",
        CmpOp::Ne => "!=",
    }
}

/// A unit of time in SQL.
fn time_unit_sql(unit: TimeUnit) -> (r: &'static str)
    ensures
        r@ == unit_sql(unit),
{
    match unit {
        TimeUnit::Days => "days",
        TimeUnit::Weeks => "days",
        TimeUnit::Months => "months",
        TimeUnit::Years => "years",
    }
}

/// Appends the condition of an expression.
pub fn compile_expr(expr: &Expr, out: &mut String)
    requires
        expr_fits(expr.model()),
    ensures
        final(out)@ == old(out)@ + expr_sql(expr.model()),
    decreases expr,
{
    match expr {
        Expr::And(a, b) => {
            out.append("(");
            compile_expr(a, out);
            out.append(" AND ");
            compile_expr(b, out);
            out.append(")");
        },
        Expr::Or(a, b) => {
            out.append("(");
            compile_expr(a, out);
            out.append(" OR ");
            compile_expr(b, out);
            out.append(")");
        },
        Expr::Not(e) => {
            out.append("NOT (");
            compile_expr(e, out);
            out.append(")");
        },
        Expr::Pred(pred) => {
            compile_predicate(pred, out);
        },
    }
    assert(out@ =~= old(out)@ + expr_sql(expr.model()));
}

/// Appends the condition of a predicate.
pub fn compile_predicate(pred: &Predicate, out: &mut String)
    requires
        predicate_fits(pred@),
    ensures
        final(out)@ == old(out)@ + predicate_sql(pred@),
{
    match pred {
        Predicate::RatingNull => {
            out.append("rating IS NULL");
        },
        Predicate::Rating(op, n) => {
            out.append("rating ");
            out.append(cmp_op_sql(*op));
            out.append(" ");
            out.append(&signed_string(*n));
        },
        Predicate::AlbumRating(op, n) => {
            out.append("album_rating ");
            out.append(cmp_op_sql(*op));
            out.append(" ");
            out.append(&signed_string(*n));
        },
        Predicate::LastPlayed(dir, n, unit) => {
            match *dir {
                LastPlayedDir::InLast => {
                    out.append("(last_played IS NOT NULL AND last_played >= datetime('now', '-");
                },
                LastPlayedDir::NotInLast => {
                    out.append("(last_played IS NULL OR last_played < datetime('now', '-");
                },
            }
            let adjusted: i64 = match *unit {
                TimeUnit::Weeks => *n * 7,
                _ => *n,
            };
            out.append(&signed_string(adjusted));
            out.append(" ");
            out.append(time_unit_sql(*unit));
            out.append("'))");
        },
        Predicate::PlayCount(op, n) => {
            out.append("play_count ");
            out.append(cmp_op_sql(*op));
            out.append(" ");
            out.append(&signed_string(*n));
        },
        Predicate::InPlaylist(s) => {
            out.append("id IN (SELECT pt.recording_id FROM playlist_track pt JOIN playlist p ON p.id = pt.playlist_id WHERE p.name = '");
            out.append(&sql_esc(s));
            out.append("')");
        },
        Predicate::NotInPlaylist(s) => {
            out.append("id NOT IN (SELECT pt.recording_id FROM playlist_track pt JOIN playlist p ON p.id = pt.playlist_id WHERE p.name = '");
            out.append(&sql_esc(s));
            out.append("')");
        },
        Predicate::HasTag(s) => {
            out.append("id IN (SELECT recording_id FROM recording_tag WHERE tag = '");
            out.append(&sql_esc(s));
            out.append("')");
        },
        Predicate::Title(op, s) => {
            match *op {
                StrOp::Contains => {
                    out.append("lower(title) LIKE '%");
                    out.append(&sql_like_esc(&lower_text(s)));
                    out.append("%' ESCAPE '\\'");
                },
                StrOp::Is => {
                    out.append("lower(title) = '");
                    out.append(&sql_esc(&lower_text(s)));
                    out.append("'");
                },
            }
        },
        Predicate::Artist(op, s) => {
            match *op {
                StrOp::Contains => {
                    out.append("id IN (SELECT ra.recording_id FROM recording_artist ra JOIN artist a ON a.id = ra.artist_id WHERE lower(COALESCE(ra.credited_as, a.name)) LIKE '%");
                    out.append(&sql_like_esc(&lower_text(s)));
                    out.append("%' ESCAPE '\\')");
                },
                StrOp::Is => {
                    out.append("id IN (SELECT ra.recording_id FROM recording_artist ra JOIN artist a ON a.id = ra.artist_id WHERE lower(COALESCE(ra.credited_as, a.name)) = '");
                    out.append(&sql_esc(&lower_text(s)));
                    out.append("')");
                },
            }
        },
        Predicate::Genre(op, s) => {
            match *op {
                StrOp::Contains => {
                    out.append("(genre IS NOT NULL AND lower(genre) LIKE '%");
                    out.append(&sql_like_esc(&lower_text(s)));
                    out.append("%' ESCAPE '\\')");
                },
                StrOp::Is => {
                    out.append("lower(genre) = '");
                    out.append(&sql_esc(&lower_text(s)));
                    out.append("'");
                },
            }
        },
        Predicate::Year(op, n) => {
            out.append("id IN (SELECT DISTINCT t.recording_id FROM track t JOIN medium m ON m.id = t.medium_id JOIN release rel ON rel.id = m.release_id WHERE rel.release_date IS NOT NULL AND CAST(substr(rel.release_date, 1, 4) AS INTEGER) ");
            out.append(cmp_op_sql(*op));
            out.append(" ");
            out.append(&signed_string(*n));
            out.append(")");
        },
    }
    assert(out@ =~= old(out)@ + predicate_sql(pred@));
}

/// Whether [`compile`] accepts an expression: every span of weeks can be counted
/// in days.
pub fn can_compile(expr: &Expr) -> (r: bool)
    ensures
        r == expr_fits(expr.model()),
    decreases expr,
{
    match expr {
        Expr::And(a, b) => can_compile(a) && can_compile(b),
        Expr::Or(a, b) => can_compile(a) && can_compile(b),
        Expr::Not(e) => can_compile(e),
        Expr::Pred(pred) => match pred {
            Predicate::LastPlayed(_, n, unit) => match *unit {
                TimeUnit::Weeks => *n <= i64::MAX / 7 && *n >= -(i64::MAX / 7),
                _ => true,
            },
            _ => true,
        },
    }
}

/// Compiles a query to a SQL condition and the limit to apply to its result.
pub fn compile(query: &ParsedQuery) -> (r: (String, Option<Limit>))
    requires
        expr_fits(query.expr.model()),
    ensures
        r.0@ == expr_sql(query.expr.model()),
        r.1 == query.limit,
{
    let mut where_sql = String::new();
    compile_expr(&query.expr, &mut where_sql);
    assert(where_sql@ =~= expr_sql(query.expr.model()));
    (where_sql, query.limit)
}

} // verus!
