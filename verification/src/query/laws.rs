//! What a database reads in the compiled SQL.
use vstd::prelude::*;
use crate::text;
use super::precedence;
use super::sql;
use super::written;
use super::{CmpOp, ExprModel, LastPlayedDir, PredicateModel, StrOp, TimeUnit};

verus! {

/// What a SQL string holds, read from just past its opening quote: the text up to
/// the first quote that is not doubled, and what follows that quote.
pub open spec fn sql_string(s: Seq<char>) -> Option<(Seq<char>, Seq<char>)>
    decreases s.len(),
{
    if s.len() == 0 {
        None
    } else if s[0] == '\'' {
        if s.len() > 1 && s[1] == '\'' {
            match sql_string(s.skip(2)) {
                Some((v, rest)) => Some((seq!['\''] + v, rest)),
                None => None,
            }
        } else {
            Some((Seq::empty(), s.skip(1)))
        }
    } else {
        match sql_string(s.skip(1)) {
            Some((v, rest)) => Some((seq![s[0]] + v, rest)),
            None => None,
        }
    }
}

/// The text that a `LIKE` pattern with `\` as its escape matches literally;
/// `None` when the pattern holds a wildcard or ends in a lone escape.
pub open spec fn like_literal(p: Seq<char>) -> Option<Seq<char>>
    decreases p.len(),
{
    if p.len() == 0 {
        Some(Seq::empty())
    } else if p[0] == '%' || p[0] == '_' {
        None
    } else if p[0] == '\\' {
        if p.len() > 1 {
            match like_literal(p.skip(2)) {
                Some(v) => Some(seq![p[1]] + v),
                None => None,
            }
        } else {
            None
        }
    } else {
        match like_literal(p.skip(1)) {
            Some(v) => Some(seq![p[0]] + v),
            None => None,
        }
    }
}

/// The pattern that a database reads for an escaped text.
pub open spec fn like_pattern(s: Seq<char>) -> Seq<char>
    decreases s.len(),
{
    if s.len() == 0 {
        Seq::empty()
    } else if s[0] == '\\' || s[0] == '%' || s[0] == '_' {
        seq!['\\', s[0]] + like_pattern(s.skip(1))
    } else {
        seq![s[0]] + like_pattern(s.skip(1))
    }
}

proof fn lemma_flat_map_front<B>(s: Seq<char>, f: spec_fn(char) -> Seq<B>)
    requires
        s.len() > 0,
    ensures
        s.flat_map(f) == f(s[0]) + s.skip(1).flat_map(f),
{
    let rows = s.map_values(f);
    assert(rows.drop_first() =~= s.skip(1).map_values(f));
}

/// A text put between quotes with its own quotes doubled is read back as exactly
/// that text, so no text can end the string it stands in.
pub proof fn law_quoted_text_stays_inside(s: Seq<char>, rest: Seq<char>)
    requires
        rest.len() == 0 || rest[0] != '\'',
    ensures
        sql_string(text::quotes_doubled(s) + seq!['\''] + rest) == Some((s, rest)),
    decreases s.len(),
{
    let f = |c: char| text::quoted_char(c);
    let all = text::quotes_doubled(s) + seq!['\''] + rest;
    if s.len() == 0 {
        assert(text::quotes_doubled(s) =~= Seq::empty());
        assert(all =~= seq!['\''] + rest);
        assert(all.skip(1) =~= rest);
        assert(s =~= Seq::empty());
    } else {
        let later = text::quotes_doubled(s.skip(1)) + seq!['\''] + rest;
        law_quoted_text_stays_inside(s.skip(1), rest);
        lemma_flat_map_front(s, f);
        assert(all =~= text::quoted_char(s[0]) + later);
        if s[0] == '\'' {
            assert(all.skip(2) =~= later);
        } else {
            assert(all.skip(1) =~= later);
        }
        assert(seq![s[0]] + s.skip(1) =~= s);
    }
}

/// A text escaped for `LIKE` stays inside its string and becomes a pattern that
/// matches exactly that text: no character of it acts as a wildcard.
pub proof fn law_like_text_is_literal(s: Seq<char>, rest: Seq<char>)
    requires
        rest.len() == 0 || rest[0] != '\'',
    ensures
        sql_string(sql::like_escaped(s) + seq!['\''] + rest) == Some((like_pattern(s), rest)),
        like_literal(like_pattern(s)) == Some(s),
    decreases s.len(),
{
    let f = |c: char| sql::like_char(c);
    let all = sql::like_escaped(s) + seq!['\''] + rest;
    if s.len() == 0 {
        assert(sql::like_escaped(s) =~= Seq::empty());
        assert(all =~= seq!['\''] + rest);
        assert(all.skip(1) =~= rest);
        assert(s =~= Seq::empty());
    } else {
        let later = sql::like_escaped(s.skip(1)) + seq!['\''] + rest;
        let p = like_pattern(s.skip(1));
        law_like_text_is_literal(s.skip(1), rest);
        lemma_flat_map_front(s, f);
        assert(all =~= sql::like_char(s[0]) + later);
        if s[0] == '\'' {
            assert(all.skip(2) =~= later);
        } else if s[0] == '\\' || s[0] == '%' || s[0] == '_' {
            let inner = seq![s[0]] + later;
            assert(all.skip(1) =~= inner);
            assert(inner.skip(1) =~= later);
            assert(inner[0] == s[0]);
            assert(sql_string(inner) == Some((seq![s[0]] + p, rest)));
            assert(seq!['\\'] + (seq![s[0]] + p) =~= like_pattern(s));
            assert(like_pattern(s).skip(2) =~= p);
        } else {
            assert(all.skip(1) =~= later);
        }
        if !(s[0] == '\\' || s[0] == '%' || s[0] == '_') {
            assert(like_pattern(s).skip(1) =~= p);
        }
        assert(seq![s[0]] + s.skip(1) =~= s);
    }
}

/// A comparison of a column with a number.
pub open spec fn column_test(column: Seq<char>, op: CmpOp, n: i64) -> Seq<char> {
    column + seq![' '] + written::written_op(op) + seq![' '] + text::signed_decimal(n as int)
}

/// Numbers are compared in SQL with the operator of the query, by the column that the
/// predicate names.
pub proof fn law_numbers_are_compared_by_column(op: CmpOp, n: i64)
    ensures
        sql::predicate_sql(PredicateModel::Rating(op, n)) == column_test("rating"@, op, n),
        sql::predicate_sql(PredicateModel::AlbumRating(op, n)) == column_test(
            "album_rating"@,
            op,
            n,
        ),
        sql::predicate_sql(PredicateModel::PlayCount(op, n)) == column_test("play_count"@, op, n),
{
    reveal_strlit("rating");
    reveal_strlit("rating ");
    reveal_strlit("album_rating");
    reveal_strlit("album_rating ");
    reveal_strlit("play_count");
    reveal_strlit("play_count ");
    reveal_strlit(" ");
    written::law_comparisons_are_the_same_in_sql(op);
    assert(sql::predicate_sql(PredicateModel::Rating(op, n)) =~= column_test("rating"@, op, n));
    assert(sql::predicate_sql(PredicateModel::AlbumRating(op, n)) =~= column_test(
        "album_rating"@,
        op,
        n,
    ));
    assert(sql::predicate_sql(PredicateModel::PlayCount(op, n)) =~= column_test(
        "play_count"@,
        op,
        n,
    ));
}

/// A week is seven days in SQL, in either direction.
pub proof fn law_weeks_are_days_in_sql(dir: LastPlayedDir, n: i64, days: i64)
    requires
        days == 7 * n,
    ensures
        sql::predicate_sql(PredicateModel::LastPlayed(dir, n, TimeUnit::Weeks))
            == sql::predicate_sql(PredicateModel::LastPlayed(dir, days, TimeUnit::Days)),
{
}

/// What was played in a span of time and what was not are parted by the same moment:
/// the one is at it or later, the other before it or never.
pub proof fn law_spans_part_in_sql(n: i64, unit: TimeUnit)
    ensures
        exists|moment: Seq<char>|
            #![trigger "(last_played IS NULL OR last_played < "@ + moment]
            sql::predicate_sql(PredicateModel::LastPlayed(LastPlayedDir::InLast, n, unit))
                == "(last_played IS NOT NULL AND last_played >= "@ + moment && sql::predicate_sql(
                PredicateModel::LastPlayed(LastPlayedDir::NotInLast, n, unit),
            ) == "(last_played IS NULL OR last_played < "@ + moment,
{
    reveal_strlit("(last_played IS NOT NULL AND last_played >= ");
    reveal_strlit("(last_played IS NULL OR last_played < ");
    reveal_strlit("(last_played IS NOT NULL AND last_played >= datetime('now', '-");
    reveal_strlit("(last_played IS NULL OR last_played < datetime('now', '-");
    reveal_strlit("datetime('now', '-");
    let moment = "datetime('now', '-"@ + sql::interval_sql(n, unit) + "'))"@;
    assert("(last_played IS NOT NULL AND last_played >= datetime('now', '-"@
        =~= "(last_played IS NOT NULL AND last_played >= "@ + "datetime('now', '-"@);
    assert("(last_played IS NULL OR last_played < datetime('now', '-"@
        =~= "(last_played IS NULL OR last_played < "@ + "datetime('now', '-"@);
    assert(sql::predicate_sql(PredicateModel::LastPlayed(LastPlayedDir::InLast, n, unit))
        =~= "(last_played IS NOT NULL AND last_played >= "@ + moment);
    assert(sql::predicate_sql(PredicateModel::LastPlayed(LastPlayedDir::NotInLast, n, unit))
        =~= "(last_played IS NULL OR last_played < "@ + moment);
}

/// Being in a playlist and not being in it differ in SQL by one word.
pub proof fn law_playlists_part_in_sql(s: Seq<char>)
    ensures
        exists|list: Seq<char>|
            #![trigger "id NOT "@ + list]
            sql::predicate_sql(PredicateModel::InPlaylist(s)) == "id "@ + list
                && sql::predicate_sql(PredicateModel::NotInPlaylist(s)) == "id NOT "@ + list,
{
    reveal_strlit("id ");
    reveal_strlit("id NOT ");
    reveal_strlit("id IN (SELECT pt.recording_id FROM playlist_track pt JOIN playlist p ON p.id = pt.playlist_id WHERE p.name = '");
    reveal_strlit("id NOT IN (SELECT pt.recording_id FROM playlist_track pt JOIN playlist p ON p.id = pt.playlist_id WHERE p.name = '");
    let a = "id IN (SELECT pt.recording_id FROM playlist_track pt JOIN playlist p ON p.id = pt.playlist_id WHERE p.name = '"@;
    let b = "id NOT IN (SELECT pt.recording_id FROM playlist_track pt JOIN playlist p ON p.id = pt.playlist_id WHERE p.name = '"@;
    let tail = text::quotes_doubled(s) + "')"@;
    let list = a.skip(3) + tail;
    assert(a.skip(3) =~= b.skip(7));
    assert(a =~= "id "@ + a.skip(3));
    assert(b =~= "id NOT "@ + b.skip(7));
    assert(sql::predicate_sql(PredicateModel::InPlaylist(s)) =~= "id "@ + list);
    assert(sql::predicate_sql(PredicateModel::NotInPlaylist(s)) =~= "id NOT "@ + list);
}

/// Conditions are joined in SQL inside brackets, so that they stay together wherever
/// they stand.
pub proof fn law_conditions_are_bracketed(a: ExprModel, b: ExprModel, p: PredicateModel)
    ensures
        ({
            let x = sql::expr_sql(a);
            let y = sql::expr_sql(b);
            &&& sql::expr_sql(precedence::and_of(a, b)) == seq!['('] + x + seq![
                ' ',
                'A',
                'N',
                'D',
                ' ',
            ] + y + seq![')']
            &&& sql::expr_sql(precedence::or_of(a, b)) == seq!['('] + x + seq![
                ' ',
                'O',
                'R',
                ' ',
            ] + y + seq![')']
            &&& sql::expr_sql(precedence::not_of(a)) == seq!['N', 'O', 'T', ' ', '('] + x + seq![
                ')',
            ]
            &&& sql::expr_sql(ExprModel::Pred(p)) == sql::predicate_sql(p)
        }),
{
    reveal_strlit("(");
    reveal_strlit(")");
    reveal_strlit(" AND ");
    reveal_strlit(" OR ");
    reveal_strlit("NOT (");
    assert("("@ =~= seq!['(']);
    assert(")"@ =~= seq![')']);
    assert(" AND "@ =~= seq![' ', 'A', 'N', 'D', ' ']);
    assert(" OR "@ =~= seq![' ', 'O', 'R', ' ']);
    assert("NOT ("@ =~= seq!['N', 'O', 'T', ' ', '(']);
}

/// Whether a condition is `head`, then a SQL string that holds `v`, then `tail`.
pub open spec fn holds_string(
    condition: Seq<char>,
    head: Seq<char>,
    v: Seq<char>,
    tail: Seq<char>,
) -> bool {
    exists|x: Seq<char>|
        condition == #[trigger] (head + seq!['\''] + x) && sql_string(x) == Some((v, tail))
}

proof fn lemma_holds_quoted(
    condition: Seq<char>,
    head: Seq<char>,
    v: Seq<char>,
    tail: Seq<char>,
)
    requires
        condition == head + seq!['\''] + (text::quotes_doubled(v) + seq!['\''] + tail),
        tail.len() == 0 || tail[0] != '\'',
    ensures
        holds_string(condition, head, v, tail),
{
    law_quoted_text_stays_inside(v, tail);
}

/// A text escaped for `LIKE` in front of the rest of a string.
proof fn lemma_like_in_front(s: Seq<char>, y: Seq<char>, v: Seq<char>, tail: Seq<char>)
    requires
        y.len() > 0,
        y[0] != '\'',
        sql_string(y) == Some((v, tail)),
    ensures
        sql_string(sql::like_escaped(s) + y) == Some((like_pattern(s) + v, tail)),
    decreases s.len(),
{
    let f = |c: char| sql::like_char(c);
    let all = sql::like_escaped(s) + y;
    if s.len() == 0 {
        assert(sql::like_escaped(s) =~= Seq::empty());
        assert(all =~= y);
        assert(like_pattern(s) + v =~= v);
    } else {
        let later = sql::like_escaped(s.skip(1)) + y;
        let p = like_pattern(s.skip(1)) + v;
        lemma_like_in_front(s.skip(1), y, v, tail);
        lemma_flat_map_front(s, f);
        assert(all =~= sql::like_char(s[0]) + later);
        if s[0] == '\'' {
            assert(all.skip(2) =~= later);
            assert(seq![s[0]] + p =~= like_pattern(s) + v);
        } else if s[0] == '\\' || s[0] == '%' || s[0] == '_' {
            let inner = seq![s[0]] + later;
            assert(all.skip(1) =~= inner);
            assert(inner.skip(1) =~= later);
            assert(inner[0] == s[0]);
            assert(sql_string(inner) == Some((seq![s[0]] + p, tail)));
            assert(seq!['\\'] + (seq![s[0]] + p) =~= like_pattern(s) + v);
        } else {
            assert(all.skip(1) =~= later);
            assert(seq![s[0]] + p =~= like_pattern(s) + v);
        }
    }
}

proof fn lemma_holds_pattern(
    condition: Seq<char>,
    head: Seq<char>,
    s: Seq<char>,
    tail: Seq<char>,
)
    requires
        condition == head + seq!['\''] + (seq!['%'] + (sql::like_escaped(s) + (seq!['%', '\'']
            + tail))),
        tail.len() == 0 || tail[0] != '\'',
    ensures
        holds_string(condition, head, seq!['%'] + like_pattern(s) + seq!['%'], tail),
{
    let end = seq!['\''] + tail;
    let y = seq!['%', '\''] + tail;
    let inner = sql::like_escaped(s) + y;
    let x = seq!['%'] + inner;
    assert(end.skip(1) =~= tail);
    assert(sql_string(end) == Some((Seq::<char>::empty(), tail)));
    assert(y.skip(1) =~= end);
    assert(sql_string(y) == Some((seq!['%'] + Seq::<char>::empty(), tail)));
    assert(seq!['%'] + Seq::<char>::empty() =~= seq!['%']);
    lemma_like_in_front(s, y, seq!['%'], tail);
    assert(x.skip(1) =~= inner);
    assert(seq!['%'] + (like_pattern(s) + seq!['%']) =~= seq!['%'] + like_pattern(s) + seq!['%']);
    assert(sql_string(x) == Some((seq!['%'] + like_pattern(s) + seq!['%'], tail)));
}

proof fn lemma_exact_title(s: Seq<char>)
    ensures
        holds_string(
            sql::predicate_sql(PredicateModel::Title(StrOp::Is, s)),
            "lower(title) = "@,
            text::lowercase(s),
            Seq::<char>::empty(),
        ),
{
    let head = "lower(title) = "@;
    let opened = "lower(title) = '"@;
    reveal_strlit("lower(title) = ");
    reveal_strlit("lower(title) = '");
    reveal_strlit("'");
    assert(opened =~= head + seq!['\'']);
    let v = text::lowercase(s);
    let tail: Seq<char> = Seq::<char>::empty();
    assert("'"@ =~= seq!['\''] + tail);
    let condition = sql::predicate_sql(PredicateModel::Title(StrOp::Is, s));
    assert(condition =~= head + seq!['\''] + (text::quotes_doubled(v) + seq!['\''] + tail));
    lemma_holds_quoted(condition, head, v, tail);
}

proof fn lemma_exact_genre(s: Seq<char>)
    ensures
        holds_string(
            sql::predicate_sql(PredicateModel::Genre(StrOp::Is, s)),
            "lower(genre) = "@,
            text::lowercase(s),
            Seq::<char>::empty(),
        ),
{
    let head = "lower(genre) = "@;
    let opened = "lower(genre) = '"@;
    reveal_strlit("lower(genre) = ");
    reveal_strlit("lower(genre) = '");
    reveal_strlit("'");
    assert(opened =~= head + seq!['\'']);
    let v = text::lowercase(s);
    let tail: Seq<char> = Seq::<char>::empty();
    assert("'"@ =~= seq!['\''] + tail);
    let condition = sql::predicate_sql(PredicateModel::Genre(StrOp::Is, s));
    assert(condition =~= head + seq!['\''] + (text::quotes_doubled(v) + seq!['\''] + tail));
    lemma_holds_quoted(condition, head, v, tail);
}

proof fn lemma_exact_artist(s: Seq<char>)
    ensures
        holds_string(
            sql::predicate_sql(PredicateModel::Artist(StrOp::Is, s)),
            "id IN (SELECT ra.recording_id FROM recording_artist ra JOIN artist a ON a.id = ra.artist_id WHERE lower(COALESCE(ra.credited_as, a.name)) = "@,
            text::lowercase(s),
            seq![')'],
        ),
{
    let head = "id IN (SELECT ra.recording_id FROM recording_artist ra JOIN artist a ON a.id = ra.artist_id WHERE lower(COALESCE(ra.credited_as, a.name)) = "@;
    let opened = "id IN (SELECT ra.recording_id FROM recording_artist ra JOIN artist a ON a.id = ra.artist_id WHERE lower(COALESCE(ra.credited_as, a.name)) = '"@;
    reveal_strlit("id IN (SELECT ra.recording_id FROM recording_artist ra JOIN artist a ON a.id = ra.artist_id WHERE lower(COALESCE(ra.credited_as, a.name)) = ");
    reveal_strlit("id IN (SELECT ra.recording_id FROM recording_artist ra JOIN artist a ON a.id = ra.artist_id WHERE lower(COALESCE(ra.credited_as, a.name)) = '");
    reveal_strlit("')");
    assert(opened =~= head + seq!['\'']);
    let v = text::lowercase(s);
    let tail: Seq<char> = seq![')'];
    assert("')"@ =~= seq!['\''] + tail);
    let condition = sql::predicate_sql(PredicateModel::Artist(StrOp::Is, s));
    assert(condition =~= head + seq!['\''] + (text::quotes_doubled(v) + seq!['\''] + tail));
    lemma_holds_quoted(condition, head, v, tail);
}

proof fn lemma_playlist_name(s: Seq<char>)
    ensures
        holds_string(
            sql::predicate_sql(PredicateModel::InPlaylist(s)),
            "id IN (SELECT pt.recording_id FROM playlist_track pt JOIN playlist p ON p.id = pt.playlist_id WHERE p.name = "@,
            s,
            seq![')'],
        ),
{
    let head = "id IN (SELECT pt.recording_id FROM playlist_track pt JOIN playlist p ON p.id = pt.playlist_id WHERE p.name = "@;
    let opened = "id IN (SELECT pt.recording_id FROM playlist_track pt JOIN playlist p ON p.id = pt.playlist_id WHERE p.name = '"@;
    reveal_strlit("id IN (SELECT pt.recording_id FROM playlist_track pt JOIN playlist p ON p.id = pt.playlist_id WHERE p.name = ");
    reveal_strlit("id IN (SELECT pt.recording_id FROM playlist_track pt JOIN playlist p ON p.id = pt.playlist_id WHERE p.name = '");
    reveal_strlit("')");
    assert(opened =~= head + seq!['\'']);
    let v = s;
    let tail: Seq<char> = seq![')'];
    assert("')"@ =~= seq!['\''] + tail);
    let condition = sql::predicate_sql(PredicateModel::InPlaylist(s));
    assert(condition =~= head + seq!['\''] + (text::quotes_doubled(v) + seq!['\''] + tail));
    lemma_holds_quoted(condition, head, v, tail);
}

proof fn lemma_tag_name(s: Seq<char>)
    ensures
        holds_string(
            sql::predicate_sql(PredicateModel::HasTag(s)),
            "id IN (SELECT recording_id FROM recording_tag WHERE tag = "@,
            s,
            seq![')'],
        ),
{
    let head = "id IN (SELECT recording_id FROM recording_tag WHERE tag = "@;
    let opened = "id IN (SELECT recording_id FROM recording_tag WHERE tag = '"@;
    reveal_strlit("id IN (SELECT recording_id FROM recording_tag WHERE tag = ");
    reveal_strlit("id IN (SELECT recording_id FROM recording_tag WHERE tag = '");
    reveal_strlit("')");
    assert(opened =~= head + seq!['\'']);
    let v = s;
    let tail: Seq<char> = seq![')'];
    assert("')"@ =~= seq!['\''] + tail);
    let condition = sql::predicate_sql(PredicateModel::HasTag(s));
    assert(condition =~= head + seq!['\''] + (text::quotes_doubled(v) + seq!['\''] + tail));
    lemma_holds_quoted(condition, head, v, tail);
}

/// Names are compared in SQL with a string that holds just the text of the query: in
/// lower case where the column is lowered, and as it is written for playlists and tags.
pub proof fn law_names_are_compared_whole(s: Seq<char>)
    ensures
        holds_string(
            sql::predicate_sql(PredicateModel::Title(StrOp::Is, s)),
            "lower(title) = "@,
            text::lowercase(s),
            Seq::empty(),
        ),
        holds_string(
            sql::predicate_sql(PredicateModel::Genre(StrOp::Is, s)),
            "lower(genre) = "@,
            text::lowercase(s),
            Seq::empty(),
        ),
        holds_string(
            sql::predicate_sql(PredicateModel::Artist(StrOp::Is, s)),
            "id IN (SELECT ra.recording_id FROM recording_artist ra JOIN artist a ON a.id = ra.artist_id WHERE lower(COALESCE(ra.credited_as, a.name)) = "@,
            text::lowercase(s),
            seq![')'],
        ),
        holds_string(
            sql::predicate_sql(PredicateModel::InPlaylist(s)),
            "id IN (SELECT pt.recording_id FROM playlist_track pt JOIN playlist p ON p.id = pt.playlist_id WHERE p.name = "@,
            s,
            seq![')'],
        ),
        holds_string(
            sql::predicate_sql(PredicateModel::HasTag(s)),
            "id IN (SELECT recording_id FROM recording_tag WHERE tag = "@,
            s,
            seq![')'],
        ),
{
    lemma_exact_title(s);
    lemma_exact_genre(s);
    lemma_exact_artist(s);
    lemma_playlist_name(s);
    lemma_tag_name(s);
}

proof fn lemma_title_part(s: Seq<char>)
    ensures
        holds_string(
            sql::predicate_sql(PredicateModel::Title(StrOp::Contains, s)),
            "lower(title) LIKE "@,
            seq!['%'] + like_pattern(text::lowercase(s)) + seq!['%'],
            " ESCAPE '\\'"@,
        ),
{
    let head = "lower(title) LIKE "@;
    let opened = "lower(title) LIKE '%"@;
    let tail = " ESCAPE '\\'"@;
    let closed = "%' ESCAPE '\\'"@;
    reveal_strlit("lower(title) LIKE ");
    reveal_strlit("lower(title) LIKE '%");
    reveal_strlit(" ESCAPE '\\'");
    reveal_strlit("%' ESCAPE '\\'");
    assert(opened =~= head + seq!['\'', '%']);
    assert(closed =~= seq!['%', '\''] + tail);
    let v = text::lowercase(s);
    let condition = sql::predicate_sql(PredicateModel::Title(StrOp::Contains, s));
    let inner = sql::like_escaped(v) + (seq!['%', '\''] + tail);
    assert(condition =~= head + seq!['\''] + (seq!['%'] + inner));
    lemma_holds_pattern(condition, head, v, tail);
}

proof fn lemma_genre_part(s: Seq<char>)
    ensures
        holds_string(
            sql::predicate_sql(PredicateModel::Genre(StrOp::Contains, s)),
            "(genre IS NOT NULL AND lower(genre) LIKE "@,
            seq!['%'] + like_pattern(text::lowercase(s)) + seq!['%'],
            " ESCAPE '\\')"@,
        ),
{
    let head = "(genre IS NOT NULL AND lower(genre) LIKE "@;
    let opened = "(genre IS NOT NULL AND lower(genre) LIKE '%"@;
    let tail = " ESCAPE '\\')"@;
    let closed = "%' ESCAPE '\\')"@;
    reveal_strlit("(genre IS NOT NULL AND lower(genre) LIKE ");
    reveal_strlit("(genre IS NOT NULL AND lower(genre) LIKE '%");
    reveal_strlit(" ESCAPE '\\')");
    reveal_strlit("%' ESCAPE '\\')");
    assert(opened =~= head + seq!['\'', '%']);
    assert(closed =~= seq!['%', '\''] + tail);
    let v = text::lowercase(s);
    let condition = sql::predicate_sql(PredicateModel::Genre(StrOp::Contains, s));
    let inner = sql::like_escaped(v) + (seq!['%', '\''] + tail);
    assert(condition =~= head + seq!['\''] + (seq!['%'] + inner));
    lemma_holds_pattern(condition, head, v, tail);
}

proof fn lemma_artist_part(s: Seq<char>)
    ensures
        holds_string(
            sql::predicate_sql(PredicateModel::Artist(StrOp::Contains, s)),
            "id IN (SELECT ra.recording_id FROM recording_artist ra JOIN artist a ON a.id = ra.artist_id WHERE lower(COALESCE(ra.credited_as, a.name)) LIKE "@,
            seq!['%'] + like_pattern(text::lowercase(s)) + seq!['%'],
            " ESCAPE '\\')"@,
        ),
{
    let head = "id IN (SELECT ra.recording_id FROM recording_artist ra JOIN artist a ON a.id = ra.artist_id WHERE lower(COALESCE(ra.credited_as, a.name)) LIKE "@;
    let opened = "id IN (SELECT ra.recording_id FROM recording_artist ra JOIN artist a ON a.id = ra.artist_id WHERE lower(COALESCE(ra.credited_as, a.name)) LIKE '%"@;
    let tail = " ESCAPE '\\')"@;
    let closed = "%' ESCAPE '\\')"@;
    reveal_strlit("id IN (SELECT ra.recording_id FROM recording_artist ra JOIN artist a ON a.id = ra.artist_id WHERE lower(COALESCE(ra.credited_as, a.name)) LIKE ");
    reveal_strlit("id IN (SELECT ra.recording_id FROM recording_artist ra JOIN artist a ON a.id = ra.artist_id WHERE lower(COALESCE(ra.credited_as, a.name)) LIKE '%");
    reveal_strlit(" ESCAPE '\\')");
    reveal_strlit("%' ESCAPE '\\')");
    assert(opened =~= head + seq!['\'', '%']);
    assert(closed =~= seq!['%', '\''] + tail);
    let v = text::lowercase(s);
    let condition = sql::predicate_sql(PredicateModel::Artist(StrOp::Contains, s));
    let inner = sql::like_escaped(v) + (seq!['%', '\''] + tail);
    assert(condition =~= head + seq!['\''] + (seq!['%'] + inner));
    lemma_holds_pattern(condition, head, v, tail);
}

/// A part of a name is searched in SQL with a pattern that has any text on either side of
/// it and takes its own characters literally, in lower case.
pub proof fn law_names_are_searched_for_parts(s: Seq<char>)
    ensures
        holds_string(
            sql::predicate_sql(PredicateModel::Title(StrOp::Contains, s)),
            "lower(title) LIKE "@,
            seq!['%'] + like_pattern(text::lowercase(s)) + seq!['%'],
            " ESCAPE '\\'"@,
        ),
        holds_string(
            sql::predicate_sql(PredicateModel::Genre(StrOp::Contains, s)),
            "(genre IS NOT NULL AND lower(genre) LIKE "@,
            seq!['%'] + like_pattern(text::lowercase(s)) + seq!['%'],
            " ESCAPE '\\')"@,
        ),
        holds_string(
            sql::predicate_sql(PredicateModel::Artist(StrOp::Contains, s)),
            "id IN (SELECT ra.recording_id FROM recording_artist ra JOIN artist a ON a.id = ra.artist_id WHERE lower(COALESCE(ra.credited_as, a.name)) LIKE "@,
            seq!['%'] + like_pattern(text::lowercase(s)) + seq!['%'],
            " ESCAPE '\\')"@,
        ),
        like_literal(like_pattern(text::lowercase(s))) == Some(text::lowercase(s)),
{
    law_like_text_is_literal(text::lowercase(s), Seq::empty());
    lemma_title_part(s);
    lemma_genre_part(s);
    lemma_artist_part(s);
}

/// The year of a release is compared in SQL with the operator and the number of the query.
pub proof fn law_years_are_compared_by_release(op: CmpOp, n: i64)
    ensures
        sql::predicate_sql(PredicateModel::Year(op, n)) == "id IN (SELECT DISTINCT t.recording_id FROM track t JOIN medium m ON m.id = t.medium_id JOIN release rel ON rel.id = m.release_id WHERE rel.release_date IS NOT NULL AND CAST(substr(rel.release_date, 1, 4) AS INTEGER) "@ + written::written_op(op)
            + seq![' '] + text::signed_decimal(n as int) + seq![')'],
        sql::predicate_sql(PredicateModel::RatingNull) == "rating"@ + " IS NULL"@,
{
    reveal_strlit(" ");
    reveal_strlit(")");
    reveal_strlit("rating");
    reveal_strlit(" IS NULL");
    reveal_strlit("rating IS NULL");
    written::law_comparisons_are_the_same_in_sql(op);
    assert(" "@ =~= seq![' ']);
    assert(")"@ =~= seq![')']);
    assert("rating IS NULL"@ =~= "rating"@ + " IS NULL"@);
}

} // verus!
