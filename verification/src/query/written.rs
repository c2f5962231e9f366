//! What a user writes is what is read.
//!
//! The laws go the other way than the grammar: from a predicate to a text that a
//! user would write for it, which reads back as that predicate.
use vstd::prelude::*;
use crate::text;
use super::grammar;
use super::precedence;
use super::sql;
use super::{CmpOp, ExprModel, LastPlayedDir, Limit, LimitUnit, PredicateModel, StrOp, TimeUnit};

verus! {

// ── Tokens ───────────────────────────────────────────────────────────────────

proof fn lemma_unblanked(s: Seq<char>)
    requires
        s.len() == 0 || !grammar::is_blank(s[0]),
    ensures
        grammar::after_blanks(s) == s,
        grammar::after_blanks(seq![' '] + s) == s,
{
    let t = seq![' '] + s;
    assert(t.skip(1) =~= s);
    assert(grammar::after_blanks(t) == grammar::after_blanks(t.skip(1)));
}

/// A word at the front is read, with or without a blank before it.
proof fn lemma_reads(w: Seq<char>, rest: Seq<char>)
    requires
        w.len() > 0,
        !grammar::is_blank(w[0]),
    ensures
        grammar::after_word(w + rest, w) == Some(rest),
        grammar::after_word(seq![' '] + (w + rest), w) == Some(rest),
{
    let s = w + rest;
    assert(s[0] == w[0]);
    lemma_unblanked(s);
    assert(s.subrange(0, w.len() as int) =~= w);
    assert(s.skip(w.len() as int) =~= rest);
}

/// A word that differs at a place is not read.
proof fn lemma_reads_not(s: Seq<char>, w: Seq<char>, k: int)
    requires
        s.len() > 0,
        !grammar::is_blank(s[0]),
        0 <= k < w.len(),
        k < s.len() ==> s[k] != w[k],
    ensures
        grammar::after_word(s, w) is None,
        grammar::after_word(seq![' '] + s, w) is None,
{
    lemma_unblanked(s);
    if w.is_prefix_of(s) {
        assert(s.subrange(0, w.len() as int)[k] == w[k]);
    }
}

/// How a number is written.
pub open spec fn written_number(n: i64) -> Seq<char> {
    text::decimal(n as nat)
}

/// A number is read up to a blank or the end.
proof fn lemma_number(n: i64, rest: Seq<char>)
    requires
        n >= 0,
        rest.len() == 0 || rest[0] == ' ',
    ensures
        grammar::integer(seq![' '] + (written_number(n) + rest)) == Some((n, rest)),
{
    let d = written_number(n);
    let s = d + rest;
    text::law_decimal_reads_back(n as nat);
    assert('0' <= d[0] <= '9');
    assert(s[0] == d[0]);
    lemma_unblanked(s);
    assert forall|i: int| 0 <= i < d.len() implies text::is_digit(#[trigger] s[i]) by {
        assert(s[i] == d[i]);
    }
    grammar::lemma_digits_len(s, d.len() as int);
    assert(s.take(d.len() as int) =~= d);
    assert(s.skip(d.len() as int) =~= rest);
}

/// A text in quotation marks is read whole.
proof fn lemma_quoted(v: Seq<char>, rest: Seq<char>)
    requires
        !v.contains('"'),
    ensures
        grammar::string(seq![' '] + (seq!['"'] + v + seq!['"'] + rest)) == Some((v, rest)),
{
    let s = seq!['"'] + v + seq!['"'] + rest;
    lemma_unblanked(s);
    let u = s.skip(1);
    assert(u =~= v + seq!['"'] + rest);
    assert forall|k: int| 0 <= k < v.len() implies u[k] != '"' by {
        assert(v.contains(v[k]));
    }
    text::lemma_first_at_is(u, '"', v.len() as int);
    assert(u.take(v.len() as int) =~= v);
    assert(u.skip(v.len() + 1int) =~= rest);
}

// ── Comparisons ──────────────────────────────────────────────────────────────

/// How a comparison is written.
pub open spec fn written_op(op: CmpOp) -> Seq<char> {
    match op {
        CmpOp::Gte => seq!['>', '='],
        CmpOp::Lte => seq!['<', '='],
        CmpOp::Gt => seq!['>'],
        CmpOp::Lt => seq!['<'],
        CmpOp::Eq => seq!['='],
        CmpOp::Ne => seq!['!', '='],
    }
}

/// A comparison with a number, with blanks between.
pub open spec fn written_comparison(op: CmpOp, n: i64) -> Seq<char> {
    seq![' '] + (written_op(op) + (seq![' '] + written_number(n)))
}

/// Each operator is read as the comparison that it stands for.
pub proof fn law_comparison_is_read(op: CmpOp, n: i64)
    requires
        n >= 0,
    ensures
        grammar::comparison(written_comparison(op, n)) == Some(((op, n), Seq::<char>::empty())),
{
    reveal_strlit(">=");
    reveal_strlit("<=");
    reveal_strlit(">");
    reveal_strlit("<");
    reveal_strlit("=");
    reveal_strlit("!=");
    assert(">="@ =~= seq!['>', '=']);
    assert("<="@ =~= seq!['<', '=']);
    assert(">"@ =~= seq!['>']);
    assert("<"@ =~= seq!['<']);
    assert("="@ =~= seq!['=']);
    assert("!="@ =~= seq!['!', '=']);
    let w = written_op(op);
    let rest = seq![' '] + written_number(n);
    let s = w + rest;
    assert(s[0] == w[0]);
    lemma_reads(w, rest);
    if w.len() > 1 {
        assert(s[1] == w[1]);
    } else {
        assert(s[1] == ' ');
    }
    match op {
        CmpOp::Gte => {},
        CmpOp::Lte => {
            lemma_reads_not(s, ">="@, 0);
        },
        CmpOp::Gt => {
            lemma_reads_not(s, ">="@, 1);
            lemma_reads_not(s, "<="@, 0);
        },
        CmpOp::Lt => {
            lemma_reads_not(s, ">="@, 0);
            lemma_reads_not(s, "<="@, 1);
            lemma_reads_not(s, ">"@, 0);
        },
        CmpOp::Eq => {
            lemma_reads_not(s, ">="@, 0);
            lemma_reads_not(s, "<="@, 0);
            lemma_reads_not(s, ">"@, 0);
            lemma_reads_not(s, "<"@, 0);
        },
        CmpOp::Ne => {
            lemma_reads_not(s, ">="@, 0);
            lemma_reads_not(s, "<="@, 0);
            lemma_reads_not(s, ">"@, 0);
            lemma_reads_not(s, "<"@, 0);
            lemma_reads_not(s, "="@, 0);
        },
    }
    assert(grammar::cmp_op(written_comparison(op, n)) == Some((op, rest)));
    assert(written_number(n) + Seq::<char>::empty() =~= written_number(n));
    lemma_number(n, Seq::empty());
}

/// A comparison is written in SQL as in a query.
pub proof fn law_comparisons_are_the_same_in_sql(op: CmpOp)
    ensures
        sql::op_sql(op) == written_op(op),
{
    reveal_strlit(">=");
    reveal_strlit("<=");
    reveal_strlit(">");
    reveal_strlit("<");
    reveal_strlit("=");
    reveal_strlit("!=");
    assert(sql::op_sql(op) =~= written_op(op));
}

// ── Names ────────────────────────────────────────────────────────────────────

/// The characters of the names of all predicates, as far as they tell them apart.
proof fn lemma_names()
    ensures
        "Rating"@.len() > 0 && "Rating"@[0] == 'R',
        "AlbumRating"@.len() > 1 && "AlbumRating"@[0] == 'A' && "AlbumRating"@[1] == 'l',
        "LastPlayed"@.len() > 0 && "LastPlayed"@[0] == 'L',
        "PlayCount"@.len() > 0 && "PlayCount"@[0] == 'P',
        "InPlaylist"@.len() > 0 && "InPlaylist"@[0] == 'I',
        "NotInPlaylist"@.len() > 0 && "NotInPlaylist"@[0] == 'N',
        "HasTag"@.len() > 0 && "HasTag"@[0] == 'H',
        "Title"@.len() > 0 && "Title"@[0] == 'T',
        "Artist"@.len() > 1 && "Artist"@[0] == 'A' && "Artist"@[1] == 'r',
        "Genre"@.len() > 0 && "Genre"@[0] == 'G',
        "Year"@.len() > 0 && "Year"@[0] == 'Y',
{
    reveal_strlit("Rating");
    reveal_strlit("AlbumRating");
    reveal_strlit("LastPlayed");
    reveal_strlit("PlayCount");
    reveal_strlit("InPlaylist");
    reveal_strlit("NotInPlaylist");
    reveal_strlit("HasTag");
    reveal_strlit("Title");
    reveal_strlit("Artist");
    reveal_strlit("Genre");
    reveal_strlit("Year");
}

/// Which of the names of predicates are read at the front of a text.
proof fn lemma_only(s: Seq<char>)
    requires
        s.len() > 1,
        !grammar::is_blank(s[0]),
    ensures
        s[0] != 'R' ==> grammar::after_word(s, "Rating"@) is None,
        s[0] != 'A' || s[1] != 'l' ==> grammar::after_word(s, "AlbumRating"@) is None,
        s[0] != 'L' ==> grammar::after_word(s, "LastPlayed"@) is None,
        s[0] != 'P' ==> grammar::after_word(s, "PlayCount"@) is None,
        s[0] != 'I' ==> grammar::after_word(s, "InPlaylist"@) is None,
        s[0] != 'N' ==> grammar::after_word(s, "NotInPlaylist"@) is None,
        s[0] != 'H' ==> grammar::after_word(s, "HasTag"@) is None,
        s[0] != 'T' ==> grammar::after_word(s, "Title"@) is None,
        s[0] != 'A' || s[1] != 'r' ==> grammar::after_word(s, "Artist"@) is None,
        s[0] != 'G' ==> grammar::after_word(s, "Genre"@) is None,
{
    lemma_names();
    if s[0] != 'R' {
        lemma_reads_not(s, "Rating"@, 0);
    }
    if s[0] != 'A' {
        lemma_reads_not(s, "AlbumRating"@, 0);
        lemma_reads_not(s, "Artist"@, 0);
    }
    if s[1] != 'l' {
        lemma_reads_not(s, "AlbumRating"@, 1);
    }
    if s[1] != 'r' {
        lemma_reads_not(s, "Artist"@, 1);
    }
    if s[0] != 'L' {
        lemma_reads_not(s, "LastPlayed"@, 0);
    }
    if s[0] != 'P' {
        lemma_reads_not(s, "PlayCount"@, 0);
    }
    if s[0] != 'I' {
        lemma_reads_not(s, "InPlaylist"@, 0);
    }
    if s[0] != 'N' {
        lemma_reads_not(s, "NotInPlaylist"@, 0);
    }
    if s[0] != 'H' {
        lemma_reads_not(s, "HasTag"@, 0);
    }
    if s[0] != 'T' {
        lemma_reads_not(s, "Title"@, 0);
    }
    if s[0] != 'G' {
        lemma_reads_not(s, "Genre"@, 0);
    }
}

proof fn lemma_named(name: Seq<char>, rest: Seq<char>)
    requires
        name.len() > 1,
        !grammar::is_blank(name[0]),
    ensures
        grammar::after_word(name + rest, name) == Some(rest),
        (name + rest)[0] == name[0],
        (name + rest)[1] == name[1],
        (name + rest).len() > 1,
{
    lemma_reads(name, rest);
}

/// A comparison is read as one of the value that its name stands for.
pub proof fn law_named_comparisons_are_read(op: CmpOp, n: i64)
    requires
        n >= 0,
    ensures
        precedence::is_predicate_text(
            "Year"@ + written_comparison(op, n),
            PredicateModel::Year(op, n),
        ),
        precedence::is_predicate_text(
            "PlayCount"@ + written_comparison(op, n),
            PredicateModel::PlayCount(op, n),
        ),
        precedence::is_predicate_text(
            "Rating"@ + written_comparison(op, n),
            PredicateModel::Rating(op, n),
        ),
        precedence::is_predicate_text(
            "AlbumRating"@ + written_comparison(op, n),
            PredicateModel::AlbumRating(op, n),
        ),
{
    let c = written_comparison(op, n);
    reveal_strlit("Year");
    reveal_strlit("PlayCount");
    reveal_strlit("Rating");
    reveal_strlit("AlbumRating");
    law_comparison_is_read(op, n);
    lemma_named("Year"@, c);
    lemma_only("Year"@ + c);
    lemma_named("PlayCount"@, c);
    lemma_only("PlayCount"@ + c);
    lemma_named("Rating"@, c);
    lemma_only("Rating"@ + c);
    lemma_named("AlbumRating"@, c);
    lemma_only("AlbumRating"@ + c);
    reveal_strlit("is");
    let w = written_op(op) + (seq![' '] + written_number(n));
    assert(w[0] == written_op(op)[0]);
    lemma_reads_not(w, "is"@, 0);
}

/// A missing rating is asked for by `is null`.
pub proof fn law_null_rating_is_read()
    ensures
        precedence::is_predicate_text("Rating is null"@, PredicateModel::RatingNull),
{
    reveal_strlit("Rating is null");
    reveal_strlit("Rating");
    reveal_strlit("is");
    reveal_strlit("null");
    let rest = seq![' '] + ("is"@ + (seq![' '] + ("null"@ + Seq::empty())));
    assert("Rating is null"@ =~= "Rating"@ + rest);
    lemma_named("Rating"@, rest);
    lemma_reads("is"@, seq![' '] + ("null"@ + Seq::empty()));
    lemma_reads("null"@, Seq::empty());
}

// ── Texts ────────────────────────────────────────────────────────────────────

/// A text in quotation marks, with a blank before it.
pub open spec fn written_text(v: Seq<char>) -> Seq<char> {
    seq![' '] + (seq!['"'] + v + seq!['"'] + Seq::empty())
}

/// Playlists and tags are named in quotation marks.
pub proof fn law_named_lists_are_read(v: Seq<char>)
    requires
        !v.contains('"'),
    ensures
        precedence::is_predicate_text(
            "InPlaylist"@ + written_text(v),
            PredicateModel::InPlaylist(v),
        ),
        precedence::is_predicate_text(
            "NotInPlaylist"@ + written_text(v),
            PredicateModel::NotInPlaylist(v),
        ),
        precedence::is_predicate_text("HasTag"@ + written_text(v), PredicateModel::HasTag(v)),
{
    let t = written_text(v);
    reveal_strlit("InPlaylist");
    reveal_strlit("NotInPlaylist");
    reveal_strlit("HasTag");
    lemma_quoted(v, Seq::empty());
    lemma_named("InPlaylist"@, t);
    lemma_only("InPlaylist"@ + t);
    lemma_named("NotInPlaylist"@, t);
    lemma_only("NotInPlaylist"@ + t);
    lemma_named("HasTag"@, t);
    lemma_only("HasTag"@ + t);
}

/// How a test of a text is written.
pub open spec fn written_test(op: StrOp, v: Seq<char>) -> Seq<char> {
    seq![' '] + (match op {
        StrOp::Is => "is"@,
        StrOp::Contains => "contains"@,
    } + written_text(v))
}

/// A test of a text is read as one of the text that its name stands for.
pub proof fn law_text_tests_are_read(op: StrOp, v: Seq<char>)
    requires
        !v.contains('"'),
    ensures
        precedence::is_predicate_text(
            "Title"@ + written_test(op, v),
            PredicateModel::Title(op, v),
        ),
        precedence::is_predicate_text(
            "Artist"@ + written_test(op, v),
            PredicateModel::Artist(op, v),
        ),
        precedence::is_predicate_text(
            "Genre"@ + written_test(op, v),
            PredicateModel::Genre(op, v),
        ),
{
    let t = written_test(op, v);
    reveal_strlit("Title");
    reveal_strlit("Artist");
    reveal_strlit("Genre");
    reveal_strlit("is");
    reveal_strlit("contains");
    lemma_quoted(v, Seq::empty());
    match op {
        StrOp::Contains => {
            lemma_reads("contains"@, written_text(v));
        },
        StrOp::Is => {
            lemma_reads("is"@, written_text(v));
            lemma_reads_not("is"@ + written_text(v), "contains"@, 0);
        },
    }
    assert(grammar::string_test(t) == Some(((op, v), Seq::<char>::empty())));
    lemma_named("Title"@, t);
    lemma_only("Title"@ + t);
    lemma_named("Artist"@, t);
    lemma_only("Artist"@ + t);
    lemma_named("Genre"@, t);
    lemma_only("Genre"@ + t);
}

// ── Times ────────────────────────────────────────────────────────────────────

/// How a unit of time is written.
pub open spec fn written_unit(unit: TimeUnit) -> Seq<char> {
    match unit {
        TimeUnit::Days => "Days"@,
        TimeUnit::Weeks => "Weeks"@,
        TimeUnit::Months => "Months"@,
        TimeUnit::Years => "Years"@,
    }
}

/// A span of time is read with its direction, its number and its unit.
pub proof fn law_spans_of_time_are_read(dir: LastPlayedDir, n: i64, unit: TimeUnit)
    requires
        n >= 0,
    ensures
        precedence::is_predicate_text(
            "LastPlayed"@ + (seq![' '] + (match dir {
                LastPlayedDir::InLast => "InLast"@,
                LastPlayedDir::NotInLast => "NotInLast"@,
            } + (seq![' '] + (written_number(n) + (seq![' '] + written_unit(unit)))))),
            PredicateModel::LastPlayed(dir, n, unit),
        ),
{
    reveal_strlit("LastPlayed");
    reveal_strlit("InLast");
    reveal_strlit("NotInLast");
    reveal_strlit("Days");
    reveal_strlit("Weeks");
    reveal_strlit("Months");
    reveal_strlit("Years");
    let u = written_unit(unit);
    let count = seq![' '] + (written_number(n) + (seq![' '] + u));
    let d = match dir {
        LastPlayedDir::InLast => "InLast"@,
        LastPlayedDir::NotInLast => "NotInLast"@,
    };
    let t = seq![' '] + (d + count);
    lemma_number(n, seq![' '] + u);
    assert(u + Seq::<char>::empty() =~= u);
    lemma_reads(u, Seq::empty());
    match unit {
        TimeUnit::Days => {},
        TimeUnit::Weeks => {
            lemma_reads_not(u, "Days"@, 0);
        },
        TimeUnit::Months => {
            lemma_reads_not(u, "Days"@, 0);
            lemma_reads_not(u, "Weeks"@, 0);
        },
        TimeUnit::Years => {
            lemma_reads_not(u, "Days"@, 0);
            lemma_reads_not(u, "Weeks"@, 0);
            lemma_reads_not(u, "Months"@, 0);
        },
    }
    assert(grammar::time_unit(seq![' '] + u) == Some((unit, Seq::<char>::empty())));
    lemma_reads(d, count);
    if dir is InLast {
        assert((d + count)[0] == 'I');
        lemma_reads_not(d + count, "NotInLast"@, 0);
    }
    assert(grammar::played_test(t) == Some(((dir, n, unit), Seq::<char>::empty())));
    lemma_named("LastPlayed"@, t);
    lemma_only("LastPlayed"@ + t);
}

// ── Limits ───────────────────────────────────────────────────────────────────

/// How the unit of a limit is written.
pub open spec fn written_limit_unit(unit: LimitUnit) -> Seq<char> {
    match unit {
        LimitUnit::Tracks => "tracks"@,
        LimitUnit::Minutes => "minutes"@,
        LimitUnit::Hours => "hours"@,
    }
}

/// A limit is read with its number and its unit.
pub proof fn law_limits_are_read(n: i64, unit: LimitUnit)
    requires
        n >= 0,
    ensures
        grammar::limit(
            seq![' '] + ("LIMIT"@ + (seq![' '] + (written_number(n) + (seq![' ']
                + written_limit_unit(unit))))),
        ) == Some((Limit { value: n, unit }, Seq::<char>::empty())),
{
    reveal_strlit("LIMIT");
    reveal_strlit("tracks");
    reveal_strlit("minutes");
    reveal_strlit("hours");
    let u = written_limit_unit(unit);
    let count = seq![' '] + (written_number(n) + (seq![' '] + u));
    lemma_number(n, seq![' '] + u);
    assert(u + Seq::<char>::empty() =~= u);
    lemma_reads(u, Seq::empty());
    lemma_reads("LIMIT"@, count);
    match unit {
        LimitUnit::Tracks => {},
        LimitUnit::Minutes => {
            lemma_reads_not(u, "tracks"@, 0);
        },
        LimitUnit::Hours => {
            lemma_reads_not(u, "tracks"@, 0);
            lemma_reads_not(u, "minutes"@, 0);
        },
    }
}

} // verus!
