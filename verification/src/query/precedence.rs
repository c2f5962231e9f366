//! How the parts of a query combine.
//!
//! A negation reaches one factor, `AND` binds before `OR`, each groups from the
//! left, and brackets come before all of them. The laws speak of texts that hold
//! one predicate each, joined as a user would write them.
use vstd::prelude::*;
use crate::text;
use super::grammar;
use super::{ExprModel, PredicateModel};

verus! {

/// Whether a text holds just one predicate, without blanks around it.
pub open spec fn is_predicate_text(a: Seq<char>, p: PredicateModel) -> bool {
    &&& a.len() > 0
    &&& !grammar::is_blank(a[0])
    &&& grammar::predicate(a) == Some((p, Seq::<char>::empty()))
}

/// Whether no token of a predicate can reach into `x`: it is empty, or begins with
/// a blank or a closing bracket.
spec fn stops(x: Seq<char>) -> bool {
    x.len() == 0 || grammar::is_blank(x[0]) || x[0] == ')'
}

/// Whether a literal has neither blanks nor closing brackets.
spec fn is_token(w: Seq<char>) -> bool {
    &&& w.len() > 0
    &&& forall|i: int| 0 <= i < w.len() ==> !grammar::is_blank(#[trigger] w[i]) && w[i] != ')'
}

// ── Tokens ───────────────────────────────────────────────────────────────────

proof fn lemma_blanks(s: Seq<char>, x: Seq<char>)
    requires
        grammar::after_blanks(s).len() > 0,
    ensures
        grammar::after_blanks(s + x) == grammar::after_blanks(s) + x,
    decreases s.len(),
{
    if grammar::is_blank(s[0]) {
        lemma_blanks(s.skip(1), x);
        assert((s + x).skip(1) =~= s.skip(1) + x);
    }
}

proof fn lemma_no_blanks(s: Seq<char>)
    ensures
        grammar::after_blanks(s).len() <= s.len(),
        grammar::after_blanks(s).len() > 0 ==> !grammar::is_blank(grammar::after_blanks(s)[0]),
    decreases s.len(),
{
    if s.len() > 0 && grammar::is_blank(s[0]) {
        lemma_no_blanks(s.skip(1));
    }
}

/// A literal that is read stands at the front.
proof fn lemma_front(s: Seq<char>, w: Seq<char>)
    requires
        grammar::after_word(s, w) is Some,
    ensures
        w.len() <= grammar::after_blanks(s).len(),
        forall|i: int| 0 <= i < w.len() ==> #[trigger] grammar::after_blanks(s)[i] == w[i],
{
    let t = grammar::after_blanks(s);
    assert forall|i: int| 0 <= i < w.len() implies #[trigger] t[i] == w[i] by {
        assert(t.subrange(0, w.len() as int)[i] == w[i]);
    }
}

/// What follows does not change whether a literal is read.
proof fn lemma_word(s: Seq<char>, w: Seq<char>, x: Seq<char>)
    requires
        is_token(w),
        stops(x),
        grammar::after_blanks(s).len() > 0,
    ensures
        grammar::after_word(s + x, w) == match grammar::after_word(s, w) {
            Some(t) => Some(t + x),
            None => None,
        },
{
    let t = grammar::after_blanks(s);
    let n = w.len() as int;
    lemma_blanks(s, x);
    if w.len() <= t.len() {
        assert((t + x).subrange(0, n) =~= t.subrange(0, n));
        assert((t + x).skip(n) =~= t.skip(n) + x);
    } else if w.is_prefix_of(t + x) {
        let k = t.len() as int;
        assert((t + x).subrange(0, n)[k] == w[k]);
        assert(x[0] == w[k]);
    }
}

proof fn lemma_literals()
    ensures
        is_token(">="@),
        is_token("<="@),
        is_token(">"@),
        is_token("<"@),
        is_token("="@),
        is_token("!="@),
        is_token("contains"@),
        is_token("is"@),
        is_token("null"@),
        is_token("Days"@),
        is_token("Weeks"@),
        is_token("Months"@),
        is_token("Years"@),
        is_token("NotInLast"@),
        is_token("InLast"@),
{
    reveal_strlit(">=");
    reveal_strlit("<=");
    reveal_strlit(">");
    reveal_strlit("<");
    reveal_strlit("=");
    reveal_strlit("!=");
    reveal_strlit("contains");
    reveal_strlit("is");
    reveal_strlit("null");
    reveal_strlit("Days");
    reveal_strlit("Weeks");
    reveal_strlit("Months");
    reveal_strlit("Years");
    reveal_strlit("NotInLast");
    reveal_strlit("InLast");
}

proof fn lemma_names()
    ensures
        is_token("Rating"@),
        is_token("AlbumRating"@),
        is_token("LastPlayed"@),
        is_token("PlayCount"@),
        is_token("InPlaylist"@),
        is_token("NotInPlaylist"@),
        is_token("HasTag"@),
        is_token("Title"@),
        is_token("Artist"@),
        is_token("Genre"@),
        is_token("Year"@),
{
    reveal_strlit("Rating");
    reveal_strlit("AlbumRating");
    reveal_strlit("LastPlayed");
    reveal_strlit("PlayCount");
    reveal_strlit("InPlaylist");
    reveal_strlit("NotInPlaylist");
    reveal_strlit("HasTag");
    reveal_strlit("Title");
    reveal_strlit("Artist");
    reveal_strlit("Genre");
    reveal_strlit("Year");
}

proof fn lemma_digits(s: Seq<char>)
    ensures
        0 <= grammar::digits_len(s) <= s.len(),
        forall|i: int| 0 <= i < grammar::digits_len(s) ==> text::is_digit(#[trigger] s[i]),
        grammar::digits_len(s) < s.len() ==> !text::is_digit(s[grammar::digits_len(s)]),
    decreases s.len(),
{
    if s.len() > 0 && text::is_digit(s[0]) {
        let t = s.skip(1);
        lemma_digits(t);
        assert forall|i: int| 0 <= i < grammar::digits_len(s) implies text::is_digit(
            #[trigger] s[i],
        ) by {
            if i > 0 {
                assert(t[i - 1] == s[i]);
            }
        }
    }
}

proof fn lemma_word_chars(s: Seq<char>)
    ensures
        0 <= grammar::word_len(s) <= s.len(),
        forall|i: int| 0 <= i < grammar::word_len(s) ==> grammar::is_word_char(#[trigger] s[i]),
        grammar::word_len(s) < s.len() ==> !grammar::is_word_char(s[grammar::word_len(s)]),
    decreases s.len(),
{
    if s.len() > 0 && grammar::is_word_char(s[0]) {
        let t = s.skip(1);
        lemma_word_chars(t);
        assert forall|i: int| 0 <= i < grammar::word_len(s) implies grammar::is_word_char(
            #[trigger] s[i],
        ) by {
            if i > 0 {
                assert(t[i - 1] == s[i]);
            }
        }
    }
}

// ── Rules ────────────────────────────────────────────────────────────────────
//
// A rule that reads a text reads the same from the text with more behind it.

proof fn lemma_integer(s: Seq<char>, x: Seq<char>)
    requires
        stops(x),
    ensures
        grammar::integer(s) matches Some((n, r)) ==> grammar::integer(s + x) == Some((n, r + x)),
{
    let t = grammar::after_blanks(s);
    let n = grammar::digits_len(t);
    if grammar::integer(s) is Some {
        lemma_blanks(s, x);
        lemma_digits(t);
        let all = t + x;
        assert forall|i: int| 0 <= i < n implies text::is_digit(#[trigger] all[i]) by {
            assert(all[i] == t[i]);
        }
        if n < all.len() {
            if n < t.len() {
                assert(all[n] == t[n]);
            } else {
                assert(all[n] == x[0]);
            }
        }
        grammar::lemma_digits_len(all, n);
        assert(all.take(n) =~= t.take(n));
        assert(all.skip(n) =~= t.skip(n) + x);
    }
}

proof fn lemma_string(s: Seq<char>, x: Seq<char>)
    requires
        stops(x),
    ensures
        grammar::string(s) matches Some((v, r)) ==> grammar::string(s + x) == Some((v, r + x)),
{
    let t = grammar::after_blanks(s);
    let all = t + x;
    if grammar::string(s) is Some {
        if t.len() > 0 && t[0] == '"' {
            lemma_blanks(s, x);
            let u = t.skip(1);
            let n = text::first_at(u, '"');
            text::lemma_first_at(u, '"');
            assert(all.skip(1) =~= u + x);
            assert forall|k: int| 0 <= k < n implies (u + x)[k] != '"' by {
                assert((u + x)[k] == u[k]);
            }
            assert((u + x)[n] == u[n]);
            text::lemma_first_at_is(u + x, '"', n);
            assert((u + x).take(n) =~= u.take(n));
            assert((u + x).skip(n + 1) =~= u.skip(n + 1) + x);
        } else {
            let n = grammar::word_len(t);
            lemma_word_chars(t);
            lemma_blanks(s, x);
            assert forall|i: int| 0 <= i < n implies grammar::is_word_char(#[trigger] all[i]) by {
                assert(all[i] == t[i]);
            }
            if n < all.len() {
                if n < t.len() {
                    assert(all[n] == t[n]);
                } else {
                    assert(all[n] == x[0]);
                }
            }
            grammar::lemma_word_len(all, n);
            assert(all.take(n) =~= t.take(n));
            assert(all.skip(n) =~= t.skip(n) + x);
            assert(all[0] == t[0]);
        }
    }
}

proof fn lemma_comparison(s: Seq<char>, x: Seq<char>)
    requires
        stops(x),
    ensures
        grammar::comparison(s) matches Some((v, r)) ==> grammar::comparison(s + x) == Some(
            (v, r + x),
        ),
        grammar::comparison(s) is Some ==> grammar::after_blanks(s).len() > 0 && (
        grammar::after_blanks(s)[0] == '>' || grammar::after_blanks(s)[0] == '<'
            || grammar::after_blanks(s)[0] == '=' || grammar::after_blanks(s)[0] == '!'),
{
    lemma_literals();
    if let Some((op, t)) = grammar::cmp_op(s) {
        reveal_strlit(">=");
        reveal_strlit("<=");
        reveal_strlit(">");
        reveal_strlit("<");
        reveal_strlit("=");
        reveal_strlit("!=");
        if grammar::after_word(s, ">="@) is Some {
            lemma_front(s, ">="@);
        } else if grammar::after_word(s, "<="@) is Some {
            lemma_front(s, "<="@);
        } else if grammar::after_word(s, ">"@) is Some {
            lemma_front(s, ">"@);
        } else if grammar::after_word(s, "<"@) is Some {
            lemma_front(s, "<"@);
        } else if grammar::after_word(s, "="@) is Some {
            lemma_front(s, "="@);
        } else {
            lemma_front(s, "!="@);
        }
        lemma_word(s, ">="@, x);
        lemma_word(s, "<="@, x);
        lemma_word(s, ">"@, x);
        lemma_word(s, "<"@, x);
        lemma_word(s, "="@, x);
        lemma_word(s, "!="@, x);
        assert(grammar::cmp_op(s + x) == Some((op, t + x)));
        lemma_integer(t, x);
    }
}

proof fn lemma_string_test(s: Seq<char>, x: Seq<char>)
    requires
        stops(x),
    ensures
        grammar::string_test(s) matches Some((v, r)) ==> grammar::string_test(s + x) == Some(
            (v, r + x),
        ),
{
    lemma_literals();
    if grammar::string_test(s) is Some {
        if let Some(t) = grammar::after_word(s, "contains"@) {
            lemma_front(s, "contains"@);
            lemma_word(s, "contains"@, x);
            lemma_string(t, x);
        } else {
            let t = grammar::after_word(s, "is"@)->0;
            lemma_front(s, "is"@);
            lemma_word(s, "contains"@, x);
            lemma_word(s, "is"@, x);
            lemma_string(t, x);
        }
    }
}

proof fn lemma_time_unit(s: Seq<char>, x: Seq<char>)
    requires
        stops(x),
    ensures
        grammar::time_unit(s) matches Some((v, r)) ==> grammar::time_unit(s + x) == Some(
            (v, r + x),
        ),
{
    lemma_literals();
    if grammar::time_unit(s) is Some {
        if grammar::after_word(s, "Days"@) is Some {
            lemma_front(s, "Days"@);
        } else if grammar::after_word(s, "Weeks"@) is Some {
            lemma_front(s, "Weeks"@);
        } else if grammar::after_word(s, "Months"@) is Some {
            lemma_front(s, "Months"@);
        } else {
            lemma_front(s, "Years"@);
        }
        lemma_word(s, "Days"@, x);
        lemma_word(s, "Weeks"@, x);
        lemma_word(s, "Months"@, x);
        lemma_word(s, "Years"@, x);
    }
}

proof fn lemma_played_test(s: Seq<char>, x: Seq<char>)
    requires
        stops(x),
    ensures
        grammar::played_test(s) matches Some((v, r)) ==> grammar::played_test(s + x) == Some(
            (v, r + x),
        ),
{
    lemma_literals();
    if grammar::played_test(s) is Some {
        let t = if grammar::after_word(s, "NotInLast"@) is Some {
            lemma_front(s, "NotInLast"@);
            grammar::after_word(s, "NotInLast"@)->0
        } else {
            lemma_front(s, "InLast"@);
            grammar::after_word(s, "InLast"@)->0
        };
        lemma_word(s, "NotInLast"@, x);
        lemma_word(s, "InLast"@, x);
        lemma_integer(t, x);
        let (_n, u) = grammar::integer(t)->0;
        lemma_time_unit(u, x);
    }
}

proof fn lemma_rating_test(s: Seq<char>, x: Seq<char>)
    requires
        stops(x),
    ensures
        grammar::rating_test(s) matches Some((v, r)) ==> grammar::rating_test(s + x) == Some(
            (v, r + x),
        ),
{
    lemma_literals();
    if grammar::rating_test(s) is Some {
        if let Some(t) = grammar::after_word(s, "is"@) {
            lemma_front(s, "is"@);
            lemma_word(s, "is"@, x);
            if grammar::after_word(t, "null"@) is Some {
                lemma_front(t, "null"@);
                lemma_word(t, "null"@, x);
            } else {
                reveal_strlit("is");
                lemma_comparison(s, x);
                assert(grammar::after_blanks(s)[0] == 'i');
            }
        } else {
            lemma_comparison(s, x);
            lemma_word(s, "is"@, x);
        }
    }
}

/// The first word of a predicate is no bracket and no `NOT`.
proof fn lemma_predicate_front(s: Seq<char>)
    requires
        grammar::predicate(s) is Some,
    ensures
        ({
            let t = grammar::after_blanks(s);
            &&& t.len() >= 4
            &&& t[0] != '('
            &&& t[0] != ')'
            &&& t[0] == 'N' ==> t[1] == 'o'
        }),
{
    reveal_strlit("Rating");
    reveal_strlit("AlbumRating");
    reveal_strlit("LastPlayed");
    reveal_strlit("PlayCount");
    reveal_strlit("InPlaylist");
    reveal_strlit("NotInPlaylist");
    reveal_strlit("HasTag");
    reveal_strlit("Title");
    reveal_strlit("Artist");
    reveal_strlit("Genre");
    reveal_strlit("Year");
    if grammar::after_word(s, "Rating"@) is Some {
        lemma_front(s, "Rating"@);
    } else if grammar::after_word(s, "AlbumRating"@) is Some {
        lemma_front(s, "AlbumRating"@);
    } else if grammar::after_word(s, "LastPlayed"@) is Some {
        lemma_front(s, "LastPlayed"@);
    } else if grammar::after_word(s, "PlayCount"@) is Some {
        lemma_front(s, "PlayCount"@);
    } else if grammar::after_word(s, "InPlaylist"@) is Some {
        lemma_front(s, "InPlaylist"@);
    } else if grammar::after_word(s, "NotInPlaylist"@) is Some {
        lemma_front(s, "NotInPlaylist"@);
        assert("NotInPlaylist"@[1] == 'o');
    } else if grammar::after_word(s, "HasTag"@) is Some {
        lemma_front(s, "HasTag"@);
    } else if grammar::after_word(s, "Title"@) is Some {
        lemma_front(s, "Title"@);
    } else if grammar::after_word(s, "Artist"@) is Some {
        lemma_front(s, "Artist"@);
    } else if grammar::after_word(s, "Genre"@) is Some {
        lemma_front(s, "Genre"@);
    } else {
        lemma_front(s, "Year"@);
    }
}

/// A predicate is read the same with more text behind it.
proof fn lemma_predicate(s: Seq<char>, x: Seq<char>)
    requires
        stops(x),
        grammar::predicate(s) is Some,
    ensures
        grammar::predicate(s) matches Some((p, r)) ==> grammar::predicate(s + x) == Some(
            (p, r + x),
        ),
{
    lemma_names();
    lemma_predicate_front(s);
    lemma_word(s, "Rating"@, x);
    lemma_word(s, "AlbumRating"@, x);
    lemma_word(s, "LastPlayed"@, x);
    lemma_word(s, "PlayCount"@, x);
    lemma_word(s, "InPlaylist"@, x);
    lemma_word(s, "NotInPlaylist"@, x);
    lemma_word(s, "HasTag"@, x);
    lemma_word(s, "Title"@, x);
    lemma_word(s, "Artist"@, x);
    lemma_word(s, "Genre"@, x);
    lemma_word(s, "Year"@, x);
    if let Some(t) = grammar::after_word(s, "Rating"@) {
        lemma_rating_test(t, x);
    } else if let Some(t) = grammar::after_word(s, "AlbumRating"@) {
        lemma_comparison(t, x);
    } else if let Some(t) = grammar::after_word(s, "LastPlayed"@) {
        lemma_played_test(t, x);
    } else if let Some(t) = grammar::after_word(s, "PlayCount"@) {
        lemma_comparison(t, x);
    } else if let Some(t) = grammar::after_word(s, "InPlaylist"@) {
        lemma_string(t, x);
    } else if let Some(t) = grammar::after_word(s, "NotInPlaylist"@) {
        lemma_string(t, x);
    } else if let Some(t) = grammar::after_word(s, "HasTag"@) {
        lemma_string(t, x);
    } else if let Some(t) = grammar::after_word(s, "Title"@) {
        lemma_string_test(t, x);
    } else if let Some(t) = grammar::after_word(s, "Artist"@) {
        lemma_string_test(t, x);
    } else if let Some(t) = grammar::after_word(s, "Genre"@) {
        lemma_string_test(t, x);
    } else if let Some(t) = grammar::after_word(s, "Year"@) {
        lemma_comparison(t, x);
    }
}

// ── Expressions ──────────────────────────────────────────────────────────────

/// The conjunction of two expressions.
pub open spec fn and_of(l: ExprModel, r: ExprModel) -> ExprModel {
    ExprModel::And(Box::new(l), Box::new(r))
}

/// The disjunction of two expressions.
pub open spec fn or_of(l: ExprModel, r: ExprModel) -> ExprModel {
    ExprModel::Or(Box::new(l), Box::new(r))
}

/// The negation of an expression.
pub open spec fn not_of(e: ExprModel) -> ExprModel {
    ExprModel::Not(Box::new(e))
}

/// Whether a text reads as a predicate, whatever blanks stand before it.
spec fn reads(a: Seq<char>, p: PredicateModel) -> bool {
    grammar::predicate(a) == Some((p, Seq::<char>::empty()))
}

proof fn lemma_literal_joints()
    ensures
        "("@ == seq!['('],
        ")"@ == seq![')'],
        "AND"@ == seq!['A', 'N', 'D'],
        "OR"@ == seq!['O', 'R'],
        "NOT"@ == seq!['N', 'O', 'T'],
        "NOT "@ == seq!['N', 'O', 'T', ' '],
        "NOT ("@ == seq!['N', 'O', 'T', ' ', '('],
        " AND "@ == seq![' ', 'A', 'N', 'D', ' '],
        " OR "@ == seq![' ', 'O', 'R', ' '],
        ") AND "@ == seq![')', ' ', 'A', 'N', 'D', ' '],
{
    reveal_strlit("(");
    reveal_strlit(")");
    reveal_strlit("AND");
    reveal_strlit("OR");
    reveal_strlit("NOT");
    reveal_strlit("NOT ");
    reveal_strlit("NOT (");
    reveal_strlit(" AND ");
    reveal_strlit(" OR ");
    reveal_strlit(") AND ");
    assert("("@ =~= seq!['(']);
    assert(")"@ =~= seq![')']);
    assert("AND"@ =~= seq!['A', 'N', 'D']);
    assert("OR"@ =~= seq!['O', 'R']);
    assert("NOT"@ =~= seq!['N', 'O', 'T']);
    assert("NOT "@ =~= seq!['N', 'O', 'T', ' ']);
    assert("NOT ("@ =~= seq!['N', 'O', 'T', ' ', '(']);
    assert(" AND "@ =~= seq![' ', 'A', 'N', 'D', ' ']);
    assert(" OR "@ =~= seq![' ', 'O', 'R', ' ']);
    assert(") AND "@ =~= seq![')', ' ', 'A', 'N', 'D', ' ']);
}

/// A literal is not read where another character stands.
proof fn lemma_other_front(s: Seq<char>, w: Seq<char>, i: int)
    requires
        0 <= i < w.len(),
        i < grammar::after_blanks(s).len() ==> grammar::after_blanks(s)[i] != w[i],
    ensures
        grammar::after_word(s, w) is None,
{
    if grammar::after_word(s, w) is Some {
        lemma_front(s, w);
    }
}

/// A literal at the front is read.
proof fn lemma_read_word(s: Seq<char>, w: Seq<char>, r: Seq<char>)
    requires
        grammar::after_blanks(s) == w + r,
    ensures
        grammar::after_word(s, w) == Some(r),
{
    assert((w + r).subrange(0, w.len() as int) =~= w);
    assert((w + r).skip(w.len() as int) =~= r);
}

/// One blank more in front changes nothing.
proof fn lemma_blank_before(b: Seq<char>)
    ensures
        grammar::predicate(seq![' '] + b) == grammar::predicate(b),
        grammar::after_blanks(seq![' '] + b) == grammar::after_blanks(b),
{
    assert((seq![' '] + b).skip(1) =~= b);
    assert(grammar::after_blanks(seq![' '] + b) == grammar::after_blanks(b));
}

/// A predicate is a factor.
proof fn lemma_factor(a: Seq<char>, p: PredicateModel, x: Seq<char>)
    requires
        reads(a, p),
        stops(x),
    ensures
        grammar::factor(a + x) == Some((ExprModel::Pred(p), x)),
        a.len() > 0,
{
    lemma_predicate(a, x);
    lemma_predicate_front(a);
    lemma_blanks(a, x);
    lemma_no_blanks(a);
    lemma_literal_joints();
    let t = grammar::after_blanks(a);
    assert((t + x)[0] == t[0] && (t + x)[1] == t[1]);
    lemma_other_front(a + x, "("@, 0);
    if t[0] == 'N' {
        lemma_other_front(a + x, "NOT"@, 1);
    } else {
        lemma_other_front(a + x, "NOT"@, 0);
    }
    assert(Seq::<char>::empty() + x =~= x);
}

/// Where neither joint stands, nothing more is joined.
proof fn lemma_tails_end(left: ExprModel, x: Seq<char>)
    requires
        x.len() == 0 || x[0] == ')',
    ensures
        grammar::and_tail(left, x) == (left, x),
        grammar::or_tail(left, x) == (left, x),
{
    lemma_literal_joints();
    lemma_other_front(x, "AND"@, 0);
    lemma_other_front(x, "OR"@, 0);
}

/// `AND` joins the predicate after it.
proof fn lemma_and_joins(left: ExprModel, b: Seq<char>, q: PredicateModel, x: Seq<char>)
    requires
        reads(b, q),
        stops(x),
    ensures
        grammar::and_tail(left, " AND "@ + (b + x)) == grammar::and_tail(
            and_of(left, ExprModel::Pred(q)),
            x,
        ),
{
    lemma_literal_joints();
    let s = " AND "@ + (b + x);
    let t = seq![' '] + b;
    assert(s.skip(1) =~= "AND"@ + (t + x));
    assert(grammar::after_blanks(s.skip(1)) == s.skip(1));
    lemma_read_word(s, "AND"@, t + x);
    lemma_blank_before(b);
    lemma_factor(t, q, x);
}

/// `OR` joins the conjunction after it.
proof fn lemma_or_joins(left: ExprModel, r: Seq<char>, e: ExprModel, u: Seq<char>)
    requires
        grammar::and_expr(seq![' '] + r) == Some((e, u)),
        u.len() <= r.len(),
    ensures
        grammar::or_tail(left, " OR "@ + r) == grammar::or_tail(or_of(left, e), u),
        grammar::and_tail(left, " OR "@ + r) == (left, " OR "@ + r),
{
    lemma_literal_joints();
    let s = " OR "@ + r;
    let t = seq![' '] + r;
    assert(s.skip(1) =~= "OR"@ + t);
    assert(grammar::after_blanks(s.skip(1)) == s.skip(1));
    lemma_read_word(s, "OR"@, t);
    lemma_other_front(s, "AND"@, 0);
}

/// A predicate before the end, or before a closing bracket, is a conjunction.
proof fn lemma_lone_and(b: Seq<char>, q: PredicateModel, x: Seq<char>)
    requires
        reads(b, q),
        x.len() == 0 || x[0] == ')',
    ensures
        grammar::and_expr(seq![' '] + (b + x)) == Some((ExprModel::Pred(q), x)),
        grammar::and_expr(b + x) == Some((ExprModel::Pred(q), x)),
{
    let t = seq![' '] + b;
    lemma_blank_before(b);
    lemma_factor(t, q, x);
    lemma_factor(b, q, x);
    assert(seq![' '] + (b + x) =~= t + x);
    lemma_tails_end(ExprModel::Pred(q), x);
}

/// Two predicates around `AND` are a conjunction.
proof fn lemma_two_and(
    a: Seq<char>,
    p: PredicateModel,
    b: Seq<char>,
    q: PredicateModel,
    x: Seq<char>,
)
    requires
        reads(a, p),
        reads(b, q),
        x.len() == 0 || x[0] == ')',
    ensures
        grammar::and_expr(a + (" AND "@ + (b + x))) == Some(
            (and_of(ExprModel::Pred(p), ExprModel::Pred(q)), x),
        ),
        grammar::and_expr(seq![' '] + (a + (" AND "@ + (b + x)))) == Some(
            (and_of(ExprModel::Pred(p), ExprModel::Pred(q)), x),
        ),
{
    let y = " AND "@ + (b + x);
    let t = seq![' '] + a;
    lemma_literal_joints();
    lemma_blank_before(a);
    lemma_factor(a, p, y);
    lemma_factor(t, p, y);
    assert(seq![' '] + (a + y) =~= t + y);
    lemma_and_joins(ExprModel::Pred(p), b, q, x);
    lemma_tails_end(and_of(ExprModel::Pred(p), ExprModel::Pred(q)), x);
}

/// Two predicates around `OR` are an expression.
proof fn lemma_two_or(
    a: Seq<char>,
    p: PredicateModel,
    b: Seq<char>,
    q: PredicateModel,
    x: Seq<char>,
)
    requires
        reads(a, p),
        reads(b, q),
        x.len() == 0 || x[0] == ')',
    ensures
        grammar::or_expr(a + (" OR "@ + (b + x))) == Some(
            (or_of(ExprModel::Pred(p), ExprModel::Pred(q)), x),
        ),
{
    let y = " OR "@ + (b + x);
    lemma_literal_joints();
    lemma_factor(a, p, y);
    lemma_lone_and(b, q, x);
    lemma_or_joins(ExprModel::Pred(p), b + x, ExprModel::Pred(q), x);
    assert(grammar::and_expr(a + y) == Some((ExprModel::Pred(p), y)));
    lemma_tails_end(or_of(ExprModel::Pred(p), ExprModel::Pred(q)), x);
}

/// An expression up to the end of the text is the whole query.
proof fn lemma_whole(s: Seq<char>, e: ExprModel)
    requires
        s.len() > 0,
        !grammar::is_blank(s[0]),
        grammar::or_expr(s) == Some((e, Seq::<char>::empty())),
    ensures
        grammar::query(s) == Some((e, None::<super::Limit>)),
{
    reveal_strlit("LIMIT");
    lemma_other_front(Seq::empty(), "LIMIT"@, 0);
}

/// What the joints between predicates begin with.
proof fn lemma_joint_starts()
    ensures
        " AND "@.len() == 5,
        " AND "@[0] == ' ',
        " OR "@.len() == 4,
        " OR "@[0] == ' ',
        "("@.len() == 1,
        "("@[0] == '(',
        ")"@.len() == 1,
        ")"@[0] == ')',
        "NOT"@.len() == 3,
        "NOT"@[0] == 'N',
        "NOT "@.len() == 4,
        "NOT "@[0] == 'N',
        ") AND "@ == ")"@ + " AND "@,
        "NOT ("@ == "NOT"@ + (seq![' '] + "("@),
{
    lemma_literal_joints();
    assert(") AND "@ =~= ")"@ + " AND "@);
    assert("NOT ("@ =~= "NOT"@ + (seq![' '] + "("@));
}

proof fn lemma_regroup(a: Seq<char>, j: Seq<char>, b: Seq<char>, k: Seq<char>, c: Seq<char>)
    ensures
        a + j + b + k + c == a + (j + (b + (k + (c + Seq::<char>::empty())))),
{
    assert(a + j + b + k + c =~= a + (j + (b + (k + (c + Seq::<char>::empty())))));
}

// ── Laws ─────────────────────────────────────────────────────────────────────

/// `AND` binds before `OR`, on either side of it.
pub proof fn law_and_binds_before_or(
    a: Seq<char>,
    p: PredicateModel,
    b: Seq<char>,
    q: PredicateModel,
    c: Seq<char>,
    r: PredicateModel,
)
    requires
        is_predicate_text(a, p),
        is_predicate_text(b, q),
        is_predicate_text(c, r),
    ensures
        grammar::query(a + " OR "@ + b + " AND "@ + c) == Some(
            (
                or_of(ExprModel::Pred(p), and_of(ExprModel::Pred(q), ExprModel::Pred(r))),
                None::<super::Limit>,
            ),
        ),
        grammar::query(a + " AND "@ + b + " OR "@ + c) == Some(
            (
                or_of(and_of(ExprModel::Pred(p), ExprModel::Pred(q)), ExprModel::Pred(r)),
                None::<super::Limit>,
            ),
        ),
{
    lemma_or_then_and(a, p, b, q, c, r);
    lemma_and_then_or(a, p, b, q, c, r);
}

proof fn lemma_or_then_and(
    a: Seq<char>,
    p: PredicateModel,
    b: Seq<char>,
    q: PredicateModel,
    c: Seq<char>,
    r: PredicateModel,
)
    requires
        is_predicate_text(a, p),
        is_predicate_text(b, q),
        is_predicate_text(c, r),
    ensures
        grammar::query(a + " OR "@ + b + " AND "@ + c) == Some(
            (
                or_of(ExprModel::Pred(p), and_of(ExprModel::Pred(q), ExprModel::Pred(r))),
                None::<super::Limit>,
            ),
        ),
{
    let end = Seq::<char>::empty();
    lemma_joint_starts();
    let right = b + (" AND "@ + (c + end));
    let y = " OR "@ + right;
    let s = a + " OR "@ + b + " AND "@ + c;
    lemma_regroup(a, " OR "@, b, " AND "@, c);
    lemma_factor(a, p, y);
    lemma_two_and(b, q, c, r, end);
    let conj = and_of(ExprModel::Pred(q), ExprModel::Pred(r));
    lemma_or_joins(ExprModel::Pred(p), right, conj, end);
    lemma_tails_end(or_of(ExprModel::Pred(p), conj), end);
    assert(grammar::and_expr(s) == Some((ExprModel::Pred(p), y)));
    lemma_whole(s, or_of(ExprModel::Pred(p), conj));
}

proof fn lemma_and_then_or(
    a: Seq<char>,
    p: PredicateModel,
    b: Seq<char>,
    q: PredicateModel,
    c: Seq<char>,
    r: PredicateModel,
)
    requires
        is_predicate_text(a, p),
        is_predicate_text(b, q),
        is_predicate_text(c, r),
    ensures
        grammar::query(a + " AND "@ + b + " OR "@ + c) == Some(
            (
                or_of(and_of(ExprModel::Pred(p), ExprModel::Pred(q)), ExprModel::Pred(r)),
                None::<super::Limit>,
            ),
        ),
{
    let end = Seq::<char>::empty();
    lemma_joint_starts();
    let z = " OR "@ + (c + end);
    let w = " AND "@ + (b + z);
    let v = a + " AND "@ + b + " OR "@ + c;
    let left = and_of(ExprModel::Pred(p), ExprModel::Pred(q));
    lemma_regroup(a, " AND "@, b, " OR "@, c);
    lemma_factor(a, p, w);
    lemma_and_joins(ExprModel::Pred(p), b, q, z);
    lemma_lone_and(c, r, end);
    lemma_or_joins(left, c + end, ExprModel::Pred(r), end);
    lemma_tails_end(or_of(left, ExprModel::Pred(r)), end);
    assert(grammar::and_expr(v) == Some((left, z)));
    lemma_whole(v, or_of(left, ExprModel::Pred(r)));
}

/// `AND` and `OR` each group from the left.
pub proof fn law_groups_from_the_left(
    a: Seq<char>,
    p: PredicateModel,
    b: Seq<char>,
    q: PredicateModel,
    c: Seq<char>,
    r: PredicateModel,
)
    requires
        is_predicate_text(a, p),
        is_predicate_text(b, q),
        is_predicate_text(c, r),
    ensures
        grammar::query(a + " AND "@ + b + " AND "@ + c) == Some(
            (
                and_of(and_of(ExprModel::Pred(p), ExprModel::Pred(q)), ExprModel::Pred(r)),
                None::<super::Limit>,
            ),
        ),
        grammar::query(a + " OR "@ + b + " OR "@ + c) == Some(
            (
                or_of(or_of(ExprModel::Pred(p), ExprModel::Pred(q)), ExprModel::Pred(r)),
                None::<super::Limit>,
            ),
        ),
{
    lemma_three_and(a, p, b, q, c, r);
    lemma_three_or(a, p, b, q, c, r);
}

proof fn lemma_three_and(
    a: Seq<char>,
    p: PredicateModel,
    b: Seq<char>,
    q: PredicateModel,
    c: Seq<char>,
    r: PredicateModel,
)
    requires
        is_predicate_text(a, p),
        is_predicate_text(b, q),
        is_predicate_text(c, r),
    ensures
        grammar::query(a + " AND "@ + b + " AND "@ + c) == Some(
            (
                and_of(and_of(ExprModel::Pred(p), ExprModel::Pred(q)), ExprModel::Pred(r)),
                None::<super::Limit>,
            ),
        ),
{
    let end = Seq::<char>::empty();
    lemma_joint_starts();
    let y = " AND "@ + (c + end);
    let x = " AND "@ + (b + y);
    let s = a + " AND "@ + b + " AND "@ + c;
    let two = and_of(ExprModel::Pred(p), ExprModel::Pred(q));
    let three = and_of(two, ExprModel::Pred(r));
    lemma_regroup(a, " AND "@, b, " AND "@, c);
    lemma_factor(a, p, x);
    lemma_and_joins(ExprModel::Pred(p), b, q, y);
    lemma_and_joins(two, c, r, end);
    lemma_tails_end(three, end);
    assert(grammar::and_expr(s) == Some((three, end)));
    lemma_whole(s, three);
}

proof fn lemma_three_or(
    a: Seq<char>,
    p: PredicateModel,
    b: Seq<char>,
    q: PredicateModel,
    c: Seq<char>,
    r: PredicateModel,
)
    requires
        is_predicate_text(a, p),
        is_predicate_text(b, q),
        is_predicate_text(c, r),
    ensures
        grammar::query(a + " OR "@ + b + " OR "@ + c) == Some(
            (
                or_of(or_of(ExprModel::Pred(p), ExprModel::Pred(q)), ExprModel::Pred(r)),
                None::<super::Limit>,
            ),
        ),
{
    let end = Seq::<char>::empty();
    lemma_joint_starts();
    let z = " OR "@ + (c + end);
    let w = " OR "@ + (b + z);
    let v = a + " OR "@ + b + " OR "@ + c;
    let first = or_of(ExprModel::Pred(p), ExprModel::Pred(q));
    let all = or_of(first, ExprModel::Pred(r));
    lemma_regroup(a, " OR "@, b, " OR "@, c);
    lemma_factor(a, p, w);
    let lead = seq![' '] + b;
    lemma_blank_before(b);
    lemma_factor(lead, q, z);
    assert(seq![' '] + (b + z) =~= lead + z);
    lemma_lone_and(c, r, end);
    lemma_or_joins(ExprModel::Pred(q), c + end, ExprModel::Pred(r), end);
    assert(grammar::and_expr(lead + z) == Some((ExprModel::Pred(q), z)));
    lemma_or_joins(ExprModel::Pred(p), b + z, ExprModel::Pred(q), z);
    lemma_or_joins(first, c + end, ExprModel::Pred(r), end);
    lemma_tails_end(all, end);
    assert(grammar::and_expr(v) == Some((ExprModel::Pred(p), w)));
    lemma_whole(v, all);
}

/// `NOT` reaches the predicate after it and no further.
pub proof fn law_not_reaches_one_predicate(
    a: Seq<char>,
    p: PredicateModel,
    b: Seq<char>,
    q: PredicateModel,
)
    requires
        is_predicate_text(a, p),
        is_predicate_text(b, q),
    ensures
        grammar::query("NOT "@ + a + " AND "@ + b) == Some(
            (and_of(not_of(ExprModel::Pred(p)), ExprModel::Pred(q)), None::<super::Limit>),
        ),
        grammar::query("NOT "@ + a + " OR "@ + b) == Some(
            (or_of(not_of(ExprModel::Pred(p)), ExprModel::Pred(q)), None::<super::Limit>),
        ),
{
    let end = Seq::<char>::empty();
    let negated = not_of(ExprModel::Pred(p));
    lemma_joint_starts();
    assert(b + end =~= b);
    let x = " AND "@ + (b + end);
    let s = "NOT "@ + a + " AND "@ + b;
    assert(s =~= "NOT "@ + (a + x));
    lemma_negation(a, p, x);
    lemma_and_joins(negated, b, q, end);
    lemma_tails_end(and_of(negated, ExprModel::Pred(q)), end);
    assert(grammar::and_expr(s) == Some((and_of(negated, ExprModel::Pred(q)), end)));
    lemma_whole(s, and_of(negated, ExprModel::Pred(q)));
    let y = " OR "@ + (b + end);
    let v = "NOT "@ + a + " OR "@ + b;
    assert(v =~= "NOT "@ + (a + y));
    lemma_negation(a, p, y);
    lemma_lone_and(b, q, end);
    lemma_or_joins(negated, b + end, ExprModel::Pred(q), end);
    lemma_tails_end(or_of(negated, ExprModel::Pred(q)), end);
    assert(grammar::and_expr(v) == Some((negated, y)));
    lemma_whole(v, or_of(negated, ExprModel::Pred(q)));
}

proof fn lemma_negation(a: Seq<char>, p: PredicateModel, x: Seq<char>)
    requires
        reads(a, p),
        stops(x),
    ensures
        grammar::factor("NOT "@ + (a + x)) == Some((not_of(ExprModel::Pred(p)), x)),
{
    lemma_literal_joints();
    let s = "NOT "@ + (a + x);
    let t = seq![' '] + a;
    assert(s =~= "NOT"@ + (t + x));
    assert(grammar::after_blanks(s) == s);
    lemma_other_front(s, "("@, 0);
    lemma_read_word(s, "NOT"@, t + x);
    lemma_blank_before(a);
    lemma_factor(t, p, x);
}

/// Brackets come first: what stands in them is one factor, for `AND` and for `NOT`.
pub proof fn law_brackets_come_first(
    a: Seq<char>,
    p: PredicateModel,
    b: Seq<char>,
    q: PredicateModel,
    c: Seq<char>,
    r: PredicateModel,
)
    requires
        is_predicate_text(a, p),
        is_predicate_text(b, q),
        is_predicate_text(c, r),
    ensures
        grammar::query("("@ + a + " OR "@ + b + ") AND "@ + c) == Some(
            (
                and_of(or_of(ExprModel::Pred(p), ExprModel::Pred(q)), ExprModel::Pred(r)),
                None::<super::Limit>,
            ),
        ),
        grammar::query("NOT ("@ + a + " OR "@ + b + ")"@) == Some(
            (not_of(or_of(ExprModel::Pred(p), ExprModel::Pred(q))), None::<super::Limit>),
        ),
{
    lemma_bracket_joined(a, p, b, q, c, r);
    lemma_bracket_negated(a, p, b, q);
}

proof fn lemma_bracket_joined(
    a: Seq<char>,
    p: PredicateModel,
    b: Seq<char>,
    q: PredicateModel,
    c: Seq<char>,
    r: PredicateModel,
)
    requires
        is_predicate_text(a, p),
        is_predicate_text(b, q),
        is_predicate_text(c, r),
    ensures
        grammar::query("("@ + a + " OR "@ + b + ") AND "@ + c) == Some(
            (
                and_of(or_of(ExprModel::Pred(p), ExprModel::Pred(q)), ExprModel::Pred(r)),
                None::<super::Limit>,
            ),
        ),
{
    let end = Seq::<char>::empty();
    let inner = or_of(ExprModel::Pred(p), ExprModel::Pred(q));
    lemma_joint_starts();
    let x = " AND "@ + (c + end);
    let s = "("@ + a + " OR "@ + b + ") AND "@ + c;
    assert(s =~= "("@ + (a + (" OR "@ + (b + (")"@ + x)))));
    lemma_bracket(a, p, b, q, x);
    assert(grammar::factor(s) == Some((inner, x)));
    lemma_and_joins(inner, c, r, end);
    lemma_tails_end(and_of(inner, ExprModel::Pred(r)), end);
    assert(grammar::and_expr(s) == Some((and_of(inner, ExprModel::Pred(r)), end)));
    lemma_whole(s, and_of(inner, ExprModel::Pred(r)));
}

proof fn lemma_bracket_negated(
    a: Seq<char>,
    p: PredicateModel,
    b: Seq<char>,
    q: PredicateModel,
)
    requires
        is_predicate_text(a, p),
        is_predicate_text(b, q),
    ensures
        grammar::query("NOT ("@ + a + " OR "@ + b + ")"@) == Some(
            (not_of(or_of(ExprModel::Pred(p), ExprModel::Pred(q))), None::<super::Limit>),
        ),
{
    let end = Seq::<char>::empty();
    let inner = or_of(ExprModel::Pred(p), ExprModel::Pred(q));
    lemma_joint_starts();
    let v = "NOT ("@ + a + " OR "@ + b + ")"@;
    let close = ")"@ + end;
    let bracket = "("@ + (a + (" OR "@ + (b + close)));
    assert(close =~= ")"@);
    assert(v =~= "NOT"@ + (seq![' '] + bracket));
    assert(grammar::after_blanks(v) == v);
    lemma_other_front(v, "("@, 0);
    lemma_read_word(v, "NOT"@, seq![' '] + bracket);
    lemma_bracket(a, p, b, q, end);
    assert(grammar::factor(v) == Some((not_of(inner), end)));
    lemma_tails_end(not_of(inner), end);
    assert(grammar::and_expr(v) == Some((not_of(inner), end)));
    lemma_whole(v, not_of(inner));
}

proof fn lemma_bracket(
    a: Seq<char>,
    p: PredicateModel,
    b: Seq<char>,
    q: PredicateModel,
    x: Seq<char>,
)
    requires
        reads(a, p),
        reads(b, q),
        stops(x),
    ensures
        ({
            let s = "("@ + (a + (" OR "@ + (b + (")"@ + x))));
            let e = or_of(ExprModel::Pred(p), ExprModel::Pred(q));
            &&& grammar::factor(s) == Some((e, x))
            &&& grammar::factor(seq![' '] + s) == Some((e, x))
        }),
{
    lemma_joint_starts();
    let close = ")"@ + x;
    let within = a + (" OR "@ + (b + close));
    let s = "("@ + within;
    lemma_two_or(a, p, b, q, close);
    assert(grammar::after_blanks(s) == s);
    lemma_read_word(s, "("@, within);
    lemma_blank_before(s);
    lemma_read_word(seq![' '] + s, "("@, within);
    assert(grammar::after_blanks(close) == close);
    lemma_read_word(close, ")"@, x);
}

/// A text that holds one predicate is a query for it, and a limit may stand behind.
pub proof fn law_limit_stands_behind(
    a: Seq<char>,
    p: PredicateModel,
    x: Seq<char>,
    l: super::Limit,
)
    requires
        is_predicate_text(a, p),
        x.len() > 1,
        x[0] == ' ',
        x[1] == 'L',
        grammar::limit(x) == Some((l, Seq::<char>::empty())),
    ensures
        grammar::query(a) == Some((ExprModel::Pred(p), None::<super::Limit>)),
        grammar::query(a + x) == Some((ExprModel::Pred(p), Some(l))),
{
    let e = ExprModel::Pred(p);
    lemma_factor(a, p, Seq::empty());
    assert(a + Seq::<char>::empty() =~= a);
    lemma_tails_end(e, Seq::empty());
    lemma_whole(a, e);
    lemma_factor(a, p, x);
    lemma_literal_joints();
    let t = x.skip(1);
    assert(t[0] == 'L');
    assert(grammar::after_blanks(t) == t);
    assert(grammar::after_blanks(x) == t);
    lemma_other_front(x, "AND"@, 0);
    lemma_other_front(x, "OR"@, 0);
    assert(grammar::and_tail(e, x) == (e, x));
    assert(grammar::or_tail(e, x) == (e, x));
    assert(grammar::or_expr(a + x) == Some((e, x)));
    assert((a + x)[0] == a[0]);
}

} // verus!
