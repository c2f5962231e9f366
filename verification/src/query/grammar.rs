//! Parsing queries.
use vstd::prelude::*;
use crate::text;
use crate::text::{chars_of, find_char, string_from_chars};
use super::{
    CmpOp, Expr, ExprModel, LastPlayedDir, Limit, LimitUnit, ParsedQuery, Predicate,
    PredicateModel, QuerySyntaxError, StrOp, TimeUnit,
};

verus! {

// ── Grammar ──────────────────────────────────────────────────────────────────
//
// Each rule takes the text that is left and gives the value that it read and the
// text after it, or `None` where it does not match.

/// A blank between tokens.
pub open spec fn is_blank(c: char) -> bool {
    c == ' ' || c == '\t' || c == '\r' || c == '\n'
}

/// A character of a bare string.
pub open spec fn is_word_char(c: char) -> bool {
    '0' <= c <= '9' || 'A' <= c <= 'Z' || 'a' <= c <= 'z' || c == '_'
}

/// How many characters at the front of `s` are digits.
pub open spec fn digits_len(s: Seq<char>) -> int
    decreases s.len(),
{
    if s.len() > 0 && text::is_digit(s[0]) {
        1 + digits_len(s.skip(1))
    } else {
        0
    }
}

/// How many characters at the front of `s` can stand in a bare string.
pub open spec fn word_len(s: Seq<char>) -> int
    decreases s.len(),
{
    if s.len() > 0 && is_word_char(s[0]) {
        1 + word_len(s.skip(1))
    } else {
        0
    }
}

/// `s` without the blanks at its front.
pub open spec fn after_blanks(s: Seq<char>) -> Seq<char>
    decreases s.len(),
{
    if s.len() > 0 && is_blank(s[0]) {
        after_blanks(s.skip(1))
    } else {
        s
    }
}

/// The text after the literal `word`.
pub open spec fn after_word(s: Seq<char>, word: Seq<char>) -> Option<Seq<char>> {
    let t = after_blanks(s);
    if word.is_prefix_of(t) {
        Some(t.skip(word.len() as int))
    } else {
        None
    }
}

/// An integer that fits 64 bits.
pub open spec fn integer(s: Seq<char>) -> Option<(i64, Seq<char>)> {
    let t = after_blanks(s);
    let n = digits_len(t);
    if n > 0 && text::digits_value(t.take(n)) <= i64::MAX {
        Some((text::digits_value(t.take(n)) as i64, t.skip(n)))
    } else {
        None
    }
}

/// A string, quoted or bare.
pub open spec fn string(s: Seq<char>) -> Option<(Seq<char>, Seq<char>)> {
    let t = after_blanks(s);
    if t.len() > 0 && t[0] == '"' {
        let u = t.skip(1);
        let n = text::first_at(u, '"');
        if n < u.len() {
            Some((u.take(n), u.skip(n + 1)))
        } else {
            None
        }
    } else {
        let n = word_len(t);
        if n > 0 {
            Some((t.take(n), t.skip(n)))
        } else {
            None
        }
    }
}

/// A comparison operator.
pub open spec fn cmp_op(s: Seq<char>) -> Option<(CmpOp, Seq<char>)> {
    match after_word(s, ">="@) {
        Some(t) => Some((CmpOp::Gte, t)),
        None => match after_word(s, "<="@) {
            Some(t) => Some((CmpOp::Lte, t)),
            None => match after_word(s, ">"@) {
                Some(t) => Some((CmpOp::Gt, t)),
                None => match after_word(s, "<"@) {
                    Some(t) => Some((CmpOp::Lt, t)),
                    None => match after_word(s, "="@) {
                        Some(t) => Some((CmpOp::Eq, t)),
                        None => match after_word(s, "!="@) {
                            Some(t) => Some((CmpOp::Ne, t)),
                            None => None,
                        },
                    },
                },
            },
        },
    }
}

/// A comparison with an integer.
pub open spec fn comparison(s: Seq<char>) -> Option<((CmpOp, i64), Seq<char>)> {
    match cmp_op(s) {
        Some((op, t)) => match integer(t) {
            Some((n, u)) => Some(((op, n), u)),
            None => None,
        },
        None => None,
    }
}

/// A comparison with a string.
pub open spec fn string_test(s: Seq<char>) -> Option<((StrOp, Seq<char>), Seq<char>)> {
    match after_word(s, "contains"@) {
        Some(t) => match string(t) {
            Some((v, u)) => Some(((StrOp::Contains, v), u)),
            None => None,
        },
        None => match after_word(s, "is"@) {
            Some(t) => match string(t) {
                Some((v, u)) => Some(((StrOp::Is, v), u)),
                None => None,
            },
            None => None,
        },
    }
}

/// A unit of time.
pub open spec fn time_unit(s: Seq<char>) -> Option<(TimeUnit, Seq<char>)> {
    match after_word(s, "Days"@) {
        Some(t) => Some((TimeUnit::Days, t)),
        None => match after_word(s, "Weeks"@) {
            Some(t) => Some((TimeUnit::Weeks, t)),
            None => match after_word(s, "Months"@) {
                Some(t) => Some((TimeUnit::Months, t)),
                None => match after_word(s, "Years"@) {
                    Some(t) => Some((TimeUnit::Years, t)),
                    None => None,
                },
            },
        },
    }
}

/// What follows `LastPlayed`.
pub open spec fn played_test(s: Seq<char>) -> Option<
    ((LastPlayedDir, i64, TimeUnit), Seq<char>),
> {
    let dir = match after_word(s, "NotInLast"@) {
        Some(t) => Some((LastPlayedDir::NotInLast, t)),
        None => match after_word(s, "InLast"@) {
            Some(t) => Some((LastPlayedDir::InLast, t)),
            None => None,
        },
    };
    match dir {
        Some((d, t)) => match integer(t) {
            Some((n, u)) => match time_unit(u) {
                Some((unit, v)) => Some(((d, n, unit), v)),
                None => None,
            },
            None => None,
        },
        None => None,
    }
}

/// What follows `Rating`.
pub open spec fn rating_test(s: Seq<char>) -> Option<(PredicateModel, Seq<char>)> {
    let null = match after_word(s, "is"@) {
        Some(t) => after_word(t, "null"@),
        None => None,
    };
    match null {
        Some(u) => Some((PredicateModel::RatingNull, u)),
        None => match comparison(s) {
            Some(((op, n), u)) => Some((PredicateModel::Rating(op, n), u)),
            None => None,
        },
    }
}

/// A predicate. No predicate's first word begins another's, so the first word
/// decides which one is read.
pub open spec fn predicate(s: Seq<char>) -> Option<(PredicateModel, Seq<char>)> {
    if let Some(t) = after_word(s, "Rating"@) {
        rating_test(t)
    } else if let Some(t) = after_word(s, "AlbumRating"@) {
        match comparison(t) {
            Some(((op, n), u)) => Some((PredicateModel::AlbumRating(op, n), u)),
            None => None,
        }
    } else if let Some(t) = after_word(s, "LastPlayed"@) {
        match played_test(t) {
            Some(((d, n, unit), u)) => Some((PredicateModel::LastPlayed(d, n, unit), u)),
            None => None,
        }
    } else if let Some(t) = after_word(s, "PlayCount"@) {
        match comparison(t) {
            Some(((op, n), u)) => Some((PredicateModel::PlayCount(op, n), u)),
            None => None,
        }
    } else if let Some(t) = after_word(s, "InPlaylist"@) {
        match string(t) {
            Some((v, u)) => Some((PredicateModel::InPlaylist(v), u)),
            None => None,
        }
    } else if let Some(t) = after_word(s, "NotInPlaylist"@) {
        match string(t) {
            Some((v, u)) => Some((PredicateModel::NotInPlaylist(v), u)),
            None => None,
        }
    } else if let Some(t) = after_word(s, "HasTag"@) {
        match string(t) {
            Some((v, u)) => Some((PredicateModel::HasTag(v), u)),
            None => None,
        }
    } else if let Some(t) = after_word(s, "Title"@) {
        match string_test(t) {
            Some(((op, v), u)) => Some((PredicateModel::Title(op, v), u)),
            None => None,
        }
    } else if let Some(t) = after_word(s, "Artist"@) {
        match string_test(t) {
            Some(((op, v), u)) => Some((PredicateModel::Artist(op, v), u)),
            None => None,
        }
    } else if let Some(t) = after_word(s, "Genre"@) {
        match string_test(t) {
            Some(((op, v), u)) => Some((PredicateModel::Genre(op, v), u)),
            None => None,
        }
    } else if let Some(t) = after_word(s, "Year"@) {
        match comparison(t) {
            Some(((op, n), u)) => Some((PredicateModel::Year(op, n), u)),
            None => None,
        }
    } else {
        None
    }
}

/// A parenthesised expression, a negation or a predicate. Rules only ever read on
/// from where another rule stopped, so what is left grows shorter.
pub open spec fn factor(s: Seq<char>) -> Option<(ExprModel, Seq<char>)>
    decreases s.len(), 0int,
{
    if let Some(t) = after_word(s, "("@) {
        if t.len() < s.len() {
            match or_expr(t) {
                Some((e, u)) => match after_word(u, ")"@) {
                    Some(v) => Some((e, v)),
                    None => None,
                },
                None => None,
            }
        } else {
            None
        }
    } else if let Some(t) = after_word(s, "NOT"@) {
        if t.len() < s.len() {
            match factor(t) {
                Some((e, u)) => Some((ExprModel::Not(Box::new(e)), u)),
                None => None,
            }
        } else {
            None
        }
    } else {
        match predicate(s) {
            Some((p, t)) => Some((ExprModel::Pred(p), t)),
            None => None,
        }
    }
}

/// Factors joined by `AND` after `left`, grouped from the left.
pub open spec fn and_tail(left: ExprModel, s: Seq<char>) -> (ExprModel, Seq<char>)
    decreases s.len(), 1int,
{
    match after_word(s, "AND"@) {
        Some(t) => if t.len() < s.len() {
            match factor(t) {
                Some((e, u)) => if u.len() < s.len() {
                    and_tail(ExprModel::And(Box::new(left), Box::new(e)), u)
                } else {
                    (left, s)
                },
                None => (left, s),
            }
        } else {
            (left, s)
        },
        None => (left, s),
    }
}

/// Factors joined by `AND`.
pub open spec fn and_expr(s: Seq<char>) -> Option<(ExprModel, Seq<char>)>
    decreases s.len(), 2int,
{
    match factor(s) {
        Some((e, t)) => if t.len() < s.len() {
            Some(and_tail(e, t))
        } else {
            None
        },
        None => None,
    }
}

/// Conjunctions joined by `OR` after `left`, grouped from the left.
pub open spec fn or_tail(left: ExprModel, s: Seq<char>) -> (ExprModel, Seq<char>)
    decreases s.len(), 3int,
{
    match after_word(s, "OR"@) {
        Some(t) => if t.len() < s.len() {
            match and_expr(t) {
                Some((e, u)) => if u.len() < s.len() {
                    or_tail(ExprModel::Or(Box::new(left), Box::new(e)), u)
                } else {
                    (left, s)
                },
                None => (left, s),
            }
        } else {
            (left, s)
        },
        None => (left, s),
    }
}

/// Conjunctions joined by `OR`: an expression.
pub open spec fn or_expr(s: Seq<char>) -> Option<(ExprModel, Seq<char>)>
    decreases s.len(), 4int,
{
    match and_expr(s) {
        Some((e, t)) => if t.len() < s.len() {
            Some(or_tail(e, t))
        } else {
            None
        },
        None => None,
    }
}

/// A limit.
pub open spec fn limit(s: Seq<char>) -> Option<(Limit, Seq<char>)> {
    match after_word(s, "LIMIT"@) {
        Some(t) => match integer(t) {
            Some((n, u)) => match after_word(u, "tracks"@) {
                Some(v) => Some(((Limit { value: n, unit: LimitUnit::Tracks }), v)),
                None => match after_word(u, "minutes"@) {
                    Some(v) => Some(((Limit { value: n, unit: LimitUnit::Minutes }), v)),
                    None => match after_word(u, "hours"@) {
                        Some(v) => Some(((Limit { value: n, unit: LimitUnit::Hours }), v)),
                        None => None,
                    },
                },
            },
            None => None,
        },
        None => None,
    }
}

/// A whole query. The first token stands at the very front, and nothing but
/// blanks may follow the last.
pub open spec fn query(s: Seq<char>) -> Option<(ExprModel, Option<Limit>)> {
    if s.len() > 0 && is_blank(s[0]) {
        None
    } else {
        match or_expr(s) {
            Some((e, t)) => {
                let (l, u) = match limit(t) {
                    Some((l, u)) => (Some(l), u),
                    None => (None, t),
                };
                if after_blanks(u).len() == 0 {
                    Some((e, l))
                } else {
                    None
                }
            },
            None => None,
        }
    }
}

// ── Parser ───────────────────────────────────────────────────────────────────
//
// The executable rules read a vector of characters from a position on.

/// The text from `pos` on.
pub open spec fn rest(cs: Seq<char>, pos: usize) -> Seq<char> {
    cs.skip(pos as int)
}

/// The position of the first character from `pos` on that is no blank.
fn blanks_end(cs: &Vec<char>, pos: usize) -> (r: usize)
    requires
        pos <= cs@.len(),
    ensures
        pos <= r <= cs@.len(),
        after_blanks(rest(cs@, pos)) == rest(cs@, r),
{
    let mut i: usize = pos;
    while i < cs.len() && (cs[i] == ' ' || cs[i] == '\t' || cs[i] == '\r' || cs[i] == '\n')
        invariant
            pos <= i <= cs@.len(),
            after_blanks(rest(cs@, pos)) == after_blanks(rest(cs@, i)),
        decreases cs@.len() - i,
    {
        assert(rest(cs@, i)[0] == cs@[i as int]);
        assert(rest(cs@, i).skip(1) =~= cs@.skip(i + 1));
        i = i + 1;
    }
    if i < cs.len() {
        assert(rest(cs@, i)[0] == cs@[i as int]);
    }
    i
}

/// The position after the literal `word`.
fn word_at(cs: &Vec<char>, pos: usize, word: &str) -> (r: Option<usize>)
    requires
        pos <= cs@.len(),
    ensures
        match r {
            Some(p) => {
                &&& pos + word@.len() <= p <= cs@.len()
                &&& after_word(rest(cs@, pos), word@) == Some(rest(cs@, p))
            },
            None => after_word(rest(cs@, pos), word@) is None,
        },
{
    let start: usize = blanks_end(cs, pos);
    let w = chars_of(word);
    let ghost t = rest(cs@, start);
    if cs.len() - start < w.len() {
        return None;
    }
    let mut i: usize = 0;
    while i < w.len()
        invariant
            i <= w@.len(),
            start + w@.len() <= cs.len(),
            t == rest(cs@, start),
            t == after_blanks(rest(cs@, pos)),
            w@ == word@,
            forall|k: int| 0 <= k < i ==> w@[k] == t[k],
        decreases w@.len() - i,
    {
        assert(t[i as int] == cs@[start + i]);
        if cs[start + i] != w[i] {
            assert(!w@.is_prefix_of(t)) by {
                if w@.is_prefix_of(t) {
                    assert(t.subrange(0, w@.len() as int)[i as int] == w@[i as int]);
                }
            }
            return None;
        }
        i = i + 1;
    }
    proof {
        assert(t.subrange(0, w@.len() as int) =~= w@);
        assert(t.skip(w@.len() as int) =~= cs@.skip(start + w@.len()));
    }
    Some(start + w.len())
}

pub(crate) proof fn lemma_digits_len(s: Seq<char>, n: int)
    requires
        0 <= n <= s.len(),
        forall|i: int| 0 <= i < n ==> text::is_digit(#[trigger] s[i]),
        n < s.len() ==> !text::is_digit(s[n]),
    ensures
        digits_len(s) == n,
    decreases n,
{
    if n > 0 {
        assert(text::is_digit(s[0]));
        let t = s.skip(1);
        assert forall|i: int| 0 <= i < n - 1 implies text::is_digit(#[trigger] t[i]) by {
            assert(t[i] == s[i + 1]);
        }
        lemma_digits_len(t, n - 1);
    }
}

pub(crate) proof fn lemma_word_len(s: Seq<char>, n: int)
    requires
        0 <= n <= s.len(),
        forall|i: int| 0 <= i < n ==> is_word_char(#[trigger] s[i]),
        n < s.len() ==> !is_word_char(s[n]),
    ensures
        word_len(s) == n,
    decreases n,
{
    if n > 0 {
        assert(is_word_char(s[0]));
        let t = s.skip(1);
        assert forall|i: int| 0 <= i < n - 1 implies is_word_char(#[trigger] t[i]) by {
            assert(t[i] == s[i + 1]);
        }
        lemma_word_len(t, n - 1);
    }
}

/// An integer.
fn integer_at(cs: &Vec<char>, pos: usize) -> (r: Option<(i64, usize)>)
    requires
        pos <= cs@.len(),
    ensures
        match r {
            Some((n, p)) => pos < p <= cs@.len() && integer(rest(cs@, pos)) == Some(
                (n, rest(cs@, p)),
            ),
            None => integer(rest(cs@, pos)) is None,
        },
{
    let start: usize = blanks_end(cs, pos);
    let ghost t = rest(cs@, start);
    let mut i: usize = start;
    while i < cs.len() && '0' <= cs[i] && cs[i] <= '9'
        invariant
            start <= i <= cs@.len(),
            t == rest(cs@, start),
            forall|k: int| 0 <= k < i - start ==> text::is_digit(#[trigger] t[k]),
        decreases cs@.len() - i,
    {
        assert(t[i - start] == cs@[i as int]);
        i = i + 1;
    }
    let ghost n = i - start;
    proof {
        if i < cs@.len() {
            assert(t[n] == cs@[i as int]);
        }
        lemma_digits_len(t, n);
    }
    if i == start {
        return None;
    }
    let ghost digits = t.take(n);
    let mut value: i64 = 0;
    let mut k: usize = start;
    assert(digits.take(0) =~= Seq::empty());
    while k < i
        invariant
            start <= k <= i <= cs@.len(),
            t == rest(cs@, start),
            t == after_blanks(rest(cs@, pos)),
            n == i - start,
            n > 0,
            digits_len(t) == n,
            digits == t.take(n),
            forall|j: int| 0 <= j < n ==> text::is_digit(#[trigger] t[j]),
            value >= 0,
            value == text::digits_value(digits.take(k - start)),
        decreases i - k,
    {
        assert(t[k - start] == cs@[k as int]);
        let d: i64 = (cs[k] as u32 - '0' as u32) as i64;
        proof {
            assert(digits.take(k - start + 1).drop_last() =~= digits.take(k - start));
            assert(digits.take(k - start + 1).last() == cs@[k as int]);
        }
        if value > (i64::MAX - d) / 10 {
            proof {
                assert forall|j: int| 0 <= j < digits.len() implies text::is_digit(
                    #[trigger] digits[j],
                ) by {
                    assert(digits[j] == t[j]);
                }
                text::lemma_digits_value_grows(digits, k - start + 1);
            }
            return None;
        }
        value = value * 10 + d;
        k = k + 1;
    }
    assert(digits.take(n) =~= digits);
    assert(t.skip(n) =~= cs@.skip(i as int));
    Some((value, i))
}

/// A string, quoted or bare.
fn string_at(cs: &Vec<char>, pos: usize) -> (r: Option<(String, usize)>)
    requires
        pos <= cs@.len(),
    ensures
        match r {
            Some((v, p)) => pos < p <= cs@.len() && string(rest(cs@, pos)) == Some(
                (v@, rest(cs@, p)),
            ),
            None => string(rest(cs@, pos)) is None,
        },
{
    let start: usize = blanks_end(cs, pos);
    let ghost t = rest(cs@, start);
    if start < cs.len() && cs[start] == '"' {
        assert(t[0] == cs@[start as int]);
        let inner = vstd::slice::slice_subrange(cs.as_slice(), start + 1, cs.len());
        assert(inner@ =~= t.skip(1));
        let n: usize = find_char(inner, '"');
        if n < inner.len() {
            let v = string_from_chars(vstd::slice::slice_subrange(inner, 0, n));
            assert(v@ =~= t.skip(1).take(n as int));
            assert(t.skip(1).skip(n + 1) =~= cs@.skip(start + n + 2));
            Some((v, start + n + 2))
        } else {
            None
        }
    } else {
        let mut i: usize = start;
        while i < cs.len() && (('0' <= cs[i] && cs[i] <= '9') || ('A' <= cs[i] && cs[i] <= 'Z') || (
        'a' <= cs[i] && cs[i] <= 'z') || cs[i] == '_')
            invariant
                start <= i <= cs@.len(),
                t == rest(cs@, start),
                forall|k: int| 0 <= k < i - start ==> is_word_char(#[trigger] t[k]),
            decreases cs@.len() - i,
        {
            assert(t[i - start] == cs@[i as int]);
            i = i + 1;
        }
        proof {
            if start < cs@.len() {
                assert(t[0] == cs@[start as int]);
            }
            if i < cs@.len() {
                assert(t[i - start] == cs@[i as int]);
            }
            lemma_word_len(t, i - start);
        }
        if i == start {
            None
        } else {
            let v = string_from_chars(vstd::slice::slice_subrange(cs.as_slice(), start, i));
            assert(v@ =~= t.take(i - start));
            assert(t.skip(i - start) =~= cs@.skip(i as int));
            Some((v, i))
        }
    }
}

/// A comparison operator.
fn parse_cmp_op(cs: &Vec<char>, pos: usize) -> (r: Option<(CmpOp, usize)>)
    requires
        pos <= cs@.len(),
    ensures
        match r {
            Some((op, p)) => pos <= p <= cs@.len() && cmp_op(rest(cs@, pos)) == Some(
                (op, rest(cs@, p)),
            ),
            None => cmp_op(rest(cs@, pos)) is None,
        },
{
    if let Some(p) = word_at(cs, pos, ">=") {
        return Some((CmpOp::Gte, p));
    }
    if let Some(p) = word_at(cs, pos, "<=") {
        return Some((CmpOp::Lte, p));
    }
    if let Some(p) = word_at(cs, pos, ">") {
        return Some((CmpOp::Gt, p));
    }
    if let Some(p) = word_at(cs, pos, "<") {
        return Some((CmpOp::Lt, p));
    }
    if let Some(p) = word_at(cs, pos, "=") {
        return Some((CmpOp::Eq, p));
    }
    if let Some(p) = word_at(cs, pos, "!=") {
        return Some((CmpOp::Ne, p));
    }
    None
}

/// A comparison with an integer.
fn comparison_at(cs: &Vec<char>, pos: usize) -> (r: Option<(CmpOp, i64, usize)>)
    requires
        pos <= cs@.len(),
    ensures
        match r {
            Some((op, n, p)) => pos < p <= cs@.len() && comparison(rest(cs@, pos)) == Some(
                ((op, n), rest(cs@, p)),
            ),
            None => comparison(rest(cs@, pos)) is None,
        },
{
    match parse_cmp_op(cs, pos) {
        Some((op, p)) => match integer_at(cs, p) {
            Some((n, q)) => Some((op, n, q)),
            None => None,
        },
        None => None,
    }
}

/// A comparison with a string.
fn string_test_at(cs: &Vec<char>, pos: usize) -> (r: Option<(StrOp, String, usize)>)
    requires
        pos <= cs@.len(),
    ensures
        match r {
            Some((op, v, p)) => pos < p <= cs@.len() && string_test(rest(cs@, pos)) == Some(
                ((op, v@), rest(cs@, p)),
            ),
            None => string_test(rest(cs@, pos)) is None,
        },
{
    if let Some(p) = word_at(cs, pos, "contains") {
        return match string_at(cs, p) {
            Some((v, q)) => Some((StrOp::Contains, v, q)),
            None => None,
        };
    }
    if let Some(p) = word_at(cs, pos, "is") {
        return match string_at(cs, p) {
            Some((v, q)) => Some((StrOp::Is, v, q)),
            None => None,
        };
    }
    None
}

/// A unit of time.
fn parse_time_unit(cs: &Vec<char>, pos: usize) -> (r: Option<(TimeUnit, usize)>)
    requires
        pos <= cs@.len(),
    ensures
        match r {
            Some((unit, p)) => pos <= p <= cs@.len() && time_unit(rest(cs@, pos)) == Some(
                (unit, rest(cs@, p)),
            ),
            None => time_unit(rest(cs@, pos)) is None,
        },
{
    if let Some(p) = word_at(cs, pos, "Days") {
        return Some((TimeUnit::Days, p));
    }
    if let Some(p) = word_at(cs, pos, "Weeks") {
        return Some((TimeUnit::Weeks, p));
    }
    if let Some(p) = word_at(cs, pos, "Months") {
        return Some((TimeUnit::Months, p));
    }
    if let Some(p) = word_at(cs, pos, "Years") {
        return Some((TimeUnit::Years, p));
    }
    None
}

/// What follows `LastPlayed`.
fn parse_last_played_pred(cs: &Vec<char>, pos: usize) -> (r: Option<
    (LastPlayedDir, i64, TimeUnit, usize),
>)
    requires
        pos <= cs@.len(),
    ensures
        match r {
            Some((d, n, unit, p)) => pos < p <= cs@.len() && played_test(rest(cs@, pos)) == Some(
                ((d, n, unit), rest(cs@, p)),
            ),
            None => played_test(rest(cs@, pos)) is None,
        },
{
    let (dir, p) = if let Some(p) = word_at(cs, pos, "NotInLast") {
        (LastPlayedDir::NotInLast, p)
    } else if let Some(p) = word_at(cs, pos, "InLast") {
        (LastPlayedDir::InLast, p)
    } else {
        return None;
    };
    match integer_at(cs, p) {
        Some((n, q)) => match parse_time_unit(cs, q) {
            Some((unit, r)) => Some((dir, n, unit, r)),
            None => None,
        },
        None => None,
    }
}

/// What follows `Rating`.
fn parse_rating_pred(cs: &Vec<char>, pos: usize) -> (r: Option<(Predicate, usize)>)
    requires
        pos <= cs@.len(),
    ensures
        match r {
            Some((pred, p)) => pos < p <= cs@.len() && rating_test(rest(cs@, pos)) == Some(
                (pred@, rest(cs@, p)),
            ),
            None => rating_test(rest(cs@, pos)) is None,
        },
{
    proof {
        reveal_strlit("null");
    }
    if let Some(p) = word_at(cs, pos, "is") {
        if let Some(q) = word_at(cs, p, "null") {
            return Some((Predicate::RatingNull, q));
        }
    }
    match comparison_at(cs, pos) {
        Some((op, n, q)) => Some((Predicate::Rating(op, n), q)),
        None => None,
    }
}

/// A predicate.
fn parse_predicate(cs: &Vec<char>, pos: usize) -> (r: Option<(Predicate, usize)>)
    requires
        pos <= cs@.len(),
    ensures
        match r {
            Some((pred, p)) => pos < p <= cs@.len() && predicate(rest(cs@, pos)) == Some(
                (pred@, rest(cs@, p)),
            ),
            None => predicate(rest(cs@, pos)) is None,
        },
{
    if let Some(p) = word_at(cs, pos, "Rating") {
        return parse_rating_pred(cs, p);
    }
    if let Some(p) = word_at(cs, pos, "AlbumRating") {
        return match comparison_at(cs, p) {
            Some((op, n, q)) => Some((Predicate::AlbumRating(op, n), q)),
            None => None,
        };
    }
    if let Some(p) = word_at(cs, pos, "LastPlayed") {
        return match parse_last_played_pred(cs, p) {
            Some((dir, n, unit, q)) => Some((Predicate::LastPlayed(dir, n, unit), q)),
            None => None,
        };
    }
    if let Some(p) = word_at(cs, pos, "PlayCount") {
        return match comparison_at(cs, p) {
            Some((op, n, q)) => Some((Predicate::PlayCount(op, n), q)),
            None => None,
        };
    }
    if let Some(p) = word_at(cs, pos, "InPlaylist") {
        return match string_at(cs, p) {
            Some((v, q)) => Some((Predicate::InPlaylist(v), q)),
            None => None,
        };
    }
    if let Some(p) = word_at(cs, pos, "NotInPlaylist") {
        return match string_at(cs, p) {
            Some((v, q)) => Some((Predicate::NotInPlaylist(v), q)),
            None => None,
        };
    }
    if let Some(p) = word_at(cs, pos, "HasTag") {
        return match string_at(cs, p) {
            Some((v, q)) => Some((Predicate::HasTag(v), q)),
            None => None,
        };
    }
    if let Some(p) = word_at(cs, pos, "Title") {
        return match string_test_at(cs, p) {
            Some((op, v, q)) => Some((Predicate::Title(op, v), q)),
            None => None,
        };
    }
    if let Some(p) = word_at(cs, pos, "Artist") {
        return match string_test_at(cs, p) {
            Some((op, v, q)) => Some((Predicate::Artist(op, v), q)),
            None => None,
        };
    }
    if let Some(p) = word_at(cs, pos, "Genre") {
        return match string_test_at(cs, p) {
            Some((op, v, q)) => Some((Predicate::Genre(op, v), q)),
            None => None,
        };
    }
    if let Some(p) = word_at(cs, pos, "Year") {
        return match comparison_at(cs, p) {
            Some((op, n, q)) => Some((Predicate::Year(op, n), q)),
            None => None,
        };
    }
    None
}

/// A parenthesised expression, a negation or a predicate.
fn parse_factor(cs: &Vec<char>, pos: usize) -> (r: Option<(Expr, usize)>)
    requires
        pos <= cs@.len(),
    ensures
        match r {
            Some((e, p)) => pos < p <= cs@.len() && factor(rest(cs@, pos)) == Some(
                (e.model(), rest(cs@, p)),
            ),
            None => factor(rest(cs@, pos)) is None,
        },
    decreases cs@.len() - pos, 0int,
{
    proof {
        reveal_strlit("(");
        reveal_strlit(")");
        reveal_strlit("NOT");
    }
    if let Some(p) = word_at(cs, pos, "(") {
        return match parse_or_expr(cs, p) {
            Some((e, q)) => match word_at(cs, q, ")") {
                Some(r) => Some((e, r)),
                None => None,
            },
            None => None,
        };
    }
    if let Some(p) = word_at(cs, pos, "NOT") {
        return match parse_factor(cs, p) {
            Some((e, q)) => Some((Expr::Not(Box::new(e)), q)),
            None => None,
        };
    }
    match parse_predicate(cs, pos) {
        Some((pred, p)) => Some((Expr::Pred(pred), p)),
        None => None,
    }
}

/// Factors joined by `AND`.
fn parse_and_expr(cs: &Vec<char>, pos: usize) -> (r: Option<(Expr, usize)>)
    requires
        pos <= cs@.len(),
    ensures
        match r {
            Some((e, p)) => pos < p <= cs@.len() && and_expr(rest(cs@, pos)) == Some(
                (e.model(), rest(cs@, p)),
            ),
            None => and_expr(rest(cs@, pos)) is None,
        },
    decreases cs@.len() - pos, 1int,
{
    let (first, after) = match parse_factor(cs, pos) {
        Some((e, p)) => (e, p),
        None => {
            return None;
        },
    };
    let mut left: Expr = first;
    let mut p: usize = after;
    proof {
        reveal_strlit("AND");
    }
    loop
        invariant
            pos < p <= cs@.len(),
            "AND"@.len() == 3,
            and_expr(rest(cs@, pos)) == Some(and_tail(left.model(), rest(cs@, p))),
        decreases cs@.len() - p,
    {
        match word_at(cs, p, "AND") {
            Some(q) => match parse_factor(cs, q) {
                Some((e, r)) => {
                    left = Expr::And(Box::new(left), Box::new(e));
                    p = r;
                },
                None => {
                    return Some((left, p));
                },
            },
            None => {
                return Some((left, p));
            },
        }
    }
}

/// Conjunctions joined by `OR`.
fn parse_or_expr(cs: &Vec<char>, pos: usize) -> (r: Option<(Expr, usize)>)
    requires
        pos <= cs@.len(),
    ensures
        match r {
            Some((e, p)) => pos < p <= cs@.len() && or_expr(rest(cs@, pos)) == Some(
                (e.model(), rest(cs@, p)),
            ),
            None => or_expr(rest(cs@, pos)) is None,
        },
    decreases cs@.len() - pos, 2int,
{
    let (first, after) = match parse_and_expr(cs, pos) {
        Some((e, p)) => (e, p),
        None => {
            return None;
        },
    };
    let mut left: Expr = first;
    let mut p: usize = after;
    proof {
        reveal_strlit("OR");
    }
    loop
        invariant
            pos < p <= cs@.len(),
            "OR"@.len() == 2,
            or_expr(rest(cs@, pos)) == Some(or_tail(left.model(), rest(cs@, p))),
        decreases cs@.len() - p,
    {
        match word_at(cs, p, "OR") {
            Some(q) => match parse_and_expr(cs, q) {
                Some((e, r)) => {
                    left = Expr::Or(Box::new(left), Box::new(e));
                    p = r;
                },
                None => {
                    return Some((left, p));
                },
            },
            None => {
                return Some((left, p));
            },
        }
    }
}

/// A limit.
fn parse_limit(cs: &Vec<char>, pos: usize) -> (r: Option<(Limit, usize)>)
    requires
        pos <= cs@.len(),
    ensures
        match r {
            Some((l, p)) => pos <= p <= cs@.len() && limit(rest(cs@, pos)) == Some(
                (l, rest(cs@, p)),
            ),
            None => limit(rest(cs@, pos)) is None,
        },
{
    let p: usize = match word_at(cs, pos, "LIMIT") {
        Some(p) => p,
        None => {
            return None;
        },
    };
    match integer_at(cs, p) {
        Some((value, q)) => {
            if let Some(r) = word_at(cs, q, "tracks") {
                return Some((Limit { value, unit: LimitUnit::Tracks }, r));
            }
            if let Some(r) = word_at(cs, q, "minutes") {
                return Some((Limit { value, unit: LimitUnit::Minutes }, r));
            }
            if let Some(r) = word_at(cs, q, "hours") {
                return Some((Limit { value, unit: LimitUnit::Hours }, r));
            }
            None
        },
        None => None,
    }
}

/// Parses a smart-playlist query.
pub fn parse(input: &str) -> (r: Result<ParsedQuery, QuerySyntaxError>)
    ensures
        match r {
            Ok(q) => query(input@) == Some((q.expr.model(), q.limit)),
            Err(_) => query(input@) is None,
        },
{
    let cs = chars_of(input);
    assert(rest(cs@, 0) =~= input@);
    if cs.len() > 0 && (cs[0] == ' ' || cs[0] == '\t' || cs[0] == '\r' || cs[0] == '\n') {
        return Err(QuerySyntaxError);
    }
    match parse_or_expr(&cs, 0) {
        None => Err(QuerySyntaxError),
        Some((expr, p)) => {
            let (limit, q) = match parse_limit(&cs, p) {
                Some((l, q)) => (Some(l), q),
                None => (None, p),
            };
            if blanks_end(&cs, q) == cs.len() {
                Ok(ParsedQuery { expr, limit })
            } else {
                Err(QuerySyntaxError)
            }
        },
    }
}

} // verus!
