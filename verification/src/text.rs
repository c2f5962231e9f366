//! Text as sequences of Unicode scalar values.
//!
//! Every string of the library is specified by its view, a `Seq<char>`. The
//! functions here move between that view and executable strings, and state the
//! few operations of `std` on strings that have no specification in `vstd`.
use vstd::prelude::*;
use vstd::utf8::*;

verus! {

// ── Views ────────────────────────────────────────────────────────────────────

/// The views of a sequence of strings.
pub open spec fn texts(v: Seq<String>) -> Seq<Seq<char>> {
    Seq::new(v.len(), |i: int| v[i]@)
}

/// The views of a sequence of pairs of strings.
pub open spec fn pairs(v: Seq<(String, String)>) -> Seq<(Seq<char>, Seq<char>)> {
    Seq::new(v.len(), |i: int| (v[i].0@, v[i].1@))
}

/// The view of an optional string.
pub open spec fn opt_text(o: Option<String>) -> Option<Seq<char>> {
    match o {
        Some(s) => Some(s@),
        None => None,
    }
}

// ── Characters in and out ────────────────────────────────────────────────────

/// The characters of `s`, in order.
pub fn chars_of(s: &str) -> (v: Vec<char>)
    ensures
        v@ == s@,
{
    let mut v: Vec<char> = Vec::new();
    for c in it: s.chars()
        invariant
            v@ == it.seq().take(it.index() as int),
            it.seq() == s@,
    {
        v.push(c);
    }
    assert(s@.take(s@.len() as int) =~= s@);
    v
}

/// `std`'s `FromIterator<char>` for `String`: the string holds exactly the given
/// characters, in order.
#[verifier::external_body]
pub(crate) fn string_from_chars(cs: &[char]) -> (s: String)
    ensures
        s@ == cs@,
{
    String::from_iter(cs)
}

/// Whether two strings hold the same characters.
pub fn same_text(a: &str, b: &str) -> (r: bool)
    ensures
        r == (a@ == b@),
{
    proof {
        encode_utf8_decode_utf8(a@);
        encode_utf8_decode_utf8(b@);
    }
    same_bytes(a.as_bytes(), b.as_bytes())
}

/// Whether two character slices are equal.
pub fn same_chars(x: &[char], y: &[char]) -> (r: bool)
    ensures
        r == (x@ == y@),
{
    if x.len() != y.len() {
        return false;
    }
    let mut i: usize = 0;
    while i < x.len()
        invariant
            i <= x.len(),
            x.len() == y.len(),
            forall|k: int| 0 <= k < i ==> x@[k] == y@[k],
        decreases x.len() - i,
    {
        if x[i] != y[i] {
            return false;
        }
        i = i + 1;
    }
    assert(x@ =~= y@);
    true
}

/// Whether two byte slices are equal.
pub fn same_bytes(x: &[u8], y: &[u8]) -> (r: bool)
    ensures
        r == (x@ == y@),
{
    if x.len() != y.len() {
        return false;
    }
    let mut i: usize = 0;
    while i < x.len()
        invariant
            i <= x.len(),
            x.len() == y.len(),
            forall|k: int| 0 <= k < i ==> x@[k] == y@[k],
        decreases x.len() - i,
    {
        if x[i] != y[i] {
            return false;
        }
        i = i + 1;
    }
    assert(x@ =~= y@);
    true
}

// ── Distinct values ──────────────────────────────────────────────────────────

/// The elements of `s` in the order in which each first occurs.
pub open spec fn distinct<A>(s: Seq<A>) -> Seq<A>
    decreases s.len(),
{
    if s.len() == 0 {
        s
    } else {
        let d = distinct(s.drop_last());
        if d.contains(s.last()) {
            d
        } else {
            d.push(s.last())
        }
    }
}

pub proof fn lemma_distinct<A>(s: Seq<A>)
    ensures
        distinct(s).no_duplicates(),
        forall|x: A| distinct(s).contains(x) <==> s.contains(x),
        distinct(s).len() <= s.len(),
    decreases s.len(),
{
    if s.len() > 0 {
        let t = s.drop_last();
        lemma_distinct(t);
        let d = distinct(t);
        assert forall|x: A| distinct(s).contains(x) <==> s.contains(x) by {
            if s.contains(x) {
                let i = choose|i: int| 0 <= i < s.len() && s[i] == x;
                if i < t.len() {
                    assert(t[i] == x);
                    assert(t.contains(x));
                    assert(d.contains(x));
                    let j = choose|j: int| 0 <= j < d.len() && d[j] == x;
                    assert(distinct(s)[j] == x);
                } else if d.contains(x) {
                } else {
                    assert(distinct(s)[d.len() as int] == x);
                }
            }
            if distinct(s).contains(x) {
                let j = choose|j: int| 0 <= j < distinct(s).len() && distinct(s)[j] == x;
                if j < d.len() {
                    assert(d.contains(d[j]));
                    assert(t.contains(x));
                    let i = choose|i: int| 0 <= i < t.len() && t[i] == x;
                    assert(s[i] == x);
                } else {
                    assert(s[s.len() - 1] == x);
                }
            }
        }
        assert(distinct(s).no_duplicates()) by {
            if !d.contains(s.last()) {
                assert forall|i: int, j: int|
                    0 <= i < distinct(s).len() && 0 <= j < distinct(s).len() && i
                        != j implies distinct(s)[i] != distinct(s)[j] by {
                    if i < d.len() {
                        assert(d.contains(d[i]));
                    }
                    if j < d.len() {
                        assert(d.contains(d[j]));
                    }
                }
            }
        }
    }
}

/// Appending one more element appends it to the distinct ones unless it is there.
pub proof fn lemma_distinct_push<A>(s: Seq<A>, x: A)
    ensures
        distinct(s.push(x)) == if s.contains(x) {
            distinct(s)
        } else {
            distinct(s).push(x)
        },
{
    assert(s.push(x).drop_last() =~= s);
    lemma_distinct(s);
}

/// A sequence without repetitions is its own distinct elements.
pub proof fn lemma_distinct_of_distinct<A>(s: Seq<A>)
    requires
        s.no_duplicates(),
    ensures
        distinct(s) == s,
    decreases s.len(),
{
    if s.len() > 0 {
        let t = s.drop_last();
        lemma_distinct_of_distinct(t);
        assert(!t.contains(s.last())) by {
            if t.contains(s.last()) {
                let i = choose|i: int| 0 <= i < t.len() && t[i] == s.last();
                assert(s[i] == s[s.len() - 1]);
            }
        }
        assert(t.push(s.last()) =~= s);
    }
}

/// What a flattened sequence holds comes from one of its rows.
pub proof fn lemma_flatten_contains<A>(rows: Seq<Seq<A>>, x: A)
    requires
        rows.flatten().contains(x),
    ensures
        exists|i: int| 0 <= i < rows.len() && (#[trigger] rows[i]).contains(x),
    decreases rows.len(),
{
    if rows.len() > 0 {
        let first = rows.first();
        let later = rows.drop_first();
        let k = choose|k: int| 0 <= k < rows.flatten().len() && rows.flatten()[k] == x;
        if k < first.len() {
            assert(first[k] == x);
            assert(rows[0].contains(x));
        } else {
            assert(later.flatten()[k - first.len()] == x);
            lemma_flatten_contains(later, x);
            let i = choose|i: int| 0 <= i < later.len() && (#[trigger] later[i]).contains(x);
            assert(rows[i + 1].contains(x));
        }
    }
}

/// What a filtered and mapped sequence holds comes from one of its elements.
pub proof fn lemma_filter_map_source<A, B>(s: Seq<A>, f: spec_fn(A) -> Option<B>, y: B)
    requires
        s.filter_map(f).contains(y),
    ensures
        exists|i: int| 0 <= i < s.len() && f(#[trigger] s[i]) == Some(y),
    decreases s.len(),
{
    if s.len() > 0 {
        let t = s.drop_last();
        let k = choose|k: int| 0 <= k < s.filter_map(f).len() && s.filter_map(f)[k] == y;
        if k < t.filter_map(f).len() {
            assert(t.filter_map(f)[k] == y);
            lemma_filter_map_source(t, f, y);
            let i = choose|i: int| 0 <= i < t.len() && f(#[trigger] t[i]) == Some(y);
            assert(f(s[i]) == Some(y));
        } else {
            assert(f(s[s.len() - 1]) == Some(y));
        }
    }
}

/// What an element maps to is in the filtered and mapped sequence.
pub proof fn lemma_filter_map_keeps<A, B>(s: Seq<A>, f: spec_fn(A) -> Option<B>, i: int)
    requires
        0 <= i < s.len(),
        f(s[i]) is Some,
    ensures
        s.filter_map(f).contains(f(s[i])->0),
    decreases s.len(),
{
    let t = s.drop_last();
    if i < t.len() {
        lemma_filter_map_keeps(t, f, i);
        assert(t[i] == s[i]);
        let y = f(s[i])->0;
        let k = choose|k: int| 0 <= k < t.filter_map(f).len() && t.filter_map(f)[k] == y;
        assert(s.filter_map(f)[k] == y);
    } else {
        assert(s.filter_map(f).last() == f(s[i])->0);
        assert(s.filter_map(f)[s.filter_map(f).len() - 1] == f(s[i])->0);
    }
}

/// Whether `v` holds a string equal to `x`.
pub fn contains_text(v: &Vec<String>, x: &str) -> (r: bool)
    ensures
        r == texts(v@).contains(x@),
{
    let mut i: usize = 0;
    while i < v.len()
        invariant
            i <= v.len(),
            forall|k: int| 0 <= k < i ==> v@[k]@ != x@,
        decreases v.len() - i,
    {
        if same_text(&v[i], x) {
            assert(texts(v@)[i as int] == x@);
            return true;
        }
        i = i + 1;
    }
    false
}

// ── Searching ────────────────────────────────────────────────────────────────

/// The index of the first `x` in `s`, or the length of `s` when there is none.
pub open spec fn first_at<A>(s: Seq<A>, x: A) -> int
    decreases s.len(),
{
    if s.len() == 0 {
        0
    } else if s[0] == x {
        0
    } else {
        1 + first_at(s.skip(1), x)
    }
}

pub proof fn lemma_first_at<A>(s: Seq<A>, x: A)
    ensures
        0 <= first_at(s, x) <= s.len(),
        first_at(s, x) < s.len() ==> s[first_at(s, x)] == x,
        forall|i: int| 0 <= i < first_at(s, x) ==> s[i] != x,
        s.contains(x) <==> first_at(s, x) < s.len(),
    decreases s.len(),
{
    if s.len() > 0 && s[0] != x {
        let t = s.skip(1);
        lemma_first_at(t, x);
        assert forall|i: int| 0 <= i < first_at(s, x) implies s[i] != x by {
            if i > 0 {
                assert(s[i] == t[i - 1]);
            }
        }
        if s.contains(x) {
            let k = choose|k: int| 0 <= k < s.len() && s[k] == x;
            assert(t[k - 1] == x);
        }
        if first_at(s, x) < s.len() {
            assert(t[first_at(t, x)] == s[first_at(s, x)]);
        }
    }
}

/// An index that holds `x`, with no `x` before it, is where `x` comes first.
pub proof fn lemma_first_at_is<A>(s: Seq<A>, x: A, k: int)
    requires
        0 <= k <= s.len(),
        k < s.len() ==> s[k] == x,
        forall|i: int| 0 <= i < k ==> s[i] != x,
    ensures
        first_at(s, x) == k,
{
    lemma_first_at(s, x);
}

/// The index of the first `c` in `s`, or the length of `s`.
pub fn find_char(s: &[char], c: char) -> (r: usize)
    ensures
        r == first_at(s@, c),
        r <= s@.len(),
{
    let mut i: usize = 0;
    while i < s.len()
        invariant
            i <= s.len(),
            forall|k: int| 0 <= k < i ==> s@[k] != c,
        decreases s.len() - i,
    {
        if s[i] == c {
            proof {
                lemma_first_at_is(s@, c, i as int);
            }
            return i;
        }
        i = i + 1;
    }
    proof {
        lemma_first_at_is(s@, c, i as int);
    }
    i
}

// ── Decimal numbers ──────────────────────────────────────────────────────────

/// The character of a decimal digit.
pub open spec fn digit_char(d: nat) -> char {
    (48 + d) as char
}

/// A number in decimal, without leading zeros.
pub open spec fn decimal(n: nat) -> Seq<char>
    decreases n,
{
    if n < 10 {
        seq![digit_char(n)]
    } else {
        decimal(n / 10).push(digit_char(n % 10))
    }
}

/// An integer in decimal, with a minus sign when it is negative.
pub open spec fn signed_decimal(n: int) -> Seq<char> {
    if n < 0 {
        seq!['-'] + decimal((-n) as nat)
    } else {
        decimal(n as nat)
    }
}

/// A number in decimal, filled with zeros on the left up to `width` digits.
pub open spec fn padded_decimal(n: nat, width: nat) -> Seq<char> {
    if decimal(n).len() >= width {
        decimal(n)
    } else {
        Seq::new((width - decimal(n).len()) as nat, |i: int| '0') + decimal(n)
    }
}

/// Appends a number in decimal.
pub fn push_decimal(out: &mut Vec<char>, n: u64)
    ensures
        final(out)@ == old(out)@ + decimal(n as nat),
    decreases n,
{
    if n >= 10 {
        push_decimal(out, n / 10);
    }
    let d: u8 = 48 + (n % 10) as u8;
    out.push(d as char);
    assert(out@ =~= old(out)@ + decimal(n as nat));
}

/// A number in decimal.
pub fn decimal_string(n: u64) -> (s: String)
    ensures
        s@ == decimal(n as nat),
{
    let mut out: Vec<char> = Vec::new();
    push_decimal(&mut out, n);
    assert(out@ =~= decimal(n as nat));
    string_from_chars(&out)
}

/// An integer in decimal.
pub fn signed_string(n: i64) -> (s: String)
    ensures
        s@ == signed_decimal(n as int),
{
    let mut out: Vec<char> = Vec::new();
    if n < 0 {
        out.push('-');
        let m: u64 = if n == i64::MIN {
            9223372036854775808u64
        } else {
            (-n) as u64
        };
        push_decimal(&mut out, m);
    } else {
        push_decimal(&mut out, n as u64);
    }
    assert(out@ =~= signed_decimal(n as int));
    string_from_chars(&out)
}

/// Appends a number in decimal, filled with zeros on the left.
pub fn push_padded(out: &mut Vec<char>, n: u64, width: usize)
    ensures
        final(out)@ == old(out)@ + padded_decimal(n as nat, width as nat),
{
    let mut digits: Vec<char> = Vec::new();
    push_decimal(&mut digits, n);
    assert(digits@ =~= decimal(n as nat));
    let mut missing: usize = if digits.len() >= width {
        0
    } else {
        width - digits.len()
    };
    let total = missing;
    while missing > 0
        invariant
            missing <= total,
            out@ == old(out)@ + Seq::new((total - missing) as nat, |i: int| '0'),
        decreases missing,
    {
        out.push('0');
        missing = missing - 1;
        assert(out@ =~= old(out)@ + Seq::new((total - missing) as nat, |i: int| '0'));
    }
    out.append(&mut digits);
    assert(out@ =~= old(out)@ + padded_decimal(n as nat, width as nat));
}

// ── Case and replacement ─────────────────────────────────────────────────────

/// What `str::to_lowercase` makes of a text.
pub uninterp spec fn lowercase(s: Seq<char>) -> Seq<char>;

/// Whether all characters of a text are of the ASCII range.
pub open spec fn all_ascii(s: Seq<char>) -> bool {
    forall|i: int| 0 <= i < s.len() ==> (#[trigger] s[i]) < '\u{80}'
}

/// An ASCII character in lower case.
pub open spec fn lower_ascii(c: char) -> char {
    if 'A' <= c <= 'Z' {
        (c as u32 + 32) as char
    } else {
        c
    }
}

/// `str::to_lowercase`: the Unicode lowercase of a text. Claimed of it: the result
/// depends on the text alone, and of ASCII text only the capital letters change.
#[verifier::external_body]
fn to_lower(s: &str) -> (r: String)
    ensures
        r@ == lowercase(s@),
        all_ascii(s@) ==> r@ == s@.map_values(|c: char| lower_ascii(c)),
{
    s.to_lowercase()
}

/// A text in lower case.
pub fn lower_text(s: &str) -> (r: String)
    ensures
        r@ == lowercase(s@),
        all_ascii(s@) ==> lowercase(s@) == s@.map_values(|c: char| lower_ascii(c)),
{
    to_lower(s)
}

/// `c` itself, or two quotes when it is a single quote.
pub open spec fn quoted_char(c: char) -> Seq<char> {
    if c == '\'' {
        seq!['\'', '\'']
    } else {
        seq![c]
    }
}

/// A text with every single quote doubled.
pub open spec fn quotes_doubled(s: Seq<char>) -> Seq<char> {
    s.flat_map(|c: char| quoted_char(c))
}

// ── Order ────────────────────────────────────────────────────────────────────

/// The order of texts: character by character, a prefix before its extensions.
pub open spec fn text_le(a: Seq<char>, b: Seq<char>) -> bool
    decreases a.len(),
{
    if a.len() == 0 {
        true
    } else if b.len() == 0 {
        false
    } else if a[0] != b[0] {
        a[0] < b[0]
    } else {
        text_le(a.skip(1), b.skip(1))
    }
}

pub proof fn lemma_text_le_total(a: Seq<char>, b: Seq<char>)
    ensures
        text_le(a, b) || text_le(b, a),
        text_le(a, a),
    decreases a.len(),
{
    if a.len() > 0 {
        lemma_text_le_total(a.skip(1), a.skip(1));
        if b.len() > 0 && a[0] == b[0] {
            lemma_text_le_total(a.skip(1), b.skip(1));
        }
    }
}

pub proof fn lemma_text_le_transitive(a: Seq<char>, b: Seq<char>, c: Seq<char>)
    requires
        text_le(a, b),
        text_le(b, c),
    ensures
        text_le(a, c),
    decreases a.len(),
{
    if a.len() > 0 && b.len() > 0 && c.len() > 0 && a[0] == b[0] && b[0] == c[0] {
        lemma_text_le_transitive(a.skip(1), b.skip(1), c.skip(1));
    }
}

pub proof fn lemma_text_le_antisymmetric(a: Seq<char>, b: Seq<char>)
    requires
        text_le(a, b),
        text_le(b, a),
    ensures
        a == b,
    decreases a.len(),
{
    if a.len() > 0 && b.len() > 0 {
        lemma_text_le_antisymmetric(a.skip(1), b.skip(1));
        assert(a =~= seq![a[0]] + a.skip(1));
        assert(b =~= seq![b[0]] + b.skip(1));
    } else {
        assert(a =~= b);
    }
}

/// Whether `a` comes no later than `b`.
pub fn chars_le(a: &[char], b: &[char]) -> (r: bool)
    ensures
        r == text_le(a@, b@),
{
    let mut i: usize = 0;
    assert(a@.skip(0) =~= a@);
    assert(b@.skip(0) =~= b@);
    while i < a.len() && i < b.len()
        invariant
            i <= a@.len(),
            i <= b@.len(),
            text_le(a@, b@) == text_le(a@.skip(i as int), b@.skip(i as int)),
        decreases a@.len() - i,
    {
        proof {
            assert(a@.skip(i as int)[0] == a@[i as int]);
            assert(b@.skip(i as int)[0] == b@[i as int]);
            assert(a@.skip(i as int).skip(1) =~= a@.skip(i + 1));
            assert(b@.skip(i as int).skip(1) =~= b@.skip(i + 1));
        }
        if a[i] != b[i] {
            return a[i] < b[i];
        }
        i = i + 1;
    }
    i == a.len()
}

/// Whether `a` comes no later than `b`.
pub fn str_le(a: &str, b: &str) -> (r: bool)
    ensures
        r == text_le(a@, b@),
{
    let x = chars_of(a);
    let y = chars_of(b);
    chars_le(&x, &y)
}

// ── Joining ──────────────────────────────────────────────────────────────────

/// Texts put together with a separator between them.
pub open spec fn joined(parts: Seq<Seq<char>>, separator: Seq<char>) -> Seq<char>
    decreases parts.len(),
{
    if parts.len() == 0 {
        Seq::empty()
    } else if parts.len() == 1 {
        parts[0]
    } else {
        joined(parts.drop_last(), separator) + separator + parts.last()
    }
}

/// Puts texts together with a separator between them.
pub fn join(parts: &Vec<String>, separator: &str) -> (s: String)
    ensures
        s@ == joined(texts(parts@), separator@),
{
    let ghost all = texts(parts@);
    let mut s = String::new();
    let mut i: usize = 0;
    assert(all.take(0) =~= Seq::empty());
    while i < parts.len()
        invariant
            i <= parts@.len(),
            all == texts(parts@),
            s@ == joined(all.take(i as int), separator@),
        decreases parts@.len() - i,
    {
        proof {
            assert(all.take(i + 1).drop_last() =~= all.take(i as int));
            assert(all.take(i + 1).last() == parts@[i as int]@);
        }
        if i > 0 {
            s.append(separator);
        }
        s.append(&parts[i]);
        assert(s@ =~= joined(all.take(i + 1), separator@));
        i = i + 1;
    }
    assert(all.take(all.len() as int) =~= all);
    s
}

// ── Reading numbers ──────────────────────────────────────────────────────────

/// A decimal digit.
pub open spec fn is_digit(c: char) -> bool {
    '0' <= c <= '9'
}

/// The value of decimal digits.
pub open spec fn digits_value(digits: Seq<char>) -> nat
    decreases digits.len(),
{
    if digits.len() == 0 {
        0
    } else {
        digits_value(digits.drop_last()) * 10 + (digits.last() as nat - '0' as nat) as nat
    }
}

/// Whether `s` is made of digits, at least one.
pub open spec fn all_digits(s: Seq<char>) -> bool {
    s.len() > 0 && forall|i: int| 0 <= i < s.len() ==> is_digit(#[trigger] s[i])
}

pub proof fn lemma_digits_value_grows(s: Seq<char>, n: int)
    requires
        0 <= n <= s.len(),
        forall|i: int| 0 <= i < s.len() ==> is_digit(#[trigger] s[i]),
    ensures
        digits_value(s.take(n)) <= digits_value(s),
    decreases s.len() - n,
{
    if n < s.len() {
        lemma_digits_value_grows(s, n + 1);
        assert(s.take(n + 1).drop_last() =~= s.take(n));
    } else {
        assert(s.take(n) =~= s);
    }
}

/// The number that a text stands for: digits with an optional sign, in the range
/// of 64-bit integers.
pub open spec fn number(s: Seq<char>) -> Option<i64> {
    let negative = s.len() > 0 && s[0] == '-';
    let digits = if s.len() > 0 && (s[0] == '-' || s[0] == '+') {
        s.skip(1)
    } else {
        s
    };
    let value = if negative {
        -digits_value(digits)
    } else {
        digits_value(digits) as int
    };
    if all_digits(digits) && i64::MIN <= value <= i64::MAX {
        Some(value as i64)
    } else {
        None
    }
}

/// Reads a number from characters.
pub fn parse_number(cs: &[char]) -> (r: Option<i64>)
    ensures
        r == number(cs@),
{
    let negative = cs.len() > 0 && cs[0] == '-';
    let start: usize = if cs.len() > 0 && (cs[0] == '-' || cs[0] == '+') {
        1
    } else {
        0
    };
    let ghost digits = cs@.skip(start as int);
    assert(start == 0 ==> digits =~= cs@);
    if start >= cs.len() {
        return None;
    }
    let mut ok = true;
    let mut k: usize = start;
    while k < cs.len()
        invariant
            start <= k <= cs@.len(),
            digits == cs@.skip(start as int),
            ok == (forall|j: int| 0 <= j < k - start ==> is_digit(#[trigger] digits[j])),
        decreases cs@.len() - k,
    {
        assert(digits[k - start] == cs@[k as int]);
        if cs[k] < '0' || cs[k] > '9' {
            ok = false;
        }
        k = k + 1;
    }
    if !ok {
        return None;
    }
    let mut value: i128 = 0;
    let mut i: usize = start;
    assert(digits.take(0) =~= Seq::empty());
    while i < cs.len()
        invariant
            start <= i <= cs@.len(),
            start < cs@.len(),
            digits == cs@.skip(start as int),
            all_digits(digits),
            negative == (cs@.len() > 0 && cs@[0] == '-'),
            start == if cs@.len() > 0 && (cs@[0] == '-' || cs@[0] == '+') {
                1int
            } else {
                0int
            },
            0 <= value <= 9223372036854775808,
            value == digits_value(digits.take(i - start)),
        decreases cs@.len() - i,
    {
        assert(digits[i - start] == cs@[i as int]);
        let d: i128 = (cs[i] as u32 - '0' as u32) as i128;
        proof {
            assert(digits.take(i - start + 1).drop_last() =~= digits.take(i - start));
            assert(digits.take(i - start + 1).last() == cs@[i as int]);
        }
        value = value * 10 + d;
        if value > 9223372036854775808 {
            proof {
                lemma_digits_value_grows(digits, i - start + 1);
                assert(start == 0 ==> digits =~= cs@);
            }
            return None;
        }
        i = i + 1;
    }
    assert(digits.take(digits.len() as int) =~= digits);
    assert(start == 0 ==> digits =~= cs@);
    if negative {
        Some((-value) as i64)
    } else if value <= 9223372036854775807 {
        Some(value as i64)
    } else {
        None
    }
}

// ── Splitting ────────────────────────────────────────────────────────────────

/// The pieces of `s` between occurrences of `c`; always at least one.
pub open spec fn split(s: Seq<char>, c: char) -> Seq<Seq<char>>
    decreases s.len(),
{
    let i = first_at(s, c);
    if 0 <= i < s.len() {
        seq![s.take(i)] + split(s.skip(i + 1), c)
    } else {
        seq![s]
    }
}

/// The first `n` pieces of `s` between occurrences of `c`, the last of them with
/// all that follows.
pub open spec fn split_limited(s: Seq<char>, c: char, n: nat) -> Seq<Seq<char>>
    decreases n,
{
    let i = first_at(s, c);
    if n == 0 {
        Seq::empty()
    } else if n > 1 && 0 <= i < s.len() {
        seq![s.take(i)] + split_limited(s.skip(i + 1), c, (n - 1) as nat)
    } else {
        seq![s]
    }
}

/// The views of pieces of characters.
pub open spec fn pieces(v: Seq<Vec<char>>) -> Seq<Seq<char>> {
    Seq::new(v.len(), |i: int| v[i]@)
}

/// A copy of part of a slice of characters.
pub fn chars_between(cs: &[char], from: usize, to: usize) -> (r: Vec<char>)
    requires
        from <= to <= cs@.len(),
    ensures
        r@ == cs@.subrange(from as int, to as int),
{
    vstd::slice::slice_to_vec(vstd::slice::slice_subrange(cs, from, to))
}

/// Splits characters at every `c`.
pub fn split_chars(cs: &[char], c: char) -> (r: Vec<Vec<char>>)
    ensures
        pieces(r@) == split(cs@, c),
{
    let mut r: Vec<Vec<char>> = Vec::new();
    let mut start: usize = 0;
    assert(cs@.skip(0) =~= cs@);
    assert(pieces(r@) + split(cs@, c) =~= split(cs@, c));
    loop
        invariant
            start <= cs@.len(),
            pieces(r@) + split(cs@.skip(start as int), c) == split(cs@, c),
        decreases cs@.len() - start,
    {
        let rest = vstd::slice::slice_subrange(cs, start, cs.len());
        assert(rest@ =~= cs@.skip(start as int));
        let n: usize = find_char(rest, c);
        let piece = chars_between(rest, 0, n);
        let ghost before = pieces(r@);
        r.push(piece);
        assert(pieces(r@) =~= before.push(piece@));
        if n >= rest.len() {
            assert(piece@ =~= rest@);
            assert(pieces(r@) =~= before + seq![rest@]);
            return r;
        }
        proof {
            assert(piece@ =~= rest@.take(n as int));
            assert(rest@.skip(n + 1) =~= cs@.skip(start + n + 1));
            let later = split(cs@.skip(start + n + 1), c);
            assert(before + (seq![piece@] + later) =~= pieces(r@) + later);
        }
        start = start + n + 1;
    }
}

/// Splits characters at the first occurrences of `c` into at most `limit` pieces.
pub fn split_chars_limited(cs: &[char], c: char, limit: usize) -> (r: Vec<Vec<char>>)
    requires
        limit > 0,
    ensures
        pieces(r@) == split_limited(cs@, c, limit as nat),
{
    let mut r: Vec<Vec<char>> = Vec::new();
    let mut start: usize = 0;
    let mut left: usize = limit;
    assert(cs@.skip(0) =~= cs@);
    assert(pieces(r@) + split_limited(cs@, c, limit as nat) =~= split_limited(
        cs@,
        c,
        limit as nat,
    ));
    loop
        invariant
            start <= cs@.len(),
            left > 0,
            pieces(r@) + split_limited(cs@.skip(start as int), c, left as nat) == split_limited(
                cs@,
                c,
                limit as nat,
            ),
        decreases left,
    {
        let rest = vstd::slice::slice_subrange(cs, start, cs.len());
        assert(rest@ =~= cs@.skip(start as int));
        let n: usize = find_char(rest, c);
        let ghost before = pieces(r@);
        if left == 1 || n >= rest.len() {
            let piece = chars_between(rest, 0, rest.len());
            assert(piece@ =~= rest@);
            r.push(piece);
            assert(pieces(r@) =~= before + seq![rest@]);
            return r;
        }
        let piece = chars_between(rest, 0, n);
        r.push(piece);
        proof {
            assert(pieces(r@) =~= before.push(piece@));
            assert(piece@ =~= rest@.take(n as int));
            assert(rest@.skip(n + 1) =~= cs@.skip(start + n + 1));
            let later = split_limited(cs@.skip(start + n + 1), c, (left - 1) as nat);
            assert(before + (seq![piece@] + later) =~= pieces(r@) + later);
        }
        start = start + n + 1;
        left = left - 1;
    }
}

// ── Blanks ───────────────────────────────────────────────────────────────────

/// Whether a character is a blank: one with the Unicode property `White_Space`.
pub open spec fn is_space(c: char) -> bool {
    ||| '\u{9}' <= c <= '\u{D}'
    ||| c == ' '
    ||| c == '\u{85}'
    ||| c == '\u{A0}'
    ||| c == '\u{1680}'
    ||| '\u{2000}' <= c <= '\u{200A}'
    ||| c == '\u{2028}'
    ||| c == '\u{2029}'
    ||| c == '\u{202F}'
    ||| c == '\u{205F}'
    ||| c == '\u{3000}'
}

/// Whether a character is a blank.
pub(crate) fn char_is_space(c: char) -> (r: bool)
    ensures
        r == is_space(c),
{
    ('\u{9}' <= c && c <= '\u{D}') || c == ' ' || c == '\u{85}' || c == '\u{A0}' || c == '\u{1680}'
        || ('\u{2000}' <= c && c <= '\u{200A}') || c == '\u{2028}' || c == '\u{2029}' || c
        == '\u{202F}' || c == '\u{205F}' || c == '\u{3000}'
}

/// `s` without the blanks at its front.
pub open spec fn trim_start(s: Seq<char>) -> Seq<char>
    decreases s.len(),
{
    if s.len() > 0 && is_space(s[0]) {
        trim_start(s.skip(1))
    } else {
        s
    }
}

/// `s` without the blanks at its end.
pub open spec fn trim_end(s: Seq<char>) -> Seq<char>
    decreases s.len(),
{
    if s.len() > 0 && is_space(s.last()) {
        trim_end(s.drop_last())
    } else {
        s
    }
}

/// `s` without the blanks around it.
pub open spec fn trim(s: Seq<char>) -> Seq<char> {
    trim_end(trim_start(s))
}

/// Characters without the blanks around them.
pub fn trim_chars(cs: &[char]) -> (r: Vec<char>)
    ensures
        r@ == trim(cs@),
{
    let mut start: usize = 0;
    assert(cs@.skip(0) =~= cs@);
    while start < cs.len() && char_is_space(cs[start])
        invariant
            start <= cs@.len(),
            trim_start(cs@.skip(start as int)) == trim_start(cs@),
        decreases cs@.len() - start,
    {
        assert(cs@.skip(start as int)[0] == cs@[start as int]);
        assert(cs@.skip(start as int).skip(1) =~= cs@.skip(start + 1));
        start = start + 1;
    }
    if start < cs.len() {
        assert(cs@.skip(start as int)[0] == cs@[start as int]);
    }
    let mut end: usize = cs.len();
    assert(cs@.subrange(start as int, end as int) =~= cs@.skip(start as int));
    while end > start && char_is_space(cs[end - 1])
        invariant
            start <= end <= cs@.len(),
            trim_end(cs@.subrange(start as int, end as int)) == trim(cs@),
        decreases end,
    {
        assert(cs@.subrange(start as int, end as int).drop_last() =~= cs@.subrange(
            start as int,
            end - 1,
        ));
        end = end - 1;
    }
    chars_between(cs, start, end)
}

/// A text without the blanks around it.
pub fn trimmed(s: &str) -> (r: String)
    ensures
        r@ == trim(s@),
{
    let cs = chars_of(s);
    string_from_chars(&trim_chars(&cs))
}

// ── Prefixes, suffixes, parts ────────────────────────────────────────────────

/// Whether `s` begins with `prefix`.
pub fn starts_with_chars(s: &[char], prefix: &[char]) -> (r: bool)
    ensures
        r == prefix@.is_prefix_of(s@),
{
    if prefix.len() > s.len() {
        return false;
    }
    let mut i: usize = 0;
    while i < prefix.len()
        invariant
            i <= prefix@.len() <= s@.len(),
            forall|k: int| 0 <= k < i ==> prefix@[k] == s@[k],
        decreases prefix@.len() - i,
    {
        if prefix[i] != s[i] {
            assert(!prefix@.is_prefix_of(s@)) by {
                if prefix@.is_prefix_of(s@) {
                    assert(s@.subrange(0, prefix@.len() as int)[i as int] == prefix@[i as int]);
                }
            }
            return false;
        }
        i = i + 1;
    }
    assert(s@.subrange(0, prefix@.len() as int) =~= prefix@);
    true
}

/// Whether `part` stands somewhere in `s`.
pub open spec fn has_part(s: Seq<char>, part: Seq<char>) -> bool {
    exists|i: int| 0 <= i <= s.len() && part.is_prefix_of(#[trigger] s.skip(i))
}

/// Whether `part` stands somewhere in `s`.
pub fn contains_chars(s: &[char], part: &[char]) -> (r: bool)
    ensures
        r == has_part(s@, part@),
{
    let mut i: usize = 0;
    while i <= s.len()
        invariant
            i <= s@.len() + 1,
            forall|k: int| 0 <= k < i ==> !part@.is_prefix_of(#[trigger] s@.skip(k)),
        decreases s@.len() + 1 - i,
    {
        let rest = vstd::slice::slice_subrange(s, i, s.len());
        assert(rest@ =~= s@.skip(i as int));
        if starts_with_chars(rest, part) {
            return true;
        }
        if i == s.len() {
            return false;
        }
        i = i + 1;
    }
    false
}

/// Whether `part` stands somewhere in `s`.
pub fn contains_part(s: &str, part: &str) -> (r: bool)
    ensures
        r == has_part(s@, part@),
{
    let x = chars_of(s);
    let y = chars_of(part);
    contains_chars(&x, &y)
}

/// Whether `s` begins with `prefix`.
pub fn starts_with(s: &str, prefix: &str) -> (r: bool)
    ensures
        r == prefix@.is_prefix_of(s@),
{
    let x = chars_of(s);
    let y = chars_of(prefix);
    starts_with_chars(&x, &y)
}

/// Whether `s` ends with `suffix`.
pub fn ends_with(s: &str, suffix: &str) -> (r: bool)
    ensures
        r == suffix@.is_suffix_of(s@),
{
    let x = chars_of(s);
    let y = chars_of(suffix);
    if y.len() > x.len() {
        return false;
    }
    let tail = vstd::slice::slice_subrange(x.as_slice(), x.len() - y.len(), x.len());
    same_chars(tail, &y)
}

// ── Laws ─────────────────────────────────────────────────────────────────────

/// A digit more makes a number ten times as large and adds the digit.
pub proof fn law_digits_are_positional(s: Seq<char>, c: char)
    requires
        '0' <= c <= '9',
    ensures
        digits_value(s.push(c)) == 10 * digits_value(s) + (c as int - 48),
        digits_value(Seq::empty()) == 0,
{
    assert(s.push(c).drop_last() =~= s);
}

/// A number is written in digits without leading zeros, and the digits give the
/// number.
pub proof fn law_decimal_reads_back(n: nat)
    ensures
        decimal(n).len() > 0,
        forall|i: int| 0 <= i < decimal(n).len() ==> '0' <= #[trigger] decimal(n)[i] <= '9',
        digits_value(decimal(n)) == n,
        n > 0 ==> decimal(n)[0] != '0',
        n == 0 ==> decimal(n) == seq!['0'],
    decreases n,
{
    if n >= 10 {
        law_decimal_reads_back(n / 10);
        let d = decimal(n / 10);
        let c = digit_char(n % 10);
        assert(c as int == 48 + n % 10);
        law_digits_are_positional(d, c);
        assert forall|i: int| 0 <= i < decimal(n).len() implies '0' <= #[trigger] decimal(n)[i]
            <= '9' by {
            if i < d.len() {
                assert(decimal(n)[i] == d[i]);
            }
        }
    } else {
        let c = digit_char(n);
        assert(c as int == 48 + n);
        law_digits_are_positional(Seq::empty(), c);
        assert(Seq::<char>::empty().push(c) =~= decimal(n));
    }
}

/// A whole number reads back from its decimal text, with or without a plus sign.
pub proof fn law_number_reads_back(n: i64)
    ensures
        number(signed_decimal(n as int)) == Some(n),
        n >= 0 ==> number(seq!['+'] + signed_decimal(n as int)) == Some(n),
{
    let size: nat = if n < 0 {
        (-(n as int)) as nat
    } else {
        n as nat
    };
    law_decimal_reads_back(size);
    let d = decimal(size);
    assert('0' <= d[0] <= '9');
    assert(all_digits(d));
    assert((seq!['-'] + d).skip(1) =~= d);
    assert((seq!['+'] + d).skip(1) =~= d);
}

/// Only a sign and digits make a number, and the digits give its size.
pub proof fn law_numbers_are_digits(s: Seq<char>)
    ensures
        number(s) matches Some(n) ==> s.len() > 0 && (n < 0 ==> s[0] == '-') && (forall|i: int|
            1 <= i < s.len() ==> '0' <= #[trigger] s[i] <= '9') && ('0' <= s[0] <= '9' || (s.len()
            > 1 && (s[0] == '-' || s[0] == '+'))),
        s.len() > 0 && (forall|i: int| 0 <= i < s.len() ==> '0' <= #[trigger] s[i] <= '9')
            && digits_value(s) <= i64::MAX ==> number(s) == Some(digits_value(s) as i64),
{
    if s.len() > 0 && (s[0] == '-' || s[0] == '+') {
        assert forall|i: int| 1 <= i < s.len() && number(s) is Some implies '0' <= #[trigger] s[i]
            <= '9' by {
            assert(s.skip(1)[i - 1] == s[i]);
            assert(is_digit(s.skip(1)[i - 1]));
        }
        assert(!('0' <= s[0] <= '9'));
    } else if s.len() > 0 && number(s) is Some {
        assert(is_digit(s[0]));
        assert forall|i: int| 1 <= i < s.len() implies '0' <= #[trigger] s[i] <= '9' by {
            assert(is_digit(s[i]));
        }
    }
}

/// Padding writes zeros in front, up to the width, and does not change the number.
pub proof fn law_padding_is_zeros(n: nat, width: nat)
    ensures
        digits_value(padded_decimal(n, width)) == n,
        padded_decimal(n, width).len() >= width,
        padded_decimal(n, width).len() == width || padded_decimal(n, width) == decimal(n),
{
    law_decimal_reads_back(n);
    if decimal(n).len() < width {
        let k = (width - decimal(n).len()) as nat;
        lemma_leading_zeros(k, decimal(n));
    }
}

proof fn lemma_leading_zeros(k: nat, s: Seq<char>)
    ensures
        digits_value(Seq::new(k, |i: int| '0') + s) == digits_value(s),
    decreases k, s.len(),
{
    let z = Seq::new(k, |i: int| '0');
    if s.len() > 0 {
        lemma_leading_zeros(k, s.drop_last());
        assert((z + s).drop_last() =~= z + s.drop_last());
        assert((z + s).last() == s.last());
    } else if k > 0 {
        let y = Seq::new((k - 1) as nat, |i: int| '0');
        lemma_leading_zeros((k - 1) as nat, s);
        assert((z + s).drop_last() =~= y + s);
    } else {
        assert(z + s =~= s);
    }
}

/// The order of texts is that of a dictionary: the first place at which they differ
/// decides, and a text comes after its own beginnings.
pub proof fn law_text_order_is_lexicographic(a: Seq<char>, b: Seq<char>, k: int)
    requires
        0 <= k <= a.len(),
        k <= b.len(),
        forall|i: int| 0 <= i < k ==> a[i] == b[i],
    ensures
        k == a.len() ==> text_le(a, b),
        k == b.len() && k < a.len() ==> !text_le(a, b),
        k < a.len() && k < b.len() && a[k] < b[k] ==> text_le(a, b),
        k < a.len() && k < b.len() && a[k] > b[k] ==> !text_le(a, b),
    decreases k,
{
    if k > 0 {
        assert forall|i: int| 0 <= i < k - 1 implies a.skip(1)[i] == b.skip(1)[i] by {
            assert(a[i + 1] == b[i + 1]);
        }
        law_text_order_is_lexicographic(a.skip(1), b.skip(1), k - 1);
    }
}

/// Joining puts the separator between the parts, and nowhere else.
pub proof fn law_joined(parts: Seq<Seq<char>>, x: Seq<char>, separator: Seq<char>)
    ensures
        joined(Seq::empty(), separator).len() == 0,
        joined(seq![x], separator) == x,
        parts.len() > 0 ==> joined(parts.push(x), separator) == joined(parts, separator)
            + separator + x,
{
    assert(parts.push(x).drop_last() =~= parts);
}

proof fn lemma_joined_front(x: Seq<char>, rest: Seq<Seq<char>>, separator: Seq<char>)
    requires
        rest.len() > 0,
    ensures
        joined(seq![x] + rest, separator) == x + separator + joined(rest, separator),
    decreases rest.len(),
{
    let all = seq![x] + rest;
    if rest.len() == 1 {
        assert(all.drop_last() =~= seq![x]);
        assert(joined(seq![x], separator) == x);
    } else {
        lemma_joined_front(x, rest.drop_last(), separator);
        assert(all.drop_last() =~= seq![x] + rest.drop_last());
        assert(joined(all, separator) =~= x + separator + joined(rest, separator));
    }
}

/// Splitting parts a text at every separator: the pieces hold none, and joined again
/// they are the text.
pub proof fn law_split_parts_at_every_separator(s: Seq<char>, c: char)
    ensures
        split(s, c).len() > 0,
        joined(split(s, c), seq![c]) == s,
        forall|i: int| 0 <= i < split(s, c).len() ==> !(#[trigger] split(s, c)[i]).contains(c),
    decreases s.len(),
{
    let i = first_at(s, c);
    lemma_first_at(s, c);
    if 0 <= i < s.len() {
        let rest = s.skip(i + 1);
        law_split_parts_at_every_separator(rest, c);
        lemma_joined_front(s.take(i), split(rest, c), seq![c]);
        assert(s =~= s.take(i) + seq![c] + rest);
        assert forall|k: int| 0 <= k < split(s, c).len() implies !(#[trigger] split(
            s,
            c,
        )[k]).contains(c) by {
            if k > 0 {
                assert(split(s, c)[k] == split(rest, c)[k - 1]);
            }
        }
    } else {
        assert(joined(seq![s], seq![c]) == s);
    }
}

/// Splitting with a limit gives no more pieces than that; joined again they are the
/// text, and only the last may hold a separator, where the limit was reached.
pub proof fn law_limited_split_keeps_the_rest(s: Seq<char>, c: char, n: nat)
    requires
        n > 0,
    ensures
        0 < split_limited(s, c, n).len() <= n,
        joined(split_limited(s, c, n), seq![c]) == s,
        forall|i: int|
            0 <= i < split_limited(s, c, n).len() && (i + 1 < n) ==> !(#[trigger] split_limited(
                s,
                c,
                n,
            )[i]).contains(c),
    decreases n,
{
    let i = first_at(s, c);
    lemma_first_at(s, c);
    if n > 1 && 0 <= i < s.len() {
        let rest = s.skip(i + 1);
        let m = (n - 1) as nat;
        law_limited_split_keeps_the_rest(rest, c, m);
        lemma_joined_front(s.take(i), split_limited(rest, c, m), seq![c]);
        assert(s =~= s.take(i) + seq![c] + rest);
        assert forall|k: int|
            0 <= k < split_limited(s, c, n).len() && (k + 1 < n) implies !(#[trigger] split_limited(
            s,
            c,
            n,
        )[k]).contains(c) by {
            if k > 0 {
                assert(split_limited(s, c, n)[k] == split_limited(rest, c, m)[k - 1]);
            }
        }
    } else {
        assert(joined(seq![s], seq![c]) == s);
    }
}

/// Whether a text is blank throughout.
pub open spec fn all_blank(s: Seq<char>) -> bool {
    forall|i: int| 0 <= i < s.len() ==> is_space(#[trigger] s[i])
}

proof fn lemma_trim_start(s: Seq<char>)
    ensures
        trim_start(s).len() <= s.len(),
        trim_start(s) == s.skip(s.len() - trim_start(s).len()),
        all_blank(s.take(s.len() - trim_start(s).len())),
        trim_start(s).len() > 0 ==> !is_space(trim_start(s)[0]),
    decreases s.len(),
{
    if s.len() > 0 && is_space(s[0]) {
        lemma_trim_start(s.skip(1));
        let n = s.len() - trim_start(s).len();
        assert(s.skip(1).skip(n - 1) =~= s.skip(n));
        assert forall|i: int| 0 <= i < n implies is_space(#[trigger] s.take(n)[i]) by {
            if i > 0 {
                assert(s.skip(1).take(n - 1)[i - 1] == s[i]);
            }
        }
    } else {
        assert(s.skip(0) =~= s);
    }
}

proof fn lemma_trim_end(s: Seq<char>)
    ensures
        trim_end(s).len() <= s.len(),
        trim_end(s) == s.take(trim_end(s).len() as int),
        all_blank(s.skip(trim_end(s).len() as int)),
        trim_end(s).len() > 0 ==> !is_space(trim_end(s).last()),
    decreases s.len(),
{
    if s.len() > 0 && is_space(s.last()) {
        let t = s.drop_last();
        lemma_trim_end(t);
        let n = trim_end(s).len() as int;
        assert(t.take(n) =~= s.take(n));
        assert forall|i: int| 0 <= i < s.len() - n implies is_space(#[trigger] s.skip(n)[i]) by {
            if i + n < t.len() {
                assert(t.skip(n)[i] == s[n + i]);
            }
        }
    } else {
        assert(s.take(s.len() as int) =~= s);
    }
}

/// Trimming drops the blanks at both ends and nothing else: what is left neither
/// begins nor ends with a blank.
pub proof fn law_trim_drops_blank_ends(s: Seq<char>)
    ensures
        exists|a: Seq<char>, b: Seq<char>|
            s == #[trigger] (a + trim(s) + b) && all_blank(a) && all_blank(b),
        trim(s).len() > 0 ==> !is_space(trim(s)[0]) && !is_space(trim(s).last()),
        trim(trim(s)) == trim(s),
{
    let t = trim_start(s);
    lemma_trim_start(s);
    lemma_trim_end(t);
    let a = s.take(s.len() - t.len());
    let b = t.skip(trim(s).len() as int);
    assert(s =~= a + trim(s) + b);
    if trim(s).len() > 0 {
        assert(trim(s)[0] == t[0]);
    }
    assert(trim_start(trim(s)) == trim(s));
}

/// Blanks are the space and the control characters that move on; what is seen on
/// paper is none.
pub proof fn law_blanks(c: char)
    ensures
        is_space(' ') && is_space('\t') && is_space('\n') && is_space('\r'),
        '!' <= c <= '~' ==> !is_space(c),
{
}

/// A text has a part exactly where it can be taken apart around it.
pub proof fn law_part_stands_inside(s: Seq<char>, part: Seq<char>)
    ensures
        has_part(s, part) <==> exists|a: Seq<char>, b: Seq<char>| s == #[trigger] (a + part + b),
{
    if has_part(s, part) {
        let i = choose|i: int| 0 <= i <= s.len() && part.is_prefix_of(#[trigger] s.skip(i));
        let a = s.take(i);
        let b = s.skip(i + part.len());
        assert(s =~= a + part + b);
    }
    if exists|a: Seq<char>, b: Seq<char>| s == #[trigger] (a + part + b) {
        let (a, b) = choose|a: Seq<char>, b: Seq<char>| s == #[trigger] (a + part + b);
        assert(part.is_prefix_of(s.skip(a.len() as int)));
    }
}

/// Parts that do not contain the separator come back when their join is split.
pub proof fn law_joined_parts_split_again(parts: Seq<Seq<char>>, c: char)
    requires
        parts.len() > 0,
        forall|i: int| 0 <= i < parts.len() ==> !(#[trigger] parts[i]).contains(c),
    ensures
        split(joined(parts, seq![c]), c) == parts,
        forall|n: nat|
            n >= parts.len() ==> #[trigger] split_limited(joined(parts, seq![c]), c, n) == parts,
    decreases parts.len(),
{
    let s = joined(parts, seq![c]);
    let x = parts[0];
    if parts.len() == 1 {
        lemma_first_at(s, c);
        assert(parts =~= seq![s]);
        assert forall|n: nat| n >= parts.len() implies #[trigger] split_limited(s, c, n)
            == parts by {
            assert(split_limited(s, c, n) == seq![s]);
        }
    } else {
        let rest = parts.skip(1);
        assert forall|i: int| 0 <= i < rest.len() implies !(#[trigger] rest[i]).contains(c) by {
            assert(rest[i] == parts[i + 1]);
        }
        law_joined_parts_split_again(rest, c);
        lemma_joined_front(x, rest, seq![c]);
        assert(parts =~= seq![x] + rest);
        let t = joined(rest, seq![c]);
        assert(s == x + seq![c] + t);
        assert forall|i: int| 0 <= i < x.len() implies s[i] != c by {
            assert(s[i] == x[i]);
            assert(!parts[0].contains(c));
        }
        assert(s[x.len() as int] == c);
        lemma_first_at_is(s, c, x.len() as int);
        assert(s.take(x.len() as int) =~= x);
        assert(s.skip(x.len() + 1int) =~= t);
        assert forall|n: nat| n >= parts.len() implies #[trigger] split_limited(s, c, n)
            == parts by {
            assert(split_limited(s, c, n) == seq![x] + split_limited(t, c, (n - 1) as nat));
        }
    }
}

/// Doubling the quotes of a text leaves every other character as it is.
pub proof fn law_quotes_are_doubled(s: Seq<char>, c: char)
    ensures
        quotes_doubled(Seq::empty()).len() == 0,
        quotes_doubled(s.push('\'')) == quotes_doubled(s).push('\'').push('\''),
        c != '\'' ==> quotes_doubled(s.push(c)) == quotes_doubled(s).push(c),
{
    lemma_quotes_step(s, '\'');
    lemma_quotes_step(s, c);
}

proof fn lemma_quotes_step(s: Seq<char>, c: char)
    ensures
        quotes_doubled(s.push(c)) == quotes_doubled(s) + quoted_char(c),
{
    s.lemma_flat_map_push(|c: char| quoted_char(c), c);
}

/// In ASCII the capitals `A` to `Z` are lowered to `a` to `z`, in order, and nothing else
/// is changed.
pub proof fn law_capitals_are_lowered(c: char, k: int)
    ensures
        0 <= k < 26 && c as int == 65 + k ==> lower_ascii(c) as int == 97 + k,
        !('A' <= c <= 'Z') ==> lower_ascii(c) == c,
{
}

/// A character is a blank exactly where Unicode counts it as white space.
pub proof fn law_blanks_are_white_space(c: char)
    ensures
        is_space(c) <==> seq![
            9int, 10, 11, 12, 13, 32, 0x85, 0xA0, 0x1680, 0x2000, 0x2001, 0x2002, 0x2003, 0x2004,
            0x2005, 0x2006, 0x2007, 0x2008, 0x2009, 0x200A, 0x2028, 0x2029, 0x202F, 0x205F, 0x3000,
        ].contains(c as int),
{
    let all = seq![
        9int, 10, 11, 12, 13, 32, 0x85, 0xA0, 0x1680, 0x2000, 0x2001, 0x2002, 0x2003, 0x2004,
        0x2005, 0x2006, 0x2007, 0x2008, 0x2009, 0x200A, 0x2028, 0x2029, 0x202F, 0x205F, 0x3000,
    ];
    assert(all[0] == 9 && all[1] == 10 && all[2] == 11 && all[3] == 12 && all[4] == 13);
    assert(all[5] == 32 && all[6] == 0x85 && all[7] == 0xA0 && all[8] == 0x1680);
    assert(all[9] == 0x2000 && all[10] == 0x2001 && all[11] == 0x2002 && all[12] == 0x2003);
    assert(all[13] == 0x2004 && all[14] == 0x2005 && all[15] == 0x2006 && all[16] == 0x2007);
    assert(all[17] == 0x2008 && all[18] == 0x2009 && all[19] == 0x200A && all[20] == 0x2028);
    assert(all[21] == 0x2029 && all[22] == 0x202F && all[23] == 0x205F && all[24] == 0x3000);
}

/// A text whose digits say more than a number can hold is none, and a sign in front of
/// digits says which way they count.
pub proof fn law_numbers_have_bounds(digits: Seq<char>)
    requires
        digits.len() > 0,
        forall|i: int| 0 <= i < digits.len() ==> '0' <= #[trigger] digits[i] <= '9',
    ensures
        digits_value(digits) > i64::MAX ==> number(digits) is None && number(seq!['+'] + digits)
            is None,
        digits_value(digits) > i64::MAX + 1 ==> number(seq!['-'] + digits) is None,
        digits_value(digits) <= i64::MAX + 1 ==> number(seq!['-'] + digits) == Some(
            (-digits_value(digits)) as i64,
        ),
        number(seq!['+'] + digits) == number(digits),
{
    assert((seq!['-'] + digits).skip(1) =~= digits);
    assert((seq!['+'] + digits).skip(1) =~= digits);
    assert(digits[0] != '-' && digits[0] != '+');
    assert forall|i: int| 0 <= i < digits.len() implies is_digit(#[trigger] digits[i]) by {}
}

} // verus!
