//! Civil dates in the proleptic Gregorian calendar.
use vstd::prelude::*;
use vstd::arithmetic::div_mod::{lemma_fundamental_div_mod_converse, lemma_mod_mod};
use vstd::utf8::*;
use crate::text;
use crate::text::string_from_chars;

verus! {

/// Whether a year has 366 days.
pub open spec fn is_leap(y: int) -> bool {
    y % 4 == 0 && (y % 100 != 0 || y % 400 == 0)
}

/// The number of days of a month.
pub open spec fn days_in_month(y: int, m: int) -> int {
    if m == 2 {
        if is_leap(y) {
            29
        } else {
            28
        }
    } else if m == 4 || m == 6 || m == 9 || m == 11 {
        30
    } else {
        31
    }
}

/// The number of days of a year before the first of a month.
pub open spec fn days_before_month(y: int, m: int) -> int
    decreases m,
{
    if m <= 1 {
        0
    } else {
        days_before_month(y, m - 1) + days_in_month(y, m - 1)
    }
}

/// The number of days from 1970-01-01 to the first day of a year.
pub open spec fn days_before_year(y: int) -> int {
    365 * (y - 1) + (y - 1) / 4 - (y - 1) / 100 + (y - 1) / 400 - 719162
}

/// Whether a year, month and day form a date.
pub open spec fn valid_date(y: int, m: int, d: int) -> bool {
    1 <= m <= 12 && 1 <= d <= days_in_month(y, m)
}

/// The number of days from 1970-01-01 to a date.
pub open spec fn day_number(y: int, m: int, d: int) -> int {
    days_before_year(y) + days_before_month(y, m) + d - 1
}

/// The number of days before year `n` of a cycle of 400 years that begin in March.
spec fn days_before_cycle_year(n: int) -> int {
    365 * n + n / 4 - n / 100
}

/// The year of a 400-year cycle that a day of the cycle falls in.
spec fn cycle_year(doe: int) -> int {
    (doe - doe / 1460 + doe / 36524 - doe / 146096) / 365
}

proof fn lemma_cycle_year_range(doe: int)
    requires
        0 <= doe < 146097,
    ensures
        0 <= cycle_year(doe) < 400,
{
}

proof fn lemma_cycle_year_lower(doe: int)
    requires
        0 <= doe < 146097,
    ensures
        days_before_cycle_year(cycle_year(doe)) <= doe,
{
}

proof fn lemma_cycle_year_upper(doe: int)
    requires
        0 <= doe < 146097,
    ensures
        cycle_year(doe) < 399 ==> doe < days_before_cycle_year(cycle_year(doe) + 1),
{
}

/// Day 365 of a March-based year exists only before a leap February.
proof fn lemma_long_year(doe: int)
    requires
        0 <= doe < 146097,
    ensures
        0 <= doe - days_before_cycle_year(cycle_year(doe)) <= 365,
        doe - days_before_cycle_year(cycle_year(doe)) == 365 ==> is_leap(cycle_year(doe) + 1),
{
    lemma_cycle_year_range(doe);
    lemma_cycle_year_lower(doe);
    lemma_cycle_year_upper(doe);
    let n = cycle_year(doe);
    if n == 399 {
        assert(is_leap(400));
    }
}

proof fn lemma_quotients(era: int, n: int)
    requires
        0 <= n < 400,
    ensures
        (era * 400 + n) / 4 == era * 100 + n / 4,
        (era * 400 + n) / 100 == era * 4 + n / 100,
        (era * 400 + n) / 400 == era,
{
}

proof fn lemma_same_leap(era: int, n: int)
    ensures
        is_leap(era * 400 + n) == is_leap(n),
{
    assert((era * 400 + n) % 4 == n % 4);
    assert((era * 400 + n) % 100 == n % 100);
    assert((era * 400 + n) % 400 == n % 400);
}

proof fn lemma_cycle_start(era: int, n: int)
    requires
        0 <= n < 400,
    ensures
        days_before_year(era * 400 + n + 1) == era * 146097 + days_before_cycle_year(n) - 719162,
{
    lemma_quotients(era, n);
}

proof fn lemma_month_of_day(doy: int, m: int, d: int, y: int)
    requires
        0 <= doy <= 365,
        d == doy - (153 * ((5 * doy + 2) / 153) + 2) / 5 + 1,
        m == if (5 * doy + 2) / 153 < 10 {
            (5 * doy + 2) / 153 + 3
        } else {
            (5 * doy + 2) / 153 - 9
        },
        m <= 2 && doy == 365 ==> is_leap(y),
    ensures
        valid_date(y, m, d),
        days_before_month(y, m) + d - 1 == if m <= 2 {
            doy - 306
        } else {
            doy + 59 + if is_leap(y) {
                1int
            } else {
                0int
            }
        },
        doy == 365 ==> m == 2,
{
    reveal_with_fuel(days_before_month, 13);
    let mp = (5 * doy + 2) / 153;
    assert(0 <= mp <= 11);
}

/// Converts days since 1970-01-01 to year, month and day.
pub fn civil_from_days(days: i64) -> (r: (i64, u32, u32))
    requires
        days <= i64::MAX - 719468,
    ensures
        valid_date(r.0 as int, r.1 as int, r.2 as int),
        day_number(r.0 as int, r.1 as int, r.2 as int) == days,
{
    let z: i64 = days + 719468;
    let era: i64 = if z >= 0 {
        z / 146097
    } else {
        -1 - (-1 - z) / 146097
    };
    let doe: i64 = z - era * 146097;
    assert(0 <= doe < 146097);
    proof {
        lemma_cycle_year_range(doe as int);
        lemma_cycle_year_lower(doe as int);
        lemma_long_year(doe as int);
    }
    let yoe: i64 = (doe - doe / 1460 + doe / 36524 - doe / 146096) / 365;
    let y: i64 = yoe + era * 400;
    let doy: i64 = doe - (365 * yoe + yoe / 4 - yoe / 100);
    let mp: i64 = (5 * doy + 2) / 153;
    let d: i64 = doy - (153 * mp + 2) / 5 + 1;
    let m: i64 = if mp < 10 {
        mp + 3
    } else {
        mp - 9
    };
    let civil_year: i64 = if m <= 2 {
        y + 1
    } else {
        y
    };
    proof {
        lemma_cycle_start(era as int, yoe as int);
        lemma_next_year(y as int);
        lemma_same_leap(era as int, yoe + 1);
        lemma_month_of_day(doy as int, m as int, d as int, civil_year as int);
    }
    (civil_year, m as u32, d as u32)
}

/// A moment as `YYYYMMDD-HHMMSS`, from seconds since 1970.
pub open spec fn is_timestamp(t: Seq<char>, secs: int) -> bool {
    exists|y: int, m: int, d: int|
        #![trigger day_number(y, m, d)]
        {
            &&& y >= 0
            &&& valid_date(y, m, d)
            &&& day_number(y, m, d) == secs / 86400
            &&& t == text::padded_decimal(y as nat, 4) + text::padded_decimal(m as nat, 2)
                + text::padded_decimal(d as nat, 2) + seq!['-'] + text::padded_decimal(
                ((secs % 86400) / 3600) as nat,
                2,
            ) + text::padded_decimal(((secs % 3600) / 60) as nat, 2) + text::padded_decimal(
                (secs % 60) as nat,
                2,
            )
        }
}

proof fn lemma_time_of_day(secs: u64)
    ensures
        (secs % 86400) % 3600 == secs % 3600,
        (secs % 86400) % 60 == secs % 60,
{
    lemma_mod_mod(secs as int, 3600, 24);
    lemma_mod_mod(secs as int, 60, 1440);
}

/// Formats seconds since 1970 as `YYYYMMDD-HHMMSS`.
#[verifier::spinoff_prover]
#[verifier::rlimit(60)]
pub fn timestamp(secs: u64) -> (s: String)
    ensures
        is_timestamp(s@, secs as int),
{
    let days: u64 = secs / 86400;
    let time_secs: u64 = secs % 86400;
    let hours: u64 = time_secs / 3600;
    let minutes: u64 = (time_secs % 3600) / 60;
    let seconds: u64 = time_secs % 60;
    let (year, month, day) = civil_from_days(days as i64);
    proof {
        lemma_day_of_year(year as int, month as int, day as int);
        if year < 1970 {
            lemma_years_grow(year + 1, 1970);
            lemma_next_year(year as int);
        }
        lemma_time_of_day(secs);
    }
    let mut out: Vec<char> = Vec::new();
    text::push_padded(&mut out, year as u64, 4);
    text::push_padded(&mut out, month as u64, 2);
    text::push_padded(&mut out, day as u64, 2);
    out.push('-');
    text::push_padded(&mut out, hours, 2);
    text::push_padded(&mut out, minutes, 2);
    text::push_padded(&mut out, seconds, 2);
    assert(out@ =~= text::padded_decimal(year as nat, 4) + text::padded_decimal(month as nat, 2)
        + text::padded_decimal(day as nat, 2) + seq!['-'] + text::padded_decimal(hours as nat, 2)
        + text::padded_decimal(minutes as nat, 2) + text::padded_decimal(seconds as nat, 2));
    assert(day_number(year as int, month as int, day as int) == secs / 86400);
    string_from_chars(&out)
}

/// A day has only one date.
pub proof fn law_dates_are_unique(y1: int, m1: int, d1: int, y2: int, m2: int, d2: int)
    requires
        valid_date(y1, m1, d1),
        valid_date(y2, m2, d2),
        day_number(y1, m1, d1) == day_number(y2, m2, d2),
    ensures
        y1 == y2 && m1 == m2 && d1 == d2,
{
    lemma_day_of_year(y1, m1, d1);
    lemma_day_of_year(y2, m2, d2);
    if y1 < y2 {
        lemma_years_grow(y1 + 1, y2);
        lemma_next_year(y1);
    } else if y2 < y1 {
        lemma_years_grow(y2 + 1, y1);
        lemma_next_year(y2);
    }
    reveal_with_fuel(days_before_month, 13);
}

proof fn lemma_day_of_year(y: int, m: int, d: int)
    requires
        valid_date(y, m, d),
    ensures
        0 <= days_before_month(y, m) + d - 1 < 365 + if is_leap(y) {
            1int
        } else {
            0int
        },
{
    reveal_with_fuel(days_before_month, 13);
}

proof fn lemma_next_year(y: int)
    ensures
        days_before_year(y + 1) == days_before_year(y) + 365 + if is_leap(y) {
            1int
        } else {
            0int
        },
{
    assert(y / 4 - (y - 1) / 4 == if y % 4 == 0 { 1int } else { 0int }) by {
        lemma_step(y, 4);
    }
    assert(y / 100 - (y - 1) / 100 == if y % 100 == 0 { 1int } else { 0int }) by {
        lemma_step(y, 100);
    }
    assert(y / 400 - (y - 1) / 400 == if y % 400 == 0 { 1int } else { 0int }) by {
        lemma_step(y, 400);
    }
    assert(y % 400 == 0 ==> y % 100 == 0) by {
        lemma_divides(y, 100, 4);
    }
    assert(y % 100 == 0 ==> y % 4 == 0) by {
        lemma_divides(y, 4, 25);
    }
}

/// A quotient grows by one where the divisor divides, and only there.
proof fn lemma_step(y: int, k: int)
    requires
        0 < k,
    ensures
        y / k - (y - 1) / k == if y % k == 0 {
            1int
        } else {
            0int
        },
{
    let q = y / k;
    let r = y % k;
    vstd::arithmetic::div_mod::lemma_fundamental_div_mod(y, k);
    vstd::arithmetic::mul::lemma_mul_is_commutative(k, q);
    if r == 0 {
        assert(y - 1 == (q - 1) * k + (k - 1)) by (nonlinear_arith)
            requires
                y == q * k,
        ;
        vstd::arithmetic::div_mod::lemma_fundamental_div_mod_converse(y - 1, k, q - 1, k - 1);
    } else {
        vstd::arithmetic::div_mod::lemma_fundamental_div_mod_converse(y - 1, k, q, r - 1);
    }
}

/// A multiple of a product is a multiple of its factor.
proof fn lemma_divides(y: int, k: int, n: int)
    requires
        0 < k,
        0 < n,
    ensures
        y % (k * n) == 0 ==> y % k == 0,
{
    if y % (k * n) == 0 {
        let q = y / (k * n);
        assert(0 < k * n) by (nonlinear_arith)
            requires
                0 < k,
                0 < n,
        ;
        vstd::arithmetic::div_mod::lemma_fundamental_div_mod(y, k * n);
        assert(y == (n * q) * k) by (nonlinear_arith)
            requires
                y == (k * n) * q,
        ;
        vstd::arithmetic::div_mod::lemma_fundamental_div_mod_converse(y, k, n * q, 0);
    }
}

proof fn lemma_years_grow(a: int, b: int)
    requires
        a <= b,
    ensures
        days_before_year(a) <= days_before_year(b),
    decreases b - a,
{
    if a < b {
        lemma_next_year(b - 1);
        lemma_years_grow(a, b - 1);
    }
}

// ── Dates in text ────────────────────────────────────────────────────────────

/// The number written in some bytes of a text.
pub open spec fn number_at(bytes: Seq<u8>, from: int, to: int) -> Option<i64> {
    text::number(Seq::new((to - from) as nat, |i: int| bytes[from + i] as char))
}

/// Integer division that drops the fraction.
pub open spec fn quotient_toward_zero(a: int, b: int) -> int {
    if a >= 0 {
        a / b
    } else {
        -((-a) / b)
    }
}

/// Days from 1970-01-01 by way of the Julian day number.
pub open spec fn julian_days(year: int, month: int, day: int) -> int {
    let a = quotient_toward_zero(14 - month, 12);
    let y = year + 4800 - a;
    let m = month + 12 * a - 3;
    day + (153 * m + 2) / 5 + 365 * y + y / 4 - y / 100 + y / 400 - 32045 - 2_440_588
}

/// The seconds from 1970 of a moment written as `YYYY-MM-DD HH:MM:SS`, in bytes.
/// Each number is read from its place; what stands between them does not matter.
pub open spec fn datetime_seconds(bytes: Seq<u8>) -> Option<int> {
    if bytes.len() < 19 {
        None
    } else {
        match (
            number_at(bytes, 0, 4),
            number_at(bytes, 5, 7),
            number_at(bytes, 8, 10),
            number_at(bytes, 11, 13),
            number_at(bytes, 14, 16),
            number_at(bytes, 17, 19),
        ) {
            (Some(year), Some(month), Some(day), Some(hour), Some(min), Some(sec)) => Some(
                julian_days(year as int, month as int, day as int) * 86400 + hour * 3600 + min * 60
                    + sec,
            ),
            _ => None,
        }
    }
}

proof fn lemma_digits_value_bound(s: Seq<char>)
    requires
        forall|i: int| 0 <= i < s.len() ==> text::is_digit(#[trigger] s[i]),
        s.len() <= 4,
    ensures
        text::digits_value(s) <= 9999,
        s.len() <= 2 ==> text::digits_value(s) <= 99,
{
    reveal_with_fuel(text::digits_value, 5);
    if s.len() > 0 {
        assert(text::is_digit(s[s.len() - 1]));
    }
    if s.len() > 1 {
        assert(text::is_digit(s[s.len() - 2]));
        assert(s.drop_last().last() == s[s.len() - 2]);
    }
    if s.len() > 2 {
        assert(text::is_digit(s[s.len() - 3]));
        assert(s.drop_last().drop_last().last() == s[s.len() - 3]);
    }
    if s.len() > 3 {
        assert(text::is_digit(s[s.len() - 4]));
        assert(s.drop_last().drop_last().drop_last().last() == s[s.len() - 4]);
    }
}

proof fn lemma_number_bound(s: Seq<char>)
    requires
        s.len() <= 4,
    ensures
        text::number(s) matches Some(n) ==> -999 <= n <= 9999 && (s.len() <= 2 ==> -9 <= n <= 99),
{
    if s.len() > 0 {
        let digits = s.skip(1);
        if text::all_digits(digits) {
            lemma_digits_value_bound(digits);
            if digits.len() == 1 {
                reveal_with_fuel(text::digits_value, 2);
                assert(text::is_digit(digits[0]));
            }
            if digits.len() == 3 {
                reveal_with_fuel(text::digits_value, 5);
                assert(text::is_digit(digits[0]) && text::is_digit(digits[1]) && text::is_digit(
                    digits[2],
                ));
                assert(digits.drop_last().last() == digits[1]);
                assert(digits.drop_last().drop_last().last() == digits[0]);
            }
        }
        if text::all_digits(s) {
            lemma_digits_value_bound(s);
        }
    }
}

fn read_number_at(bytes: &[u8], from: usize, to: usize) -> (r: Option<i64>)
    requires
        from <= to <= bytes@.len(),
        to - from <= 4,
    ensures
        r == number_at(bytes@, from as int, to as int),
        r matches Some(n) ==> -999 <= n <= 9999 && (to - from <= 2 ==> -9 <= n <= 99),
{
    let mut cs: Vec<char> = Vec::new();
    let mut i: usize = from;
    while i < to
        invariant
            from <= i <= to <= bytes@.len(),
            cs@.len() == i - from,
            forall|k: int| 0 <= k < i - from ==> #[trigger] cs@[k] == bytes@[from + k] as char,
        decreases to - i,
    {
        cs.push(bytes[i] as char);
        i = i + 1;
    }
    proof {
        assert(cs@ =~= Seq::new((to - from) as nat, |i: int| bytes@[from + i] as char));
        lemma_number_bound(cs@);
    }
    text::parse_number(&cs)
}

/// Days from 1970-01-01 to a written date, whose month and day may be out of range.
fn days_since_epoch(year: i64, month: i64, day: i64) -> (r: i64)
    requires
        -999 <= year <= 9999,
        -9 <= month <= 99,
        -9 <= day <= 99,
    ensures
        r == julian_days(year as int, month as int, day as int),
        -10_000_000 <= r <= 10_000_000,
{
    let a: i64 = if month <= 14 {
        (14 - month) / 12
    } else {
        -((month - 14) / 12)
    };
    assert(a == quotient_toward_zero(14 - month, 12));
    assert(-8 <= a <= 1);
    let y: i64 = year + 4800 - a;
    let m: i64 = month + 12 * a - 3;
    assert(0 <= m <= 30);
    assert(3800 <= y <= 15000);
    day + (153 * m + 2) / 5 + 365 * y + y / 4 - y / 100 + y / 400 - 32045 - 2_440_588
}

/// Converts a moment written as `YYYY-MM-DD HH:MM:SS` to seconds since 1970.
pub fn sqlite_datetime_to_unix(s: &str) -> (r: Option<i64>)
    ensures
        match r {
            Some(t) => datetime_seconds(encode_utf8(s@)) == Some(t as int),
            None => datetime_seconds(encode_utf8(s@)) is None,
        },
{
    let bytes = s.as_bytes();
    if bytes.len() < 19 {
        return None;
    }
    let year: i64 = match read_number_at(bytes, 0, 4) {
        Some(n) => n,
        None => {
            return None;
        },
    };
    let month: i64 = match read_number_at(bytes, 5, 7) {
        Some(n) => n,
        None => {
            return None;
        },
    };
    let day: i64 = match read_number_at(bytes, 8, 10) {
        Some(n) => n,
        None => {
            return None;
        },
    };
    let hour: i64 = match read_number_at(bytes, 11, 13) {
        Some(n) => n,
        None => {
            return None;
        },
    };
    let min: i64 = match read_number_at(bytes, 14, 16) {
        Some(n) => n,
        None => {
            return None;
        },
    };
    let sec: i64 = match read_number_at(bytes, 17, 19) {
        Some(n) => n,
        None => {
            return None;
        },
    };
    let days: i64 = days_since_epoch(year, month, day);
    Some(days * 86400 + hour * 3600 + min * 60 + sec)
}

/// The days of a written date are the days of the calendar.
pub proof fn law_written_dates_follow_calendar(y: int, m: int, d: int)
    requires
        valid_date(y, m, d),
    ensures
        julian_days(y, m, d) == day_number(y, m, d),
{
    reveal_with_fuel(days_before_month, 13);
    let a = quotient_toward_zero(14 - m, 12);
    assert(a == if m <= 2 { 1int } else { 0int });
    let n = y + 4800 - a;
    assert(n / 4 == (y - a) / 4 + 1200);
    assert(n / 100 == (y - a) / 100 + 48);
    assert(n / 400 == (y - a) / 400 + 12);
    lemma_next_year(y);
}

// ── Laws ─────────────────────────────────────────────────────────────────────

/// Every fourth year is a leap year, but of the full centuries only every fourth.
pub proof fn law_leap_years(n: int)
    ensures
        is_leap(400 * n),
        !is_leap(400 * n + 100) && !is_leap(400 * n + 200) && !is_leap(400 * n + 300),
        (4 * n) % 100 != 0 ==> is_leap(4 * n),
        !is_leap(4 * n + 1) && !is_leap(4 * n + 2) && !is_leap(4 * n + 3),
{
}

/// Days are counted from the first of January 1970, one after the other: within a month,
/// from a month to the next and from a year to the next.
pub proof fn law_days_follow_each_other(y: int, m: int, d: int)
    requires
        valid_date(y, m, d),
    ensures
        day_number(1970, 1, 1) == 0,
        valid_date(y, m, d + 1) ==> day_number(y, m, d + 1) == day_number(y, m, d) + 1,
        !valid_date(y, m, d + 1) && m < 12 ==> day_number(y, m + 1, 1) == day_number(y, m, d) + 1,
        !valid_date(y, m, d + 1) && m == 12 ==> day_number(y + 1, 1, 1) == day_number(y, m, d) + 1,
{
    lemma_day_of_year(y, m, d);
    lemma_next_year(y);
    reveal_with_fuel(days_before_month, 13);
}

/// The months have thirty-one days, but for April, June, September and November with
/// thirty, and February with twenty-eight, or twenty-nine in a leap year.
pub proof fn law_months(y: int, d: int)
    ensures
        valid_date(y, 1, d) <==> 1 <= d <= 31,
        valid_date(y, 2, d) <==> 1 <= d <= (if is_leap(y) {
            29int
        } else {
            28
        }),
        valid_date(y, 3, d) <==> 1 <= d <= 31,
        valid_date(y, 4, d) <==> 1 <= d <= 30,
        valid_date(y, 5, d) <==> 1 <= d <= 31,
        valid_date(y, 6, d) <==> 1 <= d <= 30,
        valid_date(y, 7, d) <==> 1 <= d <= 31,
        valid_date(y, 8, d) <==> 1 <= d <= 31,
        valid_date(y, 9, d) <==> 1 <= d <= 30,
        valid_date(y, 10, d) <==> 1 <= d <= 31,
        valid_date(y, 11, d) <==> 1 <= d <= 30,
        valid_date(y, 12, d) <==> 1 <= d <= 31,
        !valid_date(y, 0, d) && !valid_date(y, 13, d),
{
}

/// The parts of a moment.
proof fn lemma_moment(n: int, hour: int, minute: int, second: int)
    requires
        0 <= hour < 24,
        0 <= minute < 60,
        0 <= second < 60,
    ensures
        ({
            let secs = n * 86400 + hour * 3600 + minute * 60 + second;
            &&& secs / 86400 == n
            &&& (secs % 86400) / 3600 == hour
            &&& (secs % 3600) / 60 == minute
            &&& secs % 60 == second
        }),
{
    let secs = n * 86400 + hour * 3600 + minute * 60 + second;
    let of_day = hour * 3600 + minute * 60 + second;
    let of_hour = minute * 60 + second;
    lemma_fundamental_div_mod_converse(secs, 86400, n, of_day);
    lemma_fundamental_div_mod_converse(of_day, 3600, hour, of_hour);
    lemma_fundamental_div_mod_converse(secs, 3600, n * 24 + hour, of_hour);
    lemma_fundamental_div_mod_converse(of_hour, 60, minute, second);
    lemma_fundamental_div_mod_converse(secs, 60, n * 1440 + hour * 60 + minute, second);
}

/// A timestamp shows the date and the time of day of its moment.
pub proof fn law_timestamp_shows_moment(
    t: Seq<char>,
    y: int,
    m: int,
    d: int,
    hour: int,
    minute: int,
    second: int,
)
    requires
        valid_date(y, m, d),
        0 <= hour < 24,
        0 <= minute < 60,
        0 <= second < 60,
        is_timestamp(t, day_number(y, m, d) * 86400 + hour * 3600 + minute * 60 + second),
    ensures
        y >= 0,
        t == text::padded_decimal(y as nat, 4) + text::padded_decimal(m as nat, 2)
            + text::padded_decimal(d as nat, 2) + seq!['-'] + text::padded_decimal(hour as nat, 2)
            + text::padded_decimal(minute as nat, 2) + text::padded_decimal(second as nat, 2),
{
    let n = day_number(y, m, d);
    let secs = n * 86400 + hour * 3600 + minute * 60 + second;
    lemma_moment(n, hour, minute, second);
    let (y2, m2, d2) = choose|y2: int, m2: int, d2: int|
        #![trigger day_number(y2, m2, d2)]
        {
            &&& y2 >= 0
            &&& valid_date(y2, m2, d2)
            &&& day_number(y2, m2, d2) == secs / 86400
            &&& t == text::padded_decimal(y2 as nat, 4) + text::padded_decimal(m2 as nat, 2)
                + text::padded_decimal(d2 as nat, 2) + seq!['-'] + text::padded_decimal(
                ((secs % 86400) / 3600) as nat,
                2,
            ) + text::padded_decimal(((secs % 3600) / 60) as nat, 2) + text::padded_decimal(
                (secs % 60) as nat,
                2,
            )
        };
    law_dates_are_unique(y, m, d, y2, m2, d2);
}

/// Digits as bytes.
pub open spec fn digit_bytes(n: nat, width: nat) -> Seq<u8> {
    Seq::new(width, |i: int| text::padded_decimal(n, width)[i] as u8)
}

/// A date and a time of day, written out with any four separators and anything behind.
pub open spec fn written_moment(
    y: nat,
    m: nat,
    d: nat,
    hour: nat,
    minute: nat,
    second: nat,
    marks: Seq<u8>,
    rest: Seq<u8>,
) -> Seq<u8> {
    digit_bytes(y, 4) + seq![marks[0]] + digit_bytes(m, 2) + seq![marks[1]] + digit_bytes(d, 2)
        + seq![marks[2]] + digit_bytes(hour, 2) + seq![marks[3]] + digit_bytes(minute, 2)
        + seq![marks[4]] + digit_bytes(second, 2) + rest
}

/// A date and a time of day that are written out read back as the seconds since 1970.
pub proof fn law_written_moment_reads_back(
    y: nat,
    m: nat,
    d: nat,
    hour: nat,
    minute: nat,
    second: nat,
    marks: Seq<u8>,
    rest: Seq<u8>,
)
    requires
        y < 10000,
        valid_date(y as int, m as int, d as int),
        hour < 24,
        minute < 60,
        second < 60,
        marks.len() == 5,
    ensures
        datetime_seconds(written_moment(y, m, d, hour, minute, second, marks, rest)) == Some(
            day_number(y as int, m as int, d as int) * 86400 + hour * 3600 + minute * 60 + second,
        ),
{
    let bytes = written_moment(y, m, d, hour, minute, second, marks, rest);
    assert(bytes.subrange(0, 4) =~= digit_bytes(y, 4));
    lemma_digit_bytes(bytes, 0, y, 4);
    assert(bytes.subrange(5, 7) =~= digit_bytes(m, 2));
    lemma_digit_bytes(bytes, 5, m, 2);
    assert(bytes.subrange(8, 10) =~= digit_bytes(d, 2));
    lemma_digit_bytes(bytes, 8, d, 2);
    assert(bytes.subrange(11, 13) =~= digit_bytes(hour, 2));
    lemma_digit_bytes(bytes, 11, hour, 2);
    assert(bytes.subrange(14, 16) =~= digit_bytes(minute, 2));
    lemma_digit_bytes(bytes, 14, minute, 2);
    assert(bytes.subrange(17, 19) =~= digit_bytes(second, 2));
    lemma_digit_bytes(bytes, 17, second, 2);
    law_written_dates_follow_calendar(y as int, m as int, d as int);
}

proof fn lemma_digit_bytes(bytes: Seq<u8>, from: int, n: nat, width: nat)
    requires
        0 <= from,
        from + width <= bytes.len(),
        width == 2 && n < 100 || width == 4 && n < 10000,
        bytes.subrange(from, from + width) == digit_bytes(n, width),
    ensures
        number_at(bytes, from, from + width) == Some(n as i64),
{
    let t = text::padded_decimal(n, width);
    let s = Seq::new(width, |i: int| bytes[from + i] as char);
    text::law_padding_is_zeros(n, width);
    text::law_decimal_reads_back(n);
    lemma_decimal_width(n, width);
    assert forall|i: int| 0 <= i < width implies '0' <= #[trigger] t[i] <= '9' by {
        let pad = width - text::decimal(n).len();
        if i >= pad {
            assert(t[i] == text::decimal(n)[i - pad]);
        }
    }
    assert forall|i: int| 0 <= i < width implies s[i] == t[i] by {
        assert(bytes.subrange(from, from + width)[i] == digit_bytes(n, width)[i]);
        lemma_digit_byte(t[i]);
    }
    assert(s =~= t);
    text::law_numbers_are_digits(t);
    assert(Seq::new((from + width - from) as nat, |i: int| bytes[from + i] as char) =~= s);
}

proof fn lemma_digit_byte(c: char)
    requires
        '0' <= c <= '9',
    ensures
        (c as u8) as char == c,
{
}

proof fn lemma_decimal_width(n: nat, width: nat)
    requires
        width == 2 && n < 100 || width == 4 && n < 10000,
    ensures
        text::decimal(n).len() <= width,
{
    reveal_with_fuel(text::decimal, 4);
}

} // verus!
