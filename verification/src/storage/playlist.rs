//! Shuffling and limiting the result of a smart playlist.
use vstd::prelude::*;
use crate::models::RecordingRow;
use crate::query::{Limit, LimitUnit};

verus! {

// ── Shuffling ────────────────────────────────────────────────────────────────

/// The next state of the generator.
pub open spec fn next_state(state: u64) -> u64 {
    state.wrapping_mul(6364136223846793005).wrapping_add(1442695040888963407)
}

/// The place that the item at `i` changes with.
pub open spec fn swap_place(state: u64, i: int) -> int {
    (state >> 33) as int % (i + 1)
}

/// A sequence with two of its items exchanged.
pub open spec fn swapped<T>(s: Seq<T>, i: int, j: int) -> Seq<T> {
    s.update(i, s[j]).update(j, s[i])
}

/// The items up to place `i` shuffled, from the back to the front.
pub open spec fn shuffled_from<T>(s: Seq<T>, i: int, state: u64) -> Seq<T>
    decreases i,
{
    if i <= 0 {
        s
    } else {
        let next = next_state(state);
        shuffled_from(swapped(s, i, swap_place(next, i)), i - 1, next)
    }
}

/// A sequence shuffled with a seed.
pub open spec fn shuffled<T>(s: Seq<T>, seed: u64) -> Seq<T> {
    shuffled_from(s, s.len() - 1, seed.wrapping_add(6364136223846793005))
}

/// `slice::swap`: exchanges two items.
#[verifier::external_body]
fn swap_items<T>(v: &mut Vec<T>, i: usize, j: usize)
    requires
        i < old(v)@.len(),
        j < old(v)@.len(),
    ensures
        final(v)@ == swapped(old(v)@, i as int, j as int),
{
    v.swap(i, j)
}

/// Shuffles items with a linear congruential generator.
pub fn pseudo_shuffle<T>(v: &mut Vec<T>, seed: u64)
    ensures
        final(v)@ == shuffled(old(v)@, seed),
{
    let n: usize = v.len();
    if n <= 1 {
        return;
    }
    let mut state: u64 = seed.wrapping_add(6364136223846793005);
    let mut i: usize = n - 1;
    while i > 0
        invariant
            i < n,
            v@.len() == n,
            shuffled_from(v@, i as int, state) == shuffled(old(v)@, seed),
        decreases i,
    {
        state = state.wrapping_mul(6364136223846793005).wrapping_add(1442695040888963407);
        let high: u64 = state >> 33;
        let j: usize = (high % (i as u64 + 1)) as usize;
        swap_items(v, i, j);
        i = i - 1;
    }
}

proof fn lemma_swapped_is_permutation<T>(s: Seq<T>, i: int, j: int)
    requires
        0 <= i < s.len(),
        0 <= j < s.len(),
    ensures
        swapped(s, i, j).len() == s.len(),
        swapped(s, i, j).to_multiset() == s.to_multiset(),
{
    let t = s.update(i, s[j]);
    vstd::seq_lib::to_multiset_update(s, i, s[j]);
    vstd::seq_lib::to_multiset_update(t, j, s[i]);
    s.to_multiset_ensures();
    t.to_multiset_ensures();
    assert(s.contains(s[i]) && s.contains(s[j]));
    assert(t[j] == s[j]);
    assert(swapped(s, i, j).to_multiset() =~= s.to_multiset());
}

proof fn lemma_shuffled_from<T>(s: Seq<T>, i: int, state: u64)
    requires
        i < s.len(),
    ensures
        shuffled_from(s, i, state).to_multiset() == s.to_multiset(),
        shuffled_from(s, i, state).len() == s.len(),
    decreases i,
{
    if i > 0 {
        let next = next_state(state);
        let j = swap_place(next, i);
        lemma_swapped_is_permutation(s, i, j);
        lemma_shuffled_from(swapped(s, i, j), i - 1, next);
    }
}

/// Shuffling neither adds nor drops an item.
pub proof fn law_shuffle_is_permutation<T>(s: Seq<T>, seed: u64)
    ensures
        shuffled(s, seed).to_multiset() == s.to_multiset(),
        shuffled(s, seed).len() == s.len(),
{
    lemma_shuffled_from(s, s.len() - 1, seed.wrapping_add(6364136223846793005));
}

// ── Limits ───────────────────────────────────────────────────────────────────

/// The duration of a row, zero when it is unknown.
pub open spec fn row_ms(r: RecordingRow) -> int {
    match r.duration_ms {
        Some(ms) => ms as int,
        None => 0,
    }
}

/// The total duration of rows.
pub open spec fn total_ms(rows: Seq<RecordingRow>) -> int
    decreases rows.len(),
{
    if rows.len() == 0 {
        0
    } else {
        total_ms(rows.drop_last()) + row_ms(rows.last())
    }
}

/// Whether the durations of the first rows can always be added up.
pub open spec fn durations_fit(rows: Seq<RecordingRow>) -> bool {
    forall|k: int|
        0 <= k <= rows.len() ==> i64::MIN <= total_ms(#[trigger] rows.take(k)) <= i64::MAX
}

/// How many rows are taken, counted from `k` on: rows are taken until they exceed
/// the target.
pub open spec fn taken(rows: Seq<RecordingRow>, target: int, k: int) -> int
    decreases rows.len() - k,
{
    if k >= rows.len() || total_ms(rows.take(k)) > target {
        k
    } else {
        taken(rows, target, k + 1)
    }
}

/// How many milliseconds a limit of time asks for.
pub open spec fn limit_ms(limit: Limit) -> int {
    match limit.unit {
        LimitUnit::Hours => limit.value * 3_600_000,
        _ => limit.value * 60_000,
    }
}

/// Whether a limit of time can be counted in milliseconds.
pub open spec fn limit_fits(limit: Option<Limit>) -> bool {
    limit matches Some(l) ==> l.unit is Tracks || i64::MIN <= limit_ms(l) <= i64::MAX
}

/// How many rows a limit keeps.
pub open spec fn kept_count(rows: Seq<RecordingRow>, limit: Option<Limit>) -> int {
    match limit {
        None => rows.len() as int,
        Some(l) => match l.unit {
            LimitUnit::Tracks => if 0 <= l.value < rows.len() {
                l.value as int
            } else {
                rows.len() as int
            },
            _ => taken(rows, limit_ms(l), 0),
        },
    }
}

proof fn lemma_taken(rows: Seq<RecordingRow>, target: int, k: int)
    requires
        0 <= k <= rows.len(),
    ensures
        k <= taken(rows, target, k) <= rows.len(),
        taken(rows, target, k) < rows.len() ==> total_ms(rows.take(taken(rows, target, k)))
            > target,
        forall|j: int|
            k <= j < taken(rows, target, k) ==> total_ms(#[trigger] rows.take(j)) <= target,
    decreases rows.len() - k,
{
    if k < rows.len() && total_ms(rows.take(k)) <= target {
        lemma_taken(rows, target, k + 1);
    }
}

/// A limit of time keeps the fewest rows from the front that exceed it: no shorter
/// front exceeds it, and the rows that are kept do unless all are kept.
pub proof fn law_time_limit(rows: Seq<RecordingRow>, limit: Limit)
    requires
        !(limit.unit is Tracks),
    ensures
        ({
            let n = kept_count(rows, Some(limit));
            &&& 0 <= n <= rows.len()
            &&& n < rows.len() ==> total_ms(rows.take(n)) > limit_ms(limit)
            &&& forall|j: int| 0 <= j < n ==> total_ms(#[trigger] rows.take(j)) <= limit_ms(limit)
        }),
{
    lemma_taken(rows, limit_ms(limit), 0);
}

/// The rows that a limit keeps can be added up where all rows can.
pub proof fn lemma_kept_durations_fit(rows: Seq<RecordingRow>, limit: Option<Limit>)
    requires
        durations_fit(rows),
    ensures
        0 <= kept_count(rows, limit) <= rows.len(),
        durations_fit(rows.take(kept_count(rows, limit))),
{
    let n = kept_count(rows, limit);
    if let Some(l) = limit {
        if !(l.unit is Tracks) {
            lemma_taken(rows, limit_ms(l), 0);
        }
    }
    let kept = rows.take(n);
    assert forall|k: int| 0 <= k <= kept.len() implies i64::MIN <= total_ms(
        #[trigger] kept.take(k),
    ) <= i64::MAX by {
        assert(kept.take(k) =~= rows.take(k));
    }
}

/// Whether the durations of the first rows can always be added up.
pub fn can_total(rows: &Vec<RecordingRow>) -> (r: bool)
    ensures
        r == durations_fit(rows@),
{
    let mut sum: i64 = 0;
    let mut i: usize = 0;
    assert(rows@.take(0) =~= Seq::empty());
    while i < rows.len()
        invariant
            i <= rows@.len(),
            sum == total_ms(rows@.take(i as int)),
            forall|k: int|
                0 <= k <= i ==> i64::MIN <= total_ms(#[trigger] rows@.take(k)) <= i64::MAX,
        decreases rows@.len() - i,
    {
        proof {
            assert(rows@.take(i + 1).drop_last() =~= rows@.take(i as int));
            assert(rows@.take(i + 1).last() == rows@[i as int]);
        }
        let ms: i64 = match rows[i].duration_ms {
            Some(ms) => ms,
            None => 0,
        };
        match sum.checked_add(ms) {
            Some(next) => {
                sum = next;
            },
            None => {
                assert(!(i64::MIN <= total_ms(rows@.take(i + 1)) <= i64::MAX));
                return false;
            },
        }
        i = i + 1;
    }
    true
}

/// Whether a limit can be applied.
pub fn can_limit(limit: Option<Limit>) -> (r: bool)
    ensures
        r == limit_fits(limit),
{
    match limit {
        None => true,
        Some(l) => match l.unit {
            LimitUnit::Tracks => true,
            LimitUnit::Minutes => l.value.checked_mul(60_000).is_some(),
            LimitUnit::Hours => l.value.checked_mul(3_600_000).is_some(),
        },
    }
}

/// Keeps the rows that a limit allows.
pub fn apply_limit(rows: &mut Vec<RecordingRow>, limit: Option<Limit>)
    requires
        limit_fits(limit),
        durations_fit(old(rows)@),
    ensures
        final(rows)@ == old(rows)@.take(kept_count(old(rows)@, limit)),
{
    match limit {
        None => {
            assert(rows@ =~= old(rows)@.take(old(rows)@.len() as int));
        },
        Some(l) => match l.unit {
            LimitUnit::Tracks => {
                if l.value >= 0 && (l.value as u64) < rows.len() as u64 {
                    rows.truncate(l.value as usize);
                }
                assert(rows@ =~= old(rows)@.take(kept_count(old(rows)@, limit)));
            },
            _ => {
                let target: i64 = match l.unit {
                    LimitUnit::Hours => l.value * 3_600_000,
                    _ => l.value * 60_000,
                };
                let mut sum: i64 = 0;
                let mut k: usize = 0;
                assert(rows@.take(0) =~= Seq::empty());
                while k < rows.len() && sum <= target
                    invariant
                        k <= rows@.len(),
                        durations_fit(rows@),
                        sum == total_ms(rows@.take(k as int)),
                        taken(rows@, target as int, k as int) == taken(rows@, target as int, 0),
                    decreases rows@.len() - k,
                {
                    proof {
                        assert(rows@.take(k + 1).drop_last() =~= rows@.take(k as int));
                        assert(rows@.take(k + 1).last() == rows@[k as int]);
                        assert(total_ms(rows@.take(k + 1)) <= i64::MAX);
                    }
                    let ms: i64 = match rows[k].duration_ms {
                        Some(ms) => ms,
                        None => 0,
                    };
                    sum = sum + ms;
                    k = k + 1;
                }
                rows.truncate(k);
                assert(rows@ =~= old(rows)@.take(kept_count(old(rows)@, limit)));
            },
        },
    }
}

/// The total duration of rows.
pub fn total_duration(rows: &Vec<RecordingRow>) -> (ms: i64)
    requires
        durations_fit(rows@),
    ensures
        ms == total_ms(rows@),
{
    let mut sum: i64 = 0;
    let mut i: usize = 0;
    assert(rows@.take(0) =~= Seq::empty());
    while i < rows.len()
        invariant
            i <= rows@.len(),
            durations_fit(rows@),
            sum == total_ms(rows@.take(i as int)),
        decreases rows@.len() - i,
    {
        proof {
            assert(rows@.take(i + 1).drop_last() =~= rows@.take(i as int));
            assert(rows@.take(i + 1).last() == rows@[i as int]);
            assert(total_ms(rows@.take(i + 1)) <= i64::MAX);
        }
        let ms: i64 = match rows[i].duration_ms {
            Some(ms) => ms,
            None => 0,
        };
        sum = sum + ms;
        i = i + 1;
    }
    assert(rows@.take(rows@.len() as int) =~= rows@);
    sum
}

// ── Laws ─────────────────────────────────────────────────────────────────────

/// Durations are added up, and a recording whose duration is unknown adds nothing.
pub proof fn law_durations_add_up(rows: Seq<RecordingRow>, r: RecordingRow)
    ensures
        total_ms(Seq::empty()) == 0,
        r.duration_ms matches Some(ms) ==> total_ms(rows.push(r)) == total_ms(rows) + ms,
        r.duration_ms is None ==> total_ms(rows.push(r)) == total_ms(rows),
{
    assert(rows.push(r).drop_last() =~= rows);
}

/// A limit in tracks keeps so many recordings, or all where there are fewer.
pub proof fn law_track_limit(rows: Seq<RecordingRow>, n: i64)
    requires
        n >= 0,
    ensures
        kept_count(rows, Some(Limit { value: n, unit: LimitUnit::Tracks })) <= n,
        kept_count(rows, Some(Limit { value: n, unit: LimitUnit::Tracks })) <= rows.len(),
        kept_count(rows, Some(Limit { value: n, unit: LimitUnit::Tracks })) == n || kept_count(
            rows,
            Some(Limit { value: n, unit: LimitUnit::Tracks }),
        ) == rows.len(),
        kept_count(rows, None) == rows.len(),
{
}

/// A limit in minutes or hours keeps recordings until their durations exceed it: all
/// but the last of the kept ones stay within 60,000 milliseconds to the minute, and an
/// hour is sixty minutes.
pub proof fn law_time_limit_in_ms(rows: Seq<RecordingRow>, n: i64, j: int)
    ensures
        ({
            let k = kept_count(rows, Some(Limit { value: n, unit: LimitUnit::Minutes }));
            &&& 0 <= k <= rows.len()
            &&& k < rows.len() ==> total_ms(rows.take(k)) > n * 60000
            &&& 0 <= j < k ==> total_ms(rows.take(j)) <= n * 60000
        }),
        ({
            let k = kept_count(rows, Some(Limit { value: n, unit: LimitUnit::Hours }));
            &&& 0 <= k <= rows.len()
            &&& k < rows.len() ==> total_ms(rows.take(k)) > n * 60 * 60000
            &&& 0 <= j < k ==> total_ms(rows.take(j)) <= n * 60 * 60000
        }),
{
    law_time_limit(rows, Limit { value: n, unit: LimitUnit::Minutes });
    law_time_limit(rows, Limit { value: n, unit: LimitUnit::Hours });
}

/// A shuffle holds what it was given and nothing else.
pub proof fn lemma_shuffle_contains<T>(s: Seq<T>, seed: u64, x: T)
    ensures
        shuffled(s, seed).contains(x) <==> s.contains(x),
{
    law_shuffle_is_permutation(s, seed);
    s.to_multiset_ensures();
    shuffled(s, seed).to_multiset_ensures();
    assert(s.contains(x) <==> s.to_multiset().count(x) > 0);
    assert(shuffled(s, seed).contains(x) <==> shuffled(s, seed).to_multiset().count(x) > 0);
}

/// A shuffle draws its last item first: the place is the upper part of a number that goes
/// on from the seed, linearly and modulo 2^64, divided by the number of items.
pub proof fn law_shuffle_draws_from_seed<T>(s: Seq<T>, seed: u64)
    requires
        s.len() > 1,
    ensures
        ({
            let m = 0x1_0000_0000_0000_0000int;
            let start = (seed + 6364136223846793005) % m;
            let drawn = (start * 6364136223846793005 + 1442695040888963407) % m;
            shuffled(s, seed).last() == s[(drawn / 0x2_0000_0000) % s.len() as int]
        }),
{
    let k = 6364136223846793005u64;
    let state = seed.wrapping_add(k);
    let next = next_state(state);
    let i = s.len() - 1;
    let j = swap_place(next, i);
    let m = 0x1_0000_0000_0000_0000int;
    let p = state as int * 6364136223846793005;
    let c = 1442695040888963407int;
    assert(state == (seed + k) % m) by {
        if seed + k >= m {
            vstd::arithmetic::div_mod::lemma_fundamental_div_mod_converse(
                seed + k,
                m,
                1,
                seed + k - m,
            );
        } else {
            vstd::arithmetic::div_mod::lemma_fundamental_div_mod_converse(seed + k, m, 0, seed + k);
        }
    }
    let low = p % m;
    vstd::arithmetic::div_mod::lemma_fundamental_div_mod(p, m);
    vstd::arithmetic::div_mod::lemma_mod_bound(p, m);
    let q = p / m;
    assert((p + c) % m == next) by {
        if low + c >= m {
            vstd::arithmetic::div_mod::lemma_fundamental_div_mod_converse(
                p + c,
                m,
                q + 1,
                low + c - m,
            );
        } else {
            vstd::arithmetic::div_mod::lemma_fundamental_div_mod_converse(p + c, m, q, low + c);
        }
    }
    assert(next >> 33 == next / 0x2_0000_0000) by (bit_vector);
    lemma_last_stays(swapped(s, i, j), i - 1, next);
}

/// What was drawn is not moved again.
proof fn lemma_last_stays<T>(s: Seq<T>, i: int, state: u64)
    requires
        i < s.len() - 1,
        s.len() > 0,
    ensures
        shuffled_from(s, i, state).len() == s.len(),
        shuffled_from(s, i, state).last() == s.last(),
    decreases i,
{
    if i > 0 {
        let next = next_state(state);
        let j = swap_place(next, i);
        lemma_last_stays(swapped(s, i, j), i - 1, next);
    }
}

/// A limit of fewer than no tracks limits nothing.
pub proof fn law_negative_track_limit_keeps_all(rows: Seq<RecordingRow>, n: i64)
    requires
        n < 0,
    ensures
        rows.take(kept_count(rows, Some(Limit { value: n, unit: LimitUnit::Tracks }))) == rows,
{
}

} // verus!
