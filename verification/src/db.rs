//! Bookkeeping of database connections: how many there are, who holds one and who
//! waits for one.
use vstd::prelude::*;
use crate::models::{DbPoolDebugSnapshot, DbPoolLeaseInfo, DbPoolWaiterInfo};
use crate::sorting;
use crate::sorting::sort_vec;

verus! {

// ── Sizes ────────────────────────────────────────────────────────────────────

/// How many workers a machine with so many processors has; four when that is not
/// known.
pub open spec fn workers(parallelism: Option<u32>) -> u32 {
    match parallelism {
        None => 4,
        Some(n) => if n <= 2 {
            1
        } else if n >= 7 {
            6
        } else {
            (n - 1) as u32
        },
    }
}

/// How many workers to use: one less than there are processors, between one and
/// six.
pub fn worker_count(parallelism: Option<u32>) -> (r: u32)
    ensures
        r == workers(parallelism),
{
    match parallelism {
        None => 4,
        Some(n) => if n <= 2 {
            1
        } else if n >= 7 {
            6
        } else {
            n - 1
        },
    }
}

/// How many connections to keep: six more than there are workers, between eight
/// and sixteen.
pub fn pool_connection_count(parallelism: Option<u32>) -> (r: u32)
    ensures
        r == if workers(parallelism) + 6 < 8 {
            8
        } else if workers(parallelism) + 6 > 16 {
            16
        } else {
            workers(parallelism) + 6
        },
{
    let n: u32 = worker_count(parallelism) + 6;
    if n < 8 {
        8
    } else {
        n
    }
}

// ── Leases and waiters ───────────────────────────────────────────────────────

/// A request for a connection, waiting or granted. `since_ms` is read from a clock
/// that never goes back, `since_unix_ms` from the wall clock.
#[derive(Debug)]
pub struct PoolEntry {
    pub id: u64,
    pub purpose: String,
    pub since_ms: u64,
    pub since_unix_ms: i64,
}

/// Who holds a connection and who waits for one.
#[derive(Debug)]
pub struct PoolTracker {
    pub next_id: u64,
    pub active: Vec<PoolEntry>,
    pub waiting: Vec<PoolEntry>,
}

/// A moment: milliseconds of a clock that never goes back, and of the wall clock.
#[derive(Debug, Clone, Copy)]
pub struct Moment {
    pub ms: u64,
    pub unix_ms: i64,
}

/// What an entry says: identifier, purpose, and since when.
pub type Entry = (u64, Seq<char>, u64, i64);

impl View for PoolEntry {
    type V = (u64, Seq<char>, u64, i64);

    open spec fn view(&self) -> Entry {
        (self.id, self.purpose@, self.since_ms, self.since_unix_ms)
    }
}

/// What entries say.
pub open spec fn entries(v: Seq<PoolEntry>) -> Seq<Entry> {
    v.map_values(|e: PoolEntry| e@)
}

/// What a tracker says: the next identifier, the entries that hold a connection
/// and those that wait.
#[verifier::ext_equal]
pub struct Tracker {
    pub next_id: u64,
    pub active: Seq<Entry>,
    pub waiting: Seq<Entry>,
}

impl View for PoolTracker {
    type V = Tracker;

    open spec fn view(&self) -> Tracker {
        Tracker {
            next_id: self.next_id,
            active: entries(self.active@),
            waiting: entries(self.waiting@),
        }
    }
}

/// The place of the entry with an identifier, or the number of entries.
pub open spec fn place_of(s: Seq<Entry>, id: u64) -> int
    decreases s.len(),
{
    if s.len() == 0 || s[0].0 == id {
        0
    } else {
        1 + place_of(s.skip(1), id)
    }
}

/// Entries without the one that has an identifier.
pub open spec fn without(s: Seq<Entry>, id: u64) -> Seq<Entry> {
    if place_of(s, id) < s.len() {
        s.remove(place_of(s, id))
    } else {
        s
    }
}

impl Tracker {
    /// Whether no identifier is in use twice, and all are below the next one.
    pub open spec fn valid(self) -> bool {
        &&& self.next_id > 0
        &&& forall|i: int| 0 <= i < self.active.len() ==> (#[trigger] self.active[i]).0 < self.next_id
        &&& forall|i: int|
            0 <= i < self.waiting.len() ==> (#[trigger] self.waiting[i]).0 < self.next_id
        &&& forall|i: int, j: int|
            0 <= i < j < self.active.len() ==> (#[trigger] self.active[i]).0
                != (#[trigger] self.active[j]).0
        &&& forall|i: int, j: int|
            0 <= i < j < self.waiting.len() ==> (#[trigger] self.waiting[i]).0
                != (#[trigger] self.waiting[j]).0
        &&& forall|i: int, j: int|
            0 <= i < self.active.len() && 0 <= j < self.waiting.len() ==> (
            #[trigger] self.active[i]).0 != (#[trigger] self.waiting[j]).0
    }

    /// A tracker after a request was made.
    pub open spec fn registered(self, purpose: Seq<char>, now: Moment) -> Tracker {
        Tracker {
            next_id: (self.next_id + 1) as u64,
            waiting: self.waiting.push((self.next_id, purpose, now.ms, now.unix_ms)),
            ..self
        }
    }

    /// A tracker after a request was granted.
    pub open spec fn promoted(self, id: u64, now: Moment) -> Tracker {
        let purpose = self.waiting[place_of(self.waiting, id)].1;
        Tracker {
            active: self.active.push((id, purpose, now.ms, now.unix_ms)),
            waiting: without(self.waiting, id),
            ..self
        }
    }

    /// A tracker after a request was given up.
    pub open spec fn withdrawn(self, id: u64) -> Tracker {
        Tracker { waiting: without(self.waiting, id), ..self }
    }

    /// A tracker after a connection was handed back.
    pub open spec fn released(self, id: u64) -> Tracker {
        Tracker { active: without(self.active, id), ..self }
    }
}

proof fn lemma_place_of(s: Seq<Entry>, id: u64)
    ensures
        0 <= place_of(s, id) <= s.len(),
        place_of(s, id) < s.len() ==> s[place_of(s, id)].0 == id,
        forall|i: int| 0 <= i < place_of(s, id) ==> (#[trigger] s[i]).0 != id,
    decreases s.len(),
{
    if s.len() > 0 && s[0].0 != id {
        lemma_place_of(s.skip(1), id);
        assert forall|i: int| 0 <= i < place_of(s, id) implies (#[trigger] s[i]).0 != id by {
            if i > 0 {
                assert(s[i] == s.skip(1)[i - 1]);
            }
        }
        if place_of(s, id) < s.len() {
            assert(s.skip(1)[place_of(s.skip(1), id)] == s[place_of(s, id)]);
        }
    }
}

proof fn lemma_place_is(s: Seq<Entry>, id: u64, k: int)
    requires
        0 <= k <= s.len(),
        k < s.len() ==> s[k].0 == id,
        forall|i: int| 0 <= i < k ==> (#[trigger] s[i]).0 != id,
    ensures
        place_of(s, id) == k,
{
    lemma_place_of(s, id);
}

/// The place of the entry with an identifier.
fn find_entry(v: &Vec<PoolEntry>, id: u64) -> (r: Option<usize>)
    ensures
        match r {
            Some(i) => i < v@.len() && i == place_of(entries(v@), id),
            None => place_of(entries(v@), id) >= v@.len(),
        },
{
    let mut i: usize = 0;
    while i < v.len()
        invariant
            i <= v@.len(),
            forall|k: int| 0 <= k < i ==> (#[trigger] entries(v@)[k]).0 != id,
        decreases v@.len() - i,
    {
        assert(entries(v@)[i as int] == v@[i as int]@);
        if v[i].id == id {
            proof {
                lemma_place_is(entries(v@), id, i as int);
            }
            return Some(i);
        }
        i = i + 1;
    }
    proof {
        lemma_place_is(entries(v@), id, i as int);
    }
    None
}

/// Takes out the entry with an identifier.
fn take_entry(v: &mut Vec<PoolEntry>, id: u64) -> (r: Option<PoolEntry>)
    ensures
        entries(final(v)@) == without(entries(old(v)@), id),
        match r {
            Some(e) => {
                &&& place_of(entries(old(v)@), id) < old(v)@.len()
                &&& e@ == entries(old(v)@)[place_of(entries(old(v)@), id)]
            },
            None => place_of(entries(old(v)@), id) >= old(v)@.len(),
        },
{
    match find_entry(v, id) {
        Some(i) => {
            let e = v.remove(i);
            assert(entries(v@) =~= entries(old(v)@).remove(i as int));
            Some(e)
        },
        None => None,
    }
}

// ── Snapshots ────────────────────────────────────────────────────────────────

/// How long ago a moment was; none when it lies ahead.
pub open spec fn elapsed(now_ms: u64, since_ms: u64) -> int {
    if now_ms >= since_ms {
        now_ms - since_ms
    } else {
        0
    }
}

/// What a snapshot says of an entry: identifier, purpose, since when and how long.
pub type Standing = (u64, Seq<char>, i64, int);

/// What a snapshot says of an entry.
pub open spec fn standing(e: Entry, now_ms: u64) -> Standing {
    (e.0, e.1, e.3, elapsed(now_ms, e.2))
}

/// The order that puts the longest first.
pub open spec fn longest_first() -> spec_fn(Standing, Standing) -> bool {
    |a: Standing, b: Standing| b.3 <= a.3
}

/// What a snapshot says of entries, the longest first.
pub open spec fn standings(s: Seq<Entry>, now_ms: u64) -> Seq<Standing> {
    sorting::stable_sort(s.map_values(|e: Entry| standing(e, now_ms)), longest_first())
}

/// What a lease of a snapshot says.
pub open spec fn lease_view(l: DbPoolLeaseInfo) -> Standing {
    (l.id, l.purpose@, l.acquired_at_unix_ms, l.held_for_ms as int)
}

/// What a waiter of a snapshot says.
pub open spec fn waiter_view(w: DbPoolWaiterInfo) -> Standing {
    (w.id, w.purpose@, w.requested_at_unix_ms, w.waiting_for_ms as int)
}

fn time_since(now_ms: u64, since_ms: u64) -> (r: u128)
    ensures
        r == elapsed(now_ms, since_ms),
{
    if now_ms >= since_ms {
        (now_ms - since_ms) as u128
    } else {
        0
    }
}

fn lease_infos(v: &Vec<PoolEntry>, now_ms: u64) -> (r: Vec<DbPoolLeaseInfo>)
    ensures
        r@.map_values(|l: DbPoolLeaseInfo| lease_view(l)) == standings(entries(v@), now_ms),
{
    let ghost view = |l: DbPoolLeaseInfo| lease_view(l);
    let ghost order = |a: DbPoolLeaseInfo, b: DbPoolLeaseInfo| b.held_for_ms <= a.held_for_ms;
    let mut r: Vec<DbPoolLeaseInfo> = Vec::new();
    let mut i: usize = 0;
    while i < v.len()
        invariant
            i <= v@.len(),
            r@.len() == i,
            forall|k: int| 0 <= k < i ==> lease_view(#[trigger] r@[k]) == standing(v@[k]@, now_ms),
        decreases v@.len() - i,
    {
        r.push(
            DbPoolLeaseInfo {
                id: v[i].id,
                purpose: v[i].purpose.clone(),
                acquired_at_unix_ms: v[i].since_unix_ms,
                held_for_ms: time_since(now_ms, v[i].since_ms),
            },
        );
        i = i + 1;
    }
    proof {
        assert(r@.map_values(view) =~= entries(v@).map_values(|e: Entry| standing(e, now_ms)));
        sorting::lemma_sort_map(r@, view, order, longest_first());
    }
    let le = |a: &DbPoolLeaseInfo, b: &DbPoolLeaseInfo| -> (r: bool)
        ensures
            r == (b.held_for_ms <= a.held_for_ms),
        { b.held_for_ms <= a.held_for_ms };
    sort_vec(r, le, Ghost(order))
}

fn waiter_infos(v: &Vec<PoolEntry>, now_ms: u64) -> (r: Vec<DbPoolWaiterInfo>)
    ensures
        r@.map_values(|w: DbPoolWaiterInfo| waiter_view(w)) == standings(entries(v@), now_ms),
{
    let ghost view = |w: DbPoolWaiterInfo| waiter_view(w);
    let ghost order = |a: DbPoolWaiterInfo, b: DbPoolWaiterInfo|
        b.waiting_for_ms <= a.waiting_for_ms;
    let mut r: Vec<DbPoolWaiterInfo> = Vec::new();
    let mut i: usize = 0;
    while i < v.len()
        invariant
            i <= v@.len(),
            r@.len() == i,
            forall|k: int|
                0 <= k < i ==> waiter_view(#[trigger] r@[k]) == standing(v@[k]@, now_ms),
        decreases v@.len() - i,
    {
        r.push(
            DbPoolWaiterInfo {
                id: v[i].id,
                purpose: v[i].purpose.clone(),
                requested_at_unix_ms: v[i].since_unix_ms,
                waiting_for_ms: time_since(now_ms, v[i].since_ms),
            },
        );
        i = i + 1;
    }
    proof {
        assert(r@.map_values(view) =~= entries(v@).map_values(|e: Entry| standing(e, now_ms)));
        sorting::lemma_sort_map(r@, view, order, longest_first());
    }
    let le = |a: &DbPoolWaiterInfo, b: &DbPoolWaiterInfo| -> (r: bool)
        ensures
            r == (b.waiting_for_ms <= a.waiting_for_ms),
        { b.waiting_for_ms <= a.waiting_for_ms };
    sort_vec(r, le, Ghost(order))
}

impl PoolTracker {
    /// A tracker of a pool that nobody has asked for a connection.
    pub fn new() -> (r: PoolTracker)
        ensures
            r@ == (Tracker { next_id: 1, active: Seq::empty(), waiting: Seq::empty() }),
            r@.valid(),
    {
        let r = PoolTracker { next_id: 1, active: Vec::new(), waiting: Vec::new() };
        assert(r@ =~= Tracker { next_id: 1, active: Seq::empty(), waiting: Seq::empty() });
        r
    }

    /// Notes a request and gives it an identifier of its own.
    pub fn register_waiter(&mut self, purpose: &str, now: Moment) -> (id: u64)
        requires
            old(self)@.valid(),
            old(self)@.next_id < u64::MAX,
        ensures
            id == old(self)@.next_id,
            final(self)@ == old(self)@.registered(purpose@, now),
            final(self)@.valid(),
    {
        let id = self.next_id;
        let ghost before = entries(self.waiting@);
        self.next_id = id + 1;
        self.waiting.push(
            PoolEntry {
                id,
                purpose: purpose.to_owned(),
                since_ms: now.ms,
                since_unix_ms: now.unix_ms,
            },
        );
        proof {
            assert(entries(self.waiting@) =~= before.push((id, purpose@, now.ms, now.unix_ms)));
            law_register_keeps_valid(old(self)@, purpose@, now);
        }
        id
    }

    /// Notes that a request was granted.
    pub fn promote_waiter(&mut self, id: u64, now: Moment) -> (r: u64)
        requires
            old(self)@.valid(),
            place_of(old(self)@.waiting, id) < old(self)@.waiting.len(),
        ensures
            r == id,
            final(self)@ == old(self)@.promoted(id, now),
            final(self)@.valid(),
    {
        let ghost before = entries(self.active@);
        proof {
            law_promote_keeps_valid(self@, id, now);
        }
        match take_entry(&mut self.waiting, id) {
            Some(e) => {
                let ghost purpose = e.purpose@;
                self.active.push(
                    PoolEntry {
                        id,
                        purpose: e.purpose,
                        since_ms: now.ms,
                        since_unix_ms: now.unix_ms,
                    },
                );
                assert(entries(self.active@) =~= before.push((id, purpose, now.ms, now.unix_ms)));
            },
            None => {},
        }
        id
    }

    /// Whether a request waits.
    pub fn is_waiting(&self, id: u64) -> (r: bool)
        ensures
            r == (place_of(self@.waiting, id) < self@.waiting.len()),
    {
        find_entry(&self.waiting, id).is_some()
    }

    /// Notes that a request was given up.
    pub fn remove_waiter(&mut self, id: u64)
        requires
            old(self)@.valid(),
        ensures
            final(self)@ == old(self)@.withdrawn(id),
            final(self)@.valid(),
    {
        proof {
            law_release_keeps_valid(self@, id);
        }
        let gone = take_entry(&mut self.waiting, id);
    }

    /// Notes that a connection was handed back.
    pub fn release(&mut self, id: u64)
        requires
            old(self)@.valid(),
        ensures
            final(self)@ == old(self)@.released(id),
            final(self)@.valid(),
    {
        proof {
            law_release_keeps_valid(self@, id);
        }
        let gone = take_entry(&mut self.active, id);
    }

    /// Who holds a connection and who waits for one, the longest first.
    pub fn snapshot(&self, size: u32, idle: usize, now_ms: u64) -> (r: DbPoolDebugSnapshot)
        ensures
            r.size == size,
            r.idle == idle,
            r.active_connection_count == self@.active.len(),
            r.waiting_request_count == self@.waiting.len(),
            r.active_connections@.map_values(|l: DbPoolLeaseInfo| lease_view(l)) == standings(
                self@.active,
                now_ms,
            ),
            r.waiting_requests@.map_values(|w: DbPoolWaiterInfo| waiter_view(w)) == standings(
                self@.waiting,
                now_ms,
            ),
    {
        DbPoolDebugSnapshot {
            size,
            idle,
            active_connection_count: self.active.len(),
            waiting_request_count: self.waiting.len(),
            active_connections: lease_infos(&self.active, now_ms),
            waiting_requests: waiter_infos(&self.waiting, now_ms),
        }
    }
}

// ── Laws ─────────────────────────────────────────────────────────────────────

/// A request gets an identifier that no other request has.
pub proof fn law_register_keeps_valid(t: Tracker, purpose: Seq<char>, now: Moment)
    requires
        t.valid(),
        t.next_id < u64::MAX,
    ensures
        t.registered(purpose, now).valid(),
        place_of(t.waiting, t.next_id) == t.waiting.len(),
        place_of(t.active, t.next_id) == t.active.len(),
{
    lemma_place_of(t.waiting, t.next_id);
    lemma_place_of(t.active, t.next_id);
}

/// Granting a request keeps identifiers apart.
pub proof fn law_promote_keeps_valid(t: Tracker, id: u64, now: Moment)
    requires
        t.valid(),
        place_of(t.waiting, id) < t.waiting.len(),
    ensures
        t.promoted(id, now).valid(),
{
    lemma_place_of(t.waiting, id);
    let k = place_of(t.waiting, id);
    let u = t.promoted(id, now);
    assert forall|i: int| 0 <= i < u.waiting.len() implies (#[trigger] u.waiting[i]).0 < u.next_id
        && u.waiting[i].0 != id by {
        if i < k {
            assert(u.waiting[i] == t.waiting[i]);
        } else {
            assert(u.waiting[i] == t.waiting[i + 1]);
            assert(t.waiting[k].0 != t.waiting[i + 1].0);
        }
    }
    assert forall|i: int| 0 <= i < t.active.len() implies (#[trigger] t.active[i]).0 != id by {
        assert(t.active[i].0 != t.waiting[k].0);
    }
}

/// Giving up a request or handing back a connection keeps identifiers apart.
pub proof fn law_release_keeps_valid(t: Tracker, id: u64)
    requires
        t.valid(),
    ensures
        t.released(id).valid(),
        t.withdrawn(id).valid(),
{
    lemma_place_of(t.active, id);
    lemma_place_of(t.waiting, id);
}

/// A connection that was asked for, granted and handed back leaves no trace but a
/// used identifier.
pub proof fn law_lease_leaves_no_trace(
    t: Tracker,
    purpose: Seq<char>,
    asked: Moment,
    granted: Moment,
)
    requires
        t.valid(),
        t.next_id < u64::MAX,
    ensures
        t.registered(purpose, asked).promoted(t.next_id, granted).released(t.next_id) == (Tracker {
            next_id: (t.next_id + 1) as u64,
            ..t
        }),
        t.registered(purpose, asked).withdrawn(t.next_id) == (Tracker {
            next_id: (t.next_id + 1) as u64,
            ..t
        }),
{
    let id = t.next_id;
    let a = t.registered(purpose, asked);
    let b = a.promoted(id, granted);
    lemma_place_is(a.waiting, id, t.waiting.len() as int);
    assert(a.waiting.remove(t.waiting.len() as int) =~= t.waiting);
    lemma_place_is(b.active, id, t.active.len() as int);
    assert(b.active.remove(t.active.len() as int) =~= t.active);
}

/// A processor is left free, between one worker and six; four work where the number of
/// processors is not known.
pub proof fn law_workers_leave_a_processor(n: u32)
    ensures
        workers(None) == 4,
        n >= 7 ==> workers(Some(n)) == 6,
        2 <= n <= 7 ==> workers(Some(n)) == n - 1,
        n < 2 ==> workers(Some(n)) == 1,
{
}

/// A request waits under a new identifier, behind all others, with its purpose and time.
pub proof fn law_requests_wait_in_turn(t: Tracker, purpose: Seq<char>, now: Moment)
    requires
        t.next_id < u64::MAX,
    ensures
        ({
            let r = t.registered(purpose, now);
            &&& r.next_id == t.next_id + 1
            &&& r.active == t.active
            &&& r.waiting.len() == t.waiting.len() + 1
            &&& r.waiting.drop_last() == t.waiting
            &&& r.waiting.last() == (t.next_id, purpose, now.ms, now.unix_ms)
        }),
{
    assert(t.registered(purpose, now).waiting.drop_last() =~= t.waiting);
}

/// A request that is granted does not wait any more, and is held from then on under its
/// identifier and purpose.
pub proof fn law_granted_requests_are_held(t: Tracker, id: u64, now: Moment, k: int, i: int)
    requires
        t.valid(),
        0 <= k < t.waiting.len(),
        t.waiting[k].0 == id,
    ensures
        ({
            let r = t.promoted(id, now);
            &&& r.next_id == t.next_id
            &&& r.active == t.active.push((id, t.waiting[k].1, now.ms, now.unix_ms))
            &&& r.waiting.len() == t.waiting.len() - 1
            &&& 0 <= i < k ==> r.waiting[i] == t.waiting[i]
            &&& k <= i < r.waiting.len() ==> r.waiting[i] == t.waiting[i + 1]
        }),
{
    assert forall|i: int| 0 <= i < k implies (#[trigger] t.waiting[i]).0 != id by {
        assert(t.waiting[i].0 != t.waiting[k].0);
    }
    lemma_place_is(t.waiting, id, k);
}

/// What is given back is held no more, and what is withdrawn waits no more; all else
/// stays.
pub proof fn law_given_back_is_gone(s: Seq<Entry>, id: u64, k: int, i: int)
    requires
        0 <= k <= s.len(),
        forall|i: int| 0 <= i < k ==> (#[trigger] s[i]).0 != id,
        k < s.len() ==> s[k].0 == id,
    ensures
        k == s.len() ==> without(s, id) == s,
        k < s.len() ==> without(s, id).len() == s.len() - 1,
        k < s.len() && 0 <= i < k ==> without(s, id)[i] == s[i],
        k < s.len() && k <= i < s.len() - 1 ==> without(s, id)[i] == s[i + 1],
        forall|t: Tracker| t.active == s ==> (#[trigger] t.released(id)).active == without(s, id)
            && t.released(id).waiting == t.waiting,
        forall|t: Tracker| t.waiting == s ==> (#[trigger] t.withdrawn(id)).waiting == without(s, id)
            && t.withdrawn(id).active == t.active,
{
    lemma_place_is(s, id, k);
}

/// Entries are shown with the time since they began, which is never negative, the longest
/// first.
pub proof fn law_longest_are_shown_first(s: Seq<Entry>, now_ms: u64, x: Standing)
    ensures
        standings(s, now_ms).len() == s.len(),
        forall|i: int, j: int|
            0 <= i < j < standings(s, now_ms).len() ==> (#[trigger] standings(s, now_ms)[i]).3 >= (
            #[trigger] standings(s, now_ms)[j]).3,
        standings(s, now_ms).contains(x) <==> exists|i: int|
            0 <= i < s.len() && x.0 == (#[trigger] s[i]).0 && x.1 == s[i].1 && x.2 == s[i].3 && x.3
                == (if now_ms >= s[i].2 {
                now_ms - s[i].2
            } else {
                0
            }),
{
    let rows = s.map_values(|e: Entry| standing(e, now_ms));
    let le = longest_first();
    assert(sorting::total_preorder(le));
    sorting::law_sort_orders(rows, le);
    sorting::lemma_sort_contains(rows, le, x);
    let r = standings(s, now_ms);
    assert forall|i: int, j: int| 0 <= i < j < r.len() implies (#[trigger] r[i]).3 >= (
    #[trigger] r[j]).3 by {
        assert(le(r[i], r[j]));
    }
    if rows.contains(x) {
        let i = choose|i: int| 0 <= i < rows.len() && rows[i] == x;
        assert(x.0 == s[i].0);
    }
    if exists|i: int|
        0 <= i < s.len() && x.0 == (#[trigger] s[i]).0 && x.1 == s[i].1 && x.2 == s[i].3 && x.3 == (
        if now_ms >= s[i].2 {
            now_ms - s[i].2
        } else {
            0
        }) {
        let i = choose|i: int|
            0 <= i < s.len() && x.0 == (#[trigger] s[i]).0 && x.1 == s[i].1 && x.2 == s[i].3 && x.3
                == (if now_ms >= s[i].2 {
                now_ms - s[i].2
            } else {
                0
            });
        assert(rows[i] == x);
    }
}

/// The pool has six connections more than there are workers, but at least eight and at
/// most sixteen.
pub proof fn law_pool_is_larger_than_workers(n: Option<u32>, workers_now: u32, r: u32)
    requires
        call_ensures(worker_count, (n,), workers_now),
        call_ensures(pool_connection_count, (n,), r),
    ensures
        8 <= r <= 16,
        2 <= workers_now <= 10 ==> r == workers_now + 6,
        workers_now < 2 ==> r == 8,
{
}

} // verus!
