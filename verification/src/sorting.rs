//! Stable sorting.
use vstd::prelude::*;
use crate::text;
use crate::text::str_le;

verus! {

/// Whether `le` orders any two elements and does so consistently.
pub open spec fn total_preorder<A>(le: spec_fn(A, A) -> bool) -> bool {
    &&& forall|x: A, y: A| #[trigger] le(x, y) || le(y, x)
    &&& forall|x: A, y: A, z: A| #[trigger] le(x, y) && #[trigger] le(y, z) ==> le(x, z)
}

/// Whether every element comes no later than those after it.
pub open spec fn sorted<A>(s: Seq<A>, le: spec_fn(A, A) -> bool) -> bool {
    forall|i: int, j: int| 0 <= i < j < s.len() ==> le(#[trigger] s[i], #[trigger] s[j])
}

/// A sorted sequence with one more element, placed after those it ties with.
pub open spec fn with_inserted<A>(s: Seq<A>, x: A, le: spec_fn(A, A) -> bool) -> Seq<A>
    decreases s.len(),
{
    if s.len() == 0 || le(s.last(), x) {
        s.push(x)
    } else {
        with_inserted(s.drop_last(), x, le).push(s.last())
    }
}

/// The elements of `s` in order; elements that tie keep their relative order.
pub open spec fn stable_sort<A>(s: Seq<A>, le: spec_fn(A, A) -> bool) -> Seq<A>
    decreases s.len(),
{
    if s.len() == 0 {
        s
    } else {
        with_inserted(stable_sort(s.drop_last(), le), s.last(), le)
    }
}

proof fn lemma_inserted_at<A>(s: Seq<A>, x: A, le: spec_fn(A, A) -> bool, k: int)
    requires
        0 <= k <= s.len(),
        k > 0 ==> le(s[k - 1], x),
        forall|i: int| k <= i < s.len() ==> !le(#[trigger] s[i], x),
    ensures
        with_inserted(s, x, le) == s.insert(k, x),
    decreases s.len(),
{
    if s.len() == 0 || le(s.last(), x) {
        assert(k == s.len());
        assert(s.insert(k, x) =~= s.push(x));
    } else {
        assert(k < s.len()) by {
            if k == s.len() {
                assert(s[k - 1] == s.last());
            }
        }
        let t = s.drop_last();
        assert forall|i: int| k <= i < t.len() implies !le(#[trigger] t[i], x) by {
            assert(t[i] == s[i]);
        }
        lemma_inserted_at(t, x, le, k);
        assert(t.insert(k, x).push(s.last()) =~= s.insert(k, x));
    }
}

proof fn lemma_inserted<A>(s: Seq<A>, x: A, le: spec_fn(A, A) -> bool)
    requires
        total_preorder(le),
        sorted(s, le),
    ensures
        sorted(with_inserted(s, x, le), le),
        with_inserted(s, x, le).to_multiset() == s.to_multiset().insert(x),
        with_inserted(s, x, le).len() == s.len() + 1,
    decreases s.len(),
{
    broadcast use vstd::seq_lib::group_to_multiset_ensures;

    let r = with_inserted(s, x, le);
    if s.len() == 0 || le(s.last(), x) {
        assert forall|i: int, j: int| 0 <= i < j < r.len() implies le(
            #[trigger] r[i],
            #[trigger] r[j],
        ) by {
            if j == s.len() {
                if i < s.len() - 1 {
                    assert(le(s[i], s[s.len() - 1]));
                }
                assert(le(s[i], s.last()));
            }
        }
        assert(r.to_multiset() =~= s.to_multiset().insert(x));
    } else {
        let t = s.drop_last();
        assert(sorted(t, le)) by {
            assert forall|i: int, j: int| 0 <= i < j < t.len() implies le(
                #[trigger] t[i],
                #[trigger] t[j],
            ) by {
                assert(le(s[i], s[j]));
            }
        }
        lemma_inserted(t, x, le);
        let u = with_inserted(t, x, le);
        assert(s =~= t.push(s.last()));
        assert(r.to_multiset() =~= s.to_multiset().insert(x));
        assert forall|i: int, j: int| 0 <= i < j < r.len() implies le(
            #[trigger] r[i],
            #[trigger] r[j],
        ) by {
            if j == u.len() {
                assert(r[i] == u[i]);
                assert(u.to_multiset().count(u[i]) > 0) by {
                    assert(u.contains(u[i]));
                }
                assert(le(x, s.last())) by {
                    assert(!le(s.last(), x));
                }
                if u[i] != x {
                    assert(t.to_multiset().count(u[i]) > 0);
                    assert(t.contains(u[i]));
                    let k = choose|k: int| 0 <= k < t.len() && t[k] == u[i];
                    assert(le(s[k], s[s.len() - 1]));
                }
            } else {
                assert(le(u[i], u[j]));
            }
        }
    }
}

/// Sorting keeps the elements and puts them in order.
pub proof fn law_sort_orders<A>(s: Seq<A>, le: spec_fn(A, A) -> bool)
    requires
        total_preorder(le),
    ensures
        sorted(stable_sort(s, le), le),
        stable_sort(s, le).to_multiset() == s.to_multiset(),
        stable_sort(s, le).len() == s.len(),
    decreases s.len(),
{
    broadcast use vstd::seq_lib::group_to_multiset_ensures;

    if s.len() > 0 {
        law_sort_orders(s.drop_last(), le);
        lemma_inserted(stable_sort(s.drop_last(), le), s.last(), le);
        assert(s =~= s.drop_last().push(s.last()));
    }
}

/// Sorting keeps what a sequence contains.
pub proof fn lemma_sort_contains<A>(s: Seq<A>, le: spec_fn(A, A) -> bool, x: A)
    requires
        total_preorder(le),
    ensures
        stable_sort(s, le).contains(x) <==> s.contains(x),
{
    broadcast use vstd::seq_lib::group_to_multiset_ensures;

    law_sort_orders(s, le);
    assert(s.to_multiset().count(x) > 0 <==> s.contains(x));
    assert(stable_sort(s, le).to_multiset().count(x) > 0 <==> stable_sort(s, le).contains(x));
}

/// Sequences of the same texts are sorted alike.
pub proof fn lemma_sort_unique(
    a: Seq<Seq<char>>,
    b: Seq<Seq<char>>,
    le: spec_fn(Seq<char>, Seq<char>) -> bool,
)
    requires
        le == text_order(),
        a.to_multiset() == b.to_multiset(),
    ensures
        stable_sort(a, le) == stable_sort(b, le),
{
    lemma_text_order();
    law_sort_orders(a, le);
    law_sort_orders(b, le);
    lemma_sorted_unique(stable_sort(a, le), stable_sort(b, le));
}

proof fn lemma_sorted_unique(a: Seq<Seq<char>>, b: Seq<Seq<char>>)
    requires
        sorted(a, text_order()),
        sorted(b, text_order()),
        a.to_multiset() == b.to_multiset(),
    ensures
        a == b,
    decreases a.len(),
{
    broadcast use vstd::seq_lib::group_to_multiset_ensures;

    a.to_multiset_ensures();
    b.to_multiset_ensures();
    assert(a.len() == b.len());
    if a.len() > 0 {
        let x = a.last();
        let y = b.last();
        assert(a.contains(x) && b.contains(y));
        assert(a.to_multiset().count(x) > 0 && b.to_multiset().count(y) > 0);
        assert(b.contains(x) && a.contains(y));
        let i = choose|i: int| 0 <= i < b.len() && b[i] == x;
        let j = choose|j: int| 0 <= j < a.len() && a[j] == y;
        text::lemma_text_le_total(x, x);
        if i < b.len() - 1 {
            assert(text_order()(b[i], b[b.len() - 1]));
        }
        if j < a.len() - 1 {
            assert(text_order()(a[j], a[a.len() - 1]));
        }
        text::lemma_text_le_antisymmetric(x, y);
        assert(a =~= a.drop_last().push(x));
        assert(b =~= b.drop_last().push(y));
        assert(a.drop_last().to_multiset() =~= a.to_multiset().remove(x));
        assert(b.drop_last().to_multiset() =~= b.to_multiset().remove(y));
        assert forall|p: int, q: int| 0 <= p < q < a.len() - 1 implies text_order()(
            #[trigger] a.drop_last()[p],
            #[trigger] a.drop_last()[q],
        ) by {
            assert(text_order()(a[p], a[q]));
        }
        assert forall|p: int, q: int| 0 <= p < q < b.len() - 1 implies text_order()(
            #[trigger] b.drop_last()[p],
            #[trigger] b.drop_last()[q],
        ) by {
            assert(text_order()(b[p], b[q]));
        }
        lemma_sorted_unique(a.drop_last(), b.drop_last());
    } else {
        assert(a =~= b);
    }
}

/// Sorting keeps keys that no two elements share.
pub proof fn lemma_sort_keeps_distinct<A, B>(
    s: Seq<A>,
    le: spec_fn(A, A) -> bool,
    key: spec_fn(A) -> B,
)
    requires
        total_preorder(le),
        s.map_values(key).no_duplicates(),
    ensures
        stable_sort(s, le).map_values(key).no_duplicates(),
{
    broadcast use vstd::seq_lib::group_to_multiset_ensures;

    let r = stable_sort(s, le);
    law_sort_orders(s, le);
    assert(s.no_duplicates()) by {
        assert forall|i: int, j: int| 0 <= i < s.len() && 0 <= j < s.len() && i != j implies s[i]
            != s[j] by {
            assert(s.map_values(key)[i] != s.map_values(key)[j]);
        }
    }
    s.lemma_multiset_has_no_duplicates();
    r.lemma_multiset_has_no_duplicates_conv();
    assert forall|i: int, j: int| 0 <= i < r.len() && 0 <= j < r.len() && i != j implies r.map_values(
        key,
    )[i] != r.map_values(key)[j] by {
        assert(r.contains(r[i]) && r.contains(r[j]));
        lemma_sort_contains(s, le, r[i]);
        lemma_sort_contains(s, le, r[j]);
        let a = choose|a: int| 0 <= a < s.len() && s[a] == r[i];
        let b = choose|b: int| 0 <= b < s.len() && s[b] == r[j];
        if key(r[i]) == key(r[j]) {
            assert(s.map_values(key)[a] == s.map_values(key)[b]);
            assert(a == b);
            assert(r[i] == r[j]);
        }
    }
}

/// Sorts a vector; `le` tells whether its first argument comes no later than its
/// second.
pub(crate) fn sort_vec<A, F: Fn(&A, &A) -> bool>(
    items: Vec<A>,
    le: F,
    order: Ghost<spec_fn(A, A) -> bool>,
) -> (r: Vec<A>)
    requires
        total_preorder(order@),
        forall|x: &A, y: &A| #[trigger] le.requires((x, y)),
        forall|x: &A, y: &A, b: bool| #[trigger] le.ensures((x, y), b) ==> b == order@(*x, *y),
    ensures
        r@ == stable_sort(items@, order@),
{
    let ghost all = items@;
    let mut rest = items;
    let mut sorted_items: Vec<A> = Vec::new();
    let ghost mut done: int = 0;
    let mut reversed: Vec<A> = Vec::new();
    while rest.len() > 0
        invariant
            rest@.len() + reversed@.len() == all.len(),
            forall|i: int| 0 <= i < rest@.len() ==> #[trigger] rest@[i] == all[i],
            forall|i: int|
                0 <= i < reversed@.len() ==> #[trigger] reversed@[i] == all[all.len() - 1 - i],
        decreases rest@.len(),
    {
        match rest.pop() {
            Some(x) => {
                reversed.push(x);
            },
            None => {},
        }
    }
    assert(all.take(0) =~= Seq::empty());
    while reversed.len() > 0
        invariant
            total_preorder(order@),
            forall|x: &A, y: &A| #[trigger] le.requires((x, y)),
            forall|x: &A, y: &A, b: bool|
                #[trigger] le.ensures((x, y), b) ==> b == order@(*x, *y),
            0 <= done <= all.len(),
            reversed@.len() == all.len() - done,
            forall|i: int|
                0 <= i < reversed@.len() ==> #[trigger] reversed@[i] == all[all.len() - 1 - i],
            sorted_items@ == stable_sort(all.take(done), order@),
        decreases reversed@.len(),
    {
        match reversed.pop() {
            Some(x) => {
                proof {
                    law_sort_orders(all.take(done), order@);
                    assert(x == all[done]);
                    assert(all.take(done + 1).drop_last() =~= all.take(done));
                    assert(all.take(done + 1).last() == x);
                }
                let k: usize = upper_bound(&sorted_items, &x, &le, order);
                proof {
                    lemma_inserted_at(sorted_items@, x, order@, k as int);
                    done = done + 1;
                }
                sorted_items.insert(k, x);
            },
            None => {},
        }
    }
    assert(all.take(done) =~= all);
    sorted_items
}

/// Where an element is inserted into sorted items: past those it ties with.
fn upper_bound<A, F: Fn(&A, &A) -> bool>(
    items: &Vec<A>,
    x: &A,
    le: &F,
    order: Ghost<spec_fn(A, A) -> bool>,
) -> (k: usize)
    requires
        total_preorder(order@),
        sorted(items@, order@),
        forall|x: &A, y: &A| #[trigger] le.requires((x, y)),
        forall|x: &A, y: &A, b: bool| #[trigger] le.ensures((x, y), b) ==> b == order@(*x, *y),
    ensures
        k <= items@.len(),
        k > 0 ==> order@(items@[k - 1], *x),
        forall|i: int| k <= i < items@.len() ==> !order@(#[trigger] items@[i], *x),
{
    let mut low: usize = 0;
    let mut high: usize = items.len();
    while low < high
        invariant
            low <= high <= items@.len(),
            total_preorder(order@),
            sorted(items@, order@),
            forall|x: &A, y: &A| #[trigger] le.requires((x, y)),
            forall|x: &A, y: &A, b: bool|
                #[trigger] le.ensures((x, y), b) ==> b == order@(*x, *y),
            low > 0 ==> order@(items@[low - 1], *x),
            forall|i: int| high <= i < items@.len() ==> !order@(#[trigger] items@[i], *x),
        decreases high - low,
    {
        let mid: usize = low + (high - low) / 2;
        if le(&items[mid], x) {
            low = mid + 1;
        } else {
            proof {
                assert forall|i: int| mid <= i < items@.len() implies !order@(
                    #[trigger] items@[i],
                    *x,
                ) by {
                    if i > mid && order@(items@[i], *x) {
                        assert(order@(items@[mid as int], items@[i]));
                    }
                }
            }
            high = mid;
        }
    }
    low
}

// ── Sorting by a key ─────────────────────────────────────────────────────────

/// Sorting commutes with a map that keeps the order.
pub proof fn lemma_sort_map<A, B>(
    s: Seq<A>,
    f: spec_fn(A) -> B,
    le: spec_fn(A, A) -> bool,
    image_le: spec_fn(B, B) -> bool,
)
    requires
        forall|x: A, y: A| #[trigger] le(x, y) == image_le(f(x), f(y)),
    ensures
        stable_sort(s, le).map_values(f) == stable_sort(s.map_values(f), image_le),
    decreases s.len(),
{
    if s.len() > 0 {
        let t = s.drop_last();
        lemma_sort_map(t, f, le, image_le);
        assert(s.map_values(f).drop_last() =~= t.map_values(f));
        assert(s.map_values(f).last() == f(s.last()));
        lemma_insert_map(stable_sort(t, le), s.last(), f, le, image_le);
    } else {
        assert(s.map_values(f) =~= Seq::empty());
    }
}

proof fn lemma_insert_map<A, B>(
    s: Seq<A>,
    x: A,
    f: spec_fn(A) -> B,
    le: spec_fn(A, A) -> bool,
    image_le: spec_fn(B, B) -> bool,
)
    requires
        forall|x: A, y: A| #[trigger] le(x, y) == image_le(f(x), f(y)),
    ensures
        with_inserted(s, x, le).map_values(f) == with_inserted(s.map_values(f), f(x), image_le),
    decreases s.len(),
{
    let m = s.map_values(f);
    if s.len() == 0 || le(s.last(), x) {
        assert(s.len() > 0 ==> m.last() == f(s.last()));
        assert(s.push(x).map_values(f) =~= m.push(f(x)));
    } else {
        let t = s.drop_last();
        lemma_insert_map(t, x, f, le, image_le);
        assert(m.drop_last() =~= t.map_values(f));
        assert(m.last() == f(s.last()));
        assert(with_inserted(t, x, le).push(s.last()).map_values(f) =~= with_inserted(
            t,
            x,
            le,
        ).map_values(f).push(f(s.last())));
    }
}

// ── Sorting strings and numbers ──────────────────────────────────────────────

/// The order of texts, as a relation.
pub open spec fn text_order() -> spec_fn(Seq<char>, Seq<char>) -> bool {
    |a: Seq<char>, b: Seq<char>| text::text_le(a, b)
}

/// The order of strings by their text.
pub open spec fn string_order() -> spec_fn(String, String) -> bool {
    |a: String, b: String| text::text_le(a@, b@)
}

/// The order of numbers, as a relation.
pub open spec fn number_order() -> spec_fn(i64, i64) -> bool {
    |a: i64, b: i64| a <= b
}

pub proof fn lemma_text_order()
    ensures
        total_preorder(text_order()),
        total_preorder(string_order()),
        total_preorder(number_order()),
{
    let le = text_order();
    assert forall|x: Seq<char>, y: Seq<char>| #[trigger] le(x, y) || le(y, x) by {
        text::lemma_text_le_total(x, y);
    }
    assert forall|x: Seq<char>, y: Seq<char>, z: Seq<char>| #[trigger] le(x, y) && #[trigger] le(
        y,
        z,
    ) implies le(x, z) by {
        text::lemma_text_le_transitive(x, y, z);
    }
    let ge = string_order();
    assert forall|x: String, y: String| #[trigger] ge(x, y) || ge(y, x) by {
        text::lemma_text_le_total(x@, y@);
    }
    assert forall|x: String, y: String, z: String| #[trigger] ge(x, y) && #[trigger] ge(
        y,
        z,
    ) implies ge(x, z) by {
        text::lemma_text_le_transitive(x@, y@, z@);
    }
}

/// Sorts strings by their text.
pub fn sort_strings(v: Vec<String>) -> (r: Vec<String>)
    ensures
        text::texts(r@) == stable_sort(text::texts(v@), text_order()),
{
    let ghost f = |s: String| s@;
    proof {
        lemma_text_order();
        lemma_sort_map(v@, f, string_order(), text_order());
        assert(v@.map_values(f) =~= text::texts(v@));
    }
    let le = |a: &String, b: &String| -> (r: bool)
        ensures
            r == text::text_le(a@, b@),
        { str_le(a, b) };
    let r = sort_vec(v, le, Ghost(string_order()));
    assert(r@.map_values(f) =~= text::texts(r@));
    r
}

/// Sorts numbers.
pub fn sort_numbers(v: Vec<i64>) -> (r: Vec<i64>)
    ensures
        r@ == stable_sort(v@, number_order()),
{
    proof {
        lemma_text_order();
    }
    let le = |a: &i64, b: &i64| -> (r: bool)
        ensures
            r == (*a <= *b),
        { *a <= *b };
    sort_vec(v, le, Ghost(number_order()))
}

/// A sort keeps elements that are equal in its order as they stood: for each element, those
/// equal to it come out in the order in which they went in.
pub proof fn law_sort_is_stable<A>(s: Seq<A>, le: spec_fn(A, A) -> bool, x: A)
    requires
        total_preorder(le),
    ensures
        stable_sort(s, le).filter(|y: A| le(x, y) && le(y, x)) == s.filter(
            |y: A| le(x, y) && le(y, x),
        ),
    decreases s.len(),
{
    let same = |y: A| le(x, y) && le(y, x);
    reveal(Seq::filter);
    if s.len() > 0 {
        let t = stable_sort(s.drop_last(), le);
        law_sort_is_stable(s.drop_last(), le, x);
        law_sort_orders(s.drop_last(), le);
        lemma_inserted_last(t, s.last(), le, x);
    }
}

proof fn lemma_inserted_last<A>(s: Seq<A>, y: A, le: spec_fn(A, A) -> bool, x: A)
    requires
        total_preorder(le),
        sorted(s, le),
    ensures
        ({
            let same = |z: A| le(x, z) && le(z, x);
            with_inserted(s, y, le).filter(same) == if same(y) {
                s.filter(same).push(y)
            } else {
                s.filter(same)
            }
        }),
    decreases s.len(),
{
    let same = |z: A| le(x, z) && le(z, x);
    reveal(Seq::filter);
    if s.len() == 0 || le(s.last(), y) {
        assert(s.push(y).drop_last() =~= s);
    } else {
        let front = s.drop_last();
        let z = s.last();
        lemma_inserted_last(front, y, le, x);
        assert(with_inserted(front, y, le).push(z).drop_last() =~= with_inserted(front, y, le));
        if same(y) && same(z) {
            assert(le(z, x) && le(x, y));
            assert(le(z, y));
        }
    }
}

} // verus!
