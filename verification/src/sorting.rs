//! Orders on items, and the stable sort that the planner relies on.

use vstd::prelude::*;
use core::cmp::Ordering;
use crate::text::{
    compare_str, lemma_str_lt_asymmetric, lemma_str_lt_total, lemma_str_lt_transitive, str_le,
    str_lt, KeyOrder,
};
use crate::traits::{Key, Metadata};

verus! {

/// A total preorder on `T` that executable code can decide.
pub trait Ordered<T> {
    /// `a` may stand before `b`.
    spec fn le(&self, a: T, b: T) -> bool;

    fn compare(&self, a: &T, b: &T) -> (o: KeyOrder)
        ensures
            o == KeyOrder::Before <==> self.le(*a, *b) && !self.le(*b, *a),
            o == KeyOrder::Same <==> self.le(*a, *b) && self.le(*b, *a),
            o == KeyOrder::After <==> !self.le(*a, *b) && self.le(*b, *a),
    ;

    proof fn lemma_total(&self, a: T, b: T)
        ensures
            self.le(a, b) || self.le(b, a),
    ;

    proof fn lemma_transitive(&self, a: T, b: T, c: T)
        requires
            self.le(a, b),
            self.le(b, c),
        ensures
            self.le(a, c),
    ;
}

/// Items by ascending key.
pub struct ByKey;

/// Items by descending priority.
pub struct ByPriority;

/// Strings in the order of keys.
pub struct ByText;

impl<S: Key> Ordered<S> for ByKey {
    open spec fn le(&self, a: S, b: S) -> bool {
        str_le(a.key_view(), b.key_view())
    }

    fn compare(&self, a: &S, b: &S) -> (o: KeyOrder) {
        let o = compare_str(a.key(), b.key());
        proof {
            if str_lt(a.key_view(), b.key_view()) {
                lemma_str_lt_asymmetric(a.key_view(), b.key_view());
            }
            if str_lt(b.key_view(), a.key_view()) {
                lemma_str_lt_asymmetric(b.key_view(), a.key_view());
            }
        }
        o
    }

    proof fn lemma_total(&self, a: S, b: S) {
        lemma_str_lt_total(a.key_view(), b.key_view());
    }

    proof fn lemma_transitive(&self, a: S, b: S, c: S) {
        if a.key_view() != b.key_view() && b.key_view() != c.key_view() {
            lemma_str_lt_transitive(a.key_view(), b.key_view(), c.key_view());
        }
    }
}

impl<S: Metadata> Ordered<S> for ByPriority {
    open spec fn le(&self, a: S, b: S) -> bool {
        a.priority_of() >= b.priority_of()
    }

    fn compare(&self, a: &S, b: &S) -> (o: KeyOrder) {
        let x = a.priority();
        let y = b.priority();
        if x > y {
            KeyOrder::Before
        } else if x == y {
            KeyOrder::Same
        } else {
            KeyOrder::After
        }
    }

    proof fn lemma_total(&self, a: S, b: S) {
    }

    proof fn lemma_transitive(&self, a: S, b: S, c: S) {
    }
}

impl Ordered<String> for ByText {
    open spec fn le(&self, a: String, b: String) -> bool {
        str_le(a@, b@)
    }

    fn compare(&self, a: &String, b: &String) -> (o: KeyOrder) {
        let o = compare_str(a.as_str(), b.as_str());
        proof {
            if str_lt(a@, b@) {
                lemma_str_lt_asymmetric(a@, b@);
            }
            if str_lt(b@, a@) {
                lemma_str_lt_asymmetric(b@, a@);
            }
        }
        o
    }

    proof fn lemma_total(&self, a: String, b: String) {
        lemma_str_lt_total(a@, b@);
    }

    proof fn lemma_transitive(&self, a: String, b: String, c: String) {
        if a@ != b@ && b@ != c@ {
            lemma_str_lt_transitive(a@, b@, c@);
        }
    }
}

/// `from` and `back` are inverse renumberings of `0..n`.
pub open spec fn inverse_renumberings(from: Seq<int>, back: Seq<int>, n: int) -> bool {
    &&& from.len() == n
    &&& back.len() == n
    &&& forall|i: int| 0 <= i < n ==> 0 <= #[trigger] from[i] < n && back[from[i]] == i
    &&& forall|i: int| 0 <= i < n ==> 0 <= #[trigger] back[i] < n && from[back[i]] == i
}

/// `output` holds the items of `input`, `output[i]` being `input[from[i]]`,
/// in ascending order, and items that the order does not tell apart stand as
/// they stood in `input`.
pub open spec fn stable_sort_by<T, O: Ordered<T>>(
    input: Seq<T>,
    output: Seq<T>,
    order: O,
    from: Seq<int>,
    back: Seq<int>,
) -> bool {
    &&& output.len() == input.len()
    &&& inverse_renumberings(from, back, input.len() as int)
    &&& forall|i: int| 0 <= i < output.len() ==> #[trigger] output[i] == input[from[i]]
    &&& forall|i: int, j: int|
        0 <= i < j < output.len() ==> order.le(#[trigger] output[i], #[trigger] output[j])
    &&& forall|i: int, j: int|
        0 <= i < j < output.len() && order.le(output[j], output[i]) ==> #[trigger] from[i]
            < #[trigger] from[j]
}

/// `output` is `input` sorted by `order`, stably.
pub open spec fn is_stable_sort<T, O: Ordered<T>>(input: Seq<T>, output: Seq<T>, order: O) -> bool {
    exists|from: Seq<int>, back: Seq<int>| #[trigger]
        stable_sort_by(input, output, order, from, back)
}

/// The `Ordering` that `order` gives to `a` and `b`.
pub fn ordering_of<T, O: Ordered<T>>(order: &O, a: &T, b: &T) -> (o: Ordering)
    ensures
        o == Ordering::Less <==> order.le(*a, *b) && !order.le(*b, *a),
        o == Ordering::Equal <==> order.le(*a, *b) && order.le(*b, *a),
        o == Ordering::Greater <==> !order.le(*a, *b) && order.le(*b, *a),
{
    match order.compare(a, b) {
        KeyOrder::Before => Ordering::Less,
        KeyOrder::Same => Ordering::Equal,
        KeyOrder::After => Ordering::Greater,
    }
}

/// The item at the place `i` may stand before the item at the place `j`:
/// the order lets it, and where the order does not tell the two apart, the
/// places do.
pub open spec fn goes_first<T, O: Ordered<T>>(items: Seq<T>, order: O, i: int, j: int) -> bool {
    order.le(items[i], items[j]) && (order.le(items[j], items[i]) ==> i <= j)
}

/// The places `lo`, `lo + 1` and so on up to `hi`, without `hi`.
pub open spec fn places_between(lo: int, hi: int) -> Seq<usize> {
    Seq::new((hi - lo) as nat, |k: int| (lo + k) as usize)
}

/// Places of `items`, each of which may stand before those after it.
pub open spec fn places_sorted<T, O: Ordered<T>>(
    items: Seq<T>,
    order: O,
    places: Seq<usize>,
) -> bool {
    &&& forall|a: int| 0 <= a < places.len() ==> (#[trigger] places[a]) < items.len()
    &&& forall|a: int, b: int|
        0 <= a < b < places.len() ==> goes_first(
            items,
            order,
            #[trigger] places[a] as int,
            #[trigger] places[b] as int,
        )
}

proof fn lemma_goes_first_total<T, O: Ordered<T>>(items: Seq<T>, order: O, i: int, j: int)
    ensures
        goes_first(items, order, i, j) || goes_first(items, order, j, i),
{
    order.lemma_total(items[i], items[j]);
}

proof fn lemma_goes_first_transitive<T, O: Ordered<T>>(
    items: Seq<T>,
    order: O,
    i: int,
    j: int,
    k: int,
)
    requires
        goes_first(items, order, i, j),
        goes_first(items, order, j, k),
    ensures
        goes_first(items, order, i, k),
{
    order.lemma_transitive(items[i], items[j], items[k]);
    if order.le(items[k], items[i]) {
        order.lemma_transitive(items[k], items[i], items[j]);
        order.lemma_transitive(items[j], items[k], items[i]);
    }
}

/// Whether the item at `i` may stand before the item at `j`.
fn first_goes<T, O: Ordered<T>>(items: &Vec<T>, order: &O, i: usize, j: usize) -> (r: bool)
    requires
        i < items@.len(),
        j < items@.len(),
    ensures
        r == goes_first(items@, *order, i as int, j as int),
{
    proof {
        order.lemma_total(items@[i as int], items@[j as int]);
    }
    match order.compare(&items[i], &items[j]) {
        KeyOrder::Before => true,
        KeyOrder::Same => i <= j,
        KeyOrder::After => false,
    }
}

/// Merges two sorted lists of places into one.
fn merge_places<T, O: Ordered<T>>(
    items: &Vec<T>,
    order: &O,
    a: &Vec<usize>,
    b: &Vec<usize>,
) -> (out:
    Vec<usize>)
    requires
        places_sorted(items@, *order, a@),
        places_sorted(items@, *order, b@),
    ensures
        places_sorted(items@, *order, out@),
        out@.to_multiset() == a@.to_multiset().add(b@.to_multiset()),
{
    broadcast use vstd::multiset::group_multiset_axioms;

    let n: usize = a.len();
    let m: usize = b.len();
    let mut out: Vec<usize> = Vec::new();
    let mut i: usize = 0;
    let mut j: usize = 0;
    proof {
        assert(a@.take(0) =~= Seq::<usize>::empty());
        assert(b@.take(0) =~= Seq::<usize>::empty());
        assert(out@ =~= Seq::<usize>::empty());
        vstd::seq_lib::to_multiset_len(Seq::<usize>::empty());
        vstd::multiset::lemma_multiset_empty_len(Seq::<usize>::empty().to_multiset());
        assert(out@.to_multiset() =~= a@.take(0).to_multiset().add(b@.take(0).to_multiset()));
    }
    while i < n || j < m
        invariant
            i <= n,
            j <= m,
            n == a@.len(),
            m == b@.len(),
            places_sorted(items@, *order, a@),
            places_sorted(items@, *order, b@),
            places_sorted(items@, *order, out@),
            out@.to_multiset() == a@.take(i as int).to_multiset().add(
                b@.take(j as int).to_multiset(),
            ),
            forall|x: int, p: int|
                0 <= x < out@.len() && i <= p < n ==> goes_first(
                    items@,
                    *order,
                    #[trigger] out@[x] as int,
                    #[trigger] a@[p] as int,
                ),
            forall|x: int, q: int|
                0 <= x < out@.len() && j <= q < m ==> goes_first(
                    items@,
                    *order,
                    #[trigger] out@[x] as int,
                    #[trigger] b@[q] as int,
                ),
        decreases (n - i) + (m - j),
    {
        let ghost before = out@;
        let from_a = if j == m {
            true
        } else if i == n {
            false
        } else {
            first_goes(items, order, a[i], b[j])
        };
        if from_a {
            let place = a[i];
            out.push(place);
            proof {
                vstd::seq_lib::to_multiset_build(before, place);
                assert(a@.take(i + 1) =~= a@.take(i as int).push(place));
                vstd::seq_lib::to_multiset_build(a@.take(i as int), place);
                assert(out@.to_multiset() =~= a@.take(i + 1).to_multiset().add(
                    b@.take(j as int).to_multiset(),
                ));
                assert forall|x: int, y: int| 0 <= x < y < out@.len() implies goes_first(
                    items@,
                    *order,
                    #[trigger] out@[x] as int,
                    #[trigger] out@[y] as int,
                ) by {
                    if y == before.len() {
                        assert(out@[x] == before[x]);
                        assert(goes_first(items@, *order, before[x] as int, a@[i as int] as int));
                    } else {
                        assert(out@[x] == before[x] && out@[y] == before[y]);
                    }
                }
                assert forall|x: int, p: int| 0 <= x < out@.len() && i + 1 <= p < n implies goes_first(
                    items@,
                    *order,
                    #[trigger] out@[x] as int,
                    #[trigger] a@[p] as int,
                ) by {
                    if x < before.len() {
                        assert(out@[x] == before[x]);
                    } else {
                        assert(goes_first(items@, *order, a@[i as int] as int, a@[p] as int));
                    }
                }
                assert forall|x: int, q: int| 0 <= x < out@.len() && j <= q < m implies goes_first(
                    items@,
                    *order,
                    #[trigger] out@[x] as int,
                    #[trigger] b@[q] as int,
                ) by {
                    if x < before.len() {
                        assert(out@[x] == before[x]);
                    } else {
                        assert(goes_first(items@, *order, place as int, b@[j as int] as int));
                        if q > j {
                            assert(goes_first(items@, *order, b@[j as int] as int, b@[q] as int));
                            lemma_goes_first_transitive(
                                items@,
                                *order,
                                place as int,
                                b@[j as int] as int,
                                b@[q] as int,
                            );
                        }
                    }
                }
            }
            i += 1;
        } else {
            let place = b[j];
            out.push(place);
            proof {
                vstd::seq_lib::to_multiset_build(before, place);
                assert(b@.take(j + 1) =~= b@.take(j as int).push(place));
                vstd::seq_lib::to_multiset_build(b@.take(j as int), place);
                assert(out@.to_multiset() =~= a@.take(i as int).to_multiset().add(
                    b@.take(j + 1).to_multiset(),
                ));
                assert forall|x: int, y: int| 0 <= x < y < out@.len() implies goes_first(
                    items@,
                    *order,
                    #[trigger] out@[x] as int,
                    #[trigger] out@[y] as int,
                ) by {
                    if y == before.len() {
                        assert(out@[x] == before[x]);
                        assert(goes_first(items@, *order, before[x] as int, b@[j as int] as int));
                    } else {
                        assert(out@[x] == before[x] && out@[y] == before[y]);
                    }
                }
                assert forall|x: int, q: int| 0 <= x < out@.len() && j + 1 <= q < m implies goes_first(
                    items@,
                    *order,
                    #[trigger] out@[x] as int,
                    #[trigger] b@[q] as int,
                ) by {
                    if x < before.len() {
                        assert(out@[x] == before[x]);
                    } else {
                        assert(goes_first(items@, *order, b@[j as int] as int, b@[q] as int));
                    }
                }
                assert forall|x: int, p: int| 0 <= x < out@.len() && i <= p < n implies goes_first(
                    items@,
                    *order,
                    #[trigger] out@[x] as int,
                    #[trigger] a@[p] as int,
                ) by {
                    if x < before.len() {
                        assert(out@[x] == before[x]);
                    } else {
                        lemma_goes_first_total(items@, *order, a@[i as int] as int, place as int);
                        assert(goes_first(items@, *order, place as int, a@[i as int] as int));
                        if p > i {
                            assert(goes_first(items@, *order, a@[i as int] as int, a@[p] as int));
                            lemma_goes_first_transitive(
                                items@,
                                *order,
                                place as int,
                                a@[i as int] as int,
                                a@[p] as int,
                            );
                        }
                    }
                }
            }
            j += 1;
        }
    }
    proof {
        assert(a@.take(n as int) =~= a@);
        assert(b@.take(m as int) =~= b@);
    }
    out
}

/// The places from `lo` up to `hi`, sorted.
fn sort_places<T, O: Ordered<T>>(
    items: &Vec<T>,
    order: &O,
    lo: usize,
    hi: usize,
) -> (out: Vec<usize>)
    requires
        lo <= hi <= items@.len(),
    ensures
        places_sorted(items@, *order, out@),
        out@.to_multiset() == places_between(lo as int, hi as int).to_multiset(),
    decreases hi - lo,
{
    broadcast use vstd::multiset::group_multiset_axioms;

    if hi - lo < 2 {
        let mut out: Vec<usize> = Vec::new();
        if hi - lo == 1 {
            out.push(lo);
        }
        proof {
            assert(out@ =~= places_between(lo as int, hi as int));
        }
        return out;
    }
    let mid: usize = lo + (hi - lo) / 2;
    let a = sort_places(items, order, lo, mid);
    let b = sort_places(items, order, mid, hi);
    let out = merge_places(items, order, &a, &b);
    proof {
        let left = places_between(lo as int, mid as int);
        let right = places_between(mid as int, hi as int);
        assert(left + right =~= places_between(lo as int, hi as int));
        vstd::seq_lib::lemma_multiset_commutative(left, right);
    }
    out
}

/// Sorted places are a renumbering of the items.
proof fn lemma_places_renumber(places: Seq<usize>, n: nat) -> (r: (Seq<int>, Seq<int>))
    requires
        n <= usize::MAX,
        places.to_multiset() == places_between(0, n as int).to_multiset(),
    ensures
        places.len() == n,
        inverse_renumberings(r.0, r.1, n as int),
        forall|i: int| 0 <= i < n ==> #[trigger] r.0[i] == places[i] as int,
{
    broadcast use vstd::multiset::group_multiset_axioms;

    let all = places_between(0, n as int);
    vstd::seq_lib::to_multiset_len(places);
    vstd::seq_lib::to_multiset_len(all);
    assert forall|i: int, j: int| 0 <= i < all.len() && 0 <= j < all.len() && i != j implies all[i]
        != all[j] by {
        assert(all[i] == i && all[j] == j);
    }
    assert(all.no_duplicates());
    all.lemma_multiset_has_no_duplicates();
    places.lemma_multiset_has_no_duplicates_conv();
    let from = Seq::new(n, |i: int| places[i] as int);
    let back = Seq::new(
        n,
        |j: int| choose|i: int| 0 <= i < n && (#[trigger] places[i]) as int == j,
    );
    assert forall|i: int| 0 <= i < n implies 0 <= #[trigger] from[i] < n && back[from[i]] == i by {
        let x = places[i];
        vstd::seq_lib::to_multiset_contains(places, x);
        vstd::seq_lib::to_multiset_contains(all, x);
        assert(places.contains(x));
        assert(all.contains(x));
        let k = choose|k: int| 0 <= k < all.len() && all[k] == x;
        assert(all[k] == k);
        assert(x == k);
        let found = back[from[i]];
        assert(0 <= found < n && places[found] as int == from[i]);
    }
    assert forall|j: int| 0 <= j < n implies 0 <= #[trigger] back[j] < n && from[back[j]] == j by {
        let x = j as usize;
        assert(all[j] == x);
        vstd::seq_lib::to_multiset_contains(places, x);
        vstd::seq_lib::to_multiset_contains(all, x);
        assert(all.contains(x));
        assert(places.contains(x));
        let k = choose|k: int| 0 <= k < places.len() && places[k] == x;
        assert(places[k] as int == j);
    }
    (from, back)
}

/// Sorts the items so that they ascend in the order given, and leaves items
/// that the order does not tell apart in the order in which they were.
pub fn stable_sort<T, O: Ordered<T>>(v: Vec<T>, order: &O) -> (sorted: Vec<T>)
    ensures
        is_stable_sort(v@, sorted@, *order),
{
    let ghost input = v@;
    let n: usize = v.len();
    let places = sort_places(&v, order, 0, n);
    let ghost (from, back) = lemma_places_renumber(places@, n as nat);
    let mut slots: Vec<Option<T>> = Vec::new();
    for item in it: v
        invariant
            it.seq() == input,
            slots@.len() == it.index(),
            forall|j: int| 0 <= j < slots@.len() ==> #[trigger] slots@[j] == Some(input[j]),
    {
        slots.push(Some(item));
    }
    let mut sorted: Vec<T> = Vec::new();
    let mut k: usize = 0;
    while k < n
        invariant
            k <= n,
            n == input.len(),
            places@.len() == n,
            slots@.len() == n,
            sorted@.len() == k,
            inverse_renumberings(from, back, n as int),
            forall|i: int| 0 <= i < n ==> #[trigger] from[i] == places@[i] as int,
            forall|j: int|
                0 <= j < n ==> #[trigger] slots@[j] == if back[j] < k {
                    None
                } else {
                    Some(input[j])
                },
            forall|i: int| 0 <= i < k ==> #[trigger] sorted@[i] == input[from[i]],
        decreases n - k,
    {
        let place = places[k];
        let ghost before = slots@;
        proof {
            assert(from[k as int] == place as int);
            assert(back[from[k as int]] == k);
            assert(before[place as int] == Some(input[place as int]));
        }
        let item = slots[place].take();
        proof {
            assert forall|j: int| 0 <= j < n implies #[trigger] slots@[j] == if back[j] < k + 1 {
                None::<T>
            } else {
                Some(input[j])
            } by {
                if j != place {
                    assert(slots@[j] == before[j]);
                    assert(from[back[j]] == j);
                    assert(back[j] != k);
                }
            }
        }
        sorted.push(item.unwrap());
        k += 1;
    }
    proof {
        assert forall|i: int, j: int| 0 <= i < j < sorted@.len() implies order.le(
            #[trigger] sorted@[i],
            #[trigger] sorted@[j],
        ) by {
            assert(goes_first(input, *order, places@[i] as int, places@[j] as int));
        }
        assert forall|i: int, j: int|
            0 <= i < j < sorted@.len() && order.le(sorted@[j], sorted@[i]) implies #[trigger] from[i]
            < #[trigger] from[j] by {
            assert(goes_first(input, *order, places@[i] as int, places@[j] as int));
            assert(back[from[i]] == i && back[from[j]] == j);
        }
        assert(stable_sort_by(input, sorted@, *order, from, back));
    }
    sorted
}

} // verus!
