//! The diff-transfer engine: canonical snapshots, the three-way plan, the
//! order of the work and the scheduler that hands it out.

use vstd::prelude::*;
use crate::common::SnapshotConfig;
use crate::sorting::{ordering_of, stable_sort, stable_sort_by, ByKey, Ordered};
use crate::text::{compare_str, lemma_str_lt_asymmetric, lemma_str_lt_transitive, str_lt, KeyOrder};
use crate::traits::{Diff, Key};

verus! {

/// How one run of the engine behaves.
#[derive(Debug, Copy, Clone)]
pub struct SimpleDiffTransferConfig {
    pub progress: bool,
    /// How many items may be in flight at once.
    pub concurrent_transfer: usize,
    pub no_delete: bool,
    pub dry_run: bool,
    /// Every item of the source that the target has is updated.
    pub force_all: bool,
    pub snapshot_config: SnapshotConfig,
    /// How many entries of the plan are shown.
    pub print_plan: usize,
}

/// Whether the object of the source item `x` replaces that of the target
/// item `y`: always where every item is forced, and else where the two
/// differ.
pub open spec fn must_update<S: Diff>(force_all: bool, x: S, y: S) -> bool {
    force_all || x.differs(&y)
}

/// Some item of `s` has the key `k`.
pub open spec fn has_key<S: Key>(s: Seq<S>, k: Seq<char>) -> bool {
    exists|i: int| 0 <= i < s.len() && (#[trigger] s[i]).key_view() == k
}

/// The keys of `s` ascend, so none occurs twice.
pub open spec fn strictly_sorted_by_key<S: Key>(s: Seq<S>) -> bool {
    forall|i: int, j: int|
        0 <= i < j < s.len() ==> str_lt((#[trigger] s[i]).key_view(), (#[trigger] s[j]).key_view())
}

/// `input[i]` is the first item of `input` that has its key.
pub open spec fn first_of_key<S: Key>(input: Seq<S>, i: int) -> bool {
    &&& 0 <= i < input.len()
    &&& forall|j: int| 0 <= j < i ==> (#[trigger] input[j]).key_view() != input[i].key_view()
}

/// `item` is the first item of `input` that has its key.
pub open spec fn is_first_in<S: Key>(input: Seq<S>, item: S) -> bool {
    exists|i: int| first_of_key(input, i) && #[trigger] input[i] == item
}

/// `output` is the canonical form of `input`: sorted by key, and for each
/// key of `input` the first item that has it.
pub open spec fn is_canonical_of<S: Key>(input: Seq<S>, output: Seq<S>) -> bool {
    &&& strictly_sorted_by_key(output)
    &&& forall|x: int| 0 <= x < output.len() ==> is_first_in(input, #[trigger] output[x])
    &&& forall|i: int| 0 <= i < input.len() ==> has_key(output, (#[trigger] input[i]).key_view())
}

/// In a sequence sorted by key, the item at `j` starts the run of its key.
spec fn starts_run<S: Key>(w: Seq<S>, j: int) -> bool {
    &&& 0 <= j < w.len()
    &&& j > 0 ==> w[j - 1].key_view() != w[j].key_view()
}

/// `item` starts a run among the first `n` items of `w`.
spec fn heads_run<S: Key>(w: Seq<S>, n: int, item: S) -> bool {
    exists|j: int| starts_run(w, j) && j < n && #[trigger] w[j] == item
}

proof fn lemma_run_start_is_first<S: Key>(
    input: Seq<S>,
    w: Seq<S>,
    from: Seq<int>,
    back: Seq<int>,
    j: int,
)
    requires
        stable_sort_by(input, w, ByKey, from, back),
        starts_run(w, j),
    ensures
        first_of_key(input, from[j]),
        w[j] == input[from[j]],
{
    let k = w[j].key_view();
    assert forall|i: int| 0 <= i < from[j] implies (#[trigger] input[i]).key_view() != k by {
        if input[i].key_view() == k {
            // the item stands at `p` after the sort, with the same key
            let p = back[i];
            assert(from[p] == i);
            assert(w[p] == input[from[p]]);
            if p < j {
                // the key before the run lies between two equal keys
                let mid = w[j - 1].key_view();
                assert(ByKey.le(w[j - 1], w[j]));
                if p < j - 1 {
                    assert(ByKey.le(w[p], w[j - 1]));
                    lemma_str_lt_asymmetric(mid, k);
                }
            } else if p > j {
                // equal keys keep their order
                assert(ByKey.le(w[p], w[j]));
            }
        }
    }
}

/// Sorts a snapshot by key and keeps, of the items that share a key, the
/// one that came first. Also returns how many items were dropped.
pub fn canonicalize<S: Key>(snapshot: Vec<S>) -> (r: (Vec<S>, usize))
    ensures
        is_canonical_of(snapshot@, r.0@),
        r.1 == snapshot@.len() - r.0@.len(),
{
    let ghost input = snapshot@;
    let sorted = stable_sort(snapshot, &ByKey);
    let ghost w = sorted@;
    let ghost (from, back) = choose|from: Seq<int>, back: Seq<int>| #[trigger]
        stable_sort_by(input, w, ByKey, from, back);
    let total: usize = sorted.len();
    let mut out: Vec<S> = Vec::new();
    for item in it: sorted
        invariant
            it.seq() == w,
            total == w.len(),
            stable_sort_by(input, w, ByKey, from, back),
            out@.len() <= it.index(),
            it.index() > 0 ==> out@.len() > 0 && out@.last().key_view() == w[it.index()
                - 1].key_view(),
            strictly_sorted_by_key(out@),
            forall|x: int| 0 <= x < out@.len() ==> heads_run(w, it.index() as int, #[trigger] out@[x]),
            forall|j: int| 0 <= j < it.index() ==> has_key(out@, (#[trigger] w[j]).key_view()),
    {
        let ghost i = it.index() as int;
        let n: usize = out.len();
        let fresh = if n == 0 {
            true
        } else {
            match compare_str(out[n - 1].key(), item.key()) {
                KeyOrder::Same => false,
                _ => true,
            }
        };
        if fresh {
            proof {
                assert(starts_run(w, i));
                if i > 0 {
                    assert(ByKey.le(w[i - 1], w[i]));
                    assert forall|x: int| 0 <= x < out@.len() implies str_lt(
                        (#[trigger] out@[x]).key_view(),
                        item.key_view(),
                    ) by {
                        if x < out@.len() - 1 {
                            lemma_str_lt_transitive(
                                out@[x].key_view(),
                                out@.last().key_view(),
                                item.key_view(),
                            );
                        }
                    }
                }
            }
            let ghost old_out = out@;
            out.push(item);
            proof {
                assert forall|j: int| 0 <= j < i + 1 implies has_key(
                    out@,
                    (#[trigger] w[j]).key_view(),
                ) by {
                    if j < i {
                        let x = choose|x: int|
                            0 <= x < old_out.len() && (#[trigger] old_out[x]).key_view()
                                == w[j].key_view();
                        assert(out@[x] == old_out[x]);
                    } else {
                        assert(out@[out@.len() - 1] == item);
                    }
                }
                assert forall|x: int| 0 <= x < out@.len() implies heads_run(
                    w,
                    i + 1,
                    #[trigger] out@[x],
                ) by {
                    if x < old_out.len() {
                        assert(out@[x] == old_out[x]);
                        let j = choose|j: int| starts_run(w, j) && j < i && #[trigger] w[j] == old_out[x];
                        assert(starts_run(w, j) && j < i + 1 && w[j] == out@[x]);
                    } else {
                        assert(starts_run(w, i) && out@[x] == w[i]);
                    }
                }
            }
        } else {
            proof {
                assert forall|x: int| 0 <= x < out@.len() implies heads_run(
                    w,
                    i + 1,
                    #[trigger] out@[x],
                ) by {
                    let j = choose|j: int| starts_run(w, j) && j < i && #[trigger] w[j] == out@[x];
                    assert(starts_run(w, j) && j < i + 1 && w[j] == out@[x]);
                }
                assert forall|j: int| 0 <= j < i + 1 implies has_key(
                    out@,
                    (#[trigger] w[j]).key_view(),
                ) by {
                    if j == i {
                        assert(out@[out@.len() - 1].key_view() == w[i].key_view());
                    }
                }
            }
        }
    }
    proof {
        assert forall|x: int| 0 <= x < out@.len() implies is_first_in(input, #[trigger] out@[x]) by {
            let j = choose|j: int| starts_run(w, j) && j < w.len() && #[trigger] w[j] == out@[x];
            lemma_run_start_is_first(input, w, from, back, j);
            assert(first_of_key(input, from[j]) && input[from[j]] == out@[x]);
        }
        assert forall|i: int| 0 <= i < input.len() implies has_key(
            out@,
            (#[trigger] input[i]).key_view(),
        ) by {
            assert(w[back[i]] == input[from[back[i]]]);
        }
    }
    let dropped: usize = total - out.len();
    (out, dropped)
}

/// Where a key was found when two snapshots were held side by side.
pub enum Inclusion<S> {
    /// In the source only.
    Left(S),
    /// On both sides: the source's item, then the target's.
    Both(S, S),
    /// In the target only.
    Right(S),
}

impl<S: Key> Inclusion<S> {
    pub open spec fn key_of(self) -> Seq<char> {
        match self {
            Inclusion::Left(l) => l.key_view(),
            Inclusion::Both(l, _) => l.key_view(),
            Inclusion::Right(r) => r.key_view(),
        }
    }

    /// The entry says truly where its key occurs in `s` and `t`.
    pub open spec fn placed_in(self, s: Seq<S>, t: Seq<S>) -> bool {
        match self {
            Inclusion::Left(l) => s.contains(l) && !has_key(t, l.key_view()),
            Inclusion::Both(l, r) => s.contains(l) && t.contains(r) && l.key_view()
                == r.key_view(),
            Inclusion::Right(r) => t.contains(r) && !has_key(s, r.key_view()),
        }
    }

    pub open spec fn holds_left(self, item: S) -> bool {
        match self {
            Inclusion::Left(l) => l == item,
            Inclusion::Both(l, _) => l == item,
            Inclusion::Right(_) => false,
        }
    }

    pub open spec fn holds_right(self, item: S) -> bool {
        match self {
            Inclusion::Left(_) => false,
            Inclusion::Both(_, r) => r == item,
            Inclusion::Right(r) => r == item,
        }
    }
}

/// Some entry of `r` holds `item` as an item of the source.
pub open spec fn on_left<S: Key>(r: Seq<Inclusion<S>>, item: S) -> bool {
    exists|i: int| 0 <= i < r.len() && (#[trigger] r[i]).holds_left(item)
}

/// Some entry of `r` holds `item` as an item of the target.
pub open spec fn on_right<S: Key>(r: Seq<Inclusion<S>>, item: S) -> bool {
    exists|i: int| 0 <= i < r.len() && (#[trigger] r[i]).holds_right(item)
}

/// `r` interleaves `s` and `t` in key order: every item of either occurs in
/// exactly one entry, and an entry joins the two items that share a key.
pub open spec fn is_classification<S: Key>(s: Seq<S>, t: Seq<S>, r: Seq<Inclusion<S>>) -> bool {
    &&& forall|i: int, j: int|
        0 <= i < j < r.len() ==> str_lt((#[trigger] r[i]).key_of(), (#[trigger] r[j]).key_of())
    &&& forall|i: int| 0 <= i < r.len() ==> (#[trigger] r[i]).placed_in(s, t)
    &&& forall|a: int| 0 <= a < s.len() ==> on_left(r, #[trigger] s[a])
    &&& forall|b: int| 0 <= b < t.len() ==> on_right(r, #[trigger] t[b])
}

/// `classify_by` of the crate iter-set, with the key order as comparison:
/// given two sequences that ascend strictly, it interleaves them in that
/// order and tells of each item whether its key is in the first sequence,
/// in the second, or in both.
#[verifier::external_body]
pub(crate) fn classify_by_key<S: Key>(source: Vec<S>, target: Vec<S>) -> (r: Vec<Inclusion<S>>)
    requires
        strictly_sorted_by_key(source@),
        strictly_sorted_by_key(target@),
    ensures
        is_classification(source@, target@, r@),
{
    iter_set::classify_by(source, target, |a, b| ordering_of(&ByKey, a, b))
        .map(|entry| match entry {
            iter_set::Inclusion::Left(l) => Inclusion::Left(l),
            iter_set::Inclusion::Both(l, r) => Inclusion::Both(l, r),
            iter_set::Inclusion::Right(r) => Inclusion::Right(r),
        })
        .collect()
}

/// What has to happen to make the target equal to the source, each list in
/// key order.
pub struct TransferPlan<S> {
    /// Items whose key the target lacks.
    pub add: Vec<S>,
    /// Items of the source whose key the target holds with other content.
    pub update: Vec<S>,
    /// Items of the target whose key the source lacks.
    pub delete: Vec<S>,
}

/// `add`, `update` and `delete` are the three-way classification of the
/// canonical snapshots `s` and `t`.
pub open spec fn is_plan_of<S: Key + Diff>(
    s: Seq<S>,
    t: Seq<S>,
    add: Seq<S>,
    update: Seq<S>,
    delete: Seq<S>,
    force_all: bool,
) -> bool {
    &&& strictly_sorted_by_key(add)
    &&& strictly_sorted_by_key(update)
    &&& strictly_sorted_by_key(delete)
    &&& forall|x: S| #[trigger] add.contains(x) <==> s.contains(x) && !has_key(t, x.key_view())
    &&& forall|x: S| #[trigger]
        update.contains(x) <==> s.contains(x) && exists|y: S| #[trigger]
            t.contains(y) && y.key_view() == x.key_view() && must_update(force_all, x, y)
    &&& forall|y: S| #[trigger] delete.contains(y) <==> t.contains(y) && !has_key(s, y.key_view())
}

/// The three lists of a plan.
pub enum Bucket {
    Add,
    Update,
    Delete,
}

/// The entry `e` puts `item` into the list `kind`.
pub open spec fn yields<S: Key + Diff>(
    e: Inclusion<S>,
    kind: Bucket,
    item: S,
    force_all: bool,
) -> bool {
    match kind {
        Bucket::Add => e == Inclusion::Left(item),
        Bucket::Update => e is Both && e->Both_0 == item && must_update(force_all, item, e->Both_1),
        Bucket::Delete => e == Inclusion::Right(item),
    }
}

/// One of the first `n` entries of `r` puts `item` into the list `kind`.
spec fn drawn<S: Key + Diff>(
    r: Seq<Inclusion<S>>,
    n: int,
    kind: Bucket,
    item: S,
    force_all: bool,
) -> bool {
    exists|j: int| 0 <= j < n && yields(#[trigger] r[j], kind, item, force_all)
}

/// `v` is what the first `n` entries of `r` put into the list `kind`.
spec fn collected<S: Key + Diff>(
    r: Seq<Inclusion<S>>,
    n: int,
    kind: Bucket,
    v: Seq<S>,
    force_all: bool,
) -> bool {
    &&& strictly_sorted_by_key(v)
    &&& forall|x: int| 0 <= x < v.len() ==> drawn(r, n, kind, #[trigger] v[x], force_all)
    &&& forall|j: int, item: S|
        0 <= j < n && #[trigger] yields(r[j], kind, item, force_all) ==> v.contains(item)
}

proof fn lemma_collected_skip<S: Key + Diff>(
    r: Seq<Inclusion<S>>,
    i: int,
    kind: Bucket,
    v: Seq<S>,
    force_all: bool,
)
    requires
        0 <= i < r.len(),
        collected(r, i, kind, v, force_all),
        forall|item: S| !yields(r[i], kind, item, force_all),
    ensures
        collected(r, i + 1, kind, v, force_all),
{
    assert forall|x: int| 0 <= x < v.len() implies drawn(r, i + 1, kind, #[trigger] v[x], force_all) by {
        let j = choose|j: int| 0 <= j < i && yields(#[trigger] r[j], kind, v[x], force_all);
        assert(0 <= j < i + 1 && yields(r[j], kind, v[x], force_all));
    }
}

proof fn lemma_collected_take<S: Key + Diff>(
    r: Seq<Inclusion<S>>,
    i: int,
    kind: Bucket,
    v: Seq<S>,
    item: S,
    force_all: bool,
)
    requires
        0 <= i < r.len(),
        collected(r, i, kind, v, force_all),
        yields(r[i], kind, item, force_all),
        forall|a: int, b: int|
            0 <= a < b < r.len() ==> str_lt((#[trigger] r[a]).key_of(), (#[trigger] r[b]).key_of()),
    ensures
        collected(r, i + 1, kind, v.push(item), force_all),
{
    let w = v.push(item);
    assert forall|a: int, b: int| 0 <= a < b < w.len() implies str_lt(
        (#[trigger] w[a]).key_view(),
        (#[trigger] w[b]).key_view(),
    ) by {
        if b == v.len() {
            let j = choose|j: int| 0 <= j < i && yields(#[trigger] r[j], kind, v[a], force_all);
            assert(str_lt(r[j].key_of(), r[i].key_of()));
        } else {
            assert(w[a] == v[a] && w[b] == v[b]);
        }
    }
    assert forall|x: int| 0 <= x < w.len() implies drawn(r, i + 1, kind, #[trigger] w[x], force_all) by {
        if x < v.len() {
            let j = choose|j: int| 0 <= j < i && yields(#[trigger] r[j], kind, v[x], force_all);
            assert(0 <= j < i + 1 && yields(r[j], kind, w[x], force_all));
        } else {
            assert(0 <= i < i + 1 && yields(r[i], kind, w[x], force_all));
        }
    }
    assert forall|j: int, it: S| 0 <= j < i + 1 && #[trigger] yields(r[j], kind, it, force_all) implies w.contains(
        it,
    ) by {
        if j < i {
            let x = choose|x: int| 0 <= x < v.len() && v[x] == it;
            assert(w[x] == it);
        } else {
            assert(w[v.len() as int] == it);
        }
    }
}

/// Two items of a strictly sorted sequence with one key are one item.
pub proof fn lemma_key_determines_item<S: Key>(s: Seq<S>, x: S, y: S)
    requires
        strictly_sorted_by_key(s),
        s.contains(x),
        s.contains(y),
        x.key_view() == y.key_view(),
    ensures
        x == y,
{
    let i = choose|i: int| 0 <= i < s.len() && s[i] == x;
    let j = choose|j: int| 0 <= j < s.len() && s[j] == y;
    if i < j {
        lemma_str_lt_asymmetric(s[i].key_view(), s[j].key_view());
    } else if j < i {
        lemma_str_lt_asymmetric(s[j].key_view(), s[i].key_view());
    }
}

/// Holds two canonical snapshots side by side and sorts every key into what
/// is to be added, updated or deleted.
pub fn classify_snapshots<S: Key + Diff>(
    source: Vec<S>,
    target: Vec<S>,
    force_all: bool,
) -> (plan: TransferPlan<S>)
    requires
        strictly_sorted_by_key(source@),
        strictly_sorted_by_key(target@),
    ensures
        is_plan_of(source@, target@, plan.add@, plan.update@, plan.delete@, force_all),
{
    let ghost s = source@;
    let ghost t = target@;
    let classified = classify_by_key(source, target);
    let ghost r = classified@;
    let mut add: Vec<S> = Vec::new();
    let mut update: Vec<S> = Vec::new();
    let mut delete: Vec<S> = Vec::new();
    for entry in it: classified
        invariant
            it.seq() == r,
            is_classification(s, t, r),
            collected(r, it.index() as int, Bucket::Add, add@, force_all),
            collected(r, it.index() as int, Bucket::Update, update@, force_all),
            collected(r, it.index() as int, Bucket::Delete, delete@, force_all),
    {
        let ghost i = it.index() as int;
        match entry {
            Inclusion::Left(l) => {
                proof {
                    lemma_collected_take(r, i, Bucket::Add, add@, l, force_all);
                    lemma_collected_skip(r, i, Bucket::Update, update@, force_all);
                    lemma_collected_skip(r, i, Bucket::Delete, delete@, force_all);
                }
                add.push(l);
            },
            Inclusion::Both(l, y) => {
                proof {
                    lemma_collected_skip(r, i, Bucket::Add, add@, force_all);
                    lemma_collected_skip(r, i, Bucket::Delete, delete@, force_all);
                }
                if force_all || l.diff(&y) {
                    proof {
                        lemma_collected_take(r, i, Bucket::Update, update@, l, force_all);
                    }
                    update.push(l);
                } else {
                    proof {
                        lemma_collected_skip(r, i, Bucket::Update, update@, force_all);
                    }
                }
            },
            Inclusion::Right(y) => {
                proof {
                    lemma_collected_skip(r, i, Bucket::Add, add@, force_all);
                    lemma_collected_skip(r, i, Bucket::Update, update@, force_all);
                    lemma_collected_take(r, i, Bucket::Delete, delete@, y, force_all);
                }
                delete.push(y);
            },
        }
    }
    proof {
        lemma_plan_from_classification(s, t, r, add@, update@, delete@, force_all);
    }
    TransferPlan { add, update, delete }
}

proof fn lemma_plan_from_classification<S: Key + Diff>(
    s: Seq<S>,
    t: Seq<S>,
    r: Seq<Inclusion<S>>,
    add: Seq<S>,
    update: Seq<S>,
    delete: Seq<S>,
    force_all: bool,
)
    requires
        is_classification(s, t, r),
        strictly_sorted_by_key(s),
        strictly_sorted_by_key(t),
        collected(r, r.len() as int, Bucket::Add, add, force_all),
        collected(r, r.len() as int, Bucket::Update, update, force_all),
        collected(r, r.len() as int, Bucket::Delete, delete, force_all),
    ensures
        is_plan_of(s, t, add, update, delete, force_all),
{
    assert forall|x: S| #[trigger] add.contains(x) <==> s.contains(x) && !has_key(
        t,
        x.key_view(),
    ) by {
        if add.contains(x) {
            let a = choose|a: int| 0 <= a < add.len() && add[a] == x;
            let j = choose|j: int| 0 <= j < r.len() && yields(#[trigger] r[j], Bucket::Add, add[a], force_all);
            assert(r[j].placed_in(s, t));
        }
        if s.contains(x) && !has_key(t, x.key_view()) {
            let a = choose|a: int| 0 <= a < s.len() && s[a] == x;
            let j = choose|j: int| 0 <= j < r.len() && (#[trigger] r[j]).holds_left(s[a]);
            assert(r[j].placed_in(s, t));
            if r[j] is Both {
                let y = r[j]->Both_1;
                let b = choose|b: int| 0 <= b < t.len() && t[b] == y;
                assert(t[b].key_view() == x.key_view());
            }
            assert(yields(r[j], Bucket::Add, x, force_all));
        }
    }
    assert forall|x: S| #[trigger]
        update.contains(x) <==> s.contains(x) && exists|y: S| #[trigger]
            t.contains(y) && y.key_view() == x.key_view() && must_update(force_all, x, y) by {
        if update.contains(x) {
            let a = choose|a: int| 0 <= a < update.len() && update[a] == x;
            let j = choose|j: int| 0 <= j < r.len() && yields(#[trigger] r[j], Bucket::Update, update[a], force_all);
            assert(r[j].placed_in(s, t));
            let y = r[j]->Both_1;
            assert(t.contains(y) && y.key_view() == x.key_view() && must_update(force_all, x, y));
        }
        if s.contains(x) && exists|y: S| #[trigger]
            t.contains(y) && y.key_view() == x.key_view() && must_update(force_all, x, y) {
            let y = choose|y: S| #[trigger]
                t.contains(y) && y.key_view() == x.key_view() && must_update(force_all, x, y);
            let a = choose|a: int| 0 <= a < s.len() && s[a] == x;
            let j = choose|j: int| 0 <= j < r.len() && (#[trigger] r[j]).holds_left(s[a]);
            assert(r[j].placed_in(s, t));
            let b = choose|b: int| 0 <= b < t.len() && t[b] == y;
            assert(t[b].key_view() == x.key_view());
            assert(r[j] is Both);
            lemma_key_determines_item(t, y, r[j]->Both_1);
            assert(yields(r[j], Bucket::Update, x, force_all));
        }
    }
    assert forall|y: S| #[trigger] delete.contains(y) <==> t.contains(y) && !has_key(
        s,
        y.key_view(),
    ) by {
        if delete.contains(y) {
            let a = choose|a: int| 0 <= a < delete.len() && delete[a] == y;
            let j = choose|j: int| 0 <= j < r.len() && yields(#[trigger] r[j], Bucket::Delete, delete[a], force_all);
            assert(r[j].placed_in(s, t));
        }
        if t.contains(y) && !has_key(s, y.key_view()) {
            let b = choose|b: int| 0 <= b < t.len() && t[b] == y;
            let j = choose|j: int| 0 <= j < r.len() && (#[trigger] r[j]).holds_right(t[b]);
            assert(r[j].placed_in(s, t));
            if r[j] is Both {
                let x = r[j]->Both_0;
                let a = choose|a: int| 0 <= a < s.len() && s[a] == x;
                assert(s[a].key_view() == y.key_view());
            }
            assert(yields(r[j], Bucket::Delete, y, force_all));
        }
    }
}

/// `add`, `update` and `delete` are the plan for the snapshots `src` and
/// `tgt` as they were taken: where a key occurs more than once on a side,
/// its first item stands for it.
pub open spec fn is_diff_of<S: Key + Diff>(
    src: Seq<S>,
    tgt: Seq<S>,
    add: Seq<S>,
    update: Seq<S>,
    delete: Seq<S>,
    force_all: bool,
) -> bool {
    &&& strictly_sorted_by_key(add)
    &&& strictly_sorted_by_key(update)
    &&& strictly_sorted_by_key(delete)
    &&& forall|x: S| #[trigger]
        add.contains(x) <==> is_first_in(src, x) && !has_key(tgt, x.key_view())
    &&& forall|x: S| #[trigger]
        update.contains(x) <==> is_first_in(src, x) && exists|y: S| #[trigger]
            is_first_in(tgt, y) && y.key_view() == x.key_view() && must_update(force_all, x, y)
    &&& forall|y: S| #[trigger]
        delete.contains(y) <==> is_first_in(tgt, y) && !has_key(src, y.key_view())
}

proof fn lemma_canonical_members<S: Key>(input: Seq<S>, output: Seq<S>)
    requires
        is_canonical_of(input, output),
    ensures
        forall|x: S| #[trigger] output.contains(x) <==> is_first_in(input, x),
        forall|k: Seq<char>| #[trigger] has_key(output, k) <==> has_key(input, k),
{
    assert forall|x: S| #[trigger] output.contains(x) <==> is_first_in(input, x) by {
        if output.contains(x) {
            let a = choose|a: int| 0 <= a < output.len() && output[a] == x;
            assert(is_first_in(input, output[a]));
        }
        if is_first_in(input, x) {
            let i = choose|i: int| first_of_key(input, i) && #[trigger] input[i] == x;
            assert(has_key(output, input[i].key_view()));
            let a = choose|a: int|
                0 <= a < output.len() && (#[trigger] output[a]).key_view() == x.key_view();
            assert(is_first_in(input, output[a]));
            let j = choose|j: int| first_of_key(input, j) && #[trigger] input[j] == output[a];
            assert(i == j) by {
                if i < j {
                    assert(input[i].key_view() != input[j].key_view());
                }
                if j < i {
                    assert(input[j].key_view() != input[i].key_view());
                }
            }
        }
    }
    assert forall|k: Seq<char>| #[trigger] has_key(output, k) <==> has_key(input, k) by {
        if has_key(output, k) {
            let a = choose|a: int| 0 <= a < output.len() && (#[trigger] output[a]).key_view() == k;
            assert(is_first_in(input, output[a]));
            let j = choose|j: int| first_of_key(input, j) && #[trigger] input[j] == output[a];
            assert(input[j].key_view() == k);
        }
        if has_key(input, k) {
            let i = choose|i: int| 0 <= i < input.len() && (#[trigger] input[i]).key_view() == k;
            assert(has_key(output, input[i].key_view()));
        }
    }
}

/// `n` items of `input` repeat a key that an earlier item has: as many as
/// its canonical form is shorter.
pub open spec fn repeats<S: Key>(input: Seq<S>, n: int) -> bool {
    exists|canonical: Seq<S>| #[trigger]
        is_canonical_of(input, canonical) && n == input.len() - canonical.len()
}

/// Two sequences that ascend by key and hold the same keys hold them at the
/// same places.
proof fn lemma_same_keys_same_places<S: Key>(a: Seq<S>, b: Seq<S>)
    requires
        strictly_sorted_by_key(a),
        strictly_sorted_by_key(b),
        forall|k: Seq<char>| #[trigger] has_key(a, k) <==> has_key(b, k),
    ensures
        a.len() == b.len(),
        forall|i: int| 0 <= i < a.len() ==> (#[trigger] a[i]).key_view() == b[i].key_view(),
    decreases a.len(),
{
    if a.len() == 0 {
        if b.len() > 0 {
            assert(has_key(b, b[0].key_view()));
            assert(has_key(a, b[0].key_view()));
        }
    } else if b.len() == 0 {
        assert(has_key(a, a[0].key_view()));
        assert(has_key(b, a[0].key_view()));
    } else {
        let x = a.last().key_view();
        let y = b.last().key_view();
        // each last key is the greatest of its sequence and lies in the other
        assert(has_key(a, x));
        assert(has_key(b, x));
        let j = choose|j: int| 0 <= j < b.len() && (#[trigger] b[j]).key_view() == x;
        assert(has_key(b, y));
        assert(has_key(a, y));
        let i = choose|i: int| 0 <= i < a.len() && (#[trigger] a[i]).key_view() == y;
        if j < b.len() - 1 {
            assert(str_lt(b[j].key_view(), b[b.len() - 1].key_view()));
            if i < a.len() - 1 {
                assert(str_lt(a[i].key_view(), a[a.len() - 1].key_view()));
                lemma_str_lt_asymmetric(x, y);
            }
        }
        assert(x == y);
        let a0 = a.drop_last();
        let b0 = b.drop_last();
        assert forall|k: Seq<char>| #[trigger] has_key(a0, k) <==> has_key(b0, k) by {
            if has_key(a0, k) {
                let p = choose|p: int| 0 <= p < a0.len() && (#[trigger] a0[p]).key_view() == k;
                assert(a0.len() == a.len() - 1);
                assert(a0[p] == a[p]);
                assert(str_lt(a[p].key_view(), a[a.len() - 1].key_view()));
                lemma_str_lt_asymmetric(k, x);
                assert(has_key(a, k));
                let q = choose|q: int| 0 <= q < b.len() && (#[trigger] b[q]).key_view() == k;
                assert(b[b.len() - 1].key_view() == y);
                assert(k != y);
                assert(q != b.len() - 1);
                assert(b0[q] == b[q]);
            }
            if has_key(b0, k) {
                let q = choose|q: int| 0 <= q < b0.len() && (#[trigger] b0[q]).key_view() == k;
                assert(b0.len() == b.len() - 1);
                assert(b0[q] == b[q]);
                assert(str_lt(b[q].key_view(), b[b.len() - 1].key_view()));
                lemma_str_lt_asymmetric(k, y);
                assert(has_key(b, k));
                assert(has_key(a, k));
                let p = choose|p: int| 0 <= p < a.len() && (#[trigger] a[p]).key_view() == k;
                assert(a[a.len() - 1].key_view() == x);
                assert(k != x);
                assert(p != a.len() - 1);
                assert(a0[p] == a[p]);
            }
        }
        assert forall|p: int, q: int| 0 <= p < q < a0.len() implies str_lt(
            (#[trigger] a0[p]).key_view(),
            (#[trigger] a0[q]).key_view(),
        ) by {
            assert(a0[p] == a[p] && a0[q] == a[q]);
        }
        assert forall|p: int, q: int| 0 <= p < q < b0.len() implies str_lt(
            (#[trigger] b0[p]).key_view(),
            (#[trigger] b0[q]).key_view(),
        ) by {
            assert(b0[p] == b[p] && b0[q] == b[q]);
        }
        lemma_same_keys_same_places(a0, b0);
        assert forall|i: int| 0 <= i < a.len() implies (#[trigger] a[i]).key_view()
            == b[i].key_view() by {
            if i < a.len() - 1 {
                assert(a0[i] == a[i] && b0[i] == b[i]);
            }
        }
    }
}

/// Two sequences that ascend by key and hold the same items are the same.
pub proof fn lemma_sorted_same_members<S: Key>(a: Seq<S>, b: Seq<S>)
    requires
        strictly_sorted_by_key(a),
        strictly_sorted_by_key(b),
        forall|x: S| #[trigger] a.contains(x) <==> b.contains(x),
    ensures
        a == b,
{
    assert forall|k: Seq<char>| #[trigger] has_key(a, k) <==> has_key(b, k) by {
        if has_key(a, k) {
            let i = choose|i: int| 0 <= i < a.len() && (#[trigger] a[i]).key_view() == k;
            assert(a.contains(a[i]));
            assert(b.contains(a[i]));
            let j = choose|j: int| 0 <= j < b.len() && b[j] == a[i];
            assert(b[j].key_view() == k);
        }
        if has_key(b, k) {
            let j = choose|j: int| 0 <= j < b.len() && (#[trigger] b[j]).key_view() == k;
            assert(b.contains(b[j]));
            assert(a.contains(b[j]));
            let i = choose|i: int| 0 <= i < a.len() && a[i] == b[j];
            assert(a[i].key_view() == k);
        }
    }
    lemma_same_keys_same_places(a, b);
    assert forall|i: int| 0 <= i < a.len() implies a[i] == b[i] by {
        assert(a.contains(a[i]));
        assert(b.contains(a[i]));
        lemma_key_determines_item(b, a[i], b[i]);
    }
    assert(a =~= b);
}

/// Two snapshots have one plan.
pub proof fn lemma_plan_unique<S: Key + Diff>(
    src: Seq<S>,
    tgt: Seq<S>,
    add: Seq<S>,
    update: Seq<S>,
    delete: Seq<S>,
    add2: Seq<S>,
    update2: Seq<S>,
    delete2: Seq<S>,
    force_all: bool,
)
    requires
        is_diff_of(src, tgt, add, update, delete, force_all),
        is_diff_of(src, tgt, add2, update2, delete2, force_all),
    ensures
        add == add2,
        update == update2,
        delete == delete2,
{
    lemma_sorted_same_members(add, add2);
    lemma_sorted_same_members(update, update2);
    lemma_sorted_same_members(delete, delete2);
}

/// A snapshot has one canonical form.
pub proof fn lemma_canonical_unique<S: Key>(input: Seq<S>, a: Seq<S>, b: Seq<S>)
    requires
        is_canonical_of(input, a),
        is_canonical_of(input, b),
    ensures
        a == b,
{
    lemma_canonical_members(input, a);
    lemma_canonical_members(input, b);
    lemma_same_keys_same_places(a, b);
    assert forall|i: int| 0 <= i < a.len() implies a[i] == b[i] by {
        assert(a.contains(a[i]));
        assert(b.contains(b[i]));
        lemma_first_unique(input, a[i], b[i]);
    }
    assert(a =~= b);
}

/// What `generate_plan` returns: the plan, and how many items of the source
/// and of the target repeated a key.
pub struct PlanReport<S> {
    pub plan: TransferPlan<S>,
    pub source_duplicates: usize,
    pub target_duplicates: usize,
}

/// From two snapshots as they were taken to the plan: canonical form of
/// both, then the three-way classification.
pub fn generate_plan<S: Key + Diff>(
    source_snapshot: Vec<S>,
    target_snapshot: Vec<S>,
    force_all: bool,
) -> (r:
    PlanReport<S>)
    ensures
        is_diff_of(
            source_snapshot@,
            target_snapshot@,
            r.plan.add@,
            r.plan.update@,
            r.plan.delete@,
            force_all,
        ),
        repeats(source_snapshot@, r.source_duplicates as int),
        repeats(target_snapshot@, r.target_duplicates as int),
{
    let ghost src = source_snapshot@;
    let ghost tgt = target_snapshot@;
    let (source, source_duplicates) = canonicalize(source_snapshot);
    let (target, target_duplicates) = canonicalize(target_snapshot);
    let ghost s = source@;
    let ghost t = target@;
    let plan = classify_snapshots(source, target, force_all);
    proof {
        lemma_canonical_members(src, s);
        lemma_canonical_members(tgt, t);
        assert forall|x: S| #[trigger]
            plan.update@.contains(x) <==> is_first_in(src, x) && exists|y: S| #[trigger]
                is_first_in(tgt, y) && y.key_view() == x.key_view() && must_update(force_all, x, y) by {
            if plan.update@.contains(x) {
                let y = choose|y: S| #[trigger]
                    t.contains(y) && y.key_view() == x.key_view() && must_update(force_all, x, y);
                assert(is_first_in(tgt, y));
            }
            if is_first_in(src, x) && exists|y: S| #[trigger]
                is_first_in(tgt, y) && y.key_view() == x.key_view() && must_update(force_all, x, y) {
                let y = choose|y: S| #[trigger]
                    is_first_in(tgt, y) && y.key_view() == x.key_view() && must_update(force_all, x, y);
                assert(t.contains(y));
            }
        }
    }
    PlanReport { plan, source_duplicates, target_duplicates }
}

/// The keys of a plan, read off the two snapshots: what is added is what
/// only the source has, what is deleted is what only the target has, and
/// what is updated is on both sides.
pub proof fn lemma_plan_keys<S: Key + Diff>(
    src: Seq<S>,
    tgt: Seq<S>,
    add: Seq<S>,
    update: Seq<S>,
    delete: Seq<S>,
    force_all: bool,
)
    requires
        is_diff_of(src, tgt, add, update, delete, force_all),
    ensures
        forall|k: Seq<char>| #[trigger] has_key(add, k) <==> has_key(src, k) && !has_key(tgt, k),
        forall|k: Seq<char>| #[trigger]
            has_key(delete, k) <==> has_key(tgt, k) && !has_key(src, k),
        forall|k: Seq<char>| #[trigger] has_key(update, k) ==> has_key(src, k) && has_key(tgt, k),
        forall|x: S, y: S|
            is_first_in(src, x) && is_first_in(tgt, y) && x.key_view() == y.key_view() ==> (
            #[trigger] must_update(force_all, x, y) <==> has_key(update, x.key_view())),
{
    assert forall|k: Seq<char>| #[trigger]
        has_key(add, k) <==> has_key(src, k) && !has_key(tgt, k) by {
        if has_key(add, k) {
            let a = choose|a: int| 0 <= a < add.len() && (#[trigger] add[a]).key_view() == k;
            assert(add.contains(add[a]));
            let i = choose|i: int| first_of_key(src, i) && #[trigger] src[i] == add[a];
            assert(src[i].key_view() == k);
        }
        if has_key(src, k) && !has_key(tgt, k) {
            let i = lemma_first_exists(src, k);
            assert(is_first_in(src, src[i]));
            assert(add.contains(src[i]));
            let a = choose|a: int| 0 <= a < add.len() && add[a] == src[i];
            assert(add[a].key_view() == k);
        }
    }
    assert forall|k: Seq<char>| #[trigger]
        has_key(delete, k) <==> has_key(tgt, k) && !has_key(src, k) by {
        if has_key(delete, k) {
            let a = choose|a: int| 0 <= a < delete.len() && (#[trigger] delete[a]).key_view() == k;
            assert(delete.contains(delete[a]));
            let i = choose|i: int| first_of_key(tgt, i) && #[trigger] tgt[i] == delete[a];
            assert(tgt[i].key_view() == k);
        }
        if has_key(tgt, k) && !has_key(src, k) {
            let i = lemma_first_exists(tgt, k);
            assert(is_first_in(tgt, tgt[i]));
            assert(delete.contains(tgt[i]));
            let a = choose|a: int| 0 <= a < delete.len() && delete[a] == tgt[i];
            assert(delete[a].key_view() == k);
        }
    }
    assert forall|k: Seq<char>| #[trigger] has_key(update, k) implies has_key(src, k) && has_key(
        tgt,
        k,
    ) by {
        let a = choose|a: int| 0 <= a < update.len() && (#[trigger] update[a]).key_view() == k;
        let x = update[a];
        assert(update.contains(x));
        let y = choose|y: S| #[trigger]
            is_first_in(tgt, y) && y.key_view() == x.key_view() && must_update(force_all, x, y);
        let i = choose|i: int| first_of_key(src, i) && #[trigger] src[i] == x;
        let j = choose|j: int| first_of_key(tgt, j) && #[trigger] tgt[j] == y;
        assert(src[i].key_view() == k && tgt[j].key_view() == k);
    }
    assert forall|x: S, y: S|
        is_first_in(src, x) && is_first_in(tgt, y) && x.key_view() == y.key_view() implies (
        #[trigger] must_update(force_all, x, y) <==> has_key(update, x.key_view())) by {
        if must_update(force_all, x, y) {
            assert(update.contains(x));
            let a = choose|a: int| 0 <= a < update.len() && update[a] == x;
            assert(update[a].key_view() == x.key_view());
        }
        if has_key(update, x.key_view()) {
            let a = choose|a: int|
                0 <= a < update.len() && (#[trigger] update[a]).key_view() == x.key_view();
            let u = update[a];
            assert(update.contains(u));
            let v = choose|v: S| #[trigger]
                is_first_in(tgt, v) && v.key_view() == u.key_view() && must_update(force_all, u, v);
            lemma_first_unique(src, x, u);
            lemma_first_unique(tgt, y, v);
        }
    }
}

/// The least position at which `s` holds the key `k`.
proof fn lemma_first_exists<S: Key>(s: Seq<S>, k: Seq<char>) -> (i: int)
    requires
        has_key(s, k),
    ensures
        first_of_key(s, i),
        s[i].key_view() == k,
{
    let w = choose|w: int| 0 <= w < s.len() && (#[trigger] s[w]).key_view() == k;
    lemma_first_upto(s, k, w)
}

proof fn lemma_first_upto<S: Key>(s: Seq<S>, k: Seq<char>, w: int) -> (i: int)
    requires
        0 <= w < s.len(),
        s[w].key_view() == k,
    ensures
        first_of_key(s, i),
        s[i].key_view() == k,
    decreases w,
{
    if exists|j: int| 0 <= j < w && (#[trigger] s[j]).key_view() == k {
        let j = choose|j: int| 0 <= j < w && (#[trigger] s[j]).key_view() == k;
        lemma_first_upto(s, k, j)
    } else {
        w
    }
}

/// The first item of a key is one item.
proof fn lemma_first_unique<S: Key>(s: Seq<S>, x: S, y: S)
    requires
        is_first_in(s, x),
        is_first_in(s, y),
        x.key_view() == y.key_view(),
    ensures
        x == y,
{
    let i = choose|i: int| first_of_key(s, i) && #[trigger] s[i] == x;
    let j = choose|j: int| first_of_key(s, j) && #[trigger] s[j] == y;
    if i < j {
        assert(s[i].key_view() != s[j].key_view());
    }
    if j < i {
        assert(s[j].key_view() != s[i].key_view());
    }
}

/// The engine between a source and a target.
pub struct SimpleDiffTransfer<Source, Target> {
    pub source: Source,
    pub target: Target,
    pub config: SimpleDiffTransferConfig,
}

impl<Source, Target> SimpleDiffTransfer<Source, Target> {
    pub fn new(source: Source, target: Target, config: SimpleDiffTransferConfig) -> (engine: Self)
        ensures
            engine.source == source,
            engine.target == target,
            engine.config == config,
    {
        SimpleDiffTransfer { source, target, config }
    }
}

pub const ADD_MARK: &'static str = "+ ";

pub const UPDATE_MARK: &'static str = "= ";

pub const DELETE_MARK: &'static str = "- ";

/// The lines that stand for the items of one list, each the mark and the
/// key.
pub open spec fn marked_lines<S: Key>(mark: Seq<char>, items: Seq<S>) -> Seq<Seq<char>> {
    Seq::new(items.len(), |i: int| mark + items[i].key_view())
}

/// The plan as lines: what is added, what is updated and what is deleted,
/// each with its mark.
pub open spec fn plan_lines<S: Key>(add: Seq<S>, update: Seq<S>, delete: Seq<S>) -> Seq<Seq<char>> {
    marked_lines(ADD_MARK@, add) + marked_lines(UPDATE_MARK@, update) + marked_lines(
        DELETE_MARK@,
        delete,
    )
}

/// `n`, or `limit` if that is less.
pub open spec fn capped(n: int, limit: int) -> int {
    if n <= limit {
        n
    } else {
        limit
    }
}

fn push_lines<S: Key>(lines: &mut Vec<String>, mark: &str, items: &Vec<S>, limit: usize)
    requires
        old(lines)@.len() <= limit,
    ensures
        final(lines)@.len() <= limit,
        final(lines).deep_view() == (old(lines).deep_view() + marked_lines(mark@, items@)).take(
            capped((old(lines)@.len() + items@.len()) as int, limit as int),
        ),
{
    let ghost head = lines.deep_view();
    let ghost all = marked_lines(mark@, items@);
    let n: usize = items.len();
    let mut i: usize = 0;
    proof {
        assert(head.len() == lines@.len());
        assert((head + all).take(head.len() as int) =~= head);
    }
    while i < n && lines.len() < limit
        invariant
            i <= n,
            n == items@.len(),
            all == marked_lines(mark@, items@),
            head.len() + i <= limit,
            lines@.len() == head.len() + i,
            lines.deep_view() == (head + all).take(head.len() + i),
        decreases n - i,
    {
        let ghost before = lines.deep_view();
        let mut line = String::from_str(mark);
        line.append(items[i].key());
        lines.push(line);
        proof {
            assert(all[i as int] == mark@ + items@[i as int].key_view());
            assert(lines.deep_view() =~= before.push(line@));
            assert((head + all).take(head.len() + i + 1) =~= (head + all).take(
                head.len() + i,
            ).push(all[i as int]));
        }
        i += 1;
    }
    proof {
        assert(lines.deep_view().len() == lines@.len());
    }
}

impl<S: Key> TransferPlan<S> {
    /// The first `limit` lines of the plan, for the eyes of the operator.
    pub fn preview(&self, limit: usize) -> (lines: Vec<String>)
        ensures
            lines.deep_view() == plan_lines(self.add@, self.update@, self.delete@).take(
                capped(plan_lines(self.add@, self.update@, self.delete@).len() as int, limit as int),
            ),
    {
        let mut lines: Vec<String> = Vec::new();
        let ghost a = marked_lines(ADD_MARK@, self.add@);
        let ghost u = marked_lines(UPDATE_MARK@, self.update@);
        let ghost d = marked_lines(DELETE_MARK@, self.delete@);
        proof {
            assert(lines.deep_view() =~= Seq::<Seq<char>>::empty());
        }
        push_lines(&mut lines, ADD_MARK, &self.add, limit);
        let ghost l1 = lines.deep_view();
        proof {
            assert(Seq::<Seq<char>>::empty() + a =~= a);
            assert(l1.len() == lines@.len());
        }
        push_lines(&mut lines, UPDATE_MARK, &self.update, limit);
        let ghost l2 = lines.deep_view();
        proof {
            assert(l2.len() == lines@.len());
        }
        push_lines(&mut lines, DELETE_MARK, &self.delete, limit);
        proof {
            let all = a + u + d;
            let l3 = lines.deep_view();
            if a.len() <= limit {
                assert(l1 =~= a);
                if a.len() + u.len() <= limit {
                    assert(l2 =~= a + u);
                } else {
                    assert(l2 =~= (a + u).take(limit as int));
                    assert(l2.len() == limit);
                    assert(l3 =~= l2);
                    assert(l2 =~= all.take(limit as int));
                }
            } else {
                assert(l1 =~= a.take(limit as int));
                assert(l1.len() == limit);
                assert(l2 =~= l1);
                assert(l3 =~= l1);
                assert(l1 =~= all.take(limit as int));
            }
        }
        lines
    }
}

} // verus!
