use vstd::prelude::*;

use crate::metric::{BasicMetric, Metric, MAX_DURATION_NANOS};

verus! {

/// Collects raw metrics into a compact, mergeable representation.
///
/// An aggregate describes itself mathematically through its spec functions:
/// `empty` is the value `new` builds, `consumed` is the value after one metric
/// has been incorporated, `merged` the value after another aggregate has been
/// combined into it. `can_consume` and `can_merge` say when those operations
/// stay inside the aggregate's bounds.
///
/// Every implementation proves that merging is commutative and associative,
/// so worker-local aggregates may be combined in any order.
pub trait Aggregate: PartialOrd + PartialEq + Send + Sync + std::fmt::Debug + Clone + Sized {
    /// The metric type this aggregate summarizes.
    type Metric: Metric;

    spec fn empty() -> Self;

    spec fn can_consume(&self, metric: &Self::Metric) -> bool;

    spec fn consumed(&self, metric: &Self::Metric) -> Self;

    spec fn can_merge(&self, other: &Self) -> bool;

    spec fn merged(&self, other: &Self) -> Self;

    /// The aggregate obtained from `self` by consuming `metrics` in order.
    spec fn consume_all(&self, metrics: Seq<Self::Metric>) -> Self;

    /// Consuming no metric leaves an aggregate unchanged.
    proof fn lemma_consume_all_empty(agg: Self)
        ensures
            agg.consume_all(Seq::empty()) == agg,
    ;

    /// Consuming one more metric is consuming the prefix, then that metric.
    proof fn lemma_consume_all_push(agg: Self, metrics: Seq<Self::Metric>, metric: Self::Metric)
        ensures
            agg.consume_all(metrics.push(metric)) == agg.consume_all(metrics).consumed(&metric),
    ;

    /// Creates a new, empty aggregate.
    fn new() -> (agg: Self)
        ensures
            agg == Self::empty(),
    ;

    /// Incorporates every metric of the slice, in order.
    fn aggregate(&mut self, metrics: &[Self::Metric])
        requires
            forall|i: int|
                0 <= i < metrics@.len() ==> #[trigger] old(self).consume_all(
                    metrics@.take(i),
                ).can_consume(&metrics@[i]),
        ensures
            *final(self) == old(self).consume_all(metrics@),
    {
        let n = metrics.len();
        let mut i: usize = 0;
        proof {
            assert(metrics@.take(0) =~= Seq::<Self::Metric>::empty());
            Self::lemma_consume_all_empty(*old(self));
        }
        while i < n
            invariant
                n == metrics@.len(),
                0 <= i <= n,
                forall|j: int|
                    0 <= j < metrics@.len() ==> #[trigger] old(self).consume_all(
                        metrics@.take(j),
                    ).can_consume(&metrics@[j]),
                *self == old(self).consume_all(metrics@.take(i as int)),
            decreases n - i,
        {
            proof {
                assert(metrics@.take(i as int + 1) =~= metrics@.take(i as int).push(metrics@[i as int]));
                Self::lemma_consume_all_push(*old(self), metrics@.take(i as int), metrics@[i as int]);
            }
            self.consume(&metrics[i]);
            i = i + 1;
        }
        proof {
            assert(metrics@.take(n as int) =~= metrics@);
        }
    }

    /// Incorporates a single metric.
    fn consume(&mut self, metric: &Self::Metric)
        requires
            old(self).can_consume(metric),
        ensures
            *final(self) == old(self).consumed(metric),
    ;

    /// Whether `metric` can be consumed without leaving the aggregate's bounds.
    fn can_take(&self, metric: &Self::Metric) -> (ok: bool)
        ensures
            ok == self.can_consume(metric),
    ;

    /// Whether `other` can be merged in without leaving the aggregate's bounds.
    fn can_merge_with(&self, other: &Self) -> (ok: bool)
        ensures
            ok == self.can_merge(other),
    ;

    /// Combines another aggregate into this one.
    fn merge(&mut self, other: Self)
        requires
            old(self).can_merge(&other),
        ensures
            *final(self) == old(self).merged(&other),
    ;

    /// Merging is commutative.
    proof fn lemma_merge_commutative(a: Self, b: Self)
        requires
            a.can_merge(&b),
        ensures
            b.can_merge(&a),
            a.merged(&b) == b.merged(&a),
    ;

    /// Merging is associative.
    proof fn lemma_merge_associative(a: Self, b: Self, c: Self)
        requires
            a.can_merge(&b),
            a.merged(&b).can_merge(&c),
        ensures
            b.can_merge(&c),
            a.can_merge(&b.merged(&c)),
            a.merged(&b).merged(&c) == a.merged(&b.merged(&c)),
    ;
}

/// Every step of consuming `metrics` into `agg`, in order, stays inside the bounds.
pub open spec fn can_consume_all<A: Aggregate>(agg: A, metrics: Seq<A::Metric>) -> bool {
    forall|i: int|
        0 <= i < metrics.len() ==> #[trigger] agg.consume_all(metrics.take(i)).can_consume(
            &metrics[i],
        )
}

/// Consuming `first` and then `second` is consuming their concatenation.
pub proof fn lemma_consume_all_concat<A: Aggregate>(agg: A, first: Seq<A::Metric>, second: Seq<A::Metric>)
    ensures
        agg.consume_all(first).consume_all(second) == agg.consume_all(first + second),
    decreases second.len(),
{
    if second.len() == 0 {
        A::lemma_consume_all_empty(agg.consume_all(first));
        assert(second =~= Seq::<A::Metric>::empty());
        assert(first + second =~= first);
    } else {
        let d = second.drop_last();
        let m = second.last();
        lemma_consume_all_concat(agg, first, d);
        assert(second =~= d.push(m));
        assert(first + second =~= (first + d).push(m));
        A::lemma_consume_all_push(agg.consume_all(first), d, m);
        A::lemma_consume_all_push(agg, first + d, m);
    }
}

/// Consuming one more metric: the sequence `metrics.push(last)` can be
/// consumed exactly when `metrics` can and the result can take `last`.
pub proof fn lemma_can_consume_all_push<A: Aggregate>(agg: A, metrics: Seq<A::Metric>, last: A::Metric)
    ensures
        can_consume_all(agg, metrics.push(last)) <==> (can_consume_all(agg, metrics) && agg.consume_all(
            metrics,
        ).can_consume(&last)),
{
    let s = metrics.push(last);
    assert(s.take(metrics.len() as int) =~= metrics);
    if can_consume_all(agg, s) {
        assert forall|i: int| 0 <= i < metrics.len() implies #[trigger] agg.consume_all(
            metrics.take(i),
        ).can_consume(&metrics[i]) by {
            assert(s.take(i) =~= metrics.take(i));
            assert(agg.consume_all(s.take(i)).can_consume(&s[i]));
        }
        assert(agg.consume_all(s.take(metrics.len() as int)).can_consume(&s[metrics.len() as int]));
    }
    if can_consume_all(agg, metrics) && agg.consume_all(metrics).can_consume(&last) {
        assert forall|i: int| 0 <= i < s.len() implies #[trigger] agg.consume_all(s.take(i)).can_consume(
            &s[i],
        ) by {
            if i < metrics.len() {
                assert(s.take(i) =~= metrics.take(i));
            }
        }
    }
}

/// Aggregating `first` and then `second` is allowed exactly when aggregating
/// their concatenation is, and gives the same aggregate; aggregating nothing
/// changes nothing.
pub proof fn lemma_aggregate_concat<A: Aggregate>(agg: A, first: Seq<A::Metric>, second: Seq<A::Metric>)
    ensures
        can_consume_all(agg, first + second) <==> (can_consume_all(agg, first) && can_consume_all(
            agg.consume_all(first),
            second,
        )),
        agg.consume_all(first).consume_all(second) == agg.consume_all(first + second),
        can_consume_all(agg, Seq::empty()),
        agg.consume_all(Seq::empty()) == agg,
    decreases second.len(),
{
    lemma_consume_all_concat(agg, first, second);
    A::lemma_consume_all_empty(agg);
    if second.len() == 0 {
        assert(first + second =~= first);
        A::lemma_consume_all_empty(agg.consume_all(first));
        assert(second =~= Seq::<A::Metric>::empty());
    } else {
        let d = second.drop_last();
        let m = second.last();
        lemma_aggregate_concat(agg, first, d);
        assert(second =~= d.push(m));
        assert(first + second =~= (first + d).push(m));
        lemma_can_consume_all_push(agg, first + d, m);
        lemma_can_consume_all_push(agg.consume_all(first), d, m);
        lemma_consume_all_concat(agg, first, d);
    }
}

/// The aggregate obtained from `agg` by merging `aggs` into it, in order.
pub open spec fn merge_fold<A: Aggregate>(agg: A, aggs: Seq<A>) -> A
    decreases aggs.len(),
{
    if aggs.len() == 0 {
        agg
    } else {
        merge_fold(agg, aggs.drop_last()).merged(&aggs.last())
    }
}

/// Every step of merging `aggs` into `agg`, in order, stays inside the bounds.
pub open spec fn can_merge_fold<A: Aggregate>(agg: A, aggs: Seq<A>) -> bool {
    forall|i: int| 0 <= i < aggs.len() ==> #[trigger] merge_fold(agg, aggs.take(i)).can_merge(&aggs[i])
}

/// Combines worker-local aggregates into one: a new aggregate into which
/// every aggregate of `aggs` is merged, in order.
pub fn merge_all<A: Aggregate>(aggs: Vec<A>) -> (total: A)
    requires
        can_merge_fold(A::empty(), aggs@),
    ensures
        total == merge_fold(A::empty(), aggs@),
{
    let n: usize = aggs.len();
    let ghost all = aggs@;
    let mut total = A::new();
    let mut rest = aggs;
    let mut i: usize = 0;
    proof {
        assert(all.take(0) =~= Seq::<A>::empty());
    }
    while rest.len() > 0
        invariant
            0 <= i <= all.len(),
            all.len() == n,
            rest@ =~= all.skip(i as int),
            can_merge_fold(A::empty(), all),
            total == merge_fold(A::empty(), all.take(i as int)),
        decreases rest.len(),
    {
        let agg = rest.remove(0);
        proof {
            assert(agg == all[i as int]);
            assert(all.take(i as int + 1).drop_last() =~= all.take(i as int));
            assert(merge_fold(A::empty(), all.take(i as int)).can_merge(&all[i as int]));
        }
        total.merge(agg);
        i = i + 1;
    }
    proof {
        assert(all.take(i as int) =~= all);
    }
    total
}

/// Like `merge_all`, but `None` instead of leaving the aggregate's bounds:
/// `Some` exactly when every merge in order stays inside them.
pub fn checked_merge_all<A: Aggregate>(aggs: Vec<A>) -> (total: Option<A>)
    ensures
        total is Some <==> can_merge_fold(A::empty(), aggs@),
        total matches Some(t) ==> t == merge_fold(A::empty(), aggs@),
{
    let n: usize = aggs.len();
    let ghost all = aggs@;
    let mut total = A::new();
    let mut rest = aggs;
    let mut i: usize = 0;
    proof {
        assert(all.take(0) =~= Seq::<A>::empty());
    }
    while rest.len() > 0
        invariant
            0 <= i <= all.len(),
            all.len() == n,
            rest@ =~= all.skip(i as int),
            all == aggs@,
            can_merge_fold(A::empty(), all.take(i as int)),
            total == merge_fold(A::empty(), all.take(i as int)),
        decreases rest.len(),
    {
        proof {
            assert(i < all.len());
        }
        let agg = rest.remove(0);
        proof {
            assert(agg == all[i as int]);
            assert(all.take(i as int + 1) =~= all.take(i as int).push(agg));
            lemma_merge_fold_push(A::empty(), all.take(i as int), agg);
        }
        if !total.can_merge_with(&agg) {
            proof {
                assert(all == aggs@);
                if can_merge_fold(A::empty(), all) {
                    assert(merge_fold(A::empty(), all.take(i as int)).can_merge(&all[i as int]));
                }
            }
            return None;
        }
        total.merge(agg);
        i = i + 1;
    }
    proof {
        assert(all.take(i as int) =~= all);
    }
    Some(total)
}

/// Merging one more aggregate: the fold over `aggs.push(last)` is defined
/// exactly when the fold over `aggs` is and can take `last`.
pub proof fn lemma_merge_fold_push<A: Aggregate>(agg: A, aggs: Seq<A>, last: A)
    ensures
        can_merge_fold(agg, aggs.push(last)) <==> (can_merge_fold(agg, aggs) && merge_fold(
            agg,
            aggs,
        ).can_merge(&last)),
        merge_fold(agg, aggs.push(last)) == merge_fold(agg, aggs).merged(&last),
{
    let s = aggs.push(last);
    assert(s.drop_last() =~= aggs);
    assert(s.take(aggs.len() as int) =~= aggs);
    if can_merge_fold(agg, s) {
        assert forall|i: int| 0 <= i < aggs.len() implies #[trigger] merge_fold(
            agg,
            aggs.take(i),
        ).can_merge(&aggs[i]) by {
            assert(s.take(i) =~= aggs.take(i));
            assert(merge_fold(agg, s.take(i)).can_merge(&s[i]));
        }
        assert(merge_fold(agg, s.take(aggs.len() as int)).can_merge(&s[aggs.len() as int]));
    }
    if can_merge_fold(agg, aggs) && merge_fold(agg, aggs).can_merge(&last) {
        assert forall|i: int| 0 <= i < s.len() implies #[trigger] merge_fold(agg, s.take(i)).can_merge(
            &s[i],
        ) by {
            if i < aggs.len() {
                assert(s.take(i) =~= aggs.take(i));
            }
        }
    }
}

/// Associativity read from right to left: it follows from commutativity and
/// associativity read from left to right.
pub proof fn lemma_merge_reassociate<A: Aggregate>(a: A, b: A, c: A)
    requires
        b.can_merge(&c),
        a.can_merge(&b.merged(&c)),
    ensures
        a.can_merge(&b),
        a.merged(&b).can_merge(&c),
        a.merged(&b).merged(&c) == a.merged(&b.merged(&c)),
{
    let bc = b.merged(&c);
    A::lemma_merge_commutative(a, bc);
    A::lemma_merge_associative(b, c, a);
    let ca = c.merged(&a);
    A::lemma_merge_commutative(b, ca);
    A::lemma_merge_associative(c, a, b);
    let ab = a.merged(&b);
    A::lemma_merge_commutative(c, ab);
}

/// Merging `x` somewhere in the middle of a sequence gives the same as
/// merging it after all the others.
proof fn lemma_merge_fold_insert<A: Aggregate>(agg: A, before: Seq<A>, x: A, after: Seq<A>)
    requires
        can_merge_fold(agg, before + after),
        merge_fold(agg, before + after).can_merge(&x),
    ensures
        can_merge_fold(agg, before.push(x) + after),
        merge_fold(agg, before.push(x) + after) == merge_fold(agg, before + after).merged(&x),
    decreases after.len(),
{
    if after.len() == 0 {
        assert(before + after =~= before);
        assert(before.push(x) + after =~= before.push(x));
        lemma_merge_fold_push(agg, before, x);
    } else {
        let rest = after.drop_last();
        let y = after.last();
        assert(before + after =~= (before + rest).push(y));
        assert(before.push(x) + after =~= (before.push(x) + rest).push(y));
        lemma_merge_fold_push(agg, before + rest, y);
        let f = merge_fold(agg, before + rest);
        A::lemma_merge_associative(f, y, x);
        A::lemma_merge_commutative(y, x);
        lemma_merge_reassociate(f, x, y);
        lemma_merge_fold_insert(agg, before, x, rest);
        lemma_merge_fold_push(agg, before.push(x) + rest, y);
    }
}

/// The result of merging aggregates does not depend on their order: any
/// reordering of the same aggregates can be merged too, with the same result.
/// This holds for every aggregate, as a consequence of merging being
/// commutative and associative.
pub proof fn lemma_merge_order_independent<A: Aggregate>(agg: A, aggs: Seq<A>, reordered: Seq<A>)
    requires
        aggs.to_multiset() == reordered.to_multiset(),
        can_merge_fold(agg, aggs),
    ensures
        can_merge_fold(agg, reordered),
        merge_fold(agg, reordered) == merge_fold(agg, aggs),
    decreases aggs.len(),
{
    broadcast use vstd::seq_lib::to_multiset_len;
    broadcast use vstd::seq_lib::to_multiset_contains;
    broadcast use vstd::seq_lib::to_multiset_remove;

    assert(aggs.to_multiset().len() == aggs.len());
    assert(reordered.to_multiset().len() == reordered.len());
    if aggs.len() == 0 {
        assert(reordered.len() == 0);
        assert(reordered =~= aggs);
    } else {
        let n = aggs.len() - 1;
        let x = aggs[n];
        let d = aggs.drop_last();
        assert(aggs.contains(x));
        assert(aggs.to_multiset().count(x) > 0);
        assert(reordered.to_multiset().count(x) > 0);
        assert(reordered.contains(x));
        let j = choose|j: int| 0 <= j < reordered.len() && reordered[j] == x;
        let before = reordered.take(j);
        let after = reordered.skip(j + 1);
        assert(reordered =~= before.push(x) + after);
        assert(reordered.remove(j) =~= before + after);
        assert(aggs.remove(n) =~= d);
        assert(d.to_multiset() == aggs.to_multiset().remove(x));
        assert((before + after).to_multiset() == reordered.to_multiset().remove(x));
        assert(aggs =~= d.push(x));
        lemma_merge_fold_push(agg, d, x);
        lemma_merge_order_independent(agg, d, before + after);
        lemma_merge_fold_insert(agg, before, x, after);
    }
}

/// Sum of `f` over the elements of `s`.
pub open spec fn sum_by<T>(s: Seq<T>, f: spec_fn(T) -> int) -> int
    decreases s.len(),
{
    if s.len() == 0 {
        0
    } else {
        sum_by(s.drop_last(), f) + f(s.last())
    }
}

pub proof fn lemma_sum_by_append<T>(a: Seq<T>, b: Seq<T>, f: spec_fn(T) -> int)
    ensures
        sum_by(a + b, f) == sum_by(a, f) + sum_by(b, f),
    decreases b.len(),
{
    if b.len() == 0 {
        assert(a + b =~= a);
    } else {
        lemma_sum_by_append(a, b.drop_last(), f);
        assert((a + b).drop_last() =~= a + b.drop_last());
    }
}

pub proof fn lemma_sum_by_nonneg<T>(s: Seq<T>, f: spec_fn(T) -> int)
    requires
        forall|x: T| #[trigger] f(x) >= 0,
    ensures
        sum_by(s, f) >= 0,
    decreases s.len(),
{
    if s.len() > 0 {
        lemma_sum_by_nonneg(s.drop_last(), f);
    }
}

/// The default built-in aggregate: sums of latency, successes and bytes, and
/// the number of samples recorded.
///
/// `total_latency` is a span of time in nanoseconds; like the `Duration` it
/// stands for, it never exceeds `MAX_DURATION_NANOS`.
#[derive(Clone, Copy, Debug, PartialEq, Eq, PartialOrd, Default)]
pub struct BasicAggregate {
    pub total_latency: u128,
    pub success_count: usize,
    pub total_bytes: usize,
    pub count: usize,
}

/// 1 for a successful metric, 0 otherwise.
pub open spec fn success_value(metric: BasicMetric) -> int {
    if metric.success {
        1
    } else {
        0
    }
}

impl Aggregate for BasicAggregate {
    type Metric = BasicMetric;

    open spec fn empty() -> Self {
        BasicAggregate { total_latency: 0, success_count: 0, total_bytes: 0, count: 0 }
    }

    open spec fn can_consume(&self, metric: &BasicMetric) -> bool {
        &&& self.total_latency + metric.latency <= MAX_DURATION_NANOS
        &&& self.success_count + success_value(*metric) <= usize::MAX
        &&& self.total_bytes + metric.bytes <= usize::MAX
        &&& self.count + 1 <= usize::MAX
    }

    open spec fn consumed(&self, metric: &BasicMetric) -> Self {
        BasicAggregate {
            total_latency: (self.total_latency + metric.latency) as u128,
            success_count: (self.success_count + success_value(*metric)) as usize,
            total_bytes: (self.total_bytes + metric.bytes) as usize,
            count: (self.count + 1) as usize,
        }
    }

    open spec fn can_merge(&self, other: &Self) -> bool {
        &&& self.total_latency + other.total_latency <= MAX_DURATION_NANOS
        &&& self.success_count + other.success_count <= usize::MAX
        &&& self.total_bytes + other.total_bytes <= usize::MAX
        &&& self.count + other.count <= usize::MAX
    }

    open spec fn merged(&self, other: &Self) -> Self {
        BasicAggregate {
            total_latency: (self.total_latency + other.total_latency) as u128,
            success_count: (self.success_count + other.success_count) as usize,
            total_bytes: (self.total_bytes + other.total_bytes) as usize,
            count: (self.count + other.count) as usize,
        }
    }

    open spec fn consume_all(&self, metrics: Seq<BasicMetric>) -> Self {
        metrics.fold_left(*self, |acc: Self, m: BasicMetric| acc.consumed(&m))
    }

    proof fn lemma_consume_all_empty(agg: Self) {
    }

    proof fn lemma_consume_all_push(agg: Self, metrics: Seq<BasicMetric>, metric: BasicMetric) {
        assert(metrics.push(metric).drop_last() =~= metrics);
    }

    fn new() -> (agg: Self) {
        BasicAggregate { total_latency: 0, success_count: 0, total_bytes: 0, count: 0 }
    }

    fn consume(&mut self, metric: &BasicMetric) {
        self.total_latency = self.total_latency + metric.latency;
        self.success_count = self.success_count + if metric.success {
            1
        } else {
            0
        };
        self.total_bytes = self.total_bytes + metric.bytes;
        self.count = self.count + 1;
    }

    fn can_take(&self, metric: &BasicMetric) -> (ok: bool) {
        let success: usize = if metric.success {
            1
        } else {
            0
        };
        self.total_latency <= MAX_DURATION_NANOS && metric.latency <= MAX_DURATION_NANOS
            - self.total_latency && self.success_count <= usize::MAX - success && self.total_bytes
            <= usize::MAX - metric.bytes && self.count < usize::MAX
    }

    fn can_merge_with(&self, other: &Self) -> (ok: bool) {
        self.total_latency <= MAX_DURATION_NANOS && other.total_latency <= MAX_DURATION_NANOS
            - self.total_latency && self.success_count <= usize::MAX - other.success_count
            && self.total_bytes <= usize::MAX - other.total_bytes && self.count <= usize::MAX
            - other.count
    }

    fn merge(&mut self, other: Self) {
        self.total_latency = self.total_latency + other.total_latency;
        self.success_count = self.success_count + other.success_count;
        self.total_bytes = self.total_bytes + other.total_bytes;
        self.count = self.count + other.count;
    }

    proof fn lemma_merge_commutative(a: Self, b: Self) {
    }

    proof fn lemma_merge_associative(a: Self, b: Self, c: Self) {
    }
}

/// Field selectors of `BasicMetric`, as integers.
spec fn metric_latency() -> spec_fn(BasicMetric) -> int {
    |m: BasicMetric| m.latency as int
}

spec fn metric_success() -> spec_fn(BasicMetric) -> int {
    |m: BasicMetric| success_value(m)
}

spec fn metric_bytes() -> spec_fn(BasicMetric) -> int {
    |m: BasicMetric| m.bytes as int
}

spec fn metric_one() -> spec_fn(BasicMetric) -> int {
    |m: BasicMetric| 1int
}

/// `a` plus the given totals stays inside the bounds of a `BasicAggregate`.
spec fn totals_fit(a: BasicAggregate, latency: int, successes: int, bytes: int, count: int) -> bool {
    &&& a.total_latency + latency <= MAX_DURATION_NANOS
    &&& a.success_count + successes <= usize::MAX
    &&& a.total_bytes + bytes <= usize::MAX
    &&& a.count + count <= usize::MAX
}

/// `a` plus the given totals, field by field.
spec fn with_totals(a: BasicAggregate, latency: int, successes: int, bytes: int, count: int) -> BasicAggregate {
    BasicAggregate {
        total_latency: (a.total_latency + latency) as u128,
        success_count: (a.success_count + successes) as usize,
        total_bytes: (a.total_bytes + bytes) as usize,
        count: (a.count + count) as usize,
    }
}

spec fn consume_fits(a: BasicAggregate, metrics: Seq<BasicMetric>) -> bool {
    totals_fit(
        a,
        sum_by(metrics, metric_latency()),
        sum_by(metrics, metric_success()),
        sum_by(metrics, metric_bytes()),
        sum_by(metrics, metric_one()),
    )
}

spec fn consume_sum(a: BasicAggregate, metrics: Seq<BasicMetric>) -> BasicAggregate {
    with_totals(
        a,
        sum_by(metrics, metric_latency()),
        sum_by(metrics, metric_success()),
        sum_by(metrics, metric_bytes()),
        sum_by(metrics, metric_one()),
    )
}

proof fn lemma_sum_by_fields_nonneg(metrics: Seq<BasicMetric>)
    ensures
        sum_by(metrics, metric_latency()) >= 0,
        sum_by(metrics, metric_success()) >= 0,
        sum_by(metrics, metric_bytes()) >= 0,
        sum_by(metrics, metric_one()) >= 0,
{
    lemma_sum_by_nonneg(metrics, metric_latency());
    lemma_sum_by_nonneg(metrics, metric_success());
    lemma_sum_by_nonneg(metrics, metric_bytes());
    lemma_sum_by_nonneg(metrics, metric_one());
}

/// Consuming a sequence of basic metrics adds up their fields.
proof fn lemma_consume_all_closed(a: BasicAggregate, metrics: Seq<BasicMetric>)
    requires
        consume_fits(a, metrics),
    ensures
        can_consume_all(a, metrics),
        a.consume_all(metrics) == consume_sum(a, metrics),
    decreases metrics.len(),
{
    if metrics.len() == 0 {
        BasicAggregate::lemma_consume_all_empty(a);
    } else {
        let d = metrics.drop_last();
        lemma_sum_by_fields_nonneg(d);
        lemma_consume_all_closed(a, d);
        assert(metrics =~= d.push(metrics.last()));
        BasicAggregate::lemma_consume_all_push(a, d, metrics.last());
        assert forall|i: int| 0 <= i < metrics.len() implies #[trigger] a.consume_all(
            metrics.take(i),
        ).can_consume(&metrics[i]) by {
            if i < metrics.len() - 1 {
                assert(metrics.take(i) =~= d.take(i));
                assert(a.consume_all(d.take(i)).can_consume(&d[i]));
            } else {
                assert(metrics.take(i) =~= d);
            }
        }
    }
}

/// A sequence of basic metrics can be consumed in order exactly when the sums
/// of its fields fit.
proof fn lemma_consume_all_fits(a: BasicAggregate, metrics: Seq<BasicMetric>)
    requires
        a.total_latency <= MAX_DURATION_NANOS,
        can_consume_all(a, metrics),
    ensures
        consume_fits(a, metrics),
    decreases metrics.len(),
{
    if metrics.len() > 0 {
        let d = metrics.drop_last();
        assert forall|i: int| 0 <= i < d.len() implies #[trigger] a.consume_all(d.take(i)).can_consume(
            &d[i],
        ) by {
            assert(metrics.take(i) =~= d.take(i));
            assert(a.consume_all(metrics.take(i)).can_consume(&metrics[i]));
        }
        lemma_consume_all_fits(a, d);
        lemma_consume_all_closed(a, d);
        assert(metrics.take(metrics.len() - 1) =~= d);
        assert(a.consume_all(metrics.take(metrics.len() - 1)).can_consume(&metrics[metrics.len() - 1]));
    }
}

/// Consuming a basic metric counts one more sample and adds its latency, its
/// success and its bytes to the totals.
pub proof fn lemma_basic_consume_adds(a: BasicAggregate, metric: BasicMetric)
    requires
        a.can_consume(&metric),
    ensures
        a.consumed(&metric).count == a.count + 1,
        a.consumed(&metric).total_latency == a.total_latency + metric.latency,
        a.consumed(&metric).success_count == a.success_count + (if metric.success {
            1int
        } else {
            0int
        }),
        a.consumed(&metric).total_bytes == a.total_bytes + metric.bytes,
{
}

/// Merging basic aggregates adds up each of their fields.
pub proof fn lemma_basic_merge_adds(a: BasicAggregate, b: BasicAggregate)
    requires
        a.can_merge(&b),
    ensures
        a.merged(&b).count == a.count + b.count,
        a.merged(&b).total_latency == a.total_latency + b.total_latency,
        a.merged(&b).success_count == a.success_count + b.success_count,
        a.merged(&b).total_bytes == a.total_bytes + b.total_bytes,
{
}

proof fn lemma_sum_by_one(metrics: Seq<BasicMetric>)
    ensures
        sum_by(metrics, metric_one()) == metrics.len(),
    decreases metrics.len(),
{
    if metrics.len() > 0 {
        lemma_sum_by_one(metrics.drop_last());
    }
}

/// Aggregating a stream of metrics from empty counts every metric of it.
pub proof fn lemma_basic_counts_every_metric(metrics: Seq<BasicMetric>)
    requires
        can_consume_all(BasicAggregate::empty(), metrics),
    ensures
        BasicAggregate::empty().consume_all(metrics).count == metrics.len(),
        BasicAggregate::empty().consume_all(metrics).success_count <= metrics.len(),
{
    let e = BasicAggregate::empty();
    lemma_consume_all_fits(e, metrics);
    lemma_consume_all_closed(e, metrics);
    lemma_sum_by_fields_nonneg(metrics);
    lemma_sum_by_one(metrics);
    lemma_sum_by_success_le_len(metrics);
}

proof fn lemma_sum_by_success_le_len(metrics: Seq<BasicMetric>)
    ensures
        sum_by(metrics, metric_success()) <= metrics.len(),
    decreases metrics.len(),
{
    if metrics.len() > 0 {
        lemma_sum_by_success_le_len(metrics.drop_last());
    }
}

/// The empty basic aggregate is an identity for merging, on either side.
pub proof fn lemma_basic_merge_identity(a: BasicAggregate)
    requires
        a.total_latency <= MAX_DURATION_NANOS,
    ensures
        BasicAggregate::empty().can_merge(&a),
        BasicAggregate::empty().merged(&a) == a,
        a.can_merge(&BasicAggregate::empty()),
        a.merged(&BasicAggregate::empty()) == a,
{
}

/// Splitting a stream of metrics between two aggregates that start empty, and
/// merging them afterwards, gives the aggregate of the whole stream.
pub proof fn lemma_basic_split_consumption(first: Seq<BasicMetric>, second: Seq<BasicMetric>)
    requires
        can_consume_all(BasicAggregate::empty(), first + second),
    ensures
        can_consume_all(BasicAggregate::empty(), first),
        can_consume_all(BasicAggregate::empty(), second),
        BasicAggregate::empty().consume_all(first).can_merge(
            &BasicAggregate::empty().consume_all(second),
        ),
        BasicAggregate::empty().consume_all(first).merged(
            &BasicAggregate::empty().consume_all(second),
        ) == BasicAggregate::empty().consume_all(first + second),
{
    let e = BasicAggregate::empty();
    lemma_consume_all_fits(e, first + second);
    lemma_sum_by_append(first, second, metric_latency());
    lemma_sum_by_append(first, second, metric_success());
    lemma_sum_by_append(first, second, metric_bytes());
    lemma_sum_by_append(first, second, metric_one());
    lemma_sum_by_fields_nonneg(first);
    lemma_sum_by_fields_nonneg(second);
    lemma_consume_all_closed(e, first);
    lemma_consume_all_closed(e, second);
    lemma_consume_all_closed(e, first + second);
}

} // verus!
