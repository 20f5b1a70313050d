use vstd::prelude::*;

use crate::aggregate::{can_consume_all, lemma_can_consume_all_push, lemma_consume_all_concat, Aggregate};

verus! {

/// What a collecting task does next.
#[derive(Clone, Copy, Debug, PartialEq, Eq)]
pub enum CollectorStep {
    /// Wait for the next metric (or for every sender to be gone).
    Receive,
    /// Take another metric if one is ready, without waiting.
    Poll,
    /// Every sender is gone: the aggregate is final.
    Finish,
}

/// The decisions of a task that receives metrics from a channel and
/// aggregates them in batches: it waits for a metric, then takes up to
/// `batch_size` metrics that are already available, aggregates the batch,
/// and starts over until the channel is closed.
///
/// The task performs the channel operations; this type decides what comes
/// next and keeps the aggregate.
pub struct Collector<A: Aggregate> {
    agg: A,
    running: A,
    batch: Vec<A::Metric>,
    batch_size: usize,
    received: Ghost<Seq<A::Metric>>,
}

impl<A: Aggregate> Collector<A> {
    /// Every metric received so far, in order.
    pub closed spec fn received(&self) -> Seq<A::Metric> {
        self.received@
    }

    /// The metrics received but not yet aggregated.
    pub closed spec fn pending(&self) -> Seq<A::Metric> {
        self.batch@
    }

    /// The largest number of metrics taken in one batch.
    pub closed spec fn max_batch(&self) -> usize {
        self.batch_size
    }

    /// The collector's internal consistency: the aggregate holds every
    /// received metric except the pending ones, which end the received
    /// sequence; the running aggregate holds every received metric.
    pub closed spec fn wf(&self) -> bool {
        let received = self.received@;
        let split = received.len() - self.batch@.len();
        &&& self.batch@.len() <= received.len()
        &&& self.batch@ =~= received.skip(split)
        &&& self.agg == A::empty().consume_all(received.take(split))
        &&& can_consume_all(A::empty(), received)
        &&& self.running == A::empty().consume_all(received)
    }

    /// A collector that has received nothing and aggregates batches of at most
    /// `batch_size` metrics.
    pub fn new(batch_size: usize) -> (c: Self)
        ensures
            c.wf(),
            c.received() == Seq::<A::Metric>::empty(),
            c.pending() == Seq::<A::Metric>::empty(),
            c.max_batch() == batch_size,
    {
        let c = Collector { agg: A::new(), running: A::new(), batch: Vec::new(), batch_size, received: Ghost(Seq::empty()) };
        proof {
            assert(c.received@.take(0) =~= Seq::<A::Metric>::empty());
            A::lemma_consume_all_empty(A::empty());
        }
        c
    }

    /// Aggregates the pending metrics and empties the batch.
    fn flush(&mut self)
        requires
            old(self).wf(),
        ensures
            final(self).wf(),
            final(self).received() == old(self).received(),
            final(self).pending() == Seq::<A::Metric>::empty(),
            final(self).max_batch() == old(self).max_batch(),
    {
        let ghost received = self.received@;
        let ghost split = received.len() - self.batch@.len();
        if self.batch.len() > 0 {
            proof {
                assert forall|i: int| 0 <= i < self.batch@.len() implies #[trigger] self.agg.consume_all(
                    self.batch@.take(i),
                ).can_consume(&self.batch@[i]) by {
                    lemma_consume_all_concat(A::empty(), received.take(split), self.batch@.take(i));
                    assert(received.take(split) + self.batch@.take(i) =~= received.take(split + i));
                    assert(self.batch@[i] == received[split + i]);
                }
                lemma_consume_all_concat(A::empty(), received.take(split), self.batch@);
                assert(received.take(split) + self.batch@ =~= received);
            }
            self.agg.aggregate(self.batch.as_slice());
            self.batch.clear();
        }
        proof {
            assert(received.take(received.len() as int) =~= received);
            assert(received.skip(received.len() as int) =~= Seq::<A::Metric>::empty());
        }
    }

    /// Records a metric and decides whether the batch is full.
    fn push(&mut self, metric: A::Metric) -> (step: CollectorStep)
        requires
            old(self).wf(),
            can_consume_all(A::empty(), old(self).received().push(metric)),
        ensures
            final(self).wf(),
            final(self).received() == old(self).received().push(metric),
            final(self).max_batch() == old(self).max_batch(),
            old(self).pending().len() + 1 < old(self).max_batch() ==> step == CollectorStep::Poll
                && final(self).pending() == old(self).pending().push(metric),
            old(self).pending().len() + 1 >= old(self).max_batch() ==> step == CollectorStep::Receive
                && final(self).pending() == Seq::<A::Metric>::empty(),
    {
        let ghost old_received = self.received@;
        let ghost split = old_received.len() - self.batch@.len();
        proof {
            lemma_can_consume_all_push(A::empty(), old_received, metric);
            A::lemma_consume_all_push(A::empty(), old_received, metric);
        }
        self.running.consume(&metric);
        self.batch.push(metric);
        proof {
            self.received@ = old_received.push(metric);
            assert(self.received@.take(split) =~= old_received.take(split));
            assert(self.batch@ =~= self.received@.skip(split));
        }
        if self.batch.len() < self.batch_size {
            CollectorStep::Poll
        } else {
            self.flush();
            CollectorStep::Receive
        }
    }

    /// Whether `metric` can be received without leaving the aggregate's bounds.
    pub fn accepts(&self, metric: &A::Metric) -> (ok: bool)
        requires
            self.wf(),
        ensures
            ok == can_consume_all(A::empty(), self.received().push(*metric)),
    {
        proof {
            lemma_can_consume_all_push(A::empty(), self.received@, *metric);
        }
        self.running.can_take(metric)
    }

    /// Handles the result of waiting on the channel: a metric, or `None` when
    /// every sender is gone.
    pub fn on_receive(&mut self, metric: Option<A::Metric>) -> (step: CollectorStep)
        requires
            old(self).wf(),
            old(self).pending().len() == 0,
            metric matches Some(m) ==> can_consume_all(A::empty(), old(self).received().push(m)),
        ensures
            final(self).wf(),
            final(self).max_batch() == old(self).max_batch(),
            match metric {
                None => step == CollectorStep::Finish && *final(self) == *old(self),
                Some(m) => {
                    &&& final(self).received() == old(self).received().push(m)
                    &&& 1 < old(self).max_batch() ==> step == CollectorStep::Poll
                        && final(self).pending() == seq![m]
                    &&& 1 >= old(self).max_batch() ==> step == CollectorStep::Receive
                        && final(self).pending() == Seq::<A::Metric>::empty()
                },
            },
    {
        match metric {
            None => CollectorStep::Finish,
            Some(m) => {
                let step = self.push(m);
                proof {
                    assert(Seq::<A::Metric>::empty().push(m) =~= seq![m]);
                }
                step
            },
        }
    }

    /// Handles the result of taking a metric without waiting: a metric, or
    /// `None` when none is ready (or every sender is gone).
    pub fn on_poll(&mut self, metric: Option<A::Metric>) -> (step: CollectorStep)
        requires
            old(self).wf(),
            metric matches Some(m) ==> can_consume_all(A::empty(), old(self).received().push(m)),
        ensures
            final(self).wf(),
            final(self).max_batch() == old(self).max_batch(),
            match metric {
                None => {
                    &&& step == CollectorStep::Receive
                    &&& final(self).received() == old(self).received()
                    &&& final(self).pending() == Seq::<A::Metric>::empty()
                },
                Some(m) => {
                    &&& final(self).received() == old(self).received().push(m)
                    &&& old(self).pending().len() + 1 < old(self).max_batch() ==> step
                        == CollectorStep::Poll && final(self).pending() == old(self).pending().push(m)
                    &&& old(self).pending().len() + 1 >= old(self).max_batch() ==> step
                        == CollectorStep::Receive && final(self).pending()
                        == Seq::<A::Metric>::empty()
                },
            },
    {
        match metric {
            None => {
                self.flush();
                CollectorStep::Receive
            },
            Some(m) => self.push(m),
        }
    }

    /// The final aggregate: every received metric consumed in the order it arrived.
    pub fn finish(self) -> (agg: A)
        requires
            self.wf(),
            self.pending().len() == 0,
        ensures
            agg == A::empty().consume_all(self.received()),
    {
        proof {
            assert(self.received@.take(self.received@.len() as int) =~= self.received@);
        }
        self.agg
    }
}

} // verus!
