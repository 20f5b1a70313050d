use vstd::prelude::*;

use std::marker::PhantomData;

verus! {

/// A workload definition: a named action, run repeatedly by an executor,
/// whose metrics are collected into aggregates of type `A`.
pub struct Scenario<A, F> {
    /// A human-readable name identifying this scenario.
    pub name: String,
    /// The operation producing the metrics to aggregate.
    pub action: F,
    /// Ties the scenario to the aggregate type that collects its metrics.
    pub aggregator: PhantomData<A>,
}

impl<A, F> Scenario<A, F> {
    /// A scenario named `name` running `action`.
    pub fn new(name: String, action: F) -> (s: Self)
        ensures
            s.name@ == name@,
            s.action == action,
    {
        Scenario { name, action, aggregator: PhantomData }
    }
}

} // verus!
