use vstd::prelude::*;

use crate::aggregate::Aggregate;
use crate::scenario::Scenario;

verus! {

/// The phases of a load test.
#[derive(Clone, Copy, Debug, PartialEq, Eq)]
pub enum Stage {
    RampUp,
    Hold,
    RampDown,
}

/// A list of scenarios to run one after the other, and the aggregate that
/// collects the results of all of them.
pub struct Runner<A, F> {
    pub scenarios: Vec<Scenario<A, F>>,
    pub aggregator: A,
}

impl<A: Aggregate, F> Runner<A, F> {
    /// A runner with no scenario and an empty aggregate.
    pub fn new() -> (r: Self)
        ensures
            r.scenarios@ == Seq::<Scenario<A, F>>::empty(),
            r.aggregator == A::empty(),
    {
        Runner { scenarios: Vec::new(), aggregator: A::new() }
    }

    /// Appends a scenario to run, and hands the runner back for chaining.
    pub fn add_scenario(&mut self, scenario: Scenario<A, F>) -> (r: &mut Self)
        ensures
            r.scenarios@ == old(self).scenarios@.push(scenario),
            r.aggregator == old(self).aggregator,
            *final(self) == *final(r),
    {
        self.scenarios.push(scenario);
        self
    }
}

} // verus!
