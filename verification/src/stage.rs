use vstd::prelude::*;

verus! {

/// A stage of a load test: over `duration` nanoseconds the request rate moves
/// to `target` (requests per second). A stage of zero duration jumps to its
/// target at once.
///
/// The rate is a type parameter: the library only carries rates from stage to
/// stage, the executors compute with them.
#[derive(Clone, Copy, Debug)]
pub struct Stage<R> {
    pub duration: u128,
    pub target: R,
}

impl<R> Stage<R> {
    /// A stage that ramps to `target` over `duration` nanoseconds.
    pub fn new(duration: u128, target: R) -> (s: Self)
        ensures
            s.duration == duration,
            s.target == target,
    {
        Stage { duration, target }
    }
}

/// The rate in force when stage `i` begins: the target of the stage before
/// it, or `initial` for the first stage.
pub open spec fn rate_before<R>(stages: Seq<Stage<R>>, initial: R, i: int) -> R {
    if i <= 0 {
        initial
    } else {
        stages[i - 1].target
    }
}

/// One ramp of the governor: over `duration` nanoseconds the rate moves
/// linearly from `start_rate` to `end_rate`.
#[derive(Clone, Copy, Debug)]
pub struct Ramp<R> {
    pub duration: u128,
    pub start_rate: R,
    pub end_rate: R,
}

/// The stage-walking decisions of the token governor: it goes through the
/// stages in order, jumps at once to the target of a stage of zero duration,
/// and ramps over every other stage from the rate in force to the stage's
/// target, so that each stage starts where the previous one ended.
pub struct Governor<R> {
    stages: Vec<Stage<R>>,
    next: usize,
    rate: R,
    initial: Ghost<R>,
}

impl<R: Copy> Governor<R> {
    /// The stages the governor walks.
    pub closed spec fn stages(&self) -> Seq<Stage<R>> {
        self.stages@
    }

    /// The index of the first stage not yet handed out.
    pub closed spec fn next_stage(&self) -> int {
        self.next as int
    }

    /// The rate the governor started from.
    pub closed spec fn initial_rate(&self) -> R {
        self.initial@
    }

    /// The rate in force.
    pub closed spec fn rate(&self) -> R {
        self.rate
    }

    /// The rate in force is the target of the last stage walked.
    pub closed spec fn wf(&self) -> bool {
        &&& self.next <= self.stages@.len()
        &&& self.rate == rate_before(self.stages@, self.initial@, self.next as int)
    }

    /// A governor about to walk `stages`, starting from `initial_rate`.
    pub fn new(stages: Vec<Stage<R>>, initial_rate: R) -> (g: Self)
        ensures
            g.wf(),
            g.stages() == stages@,
            g.next_stage() == 0,
            g.initial_rate() == initial_rate,
            g.rate() == initial_rate,
            g.rate() == rate_before(g.stages(), g.initial_rate(), g.next_stage()),
    {
        Governor { stages, next: 0, rate: initial_rate, initial: Ghost(initial_rate) }
    }

    /// The rate currently in force.
    pub fn current_rate(&self) -> (r: R)
        ensures
            r == self.rate(),
    {
        self.rate
    }

    /// Walks to the next stage of non-zero duration and hands out its ramp,
    /// taking on the targets of the zero-duration stages passed on the way.
    /// `None` once no such stage is left.
    pub fn next_ramp(&mut self) -> (ramp: Option<Ramp<R>>)
        requires
            old(self).wf(),
        ensures
            final(self).wf(),
            final(self).stages() == old(self).stages(),
            final(self).initial_rate() == old(self).initial_rate(),
            0 <= old(self).next_stage() <= final(self).next_stage() <= old(self).stages().len(),
            final(self).rate() == rate_before(
                final(self).stages(),
                final(self).initial_rate(),
                final(self).next_stage(),
            ),
            match ramp {
                None => {
                    &&& final(self).next_stage() == old(self).stages().len()
                    &&& old(self).stages().len() > 0 ==> final(self).rate() == old(self).stages()[old(
                        self,
                    ).stages().len() - 1].target
                    &&& old(self).stages().len() == 0 ==> final(self).rate() == old(self).initial_rate()
                    &&& forall|k: int|
                        old(self).next_stage() <= k < old(self).stages().len()
                            ==> #[trigger] old(self).stages()[k].duration == 0
                },
                Some(r) => {
                    let j = final(self).next_stage() - 1;
                    &&& old(self).next_stage() <= j
                    &&& old(self).stages()[j].duration != 0
                    &&& forall|k: int|
                        old(self).next_stage() <= k < j ==> #[trigger] old(self).stages()[k].duration
                            == 0
                    &&& r.duration == old(self).stages()[j].duration
                    &&& r.start_rate == rate_before(old(self).stages(), old(self).initial_rate(), j)
                    &&& r.end_rate == old(self).stages()[j].target
                    &&& j == 0 ==> r.start_rate == old(self).initial_rate()
                    &&& j > 0 ==> r.start_rate == old(self).stages()[j - 1].target
                    &&& final(self).rate() == r.end_rate
                },
            },
    {
        let ghost start = self.next as int;
        while self.next < self.stages.len()
            invariant_except_break
                self.wf(),
                start == old(self).next,
                start <= self.next <= self.stages@.len(),
                self.stages@ == old(self).stages@,
                self.initial@ == old(self).initial@,
                forall|k: int| start <= k < self.next ==> #[trigger] self.stages@[k].duration == 0,
            ensures
                start == old(self).next,
                self.next == self.stages@.len(),
                self.wf(),
                self.stages@ == old(self).stages@,
                self.initial@ == old(self).initial@,
                forall|k: int| start <= k < self.next ==> #[trigger] self.stages@[k].duration == 0,
            decreases self.stages@.len() - self.next,
        {
            let stage = self.stages[self.next];
            if stage.duration == 0 {
                self.rate = stage.target;
                self.next = self.next + 1;
            } else {
                let handed = Ramp {
                    duration: stage.duration,
                    start_rate: self.rate,
                    end_rate: stage.target,
                };
                self.rate = stage.target;
                self.next = self.next + 1;
                return Some(handed);
            }
        }
        None
    }
}

/// Tokens the governor adds to a semaphore holding `available` permits when a
/// tick calls for `add_total`: enough to fill the bucket up to `capacity`, and
/// no more than asked for.
pub fn permits_to_add(add_total: u64, available: u64, capacity: u64) -> (add: u64)
    ensures
        add == (if add_total > 0 && available < capacity {
            if add_total <= capacity - available {
                add_total
            } else {
                (capacity - available) as u64
            }
        } else {
            0
        }),
        add <= add_total,
        add > 0 ==> available + add <= capacity,
{
    if add_total > 0 && available < capacity {
        let free_cap = capacity - available;
        if add_total <= free_cap {
            add_total
        } else {
            free_cap
        }
    } else {
        0
    }
}

/// The token count after a tick adds `add_total` tokens to `current`:
/// the sum, saturated at `u64::MAX` and capped at `capacity`.
pub fn refilled_tokens(current: u64, add_total: u64, capacity: u64) -> (tokens: u64)
    ensures
        tokens == (if current + add_total > u64::MAX {
            if u64::MAX <= capacity { u64::MAX } else { capacity }
        } else if current + add_total <= capacity {
            (current + add_total) as u64
        } else {
            capacity
        }),
        tokens <= capacity,
        current <= capacity ==> current <= tokens,
{
    let sum = current.saturating_add(add_total);
    if sum <= capacity {
        sum
    } else {
        capacity
    }
}

} // verus!
