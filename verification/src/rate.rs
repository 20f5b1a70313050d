use vstd::prelude::*;

use crate::aggregate::{lemma_sum_by_append, lemma_sum_by_nonneg, sum_by};
use crate::metric::MAX_DURATION_NANOS;
use crate::stage::{rate_before, Stage};

verus! {

/// The largest number of permits a refill hands out at once: a semaphore
/// reserves three bits of `usize` for its own flags.
pub const MAX_TOKENS: usize = usize::MAX >> 3;

/// A stage placed on the test's timeline: it runs from `abs_start_ns` to
/// `abs_end_ns` (nanoseconds since the start) while the rate moves from
/// `start_rate` to `end_rate`.
#[derive(Clone, Copy, Debug)]
pub struct InternalStage<R> {
    pub abs_start_ns: u64,
    pub abs_end_ns: u64,
    pub start_rate: R,
    pub end_rate: R,
}

/// A stage's duration in nanoseconds, truncated to 64 bits.
pub open spec fn stage_ns<R>() -> spec_fn(Stage<R>) -> int {
    |s: Stage<R>| (s.duration as u64) as int
}

/// A stage's duration in nanoseconds.
pub open spec fn stage_duration<R>() -> spec_fn(Stage<R>) -> int {
    |s: Stage<R>| s.duration as int
}

/// The nanosecond at which stage `i` starts on the timeline.
pub open spec fn stage_offset<R>(stages: Seq<Stage<R>>, i: int) -> int {
    sum_by(stages.take(i), stage_ns())
}

proof fn lemma_prefix_sum_step<T>(s: Seq<T>, i: int, f: spec_fn(T) -> int)
    requires
        0 <= i < s.len(),
        forall|x: T| #[trigger] f(x) >= 0,
    ensures
        sum_by(s.take(i + 1), f) == sum_by(s.take(i), f) + f(s[i]),
        sum_by(s.take(i + 1), f) <= sum_by(s, f),
{
    assert(s.take(i + 1).drop_last() =~= s.take(i));
    assert(s =~= s.take(i + 1) + s.skip(i + 1));
    lemma_sum_by_append(s.take(i + 1), s.skip(i + 1), f);
    lemma_sum_by_nonneg(s.skip(i + 1), f);
}

/// Places the stages one after another on the timeline. Each stage starts
/// where the previous one ended and starts from the previous stage's target
/// rate (`start_rate` for the first stage).
pub fn stages_to_internal<R: Copy>(stages: &[Stage<R>], start_rate: R) -> (internals: Vec<
    InternalStage<R>,
>)
    requires
        sum_by(stages@, stage_ns()) <= u64::MAX,
    ensures
        internals@.len() == stages@.len(),
        forall|i: int|
            0 <= i < stages@.len() ==> {
                &&& #[trigger] internals@[i].abs_start_ns == stage_offset(stages@, i)
                &&& internals@[i].abs_end_ns == stage_offset(stages@, i) + (stages@[i].duration as u64)
                &&& internals@[i].start_rate == rate_before(stages@, start_rate, i)
                &&& internals@[i].end_rate == stages@[i].target
                &&& internals@[i].abs_end_ns - internals@[i].abs_start_ns == (stages@[i].duration as u64)
            },
        internals@.len() > 0 ==> internals@[0].abs_start_ns == 0 && internals@[0].start_rate
            == start_rate,
        forall|i: int|
            0 <= i < internals@.len() - 1 ==> {
                &&& #[trigger] internals@[i + 1].abs_start_ns == internals@[i].abs_end_ns
                &&& internals@[i + 1].start_rate == internals@[i].end_rate
            },
{
    let n = stages.len();
    let mut internals: Vec<InternalStage<R>> = Vec::new();
    let mut last_abs_end: u64 = 0;
    let mut last_rate_end: R = start_rate;
    let mut i: usize = 0;
    proof {
        assert(stages@.take(0) =~= Seq::<Stage<R>>::empty());
    }
    while i < n
        invariant
            n == stages@.len(),
            0 <= i <= n,
            sum_by(stages@, stage_ns()) <= u64::MAX,
            internals@.len() == i,
            last_abs_end == stage_offset(stages@, i as int),
            last_rate_end == rate_before(stages@, start_rate, i as int),
            forall|j: int|
                0 <= j < i ==> {
                    &&& #[trigger] internals@[j].abs_start_ns == stage_offset(stages@, j)
                    &&& internals@[j].abs_end_ns == stage_offset(stages@, j) + (
                    stages@[j].duration as u64)
                    &&& internals@[j].start_rate == rate_before(stages@, start_rate, j)
                    &&& internals@[j].end_rate == stages@[j].target
                },
        decreases n - i,
    {
        let s = &stages[i];
        proof {
            lemma_prefix_sum_step(stages@, i as int, stage_ns());
        }
        let length = s.duration as u64;
        internals.push(
            InternalStage {
                abs_start_ns: last_abs_end,
                abs_end_ns: last_abs_end + length,
                start_rate: last_rate_end,
                end_rate: s.target,
            },
        );
        last_abs_end = last_abs_end + length;
        last_rate_end = s.target;
        i = i + 1;
    }
    proof {
        assert forall|i: int| 0 <= i < internals@.len() - 1 implies {
            &&& #[trigger] internals@[i + 1].abs_start_ns == internals@[i].abs_end_ns
            &&& internals@[i + 1].start_rate == internals@[i].end_rate
        } by {
            lemma_prefix_sum_step(stages@, i, stage_ns());
            assert(internals@[i].abs_start_ns == stage_offset(stages@, i));
            assert(internals@[i + 1].abs_start_ns == stage_offset(stages@, i + 1));
        }
        if n > 0 {
            assert(internals@[0].abs_start_ns == stage_offset(stages@, 0));
            assert(stages@.take(0) =~= Seq::<Stage<R>>::empty());
        }
    }
    internals
}

/// The total duration of the stages, in nanoseconds.
pub fn total_duration<R>(stages: &[Stage<R>]) -> (total: u128)
    requires
        sum_by(stages@, stage_duration()) <= MAX_DURATION_NANOS,
    ensures
        total == sum_by(stages@, stage_duration()),
{
    let n = stages.len();
    let mut total: u128 = 0;
    let mut i: usize = 0;
    proof {
        assert(stages@.take(0) =~= Seq::<Stage<R>>::empty());
    }
    while i < n
        invariant
            n == stages@.len(),
            0 <= i <= n,
            sum_by(stages@, stage_duration()) <= MAX_DURATION_NANOS,
            total == sum_by(stages@.take(i as int), stage_duration()),
        decreases n - i,
    {
        proof {
            lemma_prefix_sum_step(stages@, i as int, stage_duration());
        }
        total = total + stages[i].duration;
        i = i + 1;
    }
    proof {
        assert(stages@.take(n as int) =~= stages@);
    }
    total
}

/// When no stage lasts longer than 2^64 - 1 nanoseconds, the timeline built
/// by `stages_to_internal` ends exactly at the total duration of the stages.
pub proof fn lemma_timeline_ends_at_total_duration<R>(stages: Seq<Stage<R>>)
    requires
        stages.len() > 0,
        forall|i: int| 0 <= i < stages.len() ==> #[trigger] stages[i].duration <= u64::MAX,
    ensures
        stage_offset(stages, stages.len() - 1) + (stages.last().duration as u64) == sum_by(
            stages,
            stage_duration(),
        ),
{
    lemma_truncated_sum(stages);
    assert(stages.take(stages.len() - 1) =~= stages.drop_last());
}

proof fn lemma_truncated_sum<R>(stages: Seq<Stage<R>>)
    requires
        forall|i: int| 0 <= i < stages.len() ==> #[trigger] stages[i].duration <= u64::MAX,
    ensures
        sum_by(stages, stage_ns()) == sum_by(stages, stage_duration()),
    decreases stages.len(),
{
    if stages.len() > 0 {
        let d = stages.drop_last();
        assert forall|i: int| 0 <= i < d.len() implies #[trigger] d[i].duration <= u64::MAX by {
            assert(d[i] == stages[i]);
        }
        lemma_truncated_sum(d);
        assert(stages[stages.len() - 1].duration <= u64::MAX);
    }
}

/// `now` held to the interval `[low, high]`.
pub open spec fn clamp(now: u64, low: u64, high: u64) -> u64 {
    if now < low {
        low
    } else if now > high {
        high
    } else {
        now
    }
}

impl<R> InternalStage<R> {
    /// How far into this stage the instant `now` lies, in nanoseconds: zero
    /// before the stage, its full length after it.
    pub fn elapsed_ns(&self, now: u64) -> (elapsed: u64)
        requires
            self.abs_start_ns <= self.abs_end_ns,
        ensures
            elapsed == clamp(now, self.abs_start_ns, self.abs_end_ns) - self.abs_start_ns,
            self.abs_start_ns <= now <= self.abs_end_ns ==> elapsed == now - self.abs_start_ns,
            now < self.abs_start_ns ==> elapsed == 0,
            now > self.abs_end_ns ==> elapsed == self.abs_end_ns - self.abs_start_ns,
            elapsed <= self.abs_end_ns - self.abs_start_ns,
    {
        let clamped = if now < self.abs_start_ns {
            self.abs_start_ns
        } else if now > self.abs_end_ns {
            self.abs_end_ns
        } else {
            now
        };
        clamped - self.abs_start_ns
    }

    /// The length of this stage, in nanoseconds.
    pub fn length_ns(&self) -> (length: u64)
        requires
            self.abs_start_ns <= self.abs_end_ns,
        ensures
            length == self.abs_end_ns - self.abs_start_ns,
    {
        self.abs_end_ns - self.abs_start_ns
    }
}

/// Holding an instant to an interval keeps it when it lies inside, and
/// moves it to the nearer end when it lies outside.
pub proof fn lemma_clamp_keeps_inside(now: u64, low: u64, high: u64)
    requires
        low <= high,
    ensures
        low <= now <= high ==> clamp(now, low, high) == now,
        now < low ==> clamp(now, low, high) == low,
        now > high ==> clamp(now, low, high) == high,
        low <= clamp(now, low, high) <= high,
{
}

/// How far into a stage an instant lies: the time since the stage began
/// while it runs, nothing before it, and the whole stage after it.
pub proof fn lemma_elapsed_in_stage<R>(stage: InternalStage<R>, now: u64)
    requires
        stage.abs_start_ns <= stage.abs_end_ns,
    ensures
        stage.abs_start_ns <= now <= stage.abs_end_ns ==> clamp(now, stage.abs_start_ns, stage.abs_end_ns)
            - stage.abs_start_ns == now - stage.abs_start_ns,
        now <= stage.abs_start_ns ==> clamp(now, stage.abs_start_ns, stage.abs_end_ns) - stage.abs_start_ns
            == 0,
        now >= stage.abs_end_ns ==> clamp(now, stage.abs_start_ns, stage.abs_end_ns) - stage.abs_start_ns
            == stage.abs_end_ns - stage.abs_start_ns,
{
    lemma_clamp_keeps_inside(now, stage.abs_start_ns, stage.abs_end_ns);
}

/// Where an instant falls among the stages of a timeline: the number of
/// leading stages that are over, and whether the next one has begun.
#[derive(Clone, Copy, Debug, PartialEq, Eq)]
pub struct StageProgress {
    pub completed: usize,
    pub in_progress: bool,
}

/// Walks the timeline at `now`: stages whose end has passed count as
/// completed (they contribute their whole area to the token integral), the
/// first stage that is not over is in progress when `now` lies past its start.
pub fn stage_progress<R>(stages: &[InternalStage<R>], now: u64) -> (p: StageProgress)
    ensures
        p.completed <= stages@.len(),
        forall|i: int| 0 <= i < p.completed ==> now >= #[trigger] stages@[i].abs_end_ns,
        p.completed < stages@.len() ==> now < stages@[p.completed as int].abs_end_ns,
        p.in_progress == (p.completed < stages@.len() && now > stages@[p.completed as int].abs_start_ns),
{
    let n = stages.len();
    let mut i: usize = 0;
    while i < n
        invariant
            n == stages@.len(),
            0 <= i <= n,
            forall|j: int| 0 <= j < i ==> now >= #[trigger] stages@[j].abs_end_ns,
        decreases n - i,
    {
        if now >= stages[i].abs_end_ns {
            i = i + 1;
        } else {
            return StageProgress { completed: i, in_progress: now > stages[i].abs_start_ns };
        }
    }
    StageProgress { completed: n, in_progress: false }
}

/// What a refill does: mint `add` tokens, hand out `permits` of them to the
/// semaphore, and let workers take tokens in batches of `batch`.
#[derive(Clone, Copy, Debug, PartialEq, Eq)]
pub struct Refill {
    pub add: u64,
    pub permits: usize,
    pub batch: u64,
}

pub open spec fn min_u64(a: u64, b: u64) -> u64 {
    if a <= b {
        a
    } else {
        b
    }
}

/// The refill owed when the token integral says `expected` tokens should
/// exist and `minted` have been minted: `None` when nothing is owed.
pub open spec fn refill_spec(expected: u64, minted: u64, max_burst: u64, max_batch: u64, workers: usize) -> Option<Refill> {
    if expected > minted {
        let add = min_u64((expected - minted) as u64, max_burst);
        let permits = if MAX_TOKENS <= (add as usize) {
            MAX_TOKENS
        } else {
            add as usize
        };
        let spread = min_u64(min_u64(add / (workers as u64) / 50, max_burst), max_batch);
        Some(Refill { add, permits, batch: if spread >= 1 { spread } else { 1 } })
    } else {
        None
    }
}

/// Fills the gap between the token integral (`expected`, tokens that should
/// exist by now) and the tokens already `minted`, at most `max_burst` at a
/// time, and sizes the workers' batches: about a fiftieth of the refill per
/// worker, capped by `max_burst` and `max_batch`, and at least one.
pub fn plan_refill(expected: u64, minted: u64, max_burst: u64, max_batch: u64, workers: usize) -> (r:
    Option<Refill>)
    requires
        expected <= minted || workers > 0,
    ensures
        r == refill_spec(expected, minted, max_burst, max_batch, workers),
        expected <= minted <==> r is None,
        expected > minted ==> (r matches Some(plan) && plan.add == (if expected - minted <= max_burst {
            expected - minted
        } else {
            max_burst as int
        })),
        r matches Some(plan) ==> {
            &&& minted + plan.add <= expected
            &&& plan.add <= max_burst
            &&& plan.permits <= MAX_TOKENS
            &&& plan.batch >= 1
            &&& max_batch >= 1 ==> plan.batch <= max_batch
            &&& max_burst >= 1 ==> plan.batch <= max_burst
        },
{
    if expected > minted {
        let gap = expected - minted;
        let add = if gap <= max_burst {
            gap
        } else {
            max_burst
        };
        let add_size = add as usize;
        let permits = if MAX_TOKENS <= add_size {
            MAX_TOKENS
        } else {
            add_size
        };
        let share = add / (workers as u64) / 50;
        let capped = if share <= max_burst {
            share
        } else {
            max_burst
        };
        let spread = if capped <= max_batch {
            capped
        } else {
            max_batch
        };
        let batch = if spread >= 1 {
            spread
        } else {
            1
        };
        Some(Refill { add, permits, batch })
    } else {
        None
    }
}

/// Every token the integral owes is minted, up to the burst limit: a refill
/// is planned exactly when more tokens are owed than were minted, and it
/// mints the whole gap, or `max_burst` tokens when the gap is larger. All of
/// it is handed out as permits, up to `MAX_TOKENS`. The batch is one of the
/// caps (a fiftieth of the refill per worker, `max_burst`, `max_batch`) and
/// at most each of them, or one when a cap is below one.
pub proof fn lemma_refill_mints_owed_tokens(
    expected: u64,
    minted: u64,
    max_burst: u64,
    max_batch: u64,
    workers: usize,
)
    requires
        expected <= minted || workers > 0,
    ensures
        expected <= minted <==> refill_spec(expected, minted, max_burst, max_batch, workers) is None,
        expected > minted ==> ({
            let plan = refill_spec(expected, minted, max_burst, max_batch, workers)->Some_0;
            &&& plan.add == (if expected - minted <= max_burst {
                expected - minted
            } else {
                max_burst as int
            })
            &&& minted + plan.add <= expected
            &&& plan.batch >= 1
            &&& (plan.batch == 1 || (plan.batch <= max_batch && plan.batch <= max_burst && plan.batch
                <= (plan.add as int) / (workers as int) / 50))
            &&& (plan.batch == 1 || plan.batch == max_batch || plan.batch == max_burst || plan.batch
                == (plan.add as int) / (workers as int) / 50)
            &&& (plan.batch >= max_batch || plan.batch >= max_burst || plan.batch >= (plan.add as int)
                / (workers as int) / 50)
            &&& plan.permits <= MAX_TOKENS
            &&& (plan.add as usize) <= MAX_TOKENS ==> plan.permits == plan.add as usize
            &&& (plan.add as usize) > MAX_TOKENS ==> plan.permits == MAX_TOKENS
        }),
{
    if expected > minted {
        let plan = refill_spec(expected, minted, max_burst, max_batch, workers)->Some_0;
        let w = workers as u64;
        assert(w > 0);
        assert(plan.add / w / 50 == (plan.add as int) / (workers as int) / 50);
    }
}

/// A refill that is not held back by the burst limit brings the minted count
/// up to the integral: refilling again at the same instant mints nothing.
pub proof fn lemma_refill_catches_up(expected: u64, minted: u64, max_burst: u64, max_batch: u64, workers: usize)
    requires
        refill_spec(expected, minted, max_burst, max_batch, workers) matches Some(plan) && plan.add
            == expected - minted,
    ensures
        ({
            let plan = refill_spec(expected, minted, max_burst, max_batch, workers)->Some_0;
            refill_spec(expected, (minted + plan.add) as u64, max_burst, max_batch, workers) is None
        }),
{
}

} // verus!
