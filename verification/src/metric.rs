use vstd::prelude::*;

verus! {

/// The largest span of time a `std::time::Duration` can hold, in nanoseconds:
/// `u64::MAX` whole seconds plus 999_999_999 nanoseconds.
pub const MAX_DURATION_NANOS: u128 = 18_446_744_073_709_551_615_999_999_999u128;

/// A single observed measurement produced by one execution of a workload.
pub trait Metric: PartialOrd + PartialEq + Send + Sync + std::fmt::Debug + Clone + Sized {}

/// Built-in metric: latency, success and transferred bytes of one operation.
///
/// `latency` is a span of time in nanoseconds (at most `MAX_DURATION_NANOS`).
#[derive(Clone, Copy, Debug, PartialEq, Eq, PartialOrd)]
pub struct BasicMetric {
    pub latency: u128,
    pub success: bool,
    pub bytes: usize,
}

impl Metric for BasicMetric {}

} // verus!
