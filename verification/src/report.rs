use vstd::prelude::*;

use crate::aggregate::BasicAggregate;

verus! {

/// A report for machines: the average latency (nanoseconds), the success
/// ratio in percent, and the byte and sample totals of a `BasicAggregate`.
#[derive(Clone, Copy, Debug, PartialEq, Eq)]
pub struct JsonReport {
    pub average_latency: u128,
    pub success_ratio: u8,
    pub total_bytes: usize,
    pub count: usize,
}

/// The success ratio of a report: the share of successful samples, in whole
/// percent (rounded down).
pub open spec fn success_ratio_spec(success_count: usize, count: usize) -> int {
    (success_count * 100) / (count as int)
}

impl JsonReport {
    /// Builds the report of an aggregate whose average latency is
    /// `average_latency`: the success ratio is the percentage of samples that
    /// succeeded, rounded down.
    pub fn from(value: BasicAggregate, average_latency: u128) -> (report: Self)
        requires
            value.count > 0,
            success_ratio_spec(value.success_count, value.count) <= u8::MAX,
        ensures
            report.average_latency == average_latency,
            report.success_ratio == success_ratio_spec(value.success_count, value.count),
            report.total_bytes == value.total_bytes,
            report.count == value.count,
            value.success_count == value.count ==> report.success_ratio == 100,
            value.success_count == 0 ==> report.success_ratio == 0,
            report.success_ratio * value.count <= value.success_count * 100 < (report.success_ratio + 1)
                * value.count,
    {
        let successes = value.success_count as u128;
        let count = value.count as u128;
        proof {
            assert(successes * 100 <= u128::MAX) by (nonlinear_arith)
                requires
                    successes <= usize::MAX,
                    usize::MAX <= u64::MAX,
            ;
        }
        let ratio = (successes * 100) / count;
        proof {
            let q = ratio as int;
            let n = (successes * 100) as int;
            let c = count as int;
            assert(q * c <= n < (q + 1) * c) by (nonlinear_arith)
                requires
                    q == n / c,
                    c > 0,
                    n >= 0,
            ;
        }
        proof {
            if value.success_count == value.count {
                let c = count as int;
                assert((c * 100) / c == 100) by (nonlinear_arith)
                    requires
                        c > 0,
                ;
            }
        }
        JsonReport {
            average_latency,
            success_ratio: ratio as u8,
            total_bytes: value.total_bytes,
            count: value.count,
        }
    }
}

} // verus!
