//! Memory and swap figures.
use vstd::prelude::*;
use crate::types::{is_percent, MemoryMetrics, PERCENT_MAX};

verus! {

/// Share of `total` that `used` takes, in thousandths of a percent; 0 when
/// `total` is 0, and at most 100 % should `used` exceed `total`.
pub open spec fn usage_percent_of(total: u64, used: u64) -> i64 {
    if total == 0 {
        0
    } else if used >= total {
        PERCENT_MAX
    } else {
        (used as int * PERCENT_MAX as int / total as int) as i64
    }
}

/// Memory metrics from the byte counts the OS reports.
pub fn memory_metrics(total: u64, used: u64, available: u64, swap_total: u64, swap_used: u64) -> (r: MemoryMetrics)
    ensures
        r.total == total,
        r.used == used,
        r.available == available,
        r.swap_total == swap_total,
        r.swap_used == swap_used,
        r.usage_percent == usage_percent_of(total, used),
        is_percent(r.usage_percent),
{
    let usage_percent: i64 = if total == 0 {
        0
    } else if used >= total {
        PERCENT_MAX
    } else {
        let p: u128 = used as u128 * 100_000 / total as u128;
        assert(p <= 100_000) by (nonlinear_arith)
            requires p == used as int * 100_000 / total as int, used < total, total > 0;
        p as i64
    };
    MemoryMetrics { total, used, available, usage_percent, swap_total, swap_used }
}

} // verus!
