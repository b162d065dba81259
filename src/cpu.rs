//! CPU usage and load averages.
use vstd::prelude::*;
use crate::text::{read_view, parse_milli, parse_milli_spec, tokens, tokens_from};
use crate::types::{CpuMetrics, PERCENT_MAX};

verus! {

/// `v` brought into `[0, 100 %]`.
pub open spec fn clamp_percent(v: i64) -> i64 {
    if v < 0 { 0 } else if v > PERCENT_MAX { PERCENT_MAX } else { v }
}

pub open spec fn milli_or_zero(s: Seq<u8>, t: (int, int)) -> i64 {
    match parse_milli_spec(s.subrange(t.0, t.1)) {
        Some(v) => v,
        None => 0,
    }
}

/// The 1, 5 and 15-minute load averages that the text of `/proc/loadavg`
/// gives, in thousandths: its first three fields, each 0 when it is not a
/// number, or all 0 when there are fewer than three fields.
pub open spec fn load_averages(s: Seq<u8>) -> (i64, i64, i64) {
    let toks = tokens_from(s, 0, s.len() as int);
    if toks.len() < 3 {
        (0, 0, 0)
    } else {
        (milli_or_zero(s, toks[0]), milli_or_zero(s, toks[1]), milli_or_zero(s, toks[2]))
    }
}

fn clamp(v: i64) -> (r: i64)
    ensures
        r == clamp_percent(v),
{
    if v < 0 { 0 } else if v > PERCENT_MAX { PERCENT_MAX } else { v }
}

fn milli_in(s: &[u8], t: (usize, usize)) -> (r: i64)
    requires
        t.0 <= t.1 <= s@.len(),
    ensures
        r == milli_or_zero(s@, (t.0 as int, t.1 as int)),
{
    match parse_milli(s, t.0, t.1) {
        Some(v) => v,
        None => 0,
    }
}

/// Load averages of the text of `/proc/loadavg`; all 0 when it could not be
/// read.
pub fn get_load_average(loadavg: Option<&[u8]>) -> (r: (i64, i64, i64))
    ensures
        r == match read_view(loadavg) { Some(c) => load_averages(c), None => (0i64, 0i64, 0i64) },
{
    match loadavg {
        Some(c) => {
            let toks = tokens(c, 0, c.len());
            if toks.len() < 3 {
                (0, 0, 0)
            } else {
                (milli_in(c, toks[0]), milli_in(c, toks[1]), milli_in(c, toks[2]))
            }
        },
        None => (0, 0, 0),
    }
}

/// CPU metrics from the usage the OS reports (global and per core, in
/// thousandths of a percent, brought into `[0, 100 %]`) and a read of
/// `/proc/loadavg`.
pub fn cpu_metrics(global_usage: i64, per_core: &Vec<i64>, loadavg: Option<&[u8]>) -> (r: CpuMetrics)
    ensures
        r.global_usage == clamp_percent(global_usage),
        r.per_core@.len() == per_core@.len(),
        forall|i: int| 0 <= i < per_core@.len() ==> #[trigger] r.per_core@[i] == clamp_percent(per_core@[i]),
        (r.load_avg_1, r.load_avg_5, r.load_avg_15)
            == match read_view(loadavg) { Some(c) => load_averages(c), None => (0i64, 0i64, 0i64) },
        r.wf(),
{
    let mut cores: Vec<i64> = Vec::new();
    let mut i: usize = 0;
    while i < per_core.len()
        invariant
            i <= per_core@.len(),
            cores@.len() == i,
            forall|j: int| 0 <= j < i ==> #[trigger] cores@[j] == clamp_percent(per_core@[j]),
        decreases per_core@.len() - i,
    {
        cores.push(clamp(per_core[i]));
        i = i + 1;
    }
    let (load_avg_1, load_avg_5, load_avg_15) = get_load_average(loadavg);
    CpuMetrics { global_usage: clamp(global_usage), per_core: cores, load_avg_1, load_avg_5, load_avg_15 }
}

} // verus!
