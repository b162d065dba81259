//! Reductions over a snapshot and comparisons between two snapshots.
use vstd::prelude::*;
use crate::types::{AnomalySeverity, DiskMetrics, SystemMetrics, Temperature, UsbDevice};

verus! {

pub open spec fn max_i64(a: i64, b: i64) -> i64 {
    if a >= b { a } else { b }
}

/// Largest temperature reading, or 0 when there is none.
pub open spec fn spec_max_temperature(temps: Seq<Temperature>) -> i64
    decreases temps.len(),
{
    if temps.len() == 0 {
        0
    } else {
        max_i64(spec_max_temperature(temps.drop_last()), temps.last().value)
    }
}

/// Largest disk usage, or 0 when there is no disk.
pub open spec fn spec_max_disk_usage(disks: Seq<DiskMetrics>) -> i64
    decreases disks.len(),
{
    if disks.len() == 0 {
        0
    } else {
        max_i64(spec_max_disk_usage(disks.drop_last()), disks.last().usage_percent)
    }
}

/// Read plus write rate of a disk.
pub open spec fn disk_io(d: DiskMetrics) -> int {
    d.read_mb + d.write_mb
}

/// Largest read plus write rate over the disks, or 0 when there is no disk.
pub open spec fn spec_max_disk_io(disks: Seq<DiskMetrics>) -> int
    decreases disks.len(),
{
    if disks.len() == 0 {
        0
    } else {
        let rest = spec_max_disk_io(disks.drop_last());
        let last = disk_io(disks.last());
        if rest >= last { rest } else { last }
    }
}

pub open spec fn spec_has_usb_timeout(devices: Seq<UsbDevice>) -> bool {
    exists|i: int| 0 <= i < devices.len() && (#[trigger] devices[i]).has_timeout
}

/// Largest temperature of the snapshot, 0 when it has no sensor.
pub fn get_max_temperature(metrics: &SystemMetrics) -> (r: i64)
    ensures
        r == spec_max_temperature(metrics.temperatures@),
{
    let temps = &metrics.temperatures;
    let mut best: i64 = 0;
    let mut i: usize = 0;
    while i < temps.len()
        invariant
            i <= temps@.len(),
            best == spec_max_temperature(temps@.subrange(0, i as int)),
        decreases temps@.len() - i,
    {
        assert(temps@.subrange(0, i + 1).drop_last() =~= temps@.subrange(0, i as int));
        let v = temps[i].value;
        if v > best {
            best = v;
        }
        i = i + 1;
    }
    assert(temps@.subrange(0, i as int) =~= temps@);
    best
}

/// Largest disk usage of the snapshot, 0 when it has no disk.
pub fn get_max_disk_usage(metrics: &SystemMetrics) -> (r: i64)
    ensures
        r == spec_max_disk_usage(metrics.disks@),
{
    let disks = &metrics.disks;
    let mut best: i64 = 0;
    let mut i: usize = 0;
    while i < disks.len()
        invariant
            i <= disks@.len(),
            best == spec_max_disk_usage(disks@.subrange(0, i as int)),
        decreases disks@.len() - i,
    {
        assert(disks@.subrange(0, i + 1).drop_last() =~= disks@.subrange(0, i as int));
        let v = disks[i].usage_percent;
        if v > best {
            best = v;
        }
        i = i + 1;
    }
    assert(disks@.subrange(0, i as int) =~= disks@);
    best
}

/// Largest read plus write rate of the snapshot's disks, 0 when it has none.
pub fn get_max_disk_io(metrics: &SystemMetrics) -> (r: u128)
    ensures
        r == spec_max_disk_io(metrics.disks@),
        r <= 2 * (u64::MAX as int),
{
    let disks = &metrics.disks;
    let mut best: u128 = 0;
    let mut i: usize = 0;
    while i < disks.len()
        invariant
            i <= disks@.len(),
            best == spec_max_disk_io(disks@.subrange(0, i as int)),
            best <= 2 * (u64::MAX as int),
        decreases disks@.len() - i,
    {
        assert(disks@.subrange(0, i + 1).drop_last() =~= disks@.subrange(0, i as int));
        let v = disks[i].read_mb as u128 + disks[i].write_mb as u128;
        if v > best {
            best = v;
        }
        i = i + 1;
    }
    assert(disks@.subrange(0, i as int) =~= disks@);
    best
}

/// Whether any USB device of the snapshot is flagged with a timeout.
pub fn has_usb_timeout(metrics: &SystemMetrics) -> (r: bool)
    ensures
        r == spec_has_usb_timeout(metrics.usb_devices@),
{
    let devices = &metrics.usb_devices;
    let mut i: usize = 0;
    while i < devices.len()
        invariant
            i <= devices@.len(),
            devices@ == metrics.usb_devices@,
            forall|j: int| 0 <= j < i ==> !(#[trigger] devices@[j]).has_timeout,
        decreases devices@.len() - i,
    {
        if devices[i].has_timeout {
            assert(devices@[i as int].has_timeout);
            return true;
        }
        i = i + 1;
    }
    false
}

/// Change of the main figures between two snapshots, in the units of the
/// fields they come from.
#[derive(Debug, Clone, Copy)]
pub struct MetricsDelta {
    pub cpu_usage_delta: i128,
    pub memory_usage_delta: i128,
    pub temperature_delta: i128,
    pub swap_delta: i128,
    pub disk_io_delta: i128,
}

/// Differences `current - previous` of CPU usage, memory usage, largest
/// temperature, swap in use and largest disk I/O rate.
pub fn calculate_delta(current: &SystemMetrics, previous: &SystemMetrics) -> (r: MetricsDelta)
    ensures
        r.cpu_usage_delta == current.cpu.global_usage - previous.cpu.global_usage,
        r.memory_usage_delta == current.memory.usage_percent - previous.memory.usage_percent,
        r.temperature_delta == spec_max_temperature(current.temperatures@)
            - spec_max_temperature(previous.temperatures@),
        r.swap_delta == current.memory.swap_used - previous.memory.swap_used,
        r.disk_io_delta == spec_max_disk_io(current.disks@) - spec_max_disk_io(previous.disks@),
{
    let cur_temp = get_max_temperature(current);
    let prev_temp = get_max_temperature(previous);
    let cur_io = get_max_disk_io(current);
    let prev_io = get_max_disk_io(previous);
    proof {
        lemma_max_disk_io_bound(current.disks@);
        lemma_max_disk_io_bound(previous.disks@);
    }
    MetricsDelta {
        cpu_usage_delta: current.cpu.global_usage as i128 - previous.cpu.global_usage as i128,
        memory_usage_delta: current.memory.usage_percent as i128
            - previous.memory.usage_percent as i128,
        temperature_delta: cur_temp as i128 - prev_temp as i128,
        swap_delta: current.memory.swap_used as i128 - previous.memory.swap_used as i128,
        disk_io_delta: cur_io as i128 - prev_io as i128,
    }
}

proof fn lemma_max_disk_io_bound(disks: Seq<DiskMetrics>)
    ensures
        0 <= spec_max_disk_io(disks) <= 2 * (u64::MAX as int),
    decreases disks.len(),
{
    if disks.len() > 0 {
        lemma_max_disk_io_bound(disks.drop_last());
    }
}

/// Rate per second of a change observed over an interval, both in
/// thousandths, rounded toward zero.
pub open spec fn spec_rate(delta: int, interval_ms: int) -> int {
    if interval_ms <= 0 {
        0
    } else if delta >= 0 {
        delta * 1000 / interval_ms
    } else {
        -((-delta * 1000) / interval_ms)
    }
}

/// `delta` per second over `interval_ms` thousandths of a second; 0 for an
/// empty interval.
pub fn calculate_rate(delta: i64, interval_ms: i64) -> (r: i128)
    ensures
        r == spec_rate(delta as int, interval_ms as int),
{
    if interval_ms <= 0 {
        return 0;
    }
    let magnitude: i128 = if delta >= 0 { delta as i128 * 1000 } else { -(delta as i128) * 1000 };
    let q: i128 = magnitude / interval_ms as i128;
    assert(0 <= q <= magnitude) by (nonlinear_arith)
        requires magnitude >= 0, interval_ms >= 1, q == magnitude as int / interval_ms as int;
    if delta >= 0 {
        q
    } else {
        -q
    }
}

/// Level of a value against a warning and a critical threshold: critical at
/// or above the critical one, else warning at or above the warning one.
pub fn classify_severity(value: i64, warning_threshold: i64, critical_threshold: i64) -> (r: Option<AnomalySeverity>)
    ensures
        value >= critical_threshold ==> r == Some(AnomalySeverity::Critical),
        value < critical_threshold && value >= warning_threshold ==> r == Some(AnomalySeverity::Warning),
        value < critical_threshold && value < warning_threshold ==> r is None,
{
    if value >= critical_threshold {
        Some(AnomalySeverity::Critical)
    } else if value >= warning_threshold {
        Some(AnomalySeverity::Warning)
    } else {
        None
    }
}

} // verus!
