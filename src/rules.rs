//! The anomaly detector: comparative rules against the previous snapshot,
//! then absolute thresholds on the current one.
use vstd::prelude::*;
use crate::analyzer::{
    get_max_disk_io, get_max_disk_usage, get_max_temperature, has_usb_timeout,
    spec_has_usb_timeout, spec_max_disk_io, spec_max_disk_usage, spec_max_temperature,
};
use crate::text::{centi_string, centi_text, whole_string, whole_text};
use crate::types::{
    Anomaly, AnomalyCategory, AnomalySeverity, GpuMetrics, Measure, SystemMetrics, UsbDevice,
};

verus! {

/// Rise of global CPU usage, in thousandths of a percent.
pub const CPU_SPIKE_THRESHOLD: i64 = 40_000;
/// CPU usage above which two ticks in a row are critical.
pub const CPU_CRITICAL_THRESHOLD: i64 = 90_000;
/// Rise of memory usage, in thousandths of a percent.
pub const MEMORY_SPIKE_THRESHOLD: i64 = 20_000;
/// Memory usage above which a tick is critical.
pub const MEMORY_CRITICAL_THRESHOLD: i64 = 95_000;
/// Temperature, in thousandths of a degree, whose crossing is critical.
pub const TEMPERATURE_CRITICAL: i64 = 85_000;
/// Fall of the largest temperature, in thousandths of a degree.
pub const TEMPERATURE_DROP_THRESHOLD: i64 = 30_000;
/// Disk usage above which a warning is raised.
pub const DISK_CRITICAL_THRESHOLD: i64 = 90_000;
/// Read plus write rate, in thousandths of a megabyte per second.
pub const DISK_IO_HIGH_THRESHOLD: u128 = 500_000;
/// Fifteen-minute load allowed per CPU core, in thousandths.
pub const LOAD_AVG_MULTIPLIER: i128 = 2_000;
/// GPU temperature, in thousandths of a degree.
pub const GPU_TEMP_CRITICAL: i64 = 90_000;
/// GPU usage, in thousandths of a percent.
pub const GPU_USAGE_CRITICAL: i64 = 95_000;
/// GPU memory usage, in thousandths of a percent.
pub const GPU_MEMORY_CRITICAL: i64 = 95_000;

/// The detection rules, in the order in which they are evaluated.
#[derive(Debug, Clone, Copy, PartialEq, Eq, Structural)]
pub enum Rule {
    CpuSpike,
    CpuSustained,
    MemorySpike,
    TemperatureCritical,
    TemperatureDrop,
    SwapActivated,
    MemoryCritical,
    DiskUsage,
    UsbTimeout,
    DiskIo,
    LoadAverage,
    GpuTemperature,
    GpuUsage,
    GpuMemory,
}

impl Rule {
    pub open spec fn spec_severity(self) -> AnomalySeverity {
        match self {
            Rule::CpuSustained | Rule::TemperatureCritical | Rule::MemoryCritical | Rule::UsbTimeout
            | Rule::LoadAverage | Rule::GpuTemperature => AnomalySeverity::Critical,
            _ => AnomalySeverity::Warning,
        }
    }

    pub open spec fn spec_category(self) -> AnomalyCategory {
        match self {
            Rule::CpuSpike | Rule::CpuSustained | Rule::LoadAverage => AnomalyCategory::Cpu,
            Rule::MemorySpike | Rule::SwapActivated | Rule::MemoryCritical => AnomalyCategory::Memory,
            Rule::TemperatureCritical | Rule::TemperatureDrop => AnomalyCategory::Temperature,
            Rule::DiskUsage | Rule::DiskIo => AnomalyCategory::Disk,
            Rule::UsbTimeout => AnomalyCategory::Usb,
            Rule::GpuTemperature | Rule::GpuUsage | Rule::GpuMemory => AnomalyCategory::Gpu,
        }
    }

    /// Whether the rule needs the previous snapshot.
    pub open spec fn is_comparative(self) -> bool {
        match self {
            Rule::CpuSpike | Rule::CpuSustained | Rule::MemorySpike | Rule::TemperatureCritical
            | Rule::TemperatureDrop | Rule::SwapActivated => true,
            _ => false,
        }
    }

    pub fn severity(&self) -> (r: AnomalySeverity)
        ensures
            r == self.spec_severity(),
    {
        match self {
            Rule::CpuSustained | Rule::TemperatureCritical | Rule::MemoryCritical | Rule::UsbTimeout
            | Rule::LoadAverage | Rule::GpuTemperature => AnomalySeverity::Critical,
            _ => AnomalySeverity::Warning,
        }
    }

    pub fn category(&self) -> (r: AnomalyCategory)
        ensures
            r == self.spec_category(),
    {
        match self {
            Rule::CpuSpike | Rule::CpuSustained | Rule::LoadAverage => AnomalyCategory::Cpu,
            Rule::MemorySpike | Rule::SwapActivated | Rule::MemoryCritical => AnomalyCategory::Memory,
            Rule::TemperatureCritical | Rule::TemperatureDrop => AnomalyCategory::Temperature,
            Rule::DiskUsage | Rule::DiskIo => AnomalyCategory::Disk,
            Rule::UsbTimeout => AnomalyCategory::Usb,
            Rule::GpuTemperature | Rule::GpuUsage | Rule::GpuMemory => AnomalyCategory::Gpu,
        }
    }
}

/// What the comparative rules read of a snapshot: global CPU usage, memory
/// usage, the largest temperature and the swap in use.
#[derive(Debug, Clone, Copy, PartialEq, Eq, Structural)]
pub struct History {
    pub cpu_usage: i64,
    pub memory_usage: i64,
    pub max_temperature: i64,
    pub swap_used: u64,
}

impl History {
    pub open spec fn spec_of(m: SystemMetrics) -> History {
        History {
            cpu_usage: m.cpu.global_usage,
            memory_usage: m.memory.usage_percent,
            max_temperature: spec_max_temperature(m.temperatures@),
            swap_used: m.memory.swap_used,
        }
    }

    pub fn of(m: &SystemMetrics) -> (r: History)
        ensures
            r == History::spec_of(*m),
    {
        History {
            cpu_usage: m.cpu.global_usage,
            memory_usage: m.memory.usage_percent,
            max_temperature: get_max_temperature(m),
            swap_used: m.memory.swap_used,
        }
    }
}

pub open spec fn when(b: bool, r: Rule) -> Seq<Rule> {
    if b { seq![r] } else { Seq::empty() }
}

/// The comparative rules that fire between two ticks, in order.
pub open spec fn comparative_rules(p: History, c: History) -> Seq<Rule> {
    when(c.cpu_usage - p.cpu_usage > CPU_SPIKE_THRESHOLD, Rule::CpuSpike)
        + when(c.cpu_usage > CPU_CRITICAL_THRESHOLD && p.cpu_usage > CPU_CRITICAL_THRESHOLD, Rule::CpuSustained)
        + when(c.memory_usage - p.memory_usage > MEMORY_SPIKE_THRESHOLD, Rule::MemorySpike)
        + when(c.max_temperature > TEMPERATURE_CRITICAL && p.max_temperature <= TEMPERATURE_CRITICAL, Rule::TemperatureCritical)
        + when(p.max_temperature - c.max_temperature > TEMPERATURE_DROP_THRESHOLD, Rule::TemperatureDrop)
        + when(c.swap_used > 0 && p.swap_used == 0, Rule::SwapActivated)
}

/// Fifteen-minute load above which the load is critical.
pub open spec fn load_threshold(num_cpus: int) -> int {
    num_cpus * LOAD_AVG_MULTIPLIER
}

pub open spec fn gpu_over(gpu: Option<GpuMetrics>, rule: Rule) -> bool {
    match gpu {
        Some(g) => match rule {
            Rule::GpuTemperature => g.temperature > GPU_TEMP_CRITICAL,
            Rule::GpuUsage => g.usage_percent > GPU_USAGE_CRITICAL,
            _ => g.memory_usage_percent > GPU_MEMORY_CRITICAL,
        },
        None => false,
    }
}

/// The absolute rules that fire on a snapshot, in order.
pub open spec fn absolute_rules(m: SystemMetrics, num_cpus: usize) -> Seq<Rule> {
    when(m.memory.usage_percent > MEMORY_CRITICAL_THRESHOLD, Rule::MemoryCritical)
        + when(spec_max_disk_usage(m.disks@) > DISK_CRITICAL_THRESHOLD, Rule::DiskUsage)
        + when(spec_has_usb_timeout(m.usb_devices@), Rule::UsbTimeout)
        + when(spec_max_disk_io(m.disks@) > DISK_IO_HIGH_THRESHOLD, Rule::DiskIo)
        + when(m.cpu.load_avg_15 > load_threshold(num_cpus as int), Rule::LoadAverage)
        + when(gpu_over(m.gpu, Rule::GpuTemperature), Rule::GpuTemperature)
        + when(gpu_over(m.gpu, Rule::GpuUsage), Rule::GpuUsage)
        + when(gpu_over(m.gpu, Rule::GpuMemory), Rule::GpuMemory)
}

/// All rules that fire on `m`: the comparative ones when there is a previous
/// tick, then the absolute ones.
pub open spec fn detected_rules(previous: Option<History>, m: SystemMetrics, num_cpus: usize) -> Seq<Rule> {
    match previous {
        Some(p) => comparative_rules(p, History::spec_of(m)) + absolute_rules(m, num_cpus),
        None => absolute_rules(m, num_cpus),
    }
}

fn push_when(v: &mut Vec<Rule>, b: bool, r: Rule)
    ensures
        final(v)@ == old(v)@ + when(b, r),
{
    if b {
        v.push(r);
    }
    assert(final(v)@ =~= old(v)@ + when(b, r));
}

/// Appends the comparative rules that fire between `previous` and `current`.
fn check_comparative_anomalies(previous: &History, current: &History, out: &mut Vec<Rule>)
    ensures
        final(out)@ == old(out)@ + comparative_rules(*previous, *current),
{
    let p = previous;
    let c = current;
    let mut v: Vec<Rule> = Vec::new();
    push_when(&mut v, c.cpu_usage as i128 - p.cpu_usage as i128 > CPU_SPIKE_THRESHOLD as i128, Rule::CpuSpike);
    assert(v@ =~= when(c.cpu_usage - p.cpu_usage > CPU_SPIKE_THRESHOLD, Rule::CpuSpike));
    push_when(&mut v, c.cpu_usage > CPU_CRITICAL_THRESHOLD && p.cpu_usage > CPU_CRITICAL_THRESHOLD, Rule::CpuSustained);
    push_when(&mut v, c.memory_usage as i128 - p.memory_usage as i128 > MEMORY_SPIKE_THRESHOLD as i128, Rule::MemorySpike);
    push_when(&mut v, c.max_temperature > TEMPERATURE_CRITICAL && p.max_temperature <= TEMPERATURE_CRITICAL, Rule::TemperatureCritical);
    push_when(&mut v, p.max_temperature as i128 - c.max_temperature as i128 > TEMPERATURE_DROP_THRESHOLD as i128, Rule::TemperatureDrop);
    push_when(&mut v, c.swap_used > 0 && p.swap_used == 0, Rule::SwapActivated);
    assert(v@ == comparative_rules(*previous, *current));
    out.append(&mut v);
}

fn gpu_over_exec(gpu: &Option<GpuMetrics>, rule: Rule) -> (r: bool)
    ensures
        r == gpu_over(*gpu, rule),
{
    match gpu {
        Some(g) => match rule {
            Rule::GpuTemperature => g.temperature > GPU_TEMP_CRITICAL,
            Rule::GpuUsage => g.usage_percent > GPU_USAGE_CRITICAL,
            _ => g.memory_usage_percent > GPU_MEMORY_CRITICAL,
        },
        None => false,
    }
}

/// Appends the absolute rules that fire on `m`.
fn check_absolute_anomalies(m: &SystemMetrics, num_cpus: usize, out: &mut Vec<Rule>)
    ensures
        final(out)@ == old(out)@ + absolute_rules(*m, num_cpus),
{
    let mut v: Vec<Rule> = Vec::new();
    push_when(&mut v, m.memory.usage_percent > MEMORY_CRITICAL_THRESHOLD, Rule::MemoryCritical);
    assert(v@ =~= when(m.memory.usage_percent > MEMORY_CRITICAL_THRESHOLD, Rule::MemoryCritical));
    push_when(&mut v, get_max_disk_usage(m) > DISK_CRITICAL_THRESHOLD, Rule::DiskUsage);
    push_when(&mut v, has_usb_timeout(m), Rule::UsbTimeout);
    push_when(&mut v, get_max_disk_io(m) > DISK_IO_HIGH_THRESHOLD, Rule::DiskIo);
    push_when(&mut v, m.cpu.load_avg_15 as i128 > num_cpus as i128 * LOAD_AVG_MULTIPLIER, Rule::LoadAverage);
    push_when(&mut v, gpu_over_exec(&m.gpu, Rule::GpuTemperature), Rule::GpuTemperature);
    push_when(&mut v, gpu_over_exec(&m.gpu, Rule::GpuUsage), Rule::GpuUsage);
    push_when(&mut v, gpu_over_exec(&m.gpu, Rule::GpuMemory), Rule::GpuMemory);
    assert(v@ == absolute_rules(*m, num_cpus));
    out.append(&mut v);
}

/// The rules that fire on `current`, given what was kept of the previous
/// tick, in evaluation order.
pub fn evaluate_rules(previous: Option<History>, current: &SystemMetrics, num_cpus: usize) -> (r: Vec<Rule>)
    ensures
        r@ == detected_rules(previous, *current, num_cpus),
{
    let mut out: Vec<Rule> = Vec::new();
    match previous {
        Some(p) => {
            let c = History::of(current);
            check_comparative_anomalies(&p, &c, &mut out);
        },
        None => {},
    }
    check_absolute_anomalies(current, num_cpus, &mut out);
    assert(out@ =~= detected_rules(previous, *current, num_cpus));
    out
}

} // verus!

verus! {

pub open spec fn measure_view(m: Measure) -> (Seq<char>, int) {
    (m.key@, m.value as int)
}

/// An anomaly's payload as (key, value) pairs.
pub open spec fn measures_view(v: Seq<Measure>) -> Seq<(Seq<char>, int)> {
    v.map_values(|m: Measure| measure_view(m))
}

pub open spec fn texts_view(v: Seq<String>) -> Seq<Seq<char>> {
    v.map_values(|s: String| s@)
}

/// Ids of the devices flagged with a timeout, in device order.
pub open spec fn timeout_ids(d: Seq<UsbDevice>) -> Seq<Seq<char>>
    decreases d.len(),
{
    if d.len() == 0 {
        Seq::empty()
    } else {
        let rest = timeout_ids(d.drop_last());
        if d.last().has_timeout { rest.push(d.last().id@) } else { rest }
    }
}

pub open spec fn gpu_temperature(m: SystemMetrics) -> int {
    match m.gpu { Some(g) => g.temperature as int, None => 0 }
}

pub open spec fn gpu_usage(m: SystemMetrics) -> int {
    match m.gpu { Some(g) => g.usage_percent as int, None => 0 }
}

pub open spec fn gpu_memory_usage(m: SystemMetrics) -> int {
    match m.gpu { Some(g) => g.memory_usage_percent as int, None => 0 }
}

pub open spec fn gpu_memory_used(m: SystemMetrics) -> int {
    match m.gpu { Some(g) => g.memory_used_mb as int, None => 0 }
}

pub open spec fn gpu_memory_total(m: SystemMetrics) -> int {
    match m.gpu { Some(g) => g.memory_total_mb as int, None => 0 }
}

pub open spec fn gpu_names(m: SystemMetrics) -> Seq<Seq<char>> {
    match m.gpu { Some(g) => seq![g.name@], None => Seq::empty() }
}

/// The message of an anomaly raised by `rule`, `p` being the previous tick.
pub open spec fn message_for(rule: Rule, p: History, m: SystemMetrics) -> Seq<char> {
    let c = History::spec_of(m);
    match rule {
        Rule::CpuSpike => "CPU spike detected: "@ + whole_text(p.cpu_usage as int) + "% → "@
            + whole_text(c.cpu_usage as int) + "%"@,
        Rule::CpuSustained => "Sustained critical CPU usage: "@ + whole_text(c.cpu_usage as int) + "%"@,
        Rule::MemorySpike => "Memory spike detected: "@ + whole_text(p.memory_usage as int) + "% → "@
            + whole_text(c.memory_usage as int) + "%"@,
        Rule::TemperatureCritical => "Critical temperature reached: "@ + whole_text(c.max_temperature as int)
            + "°C"@,
        Rule::TemperatureDrop => "Sudden temperature drop: "@ + whole_text(p.max_temperature as int)
            + "°C → "@ + whole_text(c.max_temperature as int) + "°C"@,
        Rule::SwapActivated => "SWAP memory activated"@,
        Rule::MemoryCritical => "Critical memory usage: "@ + whole_text(m.memory.usage_percent as int) + "%"@,
        Rule::DiskUsage => "Critical disk usage: "@ + whole_text(spec_max_disk_usage(m.disks@) as int) + "%"@,
        Rule::UsbTimeout => "USB timeout detected"@,
        Rule::DiskIo => "High disk I/O: "@ + whole_text(spec_max_disk_io(m.disks@)) + " MB/s"@,
        Rule::LoadAverage => "Critical load average: "@ + centi_text(m.cpu.load_avg_15 as int),
        Rule::GpuTemperature => "Critical GPU temperature: "@ + whole_text(gpu_temperature(m)) + "°C"@,
        Rule::GpuUsage => "Critical GPU usage: "@ + whole_text(gpu_usage(m)) + "%"@,
        Rule::GpuMemory => "Critical GPU memory usage: "@ + whole_text(gpu_memory_usage(m)) + "%"@,
    }
}

/// The payload of an anomaly raised by `rule`.
pub open spec fn measures_for(rule: Rule, p: History, m: SystemMetrics, num_cpus: usize) -> Seq<(Seq<char>, int)> {
    let c = History::spec_of(m);
    match rule {
        Rule::CpuSpike => seq![("previous"@, p.cpu_usage as int), ("current"@, c.cpu_usage as int),
            ("delta"@, c.cpu_usage - p.cpu_usage)],
        Rule::CpuSustained => seq![("usage"@, c.cpu_usage as int)],
        Rule::MemorySpike => seq![("previous"@, p.memory_usage as int), ("current"@, c.memory_usage as int),
            ("delta"@, c.memory_usage - p.memory_usage)],
        Rule::TemperatureCritical => seq![("temperature"@, c.max_temperature as int)],
        Rule::TemperatureDrop => seq![("previous"@, p.max_temperature as int),
            ("current"@, c.max_temperature as int), ("delta"@, p.max_temperature - c.max_temperature)],
        Rule::SwapActivated => seq![("swap_used"@, c.swap_used as int)],
        Rule::MemoryCritical => seq![("usage"@, m.memory.usage_percent as int)],
        Rule::DiskUsage => seq![("usage"@, spec_max_disk_usage(m.disks@) as int)],
        Rule::UsbTimeout => Seq::empty(),
        Rule::DiskIo => seq![("io_mbs"@, spec_max_disk_io(m.disks@))],
        Rule::LoadAverage => seq![("load_avg_15"@, m.cpu.load_avg_15 as int),
            ("threshold"@, load_threshold(num_cpus as int)), ("num_cpus"@, num_cpus as int)],
        Rule::GpuTemperature => seq![("temperature"@, gpu_temperature(m))],
        Rule::GpuUsage => seq![("usage"@, gpu_usage(m))],
        Rule::GpuMemory => seq![("memory_usage"@, gpu_memory_usage(m)),
            ("memory_used_mb"@, gpu_memory_used(m)), ("memory_total_mb"@, gpu_memory_total(m))],
    }
}

/// The names an anomaly raised by `rule` concerns.
pub open spec fn subjects_for(rule: Rule, m: SystemMetrics) -> Seq<Seq<char>> {
    match rule {
        Rule::UsbTimeout => timeout_ids(m.usb_devices@),
        Rule::GpuTemperature | Rule::GpuUsage | Rule::GpuMemory => gpu_names(m),
        _ => Seq::empty(),
    }
}

/// `a` is the record of `rule` firing on `m` after the tick `p`.
pub open spec fn describes(a: Anomaly, rule: Rule, p: History, m: SystemMetrics, num_cpus: usize) -> bool {
    &&& a.severity == rule.spec_severity()
    &&& a.category == rule.spec_category()
    &&& a.message@ == message_for(rule, p, m)
    &&& measures_view(a.metrics@) == measures_for(rule, p, m, num_cpus)
    &&& texts_view(a.subjects@) == subjects_for(rule, m)
    &&& a.id@.len() == 36
}

/// `r` is what the detector reports on `m` given what it kept of the
/// previous tick: one anomaly per rule that fires, in evaluation order.
pub open spec fn reports(r: Seq<Anomaly>, previous: Option<History>, m: SystemMetrics, num_cpus: usize) -> bool {
    let rules = detected_rules(previous, m, num_cpus);
    let p = match previous { Some(p) => p, None => History::spec_of(m) };
    &&& r.len() == rules.len()
    &&& forall|i: int| 0 <= i < r.len() ==> describes(#[trigger] r[i], rules[i], p, m, num_cpus)
}

/// Relies on `uuid::Uuid::new_v4` and the hyphenated form that `Display`
/// writes: a random identifier of 36 characters.
#[verifier::external_body]
fn new_anomaly_id() -> (r: String)
    ensures
        r@.len() == 36,
{
    uuid::Uuid::new_v4().to_string()
}

fn text(s: &str) -> (r: String)
    ensures
        r@ == s@,
{
    String::from_str(s)
}

fn phrase(prefix: &str, a: String, suffix: &str) -> (r: String)
    ensures
        r@ == prefix@ + a@ + suffix@,
{
    let mut out = String::from_str(prefix);
    out.append(a.as_str());
    out.append(suffix);
    out
}

fn phrase2(prefix: &str, a: String, mid: &str, b: String, suffix: &str) -> (r: String)
    ensures
        r@ == prefix@ + a@ + mid@ + b@ + suffix@,
{
    let mut out = String::from_str(prefix);
    out.append(a.as_str());
    out.append(mid);
    out.append(b.as_str());
    out.append(suffix);
    out
}

fn measure(key: &str, value: i128) -> (r: Measure)
    ensures
        measure_view(r) == (key@, value as int),
{
    Measure { key: String::from_str(key), value }
}

fn build_message(rule: Rule, p: &History, c: &History, m: &SystemMetrics) -> (r: String)
    requires
        *c == History::spec_of(*m),
    ensures
        r@ == message_for(rule, *p, *m),
{
    match rule {
        Rule::CpuSpike => phrase2("CPU spike detected: ", whole_string(p.cpu_usage as i128), "% → ",
            whole_string(c.cpu_usage as i128), "%"),
        Rule::CpuSustained => phrase("Sustained critical CPU usage: ", whole_string(c.cpu_usage as i128), "%"),
        Rule::MemorySpike => phrase2("Memory spike detected: ", whole_string(p.memory_usage as i128), "% → ",
            whole_string(c.memory_usage as i128), "%"),
        Rule::TemperatureCritical => phrase("Critical temperature reached: ",
            whole_string(c.max_temperature as i128), "°C"),
        Rule::TemperatureDrop => phrase2("Sudden temperature drop: ", whole_string(p.max_temperature as i128),
            "°C → ", whole_string(c.max_temperature as i128), "°C"),
        Rule::SwapActivated => text("SWAP memory activated"),
        Rule::MemoryCritical => phrase("Critical memory usage: ", whole_string(m.memory.usage_percent as i128), "%"),
        Rule::DiskUsage => phrase("Critical disk usage: ", whole_string(get_max_disk_usage(m) as i128), "%"),
        Rule::UsbTimeout => text("USB timeout detected"),
        Rule::DiskIo => phrase("High disk I/O: ", whole_string(get_max_disk_io(m) as i128), " MB/s"),
        Rule::LoadAverage => {
            let r = phrase("Critical load average: ", centi_string(m.cpu.load_avg_15 as i128), "");
            proof {
                reveal_strlit("");
                assert(r@ =~= message_for(rule, *p, *m));
            }
            r
        },
        Rule::GpuTemperature => phrase("Critical GPU temperature: ", whole_string(gpu_number(m, 0)), "°C"),
        Rule::GpuUsage => phrase("Critical GPU usage: ", whole_string(gpu_number(m, 1)), "%"),
        Rule::GpuMemory => phrase("Critical GPU memory usage: ", whole_string(gpu_number(m, 2)), "%"),
    }
}

/// Temperature (0), usage (1), memory usage (2), memory used (3) or memory
/// total (4) of the snapshot's GPU, 0 without one.
fn gpu_number(m: &SystemMetrics, which: u8) -> (r: i128)
    ensures
        which == 0 ==> r == gpu_temperature(*m),
        which == 1 ==> r == gpu_usage(*m),
        which == 2 ==> r == gpu_memory_usage(*m),
        which == 3 ==> r == gpu_memory_used(*m),
        which == 4 ==> r == gpu_memory_total(*m),
        -(u64::MAX as int) <= r <= u64::MAX,
{
    match &m.gpu {
        Some(g) => {
            if which == 0 {
                g.temperature as i128
            } else if which == 1 {
                g.usage_percent as i128
            } else if which == 2 {
                g.memory_usage_percent as i128
            } else if which == 3 {
                g.memory_used_mb as i128
            } else {
                g.memory_total_mb as i128
            }
        },
        None => 0,
    }
}

fn build_measures(rule: Rule, p: &History, c: &History, m: &SystemMetrics, num_cpus: usize) -> (r: Vec<Measure>)
    requires
        *c == History::spec_of(*m),
    ensures
        measures_view(r@) == measures_for(rule, *p, *m, num_cpus),
{
    let mut v: Vec<Measure> = Vec::new();
    match rule {
        Rule::CpuSpike => {
            v.push(measure("previous", p.cpu_usage as i128));
            v.push(measure("current", c.cpu_usage as i128));
            v.push(measure("delta", c.cpu_usage as i128 - p.cpu_usage as i128));
        },
        Rule::CpuSustained => {
            v.push(measure("usage", c.cpu_usage as i128));
        },
        Rule::MemorySpike => {
            v.push(measure("previous", p.memory_usage as i128));
            v.push(measure("current", c.memory_usage as i128));
            v.push(measure("delta", c.memory_usage as i128 - p.memory_usage as i128));
        },
        Rule::TemperatureCritical => {
            v.push(measure("temperature", c.max_temperature as i128));
        },
        Rule::TemperatureDrop => {
            v.push(measure("previous", p.max_temperature as i128));
            v.push(measure("current", c.max_temperature as i128));
            v.push(measure("delta", p.max_temperature as i128 - c.max_temperature as i128));
        },
        Rule::SwapActivated => {
            v.push(measure("swap_used", c.swap_used as i128));
        },
        Rule::MemoryCritical => {
            v.push(measure("usage", m.memory.usage_percent as i128));
        },
        Rule::DiskUsage => {
            v.push(measure("usage", get_max_disk_usage(m) as i128));
        },
        Rule::UsbTimeout => {},
        Rule::DiskIo => {
            v.push(measure("io_mbs", get_max_disk_io(m) as i128));
        },
        Rule::LoadAverage => {
            v.push(measure("load_avg_15", m.cpu.load_avg_15 as i128));
            v.push(measure("threshold", num_cpus as i128 * LOAD_AVG_MULTIPLIER));
            v.push(measure("num_cpus", num_cpus as i128));
        },
        Rule::GpuTemperature => {
            v.push(measure("temperature", gpu_number(m, 0)));
        },
        Rule::GpuUsage => {
            v.push(measure("usage", gpu_number(m, 1)));
        },
        Rule::GpuMemory => {
            v.push(measure("memory_usage", gpu_number(m, 2)));
            v.push(measure("memory_used_mb", gpu_number(m, 3)));
            v.push(measure("memory_total_mb", gpu_number(m, 4)));
        },
    }
    assert(measures_view(v@) =~= measures_for(rule, *p, *m, num_cpus));
    v
}

fn timeout_device_ids(devices: &Vec<UsbDevice>) -> (r: Vec<String>)
    ensures
        texts_view(r@) == timeout_ids(devices@),
{
    let mut out: Vec<String> = Vec::new();
    let mut i: usize = 0;
    while i < devices.len()
        invariant
            i <= devices@.len(),
            texts_view(out@) == timeout_ids(devices@.subrange(0, i as int)),
        decreases devices@.len() - i,
    {
        assert(devices@.subrange(0, i + 1).drop_last() =~= devices@.subrange(0, i as int));
        if devices[i].has_timeout {
            out.push(devices[i].id.clone());
        }
        assert(texts_view(out@) =~= timeout_ids(devices@.subrange(0, i + 1)));
        i = i + 1;
    }
    assert(devices@.subrange(0, i as int) =~= devices@);
    out
}

fn build_subjects(rule: Rule, m: &SystemMetrics) -> (r: Vec<String>)
    ensures
        texts_view(r@) == subjects_for(rule, *m),
{
    let mut v: Vec<String> = Vec::new();
    match rule {
        Rule::UsbTimeout => {
            v = timeout_device_ids(&m.usb_devices);
        },
        Rule::GpuTemperature | Rule::GpuUsage | Rule::GpuMemory => {
            match &m.gpu {
                Some(g) => v.push(g.name.clone()),
                None => {},
            }
        },
        _ => {},
    }
    assert(texts_view(v@) =~= subjects_for(rule, *m));
    v
}

/// The record of `rule` firing on `m` after the tick `p`, with a fresh id
/// and the current time.
fn create_anomaly(rule: Rule, p: &History, c: &History, m: &SystemMetrics, num_cpus: usize) -> (r: Anomaly)
    requires
        *c == History::spec_of(*m),
    ensures
        describes(r, rule, *p, *m, num_cpus),
{
    Anomaly {
        id: new_anomaly_id(),
        timestamp: crate::clock::now_millis(),
        severity: rule.severity(),
        category: rule.category(),
        message: build_message(rule, p, c, m),
        metrics: build_measures(rule, p, c, m, num_cpus),
        subjects: build_subjects(rule, m),
    }
}

/// Anomaly detector that keeps what the comparative rules need of the
/// previous tick.
pub struct AnomalyRules {
    previous_metrics: Option<History>,
    num_cpus: usize,
}

impl AnomalyRules {
    /// What was kept of the previous tick, if any.
    pub closed spec fn history(&self) -> Option<History> {
        self.previous_metrics
    }

    /// The core count that scales the load threshold.
    pub closed spec fn cpu_count(&self) -> usize {
        self.num_cpus
    }

    pub fn new(num_cpus: usize) -> (r: AnomalyRules)
        ensures
            r.history() is None,
            r.cpu_count() == num_cpus,
    {
        AnomalyRules { previous_metrics: None, num_cpus }
    }

    /// Raises one anomaly per rule that fires on `current` and keeps
    /// `current` as the previous tick, whatever fired.
    pub fn check(&mut self, current: &SystemMetrics) -> (r: Vec<Anomaly>)
        ensures
            reports(r@, old(self).history(), *current, old(self).cpu_count()),
            final(self).history() == Some(History::spec_of(*current)),
            final(self).cpu_count() == old(self).cpu_count(),
    {
        let c = History::of(current);
        let rules = evaluate_rules(self.previous_metrics, current, self.num_cpus);
        let p = match self.previous_metrics {
            Some(p) => p,
            None => c,
        };
        let mut out: Vec<Anomaly> = Vec::new();
        let mut i: usize = 0;
        while i < rules.len()
            invariant
                i <= rules@.len(),
                rules@ == detected_rules(self.previous_metrics, *current, self.num_cpus),
                c == History::spec_of(*current),
                p == (match self.previous_metrics { Some(p) => p, None => History::spec_of(*current) }),
                out@.len() == i,
                forall|j: int| 0 <= j < i ==> describes(#[trigger] out@[j], rules@[j], p, *current, self.num_cpus),
            decreases rules@.len() - i,
        {
            let a = create_anomaly(rules[i], &p, &c, current, self.num_cpus);
            out.push(a);
            i = i + 1;
        }
        self.previous_metrics = Some(c);
        out
    }

    /// Forgets the previous tick.
    pub fn reset(&mut self)
        ensures
            final(self).history() is None,
            final(self).cpu_count() == old(self).cpu_count(),
    {
        self.previous_metrics = None;
    }

    /// Whether the comparative rules apply to the next tick.
    pub fn has_previous_metrics(&self) -> (r: bool)
        ensures
            r == self.history() is Some,
    {
        self.previous_metrics.is_some()
    }
}

} // verus!

verus! {

/// The (category, severity) pairs of a report, in order.
pub open spec fn outcomes(r: Seq<Anomaly>) -> Seq<(AnomalyCategory, AnomalySeverity)> {
    r.map_values(|a: Anomaly| (a.category, a.severity))
}

pub open spec fn none_comparative(s: Seq<Rule>) -> bool {
    forall|i: int| 0 <= i < s.len() ==> !(#[trigger] s[i]).is_comparative()
}

proof fn lemma_when_none_comparative(b: bool, r: Rule)
    requires
        !r.is_comparative(),
    ensures
        none_comparative(when(b, r)),
{
}

proof fn lemma_concat_none_comparative(a: Seq<Rule>, b: Seq<Rule>)
    requires
        none_comparative(a),
        none_comparative(b),
    ensures
        none_comparative(a + b),
{
    assert forall|i: int| 0 <= i < (a + b).len() implies !(#[trigger] (a + b)[i]).is_comparative() by {
        if i >= a.len() {
            assert((a + b)[i] == b[i - a.len()]);
        }
    }
}

proof fn lemma_absolute_none_comparative(m: SystemMetrics, num_cpus: usize)
    ensures
        none_comparative(absolute_rules(m, num_cpus)),
{
    let w1 = when(m.memory.usage_percent > MEMORY_CRITICAL_THRESHOLD, Rule::MemoryCritical);
    let w2 = when(spec_max_disk_usage(m.disks@) > DISK_CRITICAL_THRESHOLD, Rule::DiskUsage);
    let w3 = when(spec_has_usb_timeout(m.usb_devices@), Rule::UsbTimeout);
    let w4 = when(spec_max_disk_io(m.disks@) > DISK_IO_HIGH_THRESHOLD, Rule::DiskIo);
    let w5 = when(m.cpu.load_avg_15 > load_threshold(num_cpus as int), Rule::LoadAverage);
    let w6 = when(gpu_over(m.gpu, Rule::GpuTemperature), Rule::GpuTemperature);
    let w7 = when(gpu_over(m.gpu, Rule::GpuUsage), Rule::GpuUsage);
    let w8 = when(gpu_over(m.gpu, Rule::GpuMemory), Rule::GpuMemory);
    lemma_concat_none_comparative(w1, w2);
    lemma_concat_none_comparative(w1 + w2, w3);
    lemma_concat_none_comparative(w1 + w2 + w3, w4);
    lemma_concat_none_comparative(w1 + w2 + w3 + w4, w5);
    lemma_concat_none_comparative(w1 + w2 + w3 + w4 + w5, w6);
    lemma_concat_none_comparative(w1 + w2 + w3 + w4 + w5 + w6, w7);
    lemma_concat_none_comparative(w1 + w2 + w3 + w4 + w5 + w6 + w7, w8);
}

/// Detection is deterministic: two reports on the same snapshot, after the
/// same previous tick and with the same core count, raise the same
/// (category, severity) pairs in the same order, with the same messages and
/// payloads; only ids and timestamps may differ.
pub proof fn lemma_detection_deterministic(
    r1: Seq<Anomaly>,
    r2: Seq<Anomaly>,
    previous: Option<History>,
    m: SystemMetrics,
    num_cpus: usize,
)
    requires
        reports(r1, previous, m, num_cpus),
        reports(r2, previous, m, num_cpus),
    ensures
        outcomes(r1) == outcomes(r2),
        forall|i: int| 0 <= i < r1.len() ==> (#[trigger] r1[i]).message@ == r2[i].message@
            && measures_view(r1[i].metrics@) == measures_view(r2[i].metrics@),
{
    let rules = detected_rules(previous, m, num_cpus);
    assert forall|i: int| 0 <= i < r1.len() implies #[trigger] outcomes(r1)[i] == outcomes(r2)[i] by {
        assert(describes(r1[i], rules[i], match previous { Some(p) => p, None => History::spec_of(m) }, m, num_cpus));
        assert(describes(r2[i], rules[i], match previous { Some(p) => p, None => History::spec_of(m) }, m, num_cpus));
    }
    assert(outcomes(r1) =~= outcomes(r2));
    assert forall|i: int| 0 <= i < r1.len() implies (#[trigger] r1[i]).message@ == r2[i].message@
        && measures_view(r1[i].metrics@) == measures_view(r2[i].metrics@) by {
        assert(describes(r1[i], rules[i], match previous { Some(p) => p, None => History::spec_of(m) }, m, num_cpus));
        assert(describes(r2[i], rules[i], match previous { Some(p) => p, None => History::spec_of(m) }, m, num_cpus));
    }
}

/// Without a previous tick only absolute rules fire: the first check of a
/// detector, or the first after `reset`, raises nothing comparative.
pub proof fn lemma_first_tick_absolute_only(m: SystemMetrics, num_cpus: usize)
    ensures
        none_comparative(detected_rules(None, m, num_cpus)),
{
    lemma_absolute_none_comparative(m, num_cpus);
}

/// Memory usage above 95 % (96 % for one) always raises a critical memory
/// anomaly, whatever the previous tick was.
pub proof fn lemma_memory_critical_always(previous: Option<History>, m: SystemMetrics, num_cpus: usize)
    requires
        m.memory.usage_percent > MEMORY_CRITICAL_THRESHOLD,
    ensures
        detected_rules(previous, m, num_cpus).contains(Rule::MemoryCritical),
        Rule::MemoryCritical.spec_severity() == AnomalySeverity::Critical,
        Rule::MemoryCritical.spec_category() == AnomalyCategory::Memory,
{
    let abs = absolute_rules(m, num_cpus);
    assert(abs[0] == Rule::MemoryCritical);
    match previous {
        Some(p) => {
            let comp = comparative_rules(p, History::spec_of(m));
            assert((comp + abs)[comp.len() as int] == Rule::MemoryCritical);
        },
        None => {},
    }
}

proof fn lemma_concat_contains(a: Seq<Rule>, b: Seq<Rule>, x: Rule)
    ensures
        (a + b).contains(x) <==> a.contains(x) || b.contains(x),
{
    if (a + b).contains(x) {
        let i = choose|i: int| 0 <= i < (a + b).len() && (a + b)[i] == x;
        if i < a.len() {
            assert(a[i] == x);
        } else {
            assert(b[i - a.len()] == x);
        }
    }
    if a.contains(x) {
        let i = choose|i: int| 0 <= i < a.len() && a[i] == x;
        assert((a + b)[i] == x);
    }
    if b.contains(x) {
        let i = choose|i: int| 0 <= i < b.len() && b[i] == x;
        assert((a + b)[i + a.len()] == x);
    }
}

/// Swap activation is edge-triggered: it fires exactly when the previous
/// tick had no swap in use and the current one has some, so it stays silent
/// on the following ticks while swap remains in use.
pub proof fn lemma_swap_activation_edge(previous: History, m: SystemMetrics, num_cpus: usize)
    ensures
        detected_rules(Some(previous), m, num_cpus).contains(Rule::SwapActivated)
            <==> (previous.swap_used == 0 && m.memory.swap_used > 0),
{
    let p = previous;
    let c = History::spec_of(m);
    let w1 = when(c.cpu_usage - p.cpu_usage > CPU_SPIKE_THRESHOLD, Rule::CpuSpike);
    let w2 = when(c.cpu_usage > CPU_CRITICAL_THRESHOLD && p.cpu_usage > CPU_CRITICAL_THRESHOLD, Rule::CpuSustained);
    let w3 = when(c.memory_usage - p.memory_usage > MEMORY_SPIKE_THRESHOLD, Rule::MemorySpike);
    let w4 = when(c.max_temperature > TEMPERATURE_CRITICAL && p.max_temperature <= TEMPERATURE_CRITICAL, Rule::TemperatureCritical);
    let w5 = when(p.max_temperature - c.max_temperature > TEMPERATURE_DROP_THRESHOLD, Rule::TemperatureDrop);
    let w6 = when(c.swap_used > 0 && p.swap_used == 0, Rule::SwapActivated);
    let x = Rule::SwapActivated;
    let abs = absolute_rules(m, num_cpus);
    lemma_absolute_none_comparative(m, num_cpus);
    assert(!abs.contains(x)) by {
        if abs.contains(x) {
            let i = choose|i: int| 0 <= i < abs.len() && abs[i] == x;
            assert(!abs[i].is_comparative());
        }
    }
    lemma_concat_contains(w1, w2, x);
    lemma_concat_contains(w1 + w2, w3, x);
    lemma_concat_contains(w1 + w2 + w3, w4, x);
    lemma_concat_contains(w1 + w2 + w3 + w4, w5, x);
    lemma_concat_contains(w1 + w2 + w3 + w4 + w5, w6, x);
    lemma_concat_contains(comparative_rules(p, c), abs, x);
    assert(w6.contains(x) <==> (c.swap_used > 0 && p.swap_used == 0)) by {
        if c.swap_used > 0 && p.swap_used == 0 {
            assert(w6[0] == x);
        }
    }
}

} // verus!
