//! The snapshot and alert records shared by the samplers, the detector and
//! the consumers.
use vstd::prelude::*;

verus! {

/// Largest value of a percentage field: 100 % in thousandths.
pub const PERCENT_MAX: i64 = 100_000;

/// CPU usage: global and per-core usage in thousandths of a percent, load
/// averages over 1, 5 and 15 minutes in thousandths.
#[derive(Debug)]
pub struct CpuMetrics {
    pub global_usage: i64,
    pub per_core: Vec<i64>,
    pub load_avg_1: i64,
    pub load_avg_5: i64,
    pub load_avg_15: i64,
}

/// Memory and swap in bytes; `usage_percent` in thousandths of a percent.
#[derive(Debug)]
pub struct MemoryMetrics {
    pub total: u64,
    pub used: u64,
    pub available: u64,
    pub usage_percent: i64,
    pub swap_total: u64,
    pub swap_used: u64,
}

/// One temperature channel; `value` in thousandths of a degree Celsius.
#[derive(Debug)]
pub struct Temperature {
    pub sensor: String,
    pub value: i64,
    pub label: String,
}

/// One mounted filesystem. Space in bytes, `usage_percent` in thousandths of
/// a percent, `read_mb` / `write_mb` in thousandths of a megabyte per second.
#[derive(Debug)]
pub struct DiskMetrics {
    pub name: String,
    pub mount_point: String,
    pub total: u64,
    pub used: u64,
    pub available: u64,
    pub usage_percent: i64,
    pub read_mb: u64,
    pub write_mb: u64,
}

/// A USB device; `id` is `vendor:product`.
#[derive(Debug)]
pub struct UsbDevice {
    pub id: String,
    pub manufacturer: String,
    pub product: String,
    pub has_timeout: bool,
}

/// Traffic over all non-loopback interfaces since the previous reading.
#[derive(Debug, Clone, Copy, PartialEq, Eq, Structural)]
pub struct NetworkMetrics {
    pub rx_bytes: u64,
    pub tx_bytes: u64,
    pub rx_packets: u64,
    pub tx_packets: u64,
}

/// Readings of a GPU. Temperature in thousandths of a degree, percentages in
/// thousandths of a percent, power in milliwatts, memory in megabytes.
#[derive(Debug)]
pub struct GpuMetrics {
    pub name: String,
    pub temperature: i64,
    pub usage_percent: i64,
    pub memory_usage_percent: i64,
    pub memory_total_mb: u64,
    pub memory_used_mb: u64,
    pub memory_free_mb: u64,
    pub power_draw_watts: i64,
    pub fan_speed_percent: i64,
}

/// Everything captured in one tick. `timestamp` is in milliseconds since the
/// Unix epoch.
#[derive(Debug)]
pub struct SystemMetrics {
    pub timestamp: i64,
    pub cpu: CpuMetrics,
    pub memory: MemoryMetrics,
    pub temperatures: Vec<Temperature>,
    pub disks: Vec<DiskMetrics>,
    pub usb_devices: Vec<UsbDevice>,
    pub network: NetworkMetrics,
    pub gpu: Option<GpuMetrics>,
}

#[derive(Debug, Clone, Copy, PartialEq, Eq, Structural)]
pub enum AnomalySeverity {
    Info,
    Warning,
    Critical,
}

#[derive(Debug, Clone, Copy, PartialEq, Eq, Structural)]
pub enum AnomalyCategory {
    Cpu,
    Memory,
    Temperature,
    Disk,
    Usb,
    Network,
    Gpu,
    System,
}

/// A named number in an anomaly's payload, in the unit of the field it was
/// read from.
#[derive(Debug)]
pub struct Measure {
    pub key: String,
    pub value: i128,
}

/// An alert. `metrics` holds the numbers that justify it and `subjects` the
/// names it concerns (device ids, a GPU name).
#[derive(Debug)]
pub struct Anomaly {
    pub id: String,
    pub timestamp: i64,
    pub severity: AnomalySeverity,
    pub category: AnomalyCategory,
    pub message: String,
    pub metrics: Vec<Measure>,
    pub subjects: Vec<String>,
}

pub open spec fn is_percent(v: i64) -> bool {
    0 <= v <= PERCENT_MAX
}

impl CpuMetrics {
    pub open spec fn wf(&self) -> bool {
        &&& is_percent(self.global_usage)
        &&& forall|i: int| 0 <= i < self.per_core@.len() ==> is_percent(#[trigger] self.per_core@[i])
    }
}

impl DiskMetrics {
    pub open spec fn wf(&self) -> bool {
        is_percent(self.usage_percent)
    }
}

impl GpuMetrics {
    pub open spec fn wf(&self) -> bool {
        &&& is_percent(self.usage_percent)
        &&& is_percent(self.memory_usage_percent)
        &&& is_percent(self.fan_speed_percent)
    }
}

impl SystemMetrics {
    /// Every percentage field lies in `[0, 100 %]`.
    pub open spec fn wf(&self) -> bool {
        &&& self.cpu.wf()
        &&& is_percent(self.memory.usage_percent)
        &&& forall|i: int| 0 <= i < self.disks@.len() ==> (#[trigger] self.disks@[i]).wf()
        &&& (self.gpu matches Some(g) ==> g.wf())
    }
}

} // verus!
