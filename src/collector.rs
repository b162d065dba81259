//! One tick of sampling: every sampler on what was read from the OS,
//! assembled into a timestamped snapshot.
use vstd::prelude::*;
use crate::cpu::{clamp_percent, cpu_metrics, load_averages};
use crate::disk::{diskstats_entries, disk_metrics_of, DiskCollector, DiskSpace};
use crate::gpu::{gpu_reading, gpu_view, GpuCollector};
use crate::memory::{memory_metrics, usage_percent_of};
use crate::network::{read_stats, traffic, NetworkCollector};
use crate::temperature::{all_readings, temperatures_view, HwmonReading, TemperatureCollector};
use crate::text::{borrow_read, owned_read_view};
use crate::types::SystemMetrics;
use crate::usb::{devices_of, devices_view, log_timeouts, UsbCollector, UsbEntry};

verus! {

/// Everything read from the OS for one tick; `None` where a read failed.
/// CPU usage is in thousandths of a percent, memory in bytes.
pub struct RawReadings {
    pub cpu_usage: i64,
    pub per_core: Vec<i64>,
    pub loadavg: Option<Vec<u8>>,
    pub memory_total: u64,
    pub memory_used: u64,
    pub memory_available: u64,
    pub swap_total: u64,
    pub swap_used: u64,
    pub hwmon: Vec<HwmonReading>,
    pub disks: Vec<DiskSpace>,
    pub diskstats: Option<Vec<u8>>,
    pub usb: Vec<UsbEntry>,
    pub kernel_log: Option<Vec<u8>>,
    pub net_dev: Option<Vec<u8>>,
    pub gpu_output: Option<Vec<u8>>,
}

/// The samplers that keep state between ticks.
pub struct MetricsCollector {
    temperature: TemperatureCollector,
    disk: DiskCollector,
    usb: UsbCollector,
    network: NetworkCollector,
    gpu: GpuCollector,
}

impl MetricsCollector {
    /// What the disk sampler kept of the previous read.
    pub closed spec fn disk_previous(&self) -> Seq<(Seq<u8>, u64, u64)> {
        self.disk.previous()
    }

    /// What the network sampler kept of the previous read.
    pub closed spec fn network_previous(&self) -> Option<crate::network::NetworkStats> {
        self.network.previous()
    }

    /// Seconds between two ticks, as the disk rates assume.
    pub closed spec fn disk_interval(&self) -> u64 {
        self.disk.interval()
    }

    pub closed spec fn wf(&self) -> bool {
        self.disk.wf()
    }

    pub closed spec fn gpu_available(&self) -> bool {
        self.gpu.available()
    }

    /// Starts from first reads of `/proc/diskstats` and `/proc/net/dev`,
    /// ticks coming every `interval_secs` seconds; `gpu_available` says
    /// whether the GPU tool was found.
    pub fn new(diskstats: &[u8], net_dev: Option<&[u8]>, gpu_available: bool, interval_secs: u64) -> (r: MetricsCollector)
        requires
            interval_secs > 0,
        ensures
            r.wf(),
            r.disk_interval() == interval_secs,
            r.disk_previous() == diskstats_entries(diskstats@),
            r.network_previous() == read_stats(crate::text::read_view(net_dev)),
            r.gpu_available() == gpu_available,
    {
        MetricsCollector {
            temperature: TemperatureCollector::new(),
            disk: DiskCollector::new(diskstats, interval_secs),
            usb: UsbCollector::new(),
            network: NetworkCollector::new(net_dev),
            gpu: GpuCollector::new(gpu_available),
        }
    }

    /// The snapshot of one tick. No sampler failure stops it: a failed read
    /// gives that domain's default. Every percentage is in `[0, 100 %]`.
    pub fn collect_all(&mut self, raw: &RawReadings) -> (r: SystemMetrics)
        requires
            old(self).wf(),
        ensures
            r.wf(),
            final(self).wf(),
            final(self).disk_interval() == old(self).disk_interval(),
            r.cpu.global_usage == clamp_percent(raw.cpu_usage),
            r.cpu.per_core@.len() == raw.per_core@.len(),
            forall|i: int| 0 <= i < raw.per_core@.len() ==> #[trigger] r.cpu.per_core@[i] == clamp_percent(raw.per_core@[i]),
            (r.cpu.load_avg_1, r.cpu.load_avg_5, r.cpu.load_avg_15)
                == match owned_read_view(raw.loadavg) { Some(c) => load_averages(c), None => (0i64, 0i64, 0i64) },
            r.memory.total == raw.memory_total,
            r.memory.used == raw.memory_used,
            r.memory.available == raw.memory_available,
            r.memory.swap_total == raw.swap_total,
            r.memory.swap_used == raw.swap_used,
            r.memory.usage_percent == usage_percent_of(raw.memory_total, raw.memory_used),
            temperatures_view(r.temperatures@) == all_readings(raw.hwmon@),
            r.disks@.len() == raw.disks@.len(),
            forall|i: int| 0 <= i < r.disks@.len() ==> disk_metrics_of(raw.disks@[i],
                match owned_read_view(raw.diskstats) { Some(c) => diskstats_entries(c), None => Seq::empty() },
                old(self).disk_previous(), old(self).disk_interval(), #[trigger] r.disks@[i]),
            final(self).disk_previous()
                == match owned_read_view(raw.diskstats) { Some(c) => diskstats_entries(c), None => Seq::empty() },
            devices_view(r.usb_devices@) == devices_of(raw.usb@, log_timeouts(owned_read_view(raw.kernel_log))),
            r.network == traffic(read_stats(owned_read_view(raw.net_dev)), old(self).network_previous()),
            final(self).network_previous() == read_stats(owned_read_view(raw.net_dev)),
            !old(self).gpu_available() ==> r.gpu is None,
            old(self).gpu_available() && raw.gpu_output is None ==> r.gpu is None,
            old(self).gpu_available() && raw.gpu_output is Some ==> match (r.gpu, gpu_reading(owned_read_view(raw.gpu_output).unwrap())) {
                (Some(g), Some(v)) => gpu_view(g) == v,
                (None, None) => true,
                _ => false,
            },
            final(self).gpu_available() == old(self).gpu_available(),
    {
        let cpu = cpu_metrics(raw.cpu_usage, &raw.per_core, borrow_read(&raw.loadavg));
        let memory = memory_metrics(raw.memory_total, raw.memory_used, raw.memory_available, raw.swap_total, raw.swap_used);
        let temperatures = self.temperature.collect(&raw.hwmon);
        let disks = self.disk.collect(&raw.disks, borrow_read(&raw.diskstats));
        let usb_devices = self.usb.collect(&raw.usb, borrow_read(&raw.kernel_log));
        let network = self.network.collect(borrow_read(&raw.net_dev));
        let gpu = self.gpu.collect(borrow_read(&raw.gpu_output));
        SystemMetrics {
            timestamp: crate::clock::now_millis(),
            cpu,
            memory,
            temperatures,
            disks,
            usb_devices,
            network,
            gpu,
        }
    }
}

} // verus!
