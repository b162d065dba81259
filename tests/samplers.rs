use collector::collector::{MetricsCollector, RawReadings};
use collector::cpu::{cpu_metrics, get_load_average};
use collector::disk::{calculate_io_rate, read_diskstats, DiskCollector, DiskSpace};
use collector::gpu::{parse_gpu_output, GpuCollector};
use collector::memory::memory_metrics;
use collector::network::{parse_net_dev, NetworkCollector};
use collector::temperature::{HwmonReading, TemperatureCollector};
use collector::usb::{UsbCollector, UsbEntry};

const NET_DEV_1: &str = "Inter-|   Receive                                                |  Transmit\n face |bytes    packets errs drop fifo frame compressed multicast|bytes    packets errs drop fifo colls carrier compressed\n    lo: 5000 50 0 0 0 0 0 0 5000 50 0 0 0 0 0 0\n  eth0: 1000 10 0 0 0 0 0 0 2000 20 0 0 0 0 0 0\n wlan0: 300 3 0 0 0 0 0 0 400 4 0 0 0 0 0 0\n";
const NET_DEV_2: &str = "Inter-|   Receive                                                |  Transmit\n face |bytes    packets errs drop fifo frame compressed multicast|bytes    packets errs drop fifo colls carrier compressed\n    lo: 9000 90 0 0 0 0 0 0 9000 90 0 0 0 0 0 0\n  eth0: 1500 15 0 0 0 0 0 0 2600 26 0 0 0 0 0 0\n wlan0: 300 3 0 0 0 0 0 0 400 4 0 0 0 0 0 0\n";
const DISKSTATS_1: &str = "   8       0 sda 100 0 8192 0 50 0 4096 0 0 0 0 0 0 0 0\n   8       1 sda1 90 0 8000 0 40 0 4000 0 0 0 0 0 0 0 0\n 259       0 nvme0n1 10 0 100 0 10 0 100 0 0 0 0 0 0 0 0\n";
const DISKSTATS_2: &str = "   8       0 sda 200 0 16384 0 80 0 12288 0 0 0 0 0 0 0 0\n   8       1 sda1 190 0 16000 0 70 0 12000 0 0 0 0 0 0 0 0\n 259       0 nvme0n1 10 0 100 0 10 0 100 0 0 0 0 0 0 0 0\n";

fn disk_spaces() -> Vec<DiskSpace> {
    vec![
        DiskSpace { name: "/dev/sda1".to_string(), mount_point: "/".to_string(), total: 1000, available: 250 },
        DiskSpace { name: "/dev/sdz".to_string(), mount_point: "/mnt".to_string(), total: 0, available: 0 },
    ]
}

fn hwmon_groups() -> Vec<HwmonReading> {
    vec![
        HwmonReading {
            name: Some("k10temp".to_string()),
            inputs: vec![Some(b"45000\n".to_vec()), None, Some(b"51250\n".to_vec())],
            labels: vec![Some("Tctl".to_string()), None, None],
        },
        HwmonReading {
            name: Some("nvme".to_string()),
            inputs: vec![Some(b"38850\n".to_vec()), Some(b"bogus\n".to_vec())],
            labels: vec![Some("Composite".to_string())],
        },
        HwmonReading { name: None, inputs: vec![Some(b" 30000 ".to_vec())], labels: vec![] },
    ]
}

fn usb_entries() -> Vec<UsbEntry> {
    vec![
        UsbEntry {
            vendor: Some("1d6b".to_string()),
            product: Some("0002".to_string()),
            manufacturer: Some("Linux Foundation".to_string()),
            product_name: Some("2.0 root hub".to_string()),
        },
        UsbEntry { vendor: None, product: None, manufacturer: None, product_name: None },
        UsbEntry { vendor: Some("046d".to_string()), product: Some("c52b".to_string()), manufacturer: None, product_name: None },
    ]
}

#[test]
fn test_cpu_collector() {
    let metrics = cpu_metrics(42_500, &vec![10_000, 120_000, -5], None);
    assert!(metrics.global_usage >= 0);
    assert!(metrics.global_usage <= 100_000);
    assert!(!metrics.per_core.is_empty());
    assert_eq!(metrics.per_core, vec![10_000, 100_000, 0]);
}

#[test]
fn test_load_average() {
    let (load1, load5, load15) = get_load_average(Some(b"0.52 1.5 12.125 2/345 6789\n"));
    assert!(load1 >= 0);
    assert!(load5 >= 0);
    assert!(load15 >= 0);
    assert_eq!((load1, load5, load15), (520, 1_500, 12_125));
    assert_eq!(get_load_average(Some(b"0.52 1.5")), (0, 0, 0));
    assert_eq!(get_load_average(None), (0, 0, 0));
}

#[test]
fn test_memory_collector() {
    let metrics = memory_metrics(16_000, 4_000, 12_000, 2_000, 0);
    assert!(metrics.total > 0);
    assert!(metrics.used <= metrics.total);
    assert!(metrics.usage_percent >= 0);
    assert!(metrics.usage_percent <= 100_000);
    assert_eq!(metrics.usage_percent, 25_000);
}

#[test]
fn test_memory_calculation() {
    let metrics = memory_metrics(1000, 900, 100, 0, 0);
    let sum = metrics.used + metrics.available;
    assert!(sum >= metrics.total * 90 / 100);
    assert_eq!(metrics.usage_percent, 90_000);
}

#[test]
fn memory_percent_edges() {
    assert_eq!(memory_metrics(0, 0, 0, 0, 0).usage_percent, 0);
    assert_eq!(memory_metrics(3, 1, 2, 0, 0).usage_percent, 33_333);
    assert_eq!(memory_metrics(10, 20, 0, 0, 0).usage_percent, 100_000);
}

#[test]
fn test_disk_collector() {
    let mut collector = DiskCollector::new(DISKSTATS_1.as_bytes(), 2);
    let metrics = collector.collect(&disk_spaces(), Some(DISKSTATS_2.as_bytes()));
    assert!(!metrics.is_empty());
    for metric in &metrics {
        assert!(!metric.name.is_empty());
        assert!(!metric.mount_point.is_empty());
        assert!(metric.usage_percent >= 0);
        assert!(metric.usage_percent <= 100_000);
    }
    assert_eq!(metrics[0].used, 750);
    assert_eq!(metrics[0].usage_percent, 75_000);
    assert_eq!(metrics[0].read_mb, 2_000);
    assert_eq!(metrics[0].write_mb, 2_000);
    assert_eq!(metrics[1].usage_percent, 0);
    assert_eq!(metrics[1].read_mb, 0);
}

#[test]
fn disk_rates_start_at_zero_and_survive_resets() {
    let mut collector = DiskCollector::new(b"", 2);
    let first = collector.collect(&disk_spaces(), Some(DISKSTATS_2.as_bytes()));
    assert_eq!((first[0].read_mb, first[0].write_mb), (0, 0));
    let reset = collector.collect(&disk_spaces(), Some(DISKSTATS_1.as_bytes()));
    assert_eq!((reset[0].read_mb, reset[0].write_mb), (0, 0));
    let unread = collector.collect(&disk_spaces(), None);
    assert_eq!((unread[0].read_mb, unread[0].write_mb), (0, 0));
}

#[test]
fn test_read_diskstats() {
    let stats = read_diskstats(DISKSTATS_1.as_bytes());
    assert!(!stats.is_empty());
    let names: Vec<Vec<u8>> = stats.iter().map(|s| s.name.clone()).collect();
    assert_eq!(names, vec![b"sda".to_vec(), b"nvme0n1".to_vec()]);
    assert_eq!((stats[0].read_sectors, stats[0].write_sectors), (8192, 4096));
}

#[test]
fn io_rate_matches_whole_disk_name() {
    let previous = read_diskstats(DISKSTATS_1.as_bytes());
    let current = read_diskstats(DISKSTATS_2.as_bytes());
    assert_eq!(calculate_io_rate(&"/dev/sda".to_string(), &current, &previous, 2), (2_000, 2_000));
    assert_eq!(calculate_io_rate(&"sda3".to_string(), &current, &previous, 2), (2_000, 2_000));
    assert_eq!(calculate_io_rate(&"/dev/nvme0n1".to_string(), &current, &previous, 2), (0, 0));
    assert_eq!(calculate_io_rate(&"/dev/sdq".to_string(), &current, &previous, 2), (0, 0));
}

#[test]
fn test_max_usage() {
    let mut collector = DiskCollector::new(DISKSTATS_1.as_bytes(), 2);
    let metrics = collector.collect(&disk_spaces(), Some(DISKSTATS_1.as_bytes()));
    let max = metrics.iter().map(|m| m.usage_percent).max().unwrap_or(0);
    assert!(max >= 0);
    assert!(max <= 100_000);
}

#[test]
fn test_gpu_collector_creation() {
    let collector = GpuCollector::new(false);
    let _ = collector.is_available();
}

#[test]
fn test_gpu_metrics_collection() {
    let collector = GpuCollector::new(false);
    if collector.is_available() {
        let metrics = collector.collect(Some(b"GPU, 50, 10, 5, 8000, 400, 7600, 30.5, 40\n"));
        assert!(metrics.is_some(), "Should collect metrics when nvidia-smi is available");
    } else {
        let metrics = collector.collect(Some(b"GPU, 50, 10, 5, 8000, 400, 7600, 30.5, 40\n"));
        assert!(metrics.is_none(), "Should return None when nvidia-smi is not available");
    }
}

#[test]
fn gpu_row_is_parsed() {
    let collector = GpuCollector::new(true);
    let gpu = collector
        .collect(Some(b"NVIDIA GeForce RTX 3080, 64, 37, 12, 10240, 1234, 9006, [N/A], 41\n"))
        .expect("a full row");
    assert_eq!(gpu.name, "NVIDIA GeForce RTX 3080");
    assert!(gpu.temperature >= 0 && gpu.temperature <= 120_000, "Temperature should be reasonable");
    assert!(gpu.usage_percent >= 0 && gpu.usage_percent <= 100_000, "Usage should be percentage");
    assert!(gpu.memory_total_mb > 0, "Memory total should be positive");
    assert_eq!(gpu.temperature, 64_000);
    assert_eq!(gpu.usage_percent, 37_000);
    assert_eq!(gpu.memory_usage_percent, 12_000);
    assert_eq!((gpu.memory_total_mb, gpu.memory_used_mb, gpu.memory_free_mb), (10240, 1234, 9006));
    assert_eq!(gpu.power_draw_watts, 0);
    assert_eq!(gpu.fan_speed_percent, 41_000);
    assert!(collector.collect(None).is_none());
    assert!(parse_gpu_output(b"   \n").is_none());
    assert!(parse_gpu_output(b"GPU, 1, 2").is_none());
    assert_eq!(parse_gpu_output(b"X, 1, 2, 3, 4, 5, 6, 215.75, 7").unwrap().power_draw_watts, 215_750);
}

#[test]
fn test_network_collector() {
    let mut collector = NetworkCollector::new(Some(NET_DEV_1.as_bytes()));
    let metrics = collector.collect(Some(NET_DEV_2.as_bytes()));
    assert!(metrics.rx_bytes > 0 || metrics.tx_bytes > 0);
    assert_eq!((metrics.rx_bytes, metrics.tx_bytes, metrics.rx_packets, metrics.tx_packets), (500, 600, 5, 6));
}

#[test]
fn network_counter_reset_saturates() {
    let mut collector = NetworkCollector::new(Some(NET_DEV_2.as_bytes()));
    let after_reset = collector.collect(Some(NET_DEV_1.as_bytes()));
    assert_eq!((after_reset.rx_bytes, after_reset.tx_bytes), (0, 0));
    let failed = collector.collect(None);
    assert_eq!(failed.rx_bytes, 0);
    let first_after_failure = collector.collect(Some(NET_DEV_2.as_bytes()));
    assert_eq!(first_after_failure.rx_bytes, 0);
}

#[test]
fn test_read_net_dev() {
    let stats = parse_net_dev(NET_DEV_1.as_bytes());
    assert!(stats.rx_bytes > 0 || stats.tx_bytes > 0);
    assert_eq!((stats.rx_bytes, stats.rx_packets, stats.tx_bytes, stats.tx_packets), (1300, 13, 2400, 24));
}

#[test]
fn test_interface_stats() {
    let collector = NetworkCollector::new(None);
    let interfaces = collector.get_interface_stats(Some(NET_DEV_1.as_bytes()));
    assert!(!interfaces.is_empty());
    for iface in &interfaces {
        assert!(!iface.name.is_empty());
        assert!(iface.name != "lo");
    }
    assert_eq!(interfaces[0].name, "eth0");
    assert_eq!(interfaces[0].tx_packets, 20);
}

#[test]
fn test_established_connections() {
    let collector = NetworkCollector::new(None);
    let tcp = b"  sl  local_address rem_address   st\n   0: 0100007F:0277 00000000:0000 0A\n   1: 0100007F:A1B2 0100007F:1F90 01\n";
    let count = collector.count_established_connections(Some(tcp), None);
    assert!(count > 0);
    assert_eq!(count, 1);
}

#[test]
fn test_total_mb() {
    let collector = NetworkCollector::new(Some(NET_DEV_1.as_bytes()));
    let total = collector.get_total_mb();
    assert_eq!(total, 3);
    assert_eq!(collector.get_throughput_mbps(0), (0, 0));
}

#[test]
fn test_temperature_collector() {
    let collector = TemperatureCollector::new();
    let temps = collector.collect(&hwmon_groups());
    if !temps.is_empty() {
        for temp in &temps {
            assert!(temp.value >= 0);
            assert!(temp.value <= 150_000);
            assert!(!temp.sensor.is_empty());
            assert!(!temp.label.is_empty());
        }
    }
    let seen: Vec<(String, i64, String)> = temps.iter().map(|t| (t.sensor.clone(), t.value, t.label.clone())).collect();
    assert_eq!(seen, vec![
        ("k10temp".to_string(), 45_000, "Tctl".to_string()),
        ("k10temp".to_string(), 51_250, "Sensor 3".to_string()),
        ("nvme".to_string(), 38_850, "Composite".to_string()),
        ("unknown".to_string(), 30_000, "Sensor 1".to_string()),
    ]);
}

#[test]
fn test_max_temp() {
    let collector = TemperatureCollector::new();
    let max = collector.get_max_temp(&hwmon_groups());
    assert!(max >= 0);
    assert_eq!(max, 51_250);
    assert_eq!(collector.get_max_temp(&vec![]), 0);
}

#[test]
fn test_filtered_temps() {
    let collector = TemperatureCollector::new();
    let cpu_temps = collector.get_cpu_temps(&hwmon_groups());
    let nvme_temps = collector.get_nvme_temps(&hwmon_groups());
    let gpu_temps = collector.get_gpu_temps(&hwmon_groups());
    for temp in &cpu_temps {
        assert!(temp.sensor.contains("k10temp") || temp.sensor.contains("coretemp"));
    }
    for temp in &nvme_temps {
        assert!(temp.sensor.contains("nvme"));
    }
    for temp in &gpu_temps {
        assert!(temp.sensor.contains("amdgpu") || temp.sensor.contains("nvidia") || temp.sensor.contains("radeon"));
    }
    assert_eq!(cpu_temps.len(), 2);
    assert_eq!(nvme_temps.len(), 1);
    assert!(gpu_temps.is_empty());
}

#[test]
fn test_usb_collector() {
    let collector = UsbCollector::new();
    let devices = collector.collect(&usb_entries(), None);
    for device in &devices {
        assert!(!device.id.is_empty());
        assert!(!device.manufacturer.is_empty());
        assert!(!device.product.is_empty());
    }
    assert_eq!(devices.len(), 2);
    assert_eq!(devices[1].id, "046d:c52b");
    assert_eq!(devices[1].manufacturer, "Unknown");
    assert_eq!(devices[1].product, "USB Device 046d:c52b");
}

#[test]
fn test_timeout_check() {
    let collector = UsbCollector::new();
    let has_timeouts = collector.has_recent_timeouts(Some(b"[Mon] USB 1-2: device descriptor read/64, Timeout error\n"));
    assert!(has_timeouts);
    assert!(!collector.has_recent_timeouts(Some(b"usb 1-2: new device\n")));
    assert!(!collector.has_recent_timeouts(None));
}

#[test]
fn test_timeout_count() {
    let collector = UsbCollector::new();
    let count = collector.timeout_count(&usb_entries(), Some(b"usb 1d6b:0002-x timeout\n"));
    assert!(count < 10000);
    assert_eq!(count, 0);
    let devices = collector.collect(&usb_entries(), Some(b"usb 1d6b:0002-x timeout\n"));
    assert!(!devices[0].has_timeout);
}

#[test]
fn test_extract_device_id() {
    let collector = UsbCollector::new();
    let test_cases = vec![
        ("usb 1-2: timeout error", Some("1-2")),
        ("device timeout on usb1-2.3", Some("1-2.3")),
        ("no usb info here", None),
    ];
    for (input, expected) in test_cases {
        let result = collector.extract_device_id(input);
        if let Some(expected_id) = expected {
            assert!(result.is_some());
            assert!(result.unwrap().contains(expected_id));
        }
    }
    assert_eq!(collector.extract_device_id("usb 1-2: timeout error"), Some("1-2:".to_string()));
    assert_eq!(collector.extract_device_id("no usb info here"), None);
}

#[test]
fn snapshot_of_one_tick() {
    let mut collector = MetricsCollector::new(DISKSTATS_1.as_bytes(), Some(NET_DEV_1.as_bytes()), false, 2);
    let raw = RawReadings {
        cpu_usage: 12_500,
        per_core: vec![10_000, 15_000],
        loadavg: Some(b"0.10 0.20 0.30 1/100 42\n".to_vec()),
        memory_total: 2_000,
        memory_used: 500,
        memory_available: 1_500,
        swap_total: 100,
        swap_used: 0,
        hwmon: hwmon_groups(),
        disks: disk_spaces(),
        diskstats: Some(DISKSTATS_2.as_bytes().to_vec()),
        usb: usb_entries(),
        kernel_log: None,
        net_dev: Some(NET_DEV_2.as_bytes().to_vec()),
        gpu_output: Some(b"GPU, 50, 10, 5, 8000, 400, 7600, 30.5, 40\n".to_vec()),
    };
    let snapshot = collector.collect_all(&raw);
    assert_eq!(snapshot.cpu.global_usage, 12_500);
    assert_eq!(snapshot.cpu.load_avg_15, 300);
    assert_eq!(snapshot.memory.usage_percent, 25_000);
    assert_eq!(snapshot.temperatures.len(), 4);
    assert_eq!(snapshot.disks[0].read_mb, 2_000);
    assert_eq!(snapshot.usb_devices.len(), 2);
    assert_eq!(snapshot.network.rx_bytes, 500);
    assert!(snapshot.gpu.is_none());
}

#[test]
fn partitions_are_left_out_whole_disks_kept() {
    let text = "259 0 nvme0n1 1 0 4096 0 1 0 2048 0 0 0 0 0 0 0\n259 1 nvme0n1p1 1 0 4000 0 1 0 2000 0 0 0 0 0 0 0\n179 0 mmcblk0 1 0 10 0 1 0 20 0 0 0 0 0 0 0\n179 1 mmcblk0p1 1 0 9 0 1 0 19 0 0 0 0 0 0 0\n8 16 sdb 1 0 7 0 1 0 8 0 0 0 0 0 0 0\n8 17 sdb2 1 0 6 0 1 0 7 0 0 0 0 0 0 0\n";
    let names: Vec<Vec<u8>> = read_diskstats(text.as_bytes()).iter().map(|s| s.name.clone()).collect();
    assert_eq!(names, vec![b"nvme0n1".to_vec(), b"mmcblk0".to_vec(), b"sdb".to_vec()]);
    let lone = read_diskstats(b"259 0 nvme0n1 1 0 4096 0 1 0 2048 0 0 0 0 0 0 0\n");
    assert_eq!(lone.len(), 1);
}

#[test]
fn nvme_rates_follow_the_interval() {
    let before = read_diskstats(b"259 0 nvme0n1 1 0 4096 0 1 0 2048 0 0 0 0 0 0 0\n");
    let after = read_diskstats(b"259 0 nvme0n1 1 0 24576 0 1 0 4096 0 0 0 0 0 0 0\n");
    assert_eq!(calculate_io_rate(&"/dev/nvme0n1".to_string(), &after, &before, 2), (5_000, 500));
    assert_eq!(calculate_io_rate(&"/dev/nvme0n1".to_string(), &after, &before, 5), (2_000, 200));
}
