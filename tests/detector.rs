use collector::analyzer::{
    calculate_delta, calculate_rate, classify_severity, get_max_disk_io, get_max_disk_usage,
    get_max_temperature, has_usb_timeout,
};
use collector::rules::{evaluate_rules, AnomalyRules, History, Rule};
use collector::types::{
    Anomaly, AnomalyCategory, AnomalySeverity, CpuMetrics, DiskMetrics, GpuMetrics, MemoryMetrics,
    NetworkMetrics, SystemMetrics, Temperature, UsbDevice,
};

fn create_test_metrics(cpu_usage: i64, mem_usage: i64, temp: i64, swap_used: u64, disk_usage: i64) -> SystemMetrics {
    SystemMetrics {
        timestamp: 0,
        cpu: CpuMetrics {
            global_usage: cpu_usage,
            per_core: vec![],
            load_avg_1: 1_000,
            load_avg_5: 1_000,
            load_avg_15: 1_000,
        },
        memory: MemoryMetrics {
            total: 1000,
            used: (mem_usage / 100) as u64,
            available: ((100_000 - mem_usage) / 100) as u64,
            usage_percent: mem_usage,
            swap_total: 1000,
            swap_used,
        },
        temperatures: vec![Temperature { sensor: "cpu".to_string(), value: temp, label: "CPU".to_string() }],
        disks: vec![DiskMetrics {
            name: "sda".to_string(),
            mount_point: "/".to_string(),
            total: 1000,
            used: (disk_usage / 100) as u64,
            available: ((100_000 - disk_usage) / 100) as u64,
            usage_percent: disk_usage,
            read_mb: 0,
            write_mb: 0,
        }],
        usb_devices: vec![],
        network: NetworkMetrics { rx_bytes: 0, tx_bytes: 0, rx_packets: 0, tx_packets: 0 },
        gpu: None,
    }
}

fn outcomes(a: &[Anomaly]) -> Vec<(AnomalyCategory, AnomalySeverity)> {
    a.iter().map(|x| (x.category, x.severity)).collect()
}

#[test]
fn test_cpu_spike_detection() {
    let mut rules = AnomalyRules::new(8);
    let metrics1 = create_test_metrics(30_000, 50_000, 60_000, 0, 50_000);
    let anomalies1 = rules.check(&metrics1);
    assert_eq!(anomalies1.len(), 0);
    let metrics2 = create_test_metrics(75_000, 50_000, 60_000, 0, 50_000);
    let anomalies2 = rules.check(&metrics2);
    assert!(anomalies2.iter().any(|a| matches!(a.category, AnomalyCategory::Cpu)));
}

#[test]
fn test_memory_critical() {
    let mut rules = AnomalyRules::new(8);
    let metrics = create_test_metrics(50_000, 96_000, 60_000, 0, 50_000);
    let anomalies = rules.check(&metrics);
    assert!(anomalies.iter().any(|a| {
        matches!(a.category, AnomalyCategory::Memory) && matches!(a.severity, AnomalySeverity::Critical)
    }));
}

#[test]
fn test_swap_activation() {
    let mut rules = AnomalyRules::new(8);
    let metrics1 = create_test_metrics(50_000, 70_000, 60_000, 0, 50_000);
    rules.check(&metrics1);
    let metrics2 = create_test_metrics(50_000, 80_000, 60_000, 500, 50_000);
    let anomalies = rules.check(&metrics2);
    assert!(anomalies.iter().any(|a| matches!(a.category, AnomalyCategory::Memory) && a.message.contains("SWAP")));
}

#[test]
fn test_temperature_critical() {
    let mut rules = AnomalyRules::new(8);
    let metrics1 = create_test_metrics(50_000, 50_000, 70_000, 0, 50_000);
    rules.check(&metrics1);
    let metrics2 = create_test_metrics(50_000, 50_000, 90_000, 0, 50_000);
    let anomalies = rules.check(&metrics2);
    assert!(anomalies.iter().any(|a| {
        matches!(a.category, AnomalyCategory::Temperature) && matches!(a.severity, AnomalySeverity::Critical)
    }));
}

#[test]
fn test_reset_state() {
    let mut rules = AnomalyRules::new(8);
    let metrics = create_test_metrics(50_000, 50_000, 60_000, 0, 50_000);
    rules.check(&metrics);
    assert!(rules.has_previous_metrics());
    rules.reset();
    assert!(!rules.has_previous_metrics());
}

#[test]
fn test_classify_severity() {
    assert_eq!(classify_severity(50_000, 70_000, 90_000), None);
    assert_eq!(classify_severity(75_000, 70_000, 90_000), Some(AnomalySeverity::Warning));
    assert_eq!(classify_severity(95_000, 70_000, 90_000), Some(AnomalySeverity::Critical));
}

#[test]
fn test_calculate_rate() {
    assert_eq!(calculate_rate(100_000, 10_000), 10_000);
    assert_eq!(calculate_rate(50_000, 5_000), 10_000);
    assert_eq!(calculate_rate(100_000, 0), 0);
}

#[test]
fn calculate_rate_rounds_toward_zero() {
    assert_eq!(calculate_rate(1_000, 3_000), 333);
    assert_eq!(calculate_rate(-1_000, 3_000), -333);
}

#[test]
fn test_calculate_delta() {
    let mut current = create_test_metrics(80_000, 80_000, 75_000, 500, 50_000);
    current.cpu.load_avg_1 = 2_000;
    current.cpu.load_avg_5 = 1_500;
    current.memory.used = 800;
    current.memory.available = 200;
    current.disks.clear();
    let mut previous = create_test_metrics(40_000, 50_000, 50_000, 0, 50_000);
    previous.memory.used = 500;
    previous.memory.available = 500;
    previous.disks.clear();
    let delta = calculate_delta(&current, &previous);
    assert_eq!(delta.cpu_usage_delta, 40_000);
    assert_eq!(delta.memory_usage_delta, 30_000);
    assert_eq!(delta.temperature_delta, 25_000);
    assert_eq!(delta.swap_delta, 500);
}

#[test]
fn reductions_over_a_snapshot() {
    let mut m = create_test_metrics(10_000, 10_000, 40_000, 0, 20_000);
    m.temperatures.push(Temperature { sensor: "nvme".to_string(), value: 55_500, label: "Composite".to_string() });
    m.disks.push(DiskMetrics {
        name: "sdb".to_string(),
        mount_point: "/data".to_string(),
        total: 10,
        used: 9,
        available: 1,
        usage_percent: 90_000,
        read_mb: 300_000,
        write_mb: 250_000,
    });
    assert_eq!(get_max_temperature(&m), 55_500);
    assert_eq!(get_max_disk_usage(&m), 90_000);
    assert_eq!(get_max_disk_io(&m), 550_000);
    assert!(!has_usb_timeout(&m));
    m.temperatures.clear();
    m.disks.clear();
    assert_eq!(get_max_temperature(&m), 0);
    assert_eq!(get_max_disk_usage(&m), 0);
    assert_eq!(get_max_disk_io(&m), 0);
}

#[test]
fn cpu_spike_scenario_raises_one_warning() {
    let mut rules = AnomalyRules::new(8);
    rules.check(&create_test_metrics(30_000, 50_000, 60_000, 0, 50_000));
    let anomalies = rules.check(&create_test_metrics(75_000, 50_000, 60_000, 0, 50_000));
    assert_eq!(outcomes(&anomalies), vec![(AnomalyCategory::Cpu, AnomalySeverity::Warning)]);
    assert_eq!(anomalies[0].message, "CPU spike detected: 30% → 75%");
    let values: Vec<(String, i128)> = anomalies[0].metrics.iter().map(|m| (m.key.clone(), m.value)).collect();
    assert_eq!(values, vec![
        ("previous".to_string(), 30_000),
        ("current".to_string(), 75_000),
        ("delta".to_string(), 45_000),
    ]);
    assert_eq!(anomalies[0].id.len(), 36);
}

#[test]
fn sustained_cpu_scenario_is_critical_without_spike() {
    let mut rules = AnomalyRules::new(8);
    rules.check(&create_test_metrics(92_000, 50_000, 60_000, 0, 50_000));
    let anomalies = rules.check(&create_test_metrics(93_000, 50_000, 60_000, 0, 50_000));
    assert_eq!(outcomes(&anomalies), vec![(AnomalyCategory::Cpu, AnomalySeverity::Critical)]);
    assert_eq!(anomalies[0].message, "Sustained critical CPU usage: 93%");
}

#[test]
fn temperature_crossing_is_edge_triggered() {
    let mut rules = AnomalyRules::new(8);
    rules.check(&create_test_metrics(50_000, 50_000, 80_000, 0, 50_000));
    let first = rules.check(&create_test_metrics(50_000, 50_000, 88_000, 0, 50_000));
    assert_eq!(outcomes(&first), vec![(AnomalyCategory::Temperature, AnomalySeverity::Critical)]);
    assert_eq!(first[0].message, "Critical temperature reached: 88°C");
    let second = rules.check(&create_test_metrics(50_000, 50_000, 88_000, 0, 50_000));
    assert!(second.is_empty());
}

#[test]
fn swap_activation_fires_once() {
    let mut rules = AnomalyRules::new(8);
    rules.check(&create_test_metrics(50_000, 50_000, 60_000, 0, 50_000));
    let first = rules.check(&create_test_metrics(50_000, 50_000, 60_000, 100, 50_000));
    assert_eq!(outcomes(&first), vec![(AnomalyCategory::Memory, AnomalySeverity::Warning)]);
    assert_eq!(first[0].message, "SWAP memory activated");
    let second = rules.check(&create_test_metrics(50_000, 50_000, 60_000, 200, 50_000));
    assert!(second.is_empty());
}

#[test]
fn memory_above_ninety_five_is_critical_with_or_without_history() {
    let mut fresh = AnomalyRules::new(4);
    let first = fresh.check(&create_test_metrics(50_000, 96_000, 60_000, 0, 50_000));
    assert_eq!(outcomes(&first), vec![(AnomalyCategory::Memory, AnomalySeverity::Critical)]);
    assert_eq!(first[0].message, "Critical memory usage: 96%");
    let again = fresh.check(&create_test_metrics(50_000, 96_000, 60_000, 0, 50_000));
    assert_eq!(outcomes(&again), vec![(AnomalyCategory::Memory, AnomalySeverity::Critical)]);
}

#[test]
fn first_call_raises_nothing_comparative() {
    let mut rules = AnomalyRules::new(8);
    let anomalies = rules.check(&create_test_metrics(99_000, 99_000, 99_000, 5, 50_000));
    assert_eq!(outcomes(&anomalies), vec![(AnomalyCategory::Memory, AnomalySeverity::Critical)]);
}

#[test]
fn detection_is_deterministic() {
    let previous = create_test_metrics(20_000, 40_000, 95_000, 0, 95_000);
    let current = create_test_metrics(95_000, 97_000, 60_000, 10, 95_000);
    let run = || {
        let mut rules = AnomalyRules::new(2);
        rules.check(&previous);
        outcomes(&rules.check(&current))
    };
    let a = run();
    let b = run();
    assert_eq!(a, b);
    assert_eq!(a, vec![
        (AnomalyCategory::Cpu, AnomalySeverity::Warning),
        (AnomalyCategory::Memory, AnomalySeverity::Warning),
        (AnomalyCategory::Temperature, AnomalySeverity::Warning),
        (AnomalyCategory::Memory, AnomalySeverity::Warning),
        (AnomalyCategory::Memory, AnomalySeverity::Critical),
        (AnomalyCategory::Disk, AnomalySeverity::Warning),
    ]);
}

#[test]
fn absolute_rules_in_order() {
    let mut m = create_test_metrics(10_000, 10_000, 40_000, 0, 10_000);
    m.cpu.load_avg_15 = 16_500;
    m.disks[0].read_mb = 400_000;
    m.disks[0].write_mb = 200_000;
    m.usb_devices.push(UsbDevice {
        id: "1d6b:0002".to_string(),
        manufacturer: "Linux".to_string(),
        product: "Hub".to_string(),
        has_timeout: true,
    });
    m.gpu = Some(GpuMetrics {
        name: "RTX".to_string(),
        temperature: 91_000,
        usage_percent: 96_000,
        memory_usage_percent: 97_000,
        memory_total_mb: 8000,
        memory_used_mb: 7800,
        memory_free_mb: 200,
        power_draw_watts: 200_000,
        fan_speed_percent: 80_000,
    });
    let rules = evaluate_rules(None, &m, 8);
    assert_eq!(rules, vec![
        Rule::UsbTimeout,
        Rule::DiskIo,
        Rule::LoadAverage,
        Rule::GpuTemperature,
        Rule::GpuUsage,
        Rule::GpuMemory,
    ]);
    let mut detector = AnomalyRules::new(8);
    let anomalies = detector.check(&m);
    assert_eq!(anomalies[0].subjects, vec!["1d6b:0002".to_string()]);
    assert_eq!(anomalies[1].message, "High disk I/O: 600 MB/s");
    assert_eq!(anomalies[2].message, "Critical load average: 16.50");
    let load: Vec<(String, i128)> = anomalies[2].metrics.iter().map(|x| (x.key.clone(), x.value)).collect();
    assert_eq!(load, vec![
        ("load_avg_15".to_string(), 16_500),
        ("threshold".to_string(), 16_000),
        ("num_cpus".to_string(), 8),
    ]);
    assert_eq!(anomalies[3].message, "Critical GPU temperature: 91°C");
    assert_eq!(anomalies[3].subjects, vec!["RTX".to_string()]);
}

#[test]
fn temperature_drop_and_memory_spike() {
    let previous = History { cpu_usage: 10_000, memory_usage: 10_000, max_temperature: 90_000, swap_used: 0 };
    let current = create_test_metrics(10_000, 40_000, 50_000, 0, 10_000);
    let rules = evaluate_rules(Some(previous), &current, 8);
    assert_eq!(rules, vec![Rule::MemorySpike, Rule::TemperatureDrop]);
    let mut detector = AnomalyRules::new(8);
    detector.check(&create_test_metrics(10_000, 10_000, 90_000, 0, 10_000));
    let anomalies = detector.check(&current);
    assert_eq!(anomalies[0].message, "Memory spike detected: 10% → 40%");
    assert_eq!(anomalies[1].message, "Sudden temperature drop: 90°C → 50°C");
}

#[test]
fn readings_below_zero_leave_the_maximum_at_zero() {
    let mut detector = AnomalyRules::new(8);
    detector.check(&create_test_metrics(10_000, 10_000, 40_000, 0, 10_000));
    let mut cold = create_test_metrics(10_000, 10_000, -5_000, 0, 10_000);
    cold.temperatures.push(Temperature { sensor: "x".to_string(), value: -7_600, label: "y".to_string() });
    let anomalies = detector.check(&cold);
    assert_eq!(outcomes(&anomalies), vec![(AnomalyCategory::Temperature, AnomalySeverity::Warning)]);
    assert_eq!(anomalies[0].message, "Sudden temperature drop: 40°C → 0°C");
}
