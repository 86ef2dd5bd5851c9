use sysport::alert::{AlertLevel, AlertManager, AlertRule};
use sysport::metrics::{DiskMetrics, Metrics};

fn snapshot() -> Metrics {
    let mut m = Metrics::default();
    m.cpu_total = 9550;
    m.mem_total = 1000;
    m.mem_used = 950;
    m.net_rx = 2 * 1024 * 1024;
    m.net_tx = 100;
    m
}

#[test]
fn default_rule_set_has_five_rules() {
    let manager = AlertManager::new();
    assert_eq!(manager.rules.len(), 5);
    assert!(manager.active_alerts.is_empty());
}

#[test]
fn evaluate_is_idempotent() {
    let mut manager = AlertManager::new();
    let m = snapshot();
    manager.check(&m, 42);
    let first: Vec<(String, AlertLevel)> = manager
        .active_alerts
        .iter()
        .map(|a| (a.message.clone(), a.level.clone()))
        .collect();
    manager.check(&m, 42);
    let second: Vec<(String, AlertLevel)> = manager
        .active_alerts
        .iter()
        .map(|a| (a.message.clone(), a.level.clone()))
        .collect();
    assert_eq!(first.len(), second.len());
    assert_eq!(first, second);
}

#[test]
fn cpu_alert_message_is_exact() {
    let mut manager = AlertManager { rules: Vec::new(), active_alerts: Vec::new() };
    manager.rules.push(AlertRule::CpuUsage { threshold: 9000, level: AlertLevel::Warning });
    let m = snapshot();
    manager.check(&m, 7);
    assert_eq!(manager.active_alerts.len(), 1);
    assert_eq!(manager.active_alerts[0].message, "CPU usage high: 95.5%");
    assert_eq!(manager.active_alerts[0].level, AlertLevel::Warning);
    assert_eq!(manager.active_alerts[0].timestamp, 7);
}

#[test]
fn memory_alert_fires_above_threshold() {
    let mut manager = AlertManager { rules: Vec::new(), active_alerts: Vec::new() };
    manager.rules.push(AlertRule::MemUsage { threshold: 9000, level: AlertLevel::Critical });
    let m = snapshot();
    manager.check(&m, 0);
    assert_eq!(manager.active_alerts.len(), 1);
    assert_eq!(manager.active_alerts[0].message, "Memory usage high: 95.0%");
    assert_eq!(manager.active_alerts[0].level, AlertLevel::Critical);
}

#[test]
fn memory_alert_guards_zero_total() {
    let mut manager = AlertManager { rules: Vec::new(), active_alerts: Vec::new() };
    manager.rules.push(AlertRule::MemUsage { threshold: 0, level: AlertLevel::Warning });
    let mut m = Metrics::default();
    m.mem_total = 0;
    m.mem_used = 10;
    manager.check(&m, 0);
    assert!(manager.active_alerts.is_empty());
}

#[test]
fn disk_alert_fires_once_per_disk_over_threshold() {
    let mut manager = AlertManager { rules: Vec::new(), active_alerts: Vec::new() };
    manager.rules.push(AlertRule::DiskUsage { threshold: 9500, level: AlertLevel::Warning });
    let mut m = Metrics::default();
    m.disks.push(DiskMetrics { name: "sda".to_string(), total: 1000, available: 40 });
    m.disks.push(DiskMetrics { name: "sdb".to_string(), total: 1000, available: 500 });
    manager.check(&m, 0);
    assert_eq!(manager.active_alerts.len(), 1);
    assert_eq!(manager.active_alerts[0].message, "Disk sda usage high: 96.0%");
}

#[test]
fn network_alert_message_is_exact() {
    let mut manager = AlertManager { rules: Vec::new(), active_alerts: Vec::new() };
    manager.rules.push(AlertRule::NetRx { threshold: 1024 * 1024, level: AlertLevel::Info });
    let m = snapshot();
    manager.check(&m, 0);
    assert_eq!(manager.active_alerts.len(), 1);
    assert_eq!(manager.active_alerts[0].message, "High network download: 2048.00 KB/s");
    assert_eq!(manager.active_alerts[0].level, AlertLevel::Info);
}

#[test]
fn no_accumulation_across_checks() {
    let mut manager = AlertManager::new();
    let m = snapshot();
    manager.check(&m, 1);
    let n = manager.active_alerts.len();
    for t in 2..10 {
        manager.check(&m, t);
        assert_eq!(manager.active_alerts.len(), n);
    }
}

#[test]
fn quiet_snapshot_yields_no_alerts() {
    let mut manager = AlertManager::new();
    let m = Metrics::default();
    manager.check(&m, 0);
    assert!(manager.active_alerts.is_empty());
}
