use collector::config::{Config, ConfigError, ServerConfig};
use collector::state::{CurrentState, ANOMALY_CAPACITY};
use collector::types::{Anomaly, AnomalyCategory, AnomalySeverity};
use collector::view::{get_severity_symbol, AnomaliesViewState};

fn anomaly(n: usize) -> Anomaly {
    Anomaly {
        id: format!("{}", n),
        timestamp: n as i64,
        severity: AnomalySeverity::Info,
        category: AnomalyCategory::System,
        message: format!("event {}", n),
        metrics: vec![],
        subjects: vec![],
    }
}

#[test]
fn test_default_config() {
    let config = ServerConfig::default();
    assert_eq!(config.host, "127.0.0.1");
    assert_eq!(config.port, 8080);
    assert!(config.enable_cors);
    assert!(!config.cors_origins.is_empty());
}

#[test]
fn client_config_defaults() {
    let config = Config::default();
    assert_eq!(config.api_url, "http://localhost:8080");
    assert_eq!(config.refresh_rate_secs, 2);
    assert!(!config.use_websocket);
}

#[test]
fn recent_anomalies_keep_the_newest_hundred() {
    let mut state = CurrentState::new();
    state.append_anomalies((0..60).map(anomaly).collect());
    assert_eq!(state.recent_anomalies().len(), 60);
    state.append_anomalies((60..130).map(anomaly).collect());
    let ids: Vec<String> = state.recent_anomalies().iter().map(|a| a.id.clone()).collect();
    assert_eq!(ids.len(), ANOMALY_CAPACITY);
    let expected: Vec<String> = (30..130).map(|n| format!("{}", n)).collect();
    assert_eq!(ids, expected);
    state.append_anomalies(vec![]);
    assert_eq!(state.recent_anomalies().len(), 100);
    assert!(state.latest().is_none());
}

#[test]
fn list_selection_moves_and_wraps() {
    let mut s = AnomaliesViewState::default();
    assert_eq!(s.selected, Some(0));
    s.scroll_up(5);
    assert_eq!(s.selected, Some(4));
    s.scroll_down(5);
    assert_eq!(s.selected, Some(0));
    s.scroll_page_down(5, 3);
    assert_eq!(s.selected, Some(3));
    s.scroll_page_down(5, 3);
    assert_eq!(s.selected, Some(4));
    s.scroll_page_up(5, 10);
    assert_eq!(s.selected, Some(0));
    s.scroll_to_newest(7);
    assert_eq!(s.selected, Some(6));
    s.scroll_down(0);
    assert_eq!(s.selected, Some(6));
    assert_eq!(get_severity_symbol(&AnomalySeverity::Critical), "✖");
}

fn args(list: &[&str]) -> Vec<String> {
    list.iter().map(|s| s.to_string()).collect()
}

#[test]
fn client_arguments() {
    let c = Config::from_args(&args(&["tui", "-u", "http://10.0.0.2:8080", "--refresh", "5", "-w"])).unwrap();
    assert_eq!(c.api_url, "http://10.0.0.2:8080");
    assert_eq!(c.refresh_rate_secs, 5);
    assert!(c.use_websocket);
    let d = Config::from_args(&args(&["tui"])).unwrap();
    assert_eq!(d.refresh_rate_secs, 2);
    assert!(matches!(Config::from_args(&args(&["tui", "-h"])), Err(ConfigError::HelpRequested)));
    assert!(matches!(Config::from_args(&args(&["tui", "-r"])), Err(ConfigError::MissingValue(ref s)) if s == "-r"));
    assert!(matches!(Config::from_args(&args(&["tui", "-r", "soon"])), Err(ConfigError::InvalidRefreshRate(ref s)) if s == "soon"));
    assert!(matches!(Config::from_args(&args(&["tui", "--verbose"])), Err(ConfigError::UnknownArgument(ref s)) if s == "--verbose"));
}
