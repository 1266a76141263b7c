use procdockerstats::config::{default_true, ConfigError, OtelConfig};
use procdockerstats::dockerd::{dockerd_group, find_main_dockerd_pid, ProcEntry};
use std::time::Duration;

fn cfg(endpoint: &str, name: &str) -> OtelConfig {
    OtelConfig {
        endpoint: endpoint.to_string(),
        service_name: name.to_string(),
        export_interval: Duration::from_secs(10),
        set_global: true,
        resource_kvs: Vec::new(),
    }
}

#[test]
fn set_global_defaults_to_true() {
    assert!(default_true());
}

#[test]
fn validate_accepts_http_and_https() {
    assert!(cfg("http://localhost:4317", "svc").validate().is_ok());
    assert!(cfg("https://collector:4317", "svc").validate().is_ok());
}

#[test]
fn validate_refuses_blank_service_name() {
    assert!(matches!(cfg("http://x", "   \t").validate(), Err(ConfigError::EmptyServiceName)));
    assert!(matches!(cfg("http://x", "").validate(), Err(ConfigError::EmptyServiceName)));
    assert!(matches!(cfg("ftp://x", "\u{3000}").validate(), Err(ConfigError::EmptyServiceName)));
}

#[test]
fn validate_refuses_other_schemes() {
    match cfg("grpc://collector:4317", "svc").validate() {
        Err(ConfigError::BadEndpoint(e)) => assert_eq!(e, "grpc://collector:4317"),
        _ => panic!("expected a bad endpoint"),
    }
    assert!(matches!(cfg("HTTP://x", "svc").validate(), Err(ConfigError::BadEndpoint(_))));
}

fn entry(pid: u32, name: &str, parent: Option<u32>) -> ProcEntry {
    ProcEntry { pid, name: name.to_string(), parent }
}

#[test]
fn main_dockerd_prefers_child_of_init() {
    let procs = vec![
        entry(50, "dockerd", Some(40)),
        entry(40, "dockerd", Some(1)),
        entry(60, "dockerd", Some(40)),
        entry(70, "containerd", Some(40)),
    ];
    assert_eq!(find_main_dockerd_pid(&procs), Some(40));
    assert_eq!(dockerd_group(&procs, 40), vec![0, 1, 2]);
}

#[test]
fn main_dockerd_falls_back_to_first() {
    let procs = vec![entry(5, "bash", Some(1)), entry(9, "dockerd", None), entry(8, "dockerd", Some(3))];
    assert_eq!(find_main_dockerd_pid(&procs), Some(9));
    assert_eq!(find_main_dockerd_pid(&vec![entry(5, "bash", Some(1))]), None);
}

#[test]
fn resource_attributes_lead_with_service_name() {
    let mut c = cfg("http://x", "telemetry");
    c.resource_kvs = vec![("host".to_string(), "sw1".to_string()), ("env".to_string(), "lab".to_string())];
    let attrs = c.resource_attributes();
    assert_eq!(
        attrs,
        vec![
            ("service.name".to_string(), "telemetry".to_string()),
            ("host".to_string(), "sw1".to_string()),
            ("env".to_string(), "lab".to_string()),
        ]
    );
}
