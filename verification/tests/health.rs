use mongodb_influxdb::health::{health_message, health_status_verdict, HealthOutcome};
use mongodb_influxdb::HEALTH_SOCKET_PATH;

#[test]
fn healthy() {
    let reports = vec![
        ("first".to_string(), HealthOutcome::Healthy),
        ("second".to_string(), HealthOutcome::Healthy),
    ];

    assert_eq!(health_message(&reports), "OK");
}

#[test]
fn unhealthy() {
    let reports = vec![
        ("first".to_string(), HealthOutcome::Healthy),
        ("second".to_string(), HealthOutcome::Unhealthy),
        ("third".to_string(), HealthOutcome::RoundtripError),
    ];

    let message = health_message(&reports);

    assert!(message.contains("component `second` is unhealthy"));
    assert!(message.contains("component `third`: health channel roundtrip error"));
    assert_eq!(
        message,
        "component `second` is unhealthy & component `third`: health channel roundtrip error"
    );
}

#[test]
fn empty_report_is_healthy() {
    assert_eq!(health_message(&vec![]), "OK");
}

#[test]
fn verdict_accepts_ok() {
    assert_eq!(health_status_verdict("OK"), Ok(()));
    assert_eq!(health_status_verdict("  OK\n"), Ok(()));
}

#[test]
fn verdict_refuses_complaints() {
    assert_eq!(
        health_status_verdict(" component `a` is unhealthy\n"),
        Err("component `a` is unhealthy".to_string())
    );
    assert_eq!(health_status_verdict(""), Err(String::new()));
    assert_eq!(health_status_verdict("ok"), Err("ok".to_string()));
}

#[test]
fn verdict_of_message() {
    let reports = vec![("db".to_string(), HealthOutcome::Unhealthy)];
    assert!(health_status_verdict(&health_message(&reports)).is_err());
    let reports = vec![("db".to_string(), HealthOutcome::Healthy)];
    assert!(health_status_verdict(&health_message(&reports)).is_ok());
}

#[test]
fn socket_path_is_abstract() {
    assert_eq!(HEALTH_SOCKET_PATH, "\0mongodb-influxdb-health");
}
