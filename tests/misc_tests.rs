use tor_client::metrics::Metrics;
use tor_client::{CircuitError, DirectoryError, TorConfig};

#[test]
fn test_config_defaults() {
    let c = TorConfig::test_config();
    assert_eq!(c.socks_port, 9050);
    assert_eq!(c.control_port, 9051);
    assert!(c.directory_authorities.is_empty());
    assert!(c.uses_mock_directory());
    let d = TorConfig::default();
    assert_eq!(d.socks_port, 9050);
    assert!(d.entry_guards.is_empty());
}

#[test]
fn metrics_report_counts() {
    let m = Metrics::new();
    assert_eq!(
        m.report(),
        "circuits_created: 0, bytes_sent: 0, bytes_received: 0, active_circuits: 0"
    );
    m.bytes_sent.fetch_add(1234, std::sync::atomic::Ordering::Relaxed);
    m.active_circuits.fetch_add(3, std::sync::atomic::Ordering::Relaxed);
    assert_eq!(
        m.report(),
        "circuits_created: 0, bytes_sent: 1234, bytes_received: 0, active_circuits: 3"
    );
}

#[test]
fn errors_convert() {
    let e: tor_client::TorError = CircuitError::NoSuitableRelays.into();
    assert!(matches!(e, tor_client::TorError::Circuit(CircuitError::NoSuitableRelays)));
    let d: tor_client::TorError = DirectoryError::NoSuitableRelays.into();
    assert!(matches!(d, tor_client::TorError::Directory(DirectoryError::NoSuitableRelays)));
}

#[test]
fn report_of_given_values() {
    assert_eq!(
        Metrics::format_report(1, 22, 333, 0),
        "circuits_created: 1, bytes_sent: 22, bytes_received: 333, active_circuits: 0"
    );
}
