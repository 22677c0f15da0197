use root::metrics::{BandwidthManager, Metrics};

#[test]
fn counters_and_report() {
    let mut m = Metrics::new();
    m.connection_opened();
    m.packet_received(20);
    m.packet_received(0);
    assert_eq!(
        m.response(),
        "HTTP/1.1 200 OK\r\nContent-Type: application/json\r\n\r\n{\"bytes_received\": 28, \"active_connections\": 1}"
    );
}

#[test]
fn bandwidth_defaults() {
    assert_eq!(BandwidthManager::new(0).rate(), 10 * 1024 * 1024);
    assert_eq!(BandwidthManager::new(7).rate(), 7);
    assert_eq!(BandwidthManager::new(7).check(0), None);
    assert_eq!(BandwidthManager::new(7).check(9), Some(9));
}
