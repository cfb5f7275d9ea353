use std::path::PathBuf;
use std::time::Duration;

use cfdpip::ip::Ipv4Address;
use cfdpip::ip_monitor::{IpMonitorConfig, IpMonitorMessage, MonitorState, PersistentData};
use cfdpip::outside::UtcTime;

fn ip(a: u8, b: u8, c: u8, d: u8) -> Ipv4Address {
    Ipv4Address::new(a, b, c, d)
}

const T0: UtcTime = UtcTime { seconds: 1_700_000_000, nanos: 5 };

#[test]
fn monitor_config_defaults() {
    let c = IpMonitorConfig::default();
    assert_eq!(c.wait_time, Duration::from_secs(600));
    assert_eq!(c.persistent_file, None);
}

#[test]
fn monitor_config_clones() {
    let c = IpMonitorConfig::default().with_persistent_file(PathBuf::from("a.json"));
    assert_eq!(c.clone(), c);
}

#[test]
fn monitor_config_setters() {
    let c = IpMonitorConfig::default()
        .with_persistent_file(PathBuf::from("/tmp/data.json"))
        .with_wait_time(Duration::from_secs(5));
    assert_eq!(c.wait_time, Duration::from_secs(5));
    assert_eq!(c.persistent_file, Some(PathBuf::from("/tmp/data.json")));
}

#[test]
fn persistent_data_at_keeps_ip_and_time() {
    let d = PersistentData::at(ip(1, 2, 3, 4), T0);
    assert_eq!(d, PersistentData { last_known_ip: ip(1, 2, 3, 4), time: T0 });
}

#[test]
fn monitor_start_resumes_from_persisted() {
    let d = PersistentData::at(ip(9, 9, 9, 9), T0);
    let (state, msg) = MonitorState::start(Some(d));
    assert_eq!(state.last_ip(), Some(ip(9, 9, 9, 9)));
    assert_eq!(msg, IpMonitorMessage::Started);
    let (state, _) = MonitorState::start(None);
    assert_eq!(state.last_ip(), None);
}

#[test]
fn monitor_first_lookup_is_recorded_but_not_reported() {
    let config = IpMonitorConfig::default().with_persistent_file(PathBuf::from("data.json"));
    let (mut state, _) = MonitorState::start(None);
    let a = state.observe(Some(ip(1, 1, 1, 1)), &config, T0);
    assert_eq!(a.message, None);
    assert_eq!(a.persist, Some(PersistentData { last_known_ip: ip(1, 1, 1, 1), time: T0 }));
    assert!(a.wait);
    assert_eq!(state.last_ip(), Some(ip(1, 1, 1, 1)));
}

#[test]
fn monitor_reports_change_and_no_change() {
    let config = IpMonitorConfig::default();
    let (mut state, _) = MonitorState::start(Some(PersistentData::at(ip(1, 1, 1, 1), T0)));
    let a = state.observe(Some(ip(1, 1, 1, 1)), &config, T0);
    assert_eq!(a.message, Some(IpMonitorMessage::NoChange));
    assert_eq!(a.persist, None);
    let a = state.observe(Some(ip(2, 2, 2, 2)), &config, T0);
    assert_eq!(
        a.message,
        Some(IpMonitorMessage::IpChanged { old_ip: ip(1, 1, 1, 1), new_ip: ip(2, 2, 2, 2) })
    );
    // no persistent file configured: nothing to write
    assert_eq!(a.persist, None);
    let a = state.observe(Some(ip(2, 2, 2, 2)), &config, T0);
    assert_eq!(a.message, Some(IpMonitorMessage::NoChange));
}

#[test]
fn monitor_failed_lookup_retries_at_once() {
    let config = IpMonitorConfig::default().with_persistent_file(PathBuf::from("data.json"));
    let (mut state, _) = MonitorState::start(Some(PersistentData::at(ip(3, 3, 3, 3), T0)));
    let a = state.observe(None, &config, T0);
    assert_eq!(
        a.message,
        Some(IpMonitorMessage::Error(String::from("Failed to get public IP address")))
    );
    assert_eq!(a.persist, None);
    assert!(!a.wait);
    assert_eq!(state.last_ip(), Some(ip(3, 3, 3, 3)));
}

#[test]
fn monitor_changes_form_a_chain() {
    let config = IpMonitorConfig::default();
    let (mut state, _) = MonitorState::start(None);
    let lookups = [
        Some(ip(1, 0, 0, 1)),
        None,
        Some(ip(1, 0, 0, 1)),
        Some(ip(1, 0, 0, 2)),
        None,
        Some(ip(1, 0, 0, 3)),
        Some(ip(1, 0, 0, 3)),
    ];
    let mut changes = Vec::new();
    for l in lookups {
        if let Some(IpMonitorMessage::IpChanged { old_ip, new_ip }) = state.observe(l, &config, T0).message {
            changes.push((old_ip, new_ip));
        }
    }
    assert_eq!(
        changes,
        vec![(ip(1, 0, 0, 1), ip(1, 0, 0, 2)), (ip(1, 0, 0, 2), ip(1, 0, 0, 3))]
    );
    assert_eq!(state.last_ip(), Some(ip(1, 0, 0, 3)));
}
