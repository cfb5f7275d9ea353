use std::path::PathBuf;
use std::time::Duration;

use cfdpip::commands::{
    after_update_attempt, check_zone, current_command, ip_change_payload, ip_change_topic,
    monitor_config, mqtt_settings, parse_bool_text, parse_u16_text, update_requests,
    zone_ids_from_list, CheckArguments, CheckStep, CurrentArguments, MonitorArguments,
    MqttSettings, UpdateCall, UpdateOutcome, UpdateRun, UpdateStep,
};
use cfdpip::ip::Ipv4Address;
use cfdpip::models::{DNSRecord, DNSType, ZoneId};

fn record(t: DNSType, name: &str, content: &str, id: &str) -> DNSRecord {
    let mut r = DNSRecord::default();
    r.record_type = t;
    r.name = name.to_string();
    r.content = content.to_string();
    r.id = id.to_string();
    r
}

#[test]
fn current_prints_address_or_fails() {
    let args = CurrentArguments {};
    assert_eq!(
        current_command(&args, Some(Ipv4Address::new(8, 8, 4, 4))),
        (0, String::from("8.8.4.4"))
    );
    assert_eq!(current_command(&args, None), (1, String::from("Could not get public IP")));
}

#[test]
fn check_zone_reports_records() {
    let zone = ZoneId::new("zone1").unwrap();
    let records = vec![
        record(DNSType::A, "example.com", "1.2.3.4", "1"),
        record(DNSType::DNSKEY, "k.example.com", "1.2.3.4", "2"),
        record(DNSType::SMIMEA, "m.example.com", "1.2.3.4", "3"),
    ];
    assert_eq!(
        check_zone(&CheckArguments {}, &zone, Some(&records)),
        CheckStep::Report(String::from(
            "Affected records in zone zone1:\nA example.com\nDNSKEY k.example.com\nSMIMEA m.example.com"
        ))
    );
}

#[test]
fn check_zone_passes_over_empty_and_stops_on_failure() {
    let zone = ZoneId::new("zone1").unwrap();
    assert_eq!(check_zone(&CheckArguments {}, &zone, Some(&Vec::new())), CheckStep::Next);
    assert_eq!(check_zone(&CheckArguments {}, &zone, None), CheckStep::Exit(1));
}

#[test]
fn update_requests_point_records_at_new_ip() {
    let records = vec![
        record(DNSType::A, "a.example.com", "1.1.1.1", "id-a"),
        record(DNSType::A, "b.example.com", "1.1.1.1", "id-b"),
    ];
    let reqs = update_requests(records, Ipv4Address::new(2, 2, 2, 2));
    assert_eq!(reqs.len(), 2);
    assert_eq!(reqs[0].content, "2.2.2.2");
    assert_eq!(reqs[0].name, "a.example.com");
    assert_eq!(reqs[0].id, "id-a");
    assert_eq!(reqs[1].content, "2.2.2.2");
    assert_eq!(reqs[1].name, "b.example.com");
    assert_eq!(reqs[1].id, "id-b");
    assert_eq!(update_requests(Vec::new(), Ipv4Address::new(2, 2, 2, 2)).len(), 0);
}

#[test]
fn zone_ids_from_list_reads_each_zone() {
    let ids = zone_ids_from_list("aaa, bbb\n# comment\nccc");
    let texts: Vec<&str> = ids.iter().map(|z| z.as_str()).collect();
    assert_eq!(texts, vec!["aaa", "bbb", "ccc"]);
}

#[test]
fn zone_ids_from_list_accepts_32_bytes() {
    let ids = zone_ids_from_list(&"x".repeat(32));
    assert_eq!(ids.len(), 1);
    assert_eq!(ids[0].as_str(), "x".repeat(32));
}

#[test]
fn monitor_config_from_arguments() {
    let args = MonitorArguments { check_delay: 300, data_file: None };
    let c = monitor_config(&args, PathBuf::from("/default/data.json"));
    assert_eq!(c.wait_time, Duration::from_secs(300));
    assert_eq!(c.persistent_file, Some(PathBuf::from("/default/data.json")));
    let args = MonitorArguments { check_delay: 7, data_file: Some(PathBuf::from("mine.json")) };
    let c = monitor_config(&args, PathBuf::from("/default/data.json"));
    assert_eq!(c.wait_time, Duration::from_secs(7));
    assert_eq!(c.persistent_file, Some(PathBuf::from("mine.json")));
}

#[test]
fn parse_bool_text_like_std() {
    for s in ["true", "false", "True", "", "1", " true"] {
        assert_eq!(parse_bool_text(&s.to_string()), s.parse::<bool>().ok(), "{s:?}");
    }
}

#[test]
fn parse_u16_text_like_std() {
    for s in ["1883", "+1883", "0", "00080", "65535", "65536", "", "+", "-1", "12a", "999999999", "0000000000065535"] {
        assert_eq!(parse_u16_text(&s.to_string()), s.parse::<u16>().ok(), "{s:?}");
    }
}

fn some(s: &str) -> Option<String> {
    Some(s.to_string())
}

const DRAWS: [usize; 6] = [0, 1, 2, 6, 7, 15];

#[test]
fn mqtt_disabled_by_default() {
    assert_eq!(mqtt_settings(None, None, None, None, None, &DRAWS.to_vec()), None);
    assert_eq!(mqtt_settings(some("false"), some("h"), None, None, None, &DRAWS.to_vec()), None);
}

#[test]
fn mqtt_settings_defaults() {
    let m = mqtt_settings(some("true"), some("broker"), None, None, None, &DRAWS.to_vec()).unwrap();
    assert_eq!(
        m,
        MqttSettings {
            host: String::from("broker"),
            port: 1883,
            id: String::from("cfdpip-abc019"),
            base_topic: String::from("cfdpip"),
        }
    );
}

#[test]
fn mqtt_settings_given_values() {
    let m = mqtt_settings(
        some("true"),
        some("broker"),
        some("+08883"),
        some("me"),
        some("home"),
        &DRAWS.to_vec(),
    )
    .unwrap();
    assert_eq!(m.port, 8883);
    assert_eq!(m.id, "me");
    assert_eq!(m.base_topic, "home");
}

#[test]
fn mqtt_change_topic_and_payload() {
    let m = mqtt_settings(some("true"), some("broker"), None, None, None, &DRAWS.to_vec()).unwrap();
    assert_eq!(ip_change_topic(&m), "cfdpip/ipchange");
    assert_eq!(
        ip_change_payload(Ipv4Address::new(1, 2, 3, 4), Ipv4Address::new(1, 2, 3, 5)),
        r#"{"old":"1.2.3.4","new":"1.2.3.5"}"#
    );
}

#[test]
fn update_retries_every_two_minutes() {
    assert_eq!(after_update_attempt(true), UpdateStep::Done);
    assert_eq!(after_update_attempt(false), UpdateStep::RetryAfter(Duration::from_secs(120)));
}

#[test]
fn update_run_sends_each_record_then_moves_on() {
    let new_ip = Ipv4Address::new(2, 2, 2, 2);
    let (mut run, call) = UpdateRun::start(2, new_ip);
    assert!(matches!(call, UpdateCall::ListRecords(0)));
    let records = vec![
        record(DNSType::A, "a.example.com", "1.1.1.1", "id-a"),
        record(DNSType::A, "b.example.com", "1.1.1.1", "id-b"),
    ];
    match run.step(UpdateOutcome::Listed(records)) {
        UpdateCall::SetRecord(0, req) => {
            assert_eq!(req.name, "a.example.com");
            assert_eq!(req.content, "2.2.2.2");
        }
        other => panic!("unexpected {:?}", other),
    }
    match run.step(UpdateOutcome::Sent) {
        UpdateCall::SetRecord(0, req) => {
            assert_eq!(req.id, "id-b");
            assert_eq!(req.content, "2.2.2.2");
        }
        other => panic!("unexpected {:?}", other),
    }
    assert!(matches!(run.step(UpdateOutcome::Sent), UpdateCall::ListRecords(1)));
    assert!(matches!(run.step(UpdateOutcome::Listed(Vec::new())), UpdateCall::Finished));
}

#[test]
fn update_run_stops_at_first_failure() {
    let (mut run, _) = UpdateRun::start(3, Ipv4Address::new(2, 2, 2, 2));
    let records = vec![
        record(DNSType::A, "a.example.com", "1.1.1.1", "id-a"),
        record(DNSType::A, "b.example.com", "1.1.1.1", "id-b"),
    ];
    assert!(matches!(run.step(UpdateOutcome::Listed(records)), UpdateCall::SetRecord(0, _)));
    assert!(matches!(run.step(UpdateOutcome::CallFailed), UpdateCall::Failed));
    let (_, call) = UpdateRun::start(0, Ipv4Address::new(2, 2, 2, 2));
    assert!(matches!(call, UpdateCall::Finished));
}
