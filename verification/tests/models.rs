use cfdpip::ip::Ipv4Address;
use cfdpip::models::{DNSRecord, DNSType, ResultInfo, SuccessResponseList, UpdateDNSRecordRequest, ZoneId};

#[test]
fn success_response_list_count() {
    let mut o = SuccessResponseList::<i32>::default();
    o.result = vec![1, 2, 3, 4, 5];
    assert_eq!(o.count(), 5);
}

#[test]
fn dns_record_has_tags() {
    let mut o = DNSRecord::default();
    o.tags = Some(vec![String::from("a")]);
    assert_eq!(o.has_tags(), true);
}

#[test]
fn dns_record_have_empty_tags() {
    let mut o = DNSRecord::default();
    o.tags = Some(vec![]);
    assert_eq!(o.has_tags(), false);
}

#[test]
fn dns_record_have_none_tags() {
    let mut o = DNSRecord::default();
    o.tags = None;
    assert_eq!(o.has_tags(), false);
}

#[test]
fn dns_record_content_as_ip_pass() {
    let mut o = DNSRecord::default();
    o.content = String::from("127.0.0.1");
    assert_eq!(o.content_as_ip().unwrap(), Ipv4Address::new(127, 0, 0, 1));
}

#[test]
fn dns_record_content_as_ip_rejects_names() {
    let mut o = DNSRecord::default();
    o.content = String::from("example.com");
    assert!(o.content_as_ip().is_err());
}

#[test]
fn default_lists_and_records_are_empty() {
    let o = SuccessResponseList::<String>::default();
    assert_eq!(o.count(), 0);
    assert!(!o.success);
    assert_eq!(o.result_info, ResultInfo { count: 0, page: 0, per_page: 0, total_count: 0 });
    let r = DNSRecord::default();
    assert_eq!(r.record_type, DNSType::A);
    assert_eq!(r.content, "");
    assert_eq!(r.meta, serde_json::Value::Null);
    assert_eq!(r.created_on.seconds, 0);
}

#[test]
fn dns_type_ids_follow_iana() {
    assert_eq!(DNSType::A.id(), 1);
    assert_eq!(DNSType::AAAA.id(), 28);
    assert_eq!(DNSType::CAA.id(), 257);
    assert_eq!(DNSType::CNAME.id(), 5);
    assert_eq!(DNSType::MX.id(), 15);
    assert_eq!(DNSType::TXT.id(), 16);
    assert_eq!(DNSType::URI.id(), 256);
    assert_eq!(DNSType::default(), DNSType::A);
}

#[test]
fn dns_type_names_are_their_variants() {
    assert_eq!(DNSType::A.name(), "A");
    assert_eq!(DNSType::DNSKEY.name(), "DNSKEY");
    assert_eq!(DNSType::SMIMEA.to_string(), "SMIMEA");
    assert_eq!(DNSType::HTTPS.to_string(), "HTTPS");
}

#[test]
fn update_request_from_record_copies_fields() {
    let mut r = DNSRecord::default();
    r.content = String::from("1.2.3.4");
    r.name = String::from("home.example.com");
    r.id = String::from("abc");
    r.proxied = Some(true);
    r.ttl = Some(300);
    r.record_type = DNSType::A;
    r.comment = Some(String::from("c"));
    r.tags = Some(vec![String::from("t")]);
    let req = UpdateDNSRecordRequest::from(r);
    assert_eq!(req.content, "1.2.3.4");
    assert_eq!(req.name, "home.example.com");
    assert_eq!(req.id, "abc");
    assert_eq!(req.proxied, Some(true));
    assert_eq!(req.ttl, Some(300));
    assert_eq!(req.comment, Some(String::from("c")));
    assert_eq!(req.tags, Some(vec![String::from("t")]));
}

#[test]
fn zone_id_accepts_up_to_32_bytes() {
    let text = "b9bf66d603b6864d47a45ed8ebf36c8f";
    assert_eq!(text.len(), 32);
    let z = ZoneId::new(text).unwrap();
    assert_eq!(z.as_str(), text);
    assert_eq!(z.to_string(), text);
    assert_eq!(String::from(z), text);
}

#[test]
fn zone_id_rejects_33_bytes() {
    let err = ZoneId::new("b9bf66d603b6864d47a45ed8ebf36c8f0").unwrap_err();
    assert_eq!(err, "Invalid ZoneId, must be less than 32 characters.");
}

#[test]
fn zone_id_counts_bytes_not_characters() {
    // 11 characters of 3 bytes each: 33 bytes.
    assert!(ZoneId::new("€€€€€€€€€€€").is_err());
    assert!(ZoneId::new("€€€€€€€€€€").is_ok());
}

#[test]
fn zone_id_try_from_string() {
    assert!(ZoneId::try_from(String::from("abc")).is_ok());
    assert!(ZoneId::try_from("x".repeat(40)).is_err());
}
