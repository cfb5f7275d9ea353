//! The decisions of the command line tool: what `current` prints, what `check` reports
//! for each zone, which updates a change of address calls for, and how the tool's
//! settings are read.

use vstd::prelude::*;

use crate::ip::{digits_value, ipv4_text, is_digit, Ipv4Address};
use crate::ip_monitor::{duration_from_secs, from_secs, IpMonitorConfig};
use crate::models::{
    dns_type_name, update_request_of, utf8_len, zone_id_error_text, DNSRecord, UpdateDNSRecordRequest,
    ZoneId,
};
use crate::text::{chars_of, push_char, string_views};
use crate::utils::{get_list_string, list_values, random_charset, random_string_from_indices};

verus! {

/// The arguments of the `current` command (it has none).
#[derive(Debug, Clone, Copy, PartialEq, Eq, Structural)]
pub struct CurrentArguments {}

/// The text that `current` prints when the lookup fails.
pub open spec fn no_public_ip_text() -> Seq<char> {
    "Could not get public IP"@
}

/// The `current` command, given the result of the lookup of the public address: the exit
/// code, and the text to print (the address) or to report as an error.
pub fn current_command(_args: &CurrentArguments, ip: Option<Ipv4Address>) -> (r: (i32, String))
    ensures
        ip matches Some(a) ==> r.0 == 0 && r.1@ == ipv4_text(a),
        ip is None ==> r.0 == 1 && r.1@ == no_public_ip_text(),
{
    match ip {
        Some(a) => (0, a.to_string()),
        None => (1, String::from_str("Could not get public IP")),
    }
}

/// The line that names a record in the report of `check`: its type, then its name. The
/// report asks for the type in a column of six (`{:<6}`), but the type's `Display` writes
/// its name through `write!`, which drops the width, so no padding is written.
pub open spec fn record_line(r: DNSRecord) -> Seq<char> {
    seq!['\n'] + dns_type_name(r.record_type) + seq![' '] + r.name@
}

/// The lines of the records, one after the other.
pub open spec fn record_lines(records: Seq<DNSRecord>) -> Seq<char>
    decreases records.len(),
{
    if records.len() == 0 {
        Seq::empty()
    } else {
        record_lines(records.drop_last()) + record_line(records.last())
    }
}

/// The lines of the records hold one line per record, in order: adding a record adds its
/// line at the end, and the lines of two runs of records are the lines of the first
/// followed by those of the second.
pub proof fn law_record_lines_one_per_record(rs: Seq<DNSRecord>, qs: Seq<DNSRecord>, r: DNSRecord)
    ensures
        record_lines(rs.push(r)) == record_lines(rs) + record_line(r),
        record_lines(rs + qs) == record_lines(rs) + record_lines(qs),
        record_lines(seq![r]) == record_line(r),
    decreases qs.len(),
{
    assert(rs.push(r).drop_last() =~= rs);
    assert(seq![r].drop_last() =~= Seq::<DNSRecord>::empty());
    assert(record_lines(Seq::<DNSRecord>::empty()) == Seq::<char>::empty());
    if qs.len() == 0 {
        assert(rs + qs =~= rs);
        assert(record_lines(rs) + record_lines(qs) =~= record_lines(rs));
    } else {
        law_record_lines_one_per_record(rs, qs.drop_last(), r);
        assert((rs + qs).drop_last() =~= rs + qs.drop_last());
        assert((rs + qs).last() == qs.last());
        assert(record_lines(rs + qs) =~= record_lines(rs) + record_lines(qs.drop_last())
            + record_line(qs.last()));
    }
}

/// The report of `check` for a zone whose records use the current address.
pub open spec fn affected_text(zone: Seq<char>, records: Seq<DNSRecord>) -> Seq<char> {
    "Affected records in zone "@ + zone + ":"@ + record_lines(records)
}

/// The report of `check` for a zone: a header, then one line per record.
pub fn affected_records_text(zone_id: &ZoneId, records: &Vec<DNSRecord>) -> (s: String)
    ensures
        s@ == affected_text(zone_id@, records@),
{
    let mut s = String::from_str("Affected records in zone ");
    s.append(zone_id.as_str());
    s.append(":");
    let ghost header = s@;
    let mut i: usize = 0;
    assert(records@.take(0) =~= Seq::<DNSRecord>::empty());
    while i < records.len()
        invariant
            i <= records@.len(),
            header == "Affected records in zone "@ + zone_id@ + ":"@,
            s@ == header + record_lines(records@.take(i as int)),
        decreases records@.len() - i,
    {
        let r = &records[i];
        let ghost before = s@;
        push_char(&mut s, '\n');
        s.append(r.record_type.name());
        push_char(&mut s, ' ');
        s.append(r.name.as_str());
        proof {
            assert(records@.take(i + 1).drop_last() =~= records@.take(i as int));
            assert(s@ =~= before + record_line(records@[i as int]));
        }
        i = i + 1;
    }
    assert(records@.take(i as int) =~= records@);
    s
}

/// The arguments of the `check` command (it has none).
#[derive(Debug, Clone, Copy, PartialEq, Eq, Structural)]
pub struct CheckArguments {}

/// What `check` does for one zone.
#[derive(Debug, Clone, PartialEq)]
pub enum CheckStep {
    /// Report the text and go on with the next zone.
    Report(String),
    /// The zone has no record that uses the address: say so and go on with the next zone.
    Next,
    /// End the command with this exit code.
    Exit(i32),
}

/// The `check` command's decision for one zone, given the records that use the current
/// address (`None` when they could not be fetched): a failed fetch ends the command with
/// code 1, a zone without such records is passed over, and otherwise the zone's records
/// are reported. After the last zone the command ends with code 0.
pub fn check_zone(_args: &CheckArguments, zone_id: &ZoneId, fetched: Option<&Vec<DNSRecord>>) -> (step:
    CheckStep)
    ensures
        fetched is None ==> step == CheckStep::Exit(1),
        fetched matches Some(rs) ==> if rs@.len() == 0 {
            step == CheckStep::Next
        } else {
            step matches CheckStep::Report(t) && t@ == affected_text(zone_id@, rs@)
        },
{
    match fetched {
        None => CheckStep::Exit(1),
        Some(records) => {
            if records.len() == 0 {
                CheckStep::Next
            } else {
                CheckStep::Report(affected_records_text(zone_id, records))
            }
        },
    }
}

/// `req` writes the record `r` back with the content `content` in place of its own.
pub open spec fn retargets(req: UpdateDNSRecordRequest, r: DNSRecord, content: Seq<char>) -> bool {
    &&& req.content@ == content
    &&& req == (UpdateDNSRecordRequest { content: req.content, ..update_request_of(r) })
}

/// The requests that point the records found with the old address at `new_ip`: one per
/// record, in the same order, each writing the record back with the new address as its
/// content.
pub fn update_requests(records: Vec<DNSRecord>, new_ip: Ipv4Address) -> (reqs: Vec<
    UpdateDNSRecordRequest,
>)
    ensures
        reqs@.len() == records@.len(),
        forall|i: int|
            0 <= i < records@.len() ==> retargets(#[trigger] reqs@[i], records@[i], ipv4_text(new_ip)),
{
    let ghost all = records@;
    let mut rest = records;
    let mut reqs: Vec<UpdateDNSRecordRequest> = Vec::new();
    while rest.len() > 0
        invariant
            reqs@.len() + rest@.len() == all.len(),
            rest@ == all.subrange(reqs@.len() as int, all.len() as int),
            forall|i: int|
                0 <= i < reqs@.len() ==> retargets(#[trigger] reqs@[i], all[i], ipv4_text(new_ip)),
        decreases rest@.len(),
    {
        let ghost k = reqs@.len();
        let record = rest.remove(0);
        assert(record == all[k as int]);
        let mut req = UpdateDNSRecordRequest::from(record);
        req.content = new_ip.to_string();
        reqs.push(req);
        assert(rest@ =~= all.subrange(reqs@.len() as int, all.len() as int));
    }
    reqs
}

/// Every value of the list `value` is short enough to be a zone identifier.
pub open spec fn zone_list_valid(value: Seq<char>) -> bool {
    forall|i: int| 0 <= i < list_values(value).len() ==> utf8_len(#[trigger] list_values(value)[i]) <= 32
}

/// The zone identifiers listed in `value` (comma or newline separated, `#` comments); each
/// must be at most 32 bytes long.
pub fn zone_ids_from_list(value: &str) -> (ids: Vec<ZoneId>)
    requires
        zone_list_valid(value@),
    ensures
        ids@.len() == list_values(value@).len(),
        forall|i: int| 0 <= i < ids@.len() ==> (#[trigger] ids@[i])@ == list_values(value@)[i],
{
    let values = get_list_string(value);
    let ghost lv = list_values(value@);
    assert(values@.len() == lv.len()) by {
        assert(string_views(values@).len() == values@.len());
    }
    let mut ids: Vec<ZoneId> = Vec::new();
    let mut i: usize = 0;
    while i < values.len()
        invariant
            lv == list_values(value@),
            zone_list_valid(value@),
            string_views(values@) == lv,
            values@.len() == lv.len(),
            i <= values@.len(),
            ids@.len() == i,
            forall|k: int| 0 <= k < i ==> (#[trigger] ids@[k])@ == lv[k],
        decreases values@.len() - i,
    {
        assert(values@[i as int]@ == lv[i as int]);
        assert(utf8_len(lv[i as int]) <= 32);
        match ZoneId::new(values[i].as_str()) {
            Ok(id) => {
                ids.push(id);
            },
            Err(_) => {
                assert(false);
            },
        }
        i = i + 1;
    }
    ids
}

/// The arguments of the `monitor` command.
#[derive(Debug, PartialEq)]
pub struct MonitorArguments {
    /// Delay between address lookups, in seconds.
    pub check_delay: u64,
    /// Where to keep the persistent data.
    pub data_file: Option<std::path::PathBuf>,
}

/// The settings of the monitor that `monitor` runs: the delay between lookups from the
/// arguments, and the data file they name or else `default_data_file`.
pub fn monitor_config(args: &MonitorArguments, default_data_file: std::path::PathBuf) -> (c:
    IpMonitorConfig)
    ensures
        c.wait_time == duration_from_secs(args.check_delay),
        c.persistent_file == Some(
            match args.data_file {
                Some(p) => p,
                None => default_data_file,
            },
        ),
{
    let data_file = match &args.data_file {
        Some(p) => p.clone(),
        None => default_data_file,
    };
    IpMonitorConfig::default().with_persistent_file(data_file).with_wait_time(
        from_secs(args.check_delay),
    )
}

/// The boolean that `bool::from_str` reads from `s`: exactly `true` or `false`.
pub open spec fn parse_bool(s: Seq<char>) -> Option<bool> {
    if s == "true"@ {
        Some(true)
    } else if s == "false"@ {
        Some(false)
    } else {
        None
    }
}

/// The digits of an unsigned number's text, after an optional leading `+`.
pub open spec fn unsigned_digits(s: Seq<char>) -> Seq<char> {
    if s.len() > 0 && s[0] == '+' {
        s.drop_first()
    } else {
        s
    }
}

/// The number that `u16::from_str` reads from `s`: an optional `+`, then at least one
/// decimal digit (leading zeros allowed), for a value of at most 65535.
pub open spec fn parse_u16(s: Seq<char>) -> Option<u16> {
    let digits = unsigned_digits(s);
    if digits.len() > 0 && (forall|i: int| 0 <= i < digits.len() ==> is_digit(#[trigger] digits[i]))
        && digits_value(digits) <= 65535 {
        Some(digits_value(digits) as u16)
    } else {
        None
    }
}

/// `bool::from_str`.
pub fn parse_bool_text(s: &String) -> (r: Option<bool>)
    ensures
        r == parse_bool(s@),
{
    if *s == String::from_str("true") {
        Some(true)
    } else if *s == String::from_str("false") {
        Some(false)
    } else {
        None
    }
}

/// Appending digits never lowers the value of a digit string.
proof fn lemma_digits_value_grows(s: Seq<char>, k: int)
    requires
        0 <= k <= s.len(),
        forall|i: int| 0 <= i < s.len() ==> is_digit(#[trigger] s[i]),
    ensures
        digits_value(s.take(k)) <= digits_value(s),
        0 <= digits_value(s.take(k)),
    decreases s.len() - k,
{
    if k == s.len() {
        assert(s.take(k) =~= s);
        lemma_digits_value_nonneg(s);
    } else {
        lemma_digits_value_grows(s, k + 1);
        assert(s.take(k + 1).drop_last() =~= s.take(k));
        assert(is_digit(s.take(k + 1).last()));
        lemma_digits_value_nonneg(s.take(k));
    }
}

/// A digit string has a value of at least zero.
proof fn lemma_digits_value_nonneg(s: Seq<char>)
    requires
        forall|i: int| 0 <= i < s.len() ==> is_digit(#[trigger] s[i]),
    ensures
        0 <= digits_value(s),
    decreases s.len(),
{
    if s.len() > 0 {
        assert forall|i: int| 0 <= i < s.drop_last().len() implies is_digit(
            #[trigger] s.drop_last()[i],
        ) by {
            assert(s.drop_last()[i] == s[i]);
        }
        lemma_digits_value_nonneg(s.drop_last());
    }
}

/// `u16::from_str`.
pub fn parse_u16_text(s: &String) -> (r: Option<u16>)
    ensures
        r == parse_u16(s@),
{
    let v = chars_of(s.as_str());
    let n = v.len();
    let start: usize = if n > 0 && v[0] == '+' {
        1
    } else {
        0
    };
    let ghost digits = unsigned_digits(s@);
    assert(digits =~= v@.subrange(start as int, n as int));
    if start == n {
        return None;
    }
    let mut value: u32 = 0;
    let mut j = start;
    while j < n
        invariant
            start <= j <= n == v@.len(),
            v@ == s@,
            digits == unsigned_digits(s@),
            digits == v@.subrange(start as int, n as int),
            forall|i: int| start <= i < j ==> is_digit(#[trigger] v@[i]),
            value == digits_value(v@.subrange(start as int, j as int)),
            value <= 65535,
        decreases n - j,
    {
        let c = v[j];
        if !('0' <= c && c <= '9') {
            proof {
                assert(!is_digit(digits[j - start]));
            }
            return None;
        }
        proof {
            assert(v@.subrange(start as int, j + 1).drop_last() =~= v@.subrange(
                start as int,
                j as int,
            ));
        }
        value = value * 10 + ((c as u32) - 48);
        j = j + 1;
        if value > 65535 {
            proof {
                if forall|i: int| 0 <= i < digits.len() ==> is_digit(#[trigger] digits[i]) {
                    lemma_digits_value_grows(digits, j - start);
                    assert(digits.take(j - start) =~= v@.subrange(start as int, j as int));
                }
            }
            return None;
        }
    }
    proof {
        assert(v@.subrange(start as int, j as int) =~= digits);
    }
    Some(value as u16)
}

/// Where and as whom the tool publishes changes of address over MQTT.
#[derive(Debug, Clone, PartialEq)]
pub struct MqttSettings {
    pub host: String,
    pub port: u16,
    pub id: String,
    pub base_topic: String,
}

/// The text a setting has, or its default.
pub open spec fn setting_or(value: Option<String>, default: Seq<char>) -> Seq<char> {
    match value {
        Some(s) => s@,
        None => default,
    }
}

/// The values of the MQTT variables are ones the tool accepts: `MQTT_ENABLED` (by default
/// `false`) is a boolean, and when it is `true`, `MQTT_HOST` is set and `MQTT_PORT` (by
/// default 1883) is a port number.
pub open spec fn mqtt_values_valid(
    enabled: Option<String>,
    host: Option<String>,
    port: Option<String>,
) -> bool {
    &&& parse_bool(setting_or(enabled, "false"@)) is Some
    &&& parse_bool(setting_or(enabled, "false"@)) == Some(true) ==> host is Some && parse_u16(
        setting_or(port, "1883"@),
    ) is Some
}

/// The client identifier used when `MQTT_ID` is not set: `cfdpip-` and the random
/// characters at the positions drawn.
pub open spec fn default_mqtt_id(draws: Seq<usize>) -> Seq<char> {
    "cfdpip-"@ + draws.map_values(|k: usize| random_charset()[k as int])
}

/// `m` holds the settings read from the values given, MQTT being enabled.
pub open spec fn mqtt_settings_from(
    m: MqttSettings,
    host: Option<String>,
    port: Option<String>,
    id: Option<String>,
    base_topic: Option<String>,
    draws: Seq<usize>,
) -> bool {
    &&& m.host@ == setting_or(host, Seq::empty())
    &&& Some(m.port) == parse_u16(setting_or(port, "1883"@))
    &&& m.base_topic@ == setting_or(base_topic, "cfdpip"@)
    &&& m.id@ == setting_or(id, default_mqtt_id(draws))
}

/// The MQTT settings from the values of `MQTT_ENABLED`, `MQTT_HOST`, `MQTT_PORT`, `MQTT_ID`
/// and `MQTT_BASE_TOPIC` (`None` where unset), and six positions drawn at random in
/// `abcdef0123456789` for a default identifier. MQTT is off unless enabled; the port
/// defaults to 1883, the identifier to `cfdpip-` and the six drawn characters, the base
/// topic to `cfdpip`.
pub fn mqtt_settings(
    enabled: Option<String>,
    host: Option<String>,
    port: Option<String>,
    id: Option<String>,
    base_topic: Option<String>,
    draws: &Vec<usize>,
) -> (r: Option<MqttSettings>)
    requires
        mqtt_values_valid(enabled, host, port),
        draws@.len() == 6,
        forall|i: int| 0 <= i < draws@.len() ==> draws@[i] < 16,
    ensures
        parse_bool(setting_or(enabled, "false"@)) == Some(false) ==> r is None,
        parse_bool(setting_or(enabled, "false"@)) == Some(true) ==> (r matches Some(m)
            && mqtt_settings_from(m, host, port, id, base_topic, draws@)),
{
    let enabled_text = match enabled {
        Some(s) => s,
        None => String::from_str("false"),
    };
    let on = match parse_bool_text(&enabled_text) {
        Some(b) => b,
        None => {
            assert(false);
            false
        },
    };
    if !on {
        return None;
    }
    let host = match host {
        Some(h) => h,
        None => {
            assert(false);
            String::new()
        },
    };
    let port_text = match port {
        Some(p) => p,
        None => String::from_str("1883"),
    };
    let port = match parse_u16_text(&port_text) {
        Some(p) => p,
        None => {
            assert(false);
            0
        },
    };
    let id = match id {
        Some(x) => x,
        None => {
            let suffix = random_string_from_indices(draws);
            String::from_str("cfdpip-").concat(suffix.as_str())
        },
    };
    let base_topic = match base_topic {
        Some(t) => t,
        None => String::from_str("cfdpip"),
    };
    Some(MqttSettings { host, port, id, base_topic })
}

/// The MQTT topic on which a change of address is published.
pub open spec fn ip_change_topic_text(base_topic: Seq<char>) -> Seq<char> {
    base_topic + "/ipchange"@
}

/// The JSON payload of a change of address: `{"old":"<old>","new":"<new>"}`.
pub open spec fn ip_change_payload_text(old_ip: Ipv4Address, new_ip: Ipv4Address) -> Seq<char> {
    "{\"old\":\""@ + ipv4_text(old_ip) + "\",\"new\":\""@ + ipv4_text(new_ip) + "\"}"@
}

/// The topic on which the tool publishes changes of address, under the base topic.
pub fn ip_change_topic(settings: &MqttSettings) -> (t: String)
    ensures
        t@ == ip_change_topic_text(settings.base_topic@),
{
    settings.base_topic.clone().concat("/ipchange")
}

/// The message the tool publishes when the address changes from `old_ip` to `new_ip`.
pub fn ip_change_payload(old_ip: Ipv4Address, new_ip: Ipv4Address) -> (p: String)
    ensures
        p@ == ip_change_payload_text(old_ip, new_ip),
{
    let mut p = String::from_str("{\"old\":\"");
    p.append(old_ip.to_string().as_str());
    p.append("\",\"new\":\"");
    p.append(new_ip.to_string().as_str());
    p.append("\"}");
    p
}

/// What to do after an attempt to point the records at the new address.
#[derive(Debug, Clone, Copy, PartialEq, Eq)]
pub enum UpdateStep {
    /// Every record was updated: the change is handled.
    Done,
    /// An attempt failed: wait this long and try again.
    RetryAfter(std::time::Duration),
}

/// The decision after an attempt to update the records: done when it succeeded, otherwise
/// retry after two minutes, for as long as it takes.
pub fn after_update_attempt(succeeded: bool) -> (step: UpdateStep)
    ensures
        succeeded ==> step == UpdateStep::Done,
        !succeeded ==> step == UpdateStep::RetryAfter(duration_from_secs(120)),
{
    if succeeded {
        UpdateStep::Done
    } else {
        UpdateStep::RetryAfter(from_secs(120))
    }
}

/// The next call an update of the records after a change of address asks for.
#[derive(Debug)]
pub enum UpdateCall {
    /// Look up the records that hold the old address, in the zone at this position of the
    /// list of zones.
    ListRecords(usize),
    /// Send this request to the zone at this position.
    SetRecord(usize, UpdateDNSRecordRequest),
    /// Every record found in every zone was updated: the update succeeded.
    Finished,
    /// The last call failed: the update stops there, with that call's error as its result.
    Failed,
}

/// What the last call of an update came back with.
#[derive(Debug)]
pub enum UpdateOutcome {
    /// The lookup of a zone's records succeeded, with these records.
    Listed(Vec<DNSRecord>),
    /// The request was accepted.
    Sent,
    /// The call failed.
    CallFailed,
}

/// Where an update of the records stands: the zones to go through, the new address, the
/// zone being worked on and the requests still to send to it, in order.
pub struct UpdateRun {
    zones: usize,
    new_ip: Ipv4Address,
    zone: usize,
    pending: Vec<UpdateDNSRecordRequest>,
}

/// The call that follows once the zone at position `zone` is done: the next zone's lookup,
/// or the end when it was the last.
pub open spec fn call_after_zone(zone: int, zones: int) -> UpdateCall {
    if zone + 1 < zones {
        UpdateCall::ListRecords((zone + 1) as usize)
    } else {
        UpdateCall::Finished
    }
}

/// The position worked on once the zone at position `zone` is done: the next one, or the
/// same when it was the last.
pub open spec fn zone_after(zone: nat, zones: nat) -> nat {
    if zone + 1 < zones {
        zone + 1
    } else {
        zone
    }
}

/// The zones are gone through one after the other, each once: when the zone at position
/// `zone` is done and another follows, the next call is the lookup of the very next
/// position and the run moves there; after the last zone the update ends where it is.
pub proof fn law_zones_in_order(zone: nat, zones: nat)
    ensures
        zone + 1 < zones ==> call_after_zone(zone as int, zones as int) == UpdateCall::ListRecords(
            (zone + 1) as usize,
        ) && zone_after(zone, zones) == zone + 1,
        zone + 1 >= zones ==> call_after_zone(zone as int, zones as int) == UpdateCall::Finished
            && zone_after(zone, zones) == zone,
{
}

impl UpdateRun {
    /// The number of zones the update goes through.
    pub closed spec fn zones(self) -> nat {
        self.zones as nat
    }

    /// The address the records are pointed at.
    pub closed spec fn new_ip(self) -> Ipv4Address {
        self.new_ip
    }

    /// The position of the zone being worked on.
    pub closed spec fn zone(self) -> nat {
        self.zone as nat
    }

    /// The requests still to send to that zone, in order.
    pub closed spec fn pending(self) -> Seq<UpdateDNSRecordRequest> {
        self.pending@
    }

    /// The start of an update through `zones` zones towards `new_ip`, with its first call:
    /// the lookup in the first zone (or the end, when there is none).
    pub fn start(zones: usize, new_ip: Ipv4Address) -> (r: (UpdateRun, UpdateCall))
        ensures
            r.0.zones() == zones,
            r.0.new_ip() == new_ip,
            r.0.zone() == 0,
            r.0.pending().len() == 0,
            r.1 == (if zones > 0 {
                UpdateCall::ListRecords(0)
            } else {
                UpdateCall::Finished
            }),
    {
        let run = UpdateRun { zones, new_ip, zone: 0, pending: Vec::new() };
        if zones > 0 {
            (run, UpdateCall::ListRecords(0))
        } else {
            (run, UpdateCall::Finished)
        }
    }

    /// The next call once the requests for the current zone are known: the first of them,
    /// or, when none is left, the move to the next zone.
    fn next_call(&mut self) -> (call: UpdateCall)
        ensures
            final(self).zones() == old(self).zones(),
            final(self).new_ip() == old(self).new_ip(),
            old(self).pending().len() > 0 ==> {
                &&& call == UpdateCall::SetRecord(old(self).zone as usize, old(self).pending()[0])
                &&& final(self).zone() == old(self).zone()
                &&& final(self).pending() == old(self).pending().drop_first()
            },
            old(self).pending().len() == 0 ==> {
                &&& call == call_after_zone(old(self).zone() as int, old(self).zones() as int)
                &&& final(self).zone() == zone_after(old(self).zone(), old(self).zones())
                &&& final(self).pending().len() == 0
            },
    {
        if self.pending.len() > 0 {
            let req = self.pending.remove(0);
            proof {
                assert(old(self).pending@.remove(0) == old(self).pending@.drop_first());
            }
            UpdateCall::SetRecord(self.zone, req)
        } else if self.zone < self.zones && self.zone + 1 < self.zones {
            self.zone = self.zone + 1;
            UpdateCall::ListRecords(self.zone)
        } else {
            UpdateCall::Finished
        }
    }

    /// Takes in what the last call came back with and gives the next call. A failed call
    /// ends the update at once; a zone's records become one request each, sent in order;
    /// after the last request of a zone comes the next zone, and after the last zone the
    /// end.
    pub fn step(&mut self, outcome: UpdateOutcome) -> (call: UpdateCall)
        ensures
            final(self).zones() == old(self).zones(),
            final(self).new_ip() == old(self).new_ip(),
            outcome is CallFailed ==> call == UpdateCall::Failed && final(self).zone() == old(
                self,
            ).zone() && final(self).pending() == old(self).pending(),
            outcome matches UpdateOutcome::Listed(records) ==> {
                let n = records@.len();
                &&& n > 0 ==> {
                    &&& call matches UpdateCall::SetRecord(z, req) && z == old(self).zone()
                        && retargets(req, records@[0], ipv4_text(old(self).new_ip()))
                    &&& final(self).zone() == old(self).zone()
                    &&& final(self).pending().len() == n - 1
                    &&& forall|i: int|
                        0 <= i < n - 1 ==> retargets(
                            #[trigger] final(self).pending()[i],
                            records@[i + 1],
                            ipv4_text(old(self).new_ip()),
                        )
                }
                &&& n == 0 ==> {
                    &&& call == call_after_zone(old(self).zone() as int, old(self).zones() as int)
                    &&& final(self).zone() == zone_after(old(self).zone(), old(self).zones())
                    &&& final(self).pending().len() == 0
                }
            },
            outcome is Sent ==> {
                &&& old(self).pending().len() > 0 ==> {
                    &&& call == UpdateCall::SetRecord(
                        old(self).zone() as usize,
                        old(self).pending()[0],
                    )
                    &&& final(self).zone() == old(self).zone()
                    &&& final(self).pending() == old(self).pending().drop_first()
                }
                &&& old(self).pending().len() == 0 ==> {
                    &&& call == call_after_zone(old(self).zone() as int, old(self).zones() as int)
                    &&& final(self).zone() == zone_after(old(self).zone(), old(self).zones())
                    &&& final(self).pending().len() == 0
                }
            },
    {
        match outcome {
            UpdateOutcome::CallFailed => UpdateCall::Failed,
            UpdateOutcome::Listed(records) => {
                let ghost recs = records@;
                self.pending = update_requests(records, self.new_ip);
                let ghost reqs = self.pending@;
                let call = self.next_call();
                proof {
                    if recs.len() > 0 {
                        assert forall|i: int| 0 <= i < recs.len() - 1 implies retargets(
                            #[trigger] self.pending@[i],
                            recs[i + 1],
                            ipv4_text(self.new_ip),
                        ) by {
                            assert(self.pending@[i] == reqs[i + 1]);
                        }
                    }
                }
                call
            },
            UpdateOutcome::Sent => self.next_call(),
        }
    }
}

/// An update request built for a new address points the record at that address: its
/// content reads back as the address, and everything else is the record's own.
pub proof fn law_update_points_at_new_ip(
    req: UpdateDNSRecordRequest,
    r: DNSRecord,
    new_ip: Ipv4Address,
)
    requires
        retargets(req, r, ipv4_text(new_ip)),
    ensures
        crate::ip::parse_ipv4(req.content@) == Some(new_ip),
        req.name == r.name,
        req.id == r.id,
        req.record_type == r.record_type,
        req.proxied == r.proxied,
        req.comment == r.comment,
        req.tags == r.tags,
        req.ttl == r.ttl,
{
    crate::ip::law_parse_of_text(new_ip);
}

/// In the `check` report every record line is a line feed, the record's type, a space and
/// the record's name.
pub proof fn law_record_line_layout(r: DNSRecord)
    ensures
        ({
            let l = record_line(r);
            let n = dns_type_name(r.record_type).len() as int;
            &&& l.len() == n + 2 + r.name@.len()
            &&& l[0] == '\n'
            &&& l.subrange(1, n + 1) == dns_type_name(r.record_type)
            &&& l[n + 1] == ' '
            &&& l.subrange(n + 2, l.len() as int) == r.name@
        }),
{
    let l = record_line(r);
    let n = dns_type_name(r.record_type).len() as int;
    assert(l.subrange(1, n + 1) =~= dns_type_name(r.record_type));
    assert(l.subrange(n + 2, l.len() as int) =~= r.name@);
}

} // verus!
