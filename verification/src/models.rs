//! The records of Cloudflare's DNS API that the library reads and writes.

use vstd::prelude::*;
use vstd::std_specs::convert::{FromSpecImpl, TryFromSpecImpl};
use vstd::utf8::encode_utf8;

use crate::ip::{AddrParseError, Ipv4Address};
use crate::outside::{json_null, UtcTime};

verus! {

/// A message in a response of the API.
#[derive(Debug, Clone, PartialEq)]
pub struct Message {
    pub code: i32,
    pub message: String,
}

/// A response of the API that reports a failure.
#[derive(Debug, Clone, PartialEq)]
pub struct ErrorResponse {
    pub errors: Vec<Message>,
    pub messages: Vec<Message>,
    pub success: bool,
}

/// The paging information of a list response.
#[derive(Debug, Clone, Copy, PartialEq, Eq, Structural)]
pub struct ResultInfo {
    pub count: i32,
    pub page: i32,
    pub per_page: i32,
    pub total_count: i32,
}

impl Default for ResultInfo {
    fn default() -> (r: ResultInfo)
        ensures
            r == (ResultInfo { count: 0, page: 0, per_page: 0, total_count: 0 }),
    {
        ResultInfo { count: 0, page: 0, per_page: 0, total_count: 0 }
    }
}

/// A successful response of the API that lists records.
#[derive(Debug, Clone, PartialEq)]
pub struct SuccessResponseList<T> {
    pub errors: Vec<Message>,
    pub messages: Vec<Message>,
    pub success: bool,
    pub result_info: ResultInfo,
    pub result: Vec<T>,
}

impl<T> Default for SuccessResponseList<T> {
    fn default() -> (r: SuccessResponseList<T>)
        ensures
            r.errors@.len() == 0,
            r.messages@.len() == 0,
            !r.success,
            r.result_info == (ResultInfo { count: 0, page: 0, per_page: 0, total_count: 0 }),
            r.result@.len() == 0,
    {
        SuccessResponseList {
            errors: Vec::new(),
            messages: Vec::new(),
            success: false,
            result_info: ResultInfo::default(),
            result: Vec::new(),
        }
    }
}

impl<T> SuccessResponseList<T> {
    /// The number of records in the response.
    pub fn count(&self) -> (n: usize)
        ensures
            n == self.result@.len(),
    {
        self.result.len()
    }
}

/// The kind of a DNS record.
#[derive(Debug, Clone, Copy, PartialEq, Eq, Structural)]
pub enum DNSType {
    A,
    AAAA,
    CAA,
    CERT,
    CNAME,
    DNSKEY,
    DS,
    HTTPS,
    LOC,
    MX,
    NAPTR,
    NS,
    PTR,
    SMIMEA,
    SRV,
    SSHFP,
    SVCB,
    TLSA,
    TXT,
    URI,
}

/// The numeric code of each record type, as listed by IANA.
pub open spec fn dns_type_id(t: DNSType) -> i32 {
    match t {
        DNSType::A => 1,
        DNSType::AAAA => 28,
        DNSType::CAA => 257,
        DNSType::CERT => 37,
        DNSType::CNAME => 5,
        DNSType::DNSKEY => 48,
        DNSType::DS => 43,
        DNSType::HTTPS => 65,
        DNSType::LOC => 29,
        DNSType::MX => 15,
        DNSType::NAPTR => 35,
        DNSType::NS => 2,
        DNSType::PTR => 12,
        DNSType::SMIMEA => 53,
        DNSType::SRV => 33,
        DNSType::SSHFP => 44,
        DNSType::SVCB => 64,
        DNSType::TLSA => 52,
        DNSType::TXT => 16,
        DNSType::URI => 256,
    }
}

/// Each record type has a code of its own: two types with the same code are the same
/// type, and every code is a positive number of at most 257.
pub proof fn law_type_ids_distinct(s: DNSType, t: DNSType)
    ensures
        dns_type_id(s) == dns_type_id(t) ==> s == t,
        0 < dns_type_id(s) <= 257,
{
}

/// The name of each record type, as the API and the zone files write it.
pub open spec fn dns_type_name(t: DNSType) -> Seq<char> {
    match t {
        DNSType::A => "A"@,
        DNSType::AAAA => "AAAA"@,
        DNSType::CAA => "CAA"@,
        DNSType::CERT => "CERT"@,
        DNSType::CNAME => "CNAME"@,
        DNSType::DNSKEY => "DNSKEY"@,
        DNSType::DS => "DS"@,
        DNSType::HTTPS => "HTTPS"@,
        DNSType::LOC => "LOC"@,
        DNSType::MX => "MX"@,
        DNSType::NAPTR => "NAPTR"@,
        DNSType::NS => "NS"@,
        DNSType::PTR => "PTR"@,
        DNSType::SMIMEA => "SMIMEA"@,
        DNSType::SRV => "SRV"@,
        DNSType::SSHFP => "SSHFP"@,
        DNSType::SVCB => "SVCB"@,
        DNSType::TLSA => "TLSA"@,
        DNSType::TXT => "TXT"@,
        DNSType::URI => "URI"@,
    }
}

impl Default for DNSType {
    fn default() -> (t: DNSType)
        ensures
            t == DNSType::A,
    {
        DNSType::A
    }
}

impl DNSType {
    /// The numeric code of the record type
    /// (<https://en.wikipedia.org/wiki/List_of_DNS_record_types>).
    pub fn id(&self) -> (n: i32)
        ensures
            n == dns_type_id(*self),
    {
        match self {
            DNSType::A => 1,
            DNSType::AAAA => 28,
            DNSType::CAA => 257,
            DNSType::CERT => 37,
            DNSType::CNAME => 5,
            DNSType::DNSKEY => 48,
            DNSType::DS => 43,
            DNSType::HTTPS => 65,
            DNSType::LOC => 29,
            DNSType::MX => 15,
            DNSType::NAPTR => 35,
            DNSType::NS => 2,
            DNSType::PTR => 12,
            DNSType::SMIMEA => 53,
            DNSType::SRV => 33,
            DNSType::SSHFP => 44,
            DNSType::SVCB => 64,
            DNSType::TLSA => 52,
            DNSType::TXT => 16,
            DNSType::URI => 256,
        }
    }

    /// The name of the record type, such as `CNAME`.
    pub fn name(&self) -> (s: &'static str)
        ensures
            s@ == dns_type_name(*self),
    {
        match self {
            DNSType::A => "A",
            DNSType::AAAA => "AAAA",
            DNSType::CAA => "CAA",
            DNSType::CERT => "CERT",
            DNSType::CNAME => "CNAME",
            DNSType::DNSKEY => "DNSKEY",
            DNSType::DS => "DS",
            DNSType::HTTPS => "HTTPS",
            DNSType::LOC => "LOC",
            DNSType::MX => "MX",
            DNSType::NAPTR => "NAPTR",
            DNSType::NS => "NS",
            DNSType::PTR => "PTR",
            DNSType::SMIMEA => "SMIMEA",
            DNSType::SRV => "SRV",
            DNSType::SSHFP => "SSHFP",
            DNSType::SVCB => "SVCB",
            DNSType::TLSA => "TLSA",
            DNSType::TXT => "TXT",
            DNSType::URI => "URI",
        }
    }

    /// The name of the record type, as a `String`.
    pub fn to_string(&self) -> (s: String)
        ensures
            s@ == dns_type_name(*self),
    {
        String::from_str(self.name())
    }
}

/// A DNS record as the API lists it.
#[derive(Debug, Clone, PartialEq)]
pub struct DNSRecord {
    pub content: String,
    pub name: String,
    pub proxied: Option<bool>,
    pub record_type: DNSType,
    pub comment: Option<String>,
    pub comment_modified_on: Option<UtcTime>,
    pub created_on: UtcTime,
    pub id: String,
    pub meta: serde_json::Value,
    pub modified_on: UtcTime,
    pub proxiable: bool,
    pub tags: Option<Vec<String>>,
    pub tags_modified_on: Option<UtcTime>,
    pub ttl: Option<i32>,
}

impl Default for DNSRecord {
    /// An `A` record with empty texts, no options, `null` metadata and every time at the
    /// start of 1970.
    fn default() -> (r: DNSRecord)
        ensures
            r.content@.len() == 0,
            r.name@.len() == 0,
            r.proxied is None,
            r.record_type == DNSType::A,
            r.comment is None,
            r.comment_modified_on is None,
            r.created_on == (UtcTime { seconds: 0, nanos: 0 }),
            r.id@.len() == 0,
            r.modified_on == (UtcTime { seconds: 0, nanos: 0 }),
            !r.proxiable,
            r.tags is None,
            r.tags_modified_on is None,
            r.ttl is None,
    {
        DNSRecord {
            content: String::new(),
            name: String::new(),
            proxied: None,
            record_type: DNSType::A,
            comment: None,
            comment_modified_on: None,
            created_on: UtcTime::unix_epoch(),
            id: String::new(),
            meta: json_null(),
            modified_on: UtcTime::unix_epoch(),
            proxiable: false,
            tags: None,
            tags_modified_on: None,
            ttl: None,
        }
    }
}

/// The record has at least one tag.
pub open spec fn record_has_tags(r: DNSRecord) -> bool {
    match r.tags {
        Some(tags) => tags@.len() > 0,
        None => false,
    }
}

/// A record has tags exactly when it carries a list of tags with at least one in it: no
/// list or an empty one means no tags, and any number of tags from one up means it has
/// some.
pub proof fn law_has_tags_means_some_tag(r: DNSRecord)
    ensures
        record_has_tags(r) <==> (r.tags matches Some(t) && t@.len() > 0),
        r.tags is None ==> !record_has_tags(r),
        (r.tags matches Some(t) && t@.len() >= 1) ==> record_has_tags(r),
{
}

impl DNSRecord {
    /// Whether the record carries at least one tag.
    pub fn has_tags(&self) -> (b: bool)
        ensures
            b == record_has_tags(*self),
    {
        match &self.tags {
            Some(tags) => tags.len() != 0,
            None => false,
        }
    }

    /// The record's content read as an IPv4 address.
    pub fn content_as_ip(&self) -> (r: Result<Ipv4Address, AddrParseError>)
        ensures
            r matches Ok(ip) ==> crate::ip::parse_ipv4(self.content@) == Some(ip),
            r is Err <==> crate::ip::parse_ipv4(self.content@) is None,
    {
        Ipv4Address::parse(self.content.as_str())
    }
}

/// The body of a request that overwrites a DNS record.
#[derive(Debug, Clone, PartialEq)]
pub struct UpdateDNSRecordRequest {
    pub content: String,
    pub name: String,
    pub proxied: Option<bool>,
    pub record_type: DNSType,
    pub comment: Option<String>,
    pub id: String,
    pub tags: Option<Vec<String>>,
    pub ttl: Option<i32>,
}

/// The request that writes a record back as it is.
pub open spec fn update_request_of(r: DNSRecord) -> UpdateDNSRecordRequest {
    UpdateDNSRecordRequest {
        content: r.content,
        name: r.name,
        proxied: r.proxied,
        record_type: r.record_type,
        comment: r.comment,
        id: r.id,
        tags: r.tags,
        ttl: r.ttl,
    }
}

impl From<DNSRecord> for UpdateDNSRecordRequest {
    fn from(value: DNSRecord) -> (r: UpdateDNSRecordRequest) {
        UpdateDNSRecordRequest {
            content: value.content,
            name: value.name,
            proxied: value.proxied,
            record_type: value.record_type,
            comment: value.comment,
            id: value.id,
            tags: value.tags,
            ttl: value.ttl,
        }
    }
}

impl FromSpecImpl<DNSRecord> for UpdateDNSRecordRequest {
    open spec fn obeys_from_spec() -> bool {
        true
    }

    open spec fn from_spec(v: DNSRecord) -> UpdateDNSRecordRequest {
        update_request_of(v)
    }
}

/// The identifier of a Cloudflare zone: a text of at most 32 bytes.
#[derive(Debug, Clone, PartialEq, Hash)]
pub struct ZoneId(String);

impl View for ZoneId {
    type V = Seq<char>;

    closed spec fn view(&self) -> Seq<char> {
        self.0@
    }
}

/// The message of the error for a zone identifier that is too long.
pub open spec fn zone_id_error_text() -> Seq<char> {
    "Invalid ZoneId, must be less than 32 characters."@
}

/// The length in UTF-8 bytes of a text, as `str::len` gives it.
pub open spec fn utf8_len(s: Seq<char>) -> usize {
    encode_utf8(s).len() as usize
}

impl ZoneId {
    /// A zone identifier with the text `value`, which must be at most 32 bytes long.
    pub fn new(value: &str) -> (r: Result<ZoneId, String>)
        ensures
            r is Err <==> utf8_len(value@) > 32,
            r matches Ok(z) ==> z@ == value@,
            r matches Err(e) ==> e@ == zone_id_error_text(),
    {
        if value.len() > 32 {
            return Err(String::from_str("Invalid ZoneId, must be less than 32 characters."));
        }
        Ok(ZoneId(String::from_str(value)))
    }

    /// The text of the identifier.
    pub fn as_str(&self) -> (s: &str)
        ensures
            s@ == self@,
    {
        self.0.as_str()
    }

    /// The text of the identifier, as a `String`.
    pub fn to_string(&self) -> (s: String)
        ensures
            s@ == self@,
    {
        self.0.clone()
    }
}

impl TryFrom<String> for ZoneId {
    type Error = String;

    fn try_from(value: String) -> (r: Result<ZoneId, String>)
        ensures
            r is Err <==> utf8_len(value@) > 32,
            r matches Ok(z) ==> z@ == value@,
            r matches Err(e) ==> e@ == zone_id_error_text(),
    {
        ZoneId::new(value.as_str())
    }
}

impl TryFromSpecImpl<String> for ZoneId {
    /// `try_from` states its result in its own `ensures`: the error it gives is a new
    /// `String`, of which only the text can be named.
    open spec fn obeys_try_from_spec() -> bool {
        false
    }

    closed spec fn try_from_spec(v: String) -> Result<ZoneId, String> {
        Ok(ZoneId(v))
    }
}

impl From<ZoneId> for String {
    fn from(value: ZoneId) -> (s: String) {
        value.0
    }
}

impl FromSpecImpl<ZoneId> for String {
    open spec fn obeys_from_spec() -> bool {
        true
    }

    closed spec fn from_spec(v: ZoneId) -> String {
        v.0
    }
}

/// Turning a zone identifier into a `String` gives its text back.
pub proof fn law_zone_id_into_string(z: ZoneId)
    ensures
        <String as vstd::std_specs::convert::FromSpec<ZoneId>>::from_spec(z)@ == z@,
{
}

} // verus!
