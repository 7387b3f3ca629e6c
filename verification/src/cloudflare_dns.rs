//! The DNS record client: request construction and response
//! interpretation for the provider's record-management API.
//!
//! The HTTP traffic itself is performed by the surrounding application;
//! this module builds the request URLs, the authorization header value and
//! the update payload, and decides each operation's outcome from the
//! provider's response envelope.

use crate::errors::DdnsError;
use vstd::prelude::*;

verus! {

/// One DNS record of a zone, as the provider reports it.
#[derive(Debug, Clone, PartialEq, Eq)]
pub struct Record {
    /// The provider-assigned opaque identifier of the record.
    pub id: String,
    /// The record type, such as "A".
    pub record_type: String,
    /// The fully-qualified hostname the record answers for.
    pub name: String,
    /// The record's content; for an "A" record, an IPv4 address.
    pub content: String,
    /// The record's time-to-live, in seconds.
    pub ttl: i32,
}

/// The payload of a record-update request. Its TTL is always the
/// provider's automatic minimum.
#[derive(Debug, Clone, PartialEq, Eq)]
pub struct UpdateRecord {
    /// The record type to store, such as "A".
    pub record_type: String,
    /// The fully-qualified hostname to store.
    pub name: String,
    /// The content to store; the resolved IPv4 address.
    pub content: String,
    /// The time-to-live to request; always 1, the provider's automatic
    /// value.
    pub ttl: i32,
}

/// Builds the payload of a record-update request, fixing the TTL policy
/// to the provider's automatic minimum.
pub fn update_request(record_type: &str, name: &str, content: &str) -> (r: UpdateRecord)
    ensures
        r.record_type@ == record_type@,
        r.name@ == name@,
        r.content@ == content@,
        r.ttl == 1,
{
    UpdateRecord {
        record_type: String::from_str(record_type),
        name: String::from_str(name),
        content: String::from_str(content),
        ttl: 1,
    }
}

/// The bearer authorization header value carrying `api_token`.
pub fn bearer_header(api_token: &str) -> (r: String)
    ensures
        r@ == "Bearer "@ + api_token@,
{
    let mut r = String::from_str("Bearer ");
    r.append(api_token);
    r
}

/// The endpoint that updates the record `record_id` within the zone
/// `zone_id`.
pub fn update_url(zone_id: &str, record_id: &str) -> (r: String)
    ensures
        r@ == "https://api.cloudflare.com/client/v4/zones/"@ + zone_id@ + "/dns_records/"@
            + record_id@,
{
    let mut r = String::from_str("https://api.cloudflare.com/client/v4/zones/");
    r.append(zone_id);
    r.append("/dns_records/");
    r.append(record_id);
    r
}

/// The endpoint that lists all records of the zone `zone_id`.
pub fn list_url(zone_id: &str) -> (r: String)
    ensures
        r@ == "https://api.cloudflare.com/client/v4/zones/"@ + zone_id@ + "/dns_records"@,
{
    let mut r = String::from_str("https://api.cloudflare.com/client/v4/zones/");
    r.append(zone_id);
    r.append("/dns_records");
    r
}

/// Decides the outcome of an update operation from the provider's
/// response envelope: a true success flag is success, whatever else the
/// response carried; a false one is a `ProviderLogicalError` surfacing the
/// provider's message verbatim.
pub fn update_outcome(success: bool, provider_message: &str) -> (r: Result<(), DdnsError>)
    ensures
        success ==> r is Ok,
        !success ==> (r matches Err(e) && e matches DdnsError::ProviderLogicalError(m) && m@
            == provider_message@),
{
    if success {
        Ok(())
    } else {
        Err(DdnsError::ProviderLogicalError(String::from_str(provider_message)))
    }
}

/// Decides the outcome of a list operation from the provider's response
/// envelope: on success the records are returned in the provider's order,
/// with an absent result set yielding the empty sequence rather than an
/// error; a false success flag is a `ProviderLogicalError` surfacing the
/// provider's message verbatim.
pub fn list_outcome(success: bool, result: Option<Vec<Record>>, provider_message: &str) -> (r:
    Result<Vec<Record>, DdnsError>)
    ensures
        success ==> (r matches Ok(records) && records@ == (match result {
            Some(v) => v@,
            None => Seq::<Record>::empty(),
        })),
        !success ==> (r matches Err(e) && e matches DdnsError::ProviderLogicalError(m) && m@
            == provider_message@),
{
    if success {
        match result {
            Some(v) => Ok(v),
            None => {
                let empty: Vec<Record> = Vec::new();
                proof {
                    assert(empty@ =~= Seq::<Record>::empty());
                }
                Ok(empty)
            },
        }
    } else {
        Err(DdnsError::ProviderLogicalError(String::from_str(provider_message)))
    }
}

} // verus!
