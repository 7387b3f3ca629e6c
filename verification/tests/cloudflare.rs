use cfddns::cloudflare_dns::{
    bearer_header, list_outcome, list_url, update_outcome, update_request, update_url, Record,
};
use cfddns::errors::DdnsError;
use cfddns::external_ip_addr::resolve_from_text;

#[test]
fn update_succeeds_when_the_provider_reports_success() {
    assert_eq!(update_outcome(true, ""), Ok(()));
    assert_eq!(update_outcome(true, "ignored"), Ok(()));
}

#[test]
fn update_fails_with_the_provider_message() {
    assert_eq!(
        update_outcome(false, "Failed to update DNS record"),
        Err(DdnsError::ProviderLogicalError(String::from(
            "Failed to update DNS record"
        )))
    );
}

#[test]
fn list_returns_the_records_in_provider_order() {
    let records = vec![
        Record {
            id: String::from("r1"),
            record_type: String::from("A"),
            name: String::from("a.example.com"),
            content: String::from("192.0.2.1"),
            ttl: 300,
        },
        Record {
            id: String::from("r2"),
            record_type: String::from("AAAA"),
            name: String::from("b.example.com"),
            content: String::from("2001:db8::1"),
            ttl: 1,
        },
    ];
    let out = list_outcome(true, Some(records.clone()), "").expect("should succeed");
    assert_eq!(out, records);
}

#[test]
fn list_with_absent_result_is_empty_not_an_error() {
    let out = list_outcome(true, None, "").expect("should succeed");
    assert!(out.is_empty());
}

#[test]
fn list_fails_with_the_provider_message() {
    assert_eq!(
        list_outcome(false, None, "Failed to list DNS records"),
        Err(DdnsError::ProviderLogicalError(String::from(
            "Failed to list DNS records"
        )))
    );
}

#[test]
fn update_request_fixes_the_ttl_policy() {
    let body = update_request("A", "home.example.com", "203.0.113.7");
    assert_eq!(body.record_type, "A");
    assert_eq!(body.name, "home.example.com");
    assert_eq!(body.content, "203.0.113.7");
    assert_eq!(body.ttl, 1);
}

#[test]
fn urls_address_the_zone_and_record() {
    assert_eq!(
        update_url("z1", "r1"),
        "https://api.cloudflare.com/client/v4/zones/z1/dns_records/r1"
    );
    assert_eq!(
        list_url("z1"),
        "https://api.cloudflare.com/client/v4/zones/z1/dns_records"
    );
}

#[test]
fn bearer_header_carries_the_token() {
    assert_eq!(bearer_header("token123"), "Bearer token123");
    assert_eq!(bearer_header(""), "Bearer ");
}

#[test]
fn resolved_address_feeds_an_update_that_succeeds() {
    let ip = resolve_from_text("203.0.113.7").expect("should resolve");
    assert_eq!(ip, "203.0.113.7");
    let body = update_request("A", "home.example.com", &ip);
    assert_eq!(body.content, "203.0.113.7");
    let url = update_url("z1", "r1");
    assert_eq!(
        url,
        "https://api.cloudflare.com/client/v4/zones/z1/dns_records/r1"
    );
    // a stub provider that echoes success completes the update without error
    assert_eq!(update_outcome(true, ""), Ok(()));
}
