use cfddns::errors::DdnsError;
use cfddns::external_ip_addr::{
    lookup_action, resolve_checker_response, resolve_from_html, resolve_from_text, LookupAction,
    Provider,
};

#[test]
fn text_checker_returns_the_address() {
    assert_eq!(
        resolve_from_text("203.0.113.7"),
        Ok(String::from("203.0.113.7"))
    );
}

#[test]
fn text_checker_trims_surrounding_whitespace() {
    assert_eq!(
        resolve_from_text("  203.0.113.7\n"),
        Ok(String::from("203.0.113.7"))
    );
    assert_eq!(
        resolve_from_text("\t198.51.100.9 \r\n"),
        Ok(String::from("198.51.100.9"))
    );
}

#[test]
fn text_checker_trims_unicode_whitespace() {
    assert_eq!(
        resolve_from_text("\u{a0}203.0.113.7\u{2009}"),
        Ok(String::from("203.0.113.7"))
    );
}

#[test]
fn text_checker_rejects_non_ascii_body() {
    assert_eq!(
        resolve_from_text("アドレス"),
        Err(DdnsError::ParseError(String::from("アドレス")))
    );
}

#[test]
fn text_checker_rejects_non_ip_body() {
    assert_eq!(
        resolve_from_text("not-an-ip"),
        Err(DdnsError::ParseError(String::from("not-an-ip")))
    );
    assert_eq!(
        resolve_from_text("  999.0.0.1  "),
        Err(DdnsError::ParseError(String::from("  999.0.0.1  ")))
    );
    assert_eq!(
        resolve_from_text(""),
        Err(DdnsError::ParseError(String::from("")))
    );
}

#[test]
fn text_checker_error_carries_the_original_body() {
    assert_eq!(
        resolve_from_text(" not-an-ip\n"),
        Err(DdnsError::ParseError(String::from(" not-an-ip\n")))
    );
}

#[test]
fn html_checker_resolves_wrapped_address() {
    assert_eq!(
        resolve_from_html("<html><body>Current IP Address: 198.51.100.9</body></html>"),
        Ok(String::from("198.51.100.9"))
    );
}

#[test]
fn html_checker_works_without_the_prefix() {
    assert_eq!(
        resolve_from_html("<html><body>203.0.113.9</body></html>"),
        Ok(String::from("203.0.113.9"))
    );
}

#[test]
fn html_checker_trims_inner_whitespace() {
    assert_eq!(
        resolve_from_html("<html><body>Current IP Address: 192.0.2.1 </body></html>"),
        Ok(String::from("192.0.2.1"))
    );
}

#[test]
fn html_checker_accepts_unclosed_body() {
    assert_eq!(
        resolve_from_html("<html><body>Current IP Address: 192.0.2.33"),
        Ok(String::from("192.0.2.33"))
    );
}

#[test]
fn html_checker_rejects_missing_body() {
    let page = "<html><p>no address here</p></html>";
    assert_eq!(
        resolve_from_html(page),
        Err(DdnsError::ParseError(String::from(page)))
    );
}

#[test]
fn html_checker_rejects_non_ip_content() {
    assert_eq!(
        resolve_from_html("<html><body>Current IP Address: junk</body></html>"),
        Err(DdnsError::ParseError(String::from("junk")))
    );
}

#[test]
fn gateway_answer_is_taken_verbatim() {
    assert_eq!(
        resolve_checker_response(&Provider::Upnp, "203.0.113.5"),
        Ok(String::from("203.0.113.5"))
    );
}

#[test]
fn checker_dispatch_follows_the_strategy() {
    assert_eq!(
        resolve_checker_response(&Provider::Aws, "203.0.113.7\n"),
        Ok(String::from("203.0.113.7"))
    );
    assert_eq!(
        resolve_checker_response(
            &Provider::Dyndns,
            "<html><body>Current IP Address: 198.51.100.9</body></html>"
        ),
        Ok(String::from("198.51.100.9"))
    );
}

#[test]
fn lookup_actions_name_the_endpoints() {
    assert_eq!(lookup_action(&Provider::Upnp), LookupAction::QueryGateway);
    assert_eq!(
        lookup_action(&Provider::Aws),
        LookupAction::FetchText(String::from("https://checkip.amazonaws.com/"))
    );
    assert_eq!(
        lookup_action(&Provider::Dyndns),
        LookupAction::FetchHtml(String::from("http://checkip.dyndns.org/"))
    );
}
