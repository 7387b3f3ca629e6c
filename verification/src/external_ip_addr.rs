//! The IP resolver: interchangeable strategies for discovering the
//! caller's current external IPv4 address.
//!
//! The network fetch itself is performed by the surrounding application;
//! this module holds the verified halves of each strategy: which endpoint
//! to contact, and how to interpret what came back. A plain-text checker
//! response is trimmed and parsed strictly as IPv4; an HTML checker
//! response has the inner markup of its first `<body>` element located
//! first, then a fixed literal prefix stripped, before the same trim and
//! parse. A gateway device's answer is returned verbatim, as the gateway's
//! protocol already guarantees address shape.

use crate::errors::DdnsError;
use crate::ipv4::{ipv4_seq, is_ipv4_string, lemma_parse_of_canonical, parse_ipv4, Ipv4Addr};
use crate::strutil::{
    find_from, find_sub_from, lemma_find_from_some, strip_prefix, strip_prefix_spec, trim,
    trim_spec,
};
use vstd::prelude::*;

verus! {

/// A strategy for resolving the external IPv4 address. Each variant is
/// stateless; one is selected per invocation and never probed or
/// auto-detected.
#[derive(Clone, Copy, Debug, PartialEq, Eq, Structural)]
pub enum Provider {
    /// Query the local network gateway device for the address it presents
    /// to the wide-area network.
    Upnp,
    /// Fetch a plain-text page whose whole body is the address.
    Aws,
    /// Fetch a minimal HTML page carrying the address in its body element.
    Dyndns,
}

/// The single outward step a strategy requires; the surrounding
/// application performs it and hands the response back to
/// [`resolve_checker_response`].
#[derive(Debug, Clone, PartialEq, Eq)]
pub enum LookupAction {
    /// Discover the gateway device and ask it for its external address.
    QueryGateway,
    /// Issue a GET to the given endpoint and treat the body as plain text.
    FetchText(String),
    /// Issue a GET to the given endpoint and treat the body as HTML.
    FetchHtml(String),
}

/// The outward step that the strategy `provider` requires.
pub fn lookup_action(provider: &Provider) -> (r: LookupAction)
    ensures
        provider is Upnp ==> r is QueryGateway,
        provider is Aws ==> (r matches LookupAction::FetchText(url) && url@
            == "https://checkip.amazonaws.com/"@),
        provider is Dyndns ==> (r matches LookupAction::FetchHtml(url) && url@
            == "http://checkip.dyndns.org/"@),
{
    match provider {
        Provider::Upnp => LookupAction::QueryGateway,
        Provider::Aws => LookupAction::FetchText(String::from_str("https://checkip.amazonaws.com/")),
        Provider::Dyndns => LookupAction::FetchHtml(String::from_str("http://checkip.dyndns.org/")),
    }
}

/// What resolving a plain-text checker response must yield: the trimmed
/// body itself when it is a strict IPv4 address, and otherwise a
/// `ParseError` carrying the original body text.
pub open spec fn text_resolution(body: Seq<char>, r: Result<String, DdnsError>) -> bool {
    let t = trim_spec(body);
    &&& is_ipv4_string(t) ==> (r matches Ok(ip) && ip@ == t)
    &&& !is_ipv4_string(t) ==> (r matches Err(e) && e matches DdnsError::ParseError(m) && m@
        == body)
}

/// Resolves a plain-text checker response: the whole body, trimmed of
/// surrounding whitespace, must parse strictly as an IPv4 address; a
/// non-parsing body fails with a `ParseError` carrying the original text.
pub fn resolve_from_text(body: &str) -> (r: Result<String, DdnsError>)
    ensures
        text_resolution(body@, r),
{
    let trimmed = trim(body);
    match parse_ipv4(trimmed) {
        Some(_) => Ok(String::from_str(trimmed)),
        None => Err(DdnsError::ParseError(String::from_str(body))),
    }
}

/// The inner markup of the first `<body>` element of `s`: the characters
/// between the first `<body>` tag and the next `</body>` after it, or the
/// rest of `s` when no closing tag follows. `None` when `s` has no
/// `<body>` tag at all.
pub open spec fn html_body_inner(s: Seq<char>) -> Option<Seq<char>> {
    match find_from(s, "<body>"@, 0) {
        None => None,
        Some(i) => {
            let start = i + "<body>"@.len() as int;
            match find_from(s, "</body>"@, start) {
                None => Some(s.subrange(start, s.len() as int)),
                Some(j) => Some(s.subrange(start, j)),
            }
        },
    }
}

/// What resolving an HTML checker response must yield: with no body
/// element, a `ParseError` carrying the whole response; otherwise the
/// body's inner markup, with the literal prefix "Current IP Address: "
/// stripped when present and whitespace trimmed, when that is a strict
/// IPv4 address — and a `ParseError` carrying that candidate text when it
/// is not.
pub open spec fn html_resolution(body: Seq<char>, r: Result<String, DdnsError>) -> bool {
    match html_body_inner(body) {
        None => (r matches Err(e) && e matches DdnsError::ParseError(m) && m@ == body),
        Some(inner) => {
            let t = trim_spec(strip_prefix_spec(inner, "Current IP Address: "@));
            &&& is_ipv4_string(t) ==> (r matches Ok(ip) && ip@ == t)
            &&& !is_ipv4_string(t) ==> (r matches Err(e) && e matches DdnsError::ParseError(m)
                && m@ == t)
        },
    }
}

/// Resolves an HTML checker response: locates the first `<body>` element,
/// strips the literal prefix "Current IP Address: " from its inner markup
/// when present, trims whitespace, and parses the rest strictly as IPv4.
pub fn resolve_from_html(body: &str) -> (r: Result<String, DdnsError>)
    ensures
        html_resolution(body@, r),
{
    let n = body.unicode_len();
    proof {
        reveal_strlit("<body>");
        reveal_strlit("</body>");
    }
    let open_at = match find_sub_from(body, "<body>", 0) {
        None => {
            return Err(DdnsError::ParseError(String::from_str(body)));
        },
        Some(i) => i,
    };
    proof {
        lemma_find_from_some(body@, "<body>"@, 0, open_at as int);
    }
    let start = open_at + 6;
    let inner_end = match find_sub_from(body, "</body>", start) {
        None => n,
        Some(j) => {
            proof {
                lemma_find_from_some(body@, "</body>"@, start as int, j as int);
            }
            j
        },
    };
    let inner = body.substring_char(start, inner_end);
    let stripped = strip_prefix(inner, "Current IP Address: ");
    let candidate = trim(stripped);
    match parse_ipv4(candidate) {
        Some(_) => Ok(String::from_str(candidate)),
        None => Err(DdnsError::ParseError(String::from_str(candidate))),
    }
}

/// For any plain-text response whose trimmed body is the canonical form
/// of an address, the text checker returns exactly that address.
pub proof fn lemma_text_checker_returns_the_address(
    a: Ipv4Addr,
    body: Seq<char>,
    r: Result<String, DdnsError>,
)
    requires
        trim_spec(body) == ipv4_seq(a),
        text_resolution(body, r),
    ensures
        r matches Ok(ip) && ip@ == ipv4_seq(a),
{
    lemma_parse_of_canonical(a);
}

/// For any HTML response with a body element whose inner markup, after
/// the literal prefix is stripped and whitespace trimmed, is the
/// canonical form of an address, the HTML checker returns exactly that
/// address.
pub proof fn lemma_html_checker_returns_the_address(
    a: Ipv4Addr,
    body: Seq<char>,
    inner: Seq<char>,
    r: Result<String, DdnsError>,
)
    requires
        html_body_inner(body) == Some(inner),
        trim_spec(strip_prefix_spec(inner, "Current IP Address: "@)) == ipv4_seq(a),
        html_resolution(body, r),
    ensures
        r matches Ok(ip) && ip@ == ipv4_seq(a),
{
    lemma_parse_of_canonical(a);
}

/// What resolving a strategy's response must yield: the gateway's answer
/// verbatim, or the checker interpretations above.
pub open spec fn checker_resolution(
    provider: Provider,
    body: Seq<char>,
    r: Result<String, DdnsError>,
) -> bool {
    match provider {
        Provider::Upnp => (r matches Ok(ip) && ip@ == body),
        Provider::Aws => text_resolution(body, r),
        Provider::Dyndns => html_resolution(body, r),
    }
}

/// Interprets the response `body` that the outward step of `provider`
/// produced: verbatim for the gateway, trimmed strict IPv4 for the
/// plain-text checker, and body-element extraction first for the HTML
/// checker.
pub fn resolve_checker_response(provider: &Provider, body: &str) -> (r: Result<String, DdnsError>)
    ensures
        checker_resolution(*provider, body@, r),
{
    match provider {
        Provider::Upnp => Ok(String::from_str(body)),
        Provider::Aws => resolve_from_text(body),
        Provider::Dyndns => resolve_from_html(body),
    }
}

} // verus!
