//! A dynamic-DNS updater library: it resolves the caller's current public
//! IPv4 address from one of several checker strategies and prepares the
//! requests and decisions needed to push that address into a DNS provider's
//! hosted zone.
//!
//! All network traffic is performed by the surrounding application; this
//! crate holds the verified logic: strict IPv4 parsing and formatting,
//! checker-response interpretation (plain text and HTML), request
//! construction, and the interpretation of the provider's response envelope.

pub mod cloudflare_dns;
pub mod errors;
pub mod external_ip_addr;
pub mod ipv4;
pub mod strutil;
