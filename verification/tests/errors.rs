use cfddns::errors::DdnsError;

#[test]
fn every_error_kind_carries_its_text() {
    assert_eq!(
        DdnsError::NetworkError(String::from("connection refused")).message(),
        "connection refused"
    );
    assert_eq!(
        DdnsError::ParseError(String::from("not-an-ip")).message(),
        "not-an-ip"
    );
    assert_eq!(
        DdnsError::ProviderLogicalError(String::from("Failed to update DNS record")).message(),
        "Failed to update DNS record"
    );
    assert_eq!(
        DdnsError::ArgumentError(String::from("missing record id")).message(),
        "missing record id"
    );
}

#[test]
fn error_kinds_are_distinguishable() {
    let text = String::from("x");
    assert_ne!(
        DdnsError::NetworkError(text.clone()),
        DdnsError::ParseError(text.clone())
    );
    assert_ne!(
        DdnsError::ProviderLogicalError(text.clone()),
        DdnsError::ArgumentError(text)
    );
}
