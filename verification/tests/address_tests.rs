use pd::address::{
    address_from_url, blocking_endpoint_address, endpoint_address, has_fallback_address,
    host_port_fallback, UrlParts,
};
use pd::error::PdError;

#[test]
fn url_endpoint_gives_host_and_port() {
    assert_eq!(endpoint_address("http://127.0.0.1:2379"), Ok(("127.0.0.1".to_string(), 2379)));
    assert_eq!(endpoint_address("http://pd.example:20160/x"), Ok(("pd.example".to_string(), 20160)));
}

#[test]
fn url_without_port_is_refused() {
    assert_eq!(endpoint_address("http://127.0.0.1"), Err(PdError::UnknownPort));
    // the default port of the scheme is no port of the URL
    assert_eq!(endpoint_address("http://127.0.0.1:80"), Err(PdError::UnknownPort));
}

#[test]
fn url_without_host_is_refused() {
    assert_eq!(endpoint_address("localhost:2379"), Err(PdError::UnknownHost));
}

#[test]
fn invalid_url_is_refused_by_async_client() {
    assert_eq!(endpoint_address("127.0.0.1:2379"), Err(PdError::InvalidUrl));
}

#[test]
fn blocking_client_reads_host_port() {
    assert_eq!(
        blocking_endpoint_address("127.0.0.1:2379"),
        Some(Ok(("127.0.0.1".to_string(), 2379)))
    );
    assert_eq!(
        blocking_endpoint_address("http://127.0.0.1:2379"),
        Some(Ok(("127.0.0.1".to_string(), 2379)))
    );
    assert_eq!(blocking_endpoint_address("127.0.0.1"), None);
    assert_eq!(blocking_endpoint_address("1.2.3.4:99999"), None);
}

#[test]
fn fallback_parts() {
    assert!(has_fallback_address("10.0.0.1:+80:x"));
    assert_eq!(host_port_fallback("10.0.0.1:+80:x"), ("10.0.0.1".to_string(), 80));
    assert!(!has_fallback_address("10.0.0.1"));
    assert!(!has_fallback_address("h:"));
}

#[test]
fn address_from_parts() {
    let p = UrlParts { host: Some("h".to_string()), port: Some(1) };
    assert_eq!(address_from_url(p), Ok(("h".to_string(), 1)));
    let q = UrlParts { host: None, port: Some(1) };
    assert_eq!(address_from_url(q), Err(PdError::UnknownHost));
}
