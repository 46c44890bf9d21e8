use pd::endpoints::{normalize_endpoints, parse_endpoints, starts_with_http, with_http_scheme};

#[test]
fn parse_endpoints_trims_and_drops_empty() {
    assert_eq!(
        parse_endpoints(" 127.0.0.1:2379 , ,http://a:1,"),
        vec!["127.0.0.1:2379".to_string(), "http://a:1".to_string()]
    );
    assert!(parse_endpoints("").is_empty());
    assert!(parse_endpoints(" , ,").is_empty());
}

#[test]
fn normalize_endpoints_adds_scheme() {
    assert_eq!(
        normalize_endpoints("127.0.0.1:2379,http://127.0.0.1:2380"),
        vec!["http://127.0.0.1:2379".to_string(), "http://127.0.0.1:2380".to_string()]
    );
    assert_eq!(normalize_endpoints(""), vec!["http://".to_string()]);
}

#[test]
fn with_http_scheme_is_idempotent() {
    let once = with_http_scheme("pd:2379");
    assert_eq!(once, "http://pd:2379");
    assert_eq!(with_http_scheme(&once), once);
    assert!(starts_with_http(&once));
    assert!(!starts_with_http("https://x"));
    assert!(!starts_with_http("http:/"));
}
