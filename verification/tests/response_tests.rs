use pd::error::PdError;
use pd::response::{check_resp_header, checked, checked_region, request_header, ResponseHeader};

#[test]
fn header_carries_cluster_id() {
    assert_eq!(request_header(42).cluster_id, 42);
}

#[test]
fn error_header_is_reported() {
    let ok = ResponseHeader { cluster_id: 1, error: None };
    let bad = ResponseHeader { cluster_id: 1, error: Some("not bootstrapped".to_string()) };
    assert_eq!(check_resp_header(&ok), Ok(()));
    assert_eq!(check_resp_header(&bad), Err(PdError::Server("not bootstrapped".to_string())));
    assert_eq!(checked(&ok, 5u64), Ok(5));
    assert_eq!(checked(&bad, 5u64), Err(PdError::Server("not bootstrapped".to_string())));
}

#[test]
fn region_by_id() {
    let ok = ResponseHeader { cluster_id: 1, error: None };
    let bad = ResponseHeader { cluster_id: 1, error: Some("e".to_string()) };
    assert_eq!(checked_region(&ok, true, 3u8), Ok(Some(3)));
    assert_eq!(checked_region(&ok, false, 3u8), Ok(None));
    assert_eq!(checked_region(&bad, true, 3u8), Err(PdError::Server("e".to_string())));
}
