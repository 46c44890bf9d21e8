use std::sync::{Arc, RwLock};

use pd::error::PdError;
use pd::retry::{
    GetClient, Request, RequestAttempts, RetryState, MAX_RETRY_COUNT, RETRY_INTERVAL_SECS,
};

fn run_request(retry: usize, outcomes: Vec<Result<u32, PdError>>) -> (Result<u32, PdError>, usize) {
    let mut req = Request::new(retry, Arc::new(()), |_: &()| 0u32);
    let mut sent = 0;
    let mut it = outcomes.into_iter();
    loop {
        let o = it.next().unwrap();
        sent += 1;
        req.record_outcome(o);
        if req.receive() {
            break;
        }
    }
    (req.finish(), sent)
}

#[test]
fn request_returns_first_success() {
    let (res, sent) = run_request(
        3,
        vec![Err(PdError::NoResponse), Ok(5), Ok(6)],
    );
    assert_eq!(res, Ok(5));
    assert_eq!(sent, 2);
}

#[test]
fn request_fails_after_budget() {
    let (res, sent) = run_request(
        2,
        vec![Err(PdError::NoResponse), Err(PdError::NoResponse), Ok(1)],
    );
    assert_eq!(res, Err(PdError::RequestFailed));
    assert_eq!(sent, 2);
}

#[test]
fn request_get_resp_and_client() {
    let client = Arc::new(7u8);
    let mut req = Request::new(1, client.clone(), |c: &u8| *c as u32);
    assert_eq!(**req.client(), 7);
    let v = (req.func_mut())(&7);
    req.record_outcome(Ok(v));
    assert!(req.receive());
    assert_eq!(req.get_resp(), Some(Ok(7)));
}

#[test]
fn get_client_retries_through_shared_client() {
    let shared = Arc::new(RwLock::new(Arc::new(3u8)));
    let mut g: GetClient<u8, u32, _> = GetClient::new(2, shared.clone(), |c: Arc<u8>| *c as u32);
    assert!(!g.check());
    g.record_outcome(Err(PdError::LeaderUnreachable));
    assert!(!g.check());
    let c = g.client().read().unwrap().clone();
    let v = (g.func_mut())(c);
    g.record_outcome(Ok(v));
    assert!(g.check());
    assert_eq!(g.finish(), Ok(3));
}

#[test]
fn get_client_without_response_fails() {
    let shared = Arc::new(RwLock::new(Arc::new(0u8)));
    let mut g: GetClient<u8, u32, _> = GetClient::new(1, shared, |_: Arc<u8>| 0u32);
    g.record_outcome(Err(PdError::NoResponse));
    assert!(g.check());
    assert_eq!(g.get_resp(), None);
}

#[test]
fn blocking_request_has_a_hundred_attempts() {
    let mut a = RequestAttempts::new();
    let none: Option<u8> = None;
    let mut n = 0;
    while a.next_attempt(&none) {
        n += 1;
    }
    assert_eq!(n, MAX_RETRY_COUNT);
    assert_eq!(n, 100);
    assert!(!a.next_attempt(&none));
    assert_eq!(RequestAttempts::pause_after_failure(false), RETRY_INTERVAL_SECS);
    assert_eq!(RequestAttempts::pause_after_failure(true), 0);
    assert_eq!(RequestAttempts::finish::<u8>(None), Err(PdError::RequestFailed));
    assert_eq!(RequestAttempts::finish(Some(4u8)), Ok(4));
}

fn run_blocking(outcomes: Vec<Option<u32>>) -> (Result<u32, PdError>, usize) {
    let mut a = RequestAttempts::new();
    let mut resp = None;
    let mut sent = 0;
    let mut it = outcomes.into_iter();
    while a.next_attempt(&resp) {
        sent += 1;
        resp = it.next().unwrap();
    }
    (RequestAttempts::finish(resp), sent)
}

#[test]
fn blocking_request_stops_at_first_success() {
    let mut outcomes = vec![None; 100];
    outcomes[6] = Some(7);
    outcomes[9] = Some(9);
    assert_eq!(run_blocking(outcomes), (Ok(7), 7));
    let mut first = vec![None; 100];
    first[0] = Some(1);
    assert_eq!(run_blocking(first), (Ok(1), 1));
}

#[test]
fn blocking_request_fails_after_a_hundred_failures() {
    let mut outcomes = vec![None; 101];
    outcomes[100] = Some(5);
    assert_eq!(run_blocking(outcomes), (Err(PdError::RequestFailed), 100));
}

#[test]
fn retry_state_keeps_only_success() {
    let mut st: RetryState<u8> = RetryState::new(2);
    st.record(Err(PdError::NoResponse));
    assert!(!st.is_done());
    st.record(Ok(3));
    assert!(st.is_done());
    assert_eq!(st.into_resp(), Some(Ok(3)));
}
