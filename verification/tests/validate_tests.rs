use pd::endpoints::parse_endpoints;
use pd::error::PdError;
use pd::members::{Member, MemberList};
use pd::validate::EndpointCheck;

fn member(name: &str, id: u64, url: &str) -> Member {
    Member {
        name: name.to_string(),
        member_id: id,
        client_urls: vec![url.to_string()],
        peer_urls: vec![url.to_string()],
    }
}

fn answer(cluster_id: u64, leader_url: &str) -> MemberList {
    MemberList {
        cluster_id,
        leader: member("pd0", 100, leader_url),
        members: vec![member("pd0", 100, leader_url)],
    }
}

#[test]
fn empty_endpoint_list_is_refused() {
    assert_eq!(EndpointCheck::start(0).err(), Some(PdError::EmptyEndpoints));
    assert!(EndpointCheck::start(parse_endpoints(" , ").len()).is_err());
}

#[test]
fn duplicate_endpoint_is_refused() {
    let mut c = EndpointCheck::start(2).unwrap();
    assert_eq!(c.accept("http://a:1"), Ok(()));
    assert_eq!(c.accept("http://b:1"), Ok(()));
    assert_eq!(c.accept("http://a:1"), Err(PdError::DuplicateEndpoint("http://a:1".to_string())));
}

#[test]
fn cluster_id_mismatch_is_refused() {
    let mut c = EndpointCheck::start(2).unwrap();
    c.accept("a").unwrap();
    assert_eq!(c.record(answer(7, "a")), Ok(()));
    c.accept("b").unwrap();
    assert_eq!(c.record(answer(7, "x")), Ok(()));
    c.accept("c").unwrap();
    assert_eq!(c.record(answer(8, "a")), Err(PdError::ClusterIdMismatch { want: 7, got: 8 }));
}

#[test]
fn no_answer_fails() {
    let mut c = EndpointCheck::start(1).unwrap();
    c.accept("a").unwrap();
    assert_eq!(c.finish().err(), Some(PdError::NoResponse));
}

#[test]
fn first_answer_is_kept() {
    let mut c = EndpointCheck::start(3).unwrap();
    c.accept("a").unwrap();
    c.accept("b").unwrap();
    c.record(answer(9, "first")).unwrap();
    c.accept("c").unwrap();
    c.record(answer(9, "second")).unwrap();
    let m = c.finish().unwrap();
    assert_eq!(m.cluster_id, 9);
    assert_eq!(m.leader.client_urls, vec!["first".to_string()]);
}

fn run(eps: &[&str], answers: Vec<Option<MemberList>>) -> Result<u64, PdError> {
    let mut c = EndpointCheck::start(eps.len())?;
    for (ep, a) in eps.iter().zip(answers.into_iter()) {
        c.accept(ep)?;
        if let Some(m) = a {
            c.record(m)?;
        }
    }
    c.finish().map(|m| m.cluster_id)
}

#[test]
fn silent_endpoint_changes_nothing() {
    let base = run(&["a", "b"], vec![None, Some(answer(3, "x"))]);
    assert_eq!(base, Ok(3));
    assert_eq!(run(&["a", "b", "d"], vec![None, Some(answer(3, "x")), None]), base);
    assert_eq!(run(&["d", "a", "b"], vec![None, None, Some(answer(3, "x"))]), base);
    let bad = run(&["a", "b"], vec![Some(answer(3, "x")), Some(answer(4, "y"))]);
    assert_eq!(bad, Err(PdError::ClusterIdMismatch { want: 3, got: 4 }));
    assert_eq!(run(&["d", "a", "b"], vec![None, Some(answer(3, "x")), Some(answer(4, "y"))]), bad);
}
