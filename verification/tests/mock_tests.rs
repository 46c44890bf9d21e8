use pd::mock::{get_members_response, Service, CLUSTER_ID};

fn eps() -> Vec<String> {
    vec![
        "http://127.0.0.1:43079".to_string(),
        "http://127.0.0.1:53079".to_string(),
        "http://127.0.0.1:63079".to_string(),
    ]
}

#[test]
fn members_response_lists_every_endpoint() {
    let resp = get_members_response(eps());
    assert_eq!(resp.cluster_id, 42);
    assert_eq!(resp.members.len(), 3);
    for (i, m) in resp.members.iter().enumerate() {
        assert_eq!(m.name, format!("pd{}", i));
        assert_eq!(m.member_id, 100 + i as u64);
        assert_eq!(m.client_urls, vec![eps()[i].clone()]);
        assert_eq!(m.peer_urls, vec![eps()[i].clone()]);
    }
    assert_eq!(resp.leader.name, "pd2");
    assert_eq!(resp.leader.member_id, 102);
}

#[test]
fn service_answers_and_allocates_ids() {
    let mut s = Service::new(eps());
    assert_eq!(s.get_members().members.len(), 3);
    assert_eq!(s.get_members().leader.client_urls, vec![eps()[2].clone()]);
    assert_eq!(s.alloc_id(), 1);
    assert_eq!(s.alloc_id(), 2);
    assert_eq!(s.alloc_id(), 3);
    let h = Service::header();
    assert_eq!(h.cluster_id, CLUSTER_ID);
    assert!(h.error.is_none());
}

#[test]
fn single_endpoint_is_its_own_leader() {
    let resp = get_members_response(vec!["http://a:1".to_string()]);
    assert_eq!(resp.leader.name, "pd0");
    assert_eq!(resp.members[0].member_id, 100);
}

#[test]
fn fresh_service_hands_out_one_to_n() {
    let mut s = Service::new(eps());
    let ids: Vec<u64> = (0..50).map(|_| s.alloc_id()).collect();
    assert_eq!(ids, (1..=50).collect::<Vec<u64>>());
}
