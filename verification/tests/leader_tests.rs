use pd::leader::{
    leader_connect_plan, member_urls_in_order, shuffled_indexes, AsyncLeaderSearch, LeaderSearch,
};
use pd::members::{Member, MemberList};

fn member(id: u64, urls: &[&str]) -> Member {
    Member {
        name: format!("pd{}", id),
        member_id: id,
        client_urls: urls.iter().map(|u| u.to_string()).collect(),
        peer_urls: vec![],
    }
}

fn cluster() -> MemberList {
    MemberList {
        cluster_id: 1,
        leader: member(2, &["l1", "l2"]),
        members: vec![member(0, &["a1"]), member(1, &["b1", "b2"]), member(2, &["l1", "l2"])],
    }
}

#[test]
fn shuffled_indexes_is_a_permutation() {
    for n in [0usize, 1, 5, 17] {
        let mut order = shuffled_indexes(n);
        order.sort();
        assert_eq!(order, (0..n).collect::<Vec<usize>>());
    }
}

#[test]
fn member_urls_follow_the_order() {
    let c = cluster();
    assert_eq!(
        member_urls_in_order(&c.members, &vec![2, 0, 1]),
        vec!["l1", "l2", "a1", "b1", "b2"].into_iter().map(String::from).collect::<Vec<_>>()
    );
    assert!(member_urls_in_order(&c.members, &vec![]).is_empty());
}

#[test]
fn leader_plan_starts_with_the_leader() {
    let c = cluster();
    let plan = leader_connect_plan(&c, &vec![1, 0, 2]);
    let got: Vec<(String, bool)> = plan.into_iter().map(|t| (t.url, t.query_members)).collect();
    let want: Vec<(String, bool)> = vec![
        ("l1", false),
        ("l2", false),
        ("b1", true),
        ("b2", true),
        ("a1", true),
        ("l1", true),
        ("l2", true),
    ]
    .into_iter()
    .map(|(u, q)| (u.to_string(), q))
    .collect();
    assert_eq!(got, want);
}

#[test]
fn shuffled_plan_probes_every_member() {
    let c = cluster();
    let order = shuffled_indexes(c.members.len());
    let urls = member_urls_in_order(&c.members, &order);
    for m in &c.members {
        for u in &m.client_urls {
            assert!(urls.contains(u));
        }
    }
    assert_eq!(urls.len(), 5);
}

#[test]
fn shuffled_indexes_are_not_always_in_order() {
    let identity: Vec<usize> = (0..12).collect();
    let moved = (0..20).any(|_| shuffled_indexes(12) != identity);
    assert!(moved);
}


fn answer_list(leader: &str) -> MemberList {
    MemberList { cluster_id: 1, leader: member(9, &[leader]), members: vec![member(9, &[leader])] }
}

#[test]
fn blocking_search_returns_previous_list_on_leader_connect() {
    let mut s = LeaderSearch::new(cluster(), &vec![0, 1, 2]);
    let t = s.next_target().unwrap();
    assert_eq!((t.url.as_str(), t.query_members), ("l1", false));
    assert!(s.on_attempt(false, None).is_none());
    let t = s.next_target().unwrap();
    assert_eq!(t.url, "l2");
    let found = s.on_attempt(true, None).unwrap();
    assert_eq!(found.leader.client_urls, vec!["l1".to_string(), "l2".to_string()]);
    assert_eq!(found.members.len(), 3);
}

#[test]
fn blocking_search_takes_first_member_answer() {
    let mut s = LeaderSearch::new(cluster(), &vec![1, 0, 2]);
    assert!(s.on_attempt(false, None).is_none()); // l1
    assert!(s.on_attempt(false, None).is_none()); // l2
    let t = s.next_target().unwrap();
    assert_eq!((t.url.as_str(), t.query_members), ("b1", true));
    assert!(s.on_attempt(true, None).is_none()); // b1 connects but does not answer
    let found = s.on_attempt(true, Some(answer_list("new"))).unwrap(); // b2
    assert_eq!(found.leader.client_urls, vec!["new".to_string()]);
}

#[test]
fn blocking_search_gives_up_after_all_targets() {
    let mut s = LeaderSearch::new(cluster(), &vec![0]);
    for _ in 0..3 {
        assert!(s.next_target().is_some());
        assert!(s.on_attempt(false, None).is_none());
    }
    assert!(s.next_target().is_none());
}

#[test]
fn async_search_tries_only_the_answers_leader() {
    let c = cluster();
    let mut s = AsyncLeaderSearch::new(&c, &vec![0, 1, 2]);
    let t = s.next_target().unwrap();
    assert_eq!((t.url.as_str(), t.query_members), ("a1", true));
    s.on_probe(None);
    let t = s.next_target().unwrap();
    assert_eq!(t.url, "b1");
    s.on_probe(Some(answer_list("x1")));
    let t = s.next_target().unwrap();
    assert_eq!((t.url.as_str(), t.query_members), ("x1", false));
    assert!(s.on_leader_connect(false).is_none());
    assert!(s.next_target().is_none());
}

#[test]
fn async_search_ends_at_leader_connection() {
    let c = cluster();
    let mut s = AsyncLeaderSearch::new(&c, &vec![2, 0, 1]);
    s.on_probe(Some(answer_list("y1")));
    let found = s.on_leader_connect(true).unwrap();
    assert_eq!(found.leader.client_urls, vec!["y1".to_string()]);
}
