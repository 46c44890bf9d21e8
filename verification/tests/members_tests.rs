use pd::members::{Member, MemberList};

#[test]
fn duplicate_copies_everything() {
    let m = Member {
        name: "pd1".to_string(),
        member_id: 101,
        client_urls: vec!["http://a:1".to_string()],
        peer_urls: vec!["http://a:2".to_string()],
    };
    let l = MemberList { cluster_id: 5, leader: m.duplicate(), members: vec![m.duplicate()] };
    let d = l.duplicate();
    assert_eq!(d.cluster_id(), 5);
    assert_eq!(d.get_leader().name, "pd1");
    assert_eq!(d.members[0].peer_urls, vec!["http://a:2".to_string()]);
    assert_eq!(d.members[0].client_urls, m.client_urls);
}
