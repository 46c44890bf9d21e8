use vstd::prelude::*;
use vstd::string::*;
use crate::members::{Member, MemberList, MemberListView, MemberView};
use crate::response::ResponseHeader;
use crate::text::{decimal, decimal_string, string_views, usize_to_u64};

verus! {

/// The cluster id that the mock PD service reports.
pub const CLUSTER_ID: u64 = 42;

/// The name of the `i`-th mock member: `pd` and the decimal notation of `i`.
pub open spec fn mock_member_name(i: nat) -> Seq<char> {
    seq!['p', 'd'] + decimal(i)
}

/// The `i`-th member of the mock cluster, served at `ep`.
pub open spec fn mock_member(i: nat, ep: Seq<char>) -> MemberView {
    MemberView {
        name: mock_member_name(i),
        member_id: (100 + i) as u64,
        client_urls: seq![ep],
        peer_urls: seq![ep],
    }
}

/// The `GetMembers` answer of the mock service for the endpoints `eps`: one
/// member per endpoint, the last one the leader.
pub open spec fn mock_members_response(eps: Seq<Seq<char>>) -> MemberListView {
    MemberListView {
        cluster_id: CLUSTER_ID,
        leader: mock_member((eps.len() - 1) as nat, eps.last()),
        members: Seq::new(eps.len(), |i: int| mock_member(i as nat, eps[i])),
    }
}

/// A list holding one copy of `s`.
fn single(s: &String) -> (v: Vec<String>)
    ensures
        string_views(v@) == seq![s@],
{
    let mut v: Vec<String> = Vec::new();
    v.push(s.clone());
    assert(string_views(v@) =~= seq![s@]);
    v
}

/// Builds the mock service's `GetMembers` answer for the endpoints `eps`.
pub fn get_members_response(eps: Vec<String>) -> (resp: MemberList)
    requires
        eps.len() > 0,
        eps.len() + 100 <= u64::MAX,
    ensures
        resp@ == mock_members_response(string_views(eps@)),
{
    let ghost es = string_views(eps@);
    let mut members: Vec<Member> = Vec::new();
    let mut i: usize = 0;
    let prefix = "pd";
    proof {
        reveal_strlit("pd");
        assert(prefix@ =~= seq!['p', 'd']);
    }
    while i < eps.len()
        invariant
            i <= eps.len(),
            eps.len() + 100 <= u64::MAX,
            prefix@ == seq!['p', 'd'],
            es == string_views(eps@),
            members@.len() == i,
            forall|j: int| 0 <= j < i ==> (#[trigger] members@[j])@ == mock_member(j as nat, es[j]),
        decreases eps.len() - i,
    {
        let name = String::from_str(prefix).concat(decimal_string(i).as_str());
        let m = Member {
            name: name,
            member_id: 100 + usize_to_u64(i),
            client_urls: single(&eps[i]),
            peer_urls: single(&eps[i]),
        };
        members.push(m);
        i = i + 1;
    }
    let leader = members[members.len() - 1].duplicate();
    let resp = MemberList { cluster_id: CLUSTER_ID, leader: leader, members: members };
    assert(resp@.members =~= mock_members_response(es).members);
    resp
}

/// In the mock answer the leader is the last member, every member has its
/// own id, and the `i`-th member is served at the `i`-th endpoint.
pub proof fn lemma_mock_members(eps: Seq<Seq<char>>)
    requires
        eps.len() > 0,
    ensures
        mock_members_response(eps).leader == mock_members_response(eps).members.last(),
        mock_members_response(eps).members.len() == eps.len(),
        forall|i: int, j: int|
            0 <= i < eps.len() && 0 <= j < eps.len() && i != j && eps.len() + 100 <= u64::MAX
                ==> #[trigger] mock_members_response(eps).members[i].member_id
                != #[trigger] mock_members_response(eps).members[j].member_id,
        forall|i: int|
            0 <= i < eps.len() ==> #[trigger] mock_members_response(eps).members[i].client_urls
                == seq![eps[i]],
{
}

/// The counter after handing out an id: one more, wrapping around at the
/// end of its range.
pub open spec fn advance_id(x: usize) -> usize {
    if x == usize::MAX {
        0
    } else {
        (x + 1) as usize
    }
}

/// The id that the `k`-th `alloc_id` call (counting from 0) on a fresh
/// service returns.
pub open spec fn id_after(k: nat) -> usize
    decreases k,
{
    if k == 0 {
        1
    } else {
        advance_id(id_after((k - 1) as nat))
    }
}

/// A fresh service hands out the ids `1, 2, ..., n` in this order, so the
/// first `n` ids are pairwise distinct, for every `n` below the counter's
/// range.
pub proof fn lemma_fresh_ids(n: nat)
    requires
        n < usize::MAX,
    ensures
        forall|k: nat| k < n ==> #[trigger] id_after(k) == k + 1,
        forall|i: nat, j: nat| i < j < n ==> #[trigger] id_after(i) != #[trigger] id_after(j),
    decreases n,
{
    if n > 0 {
        lemma_fresh_ids((n - 1) as nat);
        assert(id_after((n - 1) as nat) == n) by {
            if n > 1 {
                assert(id_after((n - 2) as nat) == n - 1);
            }
        }
    }
}

/// The mock PD service: it answers `GetMembers` with a fixed member list
/// and hands out ids counting up from 1.
pub struct Service {
    id_allocator: usize,
    member_resp: MemberList,
}

impl Service {
    pub closed spec fn members_view(&self) -> MemberListView {
        self.member_resp@
    }

    /// The id that the service hands out next.
    pub closed spec fn next_id(&self) -> usize {
        self.id_allocator
    }

    /// A mock service for the endpoints `eps`.
    pub fn new(eps: Vec<String>) -> (s: Service)
        requires
            eps.len() > 0,
            eps.len() + 100 <= u64::MAX,
        ensures
            s.members_view() == mock_members_response(string_views(eps@)),
            s.next_id() == 1,
    {
        Service { member_resp: get_members_response(eps), id_allocator: 1 }
    }

    /// The header of every mock answer: the mock cluster id, no error.
    pub fn header() -> (h: ResponseHeader)
        ensures
            h.cluster_id == CLUSTER_ID,
            h.error is None,
    {
        ResponseHeader { cluster_id: CLUSTER_ID, error: None }
    }

    /// The answer to `GetMembers`.
    pub fn get_members(&self) -> (resp: MemberList)
        ensures
            resp@ == self.members_view(),
    {
        self.member_resp.duplicate()
    }

    /// Hands out the next id and advances the counter by one, wrapping
    /// around at the end of its range as `AtomicUsize::fetch_add` does.
    pub fn alloc_id(&mut self) -> (id: u64)
        ensures
            id == old(self).next_id(),
            final(self).next_id() == advance_id(old(self).next_id()),
            final(self).members_view() == old(self).members_view(),
    {
        let id = self.id_allocator;
        self.id_allocator = self.id_allocator.wrapping_add(1);
        usize_to_u64(id)
    }
}

} // verus!
