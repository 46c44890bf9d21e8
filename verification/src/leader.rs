use vstd::prelude::*;
use crate::members::{Member, MemberList, MemberListView, MemberView};
use crate::text::string_views;
#[allow(unused_imports)]
use rand::Rng;

verus! {

#[verifier::external_type_specification]
#[verifier::external_body]
pub struct ExThreadRng(rand::ThreadRng);

/// Calls `rand::thread_rng`, which hands out the thread-local random number
/// generator. Nothing is stated of it; it panics only when the operating
/// system offers no entropy at all.
#[verifier::external_body]
fn thread_rng() -> rand::ThreadRng {
    rand::thread_rng()
}

/// Calls `rand::Rng::shuffle` on the elements of `values`. The contract
/// claims what that function's source (a Fisher-Yates shuffle made of
/// swaps) shows of every outcome: the elements are permuted, so the
/// multiset of the elements is unchanged. Which permutation comes out
/// depends on chance and is not stated.
#[verifier::external_body]
fn shuffle(rng: &mut rand::ThreadRng, values: &mut Vec<usize>)
    ensures
        final(values)@.to_multiset() == old(values)@.to_multiset(),
{
    rng.shuffle(values.as_mut_slice())
}

/// The indexes `0, 1, ..., n - 1` in order.
pub open spec fn index_range(n: nat) -> Seq<usize> {
    Seq::new(n, |i: int| i as usize)
}

/// `order` holds each of the indexes `0, ..., n - 1` exactly once.
pub open spec fn is_index_permutation(order: Seq<usize>, n: nat) -> bool {
    order.to_multiset() == index_range(n).to_multiset()
}

/// The client URLs of the members that `order` picks, in that order.
pub open spec fn urls_in_order(members: Seq<MemberView>, order: Seq<usize>) -> Seq<Seq<char>>
    decreases order.len(),
{
    if order.len() == 0 {
        Seq::empty()
    } else {
        urls_in_order(members, order.drop_last()) + members[order.last() as int].client_urls
    }
}

/// The indexes `0, ..., n - 1` in a random order.
pub fn shuffled_indexes(n: usize) -> (order: Vec<usize>)
    ensures
        is_index_permutation(order@, n as nat),
{
    let mut order: Vec<usize> = Vec::new();
    let mut i: usize = 0;
    while i < n
        invariant
            i <= n,
            order@ == index_range(i as nat),
        decreases n - i,
    {
        order.push(i);
        i = i + 1;
        assert(order@ =~= index_range(i as nat));
    }
    let mut rng = thread_rng();
    shuffle(&mut rng, &mut order);
    order
}

/// What holds of an index permutation: it has `n` elements, each below `n`,
/// and every index below `n` occurs in it.
pub proof fn lemma_index_permutation(order: Seq<usize>, n: nat)
    requires
        is_index_permutation(order, n),
    ensures
        order.len() == n,
        forall|i: int| 0 <= i < order.len() ==> (#[trigger] order[i]) < n,
        forall|k: usize| k < n ==> #[trigger] order.contains(k),
{
    broadcast use vstd::seq_lib::group_to_multiset_ensures;

    let r = index_range(n);
    assert(order.len() == order.to_multiset().len());
    assert(r.len() == r.to_multiset().len());
    assert forall|i: int| 0 <= i < order.len() implies (#[trigger] order[i]) < n by {
        assert(order.contains(order[i]));
        assert(order.to_multiset().count(order[i]) > 0);
        assert(r.to_multiset().count(order[i]) > 0);
        assert(r.contains(order[i]));
    }
    assert forall|k: usize| k < n implies #[trigger] order.contains(k) by {
        assert(r[k as int] == k);
        assert(r.contains(k));
        assert(r.to_multiset().count(k) > 0);
        assert(order.to_multiset().count(k) > 0);
    }
}

/// The client URLs of the members that `order` picks, in that order.
pub fn member_urls_in_order(members: &Vec<Member>, order: &Vec<usize>) -> (urls: Vec<String>)
    requires
        forall|i: int| 0 <= i < order.len() ==> (#[trigger] order[i]) < members.len(),
    ensures
        string_views(urls@) == urls_in_order(members@.map_values(|m: Member| m@), order@),
{
    let ghost ms = members@.map_values(|m: Member| m@);
    let mut urls: Vec<String> = Vec::new();
    let mut i: usize = 0;
    assert(order@.take(0) =~= Seq::<usize>::empty());
    while i < order.len()
        invariant
            i <= order.len(),
            ms == members@.map_values(|m: Member| m@),
            forall|j: int| 0 <= j < order.len() ==> (#[trigger] order[j]) < members.len(),
            string_views(urls@) == urls_in_order(ms, order@.take(i as int)),
        decreases order.len() - i,
    {
        let m = &members[order[i]];
        let mut j: usize = 0;
        let ghost before = string_views(urls@);
        while j < m.client_urls.len()
            invariant
                j <= m.client_urls.len(),
                urls@.len() == before.len() + j,
                forall|k: int| 0 <= k < before.len() ==> #[trigger] urls@[k]@ == before[k],
                forall|k: int| 0 <= k < j ==> #[trigger] urls@[before.len() + k]@ == m.client_urls@[k]@,
            decreases m.client_urls.len() - j,
        {
            urls.push(m.client_urls[j].clone());
            j = j + 1;
        }
        assert forall|k: int| 0 <= k < urls@.len() implies #[trigger] string_views(urls@)[k] == (before + string_views(m.client_urls@))[k] by {
            if k >= before.len() {
                let t = k - before.len();
                assert(urls@[before.len() + t]@ == m.client_urls@[t]@);
            }
        }
        assert(string_views(urls@) =~= before + string_views(m.client_urls@));
        assert(order@.take(i + 1).drop_last() =~= order@.take(i as int));
        assert(ms[order[i as int] as int] == m@);
        i = i + 1;
    }
    assert(order@.take(order.len() as int) =~= order@);
    urls
}

/// Where `try_connect_leader` of the blocking client tries to connect, in
/// order: first the leader's client URLs, then the client URLs of all
/// members in the order `order` gives; only a connection to a member URL
/// asks that member for the current membership.
pub struct ConnectTarget {
    pub url: String,
    pub query_members: bool,
}

pub open spec fn target_views(targets: Seq<ConnectTarget>) -> Seq<(Seq<char>, bool)> {
    targets.map_values(|t: ConnectTarget| (t.url@, t.query_members))
}

/// The targets for `urls`, each with the flag `query`.
pub open spec fn flagged(urls: Seq<Seq<char>>, query: bool) -> Seq<(Seq<char>, bool)> {
    urls.map_values(|u: Seq<char>| (u, query))
}

/// The connection plan of the blocking client's leader search.
pub open spec fn leader_plan(members: MemberListView, order: Seq<usize>) -> Seq<(Seq<char>, bool)> {
    flagged(members.leader.client_urls, false) + flagged(
        urls_in_order(members.members, order),
        true,
    )
}

/// Builds the connection plan of the blocking client's leader search from a
/// member list and an order of its members.
pub fn leader_connect_plan(members: &MemberList, order: &Vec<usize>) -> (plan: Vec<ConnectTarget>)
    requires
        forall|i: int| 0 <= i < order.len() ==> (#[trigger] order[i]) < members.members.len(),
    ensures
        target_views(plan@) == leader_plan(members@, order@),
{
    let mut plan: Vec<ConnectTarget> = Vec::new();
    let mut i: usize = 0;
    let ghost lead = members.leader.client_urls@;
    while i < members.leader.client_urls.len()
        invariant
            i <= members.leader.client_urls.len(),
            lead == members.leader.client_urls@,
            plan@.len() == i,
            forall|k: int| 0 <= k < i ==> (#[trigger] plan@[k]).url@ == lead[k]@ && !plan@[k].query_members,
        decreases members.leader.client_urls.len() - i,
    {
        plan.push(ConnectTarget { url: members.leader.client_urls[i].clone(), query_members: false });
        i = i + 1;
    }
    assert(target_views(plan@) =~= flagged(string_views(lead), false));
    let urls = member_urls_in_order(&members.members, order);
    let ghost head = target_views(plan@);
    assert(forall|k: int| 0 <= k < head.len() ==> (#[trigger] plan@[k]).url@ == head[k].0 && plan@[k].query_members == head[k].1);
    let mut j: usize = 0;
    while j < urls.len()
        invariant
            j <= urls.len(),
            plan@.len() == head.len() + j,
            forall|k: int| 0 <= k < head.len() ==> (#[trigger] plan@[k]).url@ == head[k].0 && plan@[k].query_members == head[k].1,
            forall|k: int| 0 <= k < j ==> (#[trigger] plan@[head.len() + k]).url@ == urls@[k]@ && plan@[head.len() + k].query_members,
        decreases urls.len() - j,
    {
        plan.push(ConnectTarget { url: urls[j].clone(), query_members: true });
        j = j + 1;
    }
    assert forall|k: int| 0 <= k < plan@.len() implies #[trigger] target_views(plan@)[k] == (head + flagged(string_views(urls@), true))[k] by {
        if k >= head.len() {
            let t = k - head.len();
            assert(plan@[head.len() + t].url@ == urls@[t]@);
        }
    }
    assert(target_views(plan@) =~= head + flagged(string_views(urls@), true));
    plan
}

proof fn lemma_urls_in_order_contains(members: Seq<MemberView>, order: Seq<usize>, p: int, u: Seq<char>)
    requires
        0 <= p < order.len(),
        members[order[p] as int].client_urls.contains(u),
    ensures
        urls_in_order(members, order).contains(u),
    decreases order.len(),
{
    let pre = urls_in_order(members, order.drop_last());
    let last = members[order.last() as int].client_urls;
    if p == order.len() - 1 {
        let k = choose|k: int| 0 <= k < last.len() && last[k] == u;
        assert((pre + last)[pre.len() + k] == u);
    } else {
        assert(order.drop_last()[p] == order[p]);
        lemma_urls_in_order_contains(members, order.drop_last(), p, u);
        let k = choose|k: int| 0 <= k < pre.len() && pre[k] == u;
        assert((pre + last)[k] == u);
    }
}

/// `u` is a client URL of one of the members.
pub open spec fn is_member_url(members: Seq<MemberView>, u: Seq<char>) -> bool {
    exists|k: int| 0 <= k < members.len() && #[trigger] members[k].client_urls.contains(u)
}

proof fn lemma_urls_in_order_sources(members: Seq<MemberView>, order: Seq<usize>)
    requires
        forall|i: int| 0 <= i < order.len() ==> (#[trigger] order[i]) < members.len(),
    ensures
        forall|i: int|
            0 <= i < urls_in_order(members, order).len() ==> is_member_url(
                members,
                #[trigger] urls_in_order(members, order)[i],
            ),
    decreases order.len(),
{
    if order.len() > 0 {
        let pre = urls_in_order(members, order.drop_last());
        let k0 = order.last() as int;
        let last = members[k0].client_urls;
        assert(order.last() == order[order.len() - 1]);
        assert(0 <= k0 < members.len());
        assert(urls_in_order(members, order) == pre + last);
        lemma_urls_in_order_sources(members, order.drop_last());
        let all = urls_in_order(members, order);
        assert forall|i: int| 0 <= i < all.len() implies is_member_url(members, #[trigger] all[i]) by {
            if i < pre.len() {
                assert(all[i] == pre[i]);
            } else {
                let j = i - pre.len();
                assert(all[i] == last[j]);
                assert(last.contains(last[j]));
                assert(members[k0].client_urls.contains(all[i]));
            }
        }
    }
}

/// The blocking search's plan: first each of the leader's client URLs,
/// without asking for members, then every client URL of every member
/// (whatever URLs the leader has, none included), each asking for the
/// member list, and nothing else.
pub proof fn lemma_leader_plan_covers(members: MemberListView, order: Seq<usize>)
    requires
        members.members.len() <= usize::MAX,
        is_index_permutation(order, members.members.len()),
    ensures
        leader_plan(members, order).len() == members.leader.client_urls.len() + urls_in_order(
            members.members,
            order,
        ).len(),
        forall|i: int|
            0 <= i < members.leader.client_urls.len() ==> #[trigger] leader_plan(members, order)[i]
                == (members.leader.client_urls[i], false),
        forall|k: int, u: Seq<char>|
            0 <= k < members.members.len() && #[trigger] members.members[k].client_urls.contains(u)
                ==> leader_plan(members, order).contains((u, true)),
        forall|i: int|
            #![trigger leader_plan(members, order)[i]]
            0 <= i < leader_plan(members, order).len() && leader_plan(members, order)[i].1
                ==> is_member_url(members.members, leader_plan(members, order)[i].0),
{
    let lead = flagged(members.leader.client_urls, false);
    let urls = urls_in_order(members.members, order);
    let rest = flagged(urls, true);
    let plan = leader_plan(members, order);
    lemma_every_member_probed(members.members, order);
    lemma_index_permutation(order, members.members.len());
    lemma_urls_in_order_sources(members.members, order);
    assert forall|k: int, u: Seq<char>|
        0 <= k < members.members.len() && #[trigger] members.members[k].client_urls.contains(u)
            implies plan.contains((u, true)) by {
        assert(urls.contains(u));
        let p = choose|p: int| 0 <= p < urls.len() && urls[p] == u;
        assert(plan[lead.len() + p] == rest[p]);
    }
    assert forall|i: int|
        #![trigger plan[i]]
        0 <= i < plan.len() && plan[i].1 implies is_member_url(members.members, plan[i].0) by {
        if i < lead.len() {
            assert(plan[i] == lead[i]);
        } else {
            assert(plan[i] == rest[i - lead.len()]);
            assert(plan[i].0 == urls[i - lead.len()]);
        }
    }
}

/// The randomized search visits every client URL of every member: whatever
/// order the shuffle picks, each member's URLs are in the plan.
pub proof fn lemma_every_member_probed(members: Seq<MemberView>, order: Seq<usize>)
    requires
        members.len() <= usize::MAX,
        is_index_permutation(order, members.len()),
    ensures
        forall|k: int, u: Seq<char>|
            0 <= k < members.len() && #[trigger] members[k].client_urls.contains(u)
                ==> #[trigger] urls_in_order(members, order).contains(u),
{
    lemma_index_permutation(order, members.len());
    assert forall|k: int, u: Seq<char>|
        0 <= k < members.len() && #[trigger] members[k].client_urls.contains(u) implies #[trigger] urls_in_order(
        members,
        order,
    ).contains(u) by {
        assert(order.contains(k as usize));
        let p = choose|p: int| 0 <= p < order.len() && order[p] == k as usize;
        lemma_urls_in_order_contains(members, order, p, u);
    }
}

} // verus!

verus! {

pub open spec fn opt_members_view(m: Option<MemberList>) -> Option<MemberListView> {
    match m {
        Some(l) => Some(l@),
        None => None,
    }
}

/// What one attempt of the blocking leader search yields: nothing when the
/// target could not be connected; a leader URL that connects yields the
/// previous member list unchanged; a member URL yields that member's
/// `GetMembers` answer, if it gave one.
pub open spec fn attempt_result(
    query_members: bool,
    connected: bool,
    answer: Option<MemberListView>,
    previous: MemberListView,
) -> Option<MemberListView> {
    if !connected {
        None
    } else if !query_members {
        Some(previous)
    } else {
        answer
    }
}

pub struct LeaderSearchView {
    pub previous: MemberListView,
    pub plan: Seq<(Seq<char>, bool)>,
    pub pos: int,
}

/// The state machine of the blocking client's leader search: it tries the
/// targets of `leader_plan` in order and ends at the first attempt that
/// yields a member list.
pub struct LeaderSearch {
    previous: MemberList,
    plan: Vec<ConnectTarget>,
    pos: usize,
}

impl View for LeaderSearch {
    type V = LeaderSearchView;

    closed spec fn view(&self) -> LeaderSearchView {
        LeaderSearchView { previous: self.previous@, plan: target_views(self.plan@), pos: self.pos as int }
    }
}

impl LeaderSearch {
    /// A search from the member list `previous`, trying the members in the
    /// order `order`.
    pub fn new(previous: MemberList, order: &Vec<usize>) -> (s: LeaderSearch)
        requires
            forall|i: int| 0 <= i < order.len() ==> (#[trigger] order[i]) < previous.members.len(),
        ensures
            s@.previous == previous@,
            s@.plan == leader_plan(previous@, order@),
            s@.pos == 0,
    {
        let plan = leader_connect_plan(&previous, order);
        LeaderSearch { previous, plan, pos: 0 }
    }

    /// The target to try next, or `None` when every target failed.
    pub fn next_target(&self) -> (t: Option<ConnectTarget>)
        ensures
            self@.pos < self@.plan.len() ==> (t matches Some(c) && (c.url@, c.query_members)
                == self@.plan[self@.pos]),
            self@.pos >= self@.plan.len() ==> t is None,
    {
        if self.pos < self.plan.len() {
            let c = &self.plan[self.pos];
            proof {
                assert(target_views(self.plan@)[self.pos as int] == (c.url@, c.query_members));
            }
            Some(ConnectTarget { url: c.url.clone(), query_members: c.query_members })
        } else {
            None
        }
    }

    /// Takes the event of the current target: whether it connected and,
    /// for a member URL, its `GetMembers` answer. Returns the member list
    /// that ends the search, or moves on to the next target.
    pub fn on_attempt(&mut self, connected: bool, answer: Option<MemberList>) -> (found: Option<MemberList>)
        requires
            old(self)@.pos < old(self)@.plan.len(),
        ensures
            opt_members_view(found) == attempt_result(
                old(self)@.plan[old(self)@.pos].1,
                connected,
                opt_members_view(answer),
                old(self)@.previous,
            ),
            found is Some ==> final(self)@ == old(self)@,
            found is None ==> final(self)@ == (LeaderSearchView { pos: old(self)@.pos + 1, ..old(self)@ }),
    {
        let n = self.plan.len();
        proof {
            assert(target_views(self.plan@).len() == self.plan@.len());
            assert(self.pos < n);
            assert(target_views(self.plan@)[self.pos as int].1 == self.plan@[self.pos as int].query_members);
        }
        if !connected {
            self.pos = self.pos + 1;
            return None;
        }
        if !self.plan[self.pos].query_members {
            return Some(self.previous.duplicate());
        }
        match answer {
            Some(m) => Some(m),
            None => {
                self.pos = self.pos + 1;
                None
            },
        }
    }
}

pub struct AsyncLeaderSearchView {
    pub probe: Seq<Seq<char>>,
    pub pos: int,
    pub answer: Option<MemberListView>,
    pub leader_pos: int,
}

/// The state machine of the asynchronous client's leader search: it asks
/// the members' URLs in order until one answers `GetMembers`, then tries
/// only the leader URLs of that answer and ends at the first that connects.
pub struct AsyncLeaderSearch {
    probe: Vec<String>,
    pos: usize,
    answer: Option<MemberList>,
    leader_pos: usize,
}

impl View for AsyncLeaderSearch {
    type V = AsyncLeaderSearchView;

    closed spec fn view(&self) -> AsyncLeaderSearchView {
        AsyncLeaderSearchView {
            probe: string_views(self.probe@),
            pos: self.pos as int,
            answer: opt_members_view(self.answer),
            leader_pos: self.leader_pos as int,
        }
    }
}

impl AsyncLeaderSearch {
    /// A search over the members of `previous` in the order `order`.
    pub fn new(previous: &MemberList, order: &Vec<usize>) -> (s: AsyncLeaderSearch)
        requires
            forall|i: int| 0 <= i < order.len() ==> (#[trigger] order[i]) < previous.members.len(),
        ensures
            s@.probe == urls_in_order(previous@.members, order@),
            s@.pos == 0,
            s@.answer is None,
            s@.leader_pos == 0,
    {
        let probe = member_urls_in_order(&previous.members, order);
        AsyncLeaderSearch { probe, pos: 0, answer: None, leader_pos: 0 }
    }

    /// The target to try next, or `None` when the search failed: a member
    /// URL to ask while no member has answered, then the answer's leader
    /// URLs.
    pub fn next_target(&self) -> (t: Option<ConnectTarget>)
        ensures
            self@.answer is None && self@.pos < self@.probe.len() ==> (t matches Some(c) && c.url@
                == self@.probe[self@.pos] && c.query_members),
            self@.answer is None && self@.pos >= self@.probe.len() ==> t is None,
            self@.answer matches Some(r) ==> (self@.leader_pos < r.leader.client_urls.len() ==> (
            t matches Some(c) && c.url@ == r.leader.client_urls[self@.leader_pos]
                && !c.query_members)),
            self@.answer matches Some(r) ==> (self@.leader_pos >= r.leader.client_urls.len()
                ==> t is None),
    {
        match &self.answer {
            None => {
                if self.pos < self.probe.len() {
                    Some(ConnectTarget { url: self.probe[self.pos].clone(), query_members: true })
                } else {
                    None
                }
            },
            Some(r) => {
                if self.leader_pos < r.leader.client_urls.len() {
                    Some(
                        ConnectTarget {
                            url: r.leader.client_urls[self.leader_pos].clone(),
                            query_members: false,
                        },
                    )
                } else {
                    None
                }
            },
        }
    }

    /// Takes what the current member URL answered (`None` when it could
    /// not be connected or did not answer): an answer ends the first phase.
    pub fn on_probe(&mut self, answer: Option<MemberList>)
        requires
            old(self)@.answer is None,
            old(self)@.pos < old(self)@.probe.len(),
        ensures
            answer matches Some(m) ==> final(self)@ == (AsyncLeaderSearchView {
                answer: Some(m@),
                ..old(self)@
            }),
            answer is None ==> final(self)@ == (AsyncLeaderSearchView {
                pos: old(self)@.pos + 1,
                ..old(self)@
            }),
    {
        let n = self.probe.len();
        proof {
            assert(string_views(self.probe@).len() == self.probe@.len());
            assert(self.pos < n);
        }
        match answer {
            Some(m) => self.answer = Some(m),
            None => self.pos = self.pos + 1,
        }
    }

    /// Takes whether the current leader URL connected: a connection ends
    /// the search with the member answer, otherwise the next leader URL
    /// comes.
    pub fn on_leader_connect(&mut self, connected: bool) -> (found: Option<MemberList>)
        requires
            old(self)@.answer is Some,
            old(self)@.leader_pos < old(self)@.answer->0.leader.client_urls.len(),
        ensures
            connected ==> opt_members_view(found) == old(self)@.answer && final(self)@ == old(
                self,
            )@,
            !connected ==> found is None && final(self)@ == (AsyncLeaderSearchView {
                leader_pos: old(self)@.leader_pos + 1,
                ..old(self)@
            }),
    {
        if connected {
            match &self.answer {
                Some(r) => Some(r.duplicate()),
                None => None,
            }
        } else {
            proof {
                let r = self.answer->0;
                assert(string_views(r.leader.client_urls@).len() == r.leader.client_urls@.len());
                assert(self.leader_pos < r.leader.client_urls.len());
            }
            self.leader_pos = self.leader_pos + 1;
            None
        }
    }
}

} // verus!
