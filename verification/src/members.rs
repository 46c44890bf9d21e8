use vstd::prelude::*;
use crate::text::string_views;

verus! {

/// A member of the PD cluster, as a `GetMembers` response describes it.
pub struct Member {
    pub name: String,
    pub member_id: u64,
    pub client_urls: Vec<String>,
    pub peer_urls: Vec<String>,
}

pub struct MemberView {
    pub name: Seq<char>,
    pub member_id: u64,
    pub client_urls: Seq<Seq<char>>,
    pub peer_urls: Seq<Seq<char>>,
}

impl View for Member {
    type V = MemberView;

    open spec fn view(&self) -> MemberView {
        MemberView {
            name: self.name@,
            member_id: self.member_id,
            client_urls: string_views(self.client_urls@),
            peer_urls: string_views(self.peer_urls@),
        }
    }
}

/// The answer of a PD server to `GetMembers`: the cluster id from the
/// response header, the current leader and all members.
pub struct MemberList {
    pub cluster_id: u64,
    pub leader: Member,
    pub members: Vec<Member>,
}

pub struct MemberListView {
    pub cluster_id: u64,
    pub leader: MemberView,
    pub members: Seq<MemberView>,
}

impl View for MemberList {
    type V = MemberListView;

    open spec fn view(&self) -> MemberListView {
        MemberListView {
            cluster_id: self.cluster_id,
            leader: self.leader@,
            members: self.members@.map_values(|m: Member| m@),
        }
    }
}

/// A copy of a list of strings.
pub fn copy_strings(v: &Vec<String>) -> (c: Vec<String>)
    ensures
        string_views(c@) == string_views(v@),
{
    let mut c: Vec<String> = Vec::new();
    let mut i: usize = 0;
    while i < v.len()
        invariant
            i <= v.len(),
            c@.len() == i,
            forall|j: int| 0 <= j < i ==> #[trigger] c@[j]@ == v@[j]@,
        decreases v.len() - i,
    {
        c.push(v[i].clone());
        i = i + 1;
    }
    assert(string_views(c@) =~= string_views(v@));
    c
}

impl Member {
    /// A copy of this member.
    pub fn duplicate(&self) -> (m: Member)
        ensures
            m@ == self@,
    {
        Member {
            name: self.name.clone(),
            member_id: self.member_id,
            client_urls: copy_strings(&self.client_urls),
            peer_urls: copy_strings(&self.peer_urls),
        }
    }
}

impl MemberList {
    /// A copy of this member list.
    pub fn duplicate(&self) -> (l: MemberList)
        ensures
            l@ == self@,
    {
        let mut members: Vec<Member> = Vec::new();
        let mut i: usize = 0;
        while i < self.members.len()
            invariant
                i <= self.members.len(),
                members@.len() == i,
                forall|j: int| 0 <= j < i ==> #[trigger] members@[j]@ == self.members@[j]@,
            decreases self.members.len() - i,
        {
            members.push(self.members[i].duplicate());
            i = i + 1;
        }
        assert(members@.map_values(|m: Member| m@) =~= self.members@.map_values(|m: Member| m@));
        MemberList { cluster_id: self.cluster_id, leader: self.leader.duplicate(), members }
    }

    /// The cluster id that the response header carries.
    pub fn cluster_id(&self) -> (id: u64)
        ensures
            id == self@.cluster_id,
    {
        self.cluster_id
    }

    /// A copy of the current leader.
    pub fn get_leader(&self) -> (leader: Member)
        ensures
            leader@ == self@.leader,
    {
        self.leader.duplicate()
    }
}

} // verus!
