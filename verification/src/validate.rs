use vstd::prelude::*;
use vstd::string::*;
use crate::error::PdError;
use crate::members::{MemberList, MemberListView};
use crate::text::string_views;

verus! {

/// What the endpoint check has seen so far: the endpoints admitted, in
/// order, and the first `GetMembers` answer.
pub struct CheckState {
    pub seen: Seq<Seq<char>>,
    pub first: Option<MemberListView>,
}

/// Why a list of endpoints is refused.
pub enum CheckFailure {
    Empty,
    Duplicate(Seq<char>),
    Mismatch { want: u64, got: u64 },
    NoResponse,
}

pub open spec fn initial_check() -> CheckState {
    CheckState { seen: Seq::empty(), first: None }
}

/// Admitting an endpoint: refused when it was seen before.
pub open spec fn admit_step(st: CheckState, ep: Seq<char>) -> Result<CheckState, CheckFailure> {
    if st.seen.contains(ep) {
        Err(CheckFailure::Duplicate(ep))
    } else {
        Ok(CheckState { seen: st.seen.push(ep), first: st.first })
    }
}

/// Recording what an endpoint answered (`None` when it could not be reached
/// or did not answer): an answer with another cluster id than the first
/// answer is refused; the first answer is kept.
pub open spec fn record_step(st: CheckState, answer: Option<MemberListView>) -> Result<
    CheckState,
    CheckFailure,
> {
    match answer {
        None => Ok(st),
        Some(m) => match st.first {
            Some(f) => if f.cluster_id != m.cluster_id {
                Err(CheckFailure::Mismatch { want: f.cluster_id, got: m.cluster_id })
            } else {
                Ok(st)
            },
            None => Ok(CheckState { seen: st.seen, first: Some(m) }),
        },
    }
}

/// The check of the first `eps.len()` endpoints, each admitted and then
/// its answer recorded; `answers[i]` is what `eps[i]` answered.
pub open spec fn run_checks(eps: Seq<Seq<char>>, answers: Seq<Option<MemberListView>>) -> Result<
    CheckState,
    CheckFailure,
>
    decreases eps.len(),
{
    if eps.len() == 0 {
        Ok(initial_check())
    } else {
        match run_checks(eps.drop_last(), answers) {
            Err(e) => Err(e),
            Ok(s1) => match admit_step(s1, eps.last()) {
                Err(e) => Err(e),
                Ok(s2) => record_step(s2, answers[eps.len() - 1]),
            },
        }
    }
}

/// The outcome of validating a list of endpoints against their answers.
pub open spec fn validation(eps: Seq<Seq<char>>, answers: Seq<Option<MemberListView>>) -> Result<
    MemberListView,
    CheckFailure,
> {
    if eps.len() == 0 {
        Err(CheckFailure::Empty)
    } else {
        match run_checks(eps, answers) {
            Err(e) => Err(e),
            Ok(s) => match s.first {
                Some(m) => Ok(m),
                None => Err(CheckFailure::NoResponse),
            },
        }
    }
}

/// The index of the first endpoint that answered, if any did.
pub open spec fn first_answer(answers: Seq<Option<MemberListView>>) -> Option<int>
    decreases answers.len(),
{
    if answers.len() == 0 {
        None
    } else {
        match first_answer(answers.drop_last()) {
            Some(i) => Some(i),
            None => if answers.last() is Some {
                Some(answers.len() - 1)
            } else {
                None
            },
        }
    }
}

/// All endpoints that answered report the same cluster id.
pub open spec fn answers_agree(answers: Seq<Option<MemberListView>>) -> bool {
    forall|i: int, j: int|
        0 <= i < answers.len() && 0 <= j < answers.len() && answers[i] is Some
            && answers[j] is Some ==> (#[trigger] answers[i])->0.cluster_id == (#[trigger] answers[j])->0.cluster_id
}

/// The state machine of `validate_endpoints`: it refuses an empty or
/// duplicated endpoint list and answers from PD servers of different
/// clusters, and keeps the first answer.
pub struct EndpointCheck {
    seen: Vec<String>,
    first: Option<MemberList>,
}

impl View for EndpointCheck {
    type V = CheckState;

    closed spec fn view(&self) -> CheckState {
        CheckState {
            seen: string_views(self.seen@),
            first: match self.first {
                Some(m) => Some(m@),
                None => None,
            },
        }
    }
}

impl EndpointCheck {
    /// Starts the check of `count` endpoints; an empty list is refused.
    pub fn start(count: usize) -> (res: Result<EndpointCheck, PdError>)
        ensures
            count == 0 ==> res == Err::<EndpointCheck, PdError>(PdError::EmptyEndpoints),
            count > 0 ==> (res matches Ok(c) && c@ == initial_check()),
    {
        if count == 0 {
            return Err(PdError::EmptyEndpoints);
        }
        let c = EndpointCheck { seen: Vec::new(), first: None };
        assert(c@.seen =~= Seq::<Seq<char>>::empty());
        Ok(c)
    }

    /// Accepts the endpoint `ep`; an endpoint seen before is refused.
    pub fn accept(&mut self, ep: &str) -> (res: Result<(), PdError>)
        ensures
            admit_step(old(self)@, ep@) matches Ok(s) ==> res is Ok && final(self)@ == s,
            admit_step(old(self)@, ep@) is Err ==> final(self)@ == old(self)@ && (
            res matches Err(PdError::DuplicateEndpoint(d)) && d@ == ep@),
            old(self)@.seen.contains(ep@) ==> final(self)@ == old(self)@ && (
            res matches Err(PdError::DuplicateEndpoint(d)) && d@ == ep@),
            !old(self)@.seen.contains(ep@) ==> res is Ok && final(self)@ == (CheckState {
                seen: old(self)@.seen.push(ep@),
                first: old(self)@.first,
            }),
    {
        let e = String::from_str(ep);
        let mut i: usize = 0;
        while i < self.seen.len()
            invariant
                i <= self.seen.len(),
                e@ == ep@,
                forall|j: int| 0 <= j < i ==> (#[trigger] self.seen@[j])@ != ep@,
            decreases self.seen.len() - i,
        {
            if self.seen[i] == e {
                assert(string_views(self.seen@)[i as int] == ep@);
                return Err(PdError::DuplicateEndpoint(e));
            }
            i = i + 1;
        }
        assert(!string_views(self.seen@).contains(ep@)) by {
            if string_views(self.seen@).contains(ep@) {
                let k = choose|k: int|
                    0 <= k < string_views(self.seen@).len() && string_views(self.seen@)[k] == ep@;
                assert(self.seen@[k]@ == ep@);
            }
        }
        let ghost before = string_views(self.seen@);
        self.seen.push(e);
        assert(string_views(self.seen@) =~= before.push(ep@));
        Ok(())
    }

    /// Records the `GetMembers` answer of the endpoint admitted last; an
    /// answer from another cluster than the first answer is refused.
    pub fn record(&mut self, answer: MemberList) -> (res: Result<(), PdError>)
        ensures
            record_step(old(self)@, Some(answer@)) matches Ok(s) ==> res is Ok && final(self)@ == s,
            record_step(old(self)@, Some(answer@)) matches Err(CheckFailure::Mismatch { want, got })
                ==> final(self)@ == old(self)@ && res == Err::<(), PdError>(
                PdError::ClusterIdMismatch { want, got },
            ),
            old(self)@.first matches Some(f) ==> (f.cluster_id != answer.cluster_id ==> final(self)@
                == old(self)@ && res == Err::<(), PdError>(
                PdError::ClusterIdMismatch { want: f.cluster_id, got: answer.cluster_id },
            )),
            old(self)@.first matches Some(f) ==> (f.cluster_id == answer.cluster_id ==> res is Ok
                && final(self)@ == old(self)@),
            old(self)@.first is None ==> res is Ok && final(self)@ == (CheckState {
                seen: old(self)@.seen,
                first: Some(answer@),
            }),
    {
        match &self.first {
            Some(f) => {
                if f.cluster_id != answer.cluster_id {
                    return Err(
                        PdError::ClusterIdMismatch { want: f.cluster_id, got: answer.cluster_id },
                    );
                }
                Ok(())
            },
            None => {
                self.first = Some(answer);
                Ok(())
            },
        }
    }

    /// Ends the check: the first answer, or an error when no endpoint
    /// answered.
    pub fn finish(self) -> (res: Result<MemberList, PdError>)
        ensures
            self@.first matches Some(m) ==> res matches Ok(r) && r@ == m,
            self@.first is None ==> res == Err::<MemberList, PdError>(PdError::NoResponse),
    {
        match self.first {
            Some(m) => Ok(m),
            None => Err(PdError::NoResponse),
        }
    }
}

proof fn lemma_run_checks_invariant(eps: Seq<Seq<char>>, answers: Seq<Option<MemberListView>>)
    requires
        eps.len() <= answers.len(),
    ensures
        run_checks(eps, answers) matches Ok(s) ==> {
            &&& s.seen == eps
            &&& eps.no_duplicates()
            &&& answers_agree(answers.take(eps.len() as int))
            &&& s.first == (match first_answer(answers.take(eps.len() as int)) {
                Some(i) => answers[i],
                None => None,
            })
        },
        run_checks(eps, answers) is Err ==> !eps.no_duplicates() || !answers_agree(
            answers.take(eps.len() as int),
        ),
        eps.no_duplicates() && answers_agree(answers.take(eps.len() as int)) ==> run_checks(
            eps,
            answers,
        ) is Ok,
    decreases eps.len(),
{
    let n = eps.len() as int;
    if n == 0 {
        assert(answers.take(0) =~= Seq::<Option<MemberListView>>::empty());
        assert(eps =~= Seq::<Seq<char>>::empty());
    } else {
        let pre = eps.drop_last();
        lemma_run_checks_invariant(pre, answers);
        let a = answers.take(n);
        let ap = answers.take(n - 1);
        assert(a.drop_last() =~= ap);
        assert(pre.push(eps.last()) =~= eps);
        // duplicates of the prefix carry over
        if !pre.no_duplicates() {
            assert(!eps.no_duplicates()) by {
                let (i, j) = choose|i: int, j: int|
                    0 <= i < pre.len() && 0 <= j < pre.len() && i != j && pre[i] == pre[j];
                assert(eps[i] == eps[j]);
            }
        }
        if !answers_agree(ap) {
            assert(!answers_agree(a)) by {
                let (i, j) = choose|i: int, j: int|
                    0 <= i < ap.len() && 0 <= j < ap.len() && ap[i] is Some && ap[j] is Some
                        && ap[i]->0.cluster_id != ap[j]->0.cluster_id;
                assert(a[i] == ap[i]);
                assert(a[j] == ap[j]);
            }
        }
        if eps.no_duplicates() {
            assert(pre.no_duplicates());
            assert(!pre.contains(eps.last())) by {
                if pre.contains(eps.last()) {
                    let k = choose|k: int| 0 <= k < pre.len() && pre[k] == eps.last();
                    assert(eps[k] == eps[n - 1]);
                }
            }
        }
        if answers_agree(a) {
            assert(answers_agree(ap)) by {
                assert forall|i: int, j: int|
                    0 <= i < ap.len() && 0 <= j < ap.len() && ap[i] is Some
                        && ap[j] is Some implies (#[trigger] ap[i])->0.cluster_id == (
                    #[trigger] ap[j])->0.cluster_id by {
                    assert(a[i] == ap[i]);
                    assert(a[j] == ap[j]);
                }
            }
        }
        match run_checks(pre, answers) {
            Err(e) => {},
            Ok(s1) => {
                if pre.contains(eps.last()) {
                    assert(!eps.no_duplicates()) by {
                        let k = choose|k: int| 0 <= k < pre.len() && pre[k] == eps.last();
                        assert(eps[k] == eps[n - 1]);
                    }
                } else {
                    assert(pre.no_duplicates() ==> eps.no_duplicates()) by {
                        if pre.no_duplicates() {
                            assert forall|i: int, j: int|
                                0 <= i < eps.len() && 0 <= j < eps.len() && i != j implies eps[i]
                                != eps[j] by {
                                if i < n - 1 && j < n - 1 {
                                    assert(eps[i] == pre[i] && eps[j] == pre[j]);
                                } else if i == n - 1 {
                                    assert(pre.contains(pre[j]));
                                } else {
                                    assert(pre.contains(pre[i]));
                                }
                            }
                        }
                    }
                    let s2 = CheckState { seen: s1.seen.push(eps.last()), first: s1.first };
                    assert(admit_step(s1, eps.last()) == Ok::<CheckState, CheckFailure>(s2));
                    assert(answers[n - 1] == a[n - 1]);
                    assert(first_answer(a) == match first_answer(ap) {
                        Some(i) => Some(i),
                        None => if a.last() is Some {
                            Some(n - 1)
                        } else {
                            None
                        },
                    });
                    lemma_first_answer_some(ap);
                    match answers[n - 1] {
                        None => {
                            assert(first_answer(a) == first_answer(ap));
                            assert(run_checks(eps, answers) == Ok::<CheckState, CheckFailure>(s2));
                            if answers_agree(ap) {
                                assert(answers_agree(a)) by {
                                    assert forall|i: int, j: int|
                                        0 <= i < a.len() && 0 <= j < a.len() && a[i] is Some
                                            && a[j] is Some implies (#[trigger] a[i])->0.cluster_id
                                        == (#[trigger] a[j])->0.cluster_id by {
                                        assert(i < n - 1 && j < n - 1);
                                        assert(a[i] == ap[i]);
                                        assert(a[j] == ap[j]);
                                    }
                                }
                            }
                        },
                        Some(m) => {
                            match s1.first {
                                Some(f) => {
                                    let k = first_answer(ap)->0;
                                    assert(f == ap[k]->0);
                                    assert(first_answer(a) == first_answer(ap));
                                    if f.cluster_id != m.cluster_id {
                                        assert(!answers_agree(a)) by {
                                            assert(a[k] == ap[k]);
                                            assert(a[n - 1] is Some);
                                            assert(a[k]->0.cluster_id != a[n - 1]->0.cluster_id);
                                        }
                                    } else if answers_agree(ap) {
                                        assert(answers_agree(a)) by {
                                            assert forall|i: int, j: int|
                                                0 <= i < a.len() && 0 <= j < a.len() && a[i] is Some
                                                    && a[j] is Some implies (
                                            #[trigger] a[i])->0.cluster_id == (
                                            #[trigger] a[j])->0.cluster_id by {
                                                if i < n - 1 {
                                                    assert(a[i] == ap[i]);
                                                    assert(ap[i]->0.cluster_id == ap[k]->0.cluster_id);
                                                }
                                                if j < n - 1 {
                                                    assert(a[j] == ap[j]);
                                                    assert(ap[j]->0.cluster_id == ap[k]->0.cluster_id);
                                                }
                                            }
                                        }
                                    }
                                },
                                None => {
                                    lemma_first_answer_none(ap);
                                    assert(first_answer(ap) is None);
                                    assert(first_answer(a) == Some(n - 1));
                                    assert(run_checks(eps, answers) == Ok::<CheckState, CheckFailure>(
                                        CheckState { seen: eps, first: Some(m) },
                                    ));
                                    if answers_agree(ap) {
                                        assert(answers_agree(a)) by {
                                            assert forall|i: int, j: int|
                                                0 <= i < a.len() && 0 <= j < a.len() && a[i] is Some
                                                    && a[j] is Some implies (
                                            #[trigger] a[i])->0.cluster_id == (
                                            #[trigger] a[j])->0.cluster_id by {
                                                if i < n - 1 {
                                                    assert(a[i] == ap[i]);
                                                }
                                                if j < n - 1 {
                                                    assert(a[j] == ap[j]);
                                                }
                                            }
                                        }
                                    }
                                },
                            }
                        },
                    }
                }
            },
        }
    }
}

proof fn lemma_first_answer_some(answers: Seq<Option<MemberListView>>)
    ensures
        first_answer(answers) matches Some(k) ==> 0 <= k < answers.len() && answers[k] is Some
            && forall|j: int| 0 <= j < k ==> #[trigger] answers[j] is None,
    decreases answers.len(),
{
    if answers.len() > 0 {
        lemma_first_answer_some(answers.drop_last());
        lemma_first_answer_none(answers.drop_last());
        if first_answer(answers.drop_last()) is Some {
            let k = first_answer(answers.drop_last())->0;
            assert forall|j: int| 0 <= j < k implies #[trigger] answers[j] is None by {
                assert(answers[j] == answers.drop_last()[j]);
            }
        } else {
            assert forall|j: int| 0 <= j < answers.len() - 1 implies #[trigger] answers[j] is None by {
                assert(answers[j] == answers.drop_last()[j]);
            }
        }
    }
}

proof fn lemma_first_answer_none(answers: Seq<Option<MemberListView>>)
    ensures
        first_answer(answers) is None ==> forall|j: int|
            0 <= j < answers.len() ==> #[trigger] answers[j] is None,
    decreases answers.len(),
{
    if answers.len() > 0 {
        lemma_first_answer_none(answers.drop_last());
        assert forall|j: int| 0 <= j < answers.len() - 1 implies answers[j] == answers.drop_last()[j] by {}
    }
}

/// Validation succeeds exactly when the endpoint list is non-empty, has no
/// endpoint twice, at least one endpoint answered and all that answered
/// report the same cluster id; it then gives the first answer.
pub proof fn lemma_validation(eps: Seq<Seq<char>>, answers: Seq<Option<MemberListView>>)
    requires
        eps.len() == answers.len(),
    ensures
        validation(eps, answers) is Ok <==> (eps.len() > 0 && eps.no_duplicates() && answers_agree(
            answers,
        ) && first_answer(answers) is Some),
        validation(eps, answers) matches Ok(m) ==> answers[first_answer(answers)->0] == Some(m)
            && forall|i: int| 0 <= i < answers.len() && answers[i] is Some ==> (
            #[trigger] answers[i])->0.cluster_id == m.cluster_id,
{
    lemma_run_checks_invariant(eps, answers);
    lemma_first_answer_some(answers);
    assert(answers.take(eps.len() as int) =~= answers);
    if validation(eps, answers) is Ok {
        let m = validation(eps, answers)->Ok_0;
        let k = first_answer(answers)->0;
        assert forall|i: int| 0 <= i < answers.len() && answers[i] is Some implies (
        #[trigger] answers[i])->0.cluster_id == m.cluster_id by {
            assert(answers[k] is Some);
        }
    }
}

/// The check reads the answers of the checked endpoints only.
proof fn lemma_run_checks_reads_own_answers(
    eps: Seq<Seq<char>>,
    a1: Seq<Option<MemberListView>>,
    a2: Seq<Option<MemberListView>>,
)
    requires
        forall|i: int| 0 <= i < eps.len() ==> a1[i] == a2[i],
    ensures
        run_checks(eps, a1) == run_checks(eps, a2),
    decreases eps.len(),
{
    if eps.len() > 0 {
        lemma_run_checks_reads_own_answers(eps.drop_last(), a1, a2);
        assert(a1[eps.len() - 1] == a2[eps.len() - 1]);
    }
}

/// The check of `seq![d] + eps` when `d` did not answer and is not in
/// `eps`: the same outcome as the check of `eps`, with `d` seen first.
proof fn lemma_run_checks_silent_front(
    d: Seq<char>,
    eps: Seq<Seq<char>>,
    answers: Seq<Option<MemberListView>>,
)
    requires
        !eps.contains(d),
        answers.len() >= eps.len(),
    ensures
        run_checks(eps, answers) matches Ok(s) ==> run_checks(
            seq![d] + eps,
            seq![None] + answers,
        ) == Ok::<CheckState, CheckFailure>(
            CheckState { seen: seq![d] + s.seen, first: s.first },
        ),
        run_checks(eps, answers) matches Err(e) ==> run_checks(seq![d] + eps, seq![None] + answers)
            == Err::<CheckState, CheckFailure>(e),
    decreases eps.len(),
{
    let de = seq![d] + eps;
    let da = seq![None] + answers;
    if eps.len() == 0 {
        assert(de =~= seq![d]);
        assert(de.drop_last() =~= Seq::<Seq<char>>::empty());
        assert(!initial_check().seen.contains(d));
        assert(initial_check().seen.push(d) =~= seq![d] + initial_check().seen);
        assert(de.last() == d);
        assert(da[0] == None::<MemberListView>);
        assert(de.len() == 1);
        assert(run_checks(de.drop_last(), da) == Ok::<CheckState, CheckFailure>(initial_check()));
        assert(initial_check().seen.push(d) =~= seq![d]);
        assert(admit_step(initial_check(), d) == Ok::<CheckState, CheckFailure>(
            CheckState { seen: seq![d], first: None },
        ));
        assert(run_checks(de, da) == Ok::<CheckState, CheckFailure>(
            CheckState { seen: seq![d], first: None },
        ));
        assert(seq![d] + Seq::<Seq<char>>::empty() =~= seq![d]);
    } else {
        let pre = eps.drop_last();
        assert(!pre.contains(d)) by {
            if pre.contains(d) {
                let k = choose|k: int| 0 <= k < pre.len() && pre[k] == d;
                assert(eps[k] == d);
            }
        }
        lemma_run_checks_silent_front(d, pre, answers);
        assert(de.drop_last() =~= seq![d] + pre);
        assert(de.last() == eps.last());
        assert(da[de.len() - 1] == answers[eps.len() - 1]);
        lemma_run_checks_invariant(pre, answers);
        match run_checks(pre, answers) {
            Err(e) => {},
            Ok(s1) => {
                let e = eps.last();
                assert(e != d) by {
                    assert(eps[eps.len() - 1] == e);
                }
                let t1 = seq![d] + s1.seen;
                assert(t1.contains(e) == s1.seen.contains(e)) by {
                    if t1.contains(e) {
                        let k = choose|k: int| 0 <= k < t1.len() && t1[k] == e;
                        assert(k > 0);
                        assert(s1.seen[k - 1] == e);
                    }
                    if s1.seen.contains(e) {
                        let k = choose|k: int| 0 <= k < s1.seen.len() && s1.seen[k] == e;
                        assert(t1[k + 1] == e);
                    }
                }
                assert(t1.push(e) =~= seq![d] + s1.seen.push(e));
                if !s1.seen.contains(e) {
                    let s2 = CheckState { seen: s1.seen.push(e), first: s1.first };
                    let u2 = CheckState { seen: t1.push(e), first: s1.first };
                    let a = answers[eps.len() - 1];
                    match record_step(s2, a) {
                        Ok(x) => {
                            assert(record_step(u2, a) == Ok::<CheckState, CheckFailure>(
                                CheckState { seen: u2.seen, first: x.first },
                            ));
                            assert(x.seen == s2.seen);
                        },
                        Err(f) => {
                            assert(record_step(u2, a) == Err::<CheckState, CheckFailure>(f));
                        },
                    }
                }
            },
        }
    }
}

/// An endpoint that does not answer, added at either end of a non-empty
/// list of other endpoints, leaves the outcome of the validation as it is:
/// the same member list, or the same error.
pub proof fn lemma_silent_endpoint(
    d: Seq<char>,
    eps: Seq<Seq<char>>,
    answers: Seq<Option<MemberListView>>,
)
    requires
        eps.len() > 0,
        eps.len() == answers.len(),
        !eps.contains(d),
    ensures
        validation(eps.push(d), answers.push(None)) == validation(eps, answers),
        validation(seq![d] + eps, seq![None] + answers) == validation(eps, answers),
{
    let a2 = answers.push(None);
    lemma_run_checks_reads_own_answers(eps, a2, answers);
    assert(eps.push(d).drop_last() =~= eps);
    assert(a2[eps.len() as int] == None::<MemberListView>);
    lemma_run_checks_invariant(eps, answers);
    lemma_run_checks_silent_front(d, eps, answers);
}

/// Recording an answer fails exactly when an earlier answer came from a
/// cluster with another id, in either direction, and then names the first
/// answer's id and the new one; otherwise the first answer is kept, or
/// this answer becomes the first. Accepting an endpoint fails exactly when
/// it was seen before.
pub proof fn lemma_check_steps(st: CheckState, m: MemberListView, ep: Seq<char>)
    ensures
        record_step(st, Some(m)) is Err <==> (st.first matches Some(f) && f.cluster_id
            != m.cluster_id),
        st.first matches Some(f) ==> (f.cluster_id != m.cluster_id ==> record_step(st, Some(m))
            == Err::<CheckState, CheckFailure>(
            CheckFailure::Mismatch { want: f.cluster_id, got: m.cluster_id },
        )),
        record_step(st, Some(m)) matches Ok(s) ==> s.seen == st.seen && s.first == Some(
            match st.first {
                Some(f) => f,
                None => m,
            },
        ),
        record_step(st, None) == Ok::<CheckState, CheckFailure>(st),
        admit_step(st, ep) is Err <==> st.seen.contains(ep),
        admit_step(st, ep) matches Ok(s) ==> s.seen == st.seen.push(ep) && s.first == st.first,
{
}

/// The only errors of the check: a duplicate endpoint in a list that has
/// one, or a mismatch between two different cluster ids.
proof fn lemma_run_checks_errors(eps: Seq<Seq<char>>, answers: Seq<Option<MemberListView>>)
    requires
        eps.len() <= answers.len(),
    ensures
        run_checks(eps, answers) matches Err(e) ==> (e is Duplicate && !eps.no_duplicates()) || (
        e matches CheckFailure::Mismatch { want, got } && want != got),
    decreases eps.len(),
{
    if eps.len() > 0 {
        let pre = eps.drop_last();
        lemma_run_checks_errors(pre, answers);
        lemma_run_checks_invariant(pre, answers);
        if !pre.no_duplicates() {
            let (i, j) = choose|i: int, j: int|
                0 <= i < pre.len() && 0 <= j < pre.len() && i != j && pre[i] == pre[j];
            assert(eps[i] == eps[j]);
        }
        if let Ok(s1) = run_checks(pre, answers) {
            if s1.seen.contains(eps.last()) {
                let k = choose|k: int| 0 <= k < s1.seen.len() && s1.seen[k] == eps.last();
                assert(eps[k] == eps[eps.len() - 1]);
            }
        }
    }
}

/// When all endpoints are distinct but two answers disagree on the cluster
/// id, in whichever order they come, validation fails with a mismatch
/// between two different ids.
pub proof fn lemma_validation_refuses_mixed_clusters(
    eps: Seq<Seq<char>>,
    answers: Seq<Option<MemberListView>>,
)
    requires
        eps.len() == answers.len(),
        eps.len() > 0,
        eps.no_duplicates(),
        !answers_agree(answers),
    ensures
        validation(eps, answers) matches Err(CheckFailure::Mismatch { want, got }) && want != got,
{
    lemma_run_checks_invariant(eps, answers);
    lemma_run_checks_errors(eps, answers);
    assert(answers.take(eps.len() as int) =~= answers);
}

} // verus!
