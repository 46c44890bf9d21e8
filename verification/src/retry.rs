use vstd::prelude::*;
use std::sync::Arc;
use std::sync::RwLock;
use crate::error::PdError;

verus! {

#[verifier::external_type_specification]
#[verifier::external_body]
#[verifier::reject_recursive_types(T)]
pub struct ExRwLock<T: ?Sized>(RwLock<T>);

/// One attempt of a retried request: a success keeps the response, a
/// failure uses up one retry.
pub open spec fn retry_step<R>(
    count: usize,
    resp: Option<Result<R, PdError>>,
    outcome: Result<R, PdError>,
) -> (usize, Option<Result<R, PdError>>) {
    match outcome {
        Ok(r) => (count, Some(Ok(r))),
        Err(_) => ((count - 1) as usize, resp),
    }
}

/// A retried request is done once it has a response or no retry is left.
pub open spec fn retry_done<R>(count: usize, resp: Option<Result<R, PdError>>) -> bool {
    count == 0 || resp is Some
}

/// What a finished retried request returns.
pub open spec fn retry_result<R>(resp: Option<Result<R, PdError>>) -> Result<R, PdError> {
    match resp {
        Some(Ok(r)) => Ok(r),
        Some(Err(e)) => Err(e),
        None => Err(PdError::RequestFailed),
    }
}

/// The retry loop: attempt, then stop when done; `outcomes[i]` is what the
/// `i`-th attempt returned.
pub open spec fn run_retry<R>(
    count: usize,
    resp: Option<Result<R, PdError>>,
    outcomes: Seq<Result<R, PdError>>,
) -> (usize, Option<Result<R, PdError>>)
    decreases outcomes.len(),
{
    if outcomes.len() == 0 {
        (count, resp)
    } else {
        let next = retry_step(count, resp, outcomes[0]);
        if retry_done(next.0, next.1) {
            next
        } else {
            run_retry(next.0, next.1, outcomes.drop_first())
        }
    }
}

/// The first successful outcome, if any.
pub open spec fn first_success<R>(outcomes: Seq<Result<R, PdError>>) -> Option<R>
    decreases outcomes.len(),
{
    if outcomes.len() == 0 {
        None
    } else {
        match outcomes[0] {
            Ok(r) => Some(r),
            Err(_) => first_success(outcomes.drop_first()),
        }
    }
}

/// How many attempts the retry loop makes before it stops.
pub open spec fn retry_attempts<R>(
    count: usize,
    resp: Option<Result<R, PdError>>,
    outcomes: Seq<Result<R, PdError>>,
) -> nat
    decreases outcomes.len(),
{
    if outcomes.len() == 0 {
        0
    } else {
        let next = retry_step(count, resp, outcomes[0]);
        if retry_done(next.0, next.1) {
            1
        } else {
            1 + retry_attempts(next.0, next.1, outcomes.drop_first())
        }
    }
}

/// The position of the first successful outcome, if any.
pub open spec fn first_success_index<R>(outcomes: Seq<Result<R, PdError>>) -> Option<nat>
    decreases outcomes.len(),
{
    if outcomes.len() == 0 {
        None
    } else {
        match outcomes[0] {
            Ok(_) => Some(0),
            Err(_) => match first_success_index(outcomes.drop_first()) {
                Some(i) => Some(i + 1),
                None => None,
            },
        }
    }
}

/// A retried request's response is either missing or a success; it never
/// keeps a failure.
pub open spec fn response_is_success<R>(resp: Option<Result<R, PdError>>) -> bool {
    resp is None || resp matches Some(Ok(_))
}

/// A request retried with a budget of `n > 0` attempts returns the first
/// successful response among its first `n` attempts, and fails with
/// `RequestFailed` when all `n` failed; it is then done. It stops right
/// after the first success, having made that many attempts, or after all
/// `n` attempts failed.
pub proof fn lemma_retry_returns_first_success<R>(n: usize, outcomes: Seq<Result<R, PdError>>)
    requires
        n > 0,
        outcomes.len() >= n,
    ensures
        retry_done(run_retry(n, None, outcomes).0, run_retry(n, None, outcomes).1),
        retry_result(run_retry(n, None, outcomes).1) == match first_success(outcomes.take(n as int)) {
            Some(r) => Ok::<R, PdError>(r),
            None => Err(PdError::RequestFailed),
        },
        retry_attempts(n, None, outcomes) == match first_success_index(outcomes.take(n as int)) {
            Some(i) => i + 1,
            None => n as nat,
        },
    decreases n,
{
    let t = outcomes.take(n as int);
    assert(t[0] == outcomes[0]);
    match outcomes[0] {
        Ok(r) => {
            assert(first_success(t) == Some(r));
            assert(first_success_index(t) == Some(0nat));
        },
        Err(_) => {
            assert(first_success(t) == first_success(t.drop_first()));
            assert(first_success_index(t) == match first_success_index(t.drop_first()) {
                Some(i) => Some(i + 1),
                None => None::<nat>,
            });
            assert(retry_step(n, None, outcomes[0]) == ((n - 1) as usize, None::<Result<R, PdError>>));
            if n == 1 {
                assert(t.drop_first() =~= Seq::<Result<R, PdError>>::empty());
                assert(first_success(t.drop_first()) is None);
                assert(first_success_index(t.drop_first()) is None);
            } else {
                let rest = outcomes.drop_first();
                lemma_retry_returns_first_success((n - 1) as usize, rest);
                assert(t.drop_first() =~= rest.take(n - 1));
                assert(run_retry(n, None, outcomes) == run_retry((n - 1) as usize, None, rest));
                assert(retry_attempts(n, None, outcomes) == 1 + retry_attempts(
                    (n - 1) as usize,
                    None,
                    rest,
                ));
            }
        },
    }
}

/// While a retried request is not done a retry is left, so recording a
/// failure never runs the budget below zero; and a response that it keeps
/// is always a success.
pub proof fn lemma_retry_step_safe<R>(
    count: usize,
    resp: Option<Result<R, PdError>>,
    outcome: Result<R, PdError>,
)
    requires
        resp is None || resp matches Some(Ok(_)),
    ensures
        !retry_done(count, resp) ==> count > 0,
        retry_step(count, resp, outcome).1 is None || retry_step(count, resp, outcome).1 matches Some(
            Ok(_),
        ),
{
}

/// The bookkeeping of a retried request: the retries left and the response
/// got so far.
pub struct RetryState<R> {
    retry_count: usize,
    resp: Option<Result<R, PdError>>,
}

impl<R> RetryState<R> {
    /// Every reachable state keeps only a successful response.
    #[verifier::type_invariant]
    closed spec fn keeps_only_success(self) -> bool {
        response_is_success(self.resp)
    }

    pub closed spec fn remaining(&self) -> usize {
        self.retry_count
    }

    pub closed spec fn response(&self) -> Option<Result<R, PdError>> {
        self.resp
    }

    /// `retry` retries and no response.
    pub fn new(retry: usize) -> (st: RetryState<R>)
        ensures
            st.remaining() == retry,
            st.response() is None,
    {
        RetryState { retry_count: retry, resp: None }
    }

    /// Records the outcome of one attempt: a success becomes the response,
    /// a failure uses up one retry.
    pub fn record(&mut self, outcome: Result<R, PdError>)
        requires
            outcome is Ok || old(self).remaining() > 0,
        ensures
            (final(self).remaining(), final(self).response()) == retry_step(
                old(self).remaining(),
                old(self).response(),
                outcome,
            ),
    {
        proof {
            use_type_invariant(&*self);
        }
        match outcome {
            Ok(resp) => self.resp = Some(Ok(resp)),
            Err(_) => self.retry_count = self.retry_count - 1,
        }
    }

    /// Whether the request is done: it has a response or no retry is left.
    pub fn is_done(&self) -> (done: bool)
        ensures
            done == retry_done(self.remaining(), self.response()),
    {
        self.retry_count == 0 || self.resp.is_some()
    }

    /// The response got so far; never a failure.
    pub fn into_resp(self) -> (resp: Option<Result<R, PdError>>)
        ensures
            resp == self.response(),
            response_is_success(resp),
    {
        proof {
            use_type_invariant(&self);
        }
        self.resp
    }
}

/// What a finished retried request returns, from a response that is never
/// a failure: the response, or `RequestFailed`.
fn finish_resp<R>(resp: Option<Result<R, PdError>>) -> (res: Result<R, PdError>)
    requires
        response_is_success(resp),
    ensures
        res == retry_result(resp),
        res is Err ==> res == Err::<R, PdError>(PdError::RequestFailed),
{
    match resp {
        Some(Ok(r)) => Ok(r),
        Some(Err(err)) => Err(err),
        None => Err(PdError::RequestFailed),
    }
}

/// A request that is retried through a shared, replaceable client: each
/// attempt reads the current client and calls `func` with it.
#[verifier::reject_recursive_types(C)]
pub struct GetClient<C, R, F> {
    need_update: bool,
    state: RetryState<R>,
    client: Arc<RwLock<Arc<C>>>,
    func: F,
}

impl<C, R, F> GetClient<C, R, F> {
    pub closed spec fn remaining(&self) -> usize {
        self.state.remaining()
    }

    pub closed spec fn response(&self) -> Option<Result<R, PdError>> {
        self.state.response()
    }

    pub closed spec fn shared_client(&self) -> Arc<RwLock<Arc<C>>> {
        self.client
    }

    pub closed spec fn request_fn(&self) -> F {
        self.func
    }

    /// A request with `retry` attempts that calls `f` with the client held
    /// in `client`.
    pub fn new(retry: usize, client: Arc<RwLock<Arc<C>>>, f: F) -> (g: GetClient<C, R, F>)
        ensures
            g.remaining() == retry,
            g.response() is None,
            g.shared_client() == client,
            g.request_fn() == f,
    {
        GetClient { need_update: false, state: RetryState::new(retry), client: client, func: f }
    }

    /// Records the outcome of one attempt: a success becomes the response,
    /// a failure uses up one retry.
    pub fn record_outcome(&mut self, outcome: Result<R, PdError>)
        requires
            outcome is Ok || old(self).remaining() > 0,
        ensures
            (final(self).remaining(), final(self).response()) == retry_step(
                old(self).remaining(),
                old(self).response(),
                outcome,
            ),
            final(self).shared_client() == old(self).shared_client(),
            final(self).request_fn() == old(self).request_fn(),
    {
        self.state.record(outcome);
    }

    /// Whether the request is done: it has a response or no retry is left.
    pub fn check(&self) -> (done: bool)
        ensures
            done == retry_done(self.remaining(), self.response()),
    {
        self.state.is_done()
    }

    /// The response the request has got, if any; never a failure.
    pub fn get_resp(self) -> (resp: Option<Result<R, PdError>>)
        ensures
            resp == self.response(),
            response_is_success(resp),
    {
        self.state.into_resp()
    }

    /// What the finished request returns: its response, or `RequestFailed`.
    pub fn finish(self) -> (res: Result<R, PdError>)
        ensures
            res == retry_result(self.response()),
            res is Err ==> res == Err::<R, PdError>(PdError::RequestFailed),
    {
        finish_resp(self.state.into_resp())
    }

    /// The shared client that every attempt reads.
    pub fn client(&self) -> (c: &Arc<RwLock<Arc<C>>>)
        ensures
            *c == self.shared_client(),
    {
        &self.client
    }

    /// The function that makes one attempt.
    pub fn func_mut(&mut self) -> (f: &mut F)
        ensures
            *f == old(self).request_fn(),
            final(self).remaining() == old(self).remaining(),
            final(self).response() == old(self).response(),
            final(self).shared_client() == old(self).shared_client(),
            final(self).request_fn() == *final(f),
    {
        &mut self.func
    }
}

/// A request that is retried against one client: each attempt calls `func`
/// with that client.
pub struct Request<C, R, F> {
    state: RetryState<R>,
    client: Arc<C>,
    func: F,
}

impl<C, R, F> Request<C, R, F> {
    pub closed spec fn remaining(&self) -> usize {
        self.state.remaining()
    }

    pub closed spec fn response(&self) -> Option<Result<R, PdError>> {
        self.state.response()
    }

    pub closed spec fn target(&self) -> Arc<C> {
        self.client
    }

    pub closed spec fn request_fn(&self) -> F {
        self.func
    }

    /// A request with `retry` attempts that calls `f` with `client`.
    pub fn new(retry: usize, client: Arc<C>, f: F) -> (r: Request<C, R, F>)
        ensures
            r.remaining() == retry,
            r.response() is None,
            r.target() == client,
            r.request_fn() == f,
    {
        Request { state: RetryState::new(retry), client: client, func: f }
    }

    /// Records the outcome of one attempt: a success becomes the response,
    /// a failure uses up one retry.
    pub fn record_outcome(&mut self, outcome: Result<R, PdError>)
        requires
            outcome is Ok || old(self).remaining() > 0,
        ensures
            (final(self).remaining(), final(self).response()) == retry_step(
                old(self).remaining(),
                old(self).response(),
                outcome,
            ),
            final(self).target() == old(self).target(),
            final(self).request_fn() == old(self).request_fn(),
    {
        self.state.record(outcome);
    }

    /// Whether the request is done: it has a response or no retry is left.
    pub fn receive(&self) -> (done: bool)
        ensures
            done == retry_done(self.remaining(), self.response()),
    {
        self.state.is_done()
    }

    /// The response the request has got, if any; never a failure.
    pub fn get_resp(self) -> (resp: Option<Result<R, PdError>>)
        ensures
            resp == self.response(),
            response_is_success(resp),
    {
        self.state.into_resp()
    }

    /// What the finished request returns: its response, or `RequestFailed`.
    pub fn finish(self) -> (res: Result<R, PdError>)
        ensures
            res == retry_result(self.response()),
            res is Err ==> res == Err::<R, PdError>(PdError::RequestFailed),
    {
        finish_resp(self.state.into_resp())
    }

    /// The client that every attempt uses.
    pub fn client(&self) -> (c: &Arc<C>)
        ensures
            *c == self.target(),
    {
        &self.client
    }

    /// The function that makes one attempt.
    pub fn func_mut(&mut self) -> (f: &mut F)
        ensures
            *f == old(self).request_fn(),
            final(self).remaining() == old(self).remaining(),
            final(self).response() == old(self).response(),
            final(self).target() == old(self).target(),
            final(self).request_fn() == *final(f),
    {
        &mut self.func
    }
}

/// How many times a blocking request is sent before it fails.
pub const MAX_RETRY_COUNT: usize = 100;

/// How many seconds a blocking request waits after it could reach no PD
/// leader.
pub const RETRY_INTERVAL_SECS: u64 = 1;

/// A blocking request sends once more only while it has no response and an
/// attempt is left.
pub open spec fn attempt_allowed<R>(left: usize, resp: Option<R>) -> bool {
    resp is None && left > 0
}

/// The loop of a blocking request: while an attempt is allowed it sends,
/// and `outcomes[i]` is what the `i`-th attempt got (`None` for a failure).
/// Gives the response it ends with and how many attempts it made.
pub open spec fn run_blocking<R>(left: usize, resp: Option<R>, outcomes: Seq<Option<R>>) -> (
    Option<R>,
    nat,
)
    decreases outcomes.len(),
{
    if !attempt_allowed(left, resp) || outcomes.len() == 0 {
        (resp, 0)
    } else {
        let r = run_blocking((left - 1) as usize, outcomes[0], outcomes.drop_first());
        (r.0, r.1 + 1)
    }
}

/// The position and value of the first successful outcome, if any.
pub open spec fn first_some<R>(outcomes: Seq<Option<R>>) -> Option<(nat, R)>
    decreases outcomes.len(),
{
    if outcomes.len() == 0 {
        None
    } else {
        match outcomes[0] {
            Some(r) => Some((0nat, r)),
            None => match first_some(outcomes.drop_first()) {
                Some((i, r)) => Some((i + 1, r)),
                None => None,
            },
        }
    }
}

/// What a blocking request returns after its loop.
pub open spec fn blocking_result<R>(resp: Option<R>) -> Result<R, PdError> {
    match resp {
        Some(r) => Ok(r),
        None => Err(PdError::RequestFailed),
    }
}

/// A blocking request with a budget of `n` attempts stops right after its
/// first success, having made that many attempts, and returns that
/// response; when all `n` attempts fail it stops after `n` attempts and
/// returns `RequestFailed`.
pub proof fn lemma_blocking_request_stops_at_first_success<R>(n: usize, outcomes: Seq<Option<R>>)
    requires
        outcomes.len() >= n,
    ensures
        run_blocking(n, None, outcomes).1 == match first_some(outcomes.take(n as int)) {
            Some((i, _)) => i + 1,
            None => n as nat,
        },
        blocking_result(run_blocking(n, None, outcomes).0) == match first_some(
            outcomes.take(n as int),
        ) {
            Some((_, r)) => Ok::<R, PdError>(r),
            None => Err(PdError::RequestFailed),
        },
    decreases n,
{
    let t = outcomes.take(n as int);
    if n == 0 {
        assert(t =~= Seq::<Option<R>>::empty());
    } else {
        assert(t[0] == outcomes[0]);
        let rest = outcomes.drop_first();
        assert(t.drop_first() =~= rest.take(n - 1));
        match outcomes[0] {
            Some(r) => {
                assert(first_some(t) == Some((0nat, r)));
                assert(run_blocking((n - 1) as usize, outcomes[0], rest) == (outcomes[0], 0nat));
            },
            None => {
                lemma_blocking_request_stops_at_first_success((n - 1) as usize, rest);
                assert(first_some(t) == match first_some(t.drop_first()) {
                    Some((i, r)) => Some((i + 1, r)),
                    None => None::<(nat, R)>,
                });
            },
        }
    }
}

/// The attempt budget of a blocking request.
pub struct RequestAttempts {
    left: usize,
}

impl RequestAttempts {
    pub closed spec fn left(&self) -> usize {
        self.left
    }

    /// A fresh budget of `MAX_RETRY_COUNT` attempts.
    pub fn new() -> (a: RequestAttempts)
        ensures
            a.left() == MAX_RETRY_COUNT,
    {
        RequestAttempts { left: MAX_RETRY_COUNT }
    }

    /// Decides whether to send the request once more: only while no
    /// response has come and an attempt is left, which it then uses up.
    pub fn next_attempt<R>(&mut self, resp: &Option<R>) -> (go: bool)
        ensures
            go == attempt_allowed(old(self).left(), *resp),
            go ==> final(self).left() == old(self).left() - 1,
            !go ==> final(self).left() == old(self).left(),
    {
        if resp.is_some() || self.left == 0 {
            false
        } else {
            self.left = self.left - 1;
            true
        }
    }

    /// How many seconds to wait after a failed attempt, given whether the
    /// client could connect to a PD leader again.
    pub fn pause_after_failure(reconnected: bool) -> (secs: u64)
        ensures
            secs == if reconnected { 0 } else { RETRY_INTERVAL_SECS },
    {
        if reconnected {
            0
        } else {
            RETRY_INTERVAL_SECS
        }
    }

    /// What a blocking request returns after its loop: the response, or
    /// `RequestFailed` when every attempt failed.
    pub fn finish<R>(resp: Option<R>) -> (res: Result<R, PdError>)
        ensures
            res == blocking_result(resp),
    {
        match resp {
            Some(r) => Ok(r),
            None => Err(PdError::RequestFailed),
        }
    }
}

} // verus!
