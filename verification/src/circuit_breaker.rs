//! A circuit breaker: after enough consecutive failures it opens and refuses
//! requests until a reset period has passed, then lets one trial through.
use std::time::{Duration, Instant};

use vstd::prelude::*;

verus! {

#[derive(Debug, Clone, Copy, PartialEq, Eq, Structural)]
pub enum CircuitState {
    Closed,
    Open,
    HalfOpen,
}

#[verifier::external_type_specification]
#[verifier::external_body]
pub struct ExInstant(Instant);

/// `Instant::now`.
#[verifier::external_body]
fn instant_now() -> Instant {
    Instant::now()
}

/// `Instant::elapsed`: the time since `at`, read from the clock, so
/// nothing is stated of it.
#[verifier::external_body]
fn instant_elapsed(at: &Instant) -> Duration {
    at.elapsed()
}

/// `Duration >= Duration`. Nothing is stated: `Duration` is opaque here, so
/// the comparison has no value to be stated over.
#[verifier::external_body]
fn duration_at_least(a: &Duration, b: &Duration) -> bool {
    *a >= *b
}

/// The abstract state of a breaker.
pub struct CircuitView {
    pub state: CircuitState,
    pub failures: nat,
    /// Whether the time at which the breaker last opened is recorded.
    pub opened: bool,
    pub threshold: nat,
    /// How long an open breaker waits before it lets a trial through.
    pub reset_after: Duration,
}

pub struct CircuitBreaker {
    state: CircuitState,
    failures: usize,
    opened_at: Option<Instant>,
    failure_threshold: usize,
    reset_after: Duration,
}

impl View for CircuitBreaker {
    type V = CircuitView;

    closed spec fn view(&self) -> CircuitView {
        CircuitView {
            state: self.state,
            failures: self.failures as nat,
            opened: self.opened_at is Some,
            threshold: self.failure_threshold as nat,
            reset_after: self.reset_after,
        }
    }
}

/// A breaker that is not closed has recorded when it opened and has seen at
/// least `threshold` consecutive failures.
pub open spec fn circuit_wf(v: CircuitView) -> bool {
    v.state != CircuitState::Closed ==> v.opened && v.failures >= v.threshold
}

/// The state after `allow_request`, given whether the reset period has
/// passed since the breaker opened.
pub open spec fn allow_step(v: CircuitView, reset_elapsed: bool) -> (CircuitView, bool) {
    match v.state {
        CircuitState::Closed => (v, true),
        CircuitState::HalfOpen => (v, true),
        CircuitState::Open => {
            if v.opened && reset_elapsed {
                (CircuitView { state: CircuitState::HalfOpen, ..v }, true)
            } else {
                (v, false)
            }
        },
    }
}

/// The state after `record_success`.
pub open spec fn success_step(v: CircuitView) -> CircuitView {
    CircuitView { state: CircuitState::Closed, failures: 0, opened: false, ..v }
}

/// The state after `record_failure`.
pub open spec fn failure_step(v: CircuitView) -> CircuitView {
    let f = v.failures + 1;
    if f >= v.threshold {
        CircuitView { state: CircuitState::Open, failures: f, opened: true, ..v }
    } else {
        CircuitView { failures: f, ..v }
    }
}

/// The state after `n` consecutive failures.
pub open spec fn failures_from(v: CircuitView, n: nat) -> CircuitView
    decreases n,
{
    if n == 0 {
        v
    } else {
        failure_step(failures_from(v, (n - 1) as nat))
    }
}

impl CircuitBreaker {
    #[verifier::type_invariant]
    spec fn inv(self) -> bool {
        circuit_wf(self@)
    }

    /// A closed breaker with no failures recorded.
    pub fn new(failure_threshold: usize, reset_after: Duration) -> (res: Self)
        ensures
            res@ == (CircuitView {
                state: CircuitState::Closed,
                failures: 0,
                opened: false,
                threshold: failure_threshold as nat,
                reset_after: reset_after,
            }),
            circuit_wf(res@),
    {
        CircuitBreaker {
            state: CircuitState::Closed,
            failures: 0,
            opened_at: None,
            failure_threshold,
            reset_after,
        }
    }

    /// Whether a request may go out. An open breaker whose reset period has
    /// passed turns half-open and lets the request through.
    pub fn allow_request(&mut self) -> (res: bool)
        ensures
            exists|reset_elapsed: bool|
                (#[trigger] allow_step(old(self)@, reset_elapsed)) == (final(self)@, res),
            old(self)@.state != CircuitState::Open ==> final(self)@ == old(self)@ && res,
            circuit_wf(final(self)@),
    {
        proof {
            use_type_invariant(&*self);
        }
        let reached = match (&self.state, &self.opened_at) {
            (CircuitState::Open, Some(at)) => {
                let elapsed = instant_elapsed(at);
                duration_at_least(&elapsed, &self.reset_after)
            },
            _ => false,
        };
        self.allow_request_after(reached)
    }

    /// `allow_request` once it is known whether the reset period has passed.
    pub fn allow_request_after(&mut self, reset_elapsed: bool) -> (res: bool)
        ensures
            allow_step(old(self)@, reset_elapsed) == (final(self)@, res),
            circuit_wf(final(self)@),
    {
        proof {
            use_type_invariant(&*self);
        }
        match self.state {
            CircuitState::Closed => true,
            CircuitState::HalfOpen => true,
            CircuitState::Open => {
                if self.opened_at.is_some() && reset_elapsed {
                    self.state = CircuitState::HalfOpen;
                    true
                } else {
                    false
                }
            },
        }
    }

    /// Closes the breaker and clears the failure count.
    pub fn record_success(&mut self)
        ensures
            final(self)@ == success_step(old(self)@),
            circuit_wf(final(self)@),
    {
        self.state = CircuitState::Closed;
        self.failures = 0;
        self.opened_at = None;
    }

    /// Counts one more failure; at the threshold the breaker opens and
    /// records the time.
    pub fn record_failure(&mut self)
        requires
            old(self)@.failures < usize::MAX,
        ensures
            final(self)@ == failure_step(old(self)@),
            circuit_wf(final(self)@),
    {
        proof {
            use_type_invariant(&*self);
        }
        let f = self.failures + 1;
        if f >= self.failure_threshold {
            let now = instant_now();
            self.opened_at = Some(now);
            self.failures = f;
            self.state = CircuitState::Open;
        } else {
            self.failures = f;
        }
    }

    pub fn state(&self) -> (res: CircuitState)
        ensures
            res == self@.state,
            circuit_wf(self@),
    {
        proof {
            use_type_invariant(self);
        }
        self.state
    }

    /// The number of consecutive failures recorded.
    pub fn failures(&self) -> (res: usize)
        ensures
            res == self@.failures,
    {
        self.failures
    }
}

/// Every reachable state is well formed: the three operations keep
/// `circuit_wf`.
pub proof fn law_operations_keep_wf(v: CircuitView, reset_elapsed: bool)
    requires
        circuit_wf(v),
    ensures
        circuit_wf(allow_step(v, reset_elapsed).0),
        circuit_wf(success_step(v)),
        circuit_wf(failure_step(v)),
{
}

/// A closed or half-open breaker always lets requests through, and a
/// breaker that has just recorded a success is closed.
pub proof fn law_success_closes(v: CircuitView, reset_elapsed: bool)
    ensures
        success_step(v).state == CircuitState::Closed,
        success_step(v).failures == 0,
        allow_step(success_step(v), reset_elapsed).1,
        v.state != CircuitState::Open ==> allow_step(v, reset_elapsed).1,
{
}

/// Starting from a closed breaker with no failures, `n` consecutive failures
/// open it exactly when `n` reaches the threshold.
pub proof fn law_threshold_opens(v: CircuitView, n: nat)
    requires
        v.state == CircuitState::Closed,
        v.failures == 0,
        v.opened == false,
    ensures
        failures_from(v, n).failures == n,
        failures_from(v, n).threshold == v.threshold,
        (failures_from(v, n).state == CircuitState::Open) <==> (n >= 1 && n >= v.threshold),
        n < v.threshold ==> failures_from(v, n).state == CircuitState::Closed,
    decreases n,
{
    if n > 0 {
        law_threshold_opens(v, (n - 1) as nat);
    }
}

/// An open breaker refuses requests until the reset period has passed, and
/// a refusal leaves the state as it was.
pub proof fn law_open_refuses(v: CircuitView)
    requires
        v.state == CircuitState::Open,
    ensures
        allow_step(v, false) == (v, false),
{
}

} // verus!
