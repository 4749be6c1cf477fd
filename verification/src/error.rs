//! Error types, the HTTP form of request errors, the retry decision and the
//! circuit breaker.
use vstd::prelude::*;

verus! {

/// Errors of the HTTP API.
#[derive(Debug, Clone)]
pub enum AppError {
    /// A database failure, with its description.
    Database(String),
    /// A system failure.
    System(String),
    /// A task operation that the task's state does not allow.
    Task(String),
    /// A missing resource.
    NotFound(String),
    /// A malformed request.
    BadRequest(String),
}

impl AppError {
    /// The HTTP status code and the `error` message of the response that
    /// reports this error: database errors are hidden behind "Internal server
    /// error" with 500; system errors are 500, task errors and bad requests
    /// 400, missing resources 404, each with its own message.
    pub fn response_parts(&self) -> (r: (u16, String))
        ensures
            match self {
                AppError::Database(_) => r.0 == 500 && r.1@ == "Internal server error"@,
                AppError::System(m) => r.0 == 500 && r.1@ == m@,
                AppError::Task(m) => r.0 == 400 && r.1@ == m@,
                AppError::NotFound(m) => r.0 == 404 && r.1@ == m@,
                AppError::BadRequest(m) => r.0 == 400 && r.1@ == m@,
            },
    {
        match self {
            AppError::Database(_) => (500, String::from_str("Internal server error")),
            AppError::System(m) => (500, m.clone()),
            AppError::Task(m) => (400, m.clone()),
            AppError::NotFound(m) => (404, m.clone()),
            AppError::BadRequest(m) => (400, m.clone()),
        }
    }
}

/// Errors of the runtime services.
#[derive(Debug, Clone)]
pub enum SystemError {
    /// Cache failure.
    CacheError(String),
    /// Database failure.
    DatabaseError(String),
    /// Network failure.
    NetworkError(String),
    /// Task execution failure.
    TaskError(String),
    /// Missing resource.
    NotFound(String),
    /// Operation timed out.
    Timeout(String),
    /// System overloaded.
    Overload(String),
}

/// Result of a runtime service.
pub type SystemResult<T> = Result<T, SystemError>;

/// The retry decision after a failed attempt, when `retries` retries have
/// been made and `max_retries` are allowed: `None` gives up, `Some(n)` retries
/// with `n` retries counted.
pub fn retry_step(retries: u32, max_retries: u32) -> (r: Option<u32>)
    ensures
        retries >= max_retries <==> r is None,
        r matches Some(n) ==> n == retries + 1,
{
    if retries >= max_retries {
        None
    } else {
        Some(retries + 1)
    }
}

#[verifier::external_type_specification]
#[verifier::external_body]
pub struct ExInstant(std::time::Instant);

/// Reads the monotonic clock (`Instant::now`). Nothing is stated of the
/// result.
#[verifier::external_body]
pub(crate) fn instant_now() -> std::time::Instant {
    std::time::Instant::now()
}

/// The time passed since `since` (`Instant::elapsed`). It depends on the
/// clock, so nothing is stated of the result.
#[verifier::external_body]
pub(crate) fn instant_elapsed(since: &std::time::Instant) -> std::time::Duration {
    since.elapsed()
}

/// Compares two durations with `<` (`PartialOrd` of `Duration`). Durations
/// are opaque here, so nothing is stated of the result.
#[verifier::external_body]
fn duration_lt(a: &std::time::Duration, b: &std::time::Duration) -> bool {
    *a < *b
}

/// The current instant of the monotonic clock. It depends on the clock, so
/// nothing is stated of it.
pub fn monotonic_now() -> std::time::Instant {
    instant_now()
}

/// The time passed since `since`, by the monotonic clock (zero if `since` is
/// later). It depends on the clock, so nothing is stated of it.
pub fn elapsed_since(since: &std::time::Instant) -> std::time::Duration {
    instant_elapsed(since)
}

/// Whether less than `timeout` has passed since `since`, by the monotonic
/// clock. It depends on the clock, so nothing is stated of the answer.
pub fn time_within(since: &std::time::Instant, timeout: &std::time::Duration) -> bool {
    let passed = instant_elapsed(since);
    duration_lt(&passed, timeout)
}

/// A circuit breaker: after `failure_threshold` consecutive failures it stays
/// open until `reset_timeout` has passed since the last failure.
pub struct CircuitBreaker {
    failure_threshold: u32,
    reset_timeout: std::time::Duration,
    failure_count: u32,
    last_failure: Option<std::time::Instant>,
}

impl CircuitBreaker {
    /// Failures needed to open the breaker.
    pub closed spec fn failure_threshold(&self) -> u32 {
        self.failure_threshold
    }

    /// Consecutive failures recorded.
    pub closed spec fn failure_count(&self) -> u32 {
        self.failure_count
    }

    /// The time of the last failure recorded, if one is.
    pub closed spec fn last_failure(&self) -> Option<std::time::Instant> {
        self.last_failure
    }

    /// Whether a failure time is recorded.
    pub open spec fn has_last_failure(&self) -> bool {
        self.last_failure() is Some
    }

    /// How long the breaker stays open after the last failure.
    pub closed spec fn reset_timeout(&self) -> std::time::Duration {
        self.reset_timeout
    }

    /// Whether the threshold is reached and a failure time is recorded: the
    /// breaker is then open while the reset timeout has not passed.
    pub open spec fn tripped(&self) -> bool {
        self.failure_count() >= self.failure_threshold() && self.has_last_failure()
    }

    /// Consecutive failures recorded.
    pub fn failures(&self) -> (n: u32)
        ensures
            n == self.failure_count(),
    {
        self.failure_count
    }

    /// A closed breaker with no failures recorded.
    pub fn new(failure_threshold: u32, reset_timeout: std::time::Duration) -> (b: Self)
        ensures
            b.failure_threshold() == failure_threshold,
            b.reset_timeout() == reset_timeout,
            b.failure_count() == 0,
            b.last_failure() is None,
    {
        CircuitBreaker { failure_threshold, reset_timeout, failure_count: 0, last_failure: None }
    }

    /// Counts one more failure, which happened at `now`.
    pub fn record_failure_at(&mut self, now: std::time::Instant)
        requires
            old(self).failure_count() < u32::MAX,
        ensures
            outcome_recorded(*old(self), *final(self), false),
            final(self).last_failure() == Some(now),
    {
        self.failure_count = self.failure_count + 1;
        self.last_failure = Some(now);
    }

    /// Counts one more failure and remembers its time, read from the clock.
    pub fn record_failure(&mut self)
        requires
            old(self).failure_count() < u32::MAX,
        ensures
            outcome_recorded(*old(self), *final(self), false),
            exists|now: std::time::Instant|
                #[trigger] call_ensures(monotonic_now, (), now) && final(self).last_failure() == Some(now),
    {
        let now = monotonic_now();
        self.record_failure_at(now);
    }

    /// Clears the failures.
    pub fn record_success(&mut self)
        ensures
            outcome_recorded(*old(self), *final(self), true),
    {
        self.failure_count = 0;
        self.last_failure = None;
    }

    /// Whether the breaker is open, given whether the reset timeout has not
    /// yet passed since the last failure: it is open exactly when the
    /// threshold is reached, a failure time is recorded and the timeout has
    /// not passed.
    pub fn is_open_given(&self, within_timeout: bool) -> (open: bool)
        ensures
            open == open_when(*self, within_timeout),
    {
        self.failure_count >= self.failure_threshold && self.last_failure.is_some()
            && within_timeout
    }

    /// Whether the breaker is open: when it is tripped, whether the reset
    /// timeout has not yet passed since the last failure, as [`time_within`]
    /// reads it from the clock; otherwise closed.
    pub fn is_open(&self) -> (open: bool)
        ensures
            !self.tripped() ==> !open,
            self.tripped() ==> call_ensures(
                time_within,
                (&self.last_failure()->0, &self.reset_timeout()),
                open,
            ),
            open ==> open_when(*self, true),
    {
        if self.failure_count >= self.failure_threshold {
            match &self.last_failure {
                Some(t) => {
                    let within = time_within(t, &self.reset_timeout);
                    return self.is_open_given(within);
                },
                None => {},
            }
        }
        false
    }

    /// Lets an operation through when the breaker is not open; refuses it
    /// with `Overload("Circuit breaker is open")` when it is (see
    /// [`Self::is_open`]).
    pub fn check_closed(&self) -> (r: SystemResult<()>)
        ensures
            !self.tripped() ==> r is Ok,
            self.tripped() ==> call_ensures(
                time_within,
                (&self.last_failure()->0, &self.reset_timeout()),
                r is Err,
            ),
            r matches Err(e) ==> e matches SystemError::Overload(m) && m@
                == "Circuit breaker is open"@,
    {
        if self.is_open() {
            return Err(SystemError::Overload(String::from_str("Circuit breaker is open")));
        }
        Ok(())
    }

    /// Records the outcome of an operation that was let through: success
    /// clears the failures, failure counts one more at the current time; the
    /// outcome is handed back unchanged.
    pub fn record_outcome<T>(&mut self, outcome: SystemResult<T>) -> (r: SystemResult<T>)
        requires
            outcome is Err ==> old(self).failure_count() < u32::MAX,
        ensures
            r == outcome,
            outcome_recorded(*old(self), *final(self), outcome is Ok),
            outcome is Err ==> exists|now: std::time::Instant|
                #[trigger] call_ensures(monotonic_now, (), now) && final(self).last_failure() == Some(now),
    {
        match outcome {
            Ok(v) => {
                self.record_success();
                Ok(v)
            },
            Err(e) => {
                self.record_failure();
                Err(e)
            },
        }
    }
}

/// Runs `operation` through `breaker`: an open breaker refuses it with
/// `Overload("Circuit breaker is open")` without running it; otherwise the
/// operation runs once, its outcome comes back unchanged and is recorded
/// (see [`CircuitBreaker::record_outcome`]).
pub fn with_circuit_breaker<T, F: FnOnce() -> SystemResult<T>>(breaker: &mut CircuitBreaker, operation: F) -> (r:
    SystemResult<T>)
    requires
        operation.requires(()),
        forall|out: SystemResult<T>|
            #[trigger] call_ensures(operation, (), out) && out is Err ==> old(breaker).failure_count()
                < u32::MAX,
    ensures
        old(breaker).tripped() ==> exists|w: bool|
            #[trigger] call_ensures(
                time_within,
                (&old(breaker).last_failure()->0, &old(breaker).reset_timeout()),
                w,
            ) && (w ==> (r matches Err(e) && e matches SystemError::Overload(m) && m@
                == "Circuit breaker is open"@ && *final(breaker) == *old(breaker))) && (!w ==> exists|
                out: SystemResult<T>,
            |
                #[trigger] call_ensures(operation, (), out) && r == out && outcome_recorded(
                    *old(breaker),
                    *final(breaker),
                    out is Ok,
                )),
        !old(breaker).tripped() ==> exists|out: SystemResult<T>|
            #[trigger] call_ensures(operation, (), out) && r == out && outcome_recorded(
                *old(breaker),
                *final(breaker),
                out is Ok,
            ),
{
    match breaker.check_closed() {
        Err(e) => Err(e),
        Ok(()) => {
            let outcome = operation();
            breaker.record_outcome(outcome)
        },
    }
}

/// Whether breaker `b` is open when the reset timeout has (`within` false)
/// or has not (`within` true) passed since its last failure.
pub open spec fn open_when(b: CircuitBreaker, within: bool) -> bool {
    b.failure_count() >= b.failure_threshold() && b.has_last_failure() && within
}

/// Whether `b` is what recording an outcome (a success when `ok`) leaves of
/// `a`: a success clears the failures, a failure counts one more.
pub open spec fn outcome_recorded(a: CircuitBreaker, b: CircuitBreaker, ok: bool) -> bool {
    &&& b.failure_threshold() == a.failure_threshold()
    &&& b.reset_timeout() == a.reset_timeout()
    &&& if ok {
        b.failure_count() == 0 && !b.has_last_failure()
    } else {
        b.failure_count() == a.failure_count() + 1 && b.has_last_failure()
    }
}

/// A call let through a breaker: if it succeeds the breaker is closed
/// afterwards, whatever the time; if it fails and the failures then reach
/// the threshold, the breaker is open until the reset timeout passes, and if
/// they do not, it stays closed.
pub proof fn law_guarded_call_outcome(a: CircuitBreaker, b: CircuitBreaker, ok: bool)
    requires
        outcome_recorded(a, b, ok),
    ensures
        ok ==> forall|w: bool| !#[trigger] open_when(b, w),
        !ok ==> (open_when(b, true) <==> a.failure_count() + 1 >= a.failure_threshold()),
        !open_when(b, false),
{
}

/// After a success a breaker is the same value as a new one with its
/// threshold and reset timeout, so it answers every later sequence of calls
/// as that new breaker would.
pub proof fn law_success_resets(a: CircuitBreaker, b: CircuitBreaker, fresh: CircuitBreaker)
    requires
        outcome_recorded(a, b, true),
        fresh.failure_count() == 0,
        fresh.last_failure() is None,
        fresh.failure_threshold() == a.failure_threshold(),
        fresh.reset_timeout() == a.reset_timeout(),
    ensures
        b == fresh,
{
}

/// Whether `b` is what `record_failure` leaves of `a`.
pub open spec fn failed_once(a: CircuitBreaker, b: CircuitBreaker) -> bool {
    &&& b.failure_count() == a.failure_count() + 1
    &&& b.has_last_failure()
    &&& b.failure_threshold() == a.failure_threshold()
    &&& b.reset_timeout() == a.reset_timeout()
}

/// From a closed breaker, `failure_threshold` failures in a row (and no
/// fewer) open it, as long as the reset timeout has not passed since the last
/// of them; once it has passed the breaker is closed again; a success closes
/// it too.
pub proof fn law_breaker_opens_at_threshold(bs: Seq<CircuitBreaker>, ok: CircuitBreaker)
    requires
        bs.len() > 0,
        bs[0].failure_count() == 0,
        forall|i: int| 0 <= i < bs.len() - 1 ==> failed_once(#[trigger] bs[i], bs[i + 1]),
        ok.failure_count() == 0,
        !ok.has_last_failure(),
    ensures
        forall|i: int|
            0 < i < bs.len() ==> (#[trigger] open_when(bs[i], true) <==> i >= bs[0].failure_threshold()),
        forall|i: int| 0 <= i < bs.len() ==> !#[trigger] open_when(bs[i], false),
        forall|w: bool| !#[trigger] open_when(ok, w),
{
    assert forall|i: int| 0 < i < bs.len() implies (#[trigger] open_when(bs[i], true) <==> i
        >= bs[0].failure_threshold()) by {
        lemma_failures_counted(bs, i);
        assert(failed_once(bs[i - 1], bs[i]));
    }
}

proof fn lemma_failures_counted(bs: Seq<CircuitBreaker>, i: int)
    requires
        bs.len() > 0,
        bs[0].failure_count() == 0,
        forall|j: int| 0 <= j < bs.len() - 1 ==> failed_once(#[trigger] bs[j], bs[j + 1]),
        0 <= i < bs.len(),
    ensures
        bs[i].failure_count() == i,
        bs[i].failure_threshold() == bs[0].failure_threshold(),
    decreases i,
{
    if i > 0 {
        lemma_failures_counted(bs, i - 1);
        assert(failed_once(bs[i - 1], bs[i]));
    }
}

} // verus!
