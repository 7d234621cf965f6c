//! Bounded retry with backoff for rate-limited resolution requests.

use vstd::prelude::*;
use crate::identity::{ActionId, CommitSha, Version};
use crate::resolution::{
    Commit, MAX_RETRY_WAIT_SECS, ResolutionError, RetryAfter, ShaDescription, VersionRegistry,
};
use crate::text::{decimal, push_char, push_decimal};
use vstd::string::StringExecFns;

verus! {

/// Total attempts per request, counting the first.
pub const MAX_ATTEMPTS: usize = 3;

/// Wait, in seconds, before retry number `i` when the forge stated no reset.
pub open spec fn spec_backoff(i: int) -> Option<u64> {
    if i == 0 {
        Some(1)
    } else if i == 1 {
        Some(2)
    } else {
        None
    }
}

/// The backoff schedule: 1s, then 2s; none after that.
pub fn backoff(retry_index: usize) -> (r: Option<u64>)
    ensures
        r == spec_backoff(retry_index as int),
{
    if retry_index == 0 {
        Some(1)
    } else if retry_index == 1 {
        Some(2)
    } else {
        None
    }
}

/// How long to wait before retry number `i` after `error`, or `None` to stop.
///
/// A stated reset is a floor raised to the backoff step and clamped to the cap;
/// an unstated one follows the backoff; a distant one stops.
pub open spec fn spec_wait_for(error: ResolutionError, i: int) -> Option<u64> {
    match error {
        ResolutionError::RateLimited { retry_after, .. } => match retry_after {
            RetryAfter::After(secs) => {
                let floor: u64 = match spec_backoff(i) {
                    Some(b) => b,
                    None => 0,
                };
                let raised: u64 = if secs < floor {
                    floor
                } else {
                    secs
                };
                Some(
                    if raised > MAX_RETRY_WAIT_SECS {
                        MAX_RETRY_WAIT_SECS
                    } else {
                        raised
                    },
                )
            },
            RetryAfter::Unstated => spec_backoff(i),
            RetryAfter::TooDistant => None,
        },
        _ => None,
    }
}

/// How long to wait before retry number `retry_index`, or `None` to stop.
pub fn wait_for(error: &ResolutionError, retry_index: usize) -> (r: Option<u64>)
    ensures
        r == spec_wait_for(*error, retry_index as int),
{
    match error {
        ResolutionError::RateLimited { retry_after, .. } => match retry_after {
            RetryAfter::After(secs) => {
                let floor = match backoff(retry_index) {
                    Some(b) => b,
                    None => 0,
                };
                let raised = if *secs < floor {
                    floor
                } else {
                    *secs
                };
                Some(
                    if raised > MAX_RETRY_WAIT_SECS {
                        MAX_RETRY_WAIT_SECS
                    } else {
                        raised
                    },
                )
            },
            RetryAfter::Unstated => backoff(retry_index),
            RetryAfter::TooDistant => None,
        },
        _ => None,
    }
}

/// What the loop does after attempt number `retry_index` (0-based) failed.
#[derive(Debug, Clone, Copy, PartialEq, Eq)]
pub enum RetryStep {
    /// Return the error.
    GiveUp,
    /// Wait this many seconds, then try again.
    WaitThenRetry(u64),
}

/// The decision after the attempt numbered `i` failed with `error`.
pub open spec fn spec_next_step(error: ResolutionError, i: int) -> RetryStep {
    if !error.spec_is_retryable() || i + 1 >= MAX_ATTEMPTS {
        RetryStep::GiveUp
    } else {
        match spec_wait_for(error, i) {
            Some(secs) => RetryStep::WaitThenRetry(secs),
            None => RetryStep::GiveUp,
        }
    }
}

/// Decide what to do after the attempt numbered `retry_index` failed with `error`.
pub fn next_step(error: &ResolutionError, retry_index: usize) -> (r: RetryStep)
    ensures
        r == spec_next_step(*error, retry_index as int),
{
    if !error.is_retryable() || retry_index >= MAX_ATTEMPTS - 1 {
        return RetryStep::GiveUp;
    }
    match wait_for(error, retry_index) {
        Some(secs) => RetryStep::WaitThenRetry(secs),
        None => RetryStep::GiveUp,
    }
}

/// The notice announced before a wait: the cause, then the wait in seconds.
pub open spec fn spec_retry_notice(error: ResolutionError, secs: u64) -> Seq<char> {
    error.spec_message() + "; retrying in "@ + decimal(secs as nat) + seq!['s']
}

/// Build the notice announced before a wait.
pub fn retry_notice(error: &ResolutionError, secs: u64) -> (r: String)
    ensures
        r@ == spec_retry_notice(*error, secs),
{
    let mut s = error.message();
    s.append("; retrying in ");
    push_decimal(&mut s, secs);
    push_char(&mut s, 's');
    s
}

/// Whether `r` is what the retry loop returns after the attempts failed with
/// `errs`, in order: each failure before the last was one the policy waits out
/// (so at most `MAX_ATTEMPTS` attempts are made); then either the next attempt
/// succeeded with `r`, or `r` is the last failure and the policy gives up on it.
pub open spec fn retried<T>(errs: Seq<ResolutionError>, r: Result<T, ResolutionError>) -> bool {
    match r {
        Ok(_) => forall|i: int| 0 <= i < errs.len() ==> #[trigger] spec_next_step(errs[i], i) is WaitThenRetry,
        Err(e) => {
            &&& errs.len() >= 1
            &&& e == errs.last()
            &&& spec_next_step(e, errs.len() - 1) == RetryStep::GiveUp
            &&& forall|i: int| 0 <= i < errs.len() - 1 ==> #[trigger] spec_next_step(errs[i], i) is WaitThenRetry
        },
    }
}

/// A run of failures that the policy waits out is shorter than `MAX_ATTEMPTS`,
/// so a retry loop makes at most that many attempts.
pub proof fn lemma_retried_is_bounded<T>(errs: Seq<ResolutionError>, r: Result<T, ResolutionError>)
    requires
        retried(errs, r),
    ensures
        errs.len() <= MAX_ATTEMPTS,
        r is Ok ==> errs.len() < MAX_ATTEMPTS,
{
    if errs.len() > 0 {
        let last = errs.len() - 1;
        if r is Ok {
            assert(spec_next_step(errs[last], last) is WaitThenRetry);
        } else if last > 0 {
            assert(spec_next_step(errs[last - 1], last - 1) is WaitThenRetry);
        }
    }
}

/// Pauses execution for a requested number of seconds.
pub trait Waiter {
    /// Block for `secs` seconds.
    fn wait(&self, secs: u64);
}

/// Announces a pending wait to the user.
pub trait Notifier {
    /// Show `message` before the wait it describes.
    fn notify(&self, message: &str);
}

/// A notifier that announces nothing.
#[derive(Debug, Default, Clone, Copy)]
pub struct Silent;

impl Notifier for Silent {
    fn notify(&self, message: &str) {
    }
}

/// Retries rate-limited requests to an inner registry, with backoff.
pub struct Retrying<R, W, N> {
    /// The registry whose failures are retried.
    pub inner: R,
    /// How the retry pauses between attempts.
    pub waiter: W,
    /// Told about each wait immediately before it.
    pub notifier: N,
}

impl<R: VersionRegistry, W: Waiter> Retrying<R, W, Silent> {
    /// Wrap a registry, pausing through `waiter` and announcing nothing.
    pub fn new(inner: R, waiter: W) -> (r: Self)
        ensures
            r.inner == inner,
            r.waiter == waiter,
    {
        Retrying { inner, waiter, notifier: Silent }
    }
}

impl<R: VersionRegistry, W: Waiter, N: Notifier> Retrying<R, W, N> {
    /// Announce each wait through `notifier` before pausing.
    pub fn with_notifier<N2: Notifier>(self, notifier: N2) -> (r: Retrying<R, W, N2>)
        ensures
            r.inner == self.inner,
            r.waiter == self.waiter,
            r.notifier == notifier,
    {
        Retrying { inner: self.inner, waiter: self.waiter, notifier }
    }

    /// Run `attempt` until it succeeds, stops being retryable, or the budget of
    /// `MAX_ATTEMPTS` attempts is spent; each wait is announced, then taken.
    pub fn retrying<T, F: Fn() -> Result<T, ResolutionError>>(&self, attempt: F) -> (r: Result<
        T,
        ResolutionError,
    >)
        requires
            attempt.requires(()),
        ensures
            attempt.ensures((), r),
            exists|errs: Seq<ResolutionError>|
                #[trigger] retried(errs, r) && forall|i: int|
                    0 <= i < errs.len() ==> attempt.ensures((), Err::<T, ResolutionError>(#[trigger] errs[i])),
    {
        let mut retry_index: usize = 0;
        let ghost mut errs: Seq<ResolutionError> = Seq::empty();
        loop
            invariant
                retry_index < MAX_ATTEMPTS,
                attempt.requires(()),
                errs.len() == retry_index,
                forall|i: int| 0 <= i < errs.len() ==> #[trigger] spec_next_step(errs[i], i) is WaitThenRetry,
                forall|i: int|
                    0 <= i < errs.len() ==> attempt.ensures((), Err::<T, ResolutionError>(#[trigger] errs[i])),
            decreases MAX_ATTEMPTS - retry_index,
        {
            let error = match attempt() {
                Ok(value) => {
                    assert(retried(errs, Ok::<T, ResolutionError>(value)));
                    return Ok(value);
                },
                Err(error) => error,
            };
            let step = next_step(&error, retry_index);
            proof {
                errs = errs.push(error);
                assert(errs[retry_index as int] == error);
            }
            match step {
                RetryStep::GiveUp => {
                    assert(retried(errs, Err::<T, ResolutionError>(error)));
                    return Err(error);
                },
                RetryStep::WaitThenRetry(secs) => {
                    let notice = retry_notice(&error, secs);
                    self.notifier.notify(notice.as_str());
                    self.waiter.wait(secs);
                    retry_index = retry_index + 1;
                },
            }
        }
    }
}

impl<R: VersionRegistry, W: Waiter, N: Notifier> VersionRegistry for Retrying<R, W, N> {
    /// The inner registry's answer, asked again while it is a rate limit the
    /// policy waits out; an error is the one the policy gave up on.
    fn lookup_sha(&self, id: &ActionId, version: &Version) -> (r: Result<Commit, ResolutionError>)
        ensures
            call_ensures(R::lookup_sha, (&self.inner, id, version), r),
            exists|errs: Seq<ResolutionError>|
                #[trigger] retried(errs, r) && forall|i: int|
                    0 <= i < errs.len() ==> call_ensures(
                        R::lookup_sha,
                        (&self.inner, id, version),
                        Err::<Commit, ResolutionError>(#[trigger] errs[i]),
                    ),
    {
        let ask = R::lookup_sha;
        let attempt = || -> (a: Result<Commit, ResolutionError>)
            ensures
                call_ensures(R::lookup_sha, (&self.inner, id, version), a),
        {
            ask(&self.inner, id, version)
        };
        let r = self.retrying(attempt);
        proof {
            let errs = choose|errs: Seq<ResolutionError>|
                #[trigger] retried(errs, r) && forall|i: int|
                    0 <= i < errs.len() ==> attempt.ensures((), Err::<Commit, ResolutionError>(#[trigger] errs[i]));
            assert(retried(errs, r));
        }
        r
    }

    /// The inner registry's tags, asked again as `lookup_sha` is.
    fn all_tags(&self, id: &ActionId) -> (r: Result<Vec<Version>, ResolutionError>)
        ensures
            call_ensures(R::all_tags, (&self.inner, id), r),
            exists|errs: Seq<ResolutionError>|
                #[trigger] retried(errs, r) && forall|i: int|
                    0 <= i < errs.len() ==> call_ensures(
                        R::all_tags,
                        (&self.inner, id),
                        Err::<Vec<Version>, ResolutionError>(#[trigger] errs[i]),
                    ),
    {
        let ask = R::all_tags;
        let attempt = || -> (a: Result<Vec<Version>, ResolutionError>)
            ensures
                call_ensures(R::all_tags, (&self.inner, id), a),
        {
            ask(&self.inner, id)
        };
        let r = self.retrying(attempt);
        proof {
            let errs = choose|errs: Seq<ResolutionError>|
                #[trigger] retried(errs, r) && forall|i: int|
                    0 <= i < errs.len() ==> attempt.ensures((), Err::<Vec<Version>, ResolutionError>(#[trigger] errs[i]));
            assert(retried(errs, r));
        }
        r
    }

    /// The inner registry's description, asked again as `lookup_sha` is.
    fn describe_sha(&self, id: &ActionId, sha: &CommitSha) -> (r: Result<
        ShaDescription,
        ResolutionError,
    >)
        ensures
            call_ensures(R::describe_sha, (&self.inner, id, sha), r),
            exists|errs: Seq<ResolutionError>|
                #[trigger] retried(errs, r) && forall|i: int|
                    0 <= i < errs.len() ==> call_ensures(
                        R::describe_sha,
                        (&self.inner, id, sha),
                        Err::<ShaDescription, ResolutionError>(#[trigger] errs[i]),
                    ),
    {
        let ask = R::describe_sha;
        let attempt = || -> (a: Result<ShaDescription, ResolutionError>)
            ensures
                call_ensures(R::describe_sha, (&self.inner, id, sha), a),
        {
            ask(&self.inner, id, sha)
        };
        let r = self.retrying(attempt);
        proof {
            let errs = choose|errs: Seq<ResolutionError>|
                #[trigger] retried(errs, r) && forall|i: int|
                    0 <= i < errs.len() ==> attempt.ensures((), Err::<ShaDescription, ResolutionError>(#[trigger] errs[i]));
            assert(retried(errs, r));
        }
        r
    }
}

// ---------------------------------------------------------------------------
// Laws of the retry policy
// ---------------------------------------------------------------------------

/// No request is attempted more than `MAX_ATTEMPTS` times: once that many
/// attempts have failed, the loop gives up whatever the error.
pub proof fn law_attempts_are_bounded(error: ResolutionError, i: int)
    requires
        i + 1 >= MAX_ATTEMPTS,
    ensures
        spec_next_step(error, i) == RetryStep::GiveUp,
{
}

/// A failure that is not a rate limit is returned on the first attempt, without waiting.
pub proof fn law_non_retryable_gives_up_at_once(error: ResolutionError)
    requires
        !(error is RateLimited),
    ensures
        spec_next_step(error, 0) == RetryStep::GiveUp,
{
}

/// A reset too far out stops the loop rather than backing off.
pub proof fn law_distant_reset_stops(forge: crate::resolution::Forge, i: int)
    ensures
        spec_next_step(
            ResolutionError::RateLimited { forge, retry_after: RetryAfter::TooDistant },
            i,
        ) == RetryStep::GiveUp,
{
}

/// Every wait lies between the backoff step (when one exists) and the cap, so no
/// wait is zero and none exceeds `MAX_RETRY_WAIT_SECS`.
pub proof fn law_waits_are_floored_and_capped(error: ResolutionError, i: int)
    requires
        0 <= i,
    ensures
        spec_next_step(error, i) matches RetryStep::WaitThenRetry(secs) ==> {
            &&& 1 <= secs <= MAX_RETRY_WAIT_SECS
            &&& spec_backoff(i) matches Some(b) ==> b <= secs
        },
{
}

/// With no stated reset, the waits are the increasing schedule 1s then 2s.
pub proof fn law_unstated_reset_follows_backoff(forge: crate::resolution::Forge)
    ensures
        spec_next_step(
            ResolutionError::RateLimited { forge, retry_after: RetryAfter::Unstated },
            0,
        ) == RetryStep::WaitThenRetry(1),
        spec_next_step(
            ResolutionError::RateLimited { forge, retry_after: RetryAfter::Unstated },
            1,
        ) == RetryStep::WaitThenRetry(2),
{
}

/// When every attempt is rate limited with no stated reset, the loop makes
/// exactly `MAX_ATTEMPTS` attempts, waits 1s then 2s between them, and returns
/// the last failure.
pub proof fn law_persistent_rate_limit_is_bounded<T>(
    errs: Seq<ResolutionError>,
    r: Result<T, ResolutionError>,
    forge: crate::resolution::Forge,
)
    requires
        retried(errs, r),
        forall|i: int| 0 <= i < errs.len() ==> #[trigger] errs[i] == (ResolutionError::RateLimited {
            forge,
            retry_after: RetryAfter::Unstated,
        }),
        (r is Err),
    ensures
        errs.len() == MAX_ATTEMPTS,
        spec_next_step(errs[0], 0) == RetryStep::WaitThenRetry(1),
        spec_next_step(errs[1], 1) == RetryStep::WaitThenRetry(2),
        r == Err::<T, ResolutionError>(errs[2]),
{
    lemma_retried_is_bounded(errs, r);
    let n = errs.len() - 1;
    assert(errs[n] == ResolutionError::RateLimited { forge, retry_after: RetryAfter::Unstated });
    if n == 0 {
        assert(spec_next_step(errs[0], 0) == RetryStep::WaitThenRetry(1));
    } else if n == 1 {
        assert(spec_next_step(errs[1], 1) == RetryStep::WaitThenRetry(2));
    }
    assert(errs[0] == ResolutionError::RateLimited { forge, retry_after: RetryAfter::Unstated });
    assert(errs[1] == ResolutionError::RateLimited { forge, retry_after: RetryAfter::Unstated });
}

/// A first failure that is not a rate limit ends the loop: it is the one
/// attempt made, and its failure is returned.
pub proof fn law_non_retryable_first_failure_is_returned<T>(
    errs: Seq<ResolutionError>,
    r: Result<T, ResolutionError>,
)
    requires
        retried(errs, r),
        errs.len() >= 1,
        !errs[0].spec_is_retryable(),
    ensures
        errs.len() == 1,
        r == Err::<T, ResolutionError>(errs[0]),
{
    assert(!(spec_next_step(errs[0], 0) is WaitThenRetry));
    if r is Ok {
        assert(spec_next_step(errs[0], 0) is WaitThenRetry);
    } else if errs.len() > 1 {
        assert(spec_next_step(errs[0], 0) is WaitThenRetry);
    }
}

} // verus!
