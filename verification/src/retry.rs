//! What to do with the reply to a request: read it, ask again, or give up.

use vstd::prelude::*;

use crate::text::{chars_of, decimal, parse_unsigned, push_decimal, string_from, unsigned_number};

verus! {

/// How often a service is asked again, and whether a refused token is dropped
/// and the request repeated with a new one.
#[derive(Debug, Clone, Copy, PartialEq, Eq, Structural)]
pub struct RetryPolicy {
    pub max_retries: u32,
    pub renews_token: bool,
}

/// How a request went.
#[derive(Debug, Clone, Copy, PartialEq, Eq, Structural)]
pub enum Reply {
    /// It did not get through.
    Unreachable,
    /// It was answered with this status, and perhaps the seconds to wait.
    Answered { status: u16, retry_after: Option<u64> },
}

/// Why no more is tried.
#[derive(Debug, Clone, Copy, PartialEq, Eq, Structural)]
pub enum GiveUp {
    Unreachable,
    RateLimited,
    Unauthorized,
    /// Any other status that is no success.
    Refused,
}

/// What to do next.
#[derive(Debug, Clone, Copy, PartialEq, Eq, Structural)]
pub enum Step {
    /// Ask again, after this many milliseconds.
    Again { wait_ms: u64 },
    /// Ask again at once, with a new token.
    AgainWithNewToken,
    /// Read the answer.
    Read,
    Fail(GiveUp),
}

/// Seconds to wait when a service that is asked too often does not say.
pub const DEFAULT_RETRY_AFTER: u64 = 2;

/// The seconds in a `Retry-After` header, if it holds a number.
pub open spec fn retry_seconds(header: Option<Seq<char>>) -> Option<u64> {
    match header {
        Some(h) => unsigned_number(h),
        None => None,
    }
}

/// The seconds in a `Retry-After` header, if it holds a number.
pub fn retry_after(header: Option<&str>) -> (r: Option<u64>)
    ensures
        r == retry_seconds(
            match header {
                Some(h) => Some(h@),
                None => None,
            },
        ),
{
    match header {
        Some(h) => {
            let chars = chars_of(h);
            parse_unsigned(chars.as_slice())
        },
        None => None,
    }
}

/// One second more than was asked for, in milliseconds.
pub open spec fn patience(retry_after: Option<u64>) -> u64 {
    let seconds: int = match retry_after {
        Some(s) => s as int,
        None => DEFAULT_RETRY_AFTER as int,
    };
    if (seconds + 1) * 1000 <= u64::MAX {
        ((seconds + 1) * 1000) as u64
    } else {
        u64::MAX
    }
}

/// What to do after a reply, `attempt` retries having been made already.
pub open spec fn step_after(policy: RetryPolicy, attempt: u32, reply: Reply) -> Step {
    let may_retry = attempt < policy.max_retries;
    match reply {
        Reply::Unreachable => if may_retry {
            Step::Again { wait_ms: (400 * (attempt + 1)) as u64 }
        } else {
            Step::Fail(GiveUp::Unreachable)
        },
        Reply::Answered { status, retry_after } => if status == 429 {
            if may_retry {
                Step::Again { wait_ms: patience(retry_after) }
            } else {
                Step::Fail(GiveUp::RateLimited)
            }
        } else if status == 401 && policy.renews_token {
            if may_retry {
                Step::AgainWithNewToken
            } else {
                Step::Fail(GiveUp::Unauthorized)
            }
        } else if status >= 500 && may_retry {
            Step::Again { wait_ms: (500 * (attempt + 1)) as u64 }
        } else if 200 <= status < 300 {
            Step::Read
        } else {
            Step::Fail(GiveUp::Refused)
        },
    }
}

/// What to do after a reply, `attempt` retries having been made already.
pub fn next_step(policy: RetryPolicy, attempt: u32, reply: Reply) -> (r: Step)
    ensures
        r == step_after(policy, attempt, reply),
{
    let may_retry: bool = attempt < policy.max_retries;
    match reply {
        Reply::Unreachable => {
            if may_retry {
                Step::Again { wait_ms: 400 * (attempt as u64 + 1) }
            } else {
                Step::Fail(GiveUp::Unreachable)
            }
        },
        Reply::Answered { status, retry_after } => {
            if status == 429 {
                if may_retry {
                    let seconds: u64 = match retry_after {
                        Some(s) => s,
                        None => DEFAULT_RETRY_AFTER,
                    };
                    let ms: u128 = (seconds as u128 + 1) * 1000;
                    let wait_ms: u64 = if ms <= 0xffff_ffff_ffff_ffff {
                        ms as u64
                    } else {
                        0xffff_ffff_ffff_ffff
                    };
                    Step::Again { wait_ms }
                } else {
                    Step::Fail(GiveUp::RateLimited)
                }
            } else if status == 401 && policy.renews_token {
                if may_retry {
                    Step::AgainWithNewToken
                } else {
                    Step::Fail(GiveUp::Unauthorized)
                }
            } else if status >= 500 && may_retry {
                Step::Again { wait_ms: 500 * (attempt as u64 + 1) }
            } else if 200 <= status && status < 300 {
                Step::Read
            } else {
                Step::Fail(GiveUp::Refused)
            }
        },
    }
}

/// Whether the token in use must not be used again.
pub open spec fn spoils_token(policy: RetryPolicy, reply: Reply) -> bool {
    &&& policy.renews_token
    &&& reply matches Reply::Answered { status, .. }
    &&& status == 401
}

/// Whether the token in use must not be used again.
pub fn drops_token(policy: RetryPolicy, reply: Reply) -> (r: bool)
    ensures
        r == spoils_token(policy, reply),
{
    match reply {
        Reply::Answered { status, retry_after: _ } => policy.renews_token && status == 401,
        Reply::Unreachable => false,
    }
}

/// How often a service was asked, told to wait, and failed to deliver.
#[derive(Debug, Clone, Copy, PartialEq, Eq, Structural)]
pub struct RequestStats {
    pub requests: u64,
    pub rate_limited: u64,
    pub errors: u64,
}

impl Default for RequestStats {
    fn default() -> (r: Self)
        ensures
            r == (RequestStats { requests: 0, rate_limited: 0, errors: 0 }),
    {
        RequestStats { requests: 0, rate_limited: 0, errors: 0 }
    }
}

/// One more, starting over at the end of the range.
pub open spec fn one_more(n: u64) -> u64 {
    if n == u64::MAX {
        0
    } else {
        (n + 1) as u64
    }
}

fn increment(n: u64) -> (r: u64)
    ensures
        r == one_more(n),
{
    if n == u64::MAX {
        0
    } else {
        n + 1
    }
}

/// Whether the reply to a request counts as an error: it did not get through
/// and is tried again, or it was refused for good.
pub open spec fn counts_as_error(policy: RetryPolicy, attempt: u32, reply: Reply) -> bool {
    ||| reply is Unreachable && attempt < policy.max_retries
    ||| step_after(policy, attempt, reply) == Step::Fail(GiveUp::Refused)
}

impl RequestStats {
    /// The counts after one more request and the reply to it.
    pub open spec fn after(self, policy: RetryPolicy, attempt: u32, reply: Reply) -> RequestStats {
        RequestStats {
            requests: one_more(self.requests),
            rate_limited: if reply matches Reply::Answered { status, .. } && status == 429 {
                one_more(self.rate_limited)
            } else {
                self.rate_limited
            },
            errors: if counts_as_error(policy, attempt, reply) {
                one_more(self.errors)
            } else {
                self.errors
            },
        }
    }

    /// Counts a request and the reply to it.
    pub fn record(&mut self, policy: RetryPolicy, attempt: u32, reply: Reply)
        ensures
            *final(self) == old(self).after(policy, attempt, reply),
    {
        self.requests = increment(self.requests);
        match reply {
            Reply::Unreachable => {
                if attempt < policy.max_retries {
                    self.errors = increment(self.errors);
                }
            },
            Reply::Answered { status, retry_after: _ } => {
                if status == 429 {
                    self.rate_limited = increment(self.rate_limited);
                }
                if next_step(policy, attempt, reply) == Step::Fail(GiveUp::Refused) {
                    self.errors = increment(self.errors);
                }
            },
        }
    }
}

/// Whether the request is made again.
pub open spec fn asks_again(step: Step) -> bool {
    step is Again || step is AgainWithNewToken
}

/// How many retries a run of replies causes, one for each reply that is
/// followed by another request.
pub open spec fn retries(policy: RetryPolicy, replies: Seq<Reply>) -> nat
    decreases replies.len(),
{
    if replies.len() == 0 {
        0
    } else {
        let before = retries(policy, replies.drop_last());
        if before == replies.len() - 1 && asks_again(
            step_after(policy, before as u32, replies.last()),
        ) {
            before + 1
        } else {
            before
        }
    }
}

/// A request is repeated at most as often as its policy allows, whatever the
/// replies are: a service that never recovers is given up on.
pub proof fn law_retries_are_bounded(policy: RetryPolicy, replies: Seq<Reply>)
    ensures
        retries(policy, replies) <= policy.max_retries,
        retries(policy, replies) <= replies.len(),
    decreases replies.len(),
{
    if replies.len() > 0 {
        law_retries_are_bounded(policy, replies.drop_last());
    }
}

/// Once its retries are used up a request is not repeated.
pub proof fn law_no_retry_beyond_the_last(policy: RetryPolicy, attempt: u32, reply: Reply)
    requires
        attempt >= policy.max_retries,
    ensures
        !asks_again(step_after(policy, attempt, reply)),
{
}

/// An answer is read only when it is a success: no failure passes for a result.
pub proof fn law_only_success_is_read(policy: RetryPolicy, attempt: u32, reply: Reply)
    requires
        step_after(policy, attempt, reply) == Step::Read,
    ensures
        reply matches Reply::Answered { status, .. } && 200 <= status < 300,
{
}

/// A service that says how long to wait is given at least that long.
pub proof fn law_retry_after_is_honoured(
    policy: RetryPolicy,
    attempt: u32,
    seconds: u64,
    wait_ms: u64,
)
    requires
        step_after(policy, attempt, Reply::Answered { status: 429, retry_after: Some(seconds) })
            == (Step::Again { wait_ms }),
        seconds * 1000 <= u64::MAX,
    ensures
        wait_ms >= seconds * 1000,
{
}

/// What is said when a service would not be hurried.
pub fn rate_limit_message(service: &str, policy: RetryPolicy) -> (r: String)
    ensures
        r@ == service@ + " rate limit persisted after "@ + decimal(policy.max_retries as nat)
            + " retries"@,
{
    let mut r = string_from(service);
    r.append(" rate limit persisted after ");
    push_decimal(&mut r, policy.max_retries as u64);
    r.append(" retries");
    r
}

} // verus!
