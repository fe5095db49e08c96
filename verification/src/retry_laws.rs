//! What retrying promises, over all replies.

use vstd::prelude::*;

use crate::retry::{
    retry_seconds, spoils_token, step_after, GiveUp, Reply, RequestStats, RetryPolicy, Step,
};
use crate::text::{decimal, is_digit};
use crate::text_laws::law_decimal_reads_back;

verus! {

/// What each answer leads to. A success is read. Too many requests, a failing
/// server and a dead line are tried again while tries are left; so is a refused
/// token, with a new one, where there is one to be had. Everything else, and all
/// of it once no tries are left, is given up for its own reason.
pub proof fn law_what_each_reply_leads_to(
    policy: RetryPolicy,
    attempt: u32,
    status: u16,
    after: Option<u64>,
)
    ensures
        ({
            let step = step_after(policy, attempt, Reply::Answered { status, retry_after: after });
            let left = attempt < policy.max_retries;
            let renews = status == 401 && policy.renews_token;
            &&& step is Read <==> 200 <= status <= 299
            &&& step is Again <==> left && (status == 429 || status >= 500)
            &&& step is AgainWithNewToken <==> left && renews
            &&& step == Step::Fail(GiveUp::RateLimited) <==> !left && status == 429
            &&& step == Step::Fail(GiveUp::Unauthorized) <==> !left && renews
            &&& step == Step::Fail(GiveUp::Refused) <==> !(200 <= status <= 299) && status != 429
                && !renews && !(left && status >= 500)
            &&& step != Step::Fail(GiveUp::Unreachable)
        }),
        ({
            let step = step_after(policy, attempt, Reply::Unreachable);
            &&& attempt < policy.max_retries ==> step is Again
            &&& attempt >= policy.max_retries ==> step == Step::Fail(GiveUp::Unreachable)
        }),
{
}

/// How long is waited: one second more than a service that is asked too often
/// says, and three when it does not say; and longer from try to try, half a
/// second at a time for a failing server and less for a dead line.
pub proof fn law_how_long_is_waited(policy: RetryPolicy, attempt: u32, status: u16, after: Option<u64>)
    requires
        attempt < policy.max_retries,
    ensures
        ({
            let step = step_after(policy, attempt, Reply::Answered { status: 429, retry_after: after });
            &&& after is None ==> step == Step::Again { wait_ms: 3_000 }
            &&& after matches Some(s) ==> (s < 18_000_000_000_000_000 ==> (step matches Step::Again {
                wait_ms,
            } && wait_ms == 1_000 * s + 1_000))
            &&& after matches Some(s) ==> (s >= 18_446_744_073_709_552 ==> step == Step::Again {
                wait_ms: u64::MAX,
            })
        }),
        status >= 500 ==> (step_after(
            policy,
            attempt,
            Reply::Answered { status, retry_after: after },
        ) matches Step::Again { wait_ms } && wait_ms == 500 * attempt + 500),
        step_after(policy, attempt, Reply::Unreachable) matches Step::Again { wait_ms } && wait_ms
            == 400 * attempt + 400,
{
}

/// A token is dropped exactly when it was refused and there is another to be had.
pub proof fn law_refused_token_is_dropped(policy: RetryPolicy, reply: Reply)
    ensures
        spoils_token(policy, reply) <==> policy.renews_token && (reply matches Reply::Answered {
            status,
            ..
        } && status == 401),
{
}

/// Every request is counted once; one that was told to wait as such; and one that
/// did not get through and is tried again, or was refused for good, as an error.
pub proof fn law_requests_are_counted(
    stats: RequestStats,
    policy: RetryPolicy,
    attempt: u32,
    reply: Reply,
)
    requires
        stats.requests < u64::MAX,
        stats.rate_limited < u64::MAX,
        stats.errors < u64::MAX,
    ensures
        ({
            let after = stats.after(policy, attempt, reply);
            let told_to_wait = reply matches Reply::Answered { status, .. } && status == 429;
            let lost = reply is Unreachable && attempt < policy.max_retries;
            let refused = step_after(policy, attempt, reply) == Step::Fail(GiveUp::Refused);
            &&& after.requests == stats.requests + 1
            &&& after.rate_limited == stats.rate_limited + if told_to_wait {
                1
            } else {
                0int
            }
            &&& after.errors == stats.errors + if lost || refused {
                1
            } else {
                0int
            }
        }),
{
}

/// A number of seconds is read as it is written, and anything but digits is no
/// number, one plus sign in front aside.
pub proof fn law_seconds_are_read(n: u64, text: Seq<char>, i: int)
    ensures
        retry_seconds(Some(decimal(n as nat))) == Some(n),
        retry_seconds(None) is None,
        0 < i < text.len() && !('0' <= text[i] <= '9') ==> retry_seconds(Some(text)) is None,
        text.len() == 0 ==> retry_seconds(Some(text)) is None,
{
    law_decimal_reads_back(n as nat);
    let d = decimal(n as nat);
    assert(is_digit(d[0]));
    if 0 < i < text.len() && !('0' <= text[i] <= '9') {
        assert(!is_digit(text[i]));
        assert(text.drop_first()[i - 1] == text[i]);
    }
}

} // verus!
