use vstd::arithmetic::power::pow;
use vstd::math::min;
use vstd::prelude::*;
use vstd::string::StrSliceExecFns;

verus! {

/// Relies on tokio_retry2's ExponentialBackoff, started at `base_ms` with
/// the default factor and capped by `max_delay_ms`: its `attempt`-th wait
/// (counting from 0) is `base_ms` to the power `attempt + 1`, in
/// milliseconds, or the cap when that is larger.
#[verifier::external_body]
fn exponential_wait_ms(base_ms: u64, max_delay_ms: u64, attempt: u32) -> (r: u64)
    ensures
        r == min(pow(base_ms as int, (attempt + 1) as nat), max_delay_ms as int),
{
    let mut strategy = tokio_retry2::strategy::ExponentialBackoff::from_millis(base_ms)
        .max_delay_millis(max_delay_ms);
    strategy.nth(attempt as usize).unwrap().as_millis() as u64
}

/// Longest wait, in milliseconds, that is jittered: up to it the float
/// arithmetic of `jitter` is exact to well under a millisecond.
pub const MAX_JITTERED_WAIT_MS: u64 = 4294967296;

/// Relies on tokio_retry2::strategy::jitter, which multiplies a wait by
/// `0.5 + x` for a random `x` in [0, 1); the result is read back in whole
/// milliseconds, rounded down.
#[verifier::external_body]
fn jittered_ms(wait_ms: u64) -> (r: u64)
    requires
        wait_ms <= MAX_JITTERED_WAIT_MS,
    ensures
        wait_ms <= 2 * r + 2,
        r <= wait_ms + wait_ms / 2,
{
    tokio_retry2::strategy::jitter(std::time::Duration::from_millis(wait_ms)).as_millis() as u64
}

/// How a call that failed for a passing reason is retried: exponential
/// waits from `base_ms`, each capped at `max_delay_ms` and then jittered,
/// and at most `max_retries` retries.
#[derive(Clone, Copy, Debug, PartialEq, Eq, Structural)]
pub struct RetryPolicy {
    pub base_ms: u64,
    pub max_delay_ms: u64,
    pub max_retries: u32,
}

/// Base wait of the default policies, in milliseconds.
pub const RETRY_BASE_MS: u64 = 10;

/// Cap on one wait of the default policies, in milliseconds.
pub const RETRY_MAX_DELAY_MS: u64 = 100;

/// Retries of a listing page fetch or a file transfer.
pub const PAGE_RETRIES: u32 = 15;

/// Retries of a size probe, where passing failures are common.
pub const PROBE_RETRIES: u32 = 150;

impl RetryPolicy {
    /// The policy for listing pages and file transfers.
    pub fn for_pages() -> (r: RetryPolicy)
        ensures
            r == (RetryPolicy {
                base_ms: RETRY_BASE_MS,
                max_delay_ms: RETRY_MAX_DELAY_MS,
                max_retries: PAGE_RETRIES,
            }),
    {
        RetryPolicy {
            base_ms: RETRY_BASE_MS,
            max_delay_ms: RETRY_MAX_DELAY_MS,
            max_retries: PAGE_RETRIES,
        }
    }

    /// The policy for size probes.
    pub fn for_size_probes() -> (r: RetryPolicy)
        ensures
            r == (RetryPolicy {
                base_ms: RETRY_BASE_MS,
                max_delay_ms: RETRY_MAX_DELAY_MS,
                max_retries: PROBE_RETRIES,
            }),
    {
        RetryPolicy {
            base_ms: RETRY_BASE_MS,
            max_delay_ms: RETRY_MAX_DELAY_MS,
            max_retries: PROBE_RETRIES,
        }
    }

    /// The wait before retry `retry + 1`, before jitter.
    pub open spec fn base_wait(self, retry: nat) -> int {
        min(pow(self.base_ms as int, retry + 1), self.max_delay_ms as int)
    }
}

/// The retries made so far for one call under one policy.
#[derive(Clone, Copy, Debug, PartialEq, Eq, Structural)]
pub struct RetrySchedule {
    pub policy: RetryPolicy,
    pub retries: u32,
}

impl RetrySchedule {
    /// No retry made yet.
    pub fn new(policy: RetryPolicy) -> (r: RetrySchedule)
        ensures
            r.policy == policy,
            r.retries == 0,
    {
        RetrySchedule { policy, retries: 0 }
    }

    /// After a passing failure: the wait before the next attempt, or `None`
    /// once the retries are spent, when the failure is final. The wait is the policy's
    /// exponential wait for this retry, jittered to between half and one and
    /// a half times it (in whole milliseconds).
    pub fn next_wait(&mut self) -> (r: Option<u64>)
        requires
            old(self).policy.max_delay_ms <= MAX_JITTERED_WAIT_MS,
        ensures
            final(self).policy == old(self).policy,
            old(self).retries >= old(self).policy.max_retries ==> r is None && *final(self)
                == *old(self),
            old(self).retries < old(self).policy.max_retries ==> r is Some && final(self).retries
                == old(self).retries + 1 && old(self).policy.base_wait(old(self).retries as nat)
                <= 2 * r->0 + 2 && r->0 <= old(self).policy.base_wait(old(self).retries as nat)
                + old(self).policy.base_wait(old(self).retries as nat) / 2,
    {
        if self.retries >= self.policy.max_retries {
            return None;
        }
        let wait = exponential_wait_ms(self.policy.base_ms, self.policy.max_delay_ms, self.retries);
        self.retries = self.retries + 1;
        Some(jittered_ms(wait))
    }
}

/// An HTTP status that counts as success.
pub open spec fn is_success(status: u16) -> bool {
    200 <= status <= 299
}

/// Whether `status` counts as success; any other status is a passing
/// failure and is retried.
pub fn is_success_status(status: u16) -> (r: bool)
    ensures
        r == is_success(status),
{
    200 <= status && status <= 299
}

/// The decimal value of a string of digits.
pub open spec fn decimal_value(s: Seq<char>) -> int
    decreases s.len(),
{
    if s.len() == 0 {
        0
    } else {
        decimal_value(s.drop_last()) * 10 + (s.last() as int - '0' as int)
    }
}

/// Every character is an ASCII digit.
pub open spec fn all_digits(s: Seq<char>) -> bool {
    forall|i: int| 0 <= i < s.len() ==> '0' <= #[trigger] s[i] <= '9'
}

/// One or more digits whose value fits in a `u64`.
pub open spec fn digits_value(s: Seq<char>) -> Option<u64> {
    if s.len() > 0 && all_digits(s) && decimal_value(s) <= u64::MAX {
        Some(decimal_value(s) as u64)
    } else {
        None
    }
}

/// A `Content-Length` value read as a byte count, as `u64`'s `from_str`
/// reads it: an optional `+`, then one or more digits whose value fits in a
/// `u64`.
pub open spec fn content_length_value(s: Seq<char>) -> Option<u64> {
    if s.len() > 0 && s[0] == '+' {
        digits_value(s.drop_first())
    } else {
        digits_value(s)
    }
}

/// Reads a `Content-Length` header value.
pub fn parse_content_length(s: &str) -> (r: Option<u64>)
    ensures
        r == content_length_value(s@),
{
    let n = s.unicode_len();
    if n > 0 && s.get_char(0) == '+' {
        let rest = s.substring_char(1, n);
        assert(rest@ =~= s@.drop_first());
        parse_digits(rest)
    } else {
        parse_digits(s)
    }
}

/// Reads one or more decimal digits as a `u64`.
fn parse_digits(s: &str) -> (r: Option<u64>)
    ensures
        r == digits_value(s@),
{
    let n = s.unicode_len();
    if n == 0 {
        return None;
    }
    let mut value: u64 = 0;
    let mut i: usize = 0;
    while i < n
        invariant
            n == s@.len(),
            i <= n,
            all_digits(s@.subrange(0, i as int)),
            value == decimal_value(s@.subrange(0, i as int)),
        decreases n - i,
    {
        let c = s.get_char(i);
        let ghost before = s@.subrange(0, i as int);
        let ghost upto = s@.subrange(0, i as int + 1);
        assert(upto.drop_last() =~= before);
        if c < '0' || c > '9' {
            assert(!all_digits(s@)) by {
                assert(s@[i as int] == c);
            }
            return None;
        }
        let digit = (c as u32 - '0' as u32) as u64;
        if value > (u64::MAX - digit) / 10 {
            proof {
                lemma_decimal_grows(s@, i as int + 1);
            }
            return None;
        }
        value = value * 10 + digit;
        i = i + 1;
    }
    assert(s@.subrange(0, n as int) =~= s@);
    Some(value)
}

/// The value of a digit string is at least the value of any prefix.
proof fn lemma_decimal_grows(s: Seq<char>, k: int)
    requires
        0 <= k <= s.len(),
    ensures
        all_digits(s) ==> decimal_value(s) >= decimal_value(s.subrange(0, k)),
    decreases s.len() - k,
{
    if k < s.len() {
        lemma_decimal_grows(s, k + 1);
        if all_digits(s) {
            let a = s.subrange(0, k + 1);
            assert(a.drop_last() =~= s.subrange(0, k));
            assert(decimal_value(s.subrange(0, k)) >= 0) by {
                lemma_decimal_nonneg(s.subrange(0, k));
            }
            assert('0' <= s[k] <= '9');
        }
    } else {
        assert(s.subrange(0, k) =~= s);
    }
}

/// A digit string's value is not negative.
proof fn lemma_decimal_nonneg(s: Seq<char>)
    requires
        all_digits(s),
    ensures
        decimal_value(s) >= 0,
    decreases s.len(),
{
    if s.len() > 0 {
        assert(all_digits(s.drop_last())) by {
            assert forall|i: int| 0 <= i < s.drop_last().len() implies '0' <= #[trigger] s.drop_last()[i] <= '9' by {
                assert(s.drop_last()[i] == s[i]);
            }
        }
        lemma_decimal_nonneg(s.drop_last());
        assert('0' <= s[s.len() - 1] <= '9');
    }
}

/// What a size probe found: with a success status, the `Content-Length`
/// header's value when there is one that reads as a byte count, else 0;
/// with any other status, `None`, a passing failure to retry.
pub fn probe_size(status: u16, content_length: Option<&str>) -> (r: Option<u64>)
    ensures
        !is_success(status) ==> r is None,
        is_success(status) ==> r == Some(
            match content_length {
                Some(text) => match content_length_value(text@) {
                    Some(n) => n,
                    None => 0u64,
                },
                None => 0u64,
            },
        ),
{
    if !is_success_status(status) {
        return None;
    }
    match content_length {
        Some(text) => match parse_content_length(text) {
            Some(n) => Some(n),
            None => Some(0),
        },
        None => Some(0),
    }
}

} // verus!
