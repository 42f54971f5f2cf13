//! Retry policy: how many attempts an operation gets and how long to wait
//! between them.
use vstd::prelude::*;

verus! {

pub struct RetryPolicy {
    pub attempts: usize,
    pub base_delay_ms: u64,
    pub max_delay_ms: u64,
}

impl Default for RetryPolicy {
    fn default() -> (res: Self)
        ensures
            res.attempts == 3,
            res.base_delay_ms == 500,
            res.max_delay_ms == 5000,
    {
        RetryPolicy { attempts: 3, base_delay_ms: 500, max_delay_ms: 5_000 }
    }
}

/// `2_u64.saturating_pow(e)`.
pub open spec fn pow2_sat(e: nat) -> nat
    decreases e,
{
    if e == 0 {
        1
    } else {
        let p = 2 * pow2_sat((e - 1) as nat);
        if p > u64::MAX {
            u64::MAX as nat
        } else {
            p
        }
    }
}

/// `a.saturating_mul(b)` on `u64`.
pub open spec fn mul_sat(a: nat, b: nat) -> nat {
    if a * b > u64::MAX {
        u64::MAX as nat
    } else {
        a * b
    }
}

/// The wait after failed attempt number `attempt` (counting from 0): the
/// base delay doubled once per earlier attempt, saturating, capped at the
/// maximum. The attempt number is taken as a `u32`, as the exponent is.
pub open spec fn delay_spec(p: RetryPolicy, attempt: usize) -> nat {
    let d = mul_sat(p.base_delay_ms as nat, pow2_sat((attempt as u32) as nat));
    if d < p.max_delay_ms {
        d
    } else {
        p.max_delay_ms as nat
    }
}

pub proof fn lemma_pow2_sat_bounds(e: nat)
    ensures
        1 <= pow2_sat(e) <= u64::MAX,
    decreases e,
{
    if e > 0 {
        lemma_pow2_sat_bounds((e - 1) as nat);
    }
}

fn pow2_saturating(e: u32) -> (res: u64)
    ensures
        res == pow2_sat(e as nat),
{
    let mut r: u64 = 1;
    let mut k: u32 = 0;
    while k < e
        invariant
            k <= e,
            r == pow2_sat(k as nat),
        decreases e - k,
    {
        if r > u64::MAX / 2 {
            proof {
                assert forall|j: nat| k < j <= e implies pow2_sat(j) == u64::MAX by {
                    lemma_sat_stays(k as nat, j);
                }
            }
            return u64::MAX;
        }
        r = r * 2;
        k = k + 1;
    }
    r
}

proof fn lemma_sat_stays(k: nat, j: nat)
    requires
        k < j,
        pow2_sat(k) > u64::MAX / 2,
    ensures
        pow2_sat(j) == u64::MAX,
    decreases j - k,
{
    lemma_pow2_sat_bounds(k);
    if j > k + 1 {
        lemma_sat_stays(k, (j - 1) as nat);
    }
}

/// How long to wait after failed attempt number `attempt`.
pub fn retry_delay_ms(policy: &RetryPolicy, attempt: usize) -> (res: u64)
    ensures
        res == delay_spec(*policy, attempt),
{
    let e = attempt as u32;
    let p = pow2_saturating(e);
    let d = match policy.base_delay_ms.checked_mul(p) {
        Some(v) => v,
        None => u64::MAX,
    };
    if d < policy.max_delay_ms {
        d
    } else {
        policy.max_delay_ms
    }
}

/// What to do after an attempt failed.
#[derive(Debug, Clone, Copy, PartialEq, Eq, Structural)]
pub enum RetryAction {
    /// Wait this many milliseconds, then try again.
    SleepThenRetry(u64),
    /// No attempts are left: give up with the last error.
    GiveUp,
}

/// The decision after failed attempt number `attempt`: another attempt
/// follows, after the policy's delay, while attempts remain.
pub fn after_failure(policy: &RetryPolicy, attempt: usize) -> (res: RetryAction)
    ensures
        attempt + 1 < policy.attempts ==> res == RetryAction::SleepThenRetry(
            delay_spec(*policy, attempt) as u64,
        ),
        attempt + 1 >= policy.attempts ==> res == RetryAction::GiveUp,
{
    if attempt < policy.attempts && attempt + 1 < policy.attempts {
        RetryAction::SleepThenRetry(retry_delay_ms(policy, attempt))
    } else {
        RetryAction::GiveUp
    }
}

/// No wait ever exceeds the policy's maximum delay.
pub proof fn law_delay_capped(p: RetryPolicy, attempt: usize)
    ensures
        delay_spec(p, attempt) <= p.max_delay_ms,
{
}

/// Waits never shrink from one attempt to the next (while the attempt
/// number fits the exponent's `u32`).
pub proof fn law_delay_monotone(p: RetryPolicy, a: usize, b: usize)
    requires
        a <= b <= u32::MAX,
    ensures
        delay_spec(p, a) <= delay_spec(p, b),
{
    lemma_pow2_sat_monotone(a as nat, b as nat);
    lemma_pow2_sat_bounds(a as nat);
    lemma_pow2_sat_bounds(b as nat);
    let x = p.base_delay_ms as nat;
    let pa = pow2_sat(a as nat);
    let pb = pow2_sat(b as nat);
    assert(x * pa <= x * pb) by (nonlinear_arith)
        requires
            pa <= pb,
    ;
}

proof fn lemma_pow2_sat_monotone(a: nat, b: nat)
    requires
        a <= b,
    ensures
        pow2_sat(a) <= pow2_sat(b),
    decreases b - a,
{
    if a < b {
        lemma_pow2_sat_monotone(a, (b - 1) as nat);
        lemma_pow2_sat_bounds((b - 1) as nat);
    }
}

} // verus!
