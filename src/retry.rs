//! One retry policy for every layer that retries: a number of attempts and
//! an exponential delay between them.

use vstd::prelude::*;

verus! {

/// `b` to the power `e`.
pub open spec fn power(b: nat, e: nat) -> nat
    decreases e,
{
    if e == 0 {
        1
    } else {
        b * power(b, (e - 1) as nat)
    }
}

proof fn lemma_power_monotone(b: nat, e1: nat, e2: nat)
    requires
        b >= 1,
        e1 <= e2,
    ensures
        power(b, e1) <= power(b, e2),
        power(b, e1) >= 1,
    decreases e2,
{
    if e2 > 0 {
        if e1 < e2 {
            lemma_power_monotone(b, e1, (e2 - 1) as nat);
            assert(power(b, (e2 - 1) as nat) <= b * power(b, (e2 - 1) as nat)) by (nonlinear_arith)
                requires
                    b >= 1,
                    power(b, (e2 - 1) as nat) >= 1,
            ;
        } else {
            lemma_power_monotone(b, (e1 - 1) as nat, (e2 - 1) as nat);
            assert(b * power(b, (e1 - 1) as nat) >= 1) by (nonlinear_arith)
                requires
                    b >= 1,
                    power(b, (e1 - 1) as nat) >= 1,
            ;
        }
    }
}

/// How many attempts an operation gets and how long to wait between them.
#[derive(Debug, Clone, Copy, PartialEq, Eq, Structural)]
pub struct RetryPolicy {
    /// Attempts in all, the first one included.
    pub max_attempts: u32,
    /// The base of the exponential delay, in seconds.
    pub base_delay_secs: u64,
    /// The largest exponent the delay grows to.
    pub max_exponent: u32,
}

/// What to do after a failed attempt.
#[derive(Debug, Clone, Copy, PartialEq, Eq, Structural)]
pub enum RetryDecision {
    /// Wait this many seconds, then try again.
    RetryAfter(u64),
    /// The attempts are spent: report the failure.
    GiveUp,
}

impl RetryPolicy {
    /// The largest delay fits in 64 bits.
    pub open spec fn wf(&self) -> bool {
        self.base_delay_secs >= 1 && power(self.base_delay_secs as nat, self.max_exponent as nat)
            <= u64::MAX
    }

    /// The delay after the `failures`-th failure: the base to the power of
    /// the failure count, the exponent capped.
    pub open spec fn delay_spec(&self, failures: nat) -> nat {
        let e = if failures <= self.max_exponent {
            failures
        } else {
            self.max_exponent as nat
        };
        power(self.base_delay_secs as nat, e)
    }

    /// What follows the `failures`-th failure in a row.
    pub open spec fn decide_spec(&self, failures: nat) -> RetryDecision {
        if failures >= self.max_attempts {
            RetryDecision::GiveUp
        } else {
            RetryDecision::RetryAfter(self.delay_spec(failures) as u64)
        }
    }

    /// Probing a resource: the first attempt and up to three retries,
    /// waiting 2 s, 4 s and 8 s before them.
    pub fn probe() -> (r: RetryPolicy)
        ensures
            r.wf(),
            r.max_attempts == 4,
            r.base_delay_secs == 2,
            r.max_exponent == 3,
    {
        let r = RetryPolicy { max_attempts: 4, base_delay_secs: 2, max_exponent: 3 };
        proof {
            reveal_with_fuel(power, 6);
            assert(power(2, 3) == 8);
        }
        r
    }

    /// Fetching one segment, and a whole single-stream transfer alike: the
    /// first attempt and up to ten retries, the delay doubling from 2 s and
    /// capped at 32 s.
    pub fn segment() -> (r: RetryPolicy)
        ensures
            r.wf(),
            r.max_attempts == 11,
            r.base_delay_secs == 2,
            r.max_exponent == 5,
    {
        let r = RetryPolicy { max_attempts: 11, base_delay_secs: 2, max_exponent: 5 };
        proof {
            reveal_with_fuel(power, 6);
            assert(power(2, 5) == 32);
        }
        r
    }

    /// The decision after the `failures`-th failure in a row.
    pub fn after_failure(&self, failures: u32) -> (r: RetryDecision)
        requires
            self.wf(),
        ensures
            r == self.decide_spec(failures as nat),
    {
        if failures >= self.max_attempts {
            return RetryDecision::GiveUp;
        }
        let e = if failures <= self.max_exponent {
            failures
        } else {
            self.max_exponent
        };
        let mut d: u64 = 1;
        let mut k: u32 = 0;
        while k < e
            invariant
                k <= e <= self.max_exponent,
                self.wf(),
                d == power(self.base_delay_secs as nat, k as nat),
            decreases e - k,
        {
            proof {
                lemma_power_monotone(self.base_delay_secs as nat, (k + 1) as nat, self.max_exponent as nat);
                let b = self.base_delay_secs as nat;
                assert(power(b, (k + 1) as nat) == b * power(b, k as nat));
                assert(d * self.base_delay_secs == b * power(b, k as nat)) by (nonlinear_arith)
                    requires
                        d == power(b, k as nat),
                        b == self.base_delay_secs,
                ;
            }
            d = d * self.base_delay_secs;
            k = k + 1;
        }
        RetryDecision::RetryAfter(d)
    }
}

} // verus!
