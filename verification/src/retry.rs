//! The retry policy: exponential backoff up to a bound on re-attempts.
//!
//! The policy itself is a pure decision core.  The asynchronous wrapper
//! around the library performs one real attempt wherever the core counts an
//! invocation, and sleeps for each delay the core hands out.  Retries are
//! bounded by the attempt counter alone: the engine re-attempts any failure
//! until the bound, and exhausting the bound propagates the last failure
//! unchanged.

use vstd::prelude::*;
use vstd::arithmetic::power2::pow2;
use vstd::arithmetic::power2::lemma_pow2_unfold;
use vstd::arithmetic::power2::lemma_pow2_strictly_increases;

verus! {

/// A retry policy: up to `max_retries` re-attempts after a failed attempt,
/// the wait before re-attempt `a + 1` being `base_delay_ms * 2^a`.
#[derive(Debug, Clone, Copy)]
pub struct RetryStrategy {
    /// How many re-attempts may follow the first attempt.
    pub max_retries: u32,
    /// The unit of exponential backoff, in milliseconds.
    pub base_delay_ms: u64,
}

/// How a simulated run of the policy went: see [`RetryStrategy::run`].
#[derive(Debug, Clone, Copy, PartialEq, Eq, Structural)]
pub struct RunReport {
    /// Whether some attempt succeeded before the bound was exhausted.
    pub succeeded: bool,
    /// How many attempts were made.
    pub invocations: u64,
    /// The sum of all waits between attempts, in milliseconds.
    pub total_delay_ms: u128,
}

/// How many invocations the engine makes from attempt number `attempt` on,
/// when `outcomes[i]` says whether invocation `i` succeeds.
pub open spec fn spec_invocations_from(max_retries: int, outcomes: Seq<bool>, attempt: int) -> int
    decreases max_retries - attempt,
{
    if attempt < 0 || attempt >= outcomes.len() || outcomes[attempt] || attempt >= max_retries {
        1
    } else {
        1 + spec_invocations_from(max_retries, outcomes, attempt + 1)
    }
}

/// Whether the engine, from attempt number `attempt` on, reaches a
/// successful invocation before the bound is exhausted.
pub open spec fn spec_run_succeeds(max_retries: int, outcomes: Seq<bool>, attempt: int) -> bool
    decreases max_retries - attempt,
{
    if attempt < 0 || attempt >= outcomes.len() {
        false
    } else if outcomes[attempt] {
        true
    } else if attempt >= max_retries {
        false
    } else {
        spec_run_succeeds(max_retries, outcomes, attempt + 1)
    }
}

/// The total wait, in milliseconds, between the attempts the engine makes
/// from attempt number `attempt` on.
pub open spec fn spec_total_delay(
    base: int,
    max_retries: int,
    outcomes: Seq<bool>,
    attempt: int,
) -> int
    decreases max_retries - attempt,
{
    if attempt < 0 || attempt >= outcomes.len() || outcomes[attempt] || attempt >= max_retries {
        0
    } else {
        base * pow2(attempt as nat) + spec_total_delay(base, max_retries, outcomes, attempt + 1)
    }
}

/// `2^e`, for exponents whose power fits a `u64`.
fn pow2_u64(e: u32) -> (r: u64)
    requires
        pow2(e as nat) <= u64::MAX,
    ensures
        r == pow2(e as nat),
{
    proof {
        vstd::arithmetic::power2::lemma2_to64();
    }
    let mut r: u64 = 1;
    let mut i: u32 = 0;
    while i < e
        invariant
            i <= e,
            r == pow2(i as nat),
            pow2(e as nat) <= u64::MAX,
        decreases e - i,
    {
        proof {
            lemma_pow2_unfold((i + 1) as nat);
            if i + 1 < e {
                lemma_pow2_strictly_increases((i + 1) as nat, e as nat);
            }
        }
        r = r * 2;
        i = i + 1;
    }
    r
}

impl RetryStrategy {
    /// A policy with the given bound and backoff unit.
    pub fn new(max_retries: u32, base_delay_ms: u64) -> (s: RetryStrategy)
        ensures
            s.max_retries == max_retries,
            s.base_delay_ms == base_delay_ms,
    {
        RetryStrategy { max_retries, base_delay_ms }
    }

    /// The wait before re-attempt `attempt + 1`, in milliseconds.
    pub open spec fn spec_delay(&self, attempt: u32) -> int {
        self.base_delay_ms * pow2(attempt as nat)
    }

    /// Every wait the policy can hand out fits a `u64`; the machine limit
    /// under which a run of the policy cannot overflow.
    pub open spec fn delays_fit(&self) -> bool {
        forall|a: u32|
            a < self.max_retries ==> a <= 31 && #[trigger] self.spec_delay(a) <= u64::MAX
    }

    /// The exponential backoff wait after attempt number `attempt` failed:
    /// `base_delay_ms * 2^attempt` milliseconds.
    pub fn calculate_delay(&self, attempt: u32) -> (d: u64)
        requires
            attempt <= 31,
            self.spec_delay(attempt) <= u64::MAX,
        ensures
            d == self.spec_delay(attempt),
    {
        proof {
            vstd::arithmetic::power2::lemma2_to64();
            if attempt < 31 {
                lemma_pow2_strictly_increases(attempt as nat, 31);
            }
        }
        let m = pow2_u64(attempt);
        self.base_delay_ms * m
    }

    /// The engine's decision after attempt number `attempt` (0-based)
    /// failed: the wait in milliseconds before the next attempt, or `None`
    /// when the retry bound is exhausted and the failure is to be
    /// propagated as it is.
    pub fn after_failure(&self, attempt: u32) -> (r: Option<u64>)
        requires
            attempt < self.max_retries ==> attempt <= 31 && self.spec_delay(attempt) <= u64::MAX,
        ensures
            attempt >= self.max_retries ==> r is None,
            attempt < self.max_retries ==> r == Some(self.spec_delay(attempt) as u64),
    {
        if attempt >= self.max_retries {
            None
        } else {
            Some(self.calculate_delay(attempt))
        }
    }

    /// Drives the policy over a pre-recorded sequence of per-attempt
    /// outcomes: whether the run succeeds, how many attempts are made, and
    /// the total wait.  One entry of `outcomes` is consulted per attempt.
    #[verifier::loop_isolation(false)]
    pub fn run(&self, outcomes: &Vec<bool>) -> (r: RunReport)
        requires
            self.max_retries < outcomes.len(),
            self.delays_fit(),
        ensures
            r.succeeded == spec_run_succeeds(self.max_retries as int, outcomes@, 0),
            r.invocations == spec_invocations_from(self.max_retries as int, outcomes@, 0),
            r.total_delay_ms == spec_total_delay(
                self.base_delay_ms as int,
                self.max_retries as int,
                outcomes@,
                0,
            ),
    {
        let ghost m = self.max_retries as int;
        let ghost b = self.base_delay_ms as int;
        let mut attempt: u32 = 0;
        let mut delay_acc: u128 = 0;
        loop
            invariant
                attempt <= self.max_retries,
                self.max_retries < outcomes.len(),
                self.delays_fit(),
                delay_acc <= attempt as int * u64::MAX as int,
                spec_invocations_from(m, outcomes@, 0) == attempt + spec_invocations_from(
                    m,
                    outcomes@,
                    attempt as int,
                ),
                spec_run_succeeds(m, outcomes@, 0) == spec_run_succeeds(
                    m,
                    outcomes@,
                    attempt as int,
                ),
                spec_total_delay(b, m, outcomes@, 0) == delay_acc + spec_total_delay(
                    b,
                    m,
                    outcomes@,
                    attempt as int,
                ),
            decreases self.max_retries - attempt,
        {
            if outcomes[attempt as usize] {
                return RunReport {
                    succeeded: true,
                    invocations: attempt as u64 + 1,
                    total_delay_ms: delay_acc,
                };
            }
            if attempt >= self.max_retries {
                return RunReport {
                    succeeded: false,
                    invocations: attempt as u64 + 1,
                    total_delay_ms: delay_acc,
                };
            }
            assert(self.spec_delay(attempt) <= u64::MAX);
            let d = self.calculate_delay(attempt);
            proof {
                assert((attempt + 1) as int * u64::MAX as int == attempt as int * u64::MAX as int
                    + u64::MAX as int) by (nonlinear_arith);
            }
            delay_acc = delay_acc + d as u128;
            attempt = attempt + 1;
        }
    }
}

/// The engine always makes at least one invocation and never more than
/// `max_retries + 1`, whatever the outcomes are.
pub proof fn lemma_invocations_bounded(max_retries: int, outcomes: Seq<bool>, attempt: int)
    requires
        0 <= attempt <= max_retries,
    ensures
        1 <= spec_invocations_from(max_retries, outcomes, attempt) <= max_retries - attempt + 1,
    decreases max_retries - attempt,
{
    if !(attempt >= outcomes.len() || outcomes[attempt] || attempt >= max_retries) {
        lemma_invocations_bounded(max_retries, outcomes, attempt + 1);
    }
}

/// With a retry bound of zero the engine makes exactly one invocation,
/// whatever the outcomes are.
pub proof fn lemma_zero_retries_single_invocation(outcomes: Seq<bool>)
    ensures
        spec_invocations_from(0, outcomes, 0) == 1,
{
}

proof fn lemma_all_fail_from(base: int, max_retries: int, outcomes: Seq<bool>, attempt: int)
    requires
        0 <= attempt <= max_retries < outcomes.len(),
        forall|i: int| attempt <= i <= max_retries ==> !outcomes[i],
    ensures
        spec_invocations_from(max_retries, outcomes, attempt) == max_retries - attempt + 1,
        !spec_run_succeeds(max_retries, outcomes, attempt),
        spec_total_delay(base, max_retries, outcomes, attempt) == base * (pow2(
            max_retries as nat,
        ) - pow2(attempt as nat)),
    decreases max_retries - attempt,
{
    if attempt == max_retries {
        assert(base * (pow2(max_retries as nat) - pow2(attempt as nat)) == 0) by (nonlinear_arith)
            requires
                pow2(max_retries as nat) == pow2(attempt as nat),
        ;
    } else {
        lemma_all_fail_from(base, max_retries, outcomes, attempt + 1);
        lemma_pow2_unfold((attempt + 1) as nat);
        assert(base * pow2(attempt as nat) + base * (pow2(max_retries as nat) - 2 * pow2(
            attempt as nat,
        )) == base * (pow2(max_retries as nat) - pow2(attempt as nat))) by (nonlinear_arith);
    }
}

/// When every attempt fails, the engine makes `max_retries + 1` invocations
/// (one initial attempt and `max_retries` re-attempts), the run does not
/// succeed, and the total wait is `base * (2^max_retries - 1)` milliseconds:
/// the sum of `base * 2^a` over the re-attempts `a + 1`.
pub proof fn lemma_exhausted_run(base: int, max_retries: int, outcomes: Seq<bool>)
    requires
        0 <= max_retries < outcomes.len(),
        forall|i: int| 0 <= i <= max_retries ==> !outcomes[i],
    ensures
        spec_invocations_from(max_retries, outcomes, 0) == max_retries + 1,
        !spec_run_succeeds(max_retries, outcomes, 0),
        spec_total_delay(base, max_retries, outcomes, 0) == base * (pow2(max_retries as nat) - 1),
{
    vstd::arithmetic::power2::lemma2_to64();
    lemma_all_fail_from(base, max_retries, outcomes, 0);
}

proof fn lemma_success_from(base: int, max_retries: int, outcomes: Seq<bool>, attempt: int, k: int)
    requires
        0 <= attempt <= k <= max_retries < outcomes.len(),
        outcomes[k],
        forall|i: int| attempt <= i < k ==> !outcomes[i],
    ensures
        spec_invocations_from(max_retries, outcomes, attempt) == k - attempt + 1,
        spec_run_succeeds(max_retries, outcomes, attempt),
        spec_total_delay(base, max_retries, outcomes, attempt) == base * (pow2(k as nat) - pow2(
            attempt as nat,
        )),
    decreases k - attempt,
{
    if attempt == k {
        assert(base * (pow2(k as nat) - pow2(attempt as nat)) == 0) by (nonlinear_arith)
            requires
                pow2(k as nat) == pow2(attempt as nat),
        ;
    } else {
        lemma_success_from(base, max_retries, outcomes, attempt + 1, k);
        lemma_pow2_unfold((attempt + 1) as nat);
        assert(base * pow2(attempt as nat) + base * (pow2(k as nat) - 2 * pow2(attempt as nat))
            == base * (pow2(k as nat) - pow2(attempt as nat))) by (nonlinear_arith);
    }
}

/// When the first success comes at invocation `k` with `k` within the retry
/// bound, the engine makes exactly `k + 1` invocations, the run succeeds,
/// and the total wait is `base * (2^k - 1)` milliseconds.
pub proof fn lemma_success_within_bound(
    base: int,
    max_retries: int,
    outcomes: Seq<bool>,
    k: int,
)
    requires
        0 <= k <= max_retries < outcomes.len(),
        outcomes[k],
        forall|i: int| 0 <= i < k ==> !outcomes[i],
    ensures
        spec_invocations_from(max_retries, outcomes, 0) == k + 1,
        spec_run_succeeds(max_retries, outcomes, 0),
        spec_total_delay(base, max_retries, outcomes, 0) == base * (pow2(k as nat) - 1),
{
    vstd::arithmetic::power2::lemma2_to64();
    lemma_success_from(base, max_retries, outcomes, 0, k);
}

} // verus!
