//! What becomes of a task that has failed: it is tried again after a delay, a second at first, that
//! doubles with every attempt, or given up.
use vstd::arithmetic::power2::pow2;
use vstd::prelude::*;

verus! {

/// What becomes of a task that has failed.
#[derive(Debug, Clone, Copy, PartialEq, Eq, Structural)]
pub enum Failure {
    /// It is given up.
    Bury,
    /// It is tried again after so many seconds.
    Retry { delay_secs: i64 },
}

/// The random share of a backoff: the fraction that the upper 53 bits of a random word stand for,
/// rounded down to whole seconds.
pub open spec fn jitter(draw: u64, backoff: int) -> int {
    (draw / 2048) * backoff / 0x20_0000_0000_0000
}

/// How often the backoff has doubled: not yet after the first attempt.
pub open spec fn doublings(attempts: i32) -> nat {
    if attempts >= 1 {
        (attempts - 1) as nat
    } else {
        0
    }
}

/// The seconds before the next attempt, without their random share.
pub open spec fn backoff(attempts: i32) -> nat {
    pow2(doublings(attempts))
}

/// The seconds before the next attempt.
pub open spec fn retry_delay(attempts: i32, draw: u64) -> int {
    backoff(attempts) + jitter(draw, backoff(attempts) as int)
}

/// What becomes of a task that has failed.
pub open spec fn failure_of(max_retries: i32, attempts: i32, draw: u64) -> Failure {
    if attempts >= max_retries {
        Failure::Bury
    } else {
        Failure::Retry { delay_secs: retry_delay(attempts, draw) as i64 }
    }
}

/// Whether there is a backoff for a task that is to be tried again.
pub open spec fn attempts_in_range(max_retries: i32, attempts: i32) -> bool {
    attempts >= max_retries || 0 <= attempts <= 62
}

/// The delay before the next attempt is at least the backoff and less than twice the backoff.
pub proof fn retry_delay_bounds(attempts: i32, draw: u64)
    requires
        0 <= attempts <= 62,
    ensures
        backoff(attempts) <= retry_delay(attempts, draw) < 2 * backoff(attempts),
        retry_delay(attempts, draw) <= i64::MAX,
{
    vstd::arithmetic::power2::lemma_pow2_pos(doublings(attempts));
    lemma_jitter(draw, backoff(attempts) as int);
    vstd::arithmetic::power2::lemma2_to64();
    vstd::arithmetic::power2::lemma2_to64_rest();
    vstd::arithmetic::power2::lemma_pow2_strictly_increases(doublings(attempts), 62);
}

proof fn lemma_jitter(draw: u64, backoff: int)
    requires
        backoff > 0,
    ensures
        0 <= jitter(draw, backoff) < backoff,
{
    let x = (draw / 2048) as int;
    assert(x < 0x20_0000_0000_0000);
    assert(0 <= x * backoff < backoff * 0x20_0000_0000_0000) by (nonlinear_arith)
        requires
            0 <= x < 0x20_0000_0000_0000,
            backoff > 0,
    ;
    let product = x * backoff;
    assert(0 <= product / 0x20_0000_0000_0000 < backoff) by (nonlinear_arith)
        requires
            0 <= product < backoff * 0x20_0000_0000_0000,
    ;
}

/// The seconds before the next attempt, without their random share.
pub fn backoff_secs(attempts: i32) -> (r: i64)
    requires
        0 <= attempts <= 62,
    ensures
        r == backoff(attempts),
{
    proof {
        vstd::arithmetic::power2::lemma2_to64();
        vstd::arithmetic::power2::lemma2_to64_rest();
    }
    let mut value: i64 = 1;
    let mut i: i32 = 1;
    while i < attempts
        invariant
            1 <= i <= 62,
            i <= attempts || i == 1,
            attempts <= 62,
            value == pow2((i - 1) as nat),
            pow2(62) == 0x4000_0000_0000_0000,
        decreases attempts - i,
    {
        proof {
            vstd::arithmetic::power2::lemma_pow2_strictly_increases(i as nat, 62);
            vstd::arithmetic::power2::lemma_pow2_unfold(i as nat);
        }
        value = value * 2;
        i = i + 1;
    }
    value
}

/// Decides what becomes of a task that has failed.
pub fn after_failure(max_retries: i32, attempts: i32, draw: u64) -> (r: Failure)
    requires
        attempts_in_range(max_retries, attempts),
    ensures
        r == failure_of(max_retries, attempts, draw),
{
    if attempts >= max_retries {
        return Failure::Bury;
    }
    let backoff: i64 = backoff_secs(attempts);
    proof {
        retry_delay_bounds(attempts, draw);
        vstd::arithmetic::power2::lemma_pow2_pos(doublings(attempts));
        lemma_jitter(draw, backoff as int);
        let x = (draw / 2048) as int;
        assert(0 <= x * backoff <= u128::MAX) by (nonlinear_arith)
            requires
                0 <= x <= 0xffff_ffff_ffff_ffff,
                0 < backoff <= 0x7fff_ffff_ffff_ffff,
        ;
    }
    let share: u128 = (draw / 2048) as u128 * backoff as u128 / 0x20_0000_0000_0000;
    Failure::Retry { delay_secs: backoff + share as i64 }
}

/// `rand::random` of a `u64`: any word. Nothing is known of it.
#[verifier::external_body]
pub(crate) fn random_word() -> (r: u64) {
    rand::random::<u64>()
}

} // verus!
