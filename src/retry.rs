use vstd::prelude::*;

verus! {

/// How many times `dispense` tries to reach a freshly spawned plugin.
pub const CONNECT_ATTEMPTS: u32 = 10;

/// Milliseconds to wait between two connection attempts.
pub const CONNECT_DELAY_MS: u64 = 500;

/// What to do after a connection attempt has failed.
#[derive(Debug, Clone, Copy, PartialEq, Eq, Structural)]
pub enum ConnectStep {
    /// Wait for the given number of milliseconds, then try again.
    RetryAfter(u64),
    /// The attempts are used up: kill the process and report a timeout.
    GiveUp,
}

/// The step owed after the `failed`-th consecutive failed attempt.
pub open spec fn step_after(failed: nat) -> ConnectStep {
    if failed < CONNECT_ATTEMPTS {
        ConnectStep::RetryAfter(CONNECT_DELAY_MS)
    } else {
        ConnectStep::GiveUp
    }
}

/// How many attempts are made in all when every attempt fails, counting
/// from the moment `failed` of them have failed.
pub open spec fn attempts_when_unreachable(failed: nat) -> nat
    decreases CONNECT_ATTEMPTS - failed,
{
    match step_after(failed) {
        ConnectStep::RetryAfter(_) => attempts_when_unreachable(failed + 1),
        ConnectStep::GiveUp => failed,
    }
}

/// How long is waited in all when every attempt fails, counting from the
/// moment `failed` of them have failed.
pub open spec fn wait_when_unreachable(failed: nat) -> nat
    decreases CONNECT_ATTEMPTS - failed,
{
    match step_after(failed) {
        ConnectStep::RetryAfter(ms) => (ms + wait_when_unreachable(failed + 1)) as nat,
        ConnectStep::GiveUp => 0,
    }
}

/// Against an endpoint that never answers, exactly `CONNECT_ATTEMPTS`
/// attempts are made, each two of them separated by `CONNECT_DELAY_MS`,
/// and then the caller gives up.
pub proof fn lemma_unreachable_attempts()
    ensures
        attempts_when_unreachable(1) == CONNECT_ATTEMPTS,
        wait_when_unreachable(1) == (CONNECT_ATTEMPTS - 1) * CONNECT_DELAY_MS,
        forall|k: nat|
            1 <= k < CONNECT_ATTEMPTS ==> #[trigger] step_after(k) == ConnectStep::RetryAfter(
                CONNECT_DELAY_MS,
            ),
        step_after(CONNECT_ATTEMPTS as nat) == ConnectStep::GiveUp,
{
    lemma_unreachable_from(1);
}

proof fn lemma_unreachable_from(failed: nat)
    requires
        1 <= failed <= CONNECT_ATTEMPTS,
    ensures
        attempts_when_unreachable(failed) == CONNECT_ATTEMPTS,
        wait_when_unreachable(failed) == (CONNECT_ATTEMPTS - failed) * CONNECT_DELAY_MS,
    decreases CONNECT_ATTEMPTS - failed,
{
    if failed < CONNECT_ATTEMPTS {
        lemma_unreachable_from(failed + 1);
        assert((CONNECT_ATTEMPTS - failed) * CONNECT_DELAY_MS == CONNECT_DELAY_MS + (
        CONNECT_ATTEMPTS - (failed + 1)) * CONNECT_DELAY_MS) by (nonlinear_arith);
    }
}

/// Decides what follows a failed connection attempt, given how many attempts
/// (counting this one) have failed so far.
pub fn after_connect_failure(failed: u32) -> (r: ConnectStep)
    ensures
        r == step_after(failed as nat),
{
    if failed < CONNECT_ATTEMPTS {
        ConnectStep::RetryAfter(CONNECT_DELAY_MS)
    } else {
        ConnectStep::GiveUp
    }
}

} // verus!
