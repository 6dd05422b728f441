//! The bind-retry policy of the connection acceptor.
//!
//! The acceptor's socket work happens outside the library; the loop that
//! performs it asks [`should_retry`] after every failed bind.  The spec
//! functions here model that loop over an arbitrary sequence of attempt
//! outcomes (`true` for a successful bind), and the lemmas state the
//! retry law: with a budget of `n`, the acceptor gives up exactly after
//! `n` failed attempts, never before.

use vstd::prelude::*;

verus! {

/// How many failed bind attempts the acceptor tolerates before it gives
/// up.
pub const RECONNECT_TRIES: u8 = 5;

/// Whether the acceptor should attempt another bind after `failures`
/// failed attempts under a budget of `budget` attempts.
pub fn should_retry(failures: u8, budget: u8) -> (r: bool)
    ensures
        r == (failures < budget),
{
    failures < budget
}

/// The number of bind attempts a run of the acceptor's loop makes:
/// attempt `i` has outcome `outcomes[i]`, the loop stops at the first
/// success, and it gives up once the budget is exhausted.
pub open spec fn attempts_made(outcomes: Seq<bool>, budget: nat) -> nat
    decreases budget,
{
    if budget == 0 || outcomes.len() == 0 {
        0
    } else if outcomes[0] {
        1
    } else {
        1 + attempts_made(outcomes.skip(1), (budget - 1) as nat)
    }
}

/// Whether a run of the acceptor's loop ends with a bound socket.
pub open spec fn binds(outcomes: Seq<bool>, budget: nat) -> bool
    decreases budget,
{
    if budget == 0 || outcomes.len() == 0 {
        false
    } else if outcomes[0] {
        true
    } else {
        binds(outcomes.skip(1), (budget - 1) as nat)
    }
}

/// Retry exhaustion: when an address stays occupied, a budget of `budget`
/// is spent on exactly `budget` failed attempts before the acceptor gives
/// up — not fewer.
pub proof fn lemma_bind_retry_exhaustion(outcomes: Seq<bool>, budget: nat)
    requires
        outcomes.len() >= budget,
        forall|i: int| 0 <= i < budget ==> !outcomes[i],
    ensures
        !binds(outcomes, budget),
        attempts_made(outcomes, budget) == budget,
    decreases budget,
{
    if budget > 0 {
        assert(forall|i: int|
            0 <= i < budget - 1 ==> #[trigger] outcomes.skip(1)[i] == outcomes[i + 1]);
        lemma_bind_retry_exhaustion(outcomes.skip(1), (budget - 1) as nat);
    }
}

/// A success inside the budget is taken: when the first `k` attempts fail
/// and attempt `k` (counted from zero) succeeds with `k` still under the
/// budget, the acceptor binds after exactly `k + 1` attempts.
pub proof fn lemma_bind_retry_succeeds(outcomes: Seq<bool>, budget: nat, k: int)
    requires
        0 <= k < budget,
        k < outcomes.len(),
        outcomes[k],
        forall|i: int| 0 <= i < k ==> !outcomes[i],
    ensures
        binds(outcomes, budget),
        attempts_made(outcomes, budget) == k + 1,
    decreases budget,
{
    if k > 0 {
        assert(forall|i: int|
            0 <= i < outcomes.len() - 1 ==> #[trigger] outcomes.skip(1)[i] == outcomes[i + 1]);
        lemma_bind_retry_succeeds(outcomes.skip(1), (budget - 1) as nat, k - 1);
    }
}

} // verus!
