//! The steps of an operation that writes to the stock ledger and to the
//! journal, as a state machine: what to do next, when to try again, and
//! when to undo what was done.

use crate::error::LedgerError;
use vstd::prelude::*;

verus! {

/// How often and how soon a failed step is tried again.
#[derive(Clone, Copy, Debug, PartialEq, Eq)]
pub struct RetryPolicy {
    pub base_delay_ms: u64,
    pub max_delay_ms: u64,
    pub max_attempts: u32,
}

/// Two to the power `e`.
pub open spec fn pow2(e: nat) -> int
    decreases e,
{
    if e == 0 {
        1
    } else {
        2 * pow2((e - 1) as nat)
    }
}

/// The wait before the retry that follows `attempt` failures: the base
/// delay doubled that many times, and never above the longest delay.
pub open spec fn backoff(policy: RetryPolicy, attempt: u32) -> int {
    let doubled = policy.base_delay_ms * pow2(attempt as nat);
    if doubled <= policy.max_delay_ms {
        doubled
    } else {
        policy.max_delay_ms as int
    }
}

/// Every power of two is at least one.
proof fn lemma_pow2_positive(e: nat)
    ensures
        pow2(e) >= 1,
    decreases e,
{
    if e > 0 {
        lemma_pow2_positive((e - 1) as nat);
    }
}

impl RetryPolicy {
    /// The wait before the retry that follows `attempt` failures.
    pub fn delay_ms(&self, attempt: u32) -> (r: u64)
        ensures
            r == backoff(*self, attempt),
    {
        let mut delay: u64 = self.base_delay_ms;
        let mut k: u32 = 0;
        while k < attempt && delay <= self.max_delay_ms / 2
            invariant
                k <= attempt,
                delay == self.base_delay_ms * pow2(k as nat),
                delay <= self.max_delay_ms || k == 0,
            decreases attempt - k,
        {
            proof {
                assert(self.base_delay_ms * (2 * pow2(k as nat)) == 2 * (self.base_delay_ms * pow2(
                    k as nat,
                ))) by (nonlinear_arith);
            }
            delay = delay * 2;
            k = k + 1;
        }
        proof {
            if k < attempt {
                lemma_doubling_grows(self.base_delay_ms as int, k as nat, attempt as nat);
                assert(self.base_delay_ms * (2 * pow2(k as nat)) == 2 * (self.base_delay_ms * pow2(
                    k as nat,
                ))) by (nonlinear_arith);
            }
        }
        if k == attempt && delay <= self.max_delay_ms {
            delay
        } else {
            self.max_delay_ms
        }
    }
}

/// Doubling more often does not give less.
proof fn lemma_doubling_grows(base: int, k: nat, n: nat)
    requires
        base >= 0,
        k < n,
    ensures
        base * pow2(n) >= base * pow2((k + 1) as nat),
    decreases n - k,
{
    if k + 1 < n {
        lemma_doubling_grows(base, k, (n - 1) as nat);
        lemma_pow2_positive((n - 1) as nat);
        assert(base * (2 * pow2((n - 1) as nat)) >= base * pow2((n - 1) as nat))
            by (nonlinear_arith)
            requires
                base >= 0,
                pow2((n - 1) as nat) >= 0,
        ;
    }
}

/// How far an operation has come.
#[derive(Clone, Copy, Debug, PartialEq, Eq, Structural)]
pub enum SagaState {
    /// Nothing is written yet.
    Pending,
    /// The stock movements are written.
    StockApplied,
    /// The journal entries are written too.
    JournalApplied,
    /// Everything is written and stays.
    Committed,
    /// A step has failed for good; what was written is being undone.
    Compensating,
    /// Nothing of the operation is left.
    Aborted,
}

/// What has come back from the last thing that was asked for.
#[derive(Clone, Copy, Debug, PartialEq, Eq)]
pub enum SagaEvent {
    Succeeded,
    Failed(LedgerError),
}

/// What is to be done next.
#[derive(Clone, Copy, Debug, PartialEq, Eq)]
pub enum SagaAction {
    ApplyStock,
    ApplyJournal,
    Commit,
    /// Undo every write of the operation.
    Compensate,
    /// Wait so long, then do again what failed.
    RetryAfter { delay_ms: u64 },
    /// The operation is through, one way or the other.
    Stop,
}

/// An operation under way: its state, how often its current step has
/// failed, and the failure that made it turn back, if one did.
#[derive(Clone, Copy, Debug, PartialEq, Eq)]
pub struct Saga {
    pub state: SagaState,
    pub attempts: u32,
    pub failure: Option<LedgerError>,
}

/// The state after a step of `state` has succeeded.
pub open spec fn next_state(state: SagaState) -> SagaState {
    match state {
        SagaState::Pending => SagaState::StockApplied,
        SagaState::StockApplied => SagaState::JournalApplied,
        SagaState::JournalApplied => SagaState::Committed,
        SagaState::Committed => SagaState::Committed,
        SagaState::Compensating => SagaState::Aborted,
        SagaState::Aborted => SagaState::Aborted,
    }
}

/// What is to be done in `state`.
pub open spec fn action_in(state: SagaState) -> SagaAction {
    match state {
        SagaState::Pending => SagaAction::ApplyStock,
        SagaState::StockApplied => SagaAction::ApplyJournal,
        SagaState::JournalApplied => SagaAction::Commit,
        SagaState::Committed => SagaAction::Stop,
        SagaState::Compensating => SagaAction::Compensate,
        SagaState::Aborted => SagaAction::Stop,
    }
}

/// Whether nothing follows `state`.
pub open spec fn terminal(state: SagaState) -> bool {
    state == SagaState::Committed || state == SagaState::Aborted
}

/// The operation after `event`, and what is to be done next.
///
/// Once committed or aborted, nothing changes. A success moves on to the
/// next state and starts counting failures anew. A failure of the storage
/// is tried again after the policy's delay while the policy allows it. Any
/// other failure, or one too many, turns the operation back: where nothing
/// was written, or the undoing itself has failed, it is aborted; else what
/// was written is undone. The first failure that turned it back is kept.
pub open spec fn saga_step(saga: Saga, event: SagaEvent, policy: RetryPolicy) -> (Saga, SagaAction) {
    if terminal(saga.state) {
        (saga, SagaAction::Stop)
    } else {
        match event {
            SagaEvent::Succeeded => {
                let state = next_state(saga.state);
                (Saga { state, attempts: 0, failure: saga.failure }, action_in(state))
            },
            SagaEvent::Failed(e) => if e.retryable() && saga.attempts < policy.max_attempts {
                (
                    Saga {
                        state: saga.state,
                        attempts: (saga.attempts + 1) as u32,
                        failure: saga.failure,
                    },
                    SagaAction::RetryAfter { delay_ms: backoff(policy, saga.attempts) as u64 },
                )
            } else {
                let failure = if saga.failure is Some {
                    saga.failure
                } else {
                    Some(e)
                };
                let state = if saga.state == SagaState::Pending || saga.state
                    == SagaState::Compensating {
                    SagaState::Aborted
                } else {
                    SagaState::Compensating
                };
                (Saga { state, attempts: 0, failure }, action_in(state))
            },
        }
    }
}

impl Saga {
    /// An operation that has written nothing yet; its first step is to
    /// apply the stock movements.
    pub fn start() -> (r: (Saga, SagaAction))
        ensures
            r.0 == (Saga { state: SagaState::Pending, attempts: 0, failure: None }),
            r.1 == SagaAction::ApplyStock,
    {
        (Saga { state: SagaState::Pending, attempts: 0, failure: None }, SagaAction::ApplyStock)
    }

    /// What is to be done in a state.
    fn action_for(state: SagaState) -> (r: SagaAction)
        ensures
            r == action_in(state),
    {
        match state {
            SagaState::Pending => SagaAction::ApplyStock,
            SagaState::StockApplied => SagaAction::ApplyJournal,
            SagaState::JournalApplied => SagaAction::Commit,
            SagaState::Committed => SagaAction::Stop,
            SagaState::Compensating => SagaAction::Compensate,
            SagaState::Aborted => SagaAction::Stop,
        }
    }

    /// Takes in what came back from the last action and says what to do
    /// next.
    pub fn step(&mut self, event: SagaEvent, policy: &RetryPolicy) -> (action: SagaAction)
        ensures
            (*final(self), action) == saga_step(*old(self), event, *policy),
    {
        match self.state {
            SagaState::Committed | SagaState::Aborted => {
                return SagaAction::Stop;
            },
            _ => {},
        }
        match event {
            SagaEvent::Succeeded => {
                let state: SagaState = match self.state {
                    SagaState::Pending => SagaState::StockApplied,
                    SagaState::StockApplied => SagaState::JournalApplied,
                    SagaState::JournalApplied => SagaState::Committed,
                    SagaState::Committed => SagaState::Committed,
                    SagaState::Compensating => SagaState::Aborted,
                    SagaState::Aborted => SagaState::Aborted,
                };
                self.state = state;
                self.attempts = 0;
                Saga::action_for(state)
            },
            SagaEvent::Failed(e) => {
                if e.is_retryable() && self.attempts < policy.max_attempts {
                    let delay_ms: u64 = policy.delay_ms(self.attempts);
                    self.attempts = self.attempts + 1;
                    SagaAction::RetryAfter { delay_ms }
                } else {
                    if self.failure.is_none() {
                        self.failure = Some(e);
                    }
                    let state: SagaState = match self.state {
                        SagaState::Pending => SagaState::Aborted,
                        SagaState::Compensating => SagaState::Aborted,
                        _ => SagaState::Compensating,
                    };
                    self.state = state;
                    self.attempts = 0;
                    Saga::action_for(state)
                }
            },
        }
    }
}

/// A rejection by a business rule is never tried again: after a failure
/// that is not one of the storage, the next action is no retry.
pub proof fn lemma_rejections_are_not_retried(saga: Saga, e: LedgerError, policy: RetryPolicy)
    requires
        !(e is Infrastructure),
    ensures
        !(saga_step(saga, SagaEvent::Failed(e), policy).1 is RetryAfter),
{
}

/// Retries are bounded: a step that has failed as often as the policy
/// allows is not tried again, and the count never passes that bound.
pub proof fn lemma_retries_are_bounded(saga: Saga, event: SagaEvent, policy: RetryPolicy)
    requires
        saga.attempts <= policy.max_attempts,
    ensures
        saga_step(saga, event, policy).0.attempts <= policy.max_attempts,
        saga.attempts == policy.max_attempts ==> !(saga_step(saga, event, policy).1 is RetryAfter),
{
}

/// An operation commits only by the success of its last step, and a
/// failure never commits it; once it is committed or aborted it stays so.
pub proof fn lemma_commit_needs_every_step(saga: Saga, event: SagaEvent, policy: RetryPolicy)
    ensures
        saga_step(saga, event, policy).0.state == SagaState::Committed ==> saga.state
            == SagaState::Committed || (saga.state == SagaState::JournalApplied && event
            == SagaEvent::Succeeded),
        terminal(saga.state) ==> saga_step(saga, event, policy).0 == saga,
        saga.state == SagaState::StockApplied || saga.state == SagaState::JournalApplied ==> (
        saga_step(saga, event, policy).0.state == SagaState::Aborted ==> false),
{
}

} // verus!
