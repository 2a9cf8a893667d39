//! The allocation retry policy: what to do after each attempted write.

use vstd::prelude::*;

verus! {

/// Retries allowed after the first attempt; each retry asks for a code one
/// character longer than the attempt before it.
pub const MAX_RETRIES: usize = 10;

/// What a storage backend reports for one conditional insert.
#[derive(Debug, Clone, Copy, PartialEq, Eq, Structural)]
pub enum WriteOutcome {
    /// The record was stored under the candidate code.
    Created,
    /// A record with the candidate code already exists; nothing was written.
    Collision,
    /// The backend failed for a reason unrelated to code uniqueness.
    BackendFailure,
}

/// Failures that the registry reports to its caller.
#[derive(Debug, Clone, Copy, PartialEq, Eq, Structural)]
pub enum RegistryError {
    /// Every attempt, up to the last retry, hit an existing code.
    RetriesExhausted,
    /// The backend failed (unavailable, malformed input, storage full).
    Backend,
}

/// The decision taken after one write attempt.
#[derive(Debug, Clone, Copy, PartialEq, Eq, Structural)]
pub enum AllocStep {
    /// Try again, as the given attempt number.
    Retry(usize),
    /// The candidate was stored: hand it to the caller.
    Done,
    /// Give up with the given error.
    Failed(RegistryError),
}

/// The decision after attempt number `attempt` (counted from zero) ended
/// with `outcome`.
pub open spec fn step_spec(attempt: usize, outcome: WriteOutcome) -> AllocStep {
    match outcome {
        WriteOutcome::Created => AllocStep::Done,
        WriteOutcome::BackendFailure => AllocStep::Failed(RegistryError::Backend),
        WriteOutcome::Collision => if attempt < MAX_RETRIES {
            AllocStep::Retry((attempt + 1) as usize)
        } else {
            AllocStep::Failed(RegistryError::RetriesExhausted)
        },
    }
}

/// Decides what follows attempt number `attempt`: a collision is retried
/// while retries remain, any other failure ends the allocation at once.
pub fn next_step(attempt: usize, outcome: WriteOutcome) -> (s: AllocStep)
    ensures
        s == step_spec(attempt, outcome),
{
    match outcome {
        WriteOutcome::Created => AllocStep::Done,
        WriteOutcome::BackendFailure => AllocStep::Failed(RegistryError::Backend),
        WriteOutcome::Collision => {
            if attempt < MAX_RETRIES {
                AllocStep::Retry(attempt + 1)
            } else {
                AllocStep::Failed(RegistryError::RetriesExhausted)
            }
        },
    }
}

/// The decision reached by feeding `outcomes` in turn to the policy, starting
/// at attempt number `attempt`; `Retry(a)` when all of them were consumed and
/// attempt `a` is still to be made.
pub open spec fn drive(attempt: usize, outcomes: Seq<WriteOutcome>) -> AllocStep
    decreases outcomes.len(),
{
    if outcomes.len() == 0 {
        AllocStep::Retry(attempt)
    } else {
        match step_spec(attempt, outcomes[0]) {
            AllocStep::Retry(a) => drive(a, outcomes.drop_first()),
            other => other,
        }
    }
}

/// `n` collisions in a row.
pub open spec fn collisions(n: nat) -> Seq<WriteOutcome> {
    Seq::new(n, |i: int| WriteOutcome::Collision)
}

/// Under sustained collisions the policy moves on to the next attempt number
/// (whose candidate is one character longer) after each collision, and
/// reports `RetriesExhausted` exactly when the attempt after the last retry
/// collides too; a write that succeeds after `n <= MAX_RETRIES` collisions
/// ends the allocation.
pub proof fn lemma_retry_growth(n: nat)
    ensures
        n <= MAX_RETRIES ==> drive(0, collisions(n)) == AllocStep::Retry(n as usize),
        n <= MAX_RETRIES ==> drive(0, collisions(n).push(WriteOutcome::Created)) == AllocStep::Done,
        n > MAX_RETRIES ==> drive(0, collisions(n)) == AllocStep::Failed(
            RegistryError::RetriesExhausted,
        ),
{
    lemma_drive_collisions(0, n);
    if n <= MAX_RETRIES {
        lemma_drive_collisions_then(0, n, WriteOutcome::Created);
    }
}

proof fn lemma_drive_collisions(a: usize, n: nat)
    requires
        a <= MAX_RETRIES,
    ensures
        a + n <= MAX_RETRIES ==> drive(a, collisions(n)) == AllocStep::Retry((a + n) as usize),
        a + n > MAX_RETRIES ==> drive(a, collisions(n)) == AllocStep::Failed(
            RegistryError::RetriesExhausted,
        ),
    decreases n,
{
    if n > 0 {
        assert(collisions(n).drop_first() =~= collisions((n - 1) as nat));
        if a < MAX_RETRIES {
            lemma_drive_collisions((a + 1) as usize, (n - 1) as nat);
        }
    }
}

proof fn lemma_drive_collisions_then(a: usize, n: nat, last: WriteOutcome)
    requires
        a + n <= MAX_RETRIES,
    ensures
        drive(a, collisions(n).push(last)) == step_spec((a + n) as usize, last),
    decreases n,
{
    let s = collisions(n).push(last);
    if n == 0 {
        assert(s.drop_first() =~= Seq::<WriteOutcome>::empty());
    } else {
        assert(s.drop_first() =~= collisions((n - 1) as nat).push(last));
        lemma_drive_collisions_then((a + 1) as usize, (n - 1) as nat, last);
    }
}

/// The owner recorded for a submission: the explicit name when one was
/// given, otherwise the caller's identity (such as its network address).
pub fn owner_for(user: Option<String>, caller: String) -> (r: String)
    ensures
        r@ == match user {
            Some(u) => u@,
            None => caller@,
        },
{
    match user {
        Some(u) => u,
        None => caller,
    }
}

} // verus!
