//! The batch engine's decisions: which slot a running batch works on
//! next, the stagger between slots, failure accumulation and the done
//! mark. The surrounding program performs each returned action (the long
//! operation, the pause, the fan-out of progress events) and reports the
//! outcome back into the next step; a single slot's failure never aborts
//! the batch.

use vstd::prelude::*;

verus! {

use crate::ui_state::BatchProgressState;

/// The operation a batch applies to each of its slots.
#[derive(Debug, Clone, Copy, PartialEq, Eq, Structural)]
pub enum BatchOp {
    /// Create a slot from a resolved blueprint entry.
    Provision,
    /// Start the service stack.
    StartStack,
    /// Stop the service stack.
    StopStack,
    /// Fetch and rebase the clone.
    Rebase,
    /// Push the current branch.
    Push,
    /// Tear the slot down.
    Destroy,
    /// Spawn the coding agent.
    SpawnAgent,
}

/// What the driver of a batch does next.
#[derive(Debug, Clone)]
pub enum BatchAction {
    /// Perform the operation on this slot, then report the outcome.
    Run { slot: String, op: BatchOp },
    /// Wait this long before asking again: the stagger between slots.
    Pause { ms: u64 },
    /// The batch is finished.
    Done,
}

/// One decision of a running batch: record the outcome the driver
/// reports, then either finish, stagger, or hand out the next slot.
pub fn batch_step(
    state: &mut BatchProgressState,
    op: BatchOp,
    stagger_ms: u64,
    pending: &mut Vec<String>,
    outcome: Option<(String, Option<String>)>,
) -> (r: BatchAction)
    requires
        old(state).completed < usize::MAX,
    ensures
        final(state).title == old(state).title,
        final(state).total == old(state).total,
        (match outcome {
            Some(d) => final(state).completed == old(state).completed + 1 && (match d.1 {
                Some(e) => final(state).failures@ == old(state).failures@.push((d.0, e)),
                None => final(state).failures@ == old(state).failures@,
            }),
            None => final(state).completed == old(state).completed && final(state).failures@
                == old(state).failures@,
        }),
        (r is Done) <==> old(pending)@.len() == 0,
        (r is Done) ==> final(state).done && final(state).current_slot is None && final(pending)@ == old(pending)@,
        r matches BatchAction::Pause { ms } ==> (ms == stagger_ms && outcome is Some && old(pending)@.len() > 0 && final(pending)@ == old(pending)@ && final(state).done == old(state).done
            && final(state).current_slot == old(state).current_slot),
        r matches BatchAction::Run { slot, op: o } ==> (o == op && slot@ == old(pending)@[0]@
            && final(pending)@ == old(pending)@.skip(1) && (final(state).current_slot
            matches Some(c) && c@ == old(pending)@[0]@) && final(state).done == old(state).done),
{
    let had_outcome = outcome.is_some();
    match outcome {
        Some((name, err)) => {
            state.completed = state.completed + 1;
            match err {
                Some(e) => {
                    state.failures.push((name, e));
                },
                None => {},
            }
        },
        None => {},
    }
    if pending.len() == 0 {
        state.done = true;
        state.current_slot = None;
        return BatchAction::Done;
    }
    if had_outcome {
        return BatchAction::Pause { ms: stagger_ms };
    }
    let slot = pending.remove(0);
    proof {
        assert(pending@ =~= old(pending)@.skip(1));
    }
    let announced = slot.clone();
    state.current_slot = Some(announced);
    BatchAction::Run { slot, op }
}

/// Begin a batch over the given slots: fresh progress under the given
/// title, nothing completed, nothing failed.
pub fn batch_begin(title: &str, slots: Vec<String>) -> (r: (BatchProgressState, Vec<String>))
    ensures
        r.0.title@ == title@,
        r.0.total == slots@.len(),
        r.0.completed == 0,
        r.0.current_slot is None,
        r.0.failures@.len() == 0,
        !r.0.done,
        r.1@ == slots@,
{
    let total = slots.len();
    (BatchProgressState::new(title, total), slots)
}

} // verus!
