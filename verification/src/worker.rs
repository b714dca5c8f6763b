use vstd::prelude::*;
use crate::delivery::{
    IssueDeliveryQueue, QueueV, entry_index, found_entry, has_entry, max_backoff_seconds,
    permanent_transition, success_transition, transient_transition, RETRY_CEILING,
};

verus! {

/// What one transport attempt reported for a recipient.
#[derive(Clone, Copy, PartialEq, Eq, Structural)]
pub enum SendOutcome {
    Success,
    TransientFailure,
    PermanentFailure,
}

/// The queue after a claimed task is resolved with the given outcome.
pub open spec fn outcome_transition(q: QueueV, i: int, outcome: SendOutcome, now: u64) -> QueueV {
    match outcome {
        SendOutcome::Success => success_transition(q, i),
        SendOutcome::TransientFailure => transient_transition(q, i, now),
        SendOutcome::PermanentFailure => permanent_transition(q, i),
    }
}

/// One delivery-worker resolution step.  The whole retry, backoff and
/// terminal-failure policy lives here; the polling loop and the blocking
/// transport call stay at the unverified edge, which claims a task, attempts
/// the send, and hands the outcome back.
pub fn apply_send_outcome(
    queue: &mut IssueDeliveryQueue,
    issue_id: u64,
    subscriber_email: &String,
    outcome: SendOutcome,
    now: u64,
)
    requires
        has_entry(old(queue)@.entries, issue_id, subscriber_email@),
        found_entry(old(queue)@.entries, issue_id, subscriber_email@).claimed,
        found_entry(old(queue)@.entries, issue_id, subscriber_email@).n_retries < RETRY_CEILING,
        now + max_backoff_seconds() <= u64::MAX,
    ensures
        final(queue)@ == outcome_transition(
            old(queue)@,
            entry_index(old(queue)@.entries, issue_id, subscriber_email@),
            outcome,
            now,
        ),
        old(queue).wf() ==> final(queue).wf(),
{
    match outcome {
        SendOutcome::Success => queue.resolve_success(issue_id, subscriber_email),
        SendOutcome::TransientFailure => queue.resolve_transient(issue_id, subscriber_email, now),
        SendOutcome::PermanentFailure => queue.resolve_permanent(issue_id, subscriber_email),
    }
}

} // verus!
