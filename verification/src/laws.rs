use vstd::prelude::*;
use crate::delivery::{
    entry_for, entry_index, entry_matches, exhausts_retries, first_eligible, found_entry,
    has_entry, lemma_entry_index_bounds, lemma_entry_index_is_first, lemma_has_entry_of_witness,
    max_backoff_seconds, reschedule_entry, success_transition, transient_transition, wf_entries,
    EntryV, FailV, FailureReason, QueueV,
};
use crate::directory::{confirmed_emails, is_confirmed_email, lemma_confirmed_emails_props};
use crate::http::{publish_ack_view, ResponseV};
use crate::idempotency::{found_record, has_record, lemma_find_index_push, RecordStateV, RecordV};
use crate::issues::DraftV;
use crate::publisher::{publish_transition, PublisherV, PublishOutcomeV};

verus! {

/// LAW: once a key is completed, every further publish bearing it replays
/// the saved response verbatim and changes nothing, whatever draft or time
/// it carries.
pub proof fn lemma_completed_key_replays(
    s: PublisherV,
    operator_id: u64,
    key: Seq<char>,
    draft: DraftV,
    now: u64,
    resp: ResponseV,
)
    requires
        has_record(s.records, operator_id, key),
        found_record(s.records, operator_id, key).state == RecordStateV::Completed(resp),
    ensures
        publish_transition(s, operator_id, key, draft, now).0 == s,
        publish_transition(s, operator_id, key, draft, now).1 == PublishOutcomeV::Replayed(resp),
{
}

/// LAW: for a fresh key, publishing twice (sequentially or as a retried
/// concurrent request that serialized second) creates exactly one issue and
/// one fan-out set, sized to the confirmed-subscriber count at claim time;
/// the second call changes nothing and both callers observe the same
/// acknowledgment body.
pub proof fn lemma_publish_exactly_once(
    s: PublisherV,
    operator_id: u64,
    key: Seq<char>,
    draft1: DraftV,
    now1: u64,
    draft2: DraftV,
    now2: u64,
)
    requires
        !has_record(s.records, operator_id, key),
    ensures
        ({
            let (s1, r1) = publish_transition(s, operator_id, key, draft1, now1);
            let (s2, r2) = publish_transition(s1, operator_id, key, draft2, now2);
            &&& s1.issues.issues.len() == s.issues.issues.len() + 1
            &&& s1.queue.entries.len() == s.queue.entries.len() + confirmed_emails(
                s.subscribers,
            ).len()
            &&& r1 == PublishOutcomeV::Published(publish_ack_view())
            &&& s2 == s1
            &&& r2 == PublishOutcomeV::Replayed(publish_ack_view())
        }),
{
    let done = RecordV {
        operator_id,
        key,
        state: RecordStateV::Completed(publish_ack_view()),
        created_at: now1,
    };
    lemma_find_index_push(s.records, operator_id, key, done);
    let s1 = publish_transition(s, operator_id, key, draft1, now1).0;
    lemma_completed_key_replays(s1, operator_id, key, draft2, now2, publish_ack_view());
}

/// The state after any number of repeated publishes with one key.
pub open spec fn publish_chain(
    s: PublisherV,
    operator_id: u64,
    key: Seq<char>,
    calls: Seq<(DraftV, u64)>,
) -> PublisherV
    decreases calls.len(),
{
    if calls.len() == 0 {
        s
    } else {
        publish_chain(
            publish_transition(s, operator_id, key, calls[0].0, calls[0].1).0,
            operator_id,
            key,
            calls.drop_first(),
        )
    }
}

/// LAW: however many times a completed key is republished, the state never
/// moves and every caller observes the same saved response.
pub proof fn lemma_repeated_publish_is_harmless(
    s: PublisherV,
    operator_id: u64,
    key: Seq<char>,
    calls: Seq<(DraftV, u64)>,
    resp: ResponseV,
)
    requires
        has_record(s.records, operator_id, key),
        found_record(s.records, operator_id, key).state == RecordStateV::Completed(resp),
    ensures
        publish_chain(s, operator_id, key, calls) == s,
        forall|k: int|
            0 <= k < calls.len() ==> publish_transition(
                s,
                operator_id,
                key,
                (#[trigger] calls[k]).0,
                calls[k].1,
            ).1 == PublishOutcomeV::Replayed(resp),
    decreases calls.len(),
{
    if calls.len() > 0 {
        lemma_completed_key_replays(s, operator_id, key, calls[0].0, calls[0].1, resp);
        lemma_repeated_publish_is_harmless(s, operator_id, key, calls.drop_first(), resp);
        assert forall|k: int|
            0 <= k < calls.len() implies publish_transition(
            s,
            operator_id,
            key,
            (#[trigger] calls[k]).0,
            calls[k].1,
        ).1 == PublishOutcomeV::Replayed(resp) by {
            if k > 0 {
                assert(calls.drop_first()[k - 1] == calls[k]);
            }
        }
    }
}

/// LAW: for a fresh key, any number of publishes leaves exactly the state
/// of the first one: one issue, one fan-out set, one saved response,
/// however often the request is retried.
pub proof fn lemma_publish_chain_from_fresh(
    s: PublisherV,
    operator_id: u64,
    key: Seq<char>,
    calls: Seq<(DraftV, u64)>,
)
    requires
        !has_record(s.records, operator_id, key),
        calls.len() >= 1,
    ensures
        publish_chain(s, operator_id, key, calls) == publish_transition(
            s,
            operator_id,
            key,
            calls[0].0,
            calls[0].1,
        ).0,
{
    let s1 = publish_transition(s, operator_id, key, calls[0].0, calls[0].1).0;
    let done = RecordV {
        operator_id,
        key,
        state: RecordStateV::Completed(publish_ack_view()),
        created_at: calls[0].1,
    };
    lemma_find_index_push(s.records, operator_id, key, done);
    lemma_repeated_publish_is_harmless(
        s1,
        operator_id,
        key,
        calls.drop_first(),
        publish_ack_view(),
    );
}

/// LAW: immediately after a fresh publish, every subscriber confirmed at
/// claim time has a delivery-queue entry for the new issue, with no retries
/// booked and due at once.
pub proof fn lemma_confirmed_subscriber_enqueued(
    s: PublisherV,
    operator_id: u64,
    key: Seq<char>,
    draft: DraftV,
    now: u64,
    i: int,
)
    requires
        !has_record(s.records, operator_id, key),
        0 <= i < s.subscribers.len(),
        s.subscribers[i].status is Confirmed,
    ensures
        ({
            let s1 = publish_transition(s, operator_id, key, draft, now).0;
            let issue_id = s.issues.next_issue_id;
            &&& has_entry(s1.queue.entries, issue_id, s.subscribers[i].email)
            &&& exists|j: int|
                0 <= j < s1.queue.entries.len() && #[trigger] s1.queue.entries[j] == entry_for(
                    issue_id,
                    s.subscribers[i].email,
                    now,
                )
        }),
{
    let s1 = publish_transition(s, operator_id, key, draft, now).0;
    let issue_id = s.issues.next_issue_id;
    let ce = confirmed_emails(s.subscribers);
    lemma_confirmed_emails_props(s.subscribers);
    let k = choose|k: int| 0 <= k < ce.len() && ce[k] == s.subscribers[i].email;
    let n = s.queue.entries.len() as int;
    assert(s1.queue.entries[n + k] == entry_for(issue_id, ce[k], now));
    lemma_has_entry_of_witness(s1.queue.entries, issue_id, s.subscribers[i].email, n + k);
}

/// LAW: a queue entry created by a publish belongs to a subscriber who was
/// confirmed at claim time; unconfirmed subscribers never receive one.
pub proof fn lemma_only_confirmed_enqueued(
    s: PublisherV,
    operator_id: u64,
    key: Seq<char>,
    draft: DraftV,
    now: u64,
    j: int,
)
    requires
        !has_record(s.records, operator_id, key),
        s.queue.entries.len() <= j < publish_transition(
            s,
            operator_id,
            key,
            draft,
            now,
        ).0.queue.entries.len(),
    ensures
        ({
            let e = publish_transition(s, operator_id, key, draft, now).0.queue.entries[j];
            &&& e.issue_id == s.issues.next_issue_id
            &&& is_confirmed_email(s.subscribers, e.email)
        }),
{
    let s1 = publish_transition(s, operator_id, key, draft, now).0;
    let ce = confirmed_emails(s.subscribers);
    let n = s.queue.entries.len() as int;
    lemma_confirmed_emails_props(s.subscribers);
    assert(s1.queue.entries[j] == entry_for(s.issues.next_issue_id, ce[j - n], now));
}

/// LAW: a transient failure books exactly one more retry and pushes the due
/// time strictly later, as long as the retry budget is not exhausted; the
/// claim discipline guarantees the attempt ran no earlier than the entry was
/// due.
pub proof fn lemma_retry_backoff_increases(e: EntryV, now: u64)
    requires
        e.execute_after <= now,
        !exhausts_retries(e),
        now + max_backoff_seconds() <= u64::MAX,
    ensures
        reschedule_entry(e, now).execute_after > e.execute_after,
        reschedule_entry(e, now).n_retries == e.n_retries + 1,
        !reschedule_entry(e, now).claimed,
{
}

/// The entry after a whole run of transient failures, attempted at the
/// given times.
pub open spec fn retry_chain(e: EntryV, times: Seq<u64>) -> EntryV
    decreases times.len(),
{
    if times.len() == 0 {
        e
    } else {
        retry_chain(reschedule_entry(e, times[0]), times.drop_first())
    }
}

/// The run respects the claim discipline: every attempt happens once the
/// entry is due, within the retry budget and the clock's range.
pub open spec fn valid_retry_times(e: EntryV, times: Seq<u64>) -> bool
    decreases times.len(),
{
    if times.len() == 0 {
        true
    } else {
        &&& e.execute_after <= times[0]
        &&& !exhausts_retries(e)
        &&& times[0] + max_backoff_seconds() <= u64::MAX
        &&& valid_retry_times(reschedule_entry(e, times[0]), times.drop_first())
    }
}

/// LAW: across a whole run of transient failures the due time is strictly
/// increasing and every retry is recorded: after K failures the entry books
/// exactly K more retries.
pub proof fn lemma_retry_chain_monotonic(e: EntryV, times: Seq<u64>)
    requires
        valid_retry_times(e, times),
    ensures
        times.len() > 0 ==> retry_chain(e, times).execute_after > e.execute_after,
        retry_chain(e, times).n_retries == e.n_retries + times.len(),
        retry_chain(e, times).issue_id == e.issue_id,
        retry_chain(e, times).email == e.email,
    decreases times.len(),
{
    if times.len() > 0 {
        lemma_retry_backoff_increases(e, times[0]);
        lemma_retry_chain_monotonic(reschedule_entry(e, times[0]), times.drop_first());
    }
}

/// LAW: a confirmed delivery removes the pair from the queue for good; no
/// entry for it remains, so no second attempt can ever be claimed.
pub proof fn lemma_success_is_final(q: QueueV, issue_id: u64, email: Seq<char>)
    requires
        wf_entries(q.entries),
        has_entry(q.entries, issue_id, email),
    ensures
        !has_entry(
            success_transition(q, entry_index(q.entries, issue_id, email)).entries,
            issue_id,
            email,
        ),
        success_transition(q, entry_index(q.entries, issue_id, email)).failed == q.failed,
{
    let i = entry_index(q.entries, issue_id, email);
    lemma_entry_index_bounds(q.entries, issue_id, email);
    let r = q.entries.remove(i);
    assert forall|j: int| 0 <= j < r.len() implies !entry_matches(r[j], issue_id, email) by {
        if j < i {
            assert(r[j] == q.entries[j]);
        } else {
            assert(r[j] == q.entries[j + 1]);
        }
    }
    lemma_entry_index_is_first(r, issue_id, email, r.len() as int);
}

/// LAW: one transient failure past the retry ceiling moves the pair to the
/// terminal-failure log: its entry is gone, the failure is recorded with its
/// full retry count, and no further attempt can ever be claimed.
pub proof fn lemma_exhausted_retries_become_terminal(
    q: QueueV,
    issue_id: u64,
    email: Seq<char>,
    now: u64,
)
    requires
        wf_entries(q.entries),
        has_entry(q.entries, issue_id, email),
        exhausts_retries(found_entry(q.entries, issue_id, email)),
    ensures
        ({
            let q2 = transient_transition(q, entry_index(q.entries, issue_id, email), now);
            &&& !has_entry(q2.entries, issue_id, email)
            &&& q2.failed == q.failed.push(
                FailV {
                    issue_id,
                    email,
                    n_retries: (found_entry(q.entries, issue_id, email).n_retries + 1) as u32,
                    reason: FailureReason::RetriesExhausted,
                },
            )
        }),
{
    let i = entry_index(q.entries, issue_id, email);
    lemma_entry_index_bounds(q.entries, issue_id, email);
    let q2 = transient_transition(q, i, now);
    assert forall|j: int|
        0 <= j < q2.entries.len() implies !entry_matches(q2.entries[j], issue_id, email) by {
        if j < i {
            assert(q2.entries[j] == q.entries[j]);
        } else {
            assert(q2.entries[j] == q.entries[j + 1]);
        }
    }
    lemma_entry_index_is_first(q2.entries, issue_id, email, q2.entries.len() as int);
    assert(q2.failed =~= q.failed.push(
        FailV {
            issue_id,
            email,
            n_retries: (found_entry(q.entries, issue_id, email).n_retries + 1) as u32,
            reason: FailureReason::RetriesExhausted,
        },
    ));
}

/// LAW: a pair with no entry left in the queue can never be handed to a
/// worker: whatever the queue claims next is some other pair.
pub proof fn lemma_absent_pair_never_claimed(
    q: QueueV,
    issue_id: u64,
    email: Seq<char>,
    now: u64,
)
    requires
        !has_entry(q.entries, issue_id, email),
        first_eligible(q.entries, now) < q.entries.len(),
    ensures
        !entry_matches(q.entries[first_eligible(q.entries, now)], issue_id, email),
{
    let i = first_eligible(q.entries, now);
    crate::delivery::lemma_first_eligible_bounds(q.entries, now);
    if entry_matches(q.entries[i], issue_id, email) {
        lemma_has_entry_of_witness(q.entries, issue_id, email, i);
    }
}

} // verus!
