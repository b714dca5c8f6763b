use vstd::prelude::*;
use crate::delivery::{
    entry_for, wf_entries, EntryV, IssueDeliveryQueue, QueueV, RETRY_CEILING,
};
use crate::directory::{
    confirmed_emails, lemma_confirmed_emails_props, unique_emails, SubscriberDirectory,
    SubscriberV,
};
use crate::http::{make_publish_ack, publish_ack_view, HttpResponse, ResponseV};
use crate::idempotency::{
    found_record, has_record, lemma_find_index_push, unique_keys, ClaimOutcome, IdempotencyStore,
    RecordStateV, RecordV,
};
use crate::issues::{
    issue_of_draft, issue_store_wf, IssueDraft, DraftV, IssueStore, IssueStoreV,
};

verus! {

/// What one publish call reports back.
pub enum PublishOutcome {
    /// A fresh key: the issue was created, the fan-out set enqueued, and
    /// this acknowledgment saved for replay.
    Published(HttpResponse),
    /// A completed key: the saved response, replayed verbatim, no side
    /// effect performed.
    Replayed(HttpResponse),
    /// A claim for the key is still in flight; the caller should retry
    /// shortly.  No side effect performed.
    TryAgainLater,
}

#[verifier::ext_equal]
pub ghost enum PublishOutcomeV {
    Published(ResponseV),
    Replayed(ResponseV),
    TryAgainLater,
}

impl View for PublishOutcome {
    type V = PublishOutcomeV;

    open spec fn view(&self) -> PublishOutcomeV {
        match self {
            PublishOutcome::Published(resp) => PublishOutcomeV::Published(resp@),
            PublishOutcome::Replayed(resp) => PublishOutcomeV::Replayed(resp@),
            PublishOutcome::TryAgainLater => PublishOutcomeV::TryAgainLater,
        }
    }
}

/// The whole publishing state: idempotency table, issue store, delivery
/// queue and subscriber directory.
#[verifier::ext_equal]
pub ghost struct PublisherV {
    pub records: Seq<RecordV>,
    pub issues: IssueStoreV,
    pub queue: QueueV,
    pub subscribers: Seq<SubscriberV>,
}

/// The fan-out set for one issue: one fresh entry per confirmed subscriber,
/// in directory order, all due immediately.
pub open spec fn fanout_entries(subs: Seq<SubscriberV>, issue_id: u64, now: u64) -> Seq<EntryV> {
    confirmed_emails(subs).map_values(|e: Seq<char>| entry_for(issue_id, e, now))
}

/// Cross-component well-formedness: unique idempotency keys, unique issue
/// ids below the next id, unique subscriber emails, a well-formed queue, and
/// every queue entry referring to an already-assigned issue id.
pub open spec fn publisher_wf(s: PublisherV) -> bool {
    &&& unique_keys(s.records)
    &&& issue_store_wf(s.issues)
    &&& unique_emails(s.subscribers)
    &&& wf_entries(s.queue.entries)
    &&& forall|i: int|
        0 <= i < s.queue.entries.len() ==> (#[trigger] s.queue.entries[i]).issue_id
            < s.issues.next_issue_id
}

/// What one publish call does to the whole state, and what it returns.
/// A completed key replays its saved response and changes nothing; an
/// in-flight key changes nothing and asks the caller to retry; a fresh key
/// creates the issue, enqueues the fan-out set and saves the acknowledgment,
/// indivisibly.
pub open spec fn publish_transition(
    s: PublisherV,
    operator_id: u64,
    key: Seq<char>,
    draft: DraftV,
    now: u64,
) -> (PublisherV, PublishOutcomeV) {
    if has_record(s.records, operator_id, key) {
        match found_record(s.records, operator_id, key).state {
            RecordStateV::InProgress => (s, PublishOutcomeV::TryAgainLater),
            RecordStateV::Completed(resp) => (s, PublishOutcomeV::Replayed(resp)),
        }
    } else {
        let issue_id = s.issues.next_issue_id;
        let s2 = PublisherV {
            records: s.records.push(
                RecordV {
                    operator_id,
                    key,
                    state: RecordStateV::Completed(publish_ack_view()),
                    created_at: now,
                },
            ),
            issues: IssueStoreV {
                issues: s.issues.issues.push(issue_of_draft(draft, issue_id, now)),
                next_issue_id: (issue_id + 1) as u64,
            },
            queue: QueueV {
                entries: s.queue.entries + fanout_entries(s.subscribers, issue_id, now),
                failed: s.queue.failed,
            },
            subscribers: s.subscribers,
        };
        (s2, PublishOutcomeV::Published(publish_ack_view()))
    }
}

/// Orchestrates request validation, idempotency claim, issue persistence
/// and atomic fan-out enqueue.
pub struct NewsletterPublisher {
    pub idempotency: IdempotencyStore,
    pub issues: IssueStore,
    pub queue: IssueDeliveryQueue,
    pub directory: SubscriberDirectory,
}

impl View for NewsletterPublisher {
    type V = PublisherV;

    open spec fn view(&self) -> PublisherV {
        PublisherV {
            records: self.idempotency@,
            issues: self.issues@,
            queue: self.queue@,
            subscribers: self.directory@,
        }
    }
}

impl NewsletterPublisher {
    /// A publisher over the given directory, with empty stores.
    pub fn new(directory: SubscriberDirectory) -> (r: Self)
        ensures
            r@.records == Seq::<RecordV>::empty(),
            r@.issues.issues == Seq::<crate::issues::IssueV>::empty(),
            r@.issues.next_issue_id == 0,
            r@.queue.entries == Seq::<EntryV>::empty(),
            r@.queue.failed == Seq::<crate::delivery::FailV>::empty(),
            r@.subscribers == directory@,
            directory.wf() ==> publisher_wf(r@),
    {
        NewsletterPublisher {
            idempotency: IdempotencyStore::new(),
            issues: IssueStore::new(),
            queue: IssueDeliveryQueue::new(),
            directory,
        }
    }

    /// Handles one publish request for (operator, idempotency key): claims
    /// the key, persists the issue, enqueues one delivery task per confirmed
    /// subscriber as one indivisible unit, and saves the acknowledgment; a
    /// repeated key replays the saved response and performs no side effect.
    #[verifier::loop_isolation(false)]
    pub fn publish(
        &mut self,
        operator_id: u64,
        idempotency_key: &String,
        draft: IssueDraft,
        now: u64,
    ) -> (r: PublishOutcome)
        requires
            publisher_wf(old(self)@),
            old(self)@.issues.next_issue_id < u64::MAX,
        ensures
            final(self)@ == publish_transition(
                old(self)@,
                operator_id,
                idempotency_key@,
                draft@,
                now,
            ).0,
            r@ == publish_transition(old(self)@, operator_id, idempotency_key@, draft@, now).1,
            publisher_wf(final(self)@),
    {
        let ghost s0 = self@;
        match self.idempotency.try_claim(operator_id, idempotency_key, now) {
            ClaimOutcome::Conflict => {
                assert(self@ =~= s0);
                PublishOutcome::TryAgainLater
            },
            ClaimOutcome::Completed(saved) => {
                assert(self@ =~= s0);
                PublishOutcome::Replayed(saved)
            },
            ClaimOutcome::Fresh => {
                assert(!has_record(s0.records, operator_id, idempotency_key@));
                let ghost claimed = RecordV {
                    operator_id,
                    key: idempotency_key@,
                    state: RecordStateV::InProgress,
                    created_at: now,
                };
                let issue_id = self.issues.create(draft, now);
                let emails = self.directory.list_confirmed_emails();
                let ghost fan = fanout_entries(s0.subscribers, issue_id, now);
                let ghost q0 = s0.queue;
                let mut j: usize = 0;
                while j < emails.len()
                    invariant
                        0 <= j <= emails@.len(),
                        emails@.map_values(|e: String| e@) == confirmed_emails(s0.subscribers),
                        fan == fanout_entries(s0.subscribers, issue_id, now),
                        self@.records == s0.records.push(claimed),
                        self@.issues.issues == s0.issues.issues.push(
                            issue_of_draft(draft@, issue_id, now),
                        ),
                        self@.issues.next_issue_id == issue_id + 1,
                        self@.subscribers == s0.subscribers,
                        self@.queue.entries == q0.entries + fan.take(j as int),
                        self@.queue.failed == q0.failed,
                    decreases emails@.len() - j,
                {
                    let email = emails[j].clone();
                    self.queue.enqueue(issue_id, email, now);
                    proof {
                        assert(fan[j as int] == entry_for(
                            issue_id,
                            confirmed_emails(s0.subscribers)[j as int],
                            now,
                        ));
                        assert(q0.entries + fan.take(j + 1) =~= (q0.entries + fan.take(
                            j as int,
                        )).push(fan[j as int]));
                    }
                    j += 1;
                }
                proof {
                    assert(fan.take(emails@.len() as int) =~= fan);
                }
                let response = make_publish_ack();
                let saved = response.clone();
                proof {
                    lemma_find_index_push(s0.records, operator_id, idempotency_key@, claimed);
                }
                self.idempotency.complete(operator_id, idempotency_key, saved);
                proof {
                    let done = RecordV {
                        operator_id,
                        key: idempotency_key@,
                        state: RecordStateV::Completed(publish_ack_view()),
                        created_at: now,
                    };
                    assert(self@.records =~= s0.records.push(done));
                    let expected = publish_transition(
                        s0,
                        operator_id,
                        idempotency_key@,
                        draft@,
                        now,
                    ).0;
                    assert(self@.queue.entries == q0.entries + fan);
                    assert(self@ =~~= expected);
                    lemma_publish_preserves_wf(s0, operator_id, idempotency_key@, draft@, now);
                }
                PublishOutcome::Published(response)
            },
        }
    }
}

/// A fresh publish keeps the whole state well formed: the new record is the
/// only one for its key, the new issue id is fresh, and the fan-out set
/// introduces no duplicate (issue, recipient) pair.
pub proof fn lemma_publish_preserves_wf(
    s: PublisherV,
    operator_id: u64,
    key: Seq<char>,
    draft: DraftV,
    now: u64,
)
    requires
        publisher_wf(s),
        s.issues.next_issue_id < u64::MAX,
        !has_record(s.records, operator_id, key),
    ensures
        publisher_wf(publish_transition(s, operator_id, key, draft, now).0),
{
    let s2 = publish_transition(s, operator_id, key, draft, now).0;
    let issue_id = s.issues.next_issue_id;
    let fan = fanout_entries(s.subscribers, issue_id, now);
    let ce = confirmed_emails(s.subscribers);
    crate::idempotency::lemma_find_index_bounds(s.records, operator_id, key);
    assert forall|a: int, b: int|
        0 <= a < b < s2.records.len() implies !(s2.records[a].operator_id
        == s2.records[b].operator_id && s2.records[a].key == s2.records[b].key) by {
        if b == s2.records.len() - 1 {
            assert(s2.records[a] == s.records[a]);
            assert(!crate::idempotency::record_matches(s.records[a], operator_id, key));
        } else {
            assert(s2.records[a] == s.records[a] && s2.records[b] == s.records[b]);
        }
    }
    assert forall|a: int|
        0 <= a < s2.issues.issues.len() implies (#[trigger] s2.issues.issues[a]).id
        < s2.issues.next_issue_id by {
        if a < s2.issues.issues.len() - 1 {
            assert(s2.issues.issues[a] == s.issues.issues[a]);
        }
    }
    assert forall|a: int, b: int|
        0 <= a < b < s2.issues.issues.len() implies s2.issues.issues[a].id
        != s2.issues.issues[b].id by {
        if b == s2.issues.issues.len() - 1 {
            assert(s2.issues.issues[a] == s.issues.issues[a]);
        } else {
            assert(s2.issues.issues[a] == s.issues.issues[a] && s2.issues.issues[b]
                == s.issues.issues[b]);
        }
    }
    lemma_confirmed_emails_props(s.subscribers);
    let n = s.queue.entries.len() as int;
    assert forall|a: int|
        0 <= a < s2.queue.entries.len() implies (#[trigger] s2.queue.entries[a]).n_retries
        < RETRY_CEILING by {
        if a < n {
            assert(s2.queue.entries[a] == s.queue.entries[a]);
        } else {
            assert(s2.queue.entries[a] == fan[a - n]);
        }
    }
    assert forall|a: int, b: int|
        0 <= a < b < s2.queue.entries.len() implies !(s2.queue.entries[a].issue_id
        == s2.queue.entries[b].issue_id && s2.queue.entries[a].email
        == s2.queue.entries[b].email) by {
        if b < n {
            assert(s2.queue.entries[a] == s.queue.entries[a]);
            assert(s2.queue.entries[b] == s.queue.entries[b]);
        } else if a < n {
            assert(s2.queue.entries[a] == s.queue.entries[a]);
            assert(s2.queue.entries[b] == fan[b - n]);
            assert(s.queue.entries[a].issue_id < issue_id);
        } else {
            assert(s2.queue.entries[a] == fan[a - n]);
            assert(s2.queue.entries[b] == fan[b - n]);
            assert(fan[a - n].email == ce[a - n] && fan[b - n].email == ce[b - n]);
        }
    }
    assert forall|a: int|
        0 <= a < s2.queue.entries.len() implies (#[trigger] s2.queue.entries[a]).issue_id
        < s2.issues.next_issue_id by {
        if a < n {
            assert(s2.queue.entries[a] == s.queue.entries[a]);
        } else {
            assert(s2.queue.entries[a] == fan[a - n]);
        }
    }
}

} // verus!
