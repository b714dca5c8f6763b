use vstd::prelude::*;

verus! {

/// A delivery task is retried at most this many times before it is moved to
/// the terminal-failure log.
pub const RETRY_CEILING: u32 = 5;

/// The backoff between attempts grows by this much per recorded retry.
pub const BACKOFF_STEP_SECONDS: u64 = 10;

/// Backoff before the n-th retry; strictly increasing in n.
pub open spec fn backoff_seconds(n: u32) -> int {
    n * (BACKOFF_STEP_SECONDS as int)
}

/// The largest backoff a queue entry can ever be assigned.
pub open spec fn max_backoff_seconds() -> int {
    (RETRY_CEILING as int) * (BACKOFF_STEP_SECONDS as int)
}

/// One pending delivery task: one (issue, recipient) pair with its retry
/// bookkeeping.  `claimed` marks the exclusive lease a worker holds while an
/// attempt is in flight.
pub struct DeliveryQueueEntry {
    pub issue_id: u64,
    pub subscriber_email: String,
    pub n_retries: u32,
    pub execute_after: u64,
    pub claimed: bool,
}

#[verifier::ext_equal]
pub ghost struct EntryV {
    pub issue_id: u64,
    pub email: Seq<char>,
    pub n_retries: u32,
    pub execute_after: u64,
    pub claimed: bool,
}

impl View for DeliveryQueueEntry {
    type V = EntryV;

    open spec fn view(&self) -> EntryV {
        EntryV {
            issue_id: self.issue_id,
            email: self.subscriber_email@,
            n_retries: self.n_retries,
            execute_after: self.execute_after,
            claimed: self.claimed,
        }
    }
}

/// Why a task left the active queue without a confirmed delivery.
#[derive(Clone, Copy, PartialEq, Eq, Structural)]
pub enum FailureReason {
    RetriesExhausted,
    PermanentlyRejected,
}

/// An operator-visible record of a task that will not be attempted again.
pub struct TerminalFailure {
    pub issue_id: u64,
    pub subscriber_email: String,
    pub n_retries: u32,
    pub reason: FailureReason,
}

#[verifier::ext_equal]
pub ghost struct FailV {
    pub issue_id: u64,
    pub email: Seq<char>,
    pub n_retries: u32,
    pub reason: FailureReason,
}

impl View for TerminalFailure {
    type V = FailV;

    open spec fn view(&self) -> FailV {
        FailV {
            issue_id: self.issue_id,
            email: self.subscriber_email@,
            n_retries: self.n_retries,
            reason: self.reason,
        }
    }
}

#[verifier::ext_equal]
pub ghost struct QueueV {
    pub entries: Seq<EntryV>,
    pub failed: Seq<FailV>,
}

/// The entry freshly enqueued at fan-out time for one recipient.
pub open spec fn entry_for(issue_id: u64, email: Seq<char>, now: u64) -> EntryV {
    EntryV { issue_id, email, n_retries: 0, execute_after: now, claimed: false }
}

/// Whether an entry belongs to the given (issue, recipient) pair.
pub open spec fn entry_matches(e: EntryV, issue_id: u64, email: Seq<char>) -> bool {
    e.issue_id == issue_id && e.email == email
}

/// Index of the first entry for the pair, or the length when none exists.
pub open spec fn entry_index(entries: Seq<EntryV>, issue_id: u64, email: Seq<char>) -> int
    decreases entries.len(),
{
    if entries.len() == 0 {
        0
    } else if entry_matches(entries[0], issue_id, email) {
        0
    } else {
        1 + entry_index(entries.drop_first(), issue_id, email)
    }
}

/// Whether some entry for the pair is still pending or claimed.
pub open spec fn has_entry(entries: Seq<EntryV>, issue_id: u64, email: Seq<char>) -> bool {
    entry_index(entries, issue_id, email) < entries.len()
}

/// The entry found for the pair; meaningful only when `has_entry` holds.
pub open spec fn found_entry(entries: Seq<EntryV>, issue_id: u64, email: Seq<char>) -> EntryV {
    entries[entry_index(entries, issue_id, email)]
}

/// The first matching position determines `entry_index` exactly.
pub proof fn lemma_entry_index_is_first(
    entries: Seq<EntryV>,
    issue_id: u64,
    email: Seq<char>,
    i: int,
)
    requires
        0 <= i <= entries.len(),
        forall|j: int| 0 <= j < i ==> !entry_matches(entries[j], issue_id, email),
        i < entries.len() ==> entry_matches(entries[i], issue_id, email),
    ensures
        entry_index(entries, issue_id, email) == i,
    decreases entries.len(),
{
    if entries.len() == 0 {
    } else if entry_matches(entries[0], issue_id, email) {
        assert(i == 0);
    } else {
        assert forall|j: int| 0 <= j < i - 1 implies !entry_matches(
            entries.drop_first()[j],
            issue_id,
            email,
        ) by {
            assert(entries.drop_first()[j] == entries[j + 1]);
        }
        lemma_entry_index_is_first(entries.drop_first(), issue_id, email, i - 1);
    }
}

/// `entry_index` points at an entry of the pair, below it nothing matches.
pub proof fn lemma_entry_index_bounds(entries: Seq<EntryV>, issue_id: u64, email: Seq<char>)
    ensures
        0 <= entry_index(entries, issue_id, email) <= entries.len(),
        entry_index(entries, issue_id, email) < entries.len() ==> entry_matches(
            entries[entry_index(entries, issue_id, email)],
            issue_id,
            email,
        ),
        forall|j: int|
            0 <= j < entry_index(entries, issue_id, email) ==> !entry_matches(
                entries[j],
                issue_id,
                email,
            ),
    decreases entries.len(),
{
    if entries.len() == 0 {
    } else if entry_matches(entries[0], issue_id, email) {
    } else {
        lemma_entry_index_bounds(entries.drop_first(), issue_id, email);
        assert forall|j: int|
            0 <= j < entry_index(entries, issue_id, email) implies !entry_matches(
            entries[j],
            issue_id,
            email,
        ) by {
            if j > 0 {
                assert(entries.drop_first()[j - 1] == entries[j]);
            }
        }
    }
}

/// A matching entry anywhere in the queue means the pair is present.
pub proof fn lemma_has_entry_of_witness(
    entries: Seq<EntryV>,
    issue_id: u64,
    email: Seq<char>,
    i: int,
)
    requires
        0 <= i < entries.len(),
        entry_matches(entries[i], issue_id, email),
    ensures
        has_entry(entries, issue_id, email),
    decreases entries.len(),
{
    if entry_matches(entries[0], issue_id, email) {
    } else {
        assert(entries.drop_first()[i - 1] == entries[i]);
        lemma_has_entry_of_witness(entries.drop_first(), issue_id, email, i - 1);
    }
}

/// A worker may pick an entry only when it is unclaimed and due.
pub open spec fn eligible(e: EntryV, now: u64) -> bool {
    !e.claimed && e.execute_after <= now
}

/// Index of the first eligible entry, or the length when none is due.
pub open spec fn first_eligible(entries: Seq<EntryV>, now: u64) -> int
    decreases entries.len(),
{
    if entries.len() == 0 {
        0
    } else if eligible(entries[0], now) {
        0
    } else {
        1 + first_eligible(entries.drop_first(), now)
    }
}

/// `first_eligible` points at an eligible entry, below it none is due.
pub proof fn lemma_first_eligible_bounds(entries: Seq<EntryV>, now: u64)
    ensures
        0 <= first_eligible(entries, now) <= entries.len(),
        first_eligible(entries, now) < entries.len() ==> eligible(
            entries[first_eligible(entries, now)],
            now,
        ),
        forall|j: int| 0 <= j < first_eligible(entries, now) ==> !eligible(entries[j], now),
    decreases entries.len(),
{
    if entries.len() == 0 {
    } else if eligible(entries[0], now) {
    } else {
        lemma_first_eligible_bounds(entries.drop_first(), now);
        assert forall|j: int|
            0 <= j < first_eligible(entries, now) implies !eligible(entries[j], now) by {
            if j > 0 {
                assert(entries.drop_first()[j - 1] == entries[j]);
            }
        }
    }
}

/// The first eligible position determines `first_eligible` exactly.
pub proof fn lemma_first_eligible_is_first(entries: Seq<EntryV>, now: u64, i: int)
    requires
        0 <= i <= entries.len(),
        forall|j: int| 0 <= j < i ==> !eligible(entries[j], now),
        i < entries.len() ==> eligible(entries[i], now),
    ensures
        first_eligible(entries, now) == i,
    decreases entries.len(),
{
    if entries.len() == 0 {
    } else if eligible(entries[0], now) {
        assert(i == 0);
    } else {
        assert forall|j: int| 0 <= j < i - 1 implies !eligible(entries.drop_first()[j], now) by {
            assert(entries.drop_first()[j] == entries[j + 1]);
        }
        lemma_first_eligible_is_first(entries.drop_first(), now, i - 1);
    }
}

/// The entry with the worker's exclusive lease set.
pub open spec fn claimed_entry(e: EntryV) -> EntryV {
    EntryV {
        issue_id: e.issue_id,
        email: e.email,
        n_retries: e.n_retries,
        execute_after: e.execute_after,
        claimed: true,
    }
}

/// The entry as it returns to pending after a transient failure: one more
/// recorded retry and a strictly later due time.
pub open spec fn reschedule_entry(e: EntryV, now: u64) -> EntryV {
    EntryV {
        issue_id: e.issue_id,
        email: e.email,
        n_retries: (e.n_retries + 1) as u32,
        execute_after: (now + backoff_seconds((e.n_retries + 1) as u32)) as u64,
        claimed: false,
    }
}

/// Whether one more transient failure moves the entry to the terminal log.
pub open spec fn exhausts_retries(e: EntryV) -> bool {
    e.n_retries + 1 >= RETRY_CEILING
}

/// What claiming does to the queue: the first due entry gains the lease;
/// with no due entry nothing changes.
pub open spec fn claim_transition(q: QueueV, now: u64) -> QueueV {
    let i = first_eligible(q.entries, now);
    if i < q.entries.len() {
        QueueV { entries: q.entries.update(i, claimed_entry(q.entries[i])), failed: q.failed }
    } else {
        q
    }
}

/// A confirmed delivery deletes the entry, preventing any second attempt.
pub open spec fn success_transition(q: QueueV, i: int) -> QueueV {
    QueueV { entries: q.entries.remove(i), failed: q.failed }
}

/// A transient failure reschedules the entry with backoff, or moves it to
/// the terminal log once its retry budget is spent.
pub open spec fn transient_transition(q: QueueV, i: int, now: u64) -> QueueV {
    let e = q.entries[i];
    if !exhausts_retries(e) {
        QueueV { entries: q.entries.update(i, reschedule_entry(e, now)), failed: q.failed }
    } else {
        QueueV {
            entries: q.entries.remove(i),
            failed: q.failed.push(
                FailV {
                    issue_id: e.issue_id,
                    email: e.email,
                    n_retries: (e.n_retries + 1) as u32,
                    reason: FailureReason::RetriesExhausted,
                },
            ),
        }
    }
}

/// A permanent failure moves the entry to the terminal log at once.
pub open spec fn permanent_transition(q: QueueV, i: int) -> QueueV {
    let e = q.entries[i];
    QueueV {
        entries: q.entries.remove(i),
        failed: q.failed.push(
            FailV {
                issue_id: e.issue_id,
                email: e.email,
                n_retries: e.n_retries,
                reason: FailureReason::PermanentlyRejected,
            },
        ),
    }
}

/// A lease given up without a resolution returns the entry to pending.
pub open spec fn release_transition(q: QueueV, i: int) -> QueueV {
    let e = q.entries[i];
    QueueV {
        entries: q.entries.update(
            i,
            EntryV {
                issue_id: e.issue_id,
                email: e.email,
                n_retries: e.n_retries,
                execute_after: e.execute_after,
                claimed: false,
            },
        ),
        failed: q.failed,
    }
}

/// Every entry still has retry budget left, and no (issue, recipient) pair
/// appears twice.
pub open spec fn wf_entries(entries: Seq<EntryV>) -> bool {
    &&& forall|i: int| 0 <= i < entries.len() ==> (#[trigger] entries[i]).n_retries < RETRY_CEILING
    &&& forall|i: int, j: int|
        0 <= i < j < entries.len() ==> !(entries[i].issue_id == entries[j].issue_id
            && entries[i].email == entries[j].email)
}

/// Removing an entry removes nothing else and keeps the queue well formed.
pub proof fn lemma_wf_entries_remove(entries: Seq<EntryV>, i: int)
    requires
        wf_entries(entries),
        0 <= i < entries.len(),
    ensures
        wf_entries(entries.remove(i)),
{
    let r = entries.remove(i);
    assert forall|a: int| 0 <= a < r.len() implies (#[trigger] r[a]).n_retries < RETRY_CEILING by {
        if a < i {
            assert(r[a] == entries[a]);
        } else {
            assert(r[a] == entries[a + 1]);
        }
    }
    assert forall|a: int, b: int| 0 <= a < b < r.len() implies !(r[a].issue_id == r[b].issue_id
        && r[a].email == r[b].email) by {
        let a0 = if a < i { a } else { a + 1 };
        let b0 = if b < i { b } else { b + 1 };
        assert(r[a] == entries[a0] && r[b] == entries[b0]);
    }
}

/// Updating an entry without touching its pair keeps the queue well formed.
pub proof fn lemma_wf_entries_update(entries: Seq<EntryV>, i: int, e: EntryV)
    requires
        wf_entries(entries),
        0 <= i < entries.len(),
        e.issue_id == entries[i].issue_id,
        e.email == entries[i].email,
        e.n_retries < RETRY_CEILING,
    ensures
        wf_entries(entries.update(i, e)),
{
    let u = entries.update(i, e);
    assert forall|a: int| 0 <= a < u.len() implies (#[trigger] u[a]).n_retries < RETRY_CEILING by {
        if a != i {
            assert(u[a] == entries[a]);
        }
    }
    assert forall|a: int, b: int| 0 <= a < b < u.len() implies !(u[a].issue_id == u[b].issue_id
        && u[a].email == u[b].email) by {
        assert(u[a].issue_id == entries[a].issue_id && u[a].email == entries[a].email);
        assert(u[b].issue_id == entries[b].issue_id && u[b].email == entries[b].email);
    }
}

/// What `claim_one` hands a worker: the pair to deliver and its retry count.
pub struct DeliveryTask {
    pub issue_id: u64,
    pub subscriber_email: String,
    pub n_retries: u32,
}

/// The durable outbox of pending (issue, recipient) delivery tasks, with the
/// terminal-failure log beside it.
pub struct IssueDeliveryQueue {
    entries: Vec<DeliveryQueueEntry>,
    failed: Vec<TerminalFailure>,
}

impl View for IssueDeliveryQueue {
    type V = QueueV;

    closed spec fn view(&self) -> QueueV {
        QueueV {
            entries: self.entries@.map_values(|e: DeliveryQueueEntry| e@),
            failed: self.failed@.map_values(|f: TerminalFailure| f@),
        }
    }
}

impl IssueDeliveryQueue {
    /// An empty queue.
    pub fn new() -> (r: Self)
        ensures
            r@.entries == Seq::<EntryV>::empty(),
            r@.failed == Seq::<FailV>::empty(),
    {
        let q = IssueDeliveryQueue { entries: Vec::new(), failed: Vec::new() };
        assert(q@.entries =~= Seq::<EntryV>::empty());
        assert(q@.failed =~= Seq::<FailV>::empty());
        q
    }

    /// No pair is queued twice and every entry has retry budget left.
    pub open spec fn wf(&self) -> bool {
        wf_entries(self@.entries)
    }

    /// Appends a fresh task for one recipient, due immediately.
    pub fn enqueue(&mut self, issue_id: u64, subscriber_email: String, now: u64)
        ensures
            final(self)@.entries == old(self)@.entries.push(
                entry_for(issue_id, subscriber_email@, now),
            ),
            final(self)@.failed == old(self)@.failed,
    {
        let ghost orig = self@;
        let ghost em = subscriber_email@;
        self.entries.push(
            DeliveryQueueEntry {
                issue_id,
                subscriber_email,
                n_retries: 0,
                execute_after: now,
                claimed: false,
            },
        );
        assert(self@.entries =~= orig.entries.push(entry_for(issue_id, em, now)));
        assert(self@.failed =~= orig.failed);
    }

    /// Claims the first due entry exclusively for one worker, if any is due.
    #[verifier::loop_isolation(false)]
    pub fn claim_one(&mut self, now: u64) -> (r: Option<DeliveryTask>)
        ensures
            final(self)@ == claim_transition(old(self)@, now),
            match r {
                None => first_eligible(old(self)@.entries, now) == old(self)@.entries.len(),
                Some(task) => {
                    let i = first_eligible(old(self)@.entries, now);
                    &&& i < old(self)@.entries.len()
                    &&& eligible(old(self)@.entries[i], now)
                    &&& task.issue_id == old(self)@.entries[i].issue_id
                    &&& task.subscriber_email@ == old(self)@.entries[i].email
                    &&& task.n_retries == old(self)@.entries[i].n_retries
                },
            },
            old(self).wf() ==> final(self).wf(),
    {
        let ghost orig = self@;
        let mut i: usize = 0;
        while i < self.entries.len()
            invariant
                0 <= i <= self.entries@.len(),
                self@ == orig,
                forall|j: int| 0 <= j < i ==> !eligible(orig.entries[j], now),
            decreases self.entries@.len() - i,
        {
            if !self.entries[i].claimed && self.entries[i].execute_after <= now {
                proof {
                    lemma_first_eligible_is_first(orig.entries, now, i as int);
                }
                let task = DeliveryTask {
                    issue_id: self.entries[i].issue_id,
                    subscriber_email: self.entries[i].subscriber_email.clone(),
                    n_retries: self.entries[i].n_retries,
                };
                self.entries[i].claimed = true;
                assert(self@.entries =~= orig.entries.update(
                    i as int,
                    claimed_entry(orig.entries[i as int]),
                ));
                assert(self@.failed =~= orig.failed);
                proof {
                    if wf_entries(orig.entries) {
                        lemma_wf_entries_update(
                            orig.entries,
                            i as int,
                            claimed_entry(orig.entries[i as int]),
                        );
                    }
                }
                return Some(task);
            }
            i += 1;
        }
        proof {
            lemma_first_eligible_is_first(orig.entries, now, self.entries@.len() as int);
        }
        None
    }

    /// Position of the pair's entry; the caller knows one exists.
    #[verifier::loop_isolation(false)]
    fn position_of(&self, issue_id: u64, subscriber_email: &String) -> (i: usize)
        requires
            has_entry(self@.entries, issue_id, subscriber_email@),
        ensures
            i == entry_index(self@.entries, issue_id, subscriber_email@),
            i < self@.entries.len(),
    {
        let mut i: usize = 0;
        while i < self.entries.len()
            invariant
                0 <= i <= self.entries@.len(),
                forall|j: int|
                    0 <= j < i ==> !entry_matches(self@.entries[j], issue_id, subscriber_email@),
            decreases self.entries@.len() - i,
        {
            if self.entries[i].issue_id == issue_id && self.entries[i].subscriber_email.eq(
                subscriber_email,
            ) {
                proof {
                    lemma_entry_index_is_first(
                        self@.entries,
                        issue_id,
                        subscriber_email@,
                        i as int,
                    );
                }
                return i;
            }
            i += 1;
        }
        proof {
            lemma_entry_index_is_first(
                self@.entries,
                issue_id,
                subscriber_email@,
                self.entries@.len() as int,
            );
            assert(false);
        }
        0
    }

    /// Deletes the claimed entry after a confirmed delivery; the pair can
    /// never be attempted again.
    pub fn resolve_success(&mut self, issue_id: u64, subscriber_email: &String)
        requires
            has_entry(old(self)@.entries, issue_id, subscriber_email@),
            found_entry(old(self)@.entries, issue_id, subscriber_email@).claimed,
        ensures
            final(self)@ == success_transition(
                old(self)@,
                entry_index(old(self)@.entries, issue_id, subscriber_email@),
            ),
            old(self).wf() ==> final(self).wf(),
    {
        let ghost orig = self@;
        let i = self.position_of(issue_id, subscriber_email);
        self.entries.remove(i);
        assert(self@.entries =~= orig.entries.remove(i as int));
        assert(self@.failed =~= orig.failed);
        proof {
            if wf_entries(orig.entries) {
                lemma_wf_entries_remove(orig.entries, i as int);
            }
        }
    }

    /// Books one transient failure for the claimed entry: reschedules it
    /// with a strictly larger backoff, or moves it to the terminal log once
    /// its retry budget is spent.
    pub fn resolve_transient(&mut self, issue_id: u64, subscriber_email: &String, now: u64)
        requires
            has_entry(old(self)@.entries, issue_id, subscriber_email@),
            found_entry(old(self)@.entries, issue_id, subscriber_email@).claimed,
            found_entry(old(self)@.entries, issue_id, subscriber_email@).n_retries < RETRY_CEILING,
            now + max_backoff_seconds() <= u64::MAX,
        ensures
            final(self)@ == transient_transition(
                old(self)@,
                entry_index(old(self)@.entries, issue_id, subscriber_email@),
                now,
            ),
            old(self).wf() ==> final(self).wf(),
    {
        let ghost orig = self@;
        let i = self.position_of(issue_id, subscriber_email);
        let retries = self.entries[i].n_retries;
        if retries + 1 < RETRY_CEILING {
            let backoff = ((retries + 1) as u64) * BACKOFF_STEP_SECONDS;
            assert(backoff <= max_backoff_seconds());
            self.entries[i].n_retries = retries + 1;
            self.entries[i].execute_after = now + backoff;
            self.entries[i].claimed = false;
            assert(self@.entries =~= orig.entries.update(
                i as int,
                reschedule_entry(orig.entries[i as int], now),
            ));
            assert(self@.failed =~= orig.failed);
            proof {
                if wf_entries(orig.entries) {
                    lemma_wf_entries_update(
                        orig.entries,
                        i as int,
                        reschedule_entry(orig.entries[i as int], now),
                    );
                }
            }
        } else {
            let entry = self.entries.remove(i);
            self.failed.push(
                TerminalFailure {
                    issue_id: entry.issue_id,
                    subscriber_email: entry.subscriber_email,
                    n_retries: retries + 1,
                    reason: FailureReason::RetriesExhausted,
                },
            );
            assert(self@.entries =~= orig.entries.remove(i as int));
            assert(self@.failed =~= orig.failed.push(
                FailV {
                    issue_id: orig.entries[i as int].issue_id,
                    email: orig.entries[i as int].email,
                    n_retries: (orig.entries[i as int].n_retries + 1) as u32,
                    reason: FailureReason::RetriesExhausted,
                },
            ));
            proof {
                if wf_entries(orig.entries) {
                    lemma_wf_entries_remove(orig.entries, i as int);
                }
            }
        }
    }

    /// Books a permanent failure for the claimed entry: straight to the
    /// terminal log, never retried.
    pub fn resolve_permanent(&mut self, issue_id: u64, subscriber_email: &String)
        requires
            has_entry(old(self)@.entries, issue_id, subscriber_email@),
            found_entry(old(self)@.entries, issue_id, subscriber_email@).claimed,
        ensures
            final(self)@ == permanent_transition(
                old(self)@,
                entry_index(old(self)@.entries, issue_id, subscriber_email@),
            ),
            old(self).wf() ==> final(self).wf(),
    {
        let ghost orig = self@;
        let i = self.position_of(issue_id, subscriber_email);
        let entry = self.entries.remove(i);
        self.failed.push(
            TerminalFailure {
                issue_id: entry.issue_id,
                subscriber_email: entry.subscriber_email,
                n_retries: entry.n_retries,
                reason: FailureReason::PermanentlyRejected,
            },
        );
        assert(self@.entries =~= orig.entries.remove(i as int));
        assert(self@.failed =~= orig.failed.push(
            FailV {
                issue_id: orig.entries[i as int].issue_id,
                email: orig.entries[i as int].email,
                n_retries: orig.entries[i as int].n_retries,
                reason: FailureReason::PermanentlyRejected,
            },
        ));
        proof {
            if wf_entries(orig.entries) {
                lemma_wf_entries_remove(orig.entries, i as int);
            }
        }
    }

    /// Gives up a lease without resolving it, as crash recovery does for a
    /// worker that died mid-attempt; the entry becomes claimable again.
    pub fn release_claim(&mut self, issue_id: u64, subscriber_email: &String)
        requires
            has_entry(old(self)@.entries, issue_id, subscriber_email@),
        ensures
            final(self)@ == release_transition(
                old(self)@,
                entry_index(old(self)@.entries, issue_id, subscriber_email@),
            ),
            old(self).wf() ==> final(self).wf(),
    {
        let ghost orig = self@;
        let i = self.position_of(issue_id, subscriber_email);
        self.entries[i].claimed = false;
        assert(self@.entries =~= release_transition(orig, i as int).entries);
        assert(self@.failed =~= orig.failed);
        proof {
            if wf_entries(orig.entries) {
                lemma_wf_entries_update(
                    orig.entries,
                    i as int,
                    release_transition(orig, i as int).entries[i as int],
                );
            }
        }
    }

    /// Number of entries still pending or claimed.
    pub fn pending_count(&self) -> (n: usize)
        ensures
            n == self@.entries.len(),
    {
        self.entries.len()
    }

    /// Number of terminal failures recorded.
    pub fn failure_count(&self) -> (n: usize)
        ensures
            n == self@.failed.len(),
    {
        self.failed.len()
    }

    /// The terminal-failure log, for operator inspection.
    pub fn failures(&self) -> (r: &Vec<TerminalFailure>)
        ensures
            r@.map_values(|f: TerminalFailure| f@) == self@.failed,
    {
        &self.failed
    }

    /// Looks the pair's entry up, for inspection.
    #[verifier::loop_isolation(false)]
    pub fn entry(&self, issue_id: u64, subscriber_email: &String) -> (r: Option<
        &DeliveryQueueEntry,
    >)
        ensures
            match r {
                Some(e) => has_entry(self@.entries, issue_id, subscriber_email@) && e@
                    == found_entry(self@.entries, issue_id, subscriber_email@),
                None => !has_entry(self@.entries, issue_id, subscriber_email@),
            },
    {
        let mut i: usize = 0;
        while i < self.entries.len()
            invariant
                0 <= i <= self.entries@.len(),
                forall|j: int|
                    0 <= j < i ==> !entry_matches(self@.entries[j], issue_id, subscriber_email@),
            decreases self.entries@.len() - i,
        {
            if self.entries[i].issue_id == issue_id && self.entries[i].subscriber_email.eq(
                subscriber_email,
            ) {
                proof {
                    lemma_entry_index_is_first(
                        self@.entries,
                        issue_id,
                        subscriber_email@,
                        i as int,
                    );
                }
                return Some(&self.entries[i]);
            }
            i += 1;
        }
        proof {
            lemma_entry_index_is_first(
                self@.entries,
                issue_id,
                subscriber_email@,
                self.entries@.len() as int,
            );
        }
        None
    }
}

} // verus!
