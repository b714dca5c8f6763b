use vstd::prelude::*;
use crate::http::{HttpResponse, ResponseV};

verus! {

/// Claim state of one idempotency record: a placeholder while the keyed
/// request is being processed, then the saved response once it is known.
pub enum RecordState {
    InProgress,
    Completed(HttpResponse),
}

#[verifier::ext_equal]
pub ghost enum RecordStateV {
    InProgress,
    Completed(ResponseV),
}

impl View for RecordState {
    type V = RecordStateV;

    open spec fn view(&self) -> RecordStateV {
        match self {
            RecordState::InProgress => RecordStateV::InProgress,
            RecordState::Completed(resp) => RecordStateV::Completed(resp@),
        }
    }
}

/// One row of the idempotency table, keyed by (operator, idempotency key).
pub struct IdempotencyRecord {
    pub operator_id: u64,
    pub idempotency_key: String,
    pub state: RecordState,
    pub created_at: u64,
}

#[verifier::ext_equal]
pub ghost struct RecordV {
    pub operator_id: u64,
    pub key: Seq<char>,
    pub state: RecordStateV,
    pub created_at: u64,
}

impl View for IdempotencyRecord {
    type V = RecordV;

    open spec fn view(&self) -> RecordV {
        RecordV {
            operator_id: self.operator_id,
            key: self.idempotency_key@,
            state: self.state@,
            created_at: self.created_at,
        }
    }
}

/// Whether a record belongs to the given (operator, key) pair.
pub open spec fn record_matches(r: RecordV, operator_id: u64, key: Seq<char>) -> bool {
    r.operator_id == operator_id && r.key == key
}

/// Index of the first record for the pair, or the length when none exists.
pub open spec fn find_index(records: Seq<RecordV>, operator_id: u64, key: Seq<char>) -> int
    decreases records.len(),
{
    if records.len() == 0 {
        0
    } else if record_matches(records[0], operator_id, key) {
        0
    } else {
        1 + find_index(records.drop_first(), operator_id, key)
    }
}

/// Whether some record for the pair exists.
pub open spec fn has_record(records: Seq<RecordV>, operator_id: u64, key: Seq<char>) -> bool {
    find_index(records, operator_id, key) < records.len()
}

/// The record found for the pair; meaningful only when `has_record` holds.
pub open spec fn found_record(records: Seq<RecordV>, operator_id: u64, key: Seq<char>) -> RecordV {
    records[find_index(records, operator_id, key)]
}

/// At most one record exists per (operator, key) pair.
pub open spec fn unique_keys(records: Seq<RecordV>) -> bool {
    forall|i: int, j: int|
        0 <= i < j < records.len() ==> !(records[i].operator_id == records[j].operator_id
            && records[i].key == records[j].key)
}

/// `find_index` points at a record of the pair, below it nothing matches.
pub proof fn lemma_find_index_bounds(records: Seq<RecordV>, operator_id: u64, key: Seq<char>)
    ensures
        0 <= find_index(records, operator_id, key) <= records.len(),
        find_index(records, operator_id, key) < records.len() ==> record_matches(
            records[find_index(records, operator_id, key)],
            operator_id,
            key,
        ),
        forall|j: int|
            0 <= j < find_index(records, operator_id, key) ==> !record_matches(
                records[j],
                operator_id,
                key,
            ),
    decreases records.len(),
{
    if records.len() == 0 {
    } else if record_matches(records[0], operator_id, key) {
    } else {
        lemma_find_index_bounds(records.drop_first(), operator_id, key);
        assert forall|j: int|
            0 <= j < find_index(records, operator_id, key) implies !record_matches(
            records[j],
            operator_id,
            key,
        ) by {
            if j > 0 {
                assert(records.drop_first()[j - 1] == records[j]);
            }
        }
    }
}

/// The first matching position determines `find_index` exactly.
pub proof fn lemma_find_index_is_first(
    records: Seq<RecordV>,
    operator_id: u64,
    key: Seq<char>,
    i: int,
)
    requires
        0 <= i <= records.len(),
        forall|j: int| 0 <= j < i ==> !record_matches(records[j], operator_id, key),
        i < records.len() ==> record_matches(records[i], operator_id, key),
    ensures
        find_index(records, operator_id, key) == i,
    decreases records.len(),
{
    if records.len() == 0 {
    } else if record_matches(records[0], operator_id, key) {
        assert(i == 0);
    } else {
        assert(i > 0);
        assert forall|j: int| 0 <= j < i - 1 implies !record_matches(
            records.drop_first()[j],
            operator_id,
            key,
        ) by {
            assert(records.drop_first()[j] == records[j + 1]);
        }
        assert(i - 1 < records.drop_first().len() ==> record_matches(
            records.drop_first()[i - 1],
            operator_id,
            key,
        ));
        lemma_find_index_is_first(records.drop_first(), operator_id, key, i - 1);
    }
}

/// Appending the first record for an absent pair puts it where `find_index`
/// will look it up.
pub proof fn lemma_find_index_push(
    records: Seq<RecordV>,
    operator_id: u64,
    key: Seq<char>,
    r: RecordV,
)
    requires
        !has_record(records, operator_id, key),
        record_matches(r, operator_id, key),
    ensures
        find_index(records.push(r), operator_id, key) == records.len(),
        has_record(records.push(r), operator_id, key),
        found_record(records.push(r), operator_id, key) == r,
{
    lemma_find_index_bounds(records, operator_id, key);
    assert forall|j: int| 0 <= j < records.len() implies !record_matches(
        records.push(r)[j],
        operator_id,
        key,
    ) by {
        assert(records.push(r)[j] == records[j]);
    }
    lemma_find_index_is_first(records.push(r), operator_id, key, records.len() as int);
}

/// What `try_claim` reports back to the publisher.
pub enum ClaimOutcome {
    /// No record existed; an in-progress claim is now in place.
    Fresh,
    /// A claim for the pair is still being processed.
    Conflict,
    /// The request was already completed; the saved response is replayed.
    Completed(HttpResponse),
}

/// The idempotency table: maps (operator, idempotency key) to a claim state
/// and, once resolved, a saved response.
pub struct IdempotencyStore {
    records: Vec<IdempotencyRecord>,
}

impl View for IdempotencyStore {
    type V = Seq<RecordV>;

    closed spec fn view(&self) -> Seq<RecordV> {
        self.records@.map_values(|r: IdempotencyRecord| r@)
    }
}

impl IdempotencyStore {
    /// An empty table.
    pub fn new() -> (r: Self)
        ensures
            r@ == Seq::<RecordV>::empty(),
    {
        let store = IdempotencyStore { records: Vec::new() };
        assert(store@ =~= Seq::<RecordV>::empty());
        store
    }

    /// Tries to insert an in-progress claim for the pair: succeeds only when
    /// no record exists; otherwise reports the existing claim and writes
    /// nothing.
    pub fn try_claim(&mut self, operator_id: u64, idempotency_key: &String, now: u64) -> (r:
        ClaimOutcome)
        ensures
            has_record(old(self)@, operator_id, idempotency_key@) ==> {
                &&& final(self)@ == old(self)@
                &&& match found_record(old(self)@, operator_id, idempotency_key@).state {
                    RecordStateV::InProgress => r is Conflict,
                    RecordStateV::Completed(resp) => r matches ClaimOutcome::Completed(saved)
                        && saved@ == resp,
                }
            },
            !has_record(old(self)@, operator_id, idempotency_key@) ==> {
                &&& r is Fresh
                &&& final(self)@ == old(self)@.push(
                    RecordV {
                        operator_id,
                        key: idempotency_key@,
                        state: RecordStateV::InProgress,
                        created_at: now,
                    },
                )
            },
            unique_keys(old(self)@) ==> unique_keys(final(self)@),
    {
        let ghost orig = self@;
        let mut i: usize = 0;
        while i < self.records.len()
            invariant
                0 <= i <= self.records@.len(),
                self@ == orig,
                orig == self.records@.map_values(|r: IdempotencyRecord| r@),
                forall|j: int| 0 <= j < i ==> !record_matches(orig[j], operator_id, idempotency_key@),
            decreases self.records@.len() - i,
        {
            let rec = &self.records[i];
            if rec.operator_id == operator_id && rec.idempotency_key.eq(idempotency_key) {
                proof {
                    lemma_find_index_is_first(orig, operator_id, idempotency_key@, i as int);
                }
                match &self.records[i].state {
                    RecordState::InProgress => {
                        return ClaimOutcome::Conflict;
                    },
                    RecordState::Completed(resp) => {
                        let saved = resp.clone();
                        return ClaimOutcome::Completed(saved);
                    },
                }
            }
            i += 1;
        }
        proof {
            lemma_find_index_is_first(
                orig,
                operator_id,
                idempotency_key@,
                self.records@.len() as int,
            );
        }
        let claim = IdempotencyRecord {
            operator_id,
            idempotency_key: idempotency_key.clone(),
            state: RecordState::InProgress,
            created_at: now,
        };
        self.records.push(claim);
        assert(self@ =~= orig.push(
            RecordV {
                operator_id,
                key: idempotency_key@,
                state: RecordStateV::InProgress,
                created_at: now,
            },
        ));
        proof {
            if unique_keys(orig) {
                assert forall|a: int, b: int| 0 <= a < b < self@.len() implies !(self@[a].operator_id
                    == self@[b].operator_id && self@[a].key == self@[b].key) by {
                    if b == self@.len() - 1 {
                        assert(!record_matches(orig[a], operator_id, idempotency_key@));
                    }
                }
            }
        }
        ClaimOutcome::Fresh
    }

    /// Resolves the claim for the pair: stores the exact response to replay
    /// on every future request bearing the key.  Completion may run in a
    /// different process than the claim, so it finds the record by key alone.
    #[verifier::loop_isolation(false)]
    pub fn complete(&mut self, operator_id: u64, idempotency_key: &String, response: HttpResponse)
        requires
            has_record(old(self)@, operator_id, idempotency_key@),
        ensures
            final(self)@ == old(self)@.update(
                find_index(old(self)@, operator_id, idempotency_key@),
                RecordV {
                    operator_id,
                    key: idempotency_key@,
                    state: RecordStateV::Completed(response@),
                    created_at: found_record(old(self)@, operator_id, idempotency_key@).created_at,
                },
            ),
            unique_keys(old(self)@) ==> unique_keys(final(self)@),
    {
        let ghost orig = self@;
        proof {
            lemma_find_index_bounds(orig, operator_id, idempotency_key@);
        }
        let mut i: usize = 0;
        while i < self.records.len()
            invariant
                0 <= i <= self.records@.len(),
                self@ == orig,
                orig == self.records@.map_values(|r: IdempotencyRecord| r@),
                has_record(orig, operator_id, idempotency_key@),
                forall|j: int| 0 <= j < i ==> !record_matches(orig[j], operator_id, idempotency_key@),
            decreases self.records@.len() - i,
        {
            let rec = &self.records[i];
            if rec.operator_id == operator_id && rec.idempotency_key.eq(idempotency_key) {
                proof {
                    lemma_find_index_is_first(orig, operator_id, idempotency_key@, i as int);
                }
                self.records[i].state = RecordState::Completed(response);
                assert(self@ =~= orig.update(
                    i as int,
                    RecordV {
                        operator_id,
                        key: idempotency_key@,
                        state: RecordStateV::Completed(response@),
                        created_at: orig[i as int].created_at,
                    },
                ));
                proof {
                    if unique_keys(orig) {
                        assert forall|a: int, b: int|
                            0 <= a < b < self@.len() implies !(self@[a].operator_id
                            == self@[b].operator_id && self@[a].key == self@[b].key) by {
                            assert(self@[a].operator_id == orig[a].operator_id && self@[a].key
                                == orig[a].key);
                            assert(self@[b].operator_id == orig[b].operator_id && self@[b].key
                                == orig[b].key);
                        }
                    }
                }
                return ;
            }
            i += 1;
        }
        proof {
            lemma_find_index_is_first(
                orig,
                operator_id,
                idempotency_key@,
                self.records@.len() as int,
            );
            assert(false);
        }
    }

    /// Number of records in the table.
    pub fn len(&self) -> (n: usize)
        ensures
            n == self@.len(),
    {
        self.records.len()
    }
}

} // verus!
