use vstd::prelude::*;

verus! {

/// What the operator submits: the content of an issue before it is
/// persisted.
pub struct IssueDraft {
    pub title: String,
    pub text_content: String,
    pub html_content: String,
}

#[verifier::ext_equal]
pub ghost struct DraftV {
    pub title: Seq<char>,
    pub text_content: Seq<char>,
    pub html_content: Seq<char>,
}

impl View for IssueDraft {
    type V = DraftV;

    open spec fn view(&self) -> DraftV {
        DraftV {
            title: self.title@,
            text_content: self.text_content@,
            html_content: self.html_content@,
        }
    }
}

/// A persisted newsletter issue; immutable after creation.
pub struct NewsletterIssue {
    pub id: u64,
    pub title: String,
    pub text_content: String,
    pub html_content: String,
    pub created_at: u64,
}

#[verifier::ext_equal]
pub ghost struct IssueV {
    pub id: u64,
    pub title: Seq<char>,
    pub text_content: Seq<char>,
    pub html_content: Seq<char>,
    pub created_at: u64,
}

impl View for NewsletterIssue {
    type V = IssueV;

    open spec fn view(&self) -> IssueV {
        IssueV {
            id: self.id,
            title: self.title@,
            text_content: self.text_content@,
            html_content: self.html_content@,
            created_at: self.created_at,
        }
    }
}

/// The issue a draft becomes once it is assigned an id.
pub open spec fn issue_of_draft(draft: DraftV, id: u64, now: u64) -> IssueV {
    IssueV {
        id,
        title: draft.title,
        text_content: draft.text_content,
        html_content: draft.html_content,
        created_at: now,
    }
}

#[verifier::ext_equal]
pub ghost struct IssueStoreV {
    pub issues: Seq<IssueV>,
    pub next_issue_id: u64,
}

/// Index of the first issue with the id, or the length when none exists.
pub open spec fn issue_index(issues: Seq<IssueV>, id: u64) -> int
    decreases issues.len(),
{
    if issues.len() == 0 {
        0
    } else if issues[0].id == id {
        0
    } else {
        1 + issue_index(issues.drop_first(), id)
    }
}

/// Whether an issue with the id exists.
pub open spec fn has_issue(issues: Seq<IssueV>, id: u64) -> bool {
    issue_index(issues, id) < issues.len()
}

/// The first matching position determines `issue_index` exactly.
pub proof fn lemma_issue_index_is_first(issues: Seq<IssueV>, id: u64, i: int)
    requires
        0 <= i <= issues.len(),
        forall|j: int| 0 <= j < i ==> issues[j].id != id,
        i < issues.len() ==> issues[i].id == id,
    ensures
        issue_index(issues, id) == i,
    decreases issues.len(),
{
    if issues.len() == 0 {
    } else if issues[0].id == id {
        assert(i == 0);
    } else {
        assert forall|j: int| 0 <= j < i - 1 implies issues.drop_first()[j].id != id by {
            assert(issues.drop_first()[j] == issues[j + 1]);
        }
        lemma_issue_index_is_first(issues.drop_first(), id, i - 1);
    }
}

/// Stores the persisted issues and assigns their ids.
pub struct IssueStore {
    issues: Vec<NewsletterIssue>,
    next_issue_id: u64,
}

impl View for IssueStore {
    type V = IssueStoreV;

    closed spec fn view(&self) -> IssueStoreV {
        IssueStoreV {
            issues: self.issues@.map_values(|i: NewsletterIssue| i@),
            next_issue_id: self.next_issue_id,
        }
    }
}

/// Ids are unique and below the next id to assign.
pub open spec fn issue_store_wf(s: IssueStoreV) -> bool {
    &&& forall|i: int| 0 <= i < s.issues.len() ==> #[trigger] s.issues[i].id < s.next_issue_id
    &&& forall|i: int, j: int|
        0 <= i < j < s.issues.len() ==> s.issues[i].id != s.issues[j].id
}

impl IssueStore {
    /// An empty store.
    pub fn new() -> (r: Self)
        ensures
            r@.issues == Seq::<IssueV>::empty(),
            r@.next_issue_id == 0,
            issue_store_wf(r@),
    {
        let store = IssueStore { issues: Vec::new(), next_issue_id: 0 };
        assert(store@.issues =~= Seq::<IssueV>::empty());
        store
    }

    /// Persists a draft as a new issue under a fresh id.
    pub fn create(&mut self, draft: IssueDraft, now: u64) -> (id: u64)
        requires
            old(self)@.next_issue_id < u64::MAX,
        ensures
            id == old(self)@.next_issue_id,
            final(self)@.issues == old(self)@.issues.push(issue_of_draft(draft@, id, now)),
            final(self)@.next_issue_id == id + 1,
            issue_store_wf(old(self)@) ==> issue_store_wf(final(self)@),
    {
        let ghost orig = self@;
        let id = self.next_issue_id;
        let issue = NewsletterIssue {
            id,
            title: draft.title,
            text_content: draft.text_content,
            html_content: draft.html_content,
            created_at: now,
        };
        self.issues.push(issue);
        self.next_issue_id = id + 1;
        assert(self@.issues =~= orig.issues.push(issue_of_draft(draft@, id, now)));
        proof {
            if issue_store_wf(orig) {
                assert forall|a: int|
                    0 <= a < self@.issues.len() implies #[trigger] self@.issues[a].id
                    < self@.next_issue_id by {
                    if a < self@.issues.len() - 1 {
                        assert(self@.issues[a] == orig.issues[a]);
                    }
                }
                assert forall|a: int, b: int|
                    0 <= a < b < self@.issues.len() implies self@.issues[a].id
                    != self@.issues[b].id by {
                    if b == self@.issues.len() - 1 {
                        assert(self@.issues[a] == orig.issues[a]);
                    }
                }
            }
        }
        id
    }

    /// Number of issues created so far.
    pub fn count(&self) -> (n: usize)
        ensures
            n == self@.issues.len(),
    {
        self.issues.len()
    }

    /// Looks an issue up by id, for delivery-time rendering.
    #[verifier::loop_isolation(false)]
    pub fn get(&self, id: u64) -> (r: Option<&NewsletterIssue>)
        ensures
            match r {
                Some(issue) => has_issue(self@.issues, id) && issue@ == self@.issues[issue_index(
                    self@.issues,
                    id,
                )],
                None => !has_issue(self@.issues, id),
            },
    {
        let mut i: usize = 0;
        while i < self.issues.len()
            invariant
                0 <= i <= self.issues@.len(),
                forall|j: int| 0 <= j < i ==> self@.issues[j].id != id,
            decreases self.issues@.len() - i,
        {
            if self.issues[i].id == id {
                proof {
                    lemma_issue_index_is_first(self@.issues, id, i as int);
                }
                return Some(&self.issues[i]);
            }
            i += 1;
        }
        proof {
            lemma_issue_index_is_first(self@.issues, id, self.issues@.len() as int);
        }
        None
    }
}

} // verus!
