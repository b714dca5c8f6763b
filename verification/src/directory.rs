use vstd::prelude::*;
use crate::domain::subscriber_name::SubscriberName;

verus! {

/// Where a subscriber stands in the double opt-in flow.  Only confirmed
/// subscribers are visible to fan-out.
#[derive(Clone, Copy, PartialEq, Eq, Structural)]
pub enum SubscriberStatus {
    PendingConfirmation,
    Confirmed,
}

/// One subscriber record.
pub struct Subscriber {
    pub id: u64,
    pub email: String,
    pub display_name: SubscriberName,
    pub status: SubscriberStatus,
}

#[verifier::ext_equal]
pub ghost struct SubscriberV {
    pub id: u64,
    pub email: Seq<char>,
    pub display_name: Seq<char>,
    pub status: SubscriberStatus,
}

impl View for Subscriber {
    type V = SubscriberV;

    open spec fn view(&self) -> SubscriberV {
        SubscriberV {
            id: self.id,
            email: self.email@,
            display_name: self.display_name@,
            status: self.status,
        }
    }
}

/// No two subscribers share an email address.
pub open spec fn unique_emails(subs: Seq<SubscriberV>) -> bool {
    forall|i: int, j: int| 0 <= i < j < subs.len() ==> subs[i].email != subs[j].email
}

/// Whether some subscriber uses the email address.
pub open spec fn contains_email(subs: Seq<SubscriberV>, email: Seq<char>) -> bool {
    exists|i: int| 0 <= i < subs.len() && subs[i].email == email
}

/// The confirmed subscribers' email addresses, in directory order.
pub open spec fn confirmed_emails(subs: Seq<SubscriberV>) -> Seq<Seq<char>>
    decreases subs.len(),
{
    if subs.len() == 0 {
        Seq::empty()
    } else {
        let rest = confirmed_emails(subs.drop_last());
        if subs.last().status is Confirmed {
            rest.push(subs.last().email)
        } else {
            rest
        }
    }
}

/// Whether some confirmed subscriber uses the email address.
pub open spec fn is_confirmed_email(subs: Seq<SubscriberV>, email: Seq<char>) -> bool {
    exists|i: int| 0 <= i < subs.len() && subs[i].status is Confirmed && subs[i].email == email
}

/// Whether the email appears in the fan-out listing.
pub open spec fn email_listed(subs: Seq<SubscriberV>, email: Seq<char>) -> bool {
    exists|k: int|
        0 <= k < confirmed_emails(subs).len() && confirmed_emails(subs)[k] == email
}

proof fn lemma_confirmed_email_extend(subs: Seq<SubscriberV>, email: Seq<char>)
    requires
        subs.len() > 0,
        is_confirmed_email(subs.drop_last(), email),
    ensures
        is_confirmed_email(subs, email),
{
    let i = choose|i: int|
        0 <= i < subs.drop_last().len() && subs.drop_last()[i].status is Confirmed
            && subs.drop_last()[i].email == email;
    assert(subs[i] == subs.drop_last()[i]);
}

proof fn lemma_listed_email_extend(subs: Seq<SubscriberV>, email: Seq<char>)
    requires
        subs.len() > 0,
        email_listed(subs.drop_last(), email),
    ensures
        email_listed(subs, email),
{
    let k = choose|k: int|
        0 <= k < confirmed_emails(subs.drop_last()).len() && confirmed_emails(
            subs.drop_last(),
        )[k] == email;
    if subs.last().status is Confirmed {
        assert(confirmed_emails(subs)[k] == email);
    } else {
        assert(confirmed_emails(subs)[k] == email);
    }
}

proof fn lemma_confirmed_email_differs_from_last(subs: Seq<SubscriberV>, email: Seq<char>)
    requires
        subs.len() > 0,
        unique_emails(subs),
        is_confirmed_email(subs.drop_last(), email),
    ensures
        email != subs.last().email,
{
    let i = choose|i: int|
        0 <= i < subs.drop_last().len() && subs.drop_last()[i].status is Confirmed
            && subs.drop_last()[i].email == email;
    assert(subs[i] == subs.drop_last()[i]);
    assert(subs[i].email != subs[subs.len() - 1].email);
}

/// Every listed email belongs to a confirmed subscriber, every confirmed
/// subscriber is listed, and distinct directory emails stay distinct.
pub proof fn lemma_confirmed_emails_props(subs: Seq<SubscriberV>)
    ensures
        forall|k: int|
            0 <= k < confirmed_emails(subs).len() ==> is_confirmed_email(
                subs,
                #[trigger] confirmed_emails(subs)[k],
            ),
        forall|i: int|
            0 <= i < subs.len() && subs[i].status is Confirmed ==> email_listed(
                subs,
                #[trigger] subs[i].email,
            ),
        unique_emails(subs) ==> forall|k1: int, k2: int|
            0 <= k1 < k2 < confirmed_emails(subs).len() ==> confirmed_emails(subs)[k1]
                != confirmed_emails(subs)[k2],
    decreases subs.len(),
{
    if subs.len() == 0 {
    } else {
        lemma_confirmed_emails_props(subs.drop_last());
        assert forall|k: int| 0 <= k < confirmed_emails(subs).len() implies is_confirmed_email(
            subs,
            #[trigger] confirmed_emails(subs)[k],
        ) by {
            if k < confirmed_emails(subs.drop_last()).len() {
                assert(confirmed_emails(subs)[k] == confirmed_emails(subs.drop_last())[k]);
                lemma_confirmed_email_extend(subs, confirmed_emails(subs.drop_last())[k]);
            } else {
                assert(subs.last().status is Confirmed && subs.last().email == confirmed_emails(
                    subs,
                )[k]);
                assert(subs[subs.len() - 1].status is Confirmed && subs[subs.len() - 1].email
                    == confirmed_emails(subs)[k]);
            }
        }
        assert forall|i: int|
            0 <= i < subs.len() && subs[i].status is Confirmed implies email_listed(
            subs,
            #[trigger] subs[i].email,
        ) by {
            if i < subs.len() - 1 {
                assert(subs.drop_last()[i] == subs[i]);
                lemma_listed_email_extend(subs, subs[i].email);
            } else {
                let k = confirmed_emails(subs.drop_last()).len() as int;
                assert(confirmed_emails(subs)[k] == subs[i].email);
            }
        }
        if unique_emails(subs) {
            assert(unique_emails(subs.drop_last())) by {
                assert forall|i: int, j: int|
                    0 <= i < j < subs.drop_last().len() implies subs.drop_last()[i].email
                    != subs.drop_last()[j].email by {
                    assert(subs.drop_last()[i] == subs[i] && subs.drop_last()[j] == subs[j]);
                }
            }
            assert forall|k1: int, k2: int|
                0 <= k1 < k2 < confirmed_emails(subs).len() implies confirmed_emails(subs)[k1]
                != confirmed_emails(subs)[k2] by {
                if k2 < confirmed_emails(subs.drop_last()).len() {
                    assert(confirmed_emails(subs)[k1] == confirmed_emails(subs.drop_last())[k1]);
                    assert(confirmed_emails(subs)[k2] == confirmed_emails(subs.drop_last())[k2]);
                } else {
                    assert(subs.last().status is Confirmed && k2 == confirmed_emails(
                        subs.drop_last(),
                    ).len());
                    assert(confirmed_emails(subs)[k1] == confirmed_emails(subs.drop_last())[k1]);
                    assert(is_confirmed_email(
                        subs.drop_last(),
                        confirmed_emails(subs.drop_last())[k1],
                    ));
                    lemma_confirmed_email_differs_from_last(
                        subs,
                        confirmed_emails(subs.drop_last())[k1],
                    );
                    assert(confirmed_emails(subs)[k2] == subs.last().email);
                }
            }
        }
    }
}

/// Holds the subscriber records and exposes the confirmed emails for
/// fan-out.
pub struct SubscriberDirectory {
    subscribers: Vec<Subscriber>,
}

impl View for SubscriberDirectory {
    type V = Seq<SubscriberV>;

    closed spec fn view(&self) -> Seq<SubscriberV> {
        self.subscribers@.map_values(|s: Subscriber| s@)
    }
}

impl SubscriberDirectory {
    /// An empty directory.
    pub fn new() -> (r: Self)
        ensures
            r@ == Seq::<SubscriberV>::empty(),
    {
        let dir = SubscriberDirectory { subscribers: Vec::new() };
        assert(dir@ =~= Seq::<SubscriberV>::empty());
        dir
    }

    /// No two records share an email address.
    pub open spec fn wf(&self) -> bool {
        unique_emails(self@)
    }

    /// Appends a record unless its email is already taken.
    #[verifier::loop_isolation(false)]
    pub fn add_subscriber(&mut self, subscriber: Subscriber) -> (added: bool)
        ensures
            added == !contains_email(old(self)@, subscriber@.email),
            added ==> final(self)@ == old(self)@.push(subscriber@),
            !added ==> final(self)@ == old(self)@,
            old(self).wf() ==> final(self).wf(),
    {
        let ghost orig = self@;
        let mut i: usize = 0;
        while i < self.subscribers.len()
            invariant
                0 <= i <= self.subscribers@.len(),
                self@ == orig,
                orig == self.subscribers@.map_values(|s: Subscriber| s@),
                forall|j: int| 0 <= j < i ==> orig[j].email != subscriber@.email,
            decreases self.subscribers@.len() - i,
        {
            if self.subscribers[i].email.eq(&subscriber.email) {
                proof {
                    assert(orig[i as int].email == subscriber@.email);
                    assert(contains_email(orig, subscriber@.email));
                }
                return false;
            }
            i += 1;
        }
        self.subscribers.push(subscriber);
        assert(self@ =~= orig.push(subscriber@));
        proof {
            if unique_emails(orig) {
                assert forall|a: int, b: int|
                    0 <= a < b < self@.len() implies self@[a].email != self@[b].email by {
                    if b == self@.len() - 1 {
                        assert(self@[a] == orig[a]);
                    }
                }
            }
        }
        true
    }

    /// The emails of the confirmed subscribers, for fan-out, in directory
    /// order.
    #[verifier::loop_isolation(false)]
    pub fn list_confirmed_emails(&self) -> (emails: Vec<String>)
        ensures
            emails@.map_values(|e: String| e@) == confirmed_emails(self@),
    {
        let mut emails: Vec<String> = Vec::new();
        let mut i: usize = 0;
        while i < self.subscribers.len()
            invariant
                0 <= i <= self.subscribers@.len(),
                self@ == self.subscribers@.map_values(|s: Subscriber| s@),
                emails@.map_values(|e: String| e@) =~= confirmed_emails(self@.take(i as int)),
            decreases self.subscribers@.len() - i,
        {
            let ghost prev = emails@.map_values(|e: String| e@);
            match self.subscribers[i].status {
                SubscriberStatus::Confirmed => {
                    emails.push(self.subscribers[i].email.clone());
                },
                SubscriberStatus::PendingConfirmation => {},
            }
            proof {
                let taken = self@.take(i + 1);
                assert(taken.drop_last() =~= self@.take(i as int));
                assert(taken.last() == self@[i as int]);
                assert(emails@.map_values(|e: String| e@) =~= confirmed_emails(taken));
            }
            i += 1;
        }
        proof {
            assert(self@.take(self.subscribers@.len() as int) =~= self@);
        }
        emails
    }

    /// Number of records in the directory.
    pub fn len(&self) -> (n: usize)
        ensures
            n == self@.len(),
    {
        self.subscribers.len()
    }
}

} // verus!
