//! The three kinds of notification and the streams that a registry yields.

use crate::contacts::Contacts;
use crate::contacts::Transition;
use crate::entity::Entity;
use vstd::prelude::*;

verus! {

/// Sent for each pair that is touching in the current step, on every step.
/// Carries a copy of the pair's contact record.
#[derive(Clone, Copy, Debug, PartialEq, Eq, Structural)]
pub struct Collision(pub Contacts);

/// Sent once when two entities start touching.
#[derive(Clone, Copy, Debug, PartialEq, Eq, Structural)]
pub struct CollisionStarted(pub Entity, pub Entity);

/// Sent once when two entities stop touching.
#[derive(Clone, Copy, Debug, PartialEq, Eq, Structural)]
pub struct CollisionEnded(pub Entity, pub Entity);

impl Collision {
    /// True if the notification is about the unordered pair of `a` and `b`.
    pub open spec fn is_about(self, a: Entity, b: Entity) -> bool {
        self.0.is_pair(a, b)
    }
}

impl CollisionStarted {
    /// True if the notification is about the unordered pair of `a` and `b`.
    pub open spec fn is_about(self, a: Entity, b: Entity) -> bool {
        ||| self.0 == a && self.1 == b
        ||| self.0 == b && self.1 == a
    }
}

impl CollisionEnded {
    /// True if the notification is about the unordered pair of `a` and `b`.
    pub open spec fn is_about(self, a: Entity, b: Entity) -> bool {
        ||| self.0 == a && self.1 == b
        ||| self.0 == b && self.1 == a
    }
}

/// True if `contacts` is touching in the current step.
pub open spec fn is_ongoing(contacts: Contacts) -> bool {
    contacts.during_current_frame
}

/// True if `contacts` started touching in the current step.
pub open spec fn is_started(contacts: Contacts) -> bool {
    contacts.spec_transition() == Transition::Started
}

/// True if `contacts` stopped touching in the current step.
pub open spec fn is_ended(contacts: Contacts) -> bool {
    contacts.spec_transition() == Transition::Ended
}

/// The ongoing-contact notifications for `records`, in registry order: one
/// for each record that is touching in the current step.
pub open spec fn ongoing_events(records: Seq<Contacts>) -> Seq<Collision> {
    records.filter(|c: Contacts| is_ongoing(c)).map_values(|c: Contacts| Collision(c))
}

/// The contact-start notifications for `records`, in registry order: one for
/// each record that was not touching before and is touching now.
pub open spec fn started_events(records: Seq<Contacts>) -> Seq<CollisionStarted> {
    records.filter(|c: Contacts| is_started(c)).map_values(
        |c: Contacts| CollisionStarted(c.entity1, c.entity2),
    )
}

/// The contact-end notifications for `records`, in registry order: one for
/// each record that was touching before and is not touching now.
pub open spec fn ended_events(records: Seq<Contacts>) -> Seq<CollisionEnded> {
    records.filter(|c: Contacts| is_ended(c)).map_values(
        |c: Contacts| CollisionEnded(c.entity1, c.entity2),
    )
}

/// Filtering a sequence that grew by one element keeps the element or drops
/// it, and filters the rest as before.
pub proof fn lemma_filter_push<A>(s: Seq<A>, pred: spec_fn(A) -> bool, a: A)
    ensures
        s.push(a).filter(pred) == if pred(a) {
            s.filter(pred).push(a)
        } else {
            s.filter(pred)
        },
{
    reveal(Seq::filter);
    assert(s.push(a).drop_last() =~= s);
}

/// The ongoing-contact notifications of a registry that grew by one record.
pub proof fn lemma_ongoing_events_push(records: Seq<Contacts>, contacts: Contacts)
    ensures
        ongoing_events(records.push(contacts)) == if is_ongoing(contacts) {
            ongoing_events(records).push(Collision(contacts))
        } else {
            ongoing_events(records)
        },
{
    let pred = |c: Contacts| is_ongoing(c);
    let event = |c: Contacts| Collision(c);
    lemma_filter_push(records, pred, contacts);
    assert(records.filter(pred).push(contacts).map_values(event) =~= records.filter(
        pred,
    ).map_values(event).push(event(contacts)));
}

/// The contact-start notifications of a registry that grew by one record.
pub proof fn lemma_started_events_push(records: Seq<Contacts>, contacts: Contacts)
    ensures
        started_events(records.push(contacts)) == if is_started(contacts) {
            started_events(records).push(CollisionStarted(contacts.entity1, contacts.entity2))
        } else {
            started_events(records)
        },
{
    let pred = |c: Contacts| is_started(c);
    let event = |c: Contacts| CollisionStarted(c.entity1, c.entity2);
    lemma_filter_push(records, pred, contacts);
    assert(records.filter(pred).push(contacts).map_values(event) =~= records.filter(
        pred,
    ).map_values(event).push(event(contacts)));
}

/// The contact-end notifications of a registry that grew by one record.
pub proof fn lemma_ended_events_push(records: Seq<Contacts>, contacts: Contacts)
    ensures
        ended_events(records.push(contacts)) == if is_ended(contacts) {
            ended_events(records).push(CollisionEnded(contacts.entity1, contacts.entity2))
        } else {
            ended_events(records)
        },
{
    let pred = |c: Contacts| is_ended(c);
    let event = |c: Contacts| CollisionEnded(c.entity1, c.entity2);
    lemma_filter_push(records, pred, contacts);
    assert(records.filter(pred).push(contacts).map_values(event) =~= records.filter(
        pred,
    ).map_values(event).push(event(contacts)));
}

} // verus!
