//! The pass over the contact registry.

use crate::colliding::Colliders;
use crate::collisions::Collisions;
use crate::contacts::Contacts;
use crate::contacts::Transition;
use crate::diagnostics::CollisionDiagnostics;
use crate::entity::Entity;
use crate::events::ended_events;
use crate::events::is_ended;
use crate::events::is_started;
use crate::events::lemma_ended_events_push;
use crate::events::lemma_ongoing_events_push;
use crate::events::lemma_started_events_push;
use crate::events::ongoing_events;
use crate::events::started_events;
use crate::events::Collision;
use crate::events::CollisionEnded;
use crate::events::CollisionStarted;
use crate::laws::lemma_pass_keeps_entities;
use crate::laws::lemma_sets_after_valid_registry;
use std::time::Instant;
use vstd::prelude::*;

verus! {

/// `sets` after `other` was put into the set of `owner`. Where `owner` is not
/// resolvable, nothing changes.
pub open spec fn with_contact(
    sets: Map<Entity, Set<Entity>>,
    owner: Entity,
    other: Entity,
) -> Map<Entity, Set<Entity>> {
    if sets.contains_key(owner) {
        sets.insert(owner, sets[owner].insert(other))
    } else {
        sets
    }
}

/// `sets` after `other` was taken out of the set of `owner`. Where `owner` is
/// not resolvable, nothing changes.
pub open spec fn without_contact(
    sets: Map<Entity, Set<Entity>>,
    owner: Entity,
    other: Entity,
) -> Map<Entity, Set<Entity>> {
    if sets.contains_key(owner) {
        sets.insert(owner, sets[owner].remove(other))
    } else {
        sets
    }
}

/// `sets` after one record was processed: a pair that started touching is
/// entered on both sides, a pair that stopped touching is taken out on both
/// sides, each side on its own, and any other record changes nothing.
pub open spec fn sets_after_record(
    sets: Map<Entity, Set<Entity>>,
    contacts: Contacts,
) -> Map<Entity, Set<Entity>> {
    match contacts.spec_transition() {
        Transition::Started => with_contact(
            with_contact(sets, contacts.entity1, contacts.entity2),
            contacts.entity2,
            contacts.entity1,
        ),
        Transition::Ended => without_contact(
            without_contact(sets, contacts.entity1, contacts.entity2),
            contacts.entity2,
            contacts.entity1,
        ),
        Transition::Continuing | Transition::Inactive => sets,
    }
}

/// `sets` after all of `records` were processed, first to last.
pub open spec fn sets_after(sets: Map<Entity, Set<Entity>>, records: Seq<Contacts>) -> Map<
    Entity,
    Set<Entity>,
>
    decreases records.len(),
{
    if records.len() == 0 {
        sets
    } else {
        sets_after_record(sets_after(sets, records.drop_last()), records.last())
    }
}

/// True if `records` holds a record by which the pair of `a` and `b` started
/// touching.
pub open spec fn pair_started(records: Seq<Contacts>, a: Entity, b: Entity) -> bool {
    exists|i: int|
        0 <= i < records.len() && is_started(#[trigger] records[i]) && records[i].is_pair(a, b)
}

/// True if `records` holds a record by which the pair of `a` and `b` stopped
/// touching.
pub open spec fn pair_ended(records: Seq<Contacts>, a: Entity, b: Entity) -> bool {
    exists|i: int|
        0 <= i < records.len() && is_ended(#[trigger] records[i]) && records[i].is_pair(a, b)
}

/// The colliding set of `owner` after a pass over a valid registry, given the
/// set that it had before: the entities that started touching it, and those
/// of before that did not stop touching it.
pub open spec fn touching_after(before: Set<Entity>, records: Seq<Contacts>, owner: Entity) -> Set<
    Entity,
> {
    Set::new(
        |other: Entity|
            pair_started(records, owner, other) || (before.contains(other) && !pair_ended(
                records,
                owner,
                other,
            )),
    )
}

/// Goes once through the registry. For each record it appends the
/// notifications that the record's transition calls for, and brings the
/// colliding sets of the two entities up to date, as far as they are
/// resolvable. An entity that is not resolvable is passed over in silence:
/// the notifications are sent all the same, and the other entity's set is
/// still changed. Which entities are resolvable does not change.
///
/// The colliding sets are left as the records, taken first to last, make
/// them. For a registry that keeps its invariant the order plays no part:
/// each resolvable entity ends up touching the entities that started
/// touching it, and those of before that did not stop touching it.
///
/// The time that the pass took, by the monotonic clock, is left in
/// `diagnostics` in place of the sample of the pass before, also where the
/// registry is empty.
pub fn report_contacts(
    colliders: &mut Colliders,
    collisions: &Collisions,
    collision_events: &mut Vec<Collision>,
    collision_started_events: &mut Vec<CollisionStarted>,
    collision_ended_events: &mut Vec<CollisionEnded>,
    diagnostics: &mut CollisionDiagnostics,
)
    ensures
        final(collision_events)@ == old(collision_events)@ + ongoing_events(collisions@),
        final(collision_started_events)@ == old(collision_started_events)@ + started_events(
            collisions@,
        ),
        final(collision_ended_events)@ == old(collision_ended_events)@ + ended_events(
            collisions@,
        ),
        final(colliders)@ == sets_after(old(colliders)@, collisions@),
        final(colliders)@.dom() == old(colliders)@.dom(),
        collisions.wf() ==> forall|owner: Entity| #[trigger]
            old(colliders)@.contains_key(owner) ==> final(colliders)@[owner] == touching_after(
                old(colliders)@[owner],
                collisions@,
                owner,
            ),
{
    let start = Instant::now();

    let count = collisions.len();
    let mut i: usize = 0;
    assert(collisions@.take(0) =~= Seq::<Contacts>::empty());
    while i < count
        invariant
            i <= count,
            count == collisions@.len(),
            collision_events@ == old(collision_events)@ + ongoing_events(
                collisions@.take(i as int),
            ),
            collision_started_events@ == old(collision_started_events)@ + started_events(
                collisions@.take(i as int),
            ),
            collision_ended_events@ == old(collision_ended_events)@ + ended_events(
                collisions@.take(i as int),
            ),
            colliders@ == sets_after(old(colliders)@, collisions@.take(i as int)),
        decreases count - i,
    {
        let contacts = collisions.record(i);
        let entity1 = contacts.entity1;
        let entity2 = contacts.entity2;
        proof {
            let seen = collisions@.take(i as int);
            assert(collisions@.take(i + 1) =~= seen.push(contacts));
            assert(seen.push(contacts).drop_last() =~= seen);
            lemma_ongoing_events_push(seen, contacts);
            lemma_started_events_push(seen, contacts);
            lemma_ended_events_push(seen, contacts);
        }

        if contacts.during_current_frame {
            collision_events.push(Collision(contacts));

            // Collision started
            if !contacts.during_previous_frame {
                collision_started_events.push(CollisionStarted(entity1, entity2));

                if let Some(colliding_entities1) = colliders.get_mut(&entity1) {
                    colliding_entities1.insert(entity2);
                }
                if let Some(colliding_entities2) = colliders.get_mut(&entity2) {
                    colliding_entities2.insert(entity1);
                }
            }
        }

        // Collision ended
        if !contacts.during_current_frame && contacts.during_previous_frame {
            collision_ended_events.push(CollisionEnded(entity1, entity2));

            if let Some(colliding_entities1) = colliders.get_mut(&entity1) {
                colliding_entities1.remove(&entity2);
            }
            if let Some(colliding_entities2) = colliders.get_mut(&entity2) {
                colliding_entities2.remove(&entity1);
            }
        }
        i += 1;
    }
    proof {
        assert(collisions@.take(count as int) =~= collisions@);
        lemma_pass_keeps_entities(old(colliders)@, collisions@);
        if collisions.wf() {
            lemma_sets_after_valid_registry(old(colliders)@, collisions@);
        }
    }

    diagnostics.record(start.elapsed());
}

} // verus!
