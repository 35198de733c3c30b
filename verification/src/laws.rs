//! What holds of every pass: proofs over the functions that say what
//! [`report_contacts`](crate::report::report_contacts) sends and leaves.

use crate::collisions::pairs_unique;
use crate::collisions::valid_registry;
use crate::contacts::Contacts;
use crate::contacts::Transition;
use crate::entity::Entity;
use crate::events::ended_events;
use crate::events::is_ended;
use crate::events::is_ongoing;
use crate::events::is_started;
use crate::events::lemma_filter_push;
use crate::events::ongoing_events;
use crate::events::started_events;
use crate::events::Collision;
use crate::events::CollisionEnded;
use crate::events::CollisionStarted;
use crate::report::pair_ended;
use crate::report::pair_started;
use crate::report::sets_after;
use crate::report::sets_after_record;
use crate::report::touching_after;
use vstd::multiset::group_multiset_axioms;
use vstd::multiset::group_multiset_properties;
use vstd::prelude::*;
use vstd::seq_lib::group_to_multiset_ensures;
use vstd::seq_lib::to_multiset_len;

verus! {

/// A pass makes no entity resolvable and none unresolvable.
pub proof fn lemma_pass_keeps_entities(sets: Map<Entity, Set<Entity>>, records: Seq<Contacts>)
    ensures
        sets_after(sets, records).dom() == sets.dom(),
    decreases records.len(),
{
    if records.len() > 0 {
        lemma_pass_keeps_entities(sets, records.drop_last());
        let before = sets_after(sets, records.drop_last());
        assert(sets_after_record(before, records.last()).dom() =~= before.dom());
    }
}

/// Over a valid registry the order of the records does not show in the
/// colliding sets: the set of each resolvable entity is the one that
/// [`touching_after`] gives.
pub proof fn lemma_sets_after_valid_registry(
    sets: Map<Entity, Set<Entity>>,
    records: Seq<Contacts>,
)
    requires
        valid_registry(records),
    ensures
        sets_after(sets, records).dom() == sets.dom(),
        forall|owner: Entity| #[trigger]
            sets.contains_key(owner) ==> sets_after(sets, records)[owner] == touching_after(
                sets[owner],
                records,
                owner,
            ),
    decreases records.len(),
{
    lemma_pass_keeps_entities(sets, records);
    if records.len() == 0 {
        assert forall|owner: Entity| #[trigger] sets.contains_key(owner) implies sets[owner]
            == touching_after(sets[owner], records, owner) by {
            assert(sets[owner] =~= touching_after(sets[owner], records, owner));
        }
    } else {
        let rest = records.drop_last();
        let last = records.last();
        let before = sets_after(sets, rest);
        let after = sets_after(sets, records);
        lemma_sets_after_valid_registry(sets, rest);
        lemma_pass_keeps_entities(sets, rest);
        assert forall|owner: Entity| #[trigger] sets.contains_key(owner) implies after[owner]
            == touching_after(sets[owner], records, owner) by {
            assert(before.contains_key(owner));
            assert(before[owner] == touching_after(sets[owner], rest, owner));
            assert forall|other: Entity|
                after[owner].contains(other) == touching_after(
                    sets[owner],
                    records,
                    owner,
                ).contains(other) by {
                lemma_pair_of_last(records, owner, other);
            }
            assert(after[owner] =~= touching_after(sets[owner], records, owner));
        }
    }
}

/// What the last record of a non-empty registry adds to [`pair_started`] and
/// [`pair_ended`], and what the uniqueness of pairs rules out.
proof fn lemma_pair_of_last(records: Seq<Contacts>, a: Entity, b: Entity)
    requires
        records.len() > 0,
    ensures
        pair_started(records, a, b) == (pair_started(records.drop_last(), a, b) || (is_started(
            records.last(),
        ) && records.last().is_pair(a, b))),
        pair_ended(records, a, b) == (pair_ended(records.drop_last(), a, b) || (is_ended(
            records.last(),
        ) && records.last().is_pair(a, b))),
        pairs_unique(records) && records.last().is_pair(a, b) ==> !pair_started(
            records.drop_last(),
            a,
            b,
        ) && !pair_ended(records.drop_last(), a, b),
{
    let rest = records.drop_last();
    let last = records.last();
    let n = records.len() - 1;
    assert(records[n] == last);
    if pair_started(rest, a, b) {
        let i = choose|i: int|
            0 <= i < rest.len() && is_started(#[trigger] rest[i]) && rest[i].is_pair(a, b);
        assert(records[i] == rest[i]);
        if pairs_unique(records) && last.is_pair(a, b) {
            assert(records[i].same_pair(records[n]));
        }
    }
    if pair_ended(rest, a, b) {
        let i = choose|i: int|
            0 <= i < rest.len() && is_ended(#[trigger] rest[i]) && rest[i].is_pair(a, b);
        assert(records[i] == rest[i]);
        if pairs_unique(records) && last.is_pair(a, b) {
            assert(records[i].same_pair(records[n]));
        }
    }
    if pair_started(records, a, b) {
        let i = choose|i: int|
            0 <= i < records.len() && is_started(#[trigger] records[i]) && records[i].is_pair(
                a,
                b,
            );
        if i < n {
            assert(rest[i] == records[i]);
        }
    }
    if pair_ended(records, a, b) {
        let i = choose|i: int|
            0 <= i < records.len() && is_ended(#[trigger] records[i]) && records[i].is_pair(a, b);
        if i < n {
            assert(rest[i] == records[i]);
        }
    }
}

/// Of the notifications `records.filter(wanted).map_values(notify)`, those
/// about one pair: none where the registry has no record of the pair, and
/// otherwise the one notification of the pair's only record, if that record
/// is wanted.
proof fn lemma_notifications_of_pair<E>(
    records: Seq<Contacts>,
    wanted: spec_fn(Contacts) -> bool,
    notify: spec_fn(Contacts) -> E,
    about: spec_fn(E) -> bool,
    a: Entity,
    b: Entity,
)
    requires
        pairs_unique(records),
        forall|c: Contacts| about(#[trigger] notify(c)) == c.is_pair(a, b),
    ensures
        (forall|i: int| 0 <= i < records.len() ==> !(#[trigger] records[i]).is_pair(a, b))
            ==> records.filter(wanted).map_values(notify).filter(about) == Seq::<E>::empty(),
        forall|i: int|
            0 <= i < records.len() && (#[trigger] records[i]).is_pair(a, b) ==> records.filter(
                wanted,
            ).map_values(notify).filter(about) == if wanted(records[i]) {
                seq![notify(records[i])]
            } else {
                Seq::<E>::empty()
            },
    decreases records.len(),
{
    let found = records.filter(wanted).map_values(notify).filter(about);
    if records.len() == 0 {
        reveal(Seq::filter);
        assert(records.filter(wanted) =~= Seq::<Contacts>::empty());
        assert(records.filter(wanted).map_values(notify) =~= Seq::<E>::empty());
    } else {
        let rest = records.drop_last();
        let last = records.last();
        let n = records.len() - 1;
        let found_rest = rest.filter(wanted).map_values(notify).filter(about);
        assert(records =~= rest.push(last));
        assert(records[n] == last);
        lemma_notifications_of_pair(rest, wanted, notify, about, a, b);
        lemma_filter_push(rest, wanted, last);
        assert(rest.filter(wanted).push(last).map_values(notify) =~= rest.filter(
            wanted,
        ).map_values(notify).push(notify(last)));
        lemma_filter_push(rest.filter(wanted).map_values(notify), about, notify(last));
        assert(found == if wanted(last) && last.is_pair(a, b) {
            found_rest.push(notify(last))
        } else {
            found_rest
        });
        if last.is_pair(a, b) {
            assert forall|i: int| 0 <= i < rest.len() implies !(#[trigger] rest[i]).is_pair(
                a,
                b,
            ) by {
                assert(rest[i] == records[i]);
                assert(!records[i].same_pair(records[n]));
            }
            assert(found_rest == Seq::<E>::empty());
            assert(Seq::<E>::empty().push(notify(last)) =~= seq![notify(last)]);
            assert forall|i: int|
                0 <= i < records.len() && (#[trigger] records[i]).is_pair(a, b) implies i == n by {
                if i < n {
                    assert(rest[i] == records[i]);
                }
            }
        } else {
            assert(found == found_rest);
            assert forall|i: int|
                0 <= i < records.len() && (#[trigger] records[i]).is_pair(a, b) implies found
                == if wanted(records[i]) {
                seq![notify(records[i])]
            } else {
                Seq::<E>::empty()
            } by {
                assert(rest[i] == records[i]);
            }
            if forall|i: int| 0 <= i < records.len() ==> !(#[trigger] records[i]).is_pair(a, b) {
                assert forall|i: int| 0 <= i < rest.len() implies !(#[trigger] rest[i]).is_pair(
                    a,
                    b,
                ) by {
                    assert(rest[i] == records[i]);
                }
            }
        }
    }
}

/// The notifications about the pair of one record of a valid registry: those
/// that the record's own flags call for, once each, and no others.
pub proof fn lemma_notifications_of_record(records: Seq<Contacts>, i: int)
    requires
        valid_registry(records),
        0 <= i < records.len(),
    ensures
        ongoing_events(records).filter(
            |event: Collision| event.is_about(records[i].entity1, records[i].entity2),
        ) == if is_ongoing(records[i]) {
            seq![Collision(records[i])]
        } else {
            Seq::<Collision>::empty()
        },
        started_events(records).filter(
            |event: CollisionStarted| event.is_about(records[i].entity1, records[i].entity2),
        ) == if is_started(records[i]) {
            seq![CollisionStarted(records[i].entity1, records[i].entity2)]
        } else {
            Seq::<CollisionStarted>::empty()
        },
        ended_events(records).filter(
            |event: CollisionEnded| event.is_about(records[i].entity1, records[i].entity2),
        ) == if is_ended(records[i]) {
            seq![CollisionEnded(records[i].entity1, records[i].entity2)]
        } else {
            Seq::<CollisionEnded>::empty()
        },
{
    let a = records[i].entity1;
    let b = records[i].entity2;
    assert(records[i].is_pair(a, b));
    lemma_notifications_of_pair(
        records,
        |c: Contacts| is_ongoing(c),
        |c: Contacts| Collision(c),
        |event: Collision| event.is_about(a, b),
        a,
        b,
    );
    lemma_notifications_of_pair(
        records,
        |c: Contacts| is_started(c),
        |c: Contacts| CollisionStarted(c.entity1, c.entity2),
        |event: CollisionStarted| event.is_about(a, b),
        a,
        b,
    );
    lemma_notifications_of_pair(
        records,
        |c: Contacts| is_ended(c),
        |c: Contacts| CollisionEnded(c.entity1, c.entity2),
        |event: CollisionEnded| event.is_about(a, b),
        a,
        b,
    );
}

/// Edge-triggered start. For a record of a valid registry that says its pair
/// started touching, the pass sends exactly one contact-start and exactly one
/// ongoing-contact notification about the pair and no contact-end, and
/// afterwards the set of each resolvable entity of the pair holds the other.
pub proof fn lemma_started_pair(sets: Map<Entity, Set<Entity>>, records: Seq<Contacts>, i: int)
    requires
        valid_registry(records),
        0 <= i < records.len(),
        records[i].spec_transition() == Transition::Started,
    ensures
        started_events(records).filter(
            |event: CollisionStarted| event.is_about(records[i].entity1, records[i].entity2),
        ) == seq![CollisionStarted(records[i].entity1, records[i].entity2)],
        ongoing_events(records).filter(
            |event: Collision| event.is_about(records[i].entity1, records[i].entity2),
        ) == seq![Collision(records[i])],
        ended_events(records).filter(
            |event: CollisionEnded| event.is_about(records[i].entity1, records[i].entity2),
        ) == Seq::<CollisionEnded>::empty(),
        sets.contains_key(records[i].entity1) ==> sets_after(sets, records)[records[i].entity1].contains(
            records[i].entity2,
        ),
        sets.contains_key(records[i].entity2) ==> sets_after(sets, records)[records[i].entity2].contains(
            records[i].entity1,
        ),
{
    let a = records[i].entity1;
    let b = records[i].entity2;
    lemma_notifications_of_record(records, i);
    lemma_sets_after_valid_registry(sets, records);
    assert(records[i].is_pair(a, b) && records[i].is_pair(b, a));
    assert(pair_started(records, a, b));
    assert(pair_started(records, b, a));
}

/// Level-triggered contact. For a record of a valid registry that says its
/// pair keeps touching, the pass sends exactly one ongoing-contact
/// notification about the pair, no contact-start and no contact-end, and
/// neither entity's set changes as to the other.
pub proof fn lemma_continuing_pair(sets: Map<Entity, Set<Entity>>, records: Seq<Contacts>, i: int)
    requires
        valid_registry(records),
        0 <= i < records.len(),
        records[i].spec_transition() == Transition::Continuing,
    ensures
        ongoing_events(records).filter(
            |event: Collision| event.is_about(records[i].entity1, records[i].entity2),
        ) == seq![Collision(records[i])],
        started_events(records).filter(
            |event: CollisionStarted| event.is_about(records[i].entity1, records[i].entity2),
        ) == Seq::<CollisionStarted>::empty(),
        ended_events(records).filter(
            |event: CollisionEnded| event.is_about(records[i].entity1, records[i].entity2),
        ) == Seq::<CollisionEnded>::empty(),
        sets_after(sets, records).dom() == sets.dom(),
        sets.contains_key(records[i].entity1) ==> sets_after(sets, records)[records[i].entity1].contains(
            records[i].entity2,
        ) == sets[records[i].entity1].contains(records[i].entity2),
        sets.contains_key(records[i].entity2) ==> sets_after(sets, records)[records[i].entity2].contains(
            records[i].entity1,
        ) == sets[records[i].entity2].contains(records[i].entity1),
{
    let a = records[i].entity1;
    let b = records[i].entity2;
    lemma_notifications_of_record(records, i);
    lemma_sets_after_valid_registry(sets, records);
    lemma_only_record_of_pair(records, i);
}

/// Edge-triggered end. For a record of a valid registry that says its pair
/// stopped touching, the pass sends exactly one contact-end notification
/// about the pair, no ongoing-contact and no contact-start, and afterwards
/// the set of each resolvable entity of the pair does not hold the other.
pub proof fn lemma_ended_pair(sets: Map<Entity, Set<Entity>>, records: Seq<Contacts>, i: int)
    requires
        valid_registry(records),
        0 <= i < records.len(),
        records[i].spec_transition() == Transition::Ended,
    ensures
        ended_events(records).filter(
            |event: CollisionEnded| event.is_about(records[i].entity1, records[i].entity2),
        ) == seq![CollisionEnded(records[i].entity1, records[i].entity2)],
        ongoing_events(records).filter(
            |event: Collision| event.is_about(records[i].entity1, records[i].entity2),
        ) == Seq::<Collision>::empty(),
        started_events(records).filter(
            |event: CollisionStarted| event.is_about(records[i].entity1, records[i].entity2),
        ) == Seq::<CollisionStarted>::empty(),
        sets.contains_key(records[i].entity1) ==> !sets_after(sets, records)[records[i].entity1].contains(
            records[i].entity2,
        ),
        sets.contains_key(records[i].entity2) ==> !sets_after(sets, records)[records[i].entity2].contains(
            records[i].entity1,
        ),
{
    let a = records[i].entity1;
    let b = records[i].entity2;
    lemma_notifications_of_record(records, i);
    lemma_sets_after_valid_registry(sets, records);
    lemma_only_record_of_pair(records, i);
    assert(records[i].is_pair(a, b) && records[i].is_pair(b, a));
    assert(pair_ended(records, a, b));
    assert(pair_ended(records, b, a));
}

/// In a valid registry the pair of a record started or stopped touching only
/// if that record says so.
proof fn lemma_only_record_of_pair(records: Seq<Contacts>, i: int)
    requires
        valid_registry(records),
        0 <= i < records.len(),
    ensures
        pair_started(records, records[i].entity1, records[i].entity2) == is_started(records[i]),
        pair_started(records, records[i].entity2, records[i].entity1) == is_started(records[i]),
        pair_ended(records, records[i].entity1, records[i].entity2) == is_ended(records[i]),
        pair_ended(records, records[i].entity2, records[i].entity1) == is_ended(records[i]),
{
    let a = records[i].entity1;
    let b = records[i].entity2;
    assert(records[i].is_pair(a, b) && records[i].is_pair(b, a));
    assert forall|j: int|
        0 <= j < records.len() && ((#[trigger] records[j]).is_pair(a, b) || records[j].is_pair(
            b,
            a,
        )) implies j == i by {
        if j < i {
            assert(!records[j].same_pair(records[i]));
        } else if i < j {
            assert(!records[i].same_pair(records[j]));
        }
    }
}

/// Records that touched neither before nor now are silent. A pass over a
/// registry of such records alone sends nothing and changes no set.
pub proof fn lemma_inactive_registry(sets: Map<Entity, Set<Entity>>, records: Seq<Contacts>)
    requires
        forall|i: int|
            0 <= i < records.len() ==> (#[trigger] records[i]).spec_transition()
                == Transition::Inactive,
    ensures
        ongoing_events(records) == Seq::<Collision>::empty(),
        started_events(records) == Seq::<CollisionStarted>::empty(),
        ended_events(records) == Seq::<CollisionEnded>::empty(),
        sets_after(sets, records) == sets,
    decreases records.len(),
{
    records.lemma_all_neg_filter_empty(|c: Contacts| is_ongoing(c));
    records.lemma_all_neg_filter_empty(|c: Contacts| is_started(c));
    records.lemma_all_neg_filter_empty(|c: Contacts| is_ended(c));
    assert(ongoing_events(records) =~= Seq::<Collision>::empty());
    assert(started_events(records) =~= Seq::<CollisionStarted>::empty());
    assert(ended_events(records) =~= Seq::<CollisionEnded>::empty());
    if records.len() > 0 {
        let rest = records.drop_last();
        assert forall|i: int| 0 <= i < rest.len() implies (#[trigger] rest[i]).spec_transition()
            == Transition::Inactive by {
            assert(rest[i] == records[i]);
        }
        lemma_inactive_registry(sets, rest);
    }
}

/// Best effort. Where one entity of a pair that started touching is not
/// resolvable, the pass still sends the contact-start notification, the
/// resolvable entity's set still gains the other, and the unresolvable one
/// stays unresolvable.
pub proof fn lemma_started_pair_half_resolvable(
    sets: Map<Entity, Set<Entity>>,
    records: Seq<Contacts>,
    i: int,
    present: Entity,
    missing: Entity,
)
    requires
        valid_registry(records),
        0 <= i < records.len(),
        records[i].spec_transition() == Transition::Started,
        records[i].is_pair(present, missing),
        sets.contains_key(present),
        !sets.contains_key(missing),
    ensures
        started_events(records).filter(
            |event: CollisionStarted| event.is_about(records[i].entity1, records[i].entity2),
        ) == seq![CollisionStarted(records[i].entity1, records[i].entity2)],
        sets_after(sets, records).contains_key(present),
        sets_after(sets, records)[present].contains(missing),
        !sets_after(sets, records).contains_key(missing),
{
    lemma_started_pair(sets, records, i);
    lemma_pass_keeps_entities(sets, records);
}

/// The multiset of a filtered sequence is the filtered multiset of the
/// sequence.
proof fn lemma_filter_to_multiset<A>(s: Seq<A>, pred: spec_fn(A) -> bool)
    ensures
        s.filter(pred).to_multiset() == s.to_multiset().filter(pred),
    decreases s.len(),
{
    broadcast use {group_to_multiset_ensures, group_multiset_axioms, group_multiset_properties};

    if s.len() == 0 {
        reveal(Seq::filter);
        assert(s.filter(pred) =~= Seq::<A>::empty());
        assert(s =~= Seq::<A>::empty());
        assert(s.filter(pred).to_multiset() =~= s.to_multiset().filter(pred));
    } else {
        let rest = s.drop_last();
        let last = s.last();
        assert(s =~= rest.push(last));
        lemma_filter_to_multiset(rest, pred);
        lemma_filter_push(rest, pred, last);
        assert(s.to_multiset() =~= rest.to_multiset().insert(last));
        assert(s.filter(pred).to_multiset() =~= s.to_multiset().filter(pred));
    }
}

/// Two sequences with the same elements, each as often as in the other, still
/// have the same elements after the same function was applied to each.
proof fn lemma_map_values_of_permutation<A, B>(a: Seq<A>, b: Seq<A>, f: spec_fn(A) -> B)
    requires
        a.to_multiset() == b.to_multiset(),
    ensures
        a.map_values(f).to_multiset() == b.map_values(f).to_multiset(),
    decreases a.len(),
{
    broadcast use {group_to_multiset_ensures, group_multiset_axioms, group_multiset_properties};

    assert(a.len() == b.len()) by {
        to_multiset_len(a);
        to_multiset_len(b);
    }
    if a.len() == 0 {
        assert(a.map_values(f) =~= b.map_values(f));
    } else {
        let rest = a.drop_last();
        let last = a.last();
        assert(a =~= rest.push(last));
        assert(a.to_multiset().count(last) > 0);
        assert(b.contains(last));
        let j = choose|j: int| 0 <= j < b.len() && b[j] == last;
        let others = b.remove(j);
        assert(rest.to_multiset() =~= a.to_multiset().remove(last));
        assert(others.to_multiset() =~= b.to_multiset().remove(last));
        lemma_map_values_of_permutation(rest, others, f);
        assert(a.map_values(f) =~= rest.map_values(f).push(f(last)));
        assert(b =~= others.insert(j, last));
        assert(b.map_values(f) =~= others.map_values(f).insert(j, f(last)));
        assert(a.map_values(f).to_multiset() =~= rest.map_values(f).to_multiset().insert(
            f(last),
        ));
        assert(b.map_values(f).to_multiset() =~= others.map_values(f).to_multiset().insert(
            f(last),
        ));
    }
}

/// The order of the records does not show in what is sent. Two registries
/// with the same records yield the same notifications of each kind, each as
/// often as the other, though not in the same order.
pub proof fn lemma_notifications_of_permutation(first: Seq<Contacts>, second: Seq<Contacts>)
    requires
        first.to_multiset() == second.to_multiset(),
    ensures
        ongoing_events(first).to_multiset() == ongoing_events(second).to_multiset(),
        started_events(first).to_multiset() == started_events(second).to_multiset(),
        ended_events(first).to_multiset() == ended_events(second).to_multiset(),
{
    let ongoing = |c: Contacts| is_ongoing(c);
    let started = |c: Contacts| is_started(c);
    let ended = |c: Contacts| is_ended(c);
    lemma_filter_to_multiset(first, ongoing);
    lemma_filter_to_multiset(second, ongoing);
    lemma_map_values_of_permutation(
        first.filter(ongoing),
        second.filter(ongoing),
        |c: Contacts| Collision(c),
    );
    lemma_filter_to_multiset(first, started);
    lemma_filter_to_multiset(second, started);
    lemma_map_values_of_permutation(
        first.filter(started),
        second.filter(started),
        |c: Contacts| CollisionStarted(c.entity1, c.entity2),
    );
    lemma_filter_to_multiset(first, ended);
    lemma_filter_to_multiset(second, ended);
    lemma_map_values_of_permutation(
        first.filter(ended),
        second.filter(ended),
        |c: Contacts| CollisionEnded(c.entity1, c.entity2),
    );
}

/// The order of the records does not show in what is left. Two valid
/// registries with the same records leave the same colliding sets, and yield
/// the same notifications of each kind, each as often as the other.
pub proof fn lemma_order_of_records(
    sets: Map<Entity, Set<Entity>>,
    first: Seq<Contacts>,
    second: Seq<Contacts>,
)
    requires
        valid_registry(first),
        valid_registry(second),
        first.to_multiset() == second.to_multiset(),
    ensures
        sets_after(sets, first) == sets_after(sets, second),
        ongoing_events(first).to_multiset() == ongoing_events(second).to_multiset(),
        started_events(first).to_multiset() == started_events(second).to_multiset(),
        ended_events(first).to_multiset() == ended_events(second).to_multiset(),
{
    lemma_notifications_of_permutation(first, second);
    lemma_sets_after_valid_registry(sets, first);
    lemma_sets_after_valid_registry(sets, second);
    assert forall|owner: Entity| #[trigger] sets.contains_key(owner) implies sets_after(
        sets,
        first,
    )[owner] == sets_after(sets, second)[owner] by {
        assert forall|other: Entity|
            touching_after(sets[owner], first, owner).contains(other) == touching_after(
                sets[owner],
                second,
                owner,
            ).contains(other) by {
            lemma_pair_of_permutation(first, second, owner, other);
            lemma_pair_of_permutation(second, first, owner, other);
        }
        assert(touching_after(sets[owner], first, owner) =~= touching_after(
            sets[owner],
            second,
            owner,
        ));
    }
    assert(sets_after(sets, first) =~= sets_after(sets, second));
}

/// A pair that started or stopped touching by a record of one registry did so
/// by a record of any registry that holds the same records.
proof fn lemma_pair_of_permutation(
    first: Seq<Contacts>,
    second: Seq<Contacts>,
    a: Entity,
    b: Entity,
)
    requires
        first.to_multiset() == second.to_multiset(),
    ensures
        pair_started(first, a, b) ==> pair_started(second, a, b),
        pair_ended(first, a, b) ==> pair_ended(second, a, b),
{
    broadcast use group_to_multiset_ensures;

    if pair_started(first, a, b) {
        let i = choose|i: int|
            0 <= i < first.len() && is_started(#[trigger] first[i]) && first[i].is_pair(a, b);
        assert(first.contains(first[i]));
        assert(first.to_multiset().count(first[i]) > 0);
        assert(second.contains(first[i]));
        let j = choose|j: int| 0 <= j < second.len() && second[j] == first[i];
        assert(is_started(second[j]) && second[j].is_pair(a, b));
    }
    if pair_ended(first, a, b) {
        let i = choose|i: int|
            0 <= i < first.len() && is_ended(#[trigger] first[i]) && first[i].is_pair(a, b);
        assert(first.contains(first[i]));
        assert(first.to_multiset().count(first[i]) > 0);
        assert(second.contains(first[i]));
        let j = choose|j: int| 0 <= j < second.len() && second[j] == first[i];
        assert(is_ended(second[j]) && second[j].is_pair(a, b));
    }
}

} // verus!
