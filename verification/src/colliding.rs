//! The per-entity sets of touching entities, and the store that resolves an
//! entity to its set.

use crate::entity::Entity;
use std::collections::hash_map::Entry;
use std::collections::HashMap;
use std::collections::HashSet;
use vstd::prelude::*;
use vstd::std_specs::hash::*;
use vstd::std_specs::iter::IteratorSpec;

verus! {

broadcast use {group_hash_axioms, Entity::lemma_bits_identify};

/// The entities that one entity is touching right now.
pub struct CollidingEntities {
    bits: HashSet<u64>,
}

impl View for CollidingEntities {
    type V = Set<Entity>;

    closed spec fn view(&self) -> Set<Entity> {
        Set::new(|entity: Entity| self.bits@.contains(entity.spec_bits()))
    }
}

impl CollidingEntities {
    /// An empty set.
    pub fn new() -> (set: CollidingEntities)
        ensures
            set@ == Set::<Entity>::empty(),
    {
        CollidingEntities { bits: HashSet::new() }
    }

    /// True if `entity` is in the set.
    pub fn contains(&self, entity: &Entity) -> (found: bool)
        ensures
            found == self@.contains(*entity),
    {
        let bits = entity.to_bits();
        self.bits.contains(&bits)
    }

    /// The entities of the set, each once, in no particular order.
    pub fn to_vec(&self) -> (entities: Vec<Entity>)
        ensures
            entities@.to_set() == self@,
            entities@.no_duplicates(),
    {
        let mut entities: Vec<Entity> = Vec::new();
        for bits in iter: self.bits.iter()
            invariant
                entities@.len() == iter.index(),
                iter.seq() == spec_hash_keys_iter(&self.bits).remaining(),
                forall|i: int|
                    0 <= i < entities@.len() ==> (#[trigger] entities@[i]).spec_bits()
                        == *iter.seq()[i],
        {
            entities.push(Entity::from_bits(*bits));
        }
        proof {
            let keys = spec_hash_keys_iter(&self.bits).remaining().unref();
            assert(keys.to_set() == self.bits@);
            assert forall|entity: Entity| entities@.to_set().contains(entity) == self@.contains(
                entity,
            ) by {
                if entities@.contains(entity) {
                    let i = choose|i: int| 0 <= i < entities@.len() && entities@[i] == entity;
                    assert(keys[i] == entity.spec_bits());
                    assert(keys.contains(entity.spec_bits()));
                }
                if self@.contains(entity) {
                    assert(keys.to_set().contains(entity.spec_bits()));
                    let i = choose|i: int| 0 <= i < keys.len() && keys[i] == entity.spec_bits();
                    assert(entities@[i] == entity);
                }
            }
            assert(entities@.to_set() =~= self@);
        }
        entities
    }

    /// Adds `entity` to the set. Returns whether it was newly added.
    pub fn insert(&mut self, entity: Entity) -> (added: bool)
        ensures
            final(self)@ == old(self)@.insert(entity),
            added == !old(self)@.contains(entity),
    {
        self.bits.insert(entity.to_bits())
    }

    /// Takes `entity` out of the set. Returns whether it was in the set.
    pub fn remove(&mut self, entity: &Entity) -> (removed: bool)
        ensures
            final(self)@ == old(self)@.remove(*entity),
            removed == old(self)@.contains(*entity),
    {
        let bits = entity.to_bits();
        self.bits.remove(&bits)
    }
}

/// The colliding sets of the entities that exist, each under its entity.
///
/// An entity is resolvable while the store holds a set for it. An entity that
/// was destroyed, or that never was collidable, is not.
pub struct Colliders {
    sets: HashMap<u64, CollidingEntities>,
}

impl View for Colliders {
    type V = Map<Entity, Set<Entity>>;

    closed spec fn view(&self) -> Map<Entity, Set<Entity>> {
        Map::new(
            |entity: Entity| self.sets@.contains_key(entity.spec_bits()),
            |entity: Entity| self.sets@[entity.spec_bits()]@,
        )
    }
}

impl Colliders {
    /// A store in which no entity is resolvable.
    pub fn new() -> (colliders: Colliders)
        ensures
            colliders@ == Map::<Entity, Set<Entity>>::empty(),
    {
        Colliders { sets: HashMap::new() }
    }

    /// True if `entity` is resolvable.
    pub fn contains(&self, entity: &Entity) -> (found: bool)
        ensures
            found == self@.contains_key(*entity),
    {
        let bits = entity.to_bits();
        self.sets.contains_key(&bits)
    }

    /// Makes `entity` resolvable, with `set` as its colliding set. Returns the
    /// set that it had before, if it was resolvable already.
    pub fn insert(&mut self, entity: Entity, set: CollidingEntities) -> (previous: Option<
        CollidingEntities,
    >)
        ensures
            final(self)@ == old(self)@.insert(entity, set@),
            match previous {
                Some(before) => old(self)@.contains_key(entity) && before@ == old(self)@[entity],
                None => !old(self)@.contains_key(entity),
            },
    {
        self.sets.insert(entity.to_bits(), set)
    }

    /// Makes `entity` unresolvable, as when it is destroyed. Returns the set
    /// that it had, if it was resolvable.
    pub fn remove(&mut self, entity: &Entity) -> (previous: Option<CollidingEntities>)
        ensures
            final(self)@ == old(self)@.remove(*entity),
            match previous {
                Some(before) => old(self)@.contains_key(*entity) && before@ == old(self)@[*entity],
                None => !old(self)@.contains_key(*entity),
            },
    {
        let bits = entity.to_bits();
        self.sets.remove(&bits)
    }

    /// The colliding set of `entity`, if it is resolvable.
    pub fn get(&self, entity: &Entity) -> (set: Option<&CollidingEntities>)
        ensures
            match set {
                Some(found) => self@.contains_key(*entity) && found@ == self@[*entity],
                None => !self@.contains_key(*entity),
            },
    {
        let bits = entity.to_bits();
        self.sets.get(&bits)
    }

    /// The colliding set of `entity` for changing it, if it is resolvable.
    pub fn get_mut(&mut self, entity: &Entity) -> (set: Option<&mut CollidingEntities>)
        ensures
            match set {
                Some(found) => {
                    &&& old(self)@.contains_key(*entity)
                    &&& found@ == old(self)@[*entity]
                    &&& final(self)@ == old(self)@.insert(*entity, final(found)@)
                },
                None => !old(self)@.contains_key(*entity) && final(self)@ == old(self)@,
            },
    {
        match self.sets.entry(entity.to_bits()) {
            Entry::Occupied(occupied) => Some(occupied.into_mut()),
            Entry::Vacant(_) => None,
        }
    }
}

} // verus!
