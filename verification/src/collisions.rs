//! The contact registry: one record for each pair of entities of interest.

use crate::contacts::Contacts;
use vstd::prelude::*;

verus! {

/// True if no record of `records` pairs an entity with itself.
pub open spec fn no_self_pairs(records: Seq<Contacts>) -> bool {
    forall|i: int| 0 <= i < records.len() ==> (#[trigger] records[i]).entity1 != records[i].entity2
}

/// True if no two records of `records` are about the same unordered pair.
pub open spec fn pairs_unique(records: Seq<Contacts>) -> bool {
    forall|i: int, j: int|
        0 <= i < j < records.len() ==> !(#[trigger] records[i]).same_pair(#[trigger] records[j])
}

/// What makes a sequence of records a registry: there are no self-pairs, and
/// each unordered pair has at most one record.
pub open spec fn valid_registry(records: Seq<Contacts>) -> bool {
    no_self_pairs(records) && pairs_unique(records)
}

/// True if `records` holds a record about the pair of `contacts`.
pub open spec fn has_pair(records: Seq<Contacts>, contacts: Contacts) -> bool {
    exists|i: int| 0 <= i < records.len() && (#[trigger] records[i]).same_pair(contacts)
}

/// Why a record was not taken into the registry.
#[derive(Clone, Copy, Debug, PartialEq, Eq, Structural)]
pub enum InsertError {
    /// The record pairs an entity with itself.
    SelfPair,
    /// The registry already holds a record about the same unordered pair.
    DuplicatePair,
}

/// The contact registry of one simulation step.
///
/// Its records are kept in the order in which they were inserted, and that
/// is the order in which a pass goes through them.
pub struct Collisions {
    records: Vec<Contacts>,
}

impl View for Collisions {
    type V = Seq<Contacts>;

    closed spec fn view(&self) -> Seq<Contacts> {
        self.records@
    }
}

impl Collisions {
    /// The invariant of the registry.
    pub open spec fn wf(&self) -> bool {
        valid_registry(self@)
    }

    /// An empty registry.
    pub fn new() -> (collisions: Collisions)
        ensures
            collisions@ == Seq::<Contacts>::empty(),
            collisions.wf(),
    {
        Collisions { records: Vec::new() }
    }

    /// The number of records.
    pub fn len(&self) -> (len: usize)
        ensures
            len == self@.len(),
    {
        self.records.len()
    }

    /// The record at position `index`.
    pub(crate) fn record(&self, index: usize) -> (contacts: Contacts)
        requires
            index < self@.len(),
        ensures
            contacts == self@[index as int],
    {
        self.records[index]
    }

    /// The record at position `index`, if there is one.
    pub fn get(&self, index: usize) -> (contacts: Option<Contacts>)
        ensures
            contacts == if index < self@.len() {
                Some(self@[index as int])
            } else {
                None
            },
    {
        if index < self.records.len() {
            Some(self.records[index])
        } else {
            None
        }
    }

    /// Appends `contacts`, unless that would break the invariant: a self-pair
    /// is refused, and so is a second record about a pair that the registry
    /// already holds. A refused record leaves the registry as it was.
    pub fn insert(&mut self, contacts: Contacts) -> (result: Result<(), InsertError>)
        requires
            old(self).wf(),
        ensures
            final(self).wf(),
            match result {
                Ok(_) => {
                    &&& contacts.entity1 != contacts.entity2
                    &&& !has_pair(old(self)@, contacts)
                    &&& final(self)@ == old(self)@.push(contacts)
                },
                Err(InsertError::SelfPair) => {
                    &&& contacts.entity1 == contacts.entity2
                    &&& final(self)@ == old(self)@
                },
                Err(InsertError::DuplicatePair) => {
                    &&& contacts.entity1 != contacts.entity2
                    &&& has_pair(old(self)@, contacts)
                    &&& final(self)@ == old(self)@
                },
            },
    {
        if contacts.entity1 == contacts.entity2 {
            return Err(InsertError::SelfPair);
        }
        let mut i: usize = 0;
        while i < self.records.len()
            invariant
                i <= self.records.len(),
                self.records@ == old(self).records@,
                old(self).wf(),
                contacts.entity1 != contacts.entity2,
                forall|j: int| 0 <= j < i ==> !(#[trigger] self.records@[j]).same_pair(contacts),
            decreases self.records.len() - i,
        {
            let held = self.records[i];
            if (held.entity1 == contacts.entity1 && held.entity2 == contacts.entity2) || (
            held.entity1 == contacts.entity2 && held.entity2 == contacts.entity1) {
                return Err(InsertError::DuplicatePair);
            }
            i += 1;
        }
        self.records.push(contacts);
        assert forall|a: int, b: int| 0 <= a < b < self.records@.len() implies !(
        #[trigger] self.records@[a]).same_pair(#[trigger] self.records@[b]) by {
            if b < old(self).records@.len() {
                assert(!old(self).records@[a].same_pair(old(self).records@[b]));
            }
        }
        Ok(())
    }
}

} // verus!
