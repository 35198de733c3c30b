//! Contact records and the transition that a record stands for.

use crate::entity::Entity;
use vstd::prelude::*;

verus! {

/// What the collision detector knows of one pair of entities.
///
/// The two flags carry the whole history that a pass needs: whether the pair
/// was touching in the step just completed, and whether it was touching in
/// the step before.
#[derive(Clone, Copy, Debug, PartialEq, Eq, Structural)]
pub struct Contacts {
    /// First entity of the pair.
    pub entity1: Entity,
    /// Second entity of the pair.
    pub entity2: Entity,
    /// True if the pair was touching in the step just completed.
    pub during_current_frame: bool,
    /// True if the pair was touching in the step before.
    pub during_previous_frame: bool,
    /// Handle of the contact geometry (points, normal, depth, materials),
    /// which the collision detector owns. It is carried along verbatim and
    /// never looked at.
    pub payload: u64,
}

/// How the contact between a pair changed from the previous step to the
/// current one.
#[derive(Clone, Copy, Debug, PartialEq, Eq, Structural)]
pub enum Transition {
    /// Not touching before, touching now.
    Started,
    /// Touching before and now.
    Continuing,
    /// Touching before, not touching now.
    Ended,
    /// Touching neither before nor now: nothing to report.
    Inactive,
}

impl Contacts {
    /// The transition that the two flags stand for.
    pub open spec fn spec_transition(self) -> Transition {
        if self.during_current_frame {
            if self.during_previous_frame {
                Transition::Continuing
            } else {
                Transition::Started
            }
        } else if self.during_previous_frame {
            Transition::Ended
        } else {
            Transition::Inactive
        }
    }

    /// True if both records are about the same unordered pair of entities.
    pub open spec fn same_pair(self, other: Contacts) -> bool {
        ||| self.entity1 == other.entity1 && self.entity2 == other.entity2
        ||| self.entity1 == other.entity2 && self.entity2 == other.entity1
    }

    /// True if the record is about the unordered pair of `a` and `b`.
    pub open spec fn is_pair(self, a: Entity, b: Entity) -> bool {
        ||| self.entity1 == a && self.entity2 == b
        ||| self.entity1 == b && self.entity2 == a
    }

    /// Classifies the record by its two flags.
    #[verifier::when_used_as_spec(spec_transition)]
    pub fn transition(self) -> (transition: Transition)
        ensures
            transition == self.spec_transition(),
    {
        if self.during_current_frame {
            if self.during_previous_frame {
                Transition::Continuing
            } else {
                Transition::Started
            }
        } else if self.during_previous_frame {
            Transition::Ended
        } else {
            Transition::Inactive
        }
    }
}

} // verus!
