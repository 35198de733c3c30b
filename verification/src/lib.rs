//! Contact-state diffing and notification for a stepped physics simulation.
//!
//! Once per simulation step the collision detector leaves a registry of
//! entity pairs, each tagged with whether the pair was touching in the step
//! just completed and in the step before it. [`report_contacts`] turns that
//! registry into three notification streams (ongoing contact, contact start,
//! contact end) and keeps the per-entity sets of touching entities in line
//! with it.

pub mod colliding;
pub mod collisions;
pub mod contacts;
pub mod diagnostics;
pub mod entity;
pub mod events;
pub mod laws;
pub mod report;

pub use colliding::Colliders;
pub use colliding::CollidingEntities;
pub use collisions::Collisions;
pub use collisions::InsertError;
pub use contacts::Contacts;
pub use contacts::Transition;
pub use diagnostics::CollisionDiagnostics;
pub use entity::Entity;
pub use events::Collision;
pub use events::CollisionEnded;
pub use events::CollisionStarted;
pub use report::report_contacts;
