use contact_reporting::report_contacts;
use contact_reporting::Colliders;
use contact_reporting::CollidingEntities;
use contact_reporting::Collision;
use contact_reporting::CollisionDiagnostics;
use contact_reporting::CollisionEnded;
use contact_reporting::CollisionStarted;
use contact_reporting::Collisions;
use contact_reporting::Contacts;
use contact_reporting::Entity;
use std::time::Duration;

#[test]
fn pair_starts_continues_and_ends() {
    let a = Entity::from_bits(1);
    let b = Entity::from_bits(2);
    let mut colliders = Colliders::new();
    colliders.insert(a, CollidingEntities::new());
    colliders.insert(b, CollidingEntities::new());
    let mut diagnostics = CollisionDiagnostics { collision_events: Duration::MAX };

    // The pair starts touching.
    let started = Contacts {
        entity1: a,
        entity2: b,
        during_current_frame: true,
        during_previous_frame: false,
        payload: 7,
    };
    let mut collisions = Collisions::new();
    assert_eq!(collisions.insert(started), Ok(()));
    let mut ongoing_events = Vec::new();
    let mut started_events = Vec::new();
    let mut ended_events = Vec::new();
    report_contacts(
        &mut colliders,
        &collisions,
        &mut ongoing_events,
        &mut started_events,
        &mut ended_events,
        &mut diagnostics,
    );
    assert_eq!(ongoing_events, vec![Collision(started)]);
    assert_eq!(started_events, vec![CollisionStarted(a, b)]);
    assert_eq!(ended_events, vec![]);
    assert!(colliders.get(&a).unwrap().contains(&b));
    assert!(colliders.get(&b).unwrap().contains(&a));
    assert!(!colliders.get(&a).unwrap().contains(&a));
    assert!(!colliders.get(&b).unwrap().contains(&b));

    // The pair keeps touching.
    let continuing = Contacts { during_previous_frame: true, ..started };
    let mut collisions = Collisions::new();
    assert_eq!(collisions.insert(continuing), Ok(()));
    let mut ongoing_events = Vec::new();
    let mut started_events = Vec::new();
    let mut ended_events = Vec::new();
    report_contacts(
        &mut colliders,
        &collisions,
        &mut ongoing_events,
        &mut started_events,
        &mut ended_events,
        &mut diagnostics,
    );
    assert_eq!(ongoing_events, vec![Collision(continuing)]);
    assert_eq!(started_events, vec![]);
    assert_eq!(ended_events, vec![]);
    assert!(colliders.get(&a).unwrap().contains(&b));
    assert!(colliders.get(&b).unwrap().contains(&a));

    // The pair stops touching.
    let ended = Contacts { during_current_frame: false, ..continuing };
    let mut collisions = Collisions::new();
    assert_eq!(collisions.insert(ended), Ok(()));
    let mut ongoing_events = Vec::new();
    let mut started_events = Vec::new();
    let mut ended_events = Vec::new();
    report_contacts(
        &mut colliders,
        &collisions,
        &mut ongoing_events,
        &mut started_events,
        &mut ended_events,
        &mut diagnostics,
    );
    assert_eq!(ongoing_events, vec![]);
    assert_eq!(started_events, vec![]);
    assert_eq!(ended_events, vec![CollisionEnded(a, b)]);
    assert!(!colliders.get(&a).unwrap().contains(&b));
    assert!(!colliders.get(&b).unwrap().contains(&a));
}
