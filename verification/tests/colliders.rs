use contact_reporting::Colliders;
use contact_reporting::CollidingEntities;
use contact_reporting::Entity;

fn sorted_bits(set: &CollidingEntities) -> Vec<u64> {
    let mut bits: Vec<u64> = set.to_vec().iter().map(|entity| entity.to_bits()).collect();
    bits.sort();
    bits
}

#[test]
fn new_set_is_empty() {
    let set = CollidingEntities::new();
    assert!(!set.contains(&Entity::from_bits(0)));
    assert_eq!(set.to_vec(), vec![]);
}

#[test]
fn set_insert_reports_whether_new() {
    let mut set = CollidingEntities::new();
    assert!(set.insert(Entity::from_bits(3)));
    assert!(!set.insert(Entity::from_bits(3)));
    assert!(set.insert(Entity::from_bits(5)));
    assert!(set.contains(&Entity::from_bits(3)));
    assert!(set.contains(&Entity::from_bits(5)));
    assert!(!set.contains(&Entity::from_bits(4)));
    assert_eq!(sorted_bits(&set), vec![3, 5]);
}

#[test]
fn set_remove_reports_whether_held() {
    let mut set = CollidingEntities::new();
    set.insert(Entity::from_bits(3));
    set.insert(Entity::from_bits(5));
    assert!(set.remove(&Entity::from_bits(3)));
    assert!(!set.remove(&Entity::from_bits(3)));
    assert!(!set.remove(&Entity::from_bits(9)));
    assert!(!set.contains(&Entity::from_bits(3)));
    assert_eq!(sorted_bits(&set), vec![5]);
}

#[test]
fn set_lists_each_entity_once() {
    let mut set = CollidingEntities::new();
    for bits in [9, 1, 9, 4, 1, u64::MAX] {
        set.insert(Entity::from_bits(bits));
    }
    assert_eq!(sorted_bits(&set), vec![1, 4, 9, u64::MAX]);
}

#[test]
fn new_store_resolves_nothing() {
    let colliders = Colliders::new();
    assert!(!colliders.contains(&Entity::from_bits(1)));
    assert!(colliders.get(&Entity::from_bits(1)).is_none());
}

#[test]
fn store_resolves_what_was_inserted() {
    let mut colliders = Colliders::new();
    let mut set = CollidingEntities::new();
    set.insert(Entity::from_bits(2));
    assert!(colliders.insert(Entity::from_bits(1), set).is_none());
    assert!(colliders.contains(&Entity::from_bits(1)));
    assert!(!colliders.contains(&Entity::from_bits(2)));
    assert_eq!(sorted_bits(colliders.get(&Entity::from_bits(1)).unwrap()), vec![2]);
}

#[test]
fn store_insert_hands_back_the_set_before() {
    let mut colliders = Colliders::new();
    let mut first = CollidingEntities::new();
    first.insert(Entity::from_bits(2));
    colliders.insert(Entity::from_bits(1), first);
    let before = colliders.insert(Entity::from_bits(1), CollidingEntities::new());
    assert_eq!(sorted_bits(&before.unwrap()), vec![2]);
    assert_eq!(sorted_bits(colliders.get(&Entity::from_bits(1)).unwrap()), Vec::<u64>::new());
}

#[test]
fn store_remove_makes_unresolvable() {
    let mut colliders = Colliders::new();
    let mut set = CollidingEntities::new();
    set.insert(Entity::from_bits(6));
    colliders.insert(Entity::from_bits(1), set);
    colliders.insert(Entity::from_bits(2), CollidingEntities::new());
    let removed = colliders.remove(&Entity::from_bits(1));
    assert_eq!(sorted_bits(&removed.unwrap()), vec![6]);
    assert!(!colliders.contains(&Entity::from_bits(1)));
    assert!(colliders.contains(&Entity::from_bits(2)));
    assert!(colliders.remove(&Entity::from_bits(1)).is_none());
}

#[test]
fn store_get_mut_changes_the_set_in_place() {
    let mut colliders = Colliders::new();
    colliders.insert(Entity::from_bits(1), CollidingEntities::new());
    colliders.insert(Entity::from_bits(2), CollidingEntities::new());
    assert!(colliders.get_mut(&Entity::from_bits(1)).unwrap().insert(Entity::from_bits(2)));
    assert!(colliders.get_mut(&Entity::from_bits(3)).is_none());
    assert_eq!(sorted_bits(colliders.get(&Entity::from_bits(1)).unwrap()), vec![2]);
    assert_eq!(sorted_bits(colliders.get(&Entity::from_bits(2)).unwrap()), Vec::<u64>::new());
    assert!(!colliders.contains(&Entity::from_bits(3)));
}
