use ecs::world::World;

const POS: u64 = 0;
const VEL: u64 = 1;
const NAME: u64 = 2;

#[test]
fn attach_then_get_returns_value() {
    let mut w: World<String> = World::new();
    let e = w.create();
    assert_eq!(w.attach(e, POS, "a".to_string()), Ok(None));
    assert_eq!(w.get(e, POS), Some(&"a".to_string()));
    assert!(w.has(e, POS));
    assert_eq!(w.attach(e, POS, "b".to_string()), Ok(Some("a".to_string())));
    assert_eq!(w.get(e, POS), Some(&"b".to_string()));
}

#[test]
fn attach_to_dead_entity_is_refused() {
    let mut w: World<u32> = World::new();
    assert_eq!(w.attach(3, POS, 9), Err(9));
    assert_eq!(w.get(3, POS), None);
}

#[test]
fn detach_then_get_is_absent() {
    let mut w: World<u32> = World::new();
    let e = w.create();
    w.attach(e, POS, 1).unwrap();
    w.attach(e, VEL, 2).unwrap();
    assert_eq!(w.detach(e, POS), Some(1));
    assert_eq!(w.get(e, POS), None);
    assert!(!w.has(e, POS));
    assert_eq!(w.kinds_of(e), Some(&vec![VEL]));
    assert_eq!(w.detach(e, POS), None);
}

#[test]
fn destroy_removes_every_component() {
    let mut w: World<u32> = World::new();
    let e = w.create();
    let other = w.create();
    w.attach(e, POS, 1).unwrap();
    w.attach(e, VEL, 2).unwrap();
    w.attach(other, POS, 3).unwrap();
    assert!(w.destroy(e));
    assert_eq!(w.get(e, POS), None);
    assert_eq!(w.get(e, VEL), None);
    assert_eq!(w.kinds_of(e), None);
    assert_eq!(w.get(other, POS), Some(&3));
    assert!(!w.destroy(e));
}

#[test]
fn recreated_entity_has_no_components() {
    let mut w: World<u32> = World::new();
    let a = w.create();
    let b = w.create();
    w.attach(b, POS, 5).unwrap();
    assert!(w.destroy(b));
    let c = w.create();
    assert_eq!(c, b);
    assert_eq!(w.kinds_of(c).map(|k| k.len()), Some(0));
    assert_eq!(w.get(c, POS), None);
    assert_ne!(a, c);
}

#[test]
fn create_with_registers_identifier() {
    let mut w: World<u32> = World::new();
    w.create_with(10);
    assert_eq!(w.ids(), vec![10]);
    assert_eq!(w.attach(10, NAME, 4), Ok(None));
}

#[test]
fn query_finds_entities_with_all_kinds() {
    let mut w: World<u32> = World::new();
    let a = w.create();
    let b = w.create();
    let c = w.create();
    w.attach(a, POS, 0).unwrap();
    w.attach(a, VEL, 0).unwrap();
    w.attach(b, POS, 0).unwrap();
    w.attach(c, VEL, 0).unwrap();
    w.attach(c, POS, 0).unwrap();
    let mut both = w.query(&vec![POS, VEL]);
    both.sort();
    assert_eq!(both, vec![a, c]);
    let mut pos = w.query(&vec![POS]);
    pos.sort();
    assert_eq!(pos, vec![a, b, c]);
    assert!(w.query(&vec![NAME]).is_empty());
    let mut all = w.query(&vec![]);
    all.sort();
    assert_eq!(all, vec![a, b, c]);
    w.destroy(a);
    assert_eq!(w.query(&vec![POS, VEL]), vec![c]);
}

#[test]
fn accessors_expose_registry_and_store() {
    let mut w: World<u32> = World::new();
    let e = w.create();
    w.attach(e, VEL, 8).unwrap();
    assert_eq!(w.entity_manager().get(e), Some(&vec![VEL]));
    assert!(w.entity_manager().has_kind(e, VEL));
    assert_eq!(w.component_manager().get(e, VEL), Some(&8));
    assert_eq!(w.component_manager().get(e, POS), None);
}

#[test]
fn create_with_takes_a_freed_identifier_off_the_free_list() {
    let mut w: World<u32> = World::new();
    let a = w.create();
    let b = w.create();
    assert!(w.destroy(a));
    w.create_with(a);
    let c = w.create();
    assert_ne!(c, a);
    assert_ne!(c, b);
    let mut ids = w.ids();
    ids.sort();
    assert_eq!(ids.len(), 3);
    ids.dedup();
    assert_eq!(ids.len(), 3);
}

#[test]
fn replace_updates_only_existing_components() {
    let mut w: World<u32> = World::new();
    let e = w.create();
    assert_eq!(w.replace(e, POS, 1), Err(1));
    assert_eq!(w.get(e, POS), None);
    w.attach(e, POS, 2).unwrap();
    assert_eq!(w.replace(e, POS, 3), Ok(2));
    assert_eq!(w.get(e, POS), Some(&3));
    assert_eq!(w.kinds_of(e), Some(&vec![POS]));
}

#[test]
fn can_create_reports_a_taken_next_identifier() {
    let mut w: World<u32> = World::new();
    assert!(w.can_create_now());
    w.create_with(1);
    assert!(!w.can_create_now());
    w.create_with(5);
    assert!(w.can_create_now());
    assert_eq!(w.create(), 2);
}
