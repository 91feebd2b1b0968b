use ecs::component_manager::ComponentManager;
use ecs::entity_manager::EntityManager;

#[test]
fn new_registry_is_empty() {
    let em = EntityManager::new();
    assert!(em.entities().is_empty());
}

#[test]
fn add_mints_dense_identifiers() {
    let mut em = EntityManager::new();
    assert_eq!(em.add(), 0);
    assert_eq!(em.add(), 1);
    assert_eq!(em.add(), 2);
    let mut ids = em.entities();
    ids.sort();
    assert_eq!(ids, vec![0, 1, 2]);
}

#[test]
fn rm_reports_whether_entity_was_live() {
    let mut em = EntityManager::new();
    let mut cm: ComponentManager<u8> = ComponentManager::new();
    let a = em.add();
    assert!(em.rm(a, &mut cm));
    assert!(!em.rm(a, &mut cm));
    assert!(!em.rm(42, &mut cm));
    assert!(em.get(a).is_none());
}

#[test]
fn freed_identifiers_are_reused_last_first() {
    let mut em = EntityManager::new();
    let mut cm: ComponentManager<u8> = ComponentManager::new();
    for _ in 0..4 {
        em.add();
    }
    em.rm(1, &mut cm);
    em.rm(3, &mut cm);
    assert_eq!(em.add(), 3);
    assert_eq!(em.add(), 1);
    assert_eq!(em.add(), 4);
}

#[test]
fn add_gen_registers_given_identifier() {
    let mut em = EntityManager::new();
    em.add_gen(7);
    assert_eq!(em.get(7).map(|k| k.len()), Some(0));
    assert!(em.has_kind(7, 1) == false);
    assert_eq!(em.entities(), vec![7]);
}

#[test]
fn live_set_is_created_minus_destroyed() {
    let mut em = EntityManager::new();
    let mut cm: ComponentManager<u8> = ComponentManager::new();
    let mut created = Vec::new();
    for _ in 0..10 {
        created.push(em.add());
    }
    for id in [2u32, 5, 7] {
        em.rm(id, &mut cm);
    }
    let again = em.add();
    assert_eq!(again, 7);
    let mut ids = em.entities();
    ids.sort();
    assert_eq!(ids, vec![0, 1, 3, 4, 6, 7, 8, 9]);
    let mut dedup = ids.clone();
    dedup.dedup();
    assert_eq!(dedup.len(), ids.len());
}

#[test]
fn add_gen_of_a_freed_identifier_removes_it_from_the_free_list() {
    let mut em = EntityManager::new();
    let mut cm: ComponentManager<u8> = ComponentManager::new();
    em.add();
    em.add();
    em.add();
    em.rm(0, &mut cm);
    em.rm(2, &mut cm);
    em.add_gen(2);
    assert_eq!(em.add(), 0);
    assert_eq!(em.add(), 3);
}
