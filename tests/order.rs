use ecs::kinds::KindRegistry;
use ecs::order::sort_by_layer;

#[test]
fn layer_sort_breaks_ties_by_identifier() {
    let e1 = (0u32, 5i64);
    let e2 = (1u32, 1i64);
    let e3 = (2u32, 5i64);
    let sorted = sort_by_layer(&vec![e1, e2, e3]);
    assert_eq!(sorted, vec![e2, e1, e3]);
    let sorted = sort_by_layer(&vec![e3, e1, e2]);
    assert_eq!(sorted, vec![e2, e1, e3]);
}

#[test]
fn layer_sort_handles_empty_and_negative_layers() {
    assert!(sort_by_layer(&vec![]).is_empty());
    let sorted = sort_by_layer(&vec![(4, 0), (3, -2), (9, i64::MAX), (1, i64::MIN)]);
    assert_eq!(sorted, vec![(1, i64::MIN), (3, -2), (4, 0), (9, i64::MAX)]);
}

#[test]
fn kind_tags_are_stable_and_distinct() {
    let mut reg = KindRegistry::new();
    let a = reg.tag_of(0xdead);
    let b = reg.tag_of(0xbeef);
    assert_eq!(a, 0);
    assert_eq!(b, 1);
    assert_eq!(reg.tag_of(0xdead), a);
    assert_eq!(reg.tag_of(0xbeef), b);
    assert_eq!(reg.tag_of(7), 2);
}
