use lessons::tree::Arena;

#[test]
fn fresh_node_counts() {
    let mut arena = Arena::new();
    let n = arena.create(42);
    assert_eq!(arena.strong_count(n), 1);
    assert_eq!(arena.weak_count(n), 0);
    assert_eq!(arena.value(n), 42);
    assert!(arena.is_live(n));
    assert_eq!(arena.resolve_parent(n), None);
}

#[test]
fn attach_child_moves_counts_by_one() {
    let mut arena = Arena::new();
    let parent = arena.create(1);
    let child = arena.create(2);
    let parent_strong_before = arena.strong_count(parent);
    let parent_weak_before = arena.weak_count(parent);
    let child_strong_before = arena.strong_count(child);
    let child_weak_before = arena.weak_count(child);
    arena.attach_child(parent, child);
    assert_eq!(arena.strong_count(child), child_strong_before + 1);
    assert_eq!(arena.weak_count(parent), parent_weak_before + 1);
    assert_eq!(arena.strong_count(parent), parent_strong_before);
    assert_eq!(arena.weak_count(child), child_weak_before);
}

#[test]
fn resolve_right_after_attach() {
    let mut arena = Arena::new();
    let parent = arena.create(7);
    let child = arena.create(8);
    arena.attach_child(parent, child);
    assert_eq!(arena.resolve_parent(child), Some(parent));
}

#[test]
fn dropped_parent_resolves_absent() {
    let mut arena = Arena::new();
    let parent = arena.create(7);
    let child = arena.create(8);
    arena.attach_child(parent, child);
    arena.release(parent);
    assert!(!arena.is_live(parent));
    assert!(arena.is_live(child));
    assert_eq!(arena.resolve_parent(child), None);
    assert_eq!(arena.strong_count(parent), 0);
    assert!(arena.weak_count(parent) >= 1);
}

#[test]
fn leaf_and_parent_scenario() {
    let mut arena = Arena::new();
    let leaf = arena.create(10);
    assert_eq!(arena.strong_count(leaf), 1);
    assert_eq!(arena.weak_count(leaf), 0);

    let parent = arena.create(15);
    arena.add_child(parent, leaf);
    assert_eq!(arena.strong_count(leaf), 2);
    assert_eq!(arena.weak_count(leaf), 0);
    assert_eq!(arena.strong_count(parent), 1);
    assert_eq!(arena.weak_count(parent), 0);

    arena.set_parent(leaf, parent);
    assert_eq!(arena.weak_count(parent), 1);
    assert_eq!(arena.strong_count(parent), 1);
    assert_eq!(arena.resolve_parent(leaf), Some(parent));

    arena.release(parent);
    assert_eq!(arena.resolve_parent(leaf), None);
    assert!(arena.is_live(leaf));
    assert_eq!(arena.strong_count(leaf), 1);
}

#[test]
fn counts_do_not_change_without_mutation() {
    let mut arena = Arena::new();
    let parent = arena.create(1);
    let child = arena.create(2);
    arena.attach_child(parent, child);
    let s1 = arena.strong_count(child);
    let s2 = arena.strong_count(child);
    let s3 = arena.strong_count(child);
    assert_eq!(s1, s2);
    assert_eq!(s2, s3);
    let w1 = arena.weak_count(parent);
    let w2 = arena.weak_count(parent);
    let w3 = arena.weak_count(parent);
    assert_eq!(w1, w2);
    assert_eq!(w2, w3);
}

#[test]
fn destruction_cascades_through_owned_chain() {
    let mut arena = Arena::new();
    let a = arena.create(1);
    let b = arena.create(2);
    let c = arena.create(3);
    arena.attach_child(a, b);
    arena.attach_child(b, c);
    arena.release(b);
    arena.release(c);
    assert!(arena.is_live(a) && arena.is_live(b) && arena.is_live(c));
    arena.release(a);
    assert!(!arena.is_live(a));
    assert!(!arena.is_live(b));
    assert!(!arena.is_live(c));
    assert_eq!(arena.strong_count(c), 0);
}

#[test]
fn cloned_handle_keeps_node_alive() {
    let mut arena = Arena::new();
    let n = arena.create(5);
    arena.clone_handle(n);
    assert_eq!(arena.strong_count(n), 2);
    arena.release(n);
    assert!(arena.is_live(n));
    assert_eq!(arena.strong_count(n), 1);
    arena.release(n);
    assert!(!arena.is_live(n));
}

#[test]
fn children_keep_attachment_order() {
    let mut arena = Arena::new();
    let parent = arena.create(0);
    let first = arena.create(1);
    let second = arena.create(2);
    arena.attach_child(parent, first);
    arena.attach_child(parent, second);
    assert_eq!(arena.children(parent), vec![first, second]);
    assert_eq!(arena.children(first), Vec::<usize>::new());
}
