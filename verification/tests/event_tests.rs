use pender::event::Event;

#[test]
fn hash_root_self_equal() {
    let root_a = Event::new(b"foo", None);
    let root_b = Event::new(b"foo", None);
    assert_eq!(root_a.hash(), root_b.hash())
}

#[test]
fn hash_root_unequal_when_facts_unequal() {
    let root_a = Event::new(b"foo", None);
    let root_b = Event::new(b"boo", None);
    assert!(root_a.hash() != root_b.hash())
}

#[test]
fn hash_of_root_not_equal_to_hash_of_descendent() {
    let root = Event::new(b"foo", None);
    let descendent = Event::new(b"foo", Some(root.clone()));
    assert!(root.hash() != descendent.hash());
}

#[test]
fn hash_of_descendents_equal_when_events_and_parents_equal() {
    let root = Event::new(b"foo", None);
    let desc_a = Event::new(b"foo", Some(root.clone()));
    let desc_b = Event::new(b"foo", Some(root));
    assert_eq!(desc_a.hash(), desc_b.hash());
}

#[test]
fn hash_of_descendents_not_equal_when_events_are_not_equal() {
    let root = Event::new(b"foo", None);
    let desc_a = Event::new(b"foo", Some(root.clone()));
    let desc_b = Event::new(b"bar", Some(root));
    assert!(desc_a.hash() != desc_b.hash());
}

#[test]
fn hash_of_descendents_not_equal_when_parents_are_not_equal() {
    let root_a = Event::new(b"foo", None);
    let root_b = Event::new(b"bar", None);
    let desc_a = Event::new(b"foo", Some(root_a));
    let desc_b = Event::new(b"foo", Some(root_b));
    assert!(desc_a.hash() != desc_b.hash());
}

#[test]
fn hash_is_deterministic_across_invocations() {
    let event = Event::new(b"payload", None);
    let first = event.hash();
    let second = event.hash();
    let rebuilt = Event::new(b"payload", None).hash();
    assert_eq!(first, second);
    assert_eq!(first, rebuilt);
}

#[test]
fn parent_links_carry_the_predecessor_digest() {
    let grandma = Event::new(b"Aphrodite", None);
    let dad = Event::new(b"Greg", Some(grandma.clone()));
    let child = Event::new(b"Fitzroy", Some(dad.clone()));

    assert_eq!(grandma.parent(), None);
    assert_eq!(dad.parent(), Some(grandma.hash()));
    assert_eq!(child.parent(), Some(dad.hash()));
    assert!(grandma.is_root());
    assert!(!dad.is_root());
    assert!(!child.is_root());
}

#[test]
fn tampering_with_an_ancestor_changes_every_descendant_digest() {
    let root = Event::new(b"genesis", None);
    let mid = Event::new(b"middle", Some(root.clone()));
    let tip = Event::new(b"tip", Some(mid.clone()));

    let tampered_root = Event::new(b"genesis!", None);
    let tampered_mid = Event::new(b"middle", Some(tampered_root.clone()));
    let tampered_tip = Event::new(b"tip", Some(tampered_mid.clone()));

    assert!(root.hash() != tampered_root.hash());
    assert!(mid.hash() != tampered_mid.hash());
    assert!(tip.hash() != tampered_tip.hash());
}
