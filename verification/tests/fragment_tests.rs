use pender::event::Event;
use pender::fragment::{Fragment, Link};

#[test]
fn append_sets_head_and_stores_both_digests() {
    let mut frag = Fragment::new();
    assert_eq!(frag.head, None);

    frag.append(b"first");
    let first = Event::new(b"first", None);
    assert_eq!(frag.head, Some(first.clone()));

    frag.append(b"second");
    let second = Event::new(b"second", Some(first.clone()));
    assert_eq!(frag.head, Some(second.clone()));

    assert!(frag.get(&first.hash()).is_some());
    assert!(frag.get(&second.hash()).is_some());
}

#[test]
fn get_finds_stored_events_and_nothing_else() {
    let mut frag = Fragment::new();
    frag.append(b"stored");
    let stored = Event::new(b"stored", None);
    let absent = Event::new(b"absent", None);

    assert_eq!(frag.get(&stored.hash()), Some(&stored));
    assert_eq!(frag.get(&absent.hash()), None);
}

#[test]
fn traversal_yields_newest_first_then_terminus() {
    let mut frag = Fragment::new();
    frag.append(b"Stuff happened");
    frag.append(b"More stuff happened");

    let root = Event::new(b"Stuff happened", None);
    let newer = Event::new(b"More stuff happened", Some(root.clone()));

    let mut chain = frag.summarize("my-summary");
    assert_eq!(chain.next_event(), Link::Event(newer));
    assert_eq!(chain.next_event(), Link::Event(root));
    assert_eq!(chain.next_event(), Link::Terminus(None));
    assert_eq!(chain.next_event(), Link::Terminus(None));
}

#[test]
fn missing_ancestor_yields_boundary_terminus() {
    let mut frag = Fragment::new();
    frag.append(b"ancient");
    frag.append(b"recent");

    let ancient = Event::new(b"ancient", None);
    let recent = Event::new(b"recent", Some(ancient.clone()));
    let missing = ancient.hash();

    frag.events.retain(|entry| entry.0 != missing);

    let mut chain = frag.summarize("partial");
    assert_eq!(chain.next_event(), Link::Event(recent));
    assert_eq!(chain.next_event(), Link::Terminus(Some(missing)));
    assert_eq!(chain.next_event(), Link::Terminus(Some(missing)));
}

#[test]
fn empty_fragment_yields_origin_terminus_at_once() {
    let frag = Fragment::new();
    let mut chain = frag.summarize("nothing-yet");
    assert_eq!(chain.next_event(), Link::Terminus(None));
}

#[test]
fn reappending_an_event_is_idempotent() {
    let mut frag = Fragment::new();
    let root = Event::new(b"again", None);
    frag.append_event(root.clone());
    frag.append_event(root.clone());

    assert_eq!(frag.head, Some(root.clone()));
    assert_eq!(frag.get(&root.hash()), Some(&root));

    let mut chain = frag.summarize("twice");
    assert_eq!(chain.next_event(), Link::Event(root));
    assert_eq!(chain.next_event(), Link::Terminus(None));
}
