//! The content-addressed event store and its backward traversal.

use vstd::prelude::*;

use crate::event::{event_digest, mk_event_view, parent_digest_of, Event, EventView};
use crate::hash::Blake2;

verus! {

/// The mapping a sequence of `(digest, event)` entries denotes: a later
/// entry for a digest shadows an earlier one ("last write wins").
pub open spec fn mapping_of(s: Seq<(Blake2, Event)>) -> Map<Seq<u8>, EventView>
    decreases s.len(),
{
    if s.len() == 0 {
        Map::empty()
    } else {
        mapping_of(s.drop_last()).insert(s.last().0@, s.last().1@)
    }
}

/// The mathematical content of a [`Fragment`]: the current tip, if any, and
/// the mapping from digests to the events they identify.
#[verifier::ext_equal]
pub struct FragmentModel {
    pub head: Option<EventView>,
    pub mapping: Map<Seq<u8>, EventView>,
}

/// The model of an empty fragment: no tip, nothing stored.
pub open spec fn empty_model() -> FragmentModel {
    FragmentModel { head: None, mapping: Map::empty() }
}

/// What storing `e` does to a fragment: `e` becomes the tip and is entered
/// into the mapping under its own digest.
pub open spec fn spec_append_event(fm: FragmentModel, e: EventView) -> FragmentModel {
    FragmentModel { head: Some(e), mapping: fm.mapping.insert(event_digest(e), e) }
}

/// What appending the fact `fact` does to a fragment: the fact is wrapped
/// into an event chained onto the current tip (a chain origin when there is
/// none), and that event is stored.
pub open spec fn spec_append(fm: FragmentModel, fact: Seq<u8>) -> FragmentModel {
    spec_append_event(fm, mk_event_view(fact, fm.head))
}

/// One observer's locally known slice of a hash-linked history: a mapping
/// from digest to event, plus the most recently appended event ("head").
///
/// `events` holds the insertion history; the mapping it denotes is
/// [`Fragment::mapping`], under which the latest entry for a digest is
/// authoritative.
#[derive(Debug)]
pub struct Fragment {
    pub head: Option<Event>,
    pub events: Vec<(Blake2, Event)>,
}

impl Fragment {
    /// The current tip, as a mathematical value.
    pub open spec fn head_view(self) -> Option<EventView> {
        match self.head {
            None => None,
            Some(e) => Some(e@),
        }
    }

    /// The digest-to-event mapping this fragment holds.
    pub open spec fn mapping(self) -> Map<Seq<u8>, EventView> {
        mapping_of(self.events@)
    }

    /// The fragment's mathematical content.
    pub open spec fn model(self) -> FragmentModel {
        FragmentModel { head: self.head_view(), mapping: self.mapping() }
    }

    /// Well-formedness: every stored entry is keyed by the digest of its
    /// event, and the tip, if present, has its entry in the mapping.
    pub open spec fn wf(self) -> bool {
        &&& forall|i: int|
            0 <= i < self.events@.len() ==> (#[trigger] self.events@[i]).0@ == event_digest(
                self.events@[i].1@,
            )
        &&& match self.head_view() {
            None => true,
            Some(e) => self.mapping().contains_key(event_digest(e)),
        }
    }

    /// A fresh fragment: empty, with no head.
    pub fn new() -> (r: Fragment)
        ensures
            r.model() == empty_model(),
            r.wf(),
    {
        Default::default()
    }

    /// Wrap `fact` into an event chained onto the current head — a chain
    /// origin if the fragment has none — and store it as the new head.
    pub fn append(&mut self, fact: &[u8])
        ensures
            final(self).model() == spec_append(old(self).model(), fact@),
            old(self).wf() ==> final(self).wf(),
    {
        let parent: Option<Event> = match &self.head {
            None => None,
            Some(e) => Some(e.clone()),
        };
        self.append_event(Event::new(fact, parent));
    }

    /// Store `event`: it becomes the head, and is entered into the mapping
    /// under its own digest.  Re-storing an event whose digest is already
    /// present leaves that digest mapped to the newly stored value.
    pub fn append_event(&mut self, event: Event)
        ensures
            final(self).model() == spec_append_event(old(self).model(), event@),
            old(self).wf() ==> final(self).wf(),
    {
        let h = event.hash();
        self.head = Some(event.clone());
        self.events.push((h, event));
        proof {
            assert(self.events@.drop_last() =~= old(self).events@);
            assert(self.mapping() =~= old(self).mapping().insert(
                event_digest(self.events@.last().1@),
                self.events@.last().1@,
            ));
            assert(self.model() =~= spec_append_event(old(self).model(), self.events@.last().1@));
        }
    }

    /// Look up the event stored under `hash`, if any: the latest entry for
    /// that digest.
    pub fn get(&self, hash: &Blake2) -> (r: Option<&Event>)
        ensures
            match r {
                Some(e) => self.mapping().contains_key(hash@) && self.mapping()[hash@] == e@,
                None => !self.mapping().contains_key(hash@),
            },
    {
        let mut i: usize = self.events.len();
        proof {
            assert(self.events@.take(i as int) =~= self.events@);
        }
        while i > 0
            invariant
                i <= self.events@.len(),
                self.mapping().contains_key(hash@) <==> mapping_of(
                    self.events@.take(i as int),
                ).contains_key(hash@),
                self.mapping().contains_key(hash@) ==> self.mapping()[hash@] == mapping_of(
                    self.events@.take(i as int),
                )[hash@],
            decreases i,
        {
            i = i - 1;
            let entry = &self.events[i];
            proof {
                assert(self.events@.take(i + 1).drop_last() =~= self.events@.take(i as int));
                assert(self.events@.take(i + 1).last() == self.events@[i as int]);
            }
            if entry.0 == *hash {
                return Some(&entry.1);
            }
        }
        proof {
            assert(self.events@.take(0) =~= Seq::<(Blake2, Event)>::empty());
        }
        None
    }

    /// Capture the current head and hand the fragment over to a [`Chain`]
    /// tagged with `name`, ready for backward traversal.
    pub fn summarize(self, name: &str) -> (c: Chain)
        ensures
            c.fragment == self,
            c.summary@ == name@,
            c.next_view() == match self.head_view() {
                None => None::<Seq<u8>>,
                Some(e) => Some(event_digest(e)),
            },
    {
        Chain::new(self, name)
    }
}

/// In an entry sequence whose entries are each keyed by the digest of their
/// event, every key of the denoted mapping is the digest of the event mapped
/// to it.
proof fn lemma_mapping_of_keyed_by_digest(s: Seq<(Blake2, Event)>, d: Seq<u8>)
    requires
        forall|i: int|
            0 <= i < s.len() ==> (#[trigger] s[i]).0@ == event_digest(s[i].1@),
        mapping_of(s).contains_key(d),
    ensures
        event_digest(mapping_of(s)[d]) == d,
    decreases s.len(),
{
    if s.len() > 0 && s.last().0@ != d {
        lemma_mapping_of_keyed_by_digest(s.drop_last(), d);
    }
}

/// The store is content-addressed: in a well-formed fragment, the event
/// stored under a digest is an event with exactly that digest.
pub proof fn lemma_content_addressed(frag: Fragment, d: Seq<u8>)
    requires
        frag.wf(),
        frag.mapping().contains_key(d),
    ensures
        event_digest(frag.mapping()[d]) == d,
{
    lemma_mapping_of_keyed_by_digest(frag.events@, d);
}

/// Entry sequences whose digests and events agree pairwise denote one and
/// the same mapping.
proof fn lemma_mapping_of_congruent(s1: Seq<(Blake2, Event)>, s2: Seq<(Blake2, Event)>)
    requires
        s1.len() == s2.len(),
        forall|i: int|
            0 <= i < s1.len() ==> (#[trigger] s1[i]).0@ == s2[i].0@ && s1[i].1@ == s2[i].1@,
    ensures
        mapping_of(s1) == mapping_of(s2),
    decreases s1.len(),
{
    if s1.len() > 0 {
        lemma_mapping_of_congruent(s1.drop_last(), s2.drop_last());
    }
    assert(mapping_of(s1) =~= mapping_of(s2));
}

impl Clone for Fragment {
    fn clone(&self) -> (r: Fragment)
        ensures
            r.model() == self.model(),
            self.wf() ==> r.wf(),
    {
        let head = match &self.head {
            None => None,
            Some(e) => Some(e.clone()),
        };
        let mut events: Vec<(Blake2, Event)> = Vec::new();
        let mut i: usize = 0;
        while i < self.events.len()
            invariant
                i <= self.events@.len(),
                events@.len() == i,
                forall|j: int|
                    0 <= j < i ==> (#[trigger] events@[j]).0@ == self.events@[j].0@
                        && events@[j].1@ == self.events@[j].1@,
            decreases self.events@.len() - i,
        {
            let entry = &self.events[i];
            events.push((entry.0, entry.1.clone()));
            i = i + 1;
        }
        let r = Fragment { head, events };
        proof {
            lemma_mapping_of_congruent(r.events@, self.events@);
            assert(r.model() =~= self.model());
        }
        r
    }
}

impl Default for Fragment {
    /// An empty fragment.
    fn default() -> (r: Fragment)
        ensures
            r.model() == empty_model(),
            r.wf(),
    {
        Fragment { head: None, events: Vec::new() }
    }
}

/// What one traversal step yields and where it leaves the cursor, given the
/// fragment's mapping and the current cursor.
///
/// An exhausted chain (`None`) yields the origin terminus and stays
/// exhausted.  A positioned chain whose digest is stored yields that event
/// and moves to the event's parent digest (exhausted for an origin).  A
/// positioned chain whose digest is not locally known yields the boundary
/// terminus carrying that digest and leaves the cursor in place, so repeated
/// calls deterministically repeat the same boundary terminus.
pub open spec fn spec_next(mapping: Map<Seq<u8>, EventView>, cursor: Option<Seq<u8>>) -> (
    LinkView,
    Option<Seq<u8>>,
) {
    match cursor {
        None => (LinkView::Terminus(None), None),
        Some(h) => if mapping.contains_key(h) {
            (LinkView::Event(mapping[h]), parent_digest_of(mapping[h]))
        } else {
            (LinkView::Terminus(Some(h)), Some(h))
        },
    }
}

/// A one-shot backward traversal over a fragment's history, from the tip
/// captured at creation time towards the origin.
#[derive(Debug)]
pub struct Chain {
    pub fragment: Fragment,
    pub summary: String,
    pub next: Option<Blake2>,
}

impl Chain {
    /// The cursor: the digest the traversal stands at, or `None` once
    /// exhausted.
    pub open spec fn next_view(self) -> Option<Seq<u8>> {
        match self.next {
            None => None,
            Some(h) => Some(h@),
        }
    }

    /// A chain over `fragment`, positioned at its head (exhausted at once if
    /// the fragment has none) and labelled `summary`.
    pub fn new(fragment: Fragment, summary: &str) -> (c: Chain)
        ensures
            c.fragment == fragment,
            c.summary@ == summary@,
            c.next_view() == match fragment.head_view() {
                None => None::<Seq<u8>>,
                Some(e) => Some(event_digest(e)),
            },
    {
        let next = match &fragment.head {
            None => None,
            Some(e) => Some(e.hash()),
        };
        Chain { fragment, summary: summary.to_owned(), next }
    }

    /// One traversal step, exactly [`spec_next`] on the fragment's mapping
    /// and the cursor: the stored event at the cursor (moving the cursor to
    /// its parent), the origin terminus once the chain is exhausted, or the
    /// boundary terminus naming the first digest that is not locally known.
    pub fn next_event(&mut self) -> (r: Link)
        ensures
            r@ == spec_next(old(self).fragment.mapping(), old(self).next_view()).0,
            final(self).next_view() == spec_next(
                old(self).fragment.mapping(),
                old(self).next_view(),
            ).1,
            final(self).fragment == old(self).fragment,
            final(self).summary == old(self).summary,
    {
        let hash = match &self.next {
            None => {
                return Link::Terminus(None);
            },
            Some(h) => *h,
        };
        match self.fragment.get(&hash) {
            Some(event) => {
                let event = event.clone();
                self.next = event.parent();
                Link::Event(event)
            },
            None => Link::Terminus(Some(hash)),
        }
    }
}

/// What one traversal step yields: an event of the chain, or a terminus —
/// the true origin (`None`) or the boundary of locally known history
/// (`Some` missing digest).
pub enum LinkView {
    Event(EventView),
    Terminus(Option<Seq<u8>>),
}

/// One step of a [`Chain`]: an event, or a terminus marking the end of the
/// locally known history (`None` for the true origin, `Some(d)` when the
/// ancestor `d` is not stored in the fragment).
#[derive(Debug)]
pub enum Link {
    Event(Event),
    Terminus(Option<Blake2>),
}

impl View for Link {
    type V = LinkView;

    open spec fn view(&self) -> LinkView {
        match self {
            Link::Event(e) => LinkView::Event(e@),
            Link::Terminus(t) => LinkView::Terminus(
                match t {
                    None => None,
                    Some(h) => Some(h@),
                },
            ),
        }
    }
}

impl PartialEq for Link {
    fn eq(&self, other: &Link) -> (r: bool) {
        match (self, other) {
            (Link::Event(e1), Link::Event(e2)) => *e1 == *e2,
            (Link::Terminus(None), Link::Terminus(None)) => true,
            (Link::Terminus(Some(h1)), Link::Terminus(Some(h2))) => *h1 == *h2,
            _ => false,
        }
    }
}

impl vstd::std_specs::cmp::PartialEqSpecImpl for Link {
    open spec fn obeys_eq_spec() -> bool {
        true
    }

    open spec fn eq_spec(&self, other: &Link) -> bool {
        self@ == other@
    }
}

/// After appending two facts in turn, the head is the second fact's event
/// chained onto the first fact's event, and both events' digests are keys of
/// the mapping — whatever the fragment held before.
pub proof fn lemma_append_append(fm: FragmentModel, f1: Seq<u8>, f2: Seq<u8>)
    ensures
        ({
            let e1 = mk_event_view(f1, fm.head);
            let e2 = mk_event_view(f2, Some(e1));
            let fm2 = spec_append(spec_append(fm, f1), f2);
            &&& fm2.head == Some(e2)
            &&& fm2.mapping.contains_key(event_digest(e1))
            &&& fm2.mapping.contains_key(event_digest(e2))
        }),
{
}

/// Facts appended in turn to an empty fragment come back newest first: the
/// second fact's event, then the first fact's, then the origin terminus,
/// which every further step repeats.  The two events' digests are required
/// to differ, as they do unless the underlying hash collides on the two
/// preimages.
pub proof fn lemma_traversal_order(f1: Seq<u8>, f2: Seq<u8>)
    requires
        ({
            let e1 = mk_event_view(f1, None);
            let e2 = mk_event_view(f2, Some(e1));
            event_digest(e1) != event_digest(e2)
        }),
    ensures
        ({
            let e1 = mk_event_view(f1, None);
            let e2 = mk_event_view(f2, Some(e1));
            let m = spec_append(spec_append(empty_model(), f1), f2).mapping;
            let s1 = spec_next(m, Some(event_digest(e2)));
            let s2 = spec_next(m, s1.1);
            let s3 = spec_next(m, s2.1);
            let s4 = spec_next(m, s3.1);
            &&& s1.0 == LinkView::Event(e2)
            &&& s2.0 == LinkView::Event(e1)
            &&& s3.0 == LinkView::Terminus(None::<Seq<u8>>)
            &&& s4.0 == LinkView::Terminus(None::<Seq<u8>>)
        }),
{
}

/// A chained event whose parent digest is not locally known marks the
/// boundary of this observer's knowledge: the traversal yields the event,
/// then the boundary terminus carrying the missing digest, and every further
/// step repeats that same terminus rather than failing or stopping silently.
pub proof fn lemma_boundary_detection(m: Map<Seq<u8>, EventView>, e: EventView, d: Seq<u8>)
    requires
        m.contains_key(event_digest(e)),
        m[event_digest(e)] == e,
        parent_digest_of(e) == Some(d),
        !m.contains_key(d),
    ensures
        ({
            let s1 = spec_next(m, Some(event_digest(e)));
            let s2 = spec_next(m, s1.1);
            let s3 = spec_next(m, s2.1);
            &&& s1.0 == LinkView::Event(e)
            &&& s2.0 == LinkView::Terminus(Some(d))
            &&& s3.0 == LinkView::Terminus(Some(d))
        }),
{
}

/// A chain with no position — in particular one summarized from a fragment
/// with no head — yields the origin terminus at once and stays exhausted.
pub proof fn lemma_empty_terminus(m: Map<Seq<u8>, EventView>)
    ensures
        spec_next(m, None).0 == LinkView::Terminus(None::<Seq<u8>>),
        spec_next(m, None).1 == None::<Seq<u8>>,
{
}

} // verus!
