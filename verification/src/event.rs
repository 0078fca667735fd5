//! Hash-linked records: the events of the log.

use vstd::prelude::*;

use crate::hash::{blake2_of, hash_key, Blake2};

verus! {

/// The mathematical content of an [`Event`]: its payload and, for a chained
/// record, the digest of its predecessor.
pub enum EventView {
    Root { fact: Seq<u8> },
    Node { fact: Seq<u8>, parent_hash: Seq<u8> },
}

/// The bytes an event's digest is computed over: the payload alone for a
/// root, the payload followed by the predecessor's digest bytes for a node.
///
/// This concatenation is the chain's integrity mechanism: a change to any
/// ancestor reaches every descendant's preimage through the linked digests.
pub open spec fn event_preimage(e: EventView) -> Seq<u8> {
    match e {
        EventView::Root { fact } => fact,
        EventView::Node { fact, parent_hash } => fact + parent_hash,
    }
}

/// The digest of an event: the keyed hash of its preimage.
pub open spec fn event_digest(e: EventView) -> Seq<u8> {
    blake2_of(hash_key(), event_preimage(e))
}

/// The event that wraps `fact`: a root when there is no parent, otherwise a
/// node carrying the parent's digest.
pub open spec fn mk_event_view(fact: Seq<u8>, parent: Option<EventView>) -> EventView {
    match parent {
        None => EventView::Root { fact },
        Some(p) => EventView::Node { fact, parent_hash: event_digest(p) },
    }
}

/// The digest of an event's predecessor, if it has one.
pub open spec fn parent_digest_of(e: EventView) -> Option<Seq<u8>> {
    match e {
        EventView::Root { .. } => None,
        EventView::Node { parent_hash, .. } => Some(parent_hash),
    }
}

/// A record of the log: either a chain origin holding only its payload
/// ("fact"), or a chained record holding its payload and the digest of its
/// predecessor.
#[derive(Debug)]
pub enum Event {
    Root { fact: Vec<u8> },
    Node { fact: Vec<u8>, parent_hash: Blake2 },
}

impl View for Event {
    type V = EventView;

    open spec fn view(&self) -> EventView {
        match self {
            Event::Root { fact } => EventView::Root { fact: fact@ },
            Event::Node { fact, parent_hash } => EventView::Node {
                fact: fact@,
                parent_hash: parent_hash@,
            },
        }
    }
}

impl Clone for Event {
    fn clone(&self) -> (r: Event)
        ensures
            r@ == self@,
    {
        match self {
            Event::Root { fact } => Event::Root { fact: vstd::slice::slice_to_vec(fact.as_slice()) },
            Event::Node { fact, parent_hash } => Event::Node {
                fact: vstd::slice::slice_to_vec(fact.as_slice()),
                parent_hash: *parent_hash,
            },
        }
    }
}

impl PartialEq for Event {
    fn eq(&self, other: &Event) -> (r: bool) {
        match (self, other) {
            (Event::Root { fact: f1 }, Event::Root { fact: f2 }) => bytes_eq(
                f1.as_slice(),
                f2.as_slice(),
            ),
            (
                Event::Node { fact: f1, parent_hash: p1 },
                Event::Node { fact: f2, parent_hash: p2 },
            ) => bytes_eq(f1.as_slice(), f2.as_slice()) && *p1 == *p2,
            _ => false,
        }
    }
}

impl vstd::std_specs::cmp::PartialEqSpecImpl for Event {
    open spec fn obeys_eq_spec() -> bool {
        true
    }

    open spec fn eq_spec(&self, other: &Event) -> bool {
        self@ == other@
    }
}

/// Byte-wise equality of two slices.
pub fn bytes_eq(a: &[u8], b: &[u8]) -> (r: bool)
    ensures
        r == (a@ == b@),
{
    if a.len() != b.len() {
        proof {
            assert(a@ != b@);
        }
        return false;
    }
    let mut i: usize = 0;
    while i < a.len()
        invariant
            a@.len() == b@.len(),
            i <= a@.len(),
            forall|j: int| 0 <= j < i ==> a@[j] == b@[j],
        decreases a@.len() - i,
    {
        if a[i] != b[i] {
            return false;
        }
        i = i + 1;
    }
    proof {
        assert(a@ =~= b@);
    }
    true
}

impl Event {
    /// Build the event for `fact`: pass `Some(event)` to chain onto that
    /// event (only its digest is retained), or `None` for a chain origin.
    pub fn new(fact: &[u8], parent: Option<Event>) -> (r: Event)
        ensures
            r@ == mk_event_view(
                fact@,
                match parent {
                    None => None,
                    Some(p) => Some(p@),
                },
            ),
    {
        match parent {
            None => Event::Root { fact: vstd::slice::slice_to_vec(fact) },
            Some(event) => Event::Node {
                fact: vstd::slice::slice_to_vec(fact),
                parent_hash: event.hash(),
            },
        }
    }

    /// The digest of this event: the keyed hash of the payload for a root,
    /// of the payload followed by the parent digest's bytes for a node.
    pub fn hash(&self) -> (r: Blake2)
        ensures
            r@ == event_digest(self@),
    {
        match self {
            Event::Root { fact } => Blake2::new(fact.as_slice()),
            Event::Node { fact, parent_hash } => {
                let mut tmp: Vec<u8> = vstd::slice::slice_to_vec(fact.as_slice());
                let mut i: usize = 0;
                while i < 64
                    invariant
                        i <= 64,
                        parent_hash@.len() == 64,
                        tmp@ == fact@ + parent_hash@.take(i as int),
                    decreases 64 - i,
                {
                    tmp.push(parent_hash.bytes[i]);
                    proof {
                        assert(fact@ + parent_hash@.take(i as int) + seq![parent_hash@[i as int]]
                            =~= fact@ + parent_hash@.take(i as int + 1));
                    }
                    i = i + 1;
                }
                proof {
                    assert(parent_hash@.take(64) =~= parent_hash@);
                }
                Blake2::new(tmp.as_slice())
            },
        }
    }

    /// The digest of the parent event: `Some` for a chained record, `None`
    /// for a chain origin.
    pub fn parent(&self) -> (r: Option<Blake2>)
        ensures
            match r {
                None => parent_digest_of(self@) is None,
                Some(h) => parent_digest_of(self@) == Some(h@),
            },
    {
        match self {
            Event::Root { .. } => None,
            Event::Node { parent_hash, .. } => Some(*parent_hash),
        }
    }

    /// True exactly when the event is a chain origin.
    pub fn is_root(&self) -> (r: bool)
        ensures
            r == (self@ is Root),
    {
        match self {
            Event::Root { .. } => true,
            Event::Node { .. } => false,
        }
    }
}

/// The digest of an event is a function of its content alone: records with
/// equal payload and equal parent digest always hash alike, however often
/// and wherever the digest is recomputed.
pub proof fn lemma_digest_deterministic(e1: EventView, e2: EventView)
    requires
        e1 == e2,
    ensures
        event_digest(e1) == event_digest(e2),
{
}

/// Distinct payloads under one and the same parent give events with distinct
/// hash preimages; that the digests themselves then differ rests on the
/// collision resistance of the underlying hash, which this library assumes
/// of the primitive rather than proves.
pub proof fn lemma_payload_changes_preimage(f1: Seq<u8>, f2: Seq<u8>, parent: Option<EventView>)
    requires
        f1 != f2,
    ensures
        event_preimage(mk_event_view(f1, parent)) != event_preimage(mk_event_view(f2, parent)),
{
    match parent {
        None => {
        },
        Some(p) => {
            let d = event_digest(p);
            if f1.len() == f2.len() {
                if f1 + d == f2 + d {
                    assert forall|i: int| 0 <= i < f1.len() implies f1[i] == f2[i] by {
                        assert((f1 + d)[i] == f1[i]);
                        assert((f2 + d)[i] == f2[i]);
                    }
                    assert(f1 =~= f2);
                }
            } else {
                assert((f1 + d).len() != (f2 + d).len());
            }
        },
    }
}

/// Distinct parent digests of equal length give chained events with distinct
/// hash preimages, whatever the shared payload; so a change that reaches an
/// ancestor's digest reaches the preimage of every event chained onto it.
/// That the descendants' digests then differ rests on the collision
/// resistance of the underlying hash.
pub proof fn lemma_parent_digest_changes_preimage(f: Seq<u8>, d1: Seq<u8>, d2: Seq<u8>)
    requires
        d1 != d2,
    ensures
        event_preimage(EventView::Node { fact: f, parent_hash: d1 }) != event_preimage(
            EventView::Node { fact: f, parent_hash: d2 },
        ),
{
    if f + d1 == f + d2 {
        assert((f + d1).len() == f.len() + d1.len());
        assert((f + d2).len() == f.len() + d2.len());
        assert(d1.len() == d2.len());
        assert forall|i: int| 0 <= i < d1.len() implies d1[i] == d2[i] by {
            assert((f + d1)[f.len() + i] == d1[i]);
            assert((f + d2)[f.len() + i] == d2[i]);
        }
        assert(d1 =~= d2);
    }
}

/// The event at position `i` of the chain that records `facts` in order:
/// position 0 is the chain origin, and each later record chains onto its
/// predecessor.
pub open spec fn chain_event(facts: Seq<Seq<u8>>, i: int) -> EventView
    decreases i,
{
    if i <= 0 {
        EventView::Root { fact: facts[0] }
    } else {
        EventView::Node { fact: facts[i], parent_hash: event_digest(chain_event(facts, i - 1)) }
    }
}

/// The event at a position depends only on the records up to that position.
proof fn lemma_chain_event_congruent(facts1: Seq<Seq<u8>>, facts2: Seq<Seq<u8>>, i: int)
    requires
        0 <= i,
        forall|k: int| 0 <= k <= i ==> #[trigger] facts1[k] == facts2[k],
    ensures
        chain_event(facts1, i) == chain_event(facts2, i),
    decreases i,
{
    if i > 0 {
        lemma_chain_event_congruent(facts1, facts2, i - 1);
    }
}

/// Tamper evidence: altering the payload of any one record of a chain
/// alters the hash preimage — and so, short of a hash collision, the digest
/// — of that record and of every record chained after it.  Precisely: each
/// descendant's digest differs between the two chains, unless at some link
/// from the altered record up to that descendant the hash maps the two
/// differing preimages to one digest.
pub proof fn lemma_tamper_evidence(facts1: Seq<Seq<u8>>, facts2: Seq<Seq<u8>>, j: int, i: int)
    requires
        facts1.len() == facts2.len(),
        0 <= j <= i < facts1.len(),
        facts1[j] != facts2[j],
        forall|k: int| 0 <= k < facts1.len() && k != j ==> #[trigger] facts1[k] == facts2[k],
    ensures
        event_digest(chain_event(facts1, i)) != event_digest(chain_event(facts2, i)) || (exists|
            k: int,
        |
            j <= k <= i && event_preimage(chain_event(facts1, k)) != event_preimage(
                chain_event(facts2, k),
            ) && event_digest(chain_event(facts1, k)) == event_digest(chain_event(facts2, k))),
    decreases i - j,
{
    let e1 = chain_event(facts1, i);
    let e2 = chain_event(facts2, i);
    if i == j {
        if i == 0 {
            assert(event_preimage(e1) != event_preimage(e2));
        } else {
            lemma_chain_event_congruent(facts1, facts2, i - 1);
            lemma_payload_changes_preimage(
                facts1[i],
                facts2[i],
                Some(chain_event(facts1, i - 1)),
            );
            assert(e1 == mk_event_view(facts1[i], Some(chain_event(facts1, i - 1))));
            assert(e2 == mk_event_view(facts2[i], Some(chain_event(facts1, i - 1))));
        }
        if event_digest(e1) == event_digest(e2) {
            assert(j <= i <= i && event_preimage(chain_event(facts1, i)) != event_preimage(
                chain_event(facts2, i),
            ) && event_digest(chain_event(facts1, i)) == event_digest(chain_event(facts2, i)));
        }
    } else {
        lemma_tamper_evidence(facts1, facts2, j, i - 1);
        let d1 = event_digest(chain_event(facts1, i - 1));
        let d2 = event_digest(chain_event(facts2, i - 1));
        if d1 != d2 {
            lemma_parent_digest_changes_preimage(facts1[i], d1, d2);
            assert(facts1[i] == facts2[i]);
            assert(event_preimage(e1) != event_preimage(e2));
            if event_digest(e1) == event_digest(e2) {
                assert(j <= i <= i && event_preimage(chain_event(facts1, i)) != event_preimage(
                    chain_event(facts2, i),
                ) && event_digest(chain_event(facts1, i)) == event_digest(
                    chain_event(facts2, i),
                ));
            }
        } else {
            let k = choose|k: int|
                j <= k <= i - 1 && event_preimage(chain_event(facts1, k)) != event_preimage(
                    chain_event(facts2, k),
                ) && event_digest(chain_event(facts1, k)) == event_digest(chain_event(facts2, k));
            assert(j <= k <= i && event_preimage(chain_event(facts1, k)) != event_preimage(
                chain_event(facts2, k),
            ) && event_digest(chain_event(facts1, k)) == event_digest(chain_event(facts2, k)));
        }
    }
}

} // verus!
