//! The checkpoint value: a label and a payload pinned to a chain position.

use vstd::prelude::*;

use crate::hash::Blake2;

verus! {

/// A published checkpoint: an arbitrary payload, under a label, together
/// with the digest of the latest event of the history it summarizes.
///
/// Only the value shape is defined here; nothing in this library yet
/// connects a checkpoint to a fragment or a chain, and a claimed tip is
/// checked against one simply by comparing digests.
#[derive(Debug)]
pub struct Summary {
    pub name: String,
    pub summary: Vec<u8>,
    pub event: Blake2,
}

impl Clone for Summary {
    fn clone(&self) -> (r: Summary)
        ensures
            r.name@ == self.name@,
            r.summary@ == self.summary@,
            r.event == self.event,
    {
        Summary {
            name: self.name.clone(),
            summary: vstd::slice::slice_to_vec(self.summary.as_slice()),
            event: self.event,
        }
    }
}

} // verus!
