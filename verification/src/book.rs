//! The opening book: a read-only mapping from position hashes to recorded
//! continuations, consulted at the root of a search.

use vstd::prelude::*;

use std::collections::HashMap;

use crate::loc::Loc;

verus! {

broadcast use vstd::std_specs::hash::group_hash_axioms;

/// A mapping from position hash to the recorded continuations of that
/// position, each a move with the name of its opening.
pub struct OpeningBook {
    /// The recorded continuations by position hash.
    pub entries: HashMap<u64, Vec<((Loc, Loc), String)>>,
}

/// Every recorded move lies on the board.
pub open spec fn book_ok(b: OpeningBook) -> bool {
    forall|h: u64|
        b.entries@.contains_key(h) ==> forall|i: int|
            0 <= i < (#[trigger] b.entries@[h])@.len() ==> ((#[trigger] b.entries@[h]@[i]).0.0.valid()
                && b.entries@[h]@[i].0.1.valid())
}

impl OpeningBook {
    /// An empty book.
    pub fn new() -> (b: OpeningBook)
        ensures
            b.entries@ == Map::<u64, Vec<((Loc, Loc), String)>>::empty(),
            book_ok(b),
    {
        OpeningBook { entries: HashMap::new() }
    }

    /// Record one continuation for a position.
    pub fn insert_entry(&mut self, hash: u64, from: Loc, to: Loc, name: String)
        requires
            book_ok(*old(self)),
            from.valid(),
            to.valid(),
        ensures
            book_ok(*final(self)),
            final(self).entries@.contains_key(hash),
            final(self).entries@[hash]@ == (if old(self).entries@.contains_key(hash) {
                old(self).entries@[hash]@
            } else {
                Seq::<((Loc, Loc), String)>::empty()
            }).push(((from, to), name)),
            forall|h: u64|
                h != hash ==> (final(self).entries@.contains_key(h) == old(
                    self,
                ).entries@.contains_key(h) && (final(self).entries@.contains_key(h)
                    ==> final(self).entries@[h] == old(self).entries@[h])),
    {
        let mut list = match self.entries.remove(&hash) {
            Some(v) => v,
            None => Vec::new(),
        };
        list.push(((from, to), name));
        self.entries.insert(hash, list);
    }

    /// The recorded continuations for a position, if any.
    pub fn lookup(&self, hash: u64) -> (r: Option<&Vec<((Loc, Loc), String)>>)
        ensures
            r matches Some(v) ==> self.entries@.contains_key(hash) && *v == self.entries@[hash],
            r is None ==> !self.entries@.contains_key(hash),
    {
        self.entries.get(&hash)
    }
}

} // verus!
