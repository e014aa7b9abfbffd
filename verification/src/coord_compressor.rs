//! Coordinate compression: numbers the distinct values it is shown, in the order in
//! which it first sees them.

use vstd::prelude::*;
use std::collections::HashMap;

verus! {

/// Gives each distinct coordinate a dense index, and finds the coordinate of an
/// index again.
pub struct CoordCompressor {
    fwd: HashMap<u64, usize>,
    back: Vec<u64>,
}

impl View for CoordCompressor {
    type V = Seq<u64>;

    /// The coordinates seen so far, by their indices.
    closed spec fn view(&self) -> Seq<u64> {
        self.back@
    }
}

impl CoordCompressor {
    /// No coordinate has two indices, and the map from coordinates to indices holds
    /// exactly the coordinates seen, each with its index.
    #[verifier::type_invariant]
    pub closed spec fn inv(self) -> bool {
        &&& self.fwd@.dom() =~= self.back@.to_set()
        &&& forall|i: int|
            0 <= i < self.back@.len() ==> self.fwd@.contains_key(#[trigger] self.back@[i])
                && self.fwd@[self.back@[i]] == i
    }

    /// A compressor that has seen nothing.
    pub fn new() -> (compressor: Self)
        ensures
            compressor@ == Seq::<u64>::empty(),
    {
        let fwd: HashMap<u64, usize> = HashMap::new();
        let back: Vec<u64> = Vec::new();
        assert(fwd@.dom() =~= back@.to_set());
        Self { fwd, back }
    }

    /// A compressor that has seen nothing, with room for `n` coordinates.
    pub fn with_capacity(n: usize) -> (compressor: Self)
        ensures
            compressor@ == Seq::<u64>::empty(),
    {
        let fwd: HashMap<u64, usize> = HashMap::with_capacity(n);
        let back: Vec<u64> = Vec::with_capacity(n);
        assert(fwd@.dom() =~= back@.to_set());
        Self { fwd, back }
    }

    /// The number of distinct coordinates seen.
    pub fn len(&self) -> (len: usize)
        ensures
            len == self@.len(),
    {
        self.back.len()
    }

    /// The index of the coordinate `v`. A coordinate that was seen before keeps its
    /// index and nothing changes; a new one gets the next index.
    pub fn compress(&mut self, v: &u64) -> (idx: usize)
        ensures
            old(self)@.contains(*v) ==> final(self)@ == old(self)@,
            !old(self)@.contains(*v) ==> final(self)@ == old(self)@.push(*v) && idx == old(
                self,
            )@.len(),
            idx < final(self)@.len(),
            final(self)@[idx as int] == *v,
    {
        proof {
            use_type_invariant(&*self);
            broadcast use vstd::std_specs::hash::group_hash_axioms;

        }
        let found = match self.fwd.get(v) {
            Some(idx) => Some(*idx),
            None => None,
        };
        match found {
            Some(idx) => {
                assert(self.fwd@.dom().contains(*v));
                assert(self.back@.to_set().contains(*v));
                let ghost at = choose|i: int| 0 <= i < self.back@.len() && self.back@[i] == *v;
                assert(self.fwd@[self.back@[at]] == at);
                idx
            },
            None => {
                assert(!self.back@.to_set().contains(*v));
                let mut taken = Self::new();
                core::mem::swap(self, &mut taken);
                let CoordCompressor { mut fwd, mut back } = taken;
                let ghost seen = back@;
                let idx = back.len();
                back.push(*v);
                fwd.insert(*v, idx);
                proof {
                    assert(fwd@.dom() =~= back@.to_set()) by {
                        assert forall|k: u64| fwd@.dom().contains(k) <==> back@.to_set().contains(
                            k,
                        ) by {
                            if k == *v {
                                assert(back@[idx as int] == k);
                            } else {
                                if seen.to_set().contains(k) {
                                    let i = choose|i: int| 0 <= i < seen.len() && seen[i] == k;
                                    assert(back@[i] == k);
                                }
                                if back@.to_set().contains(k) {
                                    let i = choose|i: int| 0 <= i < back@.len() && back@[i] == k;
                                    assert(seen[i] == k);
                                }
                            }
                        }
                    }
                    assert forall|i: int| 0 <= i < back@.len() implies fwd@.contains_key(
                        #[trigger] back@[i],
                    ) && fwd@[back@[i]] == i by {
                        if i < seen.len() {
                            assert(seen[i] == back@[i]);
                            assert(seen.to_set().contains(seen[i]));
                        }
                    }
                }
                *self = Self { fwd, back };
                idx
            },
        }
    }

    /// The coordinate with the index `idx`.
    pub fn decompress(&self, idx: usize) -> (v: &u64)
        requires
            idx < self@.len(),
        ensures
            *v == self@[idx as int],
    {
        &self.back[idx]
    }
}

} // verus!
