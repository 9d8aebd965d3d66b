//! The identifier map: old identifiers paired with their replacements.

use vstd::prelude::*;
use crate::text::chars_of;

verus! {

/// Old identifiers and their replacements, kept in insertion order, each old
/// identifier at most once.
pub struct IdMap {
    entries: Vec<(String, String)>,
}

/// An old identifier and its replacement, as characters.
pub type PairV = (Seq<char>, Seq<char>);

impl IdMap {
    /// The entries, in insertion order.
    pub closed spec fn pairs(&self) -> Seq<PairV> {
        self.entries@.map_values(|e: (String, String)| (e.0@, e.1@))
    }

    /// No old identifier appears twice.
    pub open spec fn wf(&self) -> bool {
        forall|i: int, j: int|
            0 <= i < j < self.pairs().len() ==> self.pairs()[i].0 != self.pairs()[j].0
    }

    /// The number of entries.
    pub open spec fn len_spec(&self) -> nat {
        self.pairs().len()
    }

    /// `k` is an old identifier of the map.
    pub open spec fn has_key(&self, k: Seq<char>) -> bool {
        exists|j: int| 0 <= j < self.pairs().len() && self.pairs()[j].0 == k
    }

    /// The replacement of `k`, when `k` is an old identifier of the map.
    pub open spec fn lookup(&self, k: Seq<char>) -> Option<Seq<char>> {
        if self.has_key(k) {
            let j = choose|j: int| 0 <= j < self.pairs().len() && self.pairs()[j].0 == k;
            Some(self.pairs()[j].1)
        } else {
            None
        }
    }

    /// An empty map.
    pub fn new() -> (r: IdMap)
        ensures
            r.wf(),
            r.pairs() == Seq::<PairV>::empty(),
    {
        let r = IdMap { entries: Vec::new() };
        assert(r.pairs() =~= Seq::<PairV>::empty());
        r
    }

    /// The number of entries.
    pub fn len(&self) -> (r: usize)
        ensures
            r == self.pairs().len(),
    {
        self.entries.len()
    }

    /// The position of old identifier `k`, if it is one.
    pub fn find(&self, k: &String) -> (r: Option<usize>)
        requires
            self.wf(),
        ensures
            r.is_none() == !self.has_key(k@),
            r.is_some() ==> r.unwrap() < self.pairs().len() && self.pairs()[r.unwrap() as int].0
                == k@,
            r.is_some() ==> self.lookup(k@) == Some(self.pairs()[r.unwrap() as int].1),
    {
        let mut j: usize = 0;
        while j < self.entries.len()
            invariant
                self.wf(),
                j <= self.entries@.len(),
                forall|t: int| 0 <= t < j ==> self.pairs()[t].0 != k@,
            decreases self.entries.len() - j,
        {
            if self.entries[j].0 == *k {
                assert(self.pairs()[j as int].0 == k@);
                return Some(j);
            }
            j = j + 1;
        }
        None
    }

    /// The old identifier at position `j`.
    pub fn key_at(&self, j: usize) -> (r: &String)
        requires
            j < self.pairs().len(),
        ensures
            r@ == self.pairs()[j as int].0,
    {
        &self.entries[j].0
    }

    /// The replacement at position `j`.
    pub fn value_at(&self, j: usize) -> (r: &String)
        requires
            j < self.pairs().len(),
        ensures
            r@ == self.pairs()[j as int].1,
    {
        &self.entries[j].1
    }

    /// Maps `k` to `v`: the entry of `k` is replaced where there is one, and
    /// appended otherwise.
    pub fn insert(&mut self, k: String, v: String)
        requires
            old(self).wf(),
        ensures
            final(self).wf(),
            old(self).has_key(k@) ==> final(self).pairs() == old(self).pairs().update(
                choose|j: int|
                    0 <= j < old(self).pairs().len() && old(self).pairs()[j].0 == k@,
                (k@, v@),
            ),
            !old(self).has_key(k@) ==> final(self).pairs() == old(self).pairs().push((k@, v@)),
            final(self).lookup(k@) == Some(v@),
    {
        match self.find(&k) {
            Some(j) => {
                let ghost kv = k@;
                let ghost vv = v@;
                let ghost before = self.pairs();
                self.entries.set(j, (k, v));
                proof {
                    let jj = choose|t: int| 0 <= t < before.len() && before[t].0 == kv;
                    assert(jj == j);
                    assert(self.pairs() =~= before.update(j as int, (kv, vv)));
                    assert(self.pairs()[j as int].0 == kv);
                }
            },
            None => {
                let ghost kv = k@;
                let ghost vv = v@;
                let ghost before = self.pairs();
                self.entries.push((k, v));
                proof {
                    assert(self.pairs() =~= before.push((kv, vv)));
                    assert(self.pairs()[before.len() as int].0 == kv);
                }
            },
        }
    }

    /// The old identifier and the replacement at position `j`, as characters.
    pub fn chars_at(&self, j: usize) -> (r: (Vec<char>, Vec<char>))
        requires
            j < self.pairs().len(),
        ensures
            r.0@ == self.pairs()[j as int].0,
            r.1@ == self.pairs()[j as int].1,
    {
        (chars_of(self.entries[j].0.as_str()), chars_of(self.entries[j].1.as_str()))
    }
}

} // verus!
