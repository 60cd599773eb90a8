//! Sets of handles that hold a lock.

use vstd::prelude::*;

verus! {

/// A set of handles.
#[derive(Debug, Clone, PartialEq, Eq)]
pub struct Holders {
    ids: Vec<u64>,
}

impl View for Holders {
    type V = Set<u64>;

    closed spec fn view(&self) -> Set<u64> {
        self.ids@.to_set()
    }
}

impl Default for Holders {
    fn default() -> (holders: Holders)
        ensures
            holders@ == Set::<u64>::empty(),
    {
        Holders::new()
    }
}

impl Holders {
    /// No handles.
    pub fn new() -> (holders: Holders)
        ensures
            holders@ == Set::<u64>::empty(),
    {
        let holders = Holders { ids: Vec::new() };
        assert(holders@ =~= Set::<u64>::empty());
        holders
    }

    /// The same handles.
    pub fn copy(&self) -> (copy: Holders)
        ensures
            copy@ == self@,
    {
        let mut ids: Vec<u64> = Vec::new();
        let mut i: usize = 0;
        while i < self.ids.len()
            invariant
                i <= self.ids@.len(),
                ids@ == self.ids@.take(i as int),
            decreases self.ids@.len() - i,
        {
            ids.push(self.ids[i]);
            assert(ids@ =~= self.ids@.take(i + 1));
            i = i + 1;
        }
        assert(self.ids@.take(i as int) =~= self.ids@);
        Holders { ids }
    }

    /// Whether a handle is there.
    pub fn contains(&self, id: u64) -> (there: bool)
        ensures
            there == self@.contains(id),
    {
        let mut i: usize = 0;
        while i < self.ids.len()
            invariant
                i <= self.ids@.len(),
                forall|k: int| 0 <= k < i ==> self.ids@[k] != id,
            decreases self.ids@.len() - i,
        {
            if self.ids[i] == id {
                assert(self.ids@.contains(id));
                return true;
            }
            i = i + 1;
        }
        assert(!self.ids@.contains(id));
        false
    }

    /// Whether a handle other than this one is there.
    pub fn has_other(&self, id: u64) -> (other: bool)
        ensures
            other == exists|holder: u64| #[trigger] self@.contains(holder) && holder != id,
    {
        let mut i: usize = 0;
        while i < self.ids.len()
            invariant
                i <= self.ids@.len(),
                forall|k: int| 0 <= k < i ==> self.ids@[k] == id,
            decreases self.ids@.len() - i,
        {
            if self.ids[i] != id {
                assert(self.ids@.contains(self.ids@[i as int]));
                assert(self@.contains(self.ids@[i as int]));
                return true;
            }
            i = i + 1;
        }
        assert forall|holder: u64| #[trigger] self@.contains(holder) implies holder == id by {
            assert(self.ids@.contains(holder));
        }
        false
    }

    /// Whether no handle is there.
    pub fn is_empty(&self) -> (empty: bool)
        ensures
            empty == (self@ == Set::<u64>::empty()),
    {
        if self.ids.len() == 0 {
            assert(self@ =~= Set::<u64>::empty());
            true
        } else {
            assert(self.ids@.contains(self.ids@[0]));
            assert(self@.contains(self.ids@[0]));
            false
        }
    }

    /// Adds a handle.
    pub fn insert(&mut self, id: u64)
        ensures
            final(self)@ == old(self)@.insert(id),
    {
        if self.contains(id) {
            assert(self@ =~= old(self)@.insert(id));
            return;
        }
        let ghost before = self.ids@;
        self.ids.push(id);
        proof {
            assert forall|holder: u64| #[trigger] self@.contains(holder) <==> old(self)@.insert(
                id,
            ).contains(holder) by {
                if before.contains(holder) {
                    let k = choose|k: int| 0 <= k < before.len() && before[k] == holder;
                    assert(self.ids@[k] == holder);
                }
                if holder == id {
                    assert(self.ids@[before.len() as int] == holder);
                }
                if self.ids@.contains(holder) {
                    let k = choose|k: int| 0 <= k < self.ids@.len() && self.ids@[k] == holder;
                    if k < before.len() {
                        assert(before[k] == holder);
                    }
                }
            }
            assert(self@ =~= old(self)@.insert(id));
        }
    }

    /// Removes a handle.
    pub fn remove(&mut self, id: u64)
        ensures
            final(self)@ == old(self)@.remove(id),
    {
        let mut kept: Vec<u64> = Vec::new();
        let mut i: usize = 0;
        while i < self.ids.len()
            invariant
                *self == *old(self),
                i <= self.ids@.len(),
                forall|holder: u64| #[trigger]
                    kept@.contains(holder) <==> holder != id && self.ids@.take(i as int).contains(
                        holder,
                    ),
            decreases self.ids@.len() - i,
        {
            let ghost before = kept@;
            let holder: u64 = self.ids[i];
            if holder != id {
                kept.push(holder);
            }
            proof {
                let shorter = self.ids@.take(i as int);
                let longer = self.ids@.take(i + 1);
                assert(longer =~= shorter.push(holder));
                assert forall|other: u64| #[trigger] kept@.contains(other) <==> other != id
                    && longer.contains(other) by {
                    if kept@.contains(other) {
                        let k = choose|k: int| 0 <= k < kept@.len() && kept@[k] == other;
                        if k < before.len() {
                            assert(before[k] == other);
                            assert(before.contains(other));
                            let m = choose|m: int| 0 <= m < shorter.len() && shorter[m] == other;
                            assert(longer[m] == other);
                        } else {
                            assert(longer[i as int] == other);
                        }
                    }
                    if other != id && longer.contains(other) {
                        let k = choose|k: int| 0 <= k < longer.len() && longer[k] == other;
                        if k < shorter.len() {
                            assert(shorter[k] == other);
                            assert(before.contains(other));
                            let m = choose|m: int| 0 <= m < before.len() && before[m] == other;
                            assert(kept@[m] == other);
                        } else {
                            assert(kept@[before.len() as int] == other);
                        }
                    }
                }
            }
            i = i + 1;
        }
        assert(self.ids@.take(i as int) =~= self.ids@);
        self.ids = kept;
        assert(self@ =~= old(self)@.remove(id));
    }
}

} // verus!
