//! Memoization of store-id to address resolutions.
//!
//! The cache keeps at most one entry per store id. An entry is created on the
//! first successful resolution, overwritten on re-resolution, and marked
//! invalid (but kept) when a connection built from its address proves broken,
//! which forces the next lookup to miss and the caller to re-resolve.

use vstd::prelude::*;

verus! {

/// One memoized resolution: the address learned for a store and whether it
/// is still considered usable.
struct CacheEntry {
    store_id: u64,
    addr: String,
    valid: bool,
}

/// Memoizes store-id to address mappings learned from the resolver.
pub struct AddressCache {
    entries: Vec<CacheEntry>,
}

impl AddressCache {
    /// There is at most one entry per store id.
    pub closed spec fn wf(self) -> bool {
        forall|i: int, j: int|
            0 <= i < j < self.entries@.len() ==> self.entries@[i].store_id
                != self.entries@[j].store_id
    }

    /// Some entry, valid or not, exists for this store.
    pub closed spec fn contains(self, store_id: u64) -> bool {
        exists|i: int|
            0 <= i < self.entries@.len() && (#[trigger] self.entries@[i]).store_id == store_id
    }

    /// The index of the entry for this store, meaningful when `contains` holds.
    closed spec fn idx(self, store_id: u64) -> int {
        choose|i: int|
            0 <= i < self.entries@.len() && (#[trigger] self.entries@[i]).store_id == store_id
    }

    /// The address recorded for this store, meaningful when `contains` holds.
    pub closed spec fn addr_of(self, store_id: u64) -> Seq<char> {
        self.entries@[self.idx(store_id)].addr@
    }

    /// The entry for this store, if any, has not been invalidated.
    pub closed spec fn entry_valid(self, store_id: u64) -> bool {
        self.entries@[self.idx(store_id)].valid
    }

    /// There is an entry for this store and it has not been invalidated.
    pub open spec fn is_valid(self, store_id: u64) -> bool {
        self.contains(store_id) && self.entry_valid(store_id)
    }

    /// A cache with no entries at all.
    pub fn new() -> (c: AddressCache)
        ensures
            c.wf(),
            forall|s: u64| !c.contains(s),
    {
        AddressCache { entries: Vec::new() }
    }

    /// Index of the entry for `store_id`, if one exists.
    fn find(&self, store_id: u64) -> (r: Option<usize>)
        requires
            self.wf(),
        ensures
            match r {
                Some(i) => self.contains(store_id) && i == self.idx(store_id) && i
                    < self.entries@.len(),
                None => !self.contains(store_id),
            },
    {
        let n = self.entries.len();
        let mut i: usize = 0;
        while i < n
            invariant
                n == self.entries@.len(),
                i <= n,
                self.wf(),
                forall|k: int| 0 <= k < i ==> (#[trigger] self.entries@[k]).store_id != store_id,
            decreases n - i,
        {
            if self.entries[i].store_id == store_id {
                proof {
                    self.lemma_idx_unique(store_id, i as int);
                }
                return Some(i);
            }
            i = i + 1;
        }
        None
    }

    /// Under `wf`, any index holding `store_id` is the one `idx` denotes.
    proof fn lemma_idx_unique(self, store_id: u64, i: int)
        requires
            self.wf(),
            0 <= i < self.entries@.len(),
            self.entries@[i].store_id == store_id,
        ensures
            self.contains(store_id),
            self.idx(store_id) == i,
    {
        assert(self.contains(store_id));
        let j = self.idx(store_id);
        assert(self.entries@[j].store_id == store_id);
        if i < j {
            assert(self.entries@[i].store_id != self.entries@[j].store_id);
        } else if j < i {
            assert(self.entries@[j].store_id != self.entries@[i].store_id);
        }
    }

    /// The cached address for `store_id`, provided its entry is still valid;
    /// `None` on a miss or an invalidated entry, in which case the caller
    /// must consult the resolver.
    pub fn get_valid(&self, store_id: u64) -> (r: Option<String>)
        requires
            self.wf(),
        ensures
            match r {
                Some(addr) => self.is_valid(store_id) && addr@ == self.addr_of(store_id),
                None => !self.is_valid(store_id),
            },
    {
        match self.find(store_id) {
            Some(i) => {
                let e = &self.entries[i];
                if e.valid {
                    Some(e.addr.clone())
                } else {
                    None
                }
            },
            None => None,
        }
    }

    /// Records a freshly resolved address for `store_id`, creating the entry
    /// or overwriting a previous one, and marks it valid. Entries of other
    /// stores are untouched.
    pub fn store(&mut self, store_id: u64, addr: String)
        requires
            old(self).wf(),
        ensures
            final(self).wf(),
            final(self).contains(store_id),
            final(self).is_valid(store_id),
            final(self).addr_of(store_id) == addr@,
            forall|s: u64|
                s != store_id ==> {
                    &&& final(self).contains(s) == old(self).contains(s)
                    &&& final(self).is_valid(s) == old(self).is_valid(s)
                    &&& (old(self).contains(s) ==> final(self).addr_of(s) == old(self).addr_of(s))
                },
    {
        let entry = CacheEntry { store_id, addr, valid: true };
        match self.find(store_id) {
            Some(i) => {
                let ghost pre = *self;
                self.entries.remove(i);
                self.entries.insert(i, entry);
                proof {
                    assert(self.entries@ =~= pre.entries@.update(i as int, self.entries@[i as int]));
                    assert(pre.entries@[i as int].store_id == store_id);
                    self.lemma_idx_unique(store_id, i as int);
                    assert forall|s: u64| s != store_id implies self.contains(s) == pre.contains(s)
                        && self.is_valid(s) == pre.is_valid(s) && (pre.contains(s)
                        ==> self.addr_of(s) == pre.addr_of(s)) by {
                        self.lemma_frame_after_update(pre, s, i as int);
                    }
                }
            },
            None => {
                let ghost pre = *self;
                self.entries.push(entry);
                proof {
                    self.lemma_idx_unique(store_id, pre.entries@.len() as int);
                    assert forall|s: u64| s != store_id implies self.contains(s) == pre.contains(s)
                        && self.is_valid(s) == pre.is_valid(s) && (pre.contains(s)
                        ==> self.addr_of(s) == pre.addr_of(s)) by {
                        self.lemma_frame_after_push(pre, s);
                    }
                }
            },
        }
    }

    /// Marks the entry for `store_id`, if any, invalid. The entry and its
    /// address stay so that `contains` still answers, but `is_valid` no
    /// longer holds and the next lookup misses.
    pub fn invalidate(&mut self, store_id: u64)
        requires
            old(self).wf(),
        ensures
            final(self).wf(),
            final(self).contains(store_id) == old(self).contains(store_id),
            !final(self).is_valid(store_id),
            old(self).contains(store_id) ==> final(self).addr_of(store_id) == old(self).addr_of(
                store_id,
            ),
            forall|s: u64|
                s != store_id ==> {
                    &&& final(self).contains(s) == old(self).contains(s)
                    &&& final(self).is_valid(s) == old(self).is_valid(s)
                    &&& (old(self).contains(s) ==> final(self).addr_of(s) == old(self).addr_of(s))
                },
    {
        match self.find(store_id) {
            Some(i) => {
                let ghost pre = *self;
                let mut e = self.entries.remove(i);
                e.valid = false;
                self.entries.insert(i, e);
                proof {
                    assert(self.entries@ =~= pre.entries@.update(i as int, self.entries@[i as int]));
                    assert(pre.entries@[i as int].store_id == store_id);
                    self.lemma_idx_unique(store_id, i as int);
                    assert forall|s: u64| s != store_id implies self.contains(s) == pre.contains(s)
                        && self.is_valid(s) == pre.is_valid(s) && (pre.contains(s)
                        ==> self.addr_of(s) == pre.addr_of(s)) by {
                        self.lemma_frame_after_update(pre, s, i as int);
                    }
                }
            },
            None => {},
        }
    }

    /// Replacing the entry at `i` with one of the same store id leaves every
    /// other store's view of the cache unchanged.
    proof fn lemma_frame_after_update(self, pre: AddressCache, s: u64, i: int)
        requires
            pre.wf(),
            self.wf(),
            0 <= i < pre.entries@.len(),
            self.entries@.len() == pre.entries@.len(),
            forall|k: int|
                0 <= k < pre.entries@.len() && k != i ==> self.entries@[k] == pre.entries@[k],
            self.entries@[i].store_id == pre.entries@[i].store_id,
            s != pre.entries@[i].store_id,
        ensures
            self.contains(s) == pre.contains(s),
            self.is_valid(s) == pre.is_valid(s),
            pre.contains(s) ==> self.addr_of(s) == pre.addr_of(s),
    {
        if pre.contains(s) {
            let j = pre.idx(s);
            assert(pre.entries@[j].store_id == s);
            assert(j != i);
            assert(self.entries@[j].store_id == s);
            self.lemma_idx_unique(s, j);
            pre.lemma_idx_unique(s, j);
        }
        if self.contains(s) {
            let j = self.idx(s);
            assert(self.entries@[j].store_id == s);
            assert(j != i);
            assert(pre.entries@[j].store_id == s);
            assert(pre.contains(s));
        }
    }

    /// Appending an entry for a different store id leaves every other
    /// store's view of the cache unchanged.
    proof fn lemma_frame_after_push(self, pre: AddressCache, s: u64)
        requires
            pre.wf(),
            self.wf(),
            self.entries@.len() == pre.entries@.len() + 1,
            forall|k: int| 0 <= k < pre.entries@.len() ==> self.entries@[k] == pre.entries@[k],
            s != self.entries@[pre.entries@.len() as int].store_id,
        ensures
            self.contains(s) == pre.contains(s),
            self.is_valid(s) == pre.is_valid(s),
            pre.contains(s) ==> self.addr_of(s) == pre.addr_of(s),
    {
        if pre.contains(s) {
            let j = pre.idx(s);
            assert(pre.entries@[j].store_id == s);
            assert(self.entries@[j].store_id == s);
            self.lemma_idx_unique(s, j);
            pre.lemma_idx_unique(s, j);
        }
        if self.contains(s) {
            let j = self.idx(s);
            assert(self.entries@[j].store_id == s);
            assert(j < pre.entries@.len());
            assert(pre.entries@[j].store_id == s);
            assert(pre.contains(s));
        }
    }
}

} // verus!
