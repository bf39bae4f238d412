//! A map keyed by socket address that remembers the order of insertion.
use crate::address::SocketAddr;
use vstd::prelude::*;

verus! {

/// An association list without repeated keys.
///
/// Its view is the map that it stands for; `keys` is the order in which a walk meets its keys.
pub struct AddressMap<V> {
    entries: Vec<(SocketAddr, V)>,
}

impl<V> View for AddressMap<V> {
    type V = Map<SocketAddr, V>;

    closed spec fn view(&self) -> Map<SocketAddr, V> {
        Map::new(
            |address: SocketAddr| self.keys().contains(address),
            |address: SocketAddr| self.entries@[self.keys().index_of(address)].1,
        )
    }
}

impl<V> AddressMap<V> {
    /// The keys in the order of a walk over the map.
    pub closed spec fn keys(&self) -> Seq<SocketAddr> {
        self.entries@.map_values(|entry: (SocketAddr, V)| entry.0)
    }

    /// No key occurs twice.
    pub closed spec fn wf(&self) -> bool {
        self.keys().no_duplicates()
    }

    /// The keys of a walk are those of the map, each once.
    pub proof fn lemma_keys(&self)
        requires
            self.wf(),
        ensures
            self.keys().no_duplicates(),
            self.keys().to_set() == self@.dom(),
            self.keys().len() == self@.len(),
            self@.dom().finite(),
            forall|address: SocketAddr|
                #![trigger self.keys().contains(address)]
                #![trigger self@.contains_key(address)]
                self.keys().contains(address) <==> self@.contains_key(address),
    {
        self.keys().unique_seq_to_set();
        assert(self.keys().to_set() =~= self@.dom());
        vstd::seq_lib::seq_to_set_is_finite(self.keys());
    }

    proof fn lemma_entry(&self, index: int)
        requires
            self.wf(),
            0 <= index < self.entries@.len(),
        ensures
            self@.contains_key(self.entries@[index].0),
            self@[self.entries@[index].0] == self.entries@[index].1,
    {
        let address = self.entries@[index].0;
        assert(self.keys()[index] == address);
        assert(self.keys().contains(address));
        let found = self.keys().index_of(address);
        assert(0 <= found < self.keys().len() && self.keys()[found] == address);
        assert(found == index);
    }

    proof fn lemma_absent(&self, address: SocketAddr)
        requires
            forall|i: int| 0 <= i < self.entries@.len() ==> self.entries@[i].0 != address,
        ensures
            !self@.contains_key(address),
    {
        if self.keys().contains(address) {
            let i = choose|i: int| 0 <= i < self.keys().len() && self.keys()[i] == address;
            assert(self.entries@[i].0 == address);
        }
    }

    pub fn new() -> (r: Self)
        ensures
            r.wf(),
            r@ == Map::<SocketAddr, V>::empty(),
    {
        let r = AddressMap { entries: Vec::new() };
        assert(r@ =~= Map::<SocketAddr, V>::empty());
        r
    }

    pub fn len(&self) -> (r: usize)
        requires
            self.wf(),
        ensures
            r == self@.len(),
    {
        proof {
            self.lemma_keys();
        }
        self.entries.len()
    }

    /// Where the key stands in the walk.
    fn position(&self, address: SocketAddr) -> (r: Option<usize>)
        requires
            self.wf(),
        ensures
            r is Some <==> self@.contains_key(address),
            r matches Some(i) ==> i < self.entries@.len() && self.entries@[i as int].0 == address
                && self.entries@[i as int].1 == self@[address],
    {
        let mut i: usize = 0;
        while i < self.entries.len()
            invariant
                self.wf(),
                i <= self.entries@.len(),
                forall|j: int| 0 <= j < i ==> self.entries@[j].0 != address,
            decreases self.entries@.len() - i,
        {
            if self.entries[i].0 == address {
                proof {
                    self.lemma_entry(i as int);
                }
                return Some(i);
            }
            i += 1;
        }
        proof {
            self.lemma_absent(address);
        }
        None
    }

    pub fn contains_key(&self, address: SocketAddr) -> (r: bool)
        requires
            self.wf(),
        ensures
            r == self@.contains_key(address),
    {
        self.position(address).is_some()
    }

    pub fn get(&self, address: SocketAddr) -> (r: Option<&V>)
        requires
            self.wf(),
        ensures
            r is Some <==> self@.contains_key(address),
            r matches Some(value) ==> *value == self@[address],
    {
        match self.position(address) {
            Some(i) => Some(&self.entries[i].1),
            None => None,
        }
    }

    /// The key that a walk meets in the given place.
    pub fn key_at(&self, index: usize) -> (r: SocketAddr)
        requires
            self.wf(),
            index < self@.len(),
        ensures
            r == self.keys()[index as int],
    {
        proof {
            self.lemma_keys();
        }
        self.entries[index].0
    }

    /// The keys in the order of a walk.
    pub fn key_list(&self) -> (r: Vec<SocketAddr>)
        ensures
            r@ == self.keys(),
    {
        let mut list: Vec<SocketAddr> = Vec::new();
        let mut i: usize = 0;
        while i < self.entries.len()
            invariant
                i <= self.entries@.len(),
                list@ == self.keys().take(i as int),
            decreases self.entries@.len() - i,
        {
            list.push(self.entries[i].0);
            i += 1;
            assert(self.keys().take(i as int) =~= self.keys().take(i - 1).push(self.keys()[i - 1]));
        }
        assert(self.keys().take(i as int) =~= self.keys());
        list
    }

    /// Sets the value of a key. A key that was there keeps its place in the walk; a new one comes
    /// last.
    pub fn insert(&mut self, address: SocketAddr, value: V) -> (r: Option<V>)
        requires
            old(self).wf(),
        ensures
            final(self).wf(),
            final(self)@ == old(self)@.insert(address, value),
            final(self).keys() == if old(self)@.contains_key(address) {
                old(self).keys()
            } else {
                old(self).keys().push(address)
            },
            r is Some <==> old(self)@.contains_key(address),
            r matches Some(previous) ==> previous == old(self)@[address],
    {
        let position = self.position(address);
        self.entries.push((address, value));
        proof {
            old(self).lemma_keys();
        }
        let ghost at: int;
        let previous = match position {
            Some(i) => {
                let entry = self.entries.swap_remove(i);
                proof {
                    at = i as int;
                    assert(self.keys() =~= old(self).keys());
                }
                Some(entry.1)
            },
            None => {
                proof {
                    at = old(self).keys().len() as int;
                    assert(self.keys() =~= old(self).keys().push(address));
                }
                None
            },
        };
        proof {
            assert(self.wf());
            self.lemma_keys();
            assert(self.keys()[at] == address);
            assert forall|a: SocketAddr| self.keys().contains(a) <==> (old(self).keys().contains(a)
                || a == address) by {
                if old(self).keys().contains(a) {
                    assert(self.keys()[old(self).keys().index_of(a)] == a);
                }
            }
            assert forall|a: SocketAddr| self@.contains_key(a) implies self@[a] == old(
                self,
            )@.insert(address, value)[a] by {
                let i = self.keys().index_of(a);
                assert(0 <= i < self.keys().len() && self.keys()[i] == a);
                self.lemma_entry(i);
                self.lemma_entry(at);
                if a != address {
                    old(self).lemma_entry(i);
                }
            }
            assert(self@ =~= old(self)@.insert(address, value));
        }
        previous
    }

    /// Takes a key out, keeping the order of the others.
    pub fn remove(&mut self, address: SocketAddr) -> (r: Option<V>)
        requires
            old(self).wf(),
        ensures
            final(self).wf(),
            final(self)@ == old(self)@.remove(address),
            !old(self)@.contains_key(address) ==> final(self).keys() == old(self).keys(),
            old(self)@.contains_key(address) ==> exists|i: int|
                0 <= i < old(self).keys().len() && #[trigger] old(self).keys()[i] == address
                    && final(self).keys() == old(self).keys().remove(i),
            r is Some <==> old(self)@.contains_key(address),
            r matches Some(value) ==> value == old(self)@[address],
    {
        match self.position(address) {
            Some(i) => {
                let entry = self.entries.remove(i);
                proof {
                    let at = i as int;
                    assert(old(self).keys()[at] == address);
                    assert(self.entries@ == old(self).entries@.remove(at));
                    assert(self.keys() =~= old(self).keys().remove(at));
                    assert forall|a: SocketAddr| self@.contains_key(a) == old(self)@.remove(
                        address,
                    ).contains_key(a) by {
                        if self.keys().contains(a) {
                            let k = self.keys().index_of(a);
                            let from = if k < at { k } else { k + 1 };
                            assert(old(self).keys()[from] == a);
                            assert(old(self).keys()[at] == address);
                        }
                        if old(self).keys().contains(a) && a != address {
                            let k = old(self).keys().index_of(a);
                            let to = if k < at { k } else { k - 1 };
                            assert(old(self).keys()[at] == address);
                            assert(self.keys()[to] == a);
                        }
                    }
                    assert forall|a: SocketAddr| self@.contains_key(a) implies self@[a] == old(
                        self,
                    )@.remove(address)[a] by {
                        let k = self.keys().index_of(a);
                        assert(0 <= k < self.keys().len() && self.keys()[k] == a);
                        self.lemma_entry(k);
                        let from = if k < at { k } else { k + 1 };
                        old(self).lemma_entry(from);
                    }
                    assert(self@ =~= old(self)@.remove(address));
                }
                Some(entry.1)
            },
            None => {
                assert(self@ =~= old(self)@.remove(address));
                None
            },
        }
    }
}

} // verus!
