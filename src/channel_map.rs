use vstd::prelude::*;

verus! {

/// A map from channel names to values, kept as a list of entries whose
/// names are pairwise distinct.
pub struct ChannelMap<V> {
    entries: Vec<(String, V)>,
    model: Ghost<Map<Seq<char>, V>>,
}

impl<V> View for ChannelMap<V> {
    type V = Map<Seq<char>, V>;

    closed spec fn view(&self) -> Map<Seq<char>, V> {
        self.model@
    }
}

impl<V> ChannelMap<V> {
    /// The entries list no name twice, and hold exactly the pairs of the model.
    pub closed spec fn wf(&self) -> bool {
        &&& forall|i: int, j: int|
            0 <= i < j < self.entries@.len() ==> self.entries@[i].0@ != self.entries@[j].0@
        &&& forall|i: int|
            0 <= i < self.entries@.len() ==> {
                &&& #[trigger] self.model@.contains_key(self.entries@[i].0@)
                &&& self.model@[self.entries@[i].0@] == self.entries@[i].1
            }
        &&& forall|k: Seq<char>|
            #[trigger] self.model@.contains_key(k) ==> exists|i: int|
                0 <= i < self.entries@.len() && self.entries@[i].0@ == k
    }

    pub fn new() -> (r: Self)
        ensures
            r.wf(),
            r@ == Map::<Seq<char>, V>::empty(),
    {
        ChannelMap { entries: Vec::new(), model: Ghost(Map::empty()) }
    }

    fn find(&self, key: &str) -> (r: Option<usize>)
        requires
            self.wf(),
        ensures
            match r {
                Some(i) => i < self.entries@.len() && self.entries@[i as int].0@ == key@,
                None => !self@.contains_key(key@),
            },
    {
        let wanted = String::from_str(key);
        let mut i: usize = 0;
        while i < self.entries.len()
            invariant
                self.wf(),
                wanted@ == key@,
                i <= self.entries@.len(),
                forall|j: int| 0 <= j < i ==> self.entries@[j].0@ != key@,
            decreases self.entries@.len() - i,
        {
            if self.entries[i].0.eq(&wanted) {
                return Some(i);
            }
            i = i + 1;
        }
        None
    }

    /// Whether a channel of this name is held.
    pub fn contains(&self, key: &str) -> (r: bool)
        requires
            self.wf(),
        ensures
            r == self@.contains_key(key@),
    {
        match self.find(key) {
            Some(_) => true,
            None => false,
        }
    }

    /// The value held for a channel, if any.
    pub fn get(&self, key: &str) -> (r: Option<&V>)
        requires
            self.wf(),
        ensures
            r == (if self@.contains_key(key@) {
                Some(&self@[key@])
            } else {
                None::<&V>
            }),
    {
        match self.find(key) {
            Some(i) => Some(&self.entries[i].1),
            None => None,
        }
    }

    /// Takes a channel's value out of the map.
    pub fn remove(&mut self, key: &str) -> (r: Option<V>)
        requires
            old(self).wf(),
        ensures
            final(self).wf(),
            final(self)@ == old(self)@.remove(key@),
            r == (if old(self)@.contains_key(key@) {
                Some(old(self)@[key@])
            } else {
                None::<V>
            }),
    {
        match self.find(key) {
            None => {
                assert(self@.remove(key@) =~= self@);
                None
            },
            Some(idx) => {
                let ghost old_entries = self.entries@;
                let ghost old_model = self.model@;
                let e = self.entries.remove(idx);
                self.model = Ghost(old_model.remove(key@));
                assert forall|i: int, j: int|
                    0 <= i < j < self.entries@.len() implies self.entries@[i].0@
                    != self.entries@[j].0@ by {
                    let oi = if i < idx { i } else { i + 1 };
                    let oj = if j < idx { j } else { j + 1 };
                    assert(old_entries[oi].0@ != old_entries[oj].0@);
                }
                assert forall|i: int| 0 <= i < self.entries@.len() implies {
                    &&& #[trigger] self.model@.contains_key(self.entries@[i].0@)
                    &&& self.model@[self.entries@[i].0@] == self.entries@[i].1
                } by {
                    let oi = if i < idx { i } else { i + 1 };
                    assert(old_entries[oi] == self.entries@[i]);
                    assert(old_entries[oi].0@ != old_entries[idx as int].0@);
                    assert(old_model.contains_key(old_entries[oi].0@));
                }
                assert forall|k: Seq<char>| #[trigger] self.model@.contains_key(k) implies exists|
                    i: int,
                |
                    0 <= i < self.entries@.len() && self.entries@[i].0@ == k by {
                    let oi = choose|i: int| 0 <= i < old_entries.len() && old_entries[i].0@ == k;
                    assert(oi != idx);
                    let ni = if oi < idx { oi } else { oi - 1 };
                    assert(self.entries@[ni] == old_entries[oi]);
                }
                Some(e.1)
            },
        }
    }

    /// Sets a channel's value, replacing any earlier one.
    pub fn insert(&mut self, key: &str, value: V)
        requires
            old(self).wf(),
        ensures
            final(self).wf(),
            final(self)@ == old(self)@.insert(key@, value),
    {
        let _ = self.remove(key);
        let ghost mid_entries = self.entries@;
        let ghost mid_model = self.model@;
        let name = String::from_str(key);
        self.entries.push((name, value));
        self.model = Ghost(mid_model.insert(key@, value));
        assert(self.entries@[mid_entries.len() as int].0@ == key@);
        assert forall|i: int| 0 <= i < self.entries@.len() implies {
            &&& #[trigger] self.model@.contains_key(self.entries@[i].0@)
            &&& self.model@[self.entries@[i].0@] == self.entries@[i].1
        } by {
            if i < mid_entries.len() {
                assert(self.entries@[i] == mid_entries[i]);
                assert(mid_model.contains_key(mid_entries[i].0@));
            }
        }
        assert forall|k: Seq<char>| #[trigger] self.model@.contains_key(k) implies exists|i: int|
            0 <= i < self.entries@.len() && self.entries@[i].0@ == k by {
            if k != key@ {
                let oi = choose|i: int| 0 <= i < mid_entries.len() && mid_entries[i].0@ == k;
                assert(self.entries@[oi] == mid_entries[oi]);
            } else {
                assert(self.entries@[mid_entries.len() as int].0@ == k);
            }
        }
        proof {
            assert forall|i: int| 0 <= i < mid_entries.len() implies mid_entries[i].0@ != key@ by {
                assert(mid_model.contains_key(mid_entries[i].0@));
            }
        }
    }
}

} // verus!
