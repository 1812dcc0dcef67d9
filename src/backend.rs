//! An in-process key-value backend with an atomic counter.
//!
//! It offers the four operations that the link store needs of a backend: an
//! increment that returns the value after it, an unconditional write, a point
//! read and a delete. Entries are kept in insertion order with unique keys.
use vstd::prelude::*;

verus! {

/// A round trip to the backend failed.
#[derive(Clone, Copy, Debug, PartialEq, Eq, Structural)]
pub struct BackendFault;

/// Whether no two entries of `s` share a key.
pub open spec fn keys_unique(s: Seq<(String, String)>) -> bool {
    forall|i: int, j: int| 0 <= i < j < s.len() ==> (#[trigger] s[i]).0@ != (#[trigger] s[j]).0@
}

/// The map from keys to values that the entries `s` hold.
pub open spec fn map_of(s: Seq<(String, String)>) -> Map<Seq<char>, Seq<char>>
    decreases s.len(),
{
    if s.len() == 0 {
        Map::empty()
    } else {
        map_of(s.drop_last()).insert(s.last().0@, s.last().1@)
    }
}

proof fn lemma_unique_prefix(s: Seq<(String, String)>)
    requires
        keys_unique(s),
        s.len() > 0,
    ensures
        keys_unique(s.drop_last()),
        forall|i: int| 0 <= i < s.len() - 1 ==> (#[trigger] s.drop_last()[i]).0@ != s.last().0@,
{
    assert forall|i: int| 0 <= i < s.len() - 1 implies (#[trigger] s.drop_last()[i]).0@
        != s.last().0@ by {
        assert(s.drop_last()[i] == s[i]);
    }
}

proof fn lemma_map_of_absent(s: Seq<(String, String)>, k: Seq<char>)
    requires
        forall|i: int| 0 <= i < s.len() ==> (#[trigger] s[i]).0@ != k,
    ensures
        !map_of(s).contains_key(k),
    decreases s.len(),
{
    if s.len() > 0 {
        let t = s.drop_last();
        assert forall|i: int| 0 <= i < t.len() implies (#[trigger] t[i]).0@ != k by {
            assert(t[i] == s[i]);
        }
        lemma_map_of_absent(t, k);
    }
}

proof fn lemma_map_of_index(s: Seq<(String, String)>, i: int)
    requires
        keys_unique(s),
        0 <= i < s.len(),
    ensures
        map_of(s).contains_key(s[i].0@),
        map_of(s)[s[i].0@] == s[i].1@,
    decreases s.len(),
{
    if i < s.len() - 1 {
        lemma_unique_prefix(s);
        let t = s.drop_last();
        assert(t[i] == s[i]);
        lemma_map_of_index(t, i);
    }
}

proof fn lemma_map_of_update(s: Seq<(String, String)>, i: int, p: (String, String))
    requires
        keys_unique(s),
        0 <= i < s.len(),
        s[i].0@ == p.0@,
    ensures
        map_of(s.update(i, p)) == map_of(s).insert(p.0@, p.1@),
    decreases s.len(),
{
    let t = s.drop_last();
    let u = s.update(i, p);
    if i == s.len() - 1 {
        assert(u.drop_last() =~= t);
        assert(map_of(u) =~= map_of(s).insert(p.0@, p.1@));
    } else {
        lemma_unique_prefix(s);
        assert(t[i] == s[i]);
        lemma_map_of_update(t, i, p);
        assert(u.drop_last() =~= t.update(i, p));
        assert(s.last().0@ != p.0@);
        assert(map_of(u) =~= map_of(s).insert(p.0@, p.1@));
    }
}

proof fn lemma_map_of_remove(s: Seq<(String, String)>, i: int)
    requires
        keys_unique(s),
        0 <= i < s.len(),
    ensures
        map_of(s.remove(i)) == map_of(s).remove(s[i].0@),
    decreases s.len(),
{
    let t = s.drop_last();
    lemma_unique_prefix(s);
    if i == s.len() - 1 {
        assert(s.remove(i) =~= t);
        lemma_map_of_absent(t, s.last().0@);
        assert(map_of(t) =~= map_of(s).remove(s[i].0@));
    } else {
        let u = s.remove(i);
        assert(t[i] == s[i]);
        lemma_map_of_remove(t, i);
        assert(u.drop_last() =~= t.remove(i));
        assert(u.last() == s.last());
        assert(map_of(u) =~= map_of(s).remove(s[i].0@));
    }
}

/// The backend's state: the counter and the stored entries.
pub struct MemoryBackend {
    counter: u64,
    entries: Vec<(String, String)>,
}

impl MemoryBackend {
    /// The current value of the counter.
    pub closed spec fn counter_value(&self) -> nat {
        self.counter as nat
    }

    /// What the backend stores, from keys to values.
    pub closed spec fn contents(&self) -> Map<Seq<char>, Seq<char>> {
        map_of(self.entries@)
    }

    /// The entries hold each key at most once.
    pub closed spec fn wf(&self) -> bool {
        keys_unique(self.entries@)
    }

    /// An empty backend whose counter stands at 0.
    pub fn new() -> (r: Self)
        ensures
            r.wf(),
            r.counter_value() == 0,
            r.contents() == Map::<Seq<char>, Seq<char>>::empty(),
    {
        MemoryBackend { counter: 0, entries: Vec::new() }
    }

    /// Adds one to the counter and returns its new value; fails, and leaves the
    /// counter as it is, where the counter is at `u64::MAX`.
    pub fn increment(&mut self) -> (r: Result<u64, BackendFault>)
        ensures
            final(self).contents() == old(self).contents(),
            final(self).wf() == old(self).wf(),
            match r {
                Ok(n) => old(self).counter_value() < u64::MAX && n as nat == old(self).counter_value()
                    + 1 && final(self).counter_value() == n as nat,
                Err(_) => old(self).counter_value() == u64::MAX && final(self).counter_value()
                    == old(self).counter_value(),
            },
    {
        if self.counter == u64::MAX {
            Err(BackendFault)
        } else {
            self.counter = self.counter + 1;
            Ok(self.counter)
        }
    }

    /// The index of the entry under `key`, if there is one.
    fn find(&self, key: &String) -> (r: Option<usize>)
        ensures
            match r {
                Some(i) => i < self.entries@.len() && self.entries@[i as int].0@ == key@,
                None => forall|j: int|
                    0 <= j < self.entries@.len() ==> (#[trigger] self.entries@[j]).0@ != key@,
            },
    {
        let mut i: usize = 0;
        while i < self.entries.len()
            invariant
                i <= self.entries@.len(),
                forall|j: int| 0 <= j < i ==> (#[trigger] self.entries@[j]).0@ != key@,
            decreases self.entries@.len() - i,
        {
            if self.entries[i].0 == *key {
                return Some(i);
            }
            i = i + 1;
        }
        None
    }

    /// Stores `value` under `key`, replacing what was there.
    pub fn set(&mut self, key: String, value: String)
        requires
            old(self).wf(),
        ensures
            final(self).wf(),
            final(self).counter_value() == old(self).counter_value(),
            final(self).contents() == old(self).contents().insert(key@, value@),
    {
        match self.find(&key) {
            Some(i) => {
                proof {
                    lemma_map_of_update(self.entries@, i as int, (key, value));
                }
                self.entries.set(i, (key, value));
            },
            None => {
                let ghost s = self.entries@;
                self.entries.push((key, value));
                proof {
                    assert(self.entries@.drop_last() =~= s);
                }
            },
        }
    }

    /// The value stored under `key`, if any.
    pub fn get(&self, key: &String) -> (r: Option<String>)
        requires
            self.wf(),
        ensures
            match r {
                Some(v) => self.contents().contains_key(key@) && v@ == self.contents()[key@],
                None => !self.contents().contains_key(key@),
            },
    {
        match self.find(key) {
            Some(i) => {
                proof {
                    lemma_map_of_index(self.entries@, i as int);
                }
                Some(self.entries[i].1.clone())
            },
            None => {
                proof {
                    lemma_map_of_absent(self.entries@, key@);
                }
                None
            },
        }
    }

    /// Removes the entry under `key`, if there is one.
    pub fn delete(&mut self, key: &String)
        requires
            old(self).wf(),
        ensures
            final(self).wf(),
            final(self).counter_value() == old(self).counter_value(),
            final(self).contents() == old(self).contents().remove(key@),
    {
        match self.find(key) {
            Some(i) => {
                proof {
                    lemma_map_of_remove(self.entries@, i as int);
                }
                self.entries.remove(i);
            },
            None => {
                proof {
                    lemma_map_of_absent(self.entries@, key@);
                    assert(self.contents() =~= self.contents().remove(key@));
                }
            },
        }
    }
}

} // verus!
