//! The key-value store with millisecond deadlines.
use vstd::prelude::*;
use crate::table::{Table, entries_map, lemma_entry_in_map};

verus! {

/// The keys of `d` whose deadline lies strictly before `now`.
pub open spec fn expired_keys(d: Map<Seq<char>, u128>, now: u128) -> Set<Seq<char>> {
    Set::new(|k: Seq<char>| d.contains_key(k) && now > d[k])
}

/// Values by key, and the deadline of each key that has one.
pub struct MemoryStore {
    memory: Table<String>,
    expire: Table<u128>,
}

impl MemoryStore {
    /// The stored values.
    pub closed spec fn values(&self) -> Map<Seq<char>, Seq<char>> {
        self.memory@.map_values(|v: String| v@)
    }

    /// The armed deadlines, in milliseconds.
    pub closed spec fn deadlines(&self) -> Map<Seq<char>, u128> {
        self.expire@
    }

    pub closed spec fn wf(&self) -> bool {
        self.memory.wf() && self.expire.wf()
    }

    pub fn new() -> (r: Self)
        ensures
            r.wf(),
            r.values() == Map::<Seq<char>, Seq<char>>::empty(),
            r.deadlines() == Map::<Seq<char>, u128>::empty(),
    {
        let r = MemoryStore { memory: Table::new(), expire: Table::new() };
        assert(r.values() =~= Map::<Seq<char>, Seq<char>>::empty());
        r
    }

    /// Stores `value` under `key`. A deadline armed before stays armed.
    pub fn set(&mut self, key: String, value: String)
        requires
            old(self).wf(),
        ensures
            final(self).wf(),
            final(self).values() == old(self).values().insert(key@, value@),
            final(self).deadlines() == old(self).deadlines(),
    {
        let ghost v = value@;
        self.memory.insert(key, value);
        assert(self.values() =~= old(self).values().insert(key@, v));
    }

    /// The value stored under `key`.
    pub fn get(&self, key: &str) -> (r: Option<&String>)
        requires
            self.wf(),
        ensures
            match r {
                Some(v) => self.values().contains_key(key@) && v@ == self.values()[key@],
                None => !self.values().contains_key(key@),
            },
    {
        let k: String = key.to_owned();
        self.memory.get(&k)
    }

    /// The deadline armed for `key`.
    pub fn deadline_of(&self, key: &str) -> (r: Option<u128>)
        requires
            self.wf(),
        ensures
            match r {
                Some(t) => self.deadlines().contains_key(key@) && t == self.deadlines()[key@],
                None => !self.deadlines().contains_key(key@),
            },
    {
        let k: String = key.to_owned();
        match self.expire.get(&k) {
            Some(t) => Some(*t),
            None => None,
        }
    }

    /// Arms the deadline `ttl` (an absolute time in milliseconds) for `key`.
    pub fn expire(&mut self, key: String, ttl: u128)
        requires
            old(self).wf(),
        ensures
            final(self).wf(),
            final(self).values() == old(self).values(),
            final(self).deadlines() == old(self).deadlines().insert(key@, ttl),
    {
        self.expire.insert(key, ttl);
    }

    /// Removes, from both maps, every key whose deadline is strictly before
    /// `current_time`. A key whose deadline is `current_time` stays.
    pub fn remove_expired(&mut self, current_time: u128)
        requires
            old(self).wf(),
        ensures
            final(self).wf(),
            final(self).deadlines() == old(self).deadlines().remove_keys(
                expired_keys(old(self).deadlines(), current_time),
            ),
            final(self).values() == old(self).values().remove_keys(
                expired_keys(old(self).deadlines(), current_time),
            ),
    {
        let ghost d0 = self.expire@;
        let ghost v0 = self.memory@;
        let ghost exp = expired_keys(d0, current_time);
        let ghost mut gone: Set<Seq<char>> = Set::empty();
        let mut i: usize = 0;
        while i < self.expire.len()
            invariant
                self.wf(),
                i <= self.expire.entries().len(),
                exp == expired_keys(d0, current_time),
                gone.subset_of(exp),
                self.expire@ == d0.remove_keys(gone),
                self.memory@ == v0.remove_keys(gone),
                forall|j: int|
                    0 <= j < i ==> !(current_time > (#[trigger] self.expire.entries()[j]).1),
            decreases self.expire.entries().len() - i,
        {
            let (k, t) = self.expire.entry_at(i);
            if current_time > *t {
                let key: String = k.clone();
                proof {
                    self.expire.lemma_entries();
                    lemma_entry_in_map(self.expire.entries(), i as int);
                    assert(key@ == self.expire.entries()[i as int].0@);
                    assert(self.expire@.contains_key(key@));
                    assert(self.expire@[key@] == *t);
                    assert(d0.contains_key(key@) && d0[key@] == *t);
                    assert(expired_keys(d0, current_time).contains(key@));
                }
                self.memory.remove(&key);
                self.expire.remove_at(i);
                proof {
                    assert(self.expire@ =~= d0.remove_keys(gone.insert(key@)));
                    assert(self.memory@ =~= v0.remove_keys(gone.insert(key@)));
                    gone = gone.insert(key@);
                }
            } else {
                i += 1;
            }
        }
        proof {
            self.expire.lemma_entries();
            assert(gone =~= exp) by {
                assert forall|k: Seq<char>| exp.contains(k) implies gone.contains(k) by {
                    if !gone.contains(k) {
                        assert(self.expire@.contains_key(k));
                        let e = self.expire.entries();
                        let j = choose|j: int| 0 <= j < e.len() && (#[trigger] e[j]).0@ == k;
                        lemma_entry_in_map(e, j);
                    }
                }
            }
        }
        assert(self.values() =~= old(self).values().remove_keys(exp));
    }
}

/// Sweeping twice in a row at the same time removes nothing the second time.
pub proof fn lemma_sweep_idempotent(
    values: Map<Seq<char>, Seq<char>>,
    deadlines: Map<Seq<char>, u128>,
    now: u128,
)
    ensures
        ({
            let gone = expired_keys(deadlines, now);
            let d1 = deadlines.remove_keys(gone);
            let v1 = values.remove_keys(gone);
            &&& expired_keys(d1, now) == Set::<Seq<char>>::empty()
            &&& d1.remove_keys(expired_keys(d1, now)) == d1
            &&& v1.remove_keys(expired_keys(d1, now)) == v1
        }),
{
    let gone = expired_keys(deadlines, now);
    let d1 = deadlines.remove_keys(gone);
    let v1 = values.remove_keys(gone);
    assert(expired_keys(d1, now) =~= Set::<Seq<char>>::empty());
    assert(d1.remove_keys(Set::<Seq<char>>::empty()) =~= d1);
    assert(v1.remove_keys(Set::<Seq<char>>::empty()) =~= v1);
}

} // verus!
