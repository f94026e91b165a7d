//! A table keyed by text: a list of entries whose keys are unique.
use vstd::prelude::*;

verus! {

/// Entries keyed by text; no key occurs twice.
pub struct Table<V> {
    entries: Vec<(String, V)>,
}

/// No key occurs twice in `e`.
pub open spec fn keys_unique<V>(e: Seq<(String, V)>) -> bool {
    forall|i: int, j: int|
        0 <= i < e.len() && 0 <= j < e.len() && i != j ==> (#[trigger] e[i]).0@ != (
        #[trigger] e[j]).0@
}

/// The map that the entries `e` stand for.
pub open spec fn entries_map<V>(e: Seq<(String, V)>) -> Map<Seq<char>, V> {
    Map::new(
        |k: Seq<char>| exists|i: int| 0 <= i < e.len() && (#[trigger] e[i]).0@ == k,
        |k: Seq<char>| e[choose|i: int| 0 <= i < e.len() && (#[trigger] e[i]).0@ == k].1,
    )
}

pub proof fn lemma_entry_in_map<V>(e: Seq<(String, V)>, i: int)
    requires
        keys_unique(e),
        0 <= i < e.len(),
    ensures
        entries_map(e).contains_key(e[i].0@),
        entries_map(e)[e[i].0@] == e[i].1,
{
    let k = e[i].0@;
    assert(exists|j: int| 0 <= j < e.len() && (#[trigger] e[j]).0@ == k);
    let j = choose|j: int| 0 <= j < e.len() && (#[trigger] e[j]).0@ == k;
    assert(j == i);
}

proof fn lemma_map_push<V>(e: Seq<(String, V)>, k: String, v: V)
    requires
        keys_unique(e),
        !entries_map(e).contains_key(k@),
    ensures
        keys_unique(e.push((k, v))),
        entries_map(e.push((k, v))) == entries_map(e).insert(k@, v),
{
    let n = e.push((k, v));
    assert forall|i: int, j: int|
        0 <= i < n.len() && 0 <= j < n.len() && i != j implies (#[trigger] n[i]).0@ != (
        #[trigger] n[j]).0@ by {
        if i < e.len() && j < e.len() {
            assert(n[i] == e[i] && n[j] == e[j]);
        } else if i < e.len() {
            assert(n[i] == e[i]);
            if n[i].0@ == k@ {
                assert(entries_map(e).contains_key(k@));
            }
        } else if j < e.len() {
            assert(n[j] == e[j]);
            if n[j].0@ == k@ {
                assert(entries_map(e).contains_key(k@));
            }
        }
    }
    let m = entries_map(e).insert(k@, v);
    assert forall|x: Seq<char>|
        #[trigger] entries_map(n).contains_key(x) <==> m.contains_key(x) by {
        if entries_map(n).contains_key(x) {
            let i = choose|i: int| 0 <= i < n.len() && (#[trigger] n[i]).0@ == x;
            if i < e.len() {
                assert(n[i] == e[i]);
                lemma_entry_in_map(e, i);
            }
        }
        if m.contains_key(x) && x != k@ {
            let i = choose|i: int| 0 <= i < e.len() && (#[trigger] e[i]).0@ == x;
            assert(n[i] == e[i]);
        }
        if x == k@ {
            assert(n[e.len() as int] == (k, v));
        }
    }
    assert forall|x: Seq<char>| #[trigger] entries_map(n).contains_key(x) implies entries_map(n)[x]
        == m[x] by {
        let i = choose|i: int| 0 <= i < n.len() && (#[trigger] n[i]).0@ == x;
        lemma_entry_in_map(n, i);
        if i < e.len() {
            assert(n[i] == e[i]);
            lemma_entry_in_map(e, i);
        }
    }
    assert(entries_map(n) =~= m);
}

proof fn lemma_map_update<V>(e: Seq<(String, V)>, i: int, k: String, v: V)
    requires
        keys_unique(e),
        0 <= i < e.len(),
        e[i].0@ == k@,
    ensures
        keys_unique(e.update(i, (k, v))),
        entries_map(e.update(i, (k, v))) == entries_map(e).insert(k@, v),
{
    let n = e.update(i, (k, v));
    assert forall|a: int, b: int|
        0 <= a < n.len() && 0 <= b < n.len() && a != b implies (#[trigger] n[a]).0@ != (
        #[trigger] n[b]).0@ by {
        assert(n[a].0@ == e[a].0@);
        assert(n[b].0@ == e[b].0@);
    }
    let m = entries_map(e).insert(k@, v);
    lemma_entry_in_map(e, i);
    assert forall|x: Seq<char>|
        #[trigger] entries_map(n).contains_key(x) <==> m.contains_key(x) by {
        if entries_map(n).contains_key(x) {
            let j = choose|j: int| 0 <= j < n.len() && (#[trigger] n[j]).0@ == x;
            assert(e[j].0@ == x);
        }
        if m.contains_key(x) {
            if x == k@ {
                assert(n[i].0@ == x);
            } else {
                let j = choose|j: int| 0 <= j < e.len() && (#[trigger] e[j]).0@ == x;
                assert(n[j].0@ == x);
            }
        }
    }
    assert forall|x: Seq<char>| #[trigger] entries_map(n).contains_key(x) implies entries_map(n)[x]
        == m[x] by {
        let j = choose|j: int| 0 <= j < n.len() && (#[trigger] n[j]).0@ == x;
        lemma_entry_in_map(n, j);
        if j != i {
            assert(n[j] == e[j]);
            lemma_entry_in_map(e, j);
        }
    }
    assert(entries_map(n) =~= m);
}

proof fn lemma_map_remove<V>(e: Seq<(String, V)>, i: int)
    requires
        keys_unique(e),
        0 <= i < e.len(),
    ensures
        keys_unique(e.remove(i)),
        entries_map(e.remove(i)) == entries_map(e).remove(e[i].0@),
{
    let n = e.remove(i);
    let k = e[i].0@;
    assert forall|a: int, b: int|
        0 <= a < n.len() && 0 <= b < n.len() && a != b implies (#[trigger] n[a]).0@ != (
        #[trigger] n[b]).0@ by {
        let a2 = if a < i {
            a
        } else {
            a + 1
        };
        let b2 = if b < i {
            b
        } else {
            b + 1
        };
        assert(n[a] == e[a2]);
        assert(n[b] == e[b2]);
    }
    let m = entries_map(e).remove(k);
    assert forall|x: Seq<char>|
        #[trigger] entries_map(n).contains_key(x) <==> m.contains_key(x) by {
        if entries_map(n).contains_key(x) {
            let j = choose|j: int| 0 <= j < n.len() && (#[trigger] n[j]).0@ == x;
            let j2 = if j < i {
                j
            } else {
                j + 1
            };
            assert(n[j] == e[j2]);
            assert(j2 != i);
        }
        if m.contains_key(x) {
            let j = choose|j: int| 0 <= j < e.len() && (#[trigger] e[j]).0@ == x;
            assert(j != i);
            if j < i {
                assert(n[j] == e[j]);
            } else {
                assert(n[j - 1] == e[j]);
            }
        }
    }
    assert forall|x: Seq<char>| #[trigger] entries_map(n).contains_key(x) implies entries_map(n)[x]
        == m[x] by {
        let j = choose|j: int| 0 <= j < n.len() && (#[trigger] n[j]).0@ == x;
        lemma_entry_in_map(n, j);
        let j2 = if j < i {
            j
        } else {
            j + 1
        };
        assert(n[j] == e[j2]);
        lemma_entry_in_map(e, j2);
    }
    assert(entries_map(n) =~= m);
}

impl<V> View for Table<V> {
    type V = Map<Seq<char>, V>;

    closed spec fn view(&self) -> Map<Seq<char>, V> {
        entries_map(self.entries@)
    }
}

impl<V> Table<V> {
    /// The keys are unique.
    pub closed spec fn wf(&self) -> bool {
        keys_unique(self.entries@)
    }

    /// The entries in the order in which they are kept.
    pub closed spec fn entries(&self) -> Seq<(String, V)> {
        self.entries@
    }

    /// The entries stand for the map.
    pub proof fn lemma_entries(&self)
        requires
            self.wf(),
        ensures
            keys_unique(self.entries()),
            self@ == entries_map(self.entries()),
    {
    }

    pub fn new() -> (r: Self)
        ensures
            r.wf(),
            r@ == Map::<Seq<char>, V>::empty(),
    {
        let r = Table { entries: Vec::new() };
        assert(r@ =~= Map::<Seq<char>, V>::empty());
        r
    }

    pub fn len(&self) -> (r: usize)
        ensures
            r == self.entries().len(),
    {
        self.entries.len()
    }

    /// The position of `key`'s entry.
    pub fn find(&self, key: &String) -> (r: Option<usize>)
        requires
            self.wf(),
        ensures
            r is Some <==> self@.contains_key(key@),
            r matches Some(i) ==> i < self.entries().len() && self.entries()[i as int].0@ == key@,
    {
        let mut i: usize = 0;
        while i < self.entries.len()
            invariant
                i <= self.entries@.len(),
                forall|j: int| 0 <= j < i ==> (#[trigger] self.entries@[j]).0@ != key@,
            decreases self.entries@.len() - i,
        {
            if self.entries[i].0 == *key {
                return Some(i);
            }
            i += 1;
        }
        None
    }

    /// The key and value at position `i`.
    pub fn entry_at(&self, i: usize) -> (r: &(String, V))
        requires
            i < self.entries().len(),
        ensures
            *r == self.entries()[i as int],
    {
        &self.entries[i]
    }

    pub fn get(&self, key: &String) -> (r: Option<&V>)
        requires
            self.wf(),
        ensures
            match r {
                Some(v) => self@.contains_key(key@) && *v == self@[key@],
                None => !self@.contains_key(key@),
            },
    {
        match self.find(key) {
            Some(i) => {
                proof {
                    lemma_entry_in_map(self.entries@, i as int);
                }
                Some(&self.entries[i].1)
            },
            None => None,
        }
    }

    /// Inserts `value` under `key`, in place of the value it had if any.
    pub fn insert(&mut self, key: String, value: V)
        requires
            old(self).wf(),
        ensures
            final(self).wf(),
            final(self)@ == old(self)@.insert(key@, value),
    {
        match self.find(&key) {
            Some(i) => {
                proof {
                    lemma_map_update(self.entries@, i as int, key, value);
                }
                self.entries.set(i, (key, value));
            },
            None => {
                proof {
                    lemma_map_push(self.entries@, key, value);
                }
                self.entries.push((key, value));
            },
        }
    }

    /// Removes the entry at position `i`, keeping the order of the others.
    pub fn remove_at(&mut self, i: usize)
        requires
            old(self).wf(),
            i < old(self).entries().len(),
        ensures
            final(self).wf(),
            final(self).entries() == old(self).entries().remove(i as int),
            final(self)@ == old(self)@.remove(old(self).entries()[i as int].0@),
    {
        proof {
            lemma_map_remove(self.entries@, i as int);
        }
        self.entries.remove(i);
    }

    /// Removes `key`'s entry, if there is one.
    pub fn remove(&mut self, key: &String)
        requires
            old(self).wf(),
        ensures
            final(self).wf(),
            final(self)@ == old(self)@.remove(key@),
    {
        match self.find(key) {
            Some(i) => {
                self.remove_at(i);
            },
            None => {
                assert(self@ =~= self@.remove(key@));
            },
        }
    }
}

} // verus!
