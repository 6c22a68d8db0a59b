//! A small map from texts to values, kept as a list with distinct keys.
use vstd::prelude::*;
use crate::layout::same_text;

verus! {

/// The first position at or after `from` whose key is `k`, or the length
/// when there is none.
pub open spec fn find_key(keys: Seq<Seq<char>>, k: Seq<char>, from: int) -> int
    decreases keys.len() - from,
{
    if from >= keys.len() {
        keys.len() as int
    } else if keys[from] == k {
        from
    } else {
        find_key(keys, k, from + 1)
    }
}

pub open spec fn distinct_keys(keys: Seq<Seq<char>>) -> bool {
    forall|i: int, j: int| 0 <= i < j < keys.len() ==> keys[i] != keys[j]
}

pub proof fn lemma_find_key(keys: Seq<Seq<char>>, k: Seq<char>, from: int)
    requires
        0 <= from <= keys.len(),
    ensures
        from <= find_key(keys, k, from) <= keys.len(),
        find_key(keys, k, from) < keys.len() ==> keys[find_key(keys, k, from)] == k,
        forall|j: int| from <= j < find_key(keys, k, from) ==> keys[j] != k,
    decreases keys.len() - from,
{
    if from < keys.len() && keys[from] != k {
        lemma_find_key(keys, k, from + 1);
    }
}

/// With distinct keys, the lookup finds the one position holding `k`, or
/// nothing when no position does.
pub proof fn lemma_find_distinct(keys: Seq<Seq<char>>, k: Seq<char>)
    requires
        distinct_keys(keys),
    ensures
        forall|i: int| 0 <= i < keys.len() && keys[i] == k ==> find_key(keys, k, 0) == i,
        (forall|i: int| 0 <= i < keys.len() ==> keys[i] != k) ==> find_key(keys, k, 0) == keys.len(),
{
    lemma_find_key(keys, k, 0);
}

pub struct Keyed<T> {
    entries: Vec<(String, T)>,
}

impl<T> Keyed<T> {
    pub closed spec fn keys(&self) -> Seq<Seq<char>> {
        self.entries@.map_values(|e: (String, T)| e.0@)
    }

    pub closed spec fn wf(&self) -> bool {
        distinct_keys(self.keys())
    }

    /// The value kept under `k`.
    pub closed spec fn lookup(&self, k: Seq<char>) -> Option<T> {
        let i = find_key(self.keys(), k, 0);
        if i < self.entries@.len() {
            Some(self.entries@[i].1)
        } else {
            None
        }
    }

    /// The keys, in the order they were first stored.
    pub closed spec fn key_list(&self) -> Seq<Seq<char>> {
        self.keys()
    }

    pub proof fn lemma_keys(&self)
        requires
            self.wf(),
        ensures
            distinct_keys(self.key_list()),
            forall|k: Seq<char>| self.lookup(k).is_some() <==> self.key_list().contains(k),
    {
        assert forall|k: Seq<char>| self.lookup(k).is_some() <==> self.key_list().contains(k) by {
            lemma_find_key(self.keys(), k, 0);
            lemma_find_distinct(self.keys(), k);
        }
    }

    pub fn new() -> (r: Self)
        ensures
            r.wf(),
            forall|k: Seq<char>| #[trigger] r.lookup(k) is None,
            r.key_list() == Seq::<Seq<char>>::empty(),
    {
        let r = Keyed { entries: Vec::new() };
        assert(r.keys() =~= Seq::<Seq<char>>::empty());
        r
    }

    pub fn len(&self) -> (r: usize)
        ensures
            r == self.key_list().len(),
    {
        self.entries.len()
    }

    pub fn key_at(&self, i: usize) -> (r: &String)
        requires
            i < self.key_list().len(),
        ensures
            r@ == self.key_list()[i as int],
    {
        &self.entries[i].0
    }

    fn position(&self, key: &str) -> (r: usize)
        ensures
            r == find_key(self.keys(), key@, 0),
            r <= self.entries@.len(),
    {
        let mut i: usize = 0;
        while i < self.entries.len()
            invariant
                i <= self.entries@.len(),
                find_key(self.keys(), key@, 0) == find_key(self.keys(), key@, i as int),
            decreases self.entries.len() - i,
        {
            if same_text(self.entries[i].0.as_str(), key) {
                return i;
            }
            i += 1;
        }
        i
    }

    pub fn get(&self, key: &str) -> (r: Option<&T>)
        ensures
            match r {
                Some(v) => self.lookup(key@) == Some(*v),
                None => self.lookup(key@) is None,
            },
    {
        let i = self.position(key);
        if i < self.entries.len() {
            Some(&self.entries[i].1)
        } else {
            None
        }
    }

    pub fn contains(&self, key: &str) -> (r: bool)
        ensures
            r == self.lookup(key@).is_some(),
    {
        self.position(key) < self.entries.len()
    }

    /// Stores `value` under `key`, replacing what was there.
    pub fn insert(&mut self, key: String, value: T)
        requires
            old(self).wf(),
        ensures
            final(self).wf(),
            forall|k: Seq<char>|
                #[trigger] final(self).lookup(k) == if k == key@ {
                    Some(value)
                } else {
                    old(self).lookup(k)
                },
    {
        let ghost old_keys = self.keys();
        let ghost old_entries = self.entries@;
        let ghost kv = key@;
        let i = self.position(key.as_str());
        proof {
            lemma_find_key(old_keys, kv, 0);
        }
        if i < self.entries.len() {
            self.entries.set(i, (key, value));
            assert(self.keys() =~= old_keys);
            assert(self.entries@ == old_entries.update(i as int, (self.entries@[i as int].0, value)));
            assert forall|k: Seq<char>|
                #[trigger] self.lookup(k) == if k == kv { Some(value) } else { old(self).lookup(k) } by {
                lemma_find_distinct(old_keys, k);
                lemma_find_key(old_keys, k, 0);
                let j = find_key(old_keys, k, 0);
                if k == kv {
                    assert(j == i);
                } else if j < old_keys.len() {
                    assert(j != i);
                    assert(self.entries@[j] == old_entries[j]);
                }
            }
        } else {
            self.entries.push((key, value));
            let ghost new_keys = self.keys();
            assert(new_keys =~= old_keys.push(kv));
            assert(distinct_keys(new_keys));
            assert forall|k: Seq<char>|
                #[trigger] self.lookup(k) == if k == kv { Some(value) } else { old(self).lookup(k) } by {
                lemma_find_distinct(old_keys, k);
                lemma_find_distinct(new_keys, k);
                lemma_find_key(old_keys, k, 0);
                lemma_find_key(new_keys, k, 0);
                let j = find_key(old_keys, k, 0);
                if k == kv {
                    assert(new_keys[old_keys.len() as int] == kv);
                } else if j < old_keys.len() {
                    assert(new_keys[j] == k);
                    assert(self.entries@[j] == old_entries[j]);
                } else {
                    assert(forall|t: int| 0 <= t < new_keys.len() ==> new_keys[t] != k);
                }
            }
        }
    }

    /// Forgets what was stored under `key`.
    pub fn remove(&mut self, key: &str)
        requires
            old(self).wf(),
        ensures
            final(self).wf(),
            forall|k: Seq<char>|
                #[trigger] final(self).lookup(k) == if k == key@ {
                    None
                } else {
                    old(self).lookup(k)
                },
            forall|k: Seq<char>|
                final(self).key_list().contains(k) <==> (old(self).key_list().contains(k) && k != key@),
    {
        let _ = self.take(key);
    }

    /// Removes what was stored under `key` and hands it back.
    pub fn take(&mut self, key: &str) -> (r: Option<T>)
        requires
            old(self).wf(),
        ensures
            final(self).wf(),
            r == old(self).lookup(key@),
            forall|k: Seq<char>|
                #[trigger] final(self).lookup(k) == if k == key@ {
                    None
                } else {
                    old(self).lookup(k)
                },
            forall|k: Seq<char>|
                final(self).key_list().contains(k) <==> (old(self).key_list().contains(k) && k != key@),
    {
        let ghost old_keys = self.keys();
        let ghost old_entries = self.entries@;
        let i = self.position(key);
        proof {
            lemma_find_key(old_keys, key@, 0);
        }
        if i < self.entries.len() {
            let (_, value) = self.entries.remove(i);
            assert(self.keys() =~= old_keys.remove(i as int));
            let ghost new_keys = self.keys();
            assert(distinct_keys(new_keys));
            assert forall|k: Seq<char>|
                #[trigger] self.lookup(k) == if k == key@ { None } else { old(self).lookup(k) } by {
                lemma_find_distinct(old_keys, k);
                lemma_find_distinct(new_keys, k);
                lemma_find_key(old_keys, k, 0);
                lemma_find_key(new_keys, k, 0);
                let j = find_key(old_keys, k, 0);
                if k != key@ && j < old_keys.len() {
                    let jj = if j < i { j } else { j - 1 };
                    assert(new_keys[jj] == k);
                }
            }
            assert forall|k: Seq<char>|
                self.key_list().contains(k) <==> (old(self).key_list().contains(k) && k != key@) by {
                if self.key_list().contains(k) {
                    let jj = choose|jj: int| 0 <= jj < new_keys.len() && new_keys[jj] == k;
                    let j = if jj < i { jj } else { jj + 1 };
                    assert(old_keys[j] == k);
                }
                if old(self).key_list().contains(k) && k != key@ {
                    let j = choose|j: int| 0 <= j < old_keys.len() && old_keys[j] == k;
                    let jj = if j < i { j } else { j - 1 };
                    assert(new_keys[jj] == k);
                }
            }
            Some(value)
        } else {
            assert forall|k: Seq<char>|
                #[trigger] self.lookup(k) == if k == key@ { None } else { old(self).lookup(k) } by {
                lemma_find_distinct(old_keys, k);
            }
            None
        }
    }
}

} // verus!
