//! A small map from strings to values, kept in insertion order.

use vstd::prelude::*;

verus! {

/// The position of the first key whose characters are `k`, or -1.
pub open spec fn key_index(keys: Seq<String>, k: Seq<char>) -> int
    decreases keys.len(),
{
    if keys.len() == 0 {
        -1
    } else {
        let j = key_index(keys.drop_last(), k);
        if j >= 0 {
            j
        } else if keys.last()@ == k {
            keys.len() - 1
        } else {
            -1
        }
    }
}

/// `key_index` is the first position holding the key, or -1 where none does.
pub proof fn lemma_key_index(keys: Seq<String>, k: Seq<char>)
    ensures
        -1 <= key_index(keys, k) < keys.len(),
        key_index(keys, k) >= 0 ==> keys[key_index(keys, k)]@ == k,
        forall|i: int| 0 <= i < keys.len() && i < key_index(keys, k) ==> keys[i]@ != k,
        key_index(keys, k) == -1 ==> forall|i: int| 0 <= i < keys.len() ==> keys[i]@ != k,
    decreases keys.len(),
{
    if keys.len() > 0 {
        lemma_key_index(keys.drop_last(), k);
        assert forall|i: int| 0 <= i < keys.len() - 1 implies keys.drop_last()[i] == keys[i] by {}
    }
}

/// Appending a key leaves the positions of the other keys as they were.
proof fn lemma_key_index_push(keys: Seq<String>, key: String, k: Seq<char>)
    ensures
        key_index(keys.push(key), k) == if key_index(keys, k) >= 0 {
            key_index(keys, k)
        } else if key@ == k {
            keys.len() as int
        } else {
            -1
        },
{
    assert(keys.push(key).drop_last() =~= keys);
}

/// A map from strings to values.
pub struct StrTable<V> {
    keys: Vec<String>,
    values: Vec<V>,
}

impl<V: DeepView> StrTable<V> {
    /// Keys and values come in pairs.
    pub closed spec fn wf(&self) -> bool {
        self.keys@.len() == self.values@.len()
    }

    /// The map that the table holds.
    pub closed spec fn view(&self) -> Map<Seq<char>, V::V> {
        Map::new(
            |k: Seq<char>| key_index(self.keys@, k) >= 0,
            |k: Seq<char>| self.values@[key_index(self.keys@, k)].deep_view(),
        )
    }

    /// An empty table.
    pub fn new() -> (r: Self)
        ensures
            r.wf(),
            r.view() == Map::<Seq<char>, V::V>::empty(),
    {
        let r = StrTable { keys: Vec::new(), values: Vec::new() };
        assert(r.view() =~= Map::<Seq<char>, V::V>::empty());
        r
    }

    /// The position of a key.
    fn find(&self, k: &String) -> (r: Option<usize>)
        requires
            self.wf(),
        ensures
            r matches Some(i) ==> i == key_index(self.keys@, k@) && i < self.keys@.len(),
            r is None ==> key_index(self.keys@, k@) == -1,
    {
        proof {
            lemma_key_index(self.keys@, k@);
        }
        let mut i: usize = 0;
        while i < self.keys.len()
            invariant
                i <= self.keys@.len(),
                forall|j: int| 0 <= j < i ==> self.keys@[j]@ != k@,
                -1 <= key_index(self.keys@, k@) < self.keys@.len(),
                key_index(self.keys@, k@) >= 0 ==> self.keys@[key_index(self.keys@, k@)]@ == k@,
                key_index(self.keys@, k@) == -1 ==> forall|j: int|
                    0 <= j < self.keys@.len() ==> self.keys@[j]@ != k@,
                forall|j: int|
                    0 <= j < self.keys@.len() && j < key_index(self.keys@, k@) ==> self.keys@[j]@
                        != k@,
            decreases self.keys@.len() - i,
        {
            if self.keys[i] == *k {
                return Some(i);
            }
            i += 1;
        }
        None
    }

    /// Whether the table has a value for `k`.
    pub fn contains_key(&self, k: &String) -> (r: bool)
        requires
            self.wf(),
        ensures
            r == self.view().contains_key(k@),
    {
        self.find(k).is_some()
    }

    /// The value for `k`.
    pub fn get(&self, k: &String) -> (r: Option<&V>)
        requires
            self.wf(),
        ensures
            r matches Some(v) ==> self.view().contains_key(k@) && v.deep_view() == self.view()[k@],
            r is None ==> !self.view().contains_key(k@),
    {
        match self.find(k) {
            Some(i) => Some(&self.values[i]),
            None => None,
        }
    }

    /// Sets the value for `k`, in place where `k` is present, else at the end.
    pub fn insert(&mut self, k: String, v: V)
        requires
            old(self).wf(),
        ensures
            final(self).wf(),
            final(self).view() == old(self).view().insert(k@, v.deep_view()),
    {
        let ghost old_view = self.view();
        let ghost kv = k@;
        let ghost vv = v.deep_view();
        match self.find(&k) {
            Some(i) => {
                let ghost keys = self.keys@;
                self.values.set(i, v);
                proof {
                    lemma_key_index(keys, kv);
                    assert forall|key: Seq<char>| #[trigger]
                        self.view().contains_key(key) == old_view.insert(kv, vv).contains_key(key)
                        by {}
                    assert forall|key: Seq<char>| #[trigger] self.view().contains_key(key)
                        implies self.view()[key] == old_view.insert(kv, vv)[key] by {
                        lemma_key_index(keys, key);
                        if key != kv {
                            assert(key_index(keys, key) != i);
                        }
                    }
                    assert(self.view() =~= old_view.insert(kv, vv));
                }
            },
            None => {
                let ghost keys = self.keys@;
                let ghost values = self.values@;
                self.keys.push(k);
                self.values.push(v);
                proof {
                    assert forall|key: Seq<char>| #[trigger]
                        self.view().contains_key(key) == old_view.insert(kv, vv).contains_key(key)
                        by {
                        lemma_key_index_push(keys, self.keys@.last(), key);
                        assert(keys.push(self.keys@.last()) =~= self.keys@);
                    }
                    assert forall|key: Seq<char>| #[trigger] self.view().contains_key(key)
                        implies self.view()[key] == old_view.insert(kv, vv)[key] by {
                        lemma_key_index_push(keys, self.keys@.last(), key);
                        assert(keys.push(self.keys@.last()) =~= self.keys@);
                        lemma_key_index(keys, key);
                    }
                    assert(self.view() =~= old_view.insert(kv, vv));
                }
            },
        }
    }
}

} // verus!
