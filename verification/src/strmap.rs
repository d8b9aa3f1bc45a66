use vstd::prelude::*;
use crate::text::str_eq;

verus! {

/// A map keyed by strings, kept as a list of entries in insertion order.
///
/// Lookups compare keys character by character; no key occurs twice.
pub struct StrMap<V> {
    entries: Vec<(String, V)>,
}

impl<V> StrMap<V> {
    /// The keys, in the order in which they were first inserted.
    pub closed spec fn key_list(self) -> Seq<Seq<char>> {
        self.entries@.map_values(|e: (String, V)| e.0@)
    }

    /// The values, aligned with `key_list`.
    pub closed spec fn value_list(self) -> Seq<V> {
        self.entries@.map_values(|e: (String, V)| e.1)
    }

    /// No key occurs twice.
    pub closed spec fn wf(self) -> bool {
        self.key_list().no_duplicates()
    }

    /// Facts about the entry lists that hold of every map.
    pub proof fn lemma_lists(self)
        ensures
            self.key_list().len() == self.value_list().len(),
            self.wf() ==> self.key_list().no_duplicates(),
            self.wf() ==> forall|k: Seq<char>| #[trigger]
                self@.dom().contains(k) <==> self.key_list().contains(k),
            self.wf() ==> forall|i: int|
                0 <= i < self.key_list().len() ==> #[trigger] self@[self.key_list()[i]]
                    == self.value_list()[i],
    {
        if self.wf() {
            assert forall|i: int| 0 <= i < self.key_list().len() implies #[trigger] self@[self.key_list()[i]]
                == self.value_list()[i] by {
                self.lemma_value_at(i);
            }
        }
    }

    proof fn lemma_value_at(self, i: int)
        requires
            self.wf(),
            0 <= i < self.key_list().len(),
        ensures
            self@.dom().contains(self.key_list()[i]),
            self@[self.key_list()[i]] == self.value_list()[i],
    {
        let k = self.key_list()[i];
        assert(self.key_list().contains(k));
        let j = self.key_list().index_of(k);
        assert(self.key_list()[j] == k);
    }

    /// An empty map.
    pub fn new() -> (m: Self)
        ensures
            m.wf(),
            m@ == Map::<Seq<char>, V>::empty(),
            m.key_list() == Seq::<Seq<char>>::empty(),
    {
        let m = StrMap { entries: Vec::new() };
        assert(m.key_list() =~= Seq::<Seq<char>>::empty());
        assert(m@ =~= Map::<Seq<char>, V>::empty());
        m
    }

    /// The number of entries.
    pub fn len(&self) -> (n: usize)
        ensures
            n == self.key_list().len(),
    {
        self.entries.len()
    }

    /// The key of the `i`-th entry.
    pub fn key_at(&self, i: usize) -> (k: &String)
        requires
            i < self.key_list().len(),
        ensures
            k@ == self.key_list()[i as int],
    {
        &self.entries[i].0
    }

    /// The value of the `i`-th entry.
    pub fn value_at(&self, i: usize) -> (v: &V)
        requires
            i < self.key_list().len(),
        ensures
            *v == self.value_list()[i as int],
    {
        &self.entries[i].1
    }

    /// The position of `k` among the entries.
    pub fn index_of(&self, k: &str) -> (r: Option<usize>)
        requires
            self.wf(),
        ensures
            r matches Some(i) ==> i < self.key_list().len() && self.key_list()[i as int] == k@,
            r is None <==> !self@.dom().contains(k@),
    {
        proof {
            self.lemma_lists();
        }
        let mut i: usize = 0;
        while i < self.entries.len()
            invariant
                i <= self.entries.len(),
                forall|j: int| 0 <= j < i ==> self.key_list()[j] != k@,
            decreases self.entries.len() - i,
        {
            if str_eq(self.entries[i].0.as_str(), k) {
                assert(self.key_list()[i as int] == k@);
                assert(self.key_list().contains(k@));
                return Some(i);
            }
            i += 1;
        }
        None
    }

    /// Whether `k` has an entry.
    pub fn contains_key(&self, k: &str) -> (b: bool)
        requires
            self.wf(),
        ensures
            b == self@.dom().contains(k@),
    {
        self.index_of(k).is_some()
    }

    /// The value stored under `k`, if any.
    pub fn get(&self, k: &str) -> (r: Option<&V>)
        requires
            self.wf(),
        ensures
            r is Some <==> self@.dom().contains(k@),
            r matches Some(v) ==> *v == self@[k@],
    {
        proof {
            self.lemma_lists();
        }
        match self.index_of(k) {
            Some(i) => Some(&self.entries[i].1),
            None => None,
        }
    }

    /// Replaces the value of the `i`-th entry.
    pub fn set_at(&mut self, i: usize, v: V)
        requires
            old(self).wf(),
            i < old(self).key_list().len(),
        ensures
            final(self).wf(),
            final(self).key_list() == old(self).key_list(),
            final(self).value_list() == old(self).value_list().update(i as int, v),
            final(self)@ == old(self)@.insert(old(self).key_list()[i as int], v),
    {
        let k = self.entries[i].0.clone();
        let ghost old_self = *self;
        self.entries.set(i, (k, v));
        proof {
            assert(self.key_list() =~= old_self.key_list());
            assert(self.value_list() =~= old_self.value_list().update(i as int, v));
            old_self.lemma_lists();
            self.lemma_lists();
            assert forall|key: Seq<char>| #[trigger] self@.dom().contains(key) implies self@[key]
                == old_self@.insert(old_self.key_list()[i as int], v)[key] by {
                let j = self.key_list().index_of(key);
                assert(self.key_list()[j] == key);
            }
            assert(self@ =~= old_self@.insert(old_self.key_list()[i as int], v));
        }
    }

    /// Stores `v` under `k`, replacing any earlier value; a new key goes last.
    pub fn insert(&mut self, k: String, v: V)
        requires
            old(self).wf(),
        ensures
            final(self).wf(),
            final(self)@ == old(self)@.insert(k@, v),
            old(self)@.dom().contains(k@) ==> final(self).key_list() == old(self).key_list(),
            !old(self)@.dom().contains(k@) ==> final(self).key_list() == old(self).key_list().push(
                k@,
            ),
    {
        match self.index_of(k.as_str()) {
            Some(i) => {
                self.set_at(i, v);
            },
            None => {
                let ghost old_self = *self;
                let ghost kv = k@;
                self.entries.push((k, v));
                proof {
                    old_self.lemma_lists();
                    assert(self.key_list() =~= old_self.key_list().push(kv));
                    assert(self.value_list() =~= old_self.value_list().push(v));
                    assert(self.wf());
                    self.lemma_lists();
                    assert forall|key: Seq<char>| #[trigger] self@.dom().contains(key) implies self@[key]
                        == old_self@.insert(kv, v)[key] by {
                        let j = self.key_list().index_of(key);
                        assert(self.key_list()[j] == key);
                        if key != kv {
                            assert(old_self.key_list()[j] == key);
                        }
                    }
                    assert forall|key: Seq<char>| #[trigger] old_self@.dom().contains(key) implies self@.dom().contains(key) by {
                        let j = old_self.key_list().index_of(key);
                        assert(old_self.key_list()[j] == key);
                        assert(self.key_list()[j] == key);
                    }
                    assert forall|key: Seq<char>| #[trigger] self@.dom().contains(key) implies old_self@.insert(kv, v).dom().contains(key) by {
                        let j = self.key_list().index_of(key);
                        assert(self.key_list()[j] == key);
                        if key != kv {
                            assert(old_self.key_list()[j] == key);
                        }
                    }
                    assert(self.key_list()[old_self.key_list().len() as int] == kv);
                    assert(self@.dom().contains(kv));
                    assert(self@.dom() =~= old_self@.insert(kv, v).dom());
                    assert(self@ =~= old_self@.insert(kv, v));
                }
            },
        }
    }

    /// Removes the `i`-th entry and hands it back.
    pub fn remove_at(&mut self, i: usize) -> (e: (String, V))
        requires
            old(self).wf(),
            i < old(self).key_list().len(),
        ensures
            final(self).wf(),
            e.0@ == old(self).key_list()[i as int],
            e.1 == old(self).value_list()[i as int],
            final(self).key_list() == old(self).key_list().remove(i as int),
            final(self).value_list() == old(self).value_list().remove(i as int),
            final(self)@ == old(self)@.remove(e.0@),
    {
        let ghost old_self = *self;
        let e = self.entries.remove(i);
        proof {
            old_self.lemma_lists();
            assert(self.key_list() =~= old_self.key_list().remove(i as int));
            assert(self.value_list() =~= old_self.value_list().remove(i as int));
            assert forall|a: int, b: int|
                0 <= a < self.key_list().len() && 0 <= b < self.key_list().len() && a != b
                implies self.key_list()[a] != self.key_list()[b] by {
                let oa = if a < i { a } else { a + 1 };
                let ob = if b < i { b } else { b + 1 };
                assert(self.key_list()[a] == old_self.key_list()[oa]);
                assert(self.key_list()[b] == old_self.key_list()[ob]);
            }
            self.lemma_lists();
            let kv = old_self.key_list()[i as int];
            assert forall|key: Seq<char>| #[trigger] self@.dom().contains(key) implies self@[key]
                == old_self@[key] by {
                let j = self.key_list().index_of(key);
                assert(self.key_list()[j] == key);
                let oj = if j < i { j } else { j + 1 };
                assert(old_self.key_list()[oj] == key);
            }
            assert forall|key: Seq<char>|
                #[trigger] old_self@.dom().contains(key) && key != kv implies self@.dom().contains(
                key,
            ) by {
                let oj = old_self.key_list().index_of(key);
                assert(old_self.key_list()[oj] == key);
                let j = if oj < i { oj } else { oj - 1 };
                assert(self.key_list()[j] == key);
            }
            assert(!self@.dom().contains(kv)) by {
                if self@.dom().contains(kv) {
                    let j = self.key_list().index_of(kv);
                    let oj = if j < i { j } else { j + 1 };
                    assert(old_self.key_list()[oj] == kv);
                }
            }
            assert(self@ =~= old_self@.remove(kv));
        }
        e
    }
}

impl<V> View for StrMap<V> {
    type V = Map<Seq<char>, V>;

    closed spec fn view(&self) -> Map<Seq<char>, V> {
        Map::new(
            |k: Seq<char>| self.key_list().contains(k),
            |k: Seq<char>| self.value_list()[self.key_list().index_of(k)],
        )
    }
}

} // verus!
