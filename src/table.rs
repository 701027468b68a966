//! A small string-keyed table: inserting an existing key replaces its value.

use vstd::prelude::*;

verus! {

/// The value of the first entry whose key is `k`.
pub open spec fn lookup<V>(s: Seq<(String, V)>, k: Seq<char>) -> Option<V>
    decreases s.len(),
{
    if s.len() == 0 {
        None
    } else if s[0].0@ == k {
        Some(s[0].1)
    } else {
        lookup(s.drop_first(), k)
    }
}

proof fn lemma_lookup_push<V>(s: Seq<(String, V)>, e: (String, V), k: Seq<char>)
    requires
        lookup(s, e.0@) is None,
    ensures
        lookup(s.push(e), k) == if k == e.0@ {
            Some(e.1)
        } else {
            lookup(s, k)
        },
    decreases s.len(),
{
    if s.len() == 0 {
        assert(s.push(e).drop_first() =~= s);
    } else {
        assert(s.push(e).drop_first() =~= s.drop_first().push(e));
        assert(s[0].0@ != e.0@);
        assert(s.push(e)[0] == s[0]);
        if s[0].0@ != k {
            lemma_lookup_push(s.drop_first(), e, k);
        }
    }
}

proof fn lemma_lookup_replace<V>(s: Seq<(String, V)>, i: int, e: (String, V), k: Seq<char>)
    requires
        0 <= i < s.len(),
        s[i].0@ == e.0@,
        forall|j: int| 0 <= j < i ==> s[j].0@ != e.0@,
    ensures
        lookup(s.update(i, e), k) == if k == e.0@ {
            Some(e.1)
        } else {
            lookup(s, k)
        },
    decreases s.len(),
{
    if i > 0 {
        assert(s.update(i, e).drop_first() =~= s.drop_first().update(i - 1, e));
        assert(s[0].0@ != e.0@);
        if s[0].0@ != k {
            lemma_lookup_replace(s.drop_first(), i - 1, e, k);
        }
    } else {
        assert(s.update(i, e).drop_first() =~= s.drop_first());
    }
}

/// A map from string keys to values, kept as a list of entries.
pub struct KeyedTable<V> {
    entries: Vec<(String, V)>,
}

impl<V> View for KeyedTable<V> {
    type V = Map<Seq<char>, V>;

    closed spec fn view(&self) -> Map<Seq<char>, V> {
        Map::new(
            |k: Seq<char>| lookup(self.entries@, k) is Some,
            |k: Seq<char>| lookup(self.entries@, k)->Some_0,
        )
    }
}

impl<V> KeyedTable<V> {
    /// An empty table.
    pub fn new() -> (r: Self)
        ensures
            r@ == Map::<Seq<char>, V>::empty(),
    {
        let r = KeyedTable { entries: Vec::new() };
        assert(r@ =~= Map::<Seq<char>, V>::empty());
        r
    }

    /// Sets `key` to `value`, replacing an earlier value of `key`.
    pub fn insert(&mut self, key: String, value: V)
        ensures
            final(self)@ == old(self)@.insert(key@, value),
    {
        let ghost old_entries = self.entries@;
        let mut i: usize = 0;
        while i < self.entries.len()
            invariant
                i <= self.entries@.len(),
                self.entries@ == old_entries,
                old(self).entries@ == old_entries,
                forall|j: int| 0 <= j < i ==> self.entries@[j].0@ != key@,
            decreases self.entries@.len() - i,
        {
            if self.entries[i].0 == key {
                let ghost e = (key, value);
                proof {
                    assert forall|k: Seq<char>| lookup(old_entries.update(i as int, e), k) == (if k
                        == key@ {
                        Some(value)
                    } else {
                        lookup(old_entries, k)
                    }) by {
                        lemma_lookup_replace(old_entries, i as int, e, k);
                    }
                }
                self.entries.set(i, (key, value));
                assert(self.entries@ == old_entries.update(i as int, e));
                assert forall|k: Seq<char>| #[trigger]
                    lookup(self.entries@, k) == (if k == key@ {
                        Some(value)
                    } else {
                        lookup(old_entries, k)
                    }) by {
                        lemma_lookup_replace(old_entries, i as int, e, k);
                    }
                assert(old(self).entries@ == old_entries);
                assert(self@ =~= old(self)@.insert(key@, value));
                return;
            }
            i = i + 1;
        }
        proof {
            assert(lookup(old_entries, key@) is None) by {
                lemma_absent(old_entries, key@);
            }
            assert forall|k: Seq<char>| lookup(old_entries.push((key, value)), k) == (if k == key@ {
                Some(value)
            } else {
                lookup(old_entries, k)
            }) by {
                lemma_lookup_push(old_entries, (key, value), k);
            }
        }
        self.entries.push((key, value));
        assert forall|k: Seq<char>| #[trigger]
            lookup(self.entries@, k) == (if k == key@ {
                Some(value)
            } else {
                lookup(old_entries, k)
            }) by {
                lemma_lookup_push(old_entries, (key, value), k);
            }
        assert(self@ =~= old(self)@.insert(key@, value));
    }

    /// The value of `key`, if it is present.
    pub fn get(&self, key: &String) -> (r: Option<&V>)
        ensures
            r is Some <==> self@.contains_key(key@),
            r matches Some(v) ==> *v == self@[key@],
    {
        let mut i: usize = 0;
        assert(self.entries@.subrange(0, self.entries@.len() as int) =~= self.entries@);
        while i < self.entries.len()
            invariant
                i <= self.entries@.len(),
                lookup(self.entries@, key@) == lookup(self.entries@.subrange(i as int, self.entries@.len() as int), key@),
            decreases self.entries@.len() - i,
        {
            let ghost rest = self.entries@.subrange(i as int, self.entries@.len() as int);
            assert(rest.drop_first() =~= self.entries@.subrange(i + 1, self.entries@.len() as int));
            if self.entries[i].0 == *key {
                return Some(&self.entries[i].1);
            }
            i = i + 1;
        }
        None
    }
}

proof fn lemma_absent<V>(s: Seq<(String, V)>, k: Seq<char>)
    requires
        forall|j: int| 0 <= j < s.len() ==> s[j].0@ != k,
    ensures
        lookup(s, k) is None,
    decreases s.len(),
{
    if s.len() > 0 {
        lemma_absent(s.drop_first(), k);
    }
}

} // verus!
