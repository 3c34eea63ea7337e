//! An open, string-keyed mapping of tags, as carried by nodes and ways.

use crate::text::same_text;
use vstd::prelude::*;

verus! {

/// One key with its value.
#[derive(Debug)]
pub struct Tag {
    pub key: String,
    pub value: String,
}

/// A mapping from keys to values in which no key occurs twice. Entries keep
/// the order in which their keys first arrived.
#[derive(Debug)]
pub struct Tags {
    entries: Vec<Tag>,
}

/// The keys of a list of entries, in order.
pub open spec fn keys_of(entries: Seq<Tag>) -> Seq<Seq<char>> {
    Seq::new(entries.len(), |i: int| entries[i].key@)
}

impl View for Tags {
    type V = Map<Seq<char>, Seq<char>>;

    closed spec fn view(&self) -> Map<Seq<char>, Seq<char>> {
        Map::new(
            |k: Seq<char>| keys_of(self.entries@).contains(k),
            |k: Seq<char>| self.entries@[keys_of(self.entries@).index_of(k)].value@,
        )
    }
}

impl Tags {
    #[verifier::type_invariant]
    spec fn distinct_keys(&self) -> bool {
        keys_of(self.entries@).no_duplicates()
    }

    /// The entries as pairs of key and value, in order.
    pub closed spec fn pairs(&self) -> Seq<(Seq<char>, Seq<char>)> {
        Seq::new(self.entries@.len(), |i: int| (self.entries@[i].key@, self.entries@[i].value@))
    }

    /// An empty mapping.
    pub fn new() -> (r: Tags)
        ensures
            r@ == Map::<Seq<char>, Seq<char>>::empty(),
            r.pairs().len() == 0,
    {
        let r = Tags { entries: Vec::new() };
        assert(r@ =~= Map::<Seq<char>, Seq<char>>::empty());
        r
    }

    /// Number of entries. Every pair is an entry of the mapping, every entry
    /// is a pair, and no key stands in two pairs.
    pub fn len(&self) -> (r: usize)
        ensures
            r == self.pairs().len(),
            r == self@.dom().len(),
            self@.dom().finite(),
            forall|i: int|
                0 <= i < self.pairs().len() ==> self@.contains_key(#[trigger] self.pairs()[i].0)
                    && self@[self.pairs()[i].0] == self.pairs()[i].1,
            forall|k: Seq<char>| #[trigger]
                self@.contains_key(k) ==> exists|i: int|
                    0 <= i < self.pairs().len() && self.pairs()[i].0 == k,
            forall|i: int, j: int|
                0 <= i < j < self.pairs().len() ==> self.pairs()[i].0 != self.pairs()[j].0,
    {
        proof {
            use_type_invariant(self);
            let keys = keys_of(self.entries@);
            keys.unique_seq_to_set();
            assert(self@.dom() =~= keys.to_set());
            assert forall|i: int| 0 <= i < self.pairs().len() implies self@.contains_key(
                #[trigger] self.pairs()[i].0,
            ) && self@[self.pairs()[i].0] == self.pairs()[i].1 by {
                assert(keys[i] == self.pairs()[i].0);
                let j = keys.index_of(keys[i]);
                assert(keys[j] == keys[i]);
            }
            assert forall|k: Seq<char>| #[trigger] self@.contains_key(k) implies exists|i: int|
                0 <= i < self.pairs().len() && self.pairs()[i].0 == k by {
                let i = keys.index_of(k);
                assert(self.pairs()[i].0 == k);
            }
            assert forall|i: int, j: int| 0 <= i < j < self.pairs().len() implies self.pairs()[i].0
                != self.pairs()[j].0 by {
                assert(keys[i] != keys[j]);
            }
        }
        self.entries.len()
    }

    /// The key of the entry at `index`.
    pub fn key_at(&self, index: usize) -> (r: &String)
        requires
            index < self.pairs().len(),
        ensures
            r@ == self.pairs()[index as int].0,
    {
        &self.entries[index].key
    }

    /// The value of the entry at `index`.
    pub fn value_at(&self, index: usize) -> (r: &String)
        requires
            index < self.pairs().len(),
        ensures
            r@ == self.pairs()[index as int].1,
    {
        &self.entries[index].value
    }

    /// Tells whether there is no entry.
    pub fn is_empty(&self) -> (r: bool)
        ensures
            r == (self@.dom().len() == 0),
            r == (self@ == Map::<Seq<char>, Seq<char>>::empty()),
            self@.dom().finite(),
    {
        let n = self.len();
        proof {
            if n == 0 {
                assert(self@ =~= Map::<Seq<char>, Seq<char>>::empty());
            }
        }
        n == 0
    }

    /// Position of `key` among the entries.
    fn position(&self, key: &str) -> (r: Option<usize>)
        ensures
            match r {
                Some(i) => i < self.entries@.len() && self.entries@[i as int].key@ == key@,
                None => !keys_of(self.entries@).contains(key@),
            },
    {
        let mut i: usize = 0;
        while i < self.entries.len()
            invariant
                i <= self.entries@.len(),
                forall|j: int| 0 <= j < i ==> self.entries@[j].key@ != key@,
            decreases self.entries@.len() - i,
        {
            if same_text(self.entries[i].key.as_str(), key) {
                return Some(i);
            }
            i += 1;
        }
        proof {
            let keys = keys_of(self.entries@);
            if keys.contains(key@) {
                let j = keys.index_of(key@);
                assert(keys[j] == key@);
                assert(self.entries@[j].key@ == key@);
            }
        }
        None
    }

    /// The value stored under `key`, if any.
    pub fn get(&self, key: &str) -> (r: Option<&String>)
        ensures
            match r {
                Some(v) => self@.contains_key(key@) && self@[key@] == v@,
                None => !self@.contains_key(key@),
            },
    {
        match self.position(key) {
            Some(i) => {
                proof {
                    use_type_invariant(self);
                    let keys = keys_of(self.entries@);
                    assert(keys[i as int] == key@);
                    let j = keys.index_of(key@);
                    assert(keys[j] == key@);
                }
                Some(&self.entries[i].value)
            },
            None => None,
        }
    }

    /// Tells whether `key` has a value.
    pub fn contains_key(&self, key: &str) -> (r: bool)
        ensures
            r == self@.contains_key(key@),
    {
        self.get(key).is_some()
    }

    /// Stores `value` under `key`, replacing the value that was there.
    pub fn insert(&mut self, key: String, value: String)
        ensures
            final(self)@ == old(self)@.insert(key@, value@),
    {
        proof {
            use_type_invariant(&*self);
        }
        let ghost before = self.entries@;
        let ghost old_keys = keys_of(before);
        let found = self.position(key.as_str());
        let mut taken = Tags { entries: Vec::new() };
        core::mem::swap(self, &mut taken);
        let mut entries = taken.entries;
        match found {
            Some(i) => {
                let ghost k = key@;
                let ghost v = value@;
                entries.set(i, Tag { key, value });
                proof {
                    assert(keys_of(entries@) =~= old_keys);
                }
                *self = Tags { entries };
                proof {
                    let keys = keys_of(self.entries@);
                    assert(keys =~= old_keys);
                    assert(old_keys[i as int] == k);
                    assert forall|x: Seq<char>| old_keys.contains(x) implies (if x == k {
                        self.entries@[keys.index_of(x)].value@ == v
                    } else {
                        self.entries@[keys.index_of(x)].value@ == before[old_keys.index_of(x)].value@
                    }) by {
                        let j = keys.index_of(x);
                        assert(keys[j] == x);
                    }
                    assert(self@ =~= old(self)@.insert(k, v));
                }
            },
            None => {
                let ghost k = key@;
                let ghost v = value@;
                entries.push(Tag { key, value });
                proof {
                    assert(keys_of(entries@) =~= old_keys.push(k));
                }
                *self = Tags { entries };
                proof {
                    let keys = keys_of(self.entries@);
                    assert(keys =~= old_keys.push(k));
                    assert forall|x: Seq<char>| keys.contains(x) implies (if x == k {
                        self.entries@[keys.index_of(x)].value@ == v
                    } else {
                        old_keys.contains(x) && self.entries@[keys.index_of(x)].value@
                            == before[old_keys.index_of(x)].value@
                    }) by {
                        let j = keys.index_of(x);
                        assert(keys[j] == x);
                        if x != k {
                            assert(old_keys[j] == x);
                            let j2 = old_keys.index_of(x);
                            assert(old_keys[j2] == x);
                            assert(keys[j2] == x);
                        }
                    }
                    assert(keys[old_keys.len() as int] == k);
                    assert forall|x: Seq<char>| old_keys.contains(x) implies keys.contains(x) by {
                        let j = old_keys.index_of(x);
                        assert(keys[j] == x);
                    }
                    assert(self@ =~= old(self)@.insert(k, v));
                }
            },
        }
    }
}

} // verus!
