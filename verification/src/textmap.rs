//! A table keyed by text, kept as a list of entries whose keys all differ.

use vstd::prelude::*;
use crate::text::same;

verus! {

/// A finite map from texts to values.
pub struct TextMap<V> {
    keys: Vec<Vec<char>>,
    values: Vec<V>,
}

/// Whether `key` stands at position `i` of `keys`.
pub open spec fn key_at(keys: Seq<Vec<char>>, key: Seq<char>, i: int) -> bool {
    0 <= i < keys.len() && keys[i]@ == key
}

/// A position of `key` in `keys`, where there is one.
pub open spec fn position_of(keys: Seq<Vec<char>>, key: Seq<char>) -> int {
    choose|i: int| key_at(keys, key, i)
}

/// Whether no two positions of `keys` hold the same text.
pub open spec fn distinct(keys: Seq<Vec<char>>) -> bool {
    forall|i: int, j: int|
        0 <= i < keys.len() && 0 <= j < keys.len() && (#[trigger] keys[i])@ == (
        #[trigger] keys[j])@ ==> i == j
}

impl<V> View for TextMap<V> {
    type V = Map<Seq<char>, V>;

    closed spec fn view(&self) -> Map<Seq<char>, V> {
        Map::new(
            |key: Seq<char>| exists|i: int| key_at(self.keys@, key, i),
            |key: Seq<char>| self.values@[position_of(self.keys@, key)],
        )
    }
}

impl<V> TextMap<V> {
    #[verifier::type_invariant]
    spec fn well_formed(&self) -> bool {
        &&& self.keys@.len() == self.values@.len()
        &&& distinct(self.keys@)
    }

    /// The empty map.
    pub fn new() -> (map: Self)
        ensures
            map@ == Map::<Seq<char>, V>::empty(),
    {
        let map = TextMap { keys: Vec::new(), values: Vec::new() };
        assert(map@ =~= Map::<Seq<char>, V>::empty());
        map
    }

    /// The number of entries.
    pub fn len(&self) -> (n: usize)
        ensures
            n == self@.dom().len(),
            self@.dom().finite(),
    {
        proof {
            use_type_invariant(self);
            lemma_domain_len(self.keys@, self@.dom());
        }
        self.keys.len()
    }

    /// The position of the entry of `key`, if there is one.
    fn find(&self, key: &Vec<char>) -> (at: Option<usize>)
        ensures
            match at {
                Some(i) => key_at(self.keys@, key@, i as int) && i < self.values@.len(),
                None => forall|i: int| !key_at(self.keys@, key@, i),
            },
    {
        proof {
            use_type_invariant(self);
        }
        let mut i: usize = 0;
        while i < self.keys.len()
            invariant
                i <= self.keys.len(),
                self.keys@.len() == self.values@.len(),
                forall|k: int| 0 <= k < i ==> !key_at(self.keys@, key@, k),
            decreases self.keys.len() - i,
        {
            if same(&self.keys[i], key) {
                return Some(i);
            }
            i = i + 1;
        }
        None
    }

    /// Whether `key` has an entry.
    pub fn contains_key(&self, key: &Vec<char>) -> (found: bool)
        ensures
            found == self@.contains_key(key@),
    {
        self.find(key).is_some()
    }

    /// The value of `key`, if it has one.
    pub fn get(&self, key: &Vec<char>) -> (value: Option<&V>)
        ensures
            match value {
                Some(v) => self@.contains_key(key@) && *v == self@[key@],
                None => !self@.contains_key(key@),
            },
    {
        proof {
            use_type_invariant(self);
        }
        match self.find(key) {
            Some(i) => {
                assert(key_at(self.keys@, key@, position_of(self.keys@, key@)));
                Some(&self.values[i])
            },
            None => None,
        }
    }

    /// The map in which `key` has the value `value`, in place of the one it
    /// had, if any, and every other key has what it had.
    pub fn insert(self, key: Vec<char>, value: V) -> (map: Self)
        ensures
            map@ == self@.insert(key@, value),
    {
        proof {
            use_type_invariant(&self);
        }
        let found = self.find(&key);
        let ghost before = self;
        let TextMap { mut keys, mut values } = self;
        match found {
            Some(i) => {
                values.set(i, value);
                let map = TextMap { keys, values };
                proof {
                    assert forall|k: Seq<char>| #[trigger]
                        map@.contains_key(k) implies map@[k] == before@.insert(key@, value)[k] by {
                        let at = position_of(map.keys@, k);
                        assert(key_at(map.keys@, k, at));
                    }
                    assert(map@ =~= before@.insert(key@, value));
                }
                map
            },
            None => {
                keys.push(key);
                values.push(value);
                proof {
                    let last = before.keys@.len() as int;
                    assert forall|i: int, j: int|
                        0 <= i < keys@.len() && 0 <= j < keys@.len() && (#[trigger] keys@[i])@ == (
                        #[trigger] keys@[j])@ implies i == j by {
                        if i == last && j != last {
                            assert(key_at(before.keys@, key@, j));
                        }
                        if j == last && i != last {
                            assert(key_at(before.keys@, key@, i));
                        }
                        if i != last && j != last {
                            assert(before.keys@[i]@ == before.keys@[j]@);
                        }
                    }
                }
                let map = TextMap { keys, values };
                proof {
                    let last = before.keys@.len() as int;
                    assert(key_at(map.keys@, key@, last));
                    assert forall|k: Seq<char>|
                        before@.insert(key@, value).contains_key(k) implies #[trigger]
                        map@.contains_key(k) by {
                        if k != key@ {
                            let at = position_of(before.keys@, k);
                            assert(key_at(before.keys@, k, at));
                            assert(key_at(map.keys@, k, at));
                        }
                    }
                    assert forall|k: Seq<char>| #[trigger]
                        map@.contains_key(k) implies before@.insert(key@, value).contains_key(k)
                        && map@[k] == before@.insert(key@, value)[k] by {
                        let at = position_of(map.keys@, k);
                        assert(key_at(map.keys@, k, at));
                        if at < last {
                            assert(key_at(before.keys@, k, at));
                            let was = position_of(before.keys@, k);
                            assert(key_at(before.keys@, k, was));
                            assert(key_at(map.keys@, k, was));
                        }
                    }
                    assert(map@ =~= before@.insert(key@, value));
                }
                map
            },
        }
    }
}

/// A list of distinct keys has as many positions as the set of its texts has
/// members.
pub proof fn lemma_domain_len(keys: Seq<Vec<char>>, domain: Set<Seq<char>>)
    requires
        distinct(keys),
        forall|key: Seq<char>| domain.contains(key) <==> exists|i: int| key_at(keys, key, i),
    ensures
        domain.finite(),
        domain.len() == keys.len(),
    decreases keys.len(),
{
    if keys.len() == 0 {
        assert(domain =~= Set::<Seq<char>>::empty());
    } else {
        let shorter = keys.drop_last();
        let last = keys.last()@;
        let rest = domain.remove(last);
        assert(key_at(keys, last, keys.len() - 1));
        assert forall|key: Seq<char>| rest.contains(key) <==> exists|i: int|
            key_at(shorter, key, i) by {
            if rest.contains(key) {
                let i = choose|i: int| key_at(keys, key, i);
                assert(key_at(shorter, key, i));
            }
            if exists|i: int| key_at(shorter, key, i) {
                let i = choose|i: int| key_at(shorter, key, i);
                assert(key_at(keys, key, i));
            }
        }
        lemma_domain_len(shorter, rest);
        assert(domain =~= rest.insert(last));
    }
}

} // verus!
