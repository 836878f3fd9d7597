//! A map from texts to values that remembers the order of insertion.
use vstd::prelude::*;

verus! {

/// The position of the entry for `key`, where there is one.
pub open spec fn key_index(keys: Seq<String>, key: Seq<char>) -> int {
    choose|i: int| 0 <= i < keys.len() && (#[trigger] keys[i])@ == key
}

/// A map from texts to values, in insertion order.
#[derive(Debug)]
pub struct TextMap<V> {
    /// The keys, each once.
    pub keys: Vec<String>,
    /// The value of each key.
    pub values: Vec<V>,
}

impl<V> View for TextMap<V> {
    type V = Map<Seq<char>, V>;

    open spec fn view(&self) -> Map<Seq<char>, V> {
        Map::new(
            |key: Seq<char>| crate::text::holds_text(self.keys@, key),
            |key: Seq<char>| self.values@[key_index(self.keys@, key)],
        )
    }
}

impl<V> TextMap<V> {
    /// Keys are distinct and each has a value.
    pub open spec fn wf(&self) -> bool {
        &&& self.keys@.len() == self.values@.len()
        &&& forall|i: int, j: int|
            0 <= i < j < self.keys@.len() ==> (#[trigger] self.keys@[i])@ != (
            #[trigger] self.keys@[j])@
    }

    /// An entry is what the map holds under its key.
    pub proof fn lemma_entry(&self, i: int)
        requires
            self.wf(),
            0 <= i < self.keys@.len(),
        ensures
            self@.contains_key(self.keys@[i]@),
            self@[self.keys@[i]@] == self.values@[i],
            key_index(self.keys@, self.keys@[i]@) == i,
    {
        let key = self.keys@[i]@;
        assert(crate::text::holds_text(self.keys@, key));
        let k = key_index(self.keys@, key);
        assert(0 <= k < self.keys@.len() && self.keys@[k]@ == key);
    }

    /// The empty map.
    pub fn new() -> (r: TextMap<V>)
        ensures
            r.wf(),
            r@ == Map::<Seq<char>, V>::empty(),
    {
        let r: TextMap<V> = TextMap { keys: Vec::new(), values: Vec::new() };
        assert(r@ =~= Map::<Seq<char>, V>::empty());
        r
    }

    /// The position of the entry for `key`.
    pub fn find(&self, key: &String) -> (r: Option<usize>)
        requires
            self.wf(),
        ensures
            match r {
                Some(i) => {
                    &&& i < self.keys@.len()
                    &&& self.keys@[i as int]@ == key@
                    &&& self@.contains_key(key@)
                    &&& self@[key@] == self.values@[i as int]
                },
                None => !self@.contains_key(key@),
            },
    {
        let mut i: usize = 0;
        while i < self.keys.len()
            invariant
                self.wf(),
                i <= self.keys@.len(),
                forall|j: int| 0 <= j < i ==> (#[trigger] self.keys@[j])@ != key@,
            decreases self.keys@.len() - i,
        {
            if self.keys[i] == *key {
                proof {
                    self.lemma_entry(i as int);
                }
                return Some(i);
            }
            i = i + 1;
        }
        None
    }

    /// The value under `key`.
    pub fn get(&self, key: &String) -> (r: Option<&V>)
        requires
            self.wf(),
        ensures
            match r {
                Some(v) => self@.contains_key(key@) && *v == self@[key@],
                None => !self@.contains_key(key@),
            },
    {
        match self.find(key) {
            Some(i) => Some(&self.values[i]),
            None => None,
        }
    }

    /// Put `value` under `key`, replacing what was there.
    pub fn insert(&mut self, key: String, value: V)
        requires
            old(self).wf(),
        ensures
            final(self).wf(),
            final(self)@ == old(self)@.insert(key@, value),
    {
        let ghost before = *self;
        match self.find(&key) {
            Some(i) => {
                self.values.set(i, value);
                proof {
                    assert forall|k: Seq<char>| #[trigger] self@.contains_key(k) implies self@[k]
                        == before@.insert(key@, value)[k] by {
                        let p = key_index(self.keys@, k);
                        assert(self.keys@[p]@ == k);
                        before.lemma_entry(p);
                        self.lemma_entry(p);
                    }
                    assert(self@ =~= before@.insert(key@, value));
                }
            },
            None => {
                self.keys.push(key);
                self.values.push(value);
                proof {
                    assert(!before@.contains_key(key@));
                    assert forall|i: int, j: int| 0 <= i < j < self.keys@.len() implies (
                    #[trigger] self.keys@[i])@ != (#[trigger] self.keys@[j])@ by {
                        if j == before.keys@.len() {
                            assert(before.keys@[i]@ == self.keys@[i]@);
                            assert(crate::text::holds_text(before.keys@, self.keys@[i]@));
                        }
                    }
                    let last = self.keys@.len() - 1;
                    self.lemma_entry(last);
                    assert forall|k: Seq<char>| self@.contains_key(k) <==> before@.insert(
                        key@,
                        value,
                    ).contains_key(k) by {
                        if self@.contains_key(k) {
                            let p = key_index(self.keys@, k);
                            assert(self.keys@[p]@ == k);
                            if p < last {
                                assert(before.keys@[p]@ == k);
                            }
                        }
                        if before@.contains_key(k) {
                            let p = key_index(before.keys@, k);
                            assert(self.keys@[p]@ == k);
                        }
                    }
                    assert forall|k: Seq<char>| #[trigger] self@.contains_key(k) implies self@[k]
                        == before@.insert(key@, value)[k] by {
                        let p = key_index(self.keys@, k);
                        assert(self.keys@[p]@ == k);
                        self.lemma_entry(p);
                        if p < last {
                            before.lemma_entry(p);
                            assert(before.keys@[p]@ == k);
                        }
                    }
                    assert(self@ =~= before@.insert(key@, value));
                }
            },
        }
    }
}

} // verus!
