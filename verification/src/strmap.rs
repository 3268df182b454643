//! A map from string keys to string values, stored as an association list
//! with pairwise-distinct keys and read as a `Map` of character sequences.

use vstd::prelude::*;

use crate::assoc::{
    keys_distinct, lemma_map_of_dom, lemma_map_of_index, lemma_map_of_len, lemma_map_of_push,
    lemma_map_of_remove, map_of,
};
use crate::shims::str_eq;

verus! {

/// A string-to-string map.
#[derive(Debug)]
pub struct StringMap {
    pairs: Vec<(String, String)>,
}

impl View for StringMap {
    type V = Map<Seq<char>, String>;

    open spec fn view(&self) -> Map<Seq<char>, String> {
        map_of(self.entries())
    }
}

impl StringMap {
    /// The stored key/value pairs, in insertion order.
    pub closed spec fn entries(&self) -> Seq<(String, String)> {
        self.pairs@
    }

    /// The stored pairs carry pairwise-distinct keys.
    pub open spec fn wf(&self) -> bool {
        keys_distinct(self.entries())
    }

    /// A new, empty map.
    pub fn new() -> (r: Self)
        ensures
            r.wf(),
            r@ == Map::<Seq<char>, String>::empty(),
            r.entries() == Seq::<(String, String)>::empty(),
    {
        let r = StringMap { pairs: Vec::new() };
        proof {
            assert(r.entries() =~= Seq::<(String, String)>::empty());
        }
        r
    }

    /// The number of stored pairs, which equals the size of the map.
    pub fn len(&self) -> (r: usize)
        requires
            self.wf(),
        ensures
            r == self@.dom().len(),
            r == self.entries().len(),
    {
        proof {
            lemma_map_of_len(self.entries());
        }
        self.pairs.len()
    }

    /// The pair stored at an index.
    pub fn pair_at(&self, i: usize) -> (r: &(String, String))
        requires
            i < self.entries().len(),
        ensures
            *r == self.entries()[i as int],
    {
        &self.pairs[i]
    }

    /// The index of the pair holding `key`, if one does.
    fn find_index(&self, key: &str) -> (r: Option<usize>)
        ensures
            match r {
                Some(i) => i < self.entries().len() && self.entries()[i as int].0@ == key@,
                None => forall|j: int| 0 <= j < self.entries().len() ==> self.entries()[j].0@ != key@,
            },
    {
        let mut i: usize = 0;
        while i < self.pairs.len()
            invariant
                i <= self.pairs@.len(),
                forall|j: int| 0 <= j < i ==> self.pairs@[j].0@ != key@,
            decreases self.pairs@.len() - i,
        {
            if str_eq(self.pairs[i].0.as_str(), key) {
                return Some(i);
            }
            i = i + 1;
        }
        None
    }

    /// The value stored under `key`, if any.
    pub fn get(&self, key: &str) -> (r: Option<&String>)
        requires
            self.wf(),
        ensures
            match r {
                Some(v) => self@.dom().contains(key@) && *v == self@[key@],
                None => !self@.dom().contains(key@),
            },
    {
        match self.find_index(key) {
            Some(i) => {
                proof {
                    lemma_map_of_index(self.entries(), i as int);
                }
                Some(&self.pairs[i].1)
            },
            None => {
                proof {
                    lemma_map_of_dom(self.entries(), key@);
                }
                None
            },
        }
    }

    /// Inserts or replaces the value stored under `key`.
    pub fn insert(&mut self, key: String, value: String)
        requires
            old(self).wf(),
        ensures
            final(self).wf(),
            final(self)@ == old(self)@.insert(key@, value),
    {
        let ghost orig = self.pairs@;
        let idx = self.find_index(key.as_str());
        match idx {
            Some(i) => {
                proof {
                    lemma_map_of_index(orig, i as int);
                    lemma_map_of_remove(orig, i as int);
                }
                let _ = self.pairs.remove(i);
                proof {
                    assert forall|j: int|
                        0 <= j < self.pairs@.len() implies self.pairs@[j].0@ != key@ by {
                        if j < i {
                            assert(self.pairs@[j] == orig[j]);
                        } else {
                            assert(self.pairs@[j] == orig[j + 1]);
                        }
                    }
                }
                self.pairs.push((key, value));
                proof {
                    lemma_map_of_push(orig.remove(i as int), (key, value));
                    assert(map_of(self.pairs@) =~= map_of(orig).insert(key@, value));
                }
            },
            None => {
                self.pairs.push((key, value));
                proof {
                    lemma_map_of_push(orig, (key, value));
                }
            },
        }
    }

    /// Removes every stored pair.
    pub fn clear(&mut self)
        ensures
            final(self).wf(),
            final(self)@ == Map::<Seq<char>, String>::empty(),
            final(self).entries() == Seq::<(String, String)>::empty(),
    {
        self.pairs.clear();
        proof {
            assert(self.entries() =~= Seq::<(String, String)>::empty());
        }
    }
}

impl Clone for StringMap {
    /// An entry-for-entry copy, denoting the same map.
    fn clone(&self) -> (r: Self)
        ensures
            r.entries() == self.entries(),
    {
        let mut pairs: Vec<(String, String)> = Vec::new();
        let mut i: usize = 0;
        while i < self.pairs.len()
            invariant
                i <= self.pairs@.len(),
                pairs@ =~= self.pairs@.take(i as int),
            decreases self.pairs@.len() - i,
        {
            let p = &self.pairs[i];
            pairs.push((p.0.clone(), p.1.clone()));
            i = i + 1;
        }
        let r = StringMap { pairs };
        proof {
            assert(r.entries() =~= self.entries());
        }
        r
    }
}

} // verus!
