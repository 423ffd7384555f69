//! The variable mapping: byte-string keys bound to byte-string values,
//! with last-write-wins insertion. Its view is the mathematical map the
//! entries denote.

use vstd::prelude::*;
use crate::assoc::{assoc_map, unique_keys, lemma_assoc_contains, lemma_assoc_value,
    lemma_assoc_update, lemma_assoc_push, lemma_assoc_dom_len};
use crate::text::bytes_eq;

verus! {

broadcast use crate::text::lemma_bytes_deep_view;

/// A mapping from variable names to their substitution values.
pub struct VariableMap {
    entries: Vec<(Vec<u8>, Vec<u8>)>,
}

impl View for VariableMap {
    type V = Map<Seq<u8>, Seq<u8>>;

    closed spec fn view(&self) -> Map<Seq<u8>, Seq<u8>> {
        assoc_map(self.entries.deep_view())
    }
}

impl VariableMap {
    /// Each key is held by at most one entry.
    pub closed spec fn well_formed(self) -> bool {
        unique_keys(self.entries.deep_view())
    }

    /// An empty mapping.
    pub fn new() -> (r: VariableMap)
        ensures
            r@ == Map::<Seq<u8>, Seq<u8>>::empty(),
            r.well_formed(),
    {
        let r = VariableMap { entries: Vec::new() };
        proof {
            assert(r.entries.deep_view() =~= Seq::<(Seq<u8>, Seq<u8>)>::empty());
        }
        r
    }

    /// Binds `key` to `value`, overwriting any earlier binding of `key`.
    pub fn insert(&mut self, key: Vec<u8>, value: Vec<u8>)
        requires
            old(self).well_formed(),
        ensures
            final(self)@ == old(self)@.insert(key@, value@),
            final(self).well_formed(),
    {
        let ghost es0 = self.entries.deep_view();
        let ghost kv = key@;
        let ghost vv = value@;
        let mut i: usize = 0;
        while i < self.entries.len()
            invariant
                i <= self.entries@.len(),
                self.entries.deep_view() == es0,
                assoc_map(es0) == old(self)@,
                unique_keys(es0),
                kv == key@,
                vv == value@,
                forall|j: int| 0 <= j < i ==> es0[j].0 != kv,
            decreases self.entries@.len() - i,
        {
            let hit = {
                let entry = &self.entries[i];
                bytes_eq(entry.0.as_slice(), key.as_slice())
            };
            proof {
                assert(es0[i as int] == (self.entries@[i as int].0@, self.entries@[i as int].1@));
            }
            if hit {
                self.entries[i] = (key, value);
                proof {
                    assert(self.entries.deep_view() =~= es0.update(i as int, (kv, vv)));
                    assert forall|l: int| i < l < es0.len() implies es0[l].0 != kv by {
                        assert(es0[i as int].0 != es0[l].0);
                    }
                    lemma_assoc_update(es0, kv, vv, i as int);
                    assert forall|a: int, b: int|
                        0 <= a < b < es0.len() implies es0.update(i as int, (kv, vv))[a].0
                        != es0.update(i as int, (kv, vv))[b].0 by {
                        assert(es0[a].0 != es0[b].0);
                        assert(es0[i as int].0 == kv);
                    }
                }
                return ;
            }
            i = i + 1;
        }
        self.entries.push((key, value));
        proof {
            assert(self.entries.deep_view() =~= es0.push((kv, vv)));
            lemma_assoc_push(es0, kv, vv);
            assert forall|a: int, b: int|
                0 <= a < b < es0.push((kv, vv)).len() implies es0.push((kv, vv))[a].0 != es0.push(
                (kv, vv),
            )[b].0 by {
                if b < es0.len() {
                    assert(es0[a].0 != es0[b].0);
                } else {
                    assert(es0[a].0 != kv);
                }
            }
        }
    }

    /// Looks a key up: the bound value, or `None` when the key is unbound.
    pub fn get(&self, key: &[u8]) -> (r: Option<&Vec<u8>>)
        requires
            self.well_formed(),
        ensures
            match r {
                Some(v) => self@.contains_key(key@) && v@ == self@[key@],
                None => !self@.contains_key(key@),
            },
    {
        let ghost es = self.entries.deep_view();
        let mut i: usize = 0;
        while i < self.entries.len()
            invariant
                i <= self.entries@.len(),
                es == self.entries.deep_view(),
                unique_keys(es),
                forall|j: int| 0 <= j < i ==> es[j].0 != key@,
            decreases self.entries@.len() - i,
        {
            proof {
                assert(es[i as int] == (self.entries@[i as int].0@, self.entries@[i as int].1@));
            }
            let hit = {
                let entry = &self.entries[i];
                bytes_eq(entry.0.as_slice(), key)
            };
            if hit {
                proof {
                    assert forall|l: int| i < l < es.len() implies es[l].0 != key@ by {
                        assert(es[i as int].0 != es[l].0);
                    }
                    lemma_assoc_value(es, key@, i as int);
                }
                return Some(&self.entries[i].1);
            }
            i = i + 1;
        }
        proof {
            lemma_assoc_contains(es, key@);
        }
        None
    }

    /// The number of bound keys.
    pub fn len(&self) -> (r: usize)
        requires
            self.well_formed(),
        ensures
            r == self@.dom().len(),
    {
        proof {
            lemma_assoc_dom_len(self.entries.deep_view());
        }
        self.entries.len()
    }
}

} // verus!
