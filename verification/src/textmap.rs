//! A small map keyed by text, kept as a list of entries: a lookup finds the
//! first entry with the key, and `insert` replaces an existing entry.
use vstd::prelude::*;

use crate::text::{chars_of, eq};

verus! {

/// A map from text keys to values.
pub struct TextMap<V> {
    pub entries: Vec<(String, V)>,
}

pub open spec fn key_views<V>(es: Seq<(String, V)>) -> Seq<(Seq<char>, V)> {
    Seq::new(es.len(), |i: int| (es[i].0@, es[i].1))
}

/// The value of the first entry with key `k`.
pub open spec fn lookup<V>(es: Seq<(Seq<char>, V)>, k: Seq<char>) -> Option<V>
    decreases es.len(),
{
    if es.len() == 0 {
        None
    } else if es[0].0 == k {
        Some(es[0].1)
    } else {
        lookup(es.drop_first(), k)
    }
}

proof fn lemma_lookup_push<V>(es: Seq<(Seq<char>, V)>, e: (Seq<char>, V), k: Seq<char>)
    ensures
        lookup(es.push(e), k) == match lookup(es, k) {
            Some(v) => Some(v),
            None => if e.0 == k {
                Some(e.1)
            } else {
                None
            },
        },
    decreases es.len(),
{
    if es.len() > 0 {
        assert(es.push(e).drop_first() == es.drop_first().push(e));
        lemma_lookup_push(es.drop_first(), e, k);
    } else {
        assert(es.push(e).drop_first() == es);
    }
}

proof fn lemma_lookup_remove<V>(es: Seq<(Seq<char>, V)>, i: int, k: Seq<char>)
    requires
        0 <= i < es.len(),
        es[i].0 != k,
    ensures
        lookup(es.remove(i), k) == lookup(es, k),
    decreases es.len(),
{
    if i > 0 {
        assert(es.remove(i).drop_first() == es.drop_first().remove(i - 1));
        lemma_lookup_remove(es.drop_first(), i - 1, k);
    } else {
        assert(es.remove(0) == es.drop_first());
    }
}

proof fn lemma_lookup_absent<V>(es: Seq<(Seq<char>, V)>, k: Seq<char>)
    requires
        forall|j: int| 0 <= j < es.len() ==> (#[trigger] es[j]).0 != k,
    ensures
        lookup(es, k) is None,
    decreases es.len(),
{
    if es.len() > 0 {
        assert forall|j: int| 0 <= j < es.drop_first().len() implies (#[trigger] es.drop_first()[j]).0 != k by {
            assert(es.drop_first()[j] == es[j + 1]);
        }
        lemma_lookup_absent(es.drop_first(), k);
    }
}

impl<V> TextMap<V> {
    pub open spec fn spec_entries(&self) -> Seq<(Seq<char>, V)> {
        key_views(self.entries@)
    }

    /// The value of key `k`, if any.
    pub open spec fn spec_get(&self, k: Seq<char>) -> Option<V> {
        lookup(self.spec_entries(), k)
    }

    pub fn new() -> (r: TextMap<V>)
        ensures
            forall|k: Seq<char>| r.spec_get(k) is None,
    {
        TextMap { entries: Vec::new() }
    }

    /// Set the value of `k`, replacing any earlier one.
    pub fn insert(&mut self, k: String, v: V)
        ensures
            forall|k2: Seq<char>|
                final(self).spec_get(k2) == if k2 == k@ {
                    Some(v)
                } else {
                    old(self).spec_get(k2)
                },
    {
        let kc = chars_of(k.as_str());
        let ghost orig = self.spec_entries();
        let mut i: usize = 0;
        while i < self.entries.len()
            invariant
                kc@ == k@,
                i <= self.entries@.len(),
                forall|j: int| 0 <= j < i ==> (#[trigger] self.spec_entries()[j]).0 != k@,
                forall|k2: Seq<char>|
                    k2 != k@ ==> lookup(self.spec_entries(), k2) == lookup(orig, k2),
            decreases self.entries@.len() - i,
        {
            let ec = chars_of(self.entries[i].0.as_str());
            if eq(ec.as_slice(), kc.as_slice()) {
                let ghost before = self.spec_entries();
                let _ = self.entries.remove(i);
                proof {
                    assert(self.spec_entries() =~= before.remove(i as int));
                    assert forall|k2: Seq<char>| k2 != k@ implies lookup(self.spec_entries(), k2)
                        == lookup(orig, k2) by {
                        lemma_lookup_remove(before, i as int, k2);
                    }
                    assert forall|j: int| 0 <= j < i implies (#[trigger] self.spec_entries()[j]).0
                        != k@ by {
                        assert(self.spec_entries()[j] == before[j]);
                    }
                }
            } else {
                i = i + 1;
            }
        }
        let ghost base = self.spec_entries();
        proof {
            lemma_lookup_absent(base, k@);
        }
        let ghost kv = k@;
        self.entries.push((k, v));
        proof {
            assert(self.spec_entries() =~= base.push((kv, v)));
            assert forall|k2: Seq<char>|
                self.spec_get(k2) == if k2 == kv {
                    Some(v)
                } else {
                    old(self).spec_get(k2)
                } by {
                lemma_lookup_push(base, (kv, v), k2);
            }
        }
    }

    /// The value of key `k`, if any.
    pub fn get(&self, k: &[char]) -> (r: Option<&V>)
        ensures
            match r {
                Some(v) => self.spec_get(k@) == Some(*v),
                None => self.spec_get(k@) is None,
            },
    {
        let ghost es = self.spec_entries();
        let mut i: usize = 0;
        assert(es.skip(0) == es);
        while i < self.entries.len()
            invariant
                es == self.spec_entries(),
                i <= es.len(),
                lookup(es, k@) == lookup(es.skip(i as int), k@),
            decreases es.len() - i,
        {
            assert(es.skip(i as int)[0] == es[i as int]);
            assert(es.skip(i as int).drop_first() == es.skip(i + 1));
            let ec = chars_of(self.entries[i].0.as_str());
            if eq(ec.as_slice(), k) {
                return Some(&self.entries[i].1);
            }
            i = i + 1;
        }
        None
    }
}

} // verus!
