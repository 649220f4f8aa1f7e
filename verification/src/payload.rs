//! The flat string-to-string mapping carried inside a signed envelope.
use vstd::prelude::*;

use crate::text::str_eq;

verus! {

/// The entries of a payload as mathematical character sequences.
pub open spec fn entries_view(es: Seq<(String, String)>) -> Seq<(Seq<char>, Seq<char>)> {
    Seq::new(es.len(), |i: int| (es[i].0@, es[i].1@))
}

/// No key occurs twice.
pub open spec fn unique_keys(es: Seq<(Seq<char>, Seq<char>)>) -> bool {
    forall|i: int, j: int| 0 <= i < j < es.len() ==> es[i].0 != es[j].0
}

/// The value the first entry with the given key holds, if any.
pub open spec fn lookup(es: Seq<(Seq<char>, Seq<char>)>, k: Seq<char>) -> Option<Seq<char>>
    decreases es.len(),
{
    if es.len() == 0 {
        None
    } else if es[0].0 == k {
        Some(es[0].1)
    } else {
        lookup(es.drop_first(), k)
    }
}

/// A flat mapping of string keys to string values, kept as the list of
/// its entries; a well-formed payload never holds a key twice.
pub struct Payload {
    pub entries: Vec<(String, String)>,
}

impl View for Payload {
    type V = Seq<(Seq<char>, Seq<char>)>;

    open spec fn view(&self) -> Seq<(Seq<char>, Seq<char>)> {
        entries_view(self.entries@)
    }
}

impl Payload {
    pub open spec fn wf(&self) -> bool {
        unique_keys(self@)
    }

    /// The empty mapping.
    pub fn new() -> (r: Payload)
        ensures
            r@ == Seq::<(Seq<char>, Seq<char>)>::empty(),
            r.wf(),
    {
        let r = Payload { entries: Vec::new() };
        proof {
            assert(r@ =~= Seq::<(Seq<char>, Seq<char>)>::empty());
        }
        r
    }

    /// Adds an entry under a key not yet present.
    pub fn insert(&mut self, k: String, v: String)
        requires
            old(self).wf(),
            lookup(old(self)@, k@) is None,
        ensures
            final(self)@ == old(self)@.push((k@, v@)),
            final(self).wf(),
    {
        let ghost pre = self@;
        let ghost kk = k@;
        let ghost vv = v@;
        self.entries.push((k, v));
        proof {
            assert(self@ =~= pre.push((kk, vv)));
            lemma_lookup_none_means_absent(pre, kk);
            assert forall|i: int, j: int| 0 <= i < j < self@.len() implies self@[i].0
                != self@[j].0 by {
                if j < pre.len() {
                } else {
                    assert(self@[j].0 == kk);
                    assert(self@[i].0 == pre[i].0);
                }
            }
        }
    }

    /// The value stored under `name`, if any.
    pub fn get<'a>(&'a self, name: &str) -> (r: Option<&'a String>)
        ensures
            match r {
                Some(v) => lookup(self@, name@) == Some(v@),
                None => lookup(self@, name@) is None,
            },
    {
        let n = self.entries.len();
        let mut i: usize = 0;
        proof {
            assert(self@.skip(0) =~= self@);
        }
        while i < n
            invariant
                n == self.entries@.len(),
                i <= n,
                lookup(self@, name@) == lookup(self@.skip(i as int), name@),
            decreases n - i,
        {
            proof {
                assert(self@.skip(i as int)[0] == self@[i as int]);
                assert(self@.skip(i as int).drop_first() =~= self@.skip(i + 1 as int));
            }
            if str_eq(self.entries[i].0.as_str(), name) {
                return Some(&self.entries[i].1);
            }
            i += 1;
        }
        proof {
            assert(self@.skip(n as int) =~= Seq::<(Seq<char>, Seq<char>)>::empty());
        }
        None
    }
}

/// If no lookup finds a key, no entry holds it.
pub proof fn lemma_lookup_none_means_absent(es: Seq<(Seq<char>, Seq<char>)>, k: Seq<char>)
    requires
        lookup(es, k) is None,
    ensures
        forall|i: int| 0 <= i < es.len() ==> es[i].0 != k,
    decreases es.len(),
{
    if es.len() > 0 {
        lemma_lookup_none_means_absent(es.drop_first(), k);
        assert(forall|i: int| 1 <= i < es.len() ==> es[i] == es.drop_first()[i - 1]);
    }
}

} // verus!
