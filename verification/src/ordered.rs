//! Walking the ordered tables of the crate in key order.

use std::collections::BTreeMap;
use vstd::std_specs::cmp::OrdSpec;
use vstd::std_specs::iter::IteratorSpec;
use vstd::prelude::*;

verus! {

/// The sequence rises strictly.
pub open spec fn strictly_ascending(s: Seq<usize>) -> bool {
    forall|i: int, j: int| 0 <= i < j < s.len() ==> s[i] < s[j]
}

/// The keys of a table, in rising order.
pub fn keys_in_order<V>(m: &BTreeMap<usize, V>) -> (keys: Vec<usize>)
    ensures
        strictly_ascending(keys@),
        forall|k: usize| keys@.contains(k) <==> m@.contains_key(k),
{
    let mut keys: Vec<usize> = Vec::new();
    for kv in it: m.iter()
        invariant
            keys@.len() == it.index(),
            forall|i: int| 0 <= i < keys@.len() ==> keys@[i] == *it.seq()[i].0,
    {
        keys.push(*kv.0);
    }
    proof {
        let s = m.iter().remaining();
        assert(keys@.len() == s.len());
        assert forall|k: usize| keys@.contains(k) <==> m@.contains_key(k) by {
            if keys@.contains(k) {
                let i = choose|i: int| 0 <= i < keys@.len() && keys@[i] == k;
                assert(m@.contains_key(*s[i].0));
            }
            if m@.contains_key(k) {
                assert(s.contains((&k, &m@[k])));
                let i = choose|i: int| 0 <= i < s.len() && s[i] == (&k, &m@[k]);
                assert(keys@[i] == k);
            }
        }
        let ks = s.map_values(|kv: (&usize, &V)| *kv.0);
        assert(vstd::std_specs::btree::increasing_seq(ks));
        assert(vstd::laws_cmp::obeys_cmp::<usize>()) by {
            broadcast use vstd::laws_cmp::group_laws_cmp;

        }
        vstd::std_specs::btree::axiom_increasing_seq_meaning(ks);
        assert forall|i: int, j: int| 0 <= i < j < keys@.len() implies keys@[i] < keys@[j] by {
            assert(ks[i] == keys@[i]);
            assert(ks[j] == keys@[j]);
            assert(ks[i].cmp_spec(&ks[j]) is Less);
        }
    }
    keys
}

} // verus!
