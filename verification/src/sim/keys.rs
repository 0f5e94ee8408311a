//! Snapshots of the key sets of hash maps, for iteration independent of later mutation.
use vstd::prelude::*;
use vstd::std_specs::iter::IteratorSpec;
use std::collections::HashMap;

verus! {

/// The keys of `m`, each once, in the map's iteration order.
pub fn key_list<K: Copy, V>(m: &HashMap<K, V>) -> (ks: Vec<K>)
    requires
        vstd::std_specs::hash::obeys_key_model::<K>(),
    ensures
        ks@.no_duplicates(),
        ks@.len() == m@.dom().len(),
        forall|k: K| ks@.contains(k) <==> m@.contains_key(k),
{
    broadcast use vstd::std_specs::hash::group_hash_axioms;
    let mut ks: Vec<K> = Vec::new();
    let ghost rs = vstd::std_specs::hash::spec_keys_iter(m).remaining();
    let ghost mut count: int = 0;
    for k in it: m.keys()
        invariant
            count == it.index(),
            rs == vstd::std_specs::hash::spec_keys_iter(m).remaining(),
            ks@.len() == count,
            forall|j: int| 0 <= j < count ==> ks@[j] == *rs[j],
    {
        ks.push(*k);
        proof {
            count = count + 1;
        }
    }
    proof {
        let us = rs.unref();
        assert(ks@ =~= us);
        assert(us.to_set() == m@.dom());
        assert forall|k: K| ks@.contains(k) <==> m@.contains_key(k) by {
            if ks@.contains(k) {
                assert(us.to_set().contains(k));
            }
            if m@.contains_key(k) {
                assert(us.to_set().contains(k));
            }
        }
    }
    ks
}

} // verus!
