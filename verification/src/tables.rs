//! Walking tables that are keyed by numbers.

use std::collections::{HashMap, HashSet};
use vstd::prelude::*;

verus! {

broadcast use vstd::std_specs::hash::group_hash_axioms;

/// The keys of a table, each once, in no particular order.
pub fn keys_of<V>(m: &HashMap<u64, V>) -> (r: Vec<u64>)
    ensures
        r@.no_duplicates(),
        forall|k: u64| #[trigger] m@.contains_key(k) <==> r@.contains(k),
{
    let mut r: Vec<u64> = Vec::new();
    let ghost seen = vstd::std_specs::iter::IteratorSpec::remaining(
        &vstd::std_specs::hash::spec_keys_iter(m),
    );
    for k in it: m.keys()
        invariant
            it.seq() == seen,
            r@ =~= seen.unref().take(it.index()),
    {
        r.push(*k);
    }
    proof {
        assert(r@ =~= seen.unref());
        assert forall|k: u64| #[trigger] m@.contains_key(k) <==> r@.contains(k) by {
            assert(r@.to_set().contains(k) <==> m@.dom().contains(k));
        }
    }
    r
}

/// Drops the entries of keys that are not alive.
pub fn retain_alive<V>(m: &mut HashMap<u64, V>, alive: &HashSet<u64>)
    ensures
        final(m)@ == old(m)@.restrict(alive@),
        final(m)@.len() <= old(m)@.len(),
{
    let keys: Vec<u64> = keys_of(&*m);
    let ghost es = m@;
    let mut i: usize = 0;
    while i < keys.len()
        invariant
            i <= keys@.len(),
            keys@.no_duplicates(),
            forall|k: u64| #[trigger] es.contains_key(k) <==> keys@.contains(k),
            forall|k: u64| #[trigger]
                m@.contains_key(k) <==> es.contains_key(k) && (alive@.contains(k) || !keys@.take(
                    i as int,
                ).contains(k)),
            forall|k: u64| m@.contains_key(k) ==> #[trigger] m@[k] == es[k],
            m@.len() <= es.len(),
        decreases keys@.len() - i,
    {
        let k: u64 = keys[i];
        proof {
            let seen = keys@.take(i as int);
            assert(keys@.contains(k));
            assert(!seen.contains(k)) by {
                if seen.contains(k) {
                    let j = choose|j: int| 0 <= j < seen.len() && seen[j] == k;
                    assert(keys@[j] == keys@[i as int]);
                }
            }
            assert(keys@.take(i + 1) =~= seen.push(k));
            assert forall|x: u64| keys@.take(i + 1).contains(x) <==> seen.contains(x) || x == k by {
                if seen.contains(x) {
                    let j = choose|j: int| 0 <= j < seen.len() && seen[j] == x;
                    assert(keys@.take(i + 1)[j] == x);
                }
                assert(keys@.take(i + 1)[i as int] == k);
            }
            assert(m@.contains_key(k));
        }
        if !alive.contains(&k) {
            let _ = m.remove(&k);
        }
        i = i + 1;
    }
    proof {
        assert(keys@.take(i as int) =~= keys@);
        assert(m@ =~= es.restrict(alive@));
    }
}

} // verus!
