//! The functions of a unit by their identity.

use super::chunk::FnId;
use std::collections::HashMap;
use vstd::prelude::*;

verus! {

broadcast use vstd::std_specs::hash::group_hash_axioms;

/// The (last) index of `f` in the unit.
pub open spec fn unit_index(unit: Seq<FnId>, f: FnId) -> Option<int>
    decreases unit.len(),
{
    if unit.len() == 0 {
        None
    } else if unit.last() == f {
        Some(unit.len() - 1)
    } else {
        unit_index(unit.drop_last(), f)
    }
}

pub proof fn lemma_unit_index(unit: Seq<FnId>, f: FnId)
    ensures
        unit_index(unit, f) matches Some(i) ==> 0 <= i < unit.len() && unit[i] == f,
        unit_index(unit, f) is None ==> !unit.contains(f),
    decreases unit.len(),
{
    if unit.len() > 0 && unit.last() != f {
        lemma_unit_index(unit.drop_last(), f);
        if unit.contains(f) {
            let i = choose|i: int| 0 <= i < unit.len() && unit[i] == f;
            assert(unit.drop_last()[i] == f);
        }
    }
}

/// Where each function of a unit stands.
pub struct UnitIndex {
    map: HashMap<u64, usize>,
    ids: Ghost<Seq<FnId>>,
}

impl View for UnitIndex {
    type V = Seq<FnId>;

    /// The unit's functions, in order.
    closed spec fn view(&self) -> Seq<FnId> {
        self.ids@
    }
}

impl UnitIndex {
    #[verifier::type_invariant]
    spec fn says_where(self) -> bool {
        indexes(self.map@, self.ids@)
    }

    /// The index of these functions. One that stands twice is found where it stands last.
    pub fn new(ids: &Vec<FnId>) -> (r: UnitIndex)
        ensures
            r@ == ids@,
    {
        let mut map: HashMap<u64, usize> = HashMap::new();
        let mut i: usize = 0;
        assert(ids@.take(0) =~= Seq::<FnId>::empty());
        while i < ids.len()
            invariant
                i <= ids@.len(),
                indexes(map@, ids@.take(i as int)),
            decreases ids@.len() - i,
        {
            let ghost before = map@;
            let _ = map.insert(ids[i].0, i);
            proof {
                let a = ids@.take(i as int);
                let b = ids@.take(i + 1);
                assert(b.drop_last() =~= a);
                assert(b.last() == ids@[i as int]);
                assert forall|f: u64|
                    (#[trigger] map@.contains_key(f) <==> unit_index(b, FnId(f)) is Some) && (
                    map@.contains_key(f) ==> map@[f] == unit_index(b, FnId(f))->0) by {
                    assert(before.contains_key(f) <==> unit_index(a, FnId(f)) is Some);
                }
            }
            i = i + 1;
        }
        assert(ids@.take(i as int) =~= ids@);
        UnitIndex { map, ids: Ghost(ids@) }
    }

    /// The index of a function.
    pub fn index(&self, f: FnId) -> (r: Option<usize>)
        ensures
            match (r, unit_index(self@, f)) {
                (Some(i), Some(j)) => i == j,
                (None, None) => true,
                _ => false,
            },
            r matches Some(i) ==> i < self@.len(),
    {
        proof {
            use_type_invariant(self);
            lemma_unit_index(self@, f);
            assert(FnId(f.0) == f);
            assert(self.map@.contains_key(f.0) <==> unit_index(self@, FnId(f.0)) is Some);
        }
        match self.map.get(&f.0) {
            Some(i) => Some(*i),
            None => None,
        }
    }
}

/// The map says where each function stands.
spec fn indexes(map: Map<u64, usize>, ids: Seq<FnId>) -> bool {
    forall|f: u64|
        (#[trigger] map.contains_key(f) <==> unit_index(ids, FnId(f)) is Some) && (
        map.contains_key(f) ==> map[f] == unit_index(ids, FnId(f))->0)
}

} // verus!
