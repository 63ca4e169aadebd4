//! The guard for reading `length`, `byteLength`, `byteOffset` and `buffer` of a typed array
//! without calling the getter: the lookup must reach the realm's intrinsic accessor.

use crate::object::{lookup, Exotic, Heap, Object, PropKind};
use crate::text::same;
use crate::value::Value;
use vstd::prelude::*;

verus! {

/// The prototype levels that are searched.
pub const DEPTH: usize = 3;

/// The keys, in their order.
pub open spec fn meta_key(k: int) -> Seq<char> {
    if k == 0 {
        "length"@
    } else if k == 1 {
        "byteLength"@
    } else if k == 2 {
        "byteOffset"@
    } else {
        "buffer"@
    }
}

fn key_text(k: usize) -> (r: &'static str)
    ensures
        r@ == meta_key(k as int),
{
    if k == 0 {
        "length"
    } else if k == 1 {
        "byteLength"
    } else if k == 2 {
        "byteOffset"
    } else {
        "buffer"
    }
}

/// The index of a key.
pub fn ta_meta_index(key: &str) -> (r: Option<usize>)
    ensures
        match r {
            Some(k) => k < 4 && key@ == meta_key(k as int),
            None => forall|k: int| 0 <= k < 4 ==> key@ != #[trigger] meta_key(k),
        },
{
    let mut k: usize = 0;
    while k < 4
        invariant
            k <= 4,
            forall|j: int| 0 <= j < k ==> key@ != #[trigger] meta_key(j),
        decreases 4 - k,
    {
        if same(key, key_text(k)) {
            return Some(k);
        }
        k = k + 1;
    }
    None
}

/// Whether a lookup from a prototype on, with some levels left, reaches an accessor with the
/// getter through ordinary objects.
pub open spec fn reaches(
    heap: Heap,
    cur: Option<u64>,
    key: Seq<char>,
    getter: u64,
    levels: nat,
) -> bool
    decreases levels,
{
    match cur {
        None => false,
        Some(p) => if levels == 0 || !heap.has(p) {
            false
        } else {
            let o = heap.at(p);
            if !o.ic_plain || o.exotic != Exotic::Ordinary {
                false
            } else {
                match lookup(o.props@, key) {
                    Some(prop) => match prop.kind {
                        PropKind::Accessor { get, .. } => get == Some(Value::Obj(getter)),
                        PropKind::Data(_) => false,
                    },
                    None => reaches(heap, o.proto, key, getter, (levels - 1) as nat),
                }
            }
        },
    }
}

/// Whether reading the `k`-th key of a typed array resolves to the intrinsic getter: the array
/// has no such property of its own, and none on the way shadows it.
pub fn ta_meta_intrinsic(heap: &Heap, ta: &Object, k: usize, getters: &Vec<u64>) -> (r: bool)
    requires
        k < 4,
        getters@.len() == 4,
    ensures
        r == (lookup(ta.props@, meta_key(k as int)) is None && reaches(
            *heap,
            ta.proto,
            meta_key(k as int),
            getters@[k as int],
            DEPTH as nat,
        )),
{
    let key = key_text(k);
    if ta.props.contains(key) {
        return false;
    }
    let getter: u64 = getters[k];
    let mut cur: Option<u64> = ta.proto;
    let mut left: usize = DEPTH;
    while left > 0
        invariant
            left <= DEPTH,
            key@ == meta_key(k as int),
            getter == getters@[k as int],
            lookup(ta.props@, meta_key(k as int)) is None,
            reaches(*heap, cur, key@, getter, left as nat) == reaches(
                *heap,
                ta.proto,
                key@,
                getter,
                DEPTH as nat,
            ),
        decreases left,
    {
        let p: u64 = match cur {
            Some(p) => p,
            None => {
                return false;
            },
        };
        if !heap.holds(p) {
            return false;
        }
        let o = heap.get(p);
        if !o.ic_plain || o.exotic != Exotic::Ordinary {
            return false;
        }
        match o.props.get(key) {
            Some(prop) => {
                return match &prop.kind {
                    PropKind::Accessor { get, .. } => match get {
                        Some(Value::Obj(g)) => *g == getter,
                        _ => false,
                    },
                    PropKind::Data(_) => false,
                };
            },
            None => {},
        }
        cur = o.proto;
        left = left - 1;
    }
    false
}

/// The intrinsic getters that a realm's reads are compared with, by address; kept from their last
/// use.
pub struct TaMetaCaches {
    pub addrs: Option<Vec<u64>>,
}

impl TaMetaCaches {
    /// Whether a function is the current realm's intrinsic getter of the `k`-th key. The addresses
    /// last seen are read again from the realm where they do not say so.
    pub fn is_ta_meta_getter(&mut self, g: u64, k: usize, realm: &Option<Vec<u64>>) -> (r: bool)
        requires
            k < 4,
            old(self).addrs matches Some(a) ==> a@.len() == 4,
            *realm matches Some(a) ==> a@.len() == 4,
        ensures
            r == (*realm matches Some(a) && a@[k as int] == g),
            (r && (old(self).addrs matches Some(a) && a@[k as int] == g)) || *realm is None
                ==> *final(self) == *old(self),
            !(r && (old(self).addrs matches Some(a) && a@[k as int] == g)) && *realm is Some ==> (
            final(self).addrs matches Some(b) && b@ == (realm->0)@),
    {
        match realm {
            None => false,
            Some(fresh) => {
                if let Some(a) = &self.addrs {
                    if fresh[k] == g && a[k] == g {
                        return true;
                    }
                }
                let mut copy: Vec<u64> = Vec::new();
                let mut i: usize = 0;
                while i < fresh.len()
                    invariant
                        i <= fresh@.len(),
                        copy@ == fresh@.take(i as int),
                    decreases fresh@.len() - i,
                {
                    copy.push(fresh[i]);
                    i = i + 1;
                    assert(copy@ =~= fresh@.take(i as int));
                }
                assert(copy@ =~= fresh@);
                let hit = fresh[k] == g;
                self.addrs = Some(copy);
                hit
            },
        }
    }
}

} // verus!
