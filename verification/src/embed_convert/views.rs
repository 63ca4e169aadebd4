//! The byte ranges that `ArrayBuffer`s, typed arrays and `DataView`s cover.

use crate::value::Value;
use std::collections::{HashMap, HashSet};
use vstd::prelude::*;

verus! {

broadcast use vstd::std_specs::hash::group_hash_axioms;

/// A typed array: its buffer, where it starts, its length in elements, the bytes of an element,
/// and whether its length follows the buffer's.
#[derive(Clone, Copy, Debug, PartialEq, Eq, Structural)]
pub struct TaInfo {
    pub buffer: u64,
    pub offset: usize,
    pub len: usize,
    pub elsize: usize,
    pub track: bool,
}

/// A `DataView`, its length in bytes.
#[derive(Clone, Copy, Debug, PartialEq, Eq, Structural)]
pub struct DvInfo {
    pub buffer: u64,
    pub offset: usize,
    pub len: usize,
    pub track: bool,
}

/// The buffers and views of an engine, by object identity.
pub struct ViewTables {
    pub typed_arrays: HashMap<u64, TaInfo>,
    pub data_views: HashMap<u64, DvInfo>,
    pub array_buffers: HashMap<u64, Vec<u8>>,
    /// Shared buffers, by the identity of their memory.
    pub shared_buffers: HashMap<u64, u64>,
    pub shared_mem: HashMap<u64, Vec<u8>>,
    pub immutable_buffers: HashSet<u64>,
    /// Objects that were made as buffers.
    pub buffer_objects: HashSet<u64>,
}

/// Buffers by identity.
pub type Buffers = Map<u64, Vec<u8>>;

/// Why a value covers no bytes.
#[derive(Clone, Copy, Debug, PartialEq, Eq, Structural)]
pub enum ViewErr {
    NotView,
    Detached,
}

/// A range of a buffer's bytes.
#[derive(Clone, Copy, Debug, PartialEq, Eq, Structural)]
pub struct ByteRange {
    pub key: u64,
    pub off: usize,
    pub len: usize,
}

impl ViewTables {
    /// No buffers and no views.
    pub fn new() -> (r: ViewTables)
        ensures
            r.wf(),
            r.typed_arrays@ == Map::<u64, TaInfo>::empty(),
            r.data_views@ == Map::<u64, DvInfo>::empty(),
            r.array_buffers@ == Map::<u64, Vec<u8>>::empty(),
            r.shared_buffers@ == Map::<u64, u64>::empty(),
            r.shared_mem@ == Map::<u64, Vec<u8>>::empty(),
            r.immutable_buffers@ == Set::<u64>::empty(),
            r.buffer_objects@ == Set::<u64>::empty(),
    {
        ViewTables {
            typed_arrays: HashMap::new(),
            data_views: HashMap::new(),
            array_buffers: HashMap::new(),
            shared_buffers: HashMap::new(),
            shared_mem: HashMap::new(),
            immutable_buffers: HashSet::new(),
            buffer_objects: HashSet::new(),
        }
    }

    /// Elements have a size.
    pub open spec fn wf(self) -> bool {
        forall|k: u64| #[trigger]
            self.typed_arrays@.contains_key(k) ==> self.typed_arrays@[k].elsize > 0
    }

    /// The length of a buffer, shared or not.
    pub open spec fn buffer_len(self, bufs: Buffers, key: u64) -> Option<nat> {
        if bufs.contains_key(key) {
            Some(bufs[key]@.len())
        } else if self.shared_buffers@.contains_key(key) && self.shared_mem@.contains_key(
            self.shared_buffers@[key],
        ) {
            Some(self.shared_mem@[self.shared_buffers@[key]]@.len())
        } else {
            None
        }
    }

    /// The length in elements of a typed array that its buffer still covers.
    pub open spec fn ta_elems(self, bufs: Buffers, t: TaInfo) -> Option<nat> {
        match self.buffer_len(bufs, t.buffer) {
            None => None,
            Some(n) => if t.track {
                if t.offset <= n {
                    Some(((n - t.offset) / t.elsize as int) as nat)
                } else {
                    None
                }
            } else if t.offset + t.len * t.elsize <= n {
                Some(t.len as nat)
            } else {
                None
            },
        }
    }

    /// The bytes that a value covers, with the buffers `bufs`.
    pub open spec fn covered(self, bufs: Buffers, v: Value) -> Result<ByteRange, ViewErr> {
        match v {
            Value::Obj(p) => if self.typed_arrays@.contains_key(p) {
                let t = self.typed_arrays@[p];
                match self.ta_elems(bufs, t) {
                    Some(n) => Ok(
                        ByteRange {
                            key: t.buffer,
                            off: t.offset,
                            len: (n * t.elsize) as usize,
                        },
                    ),
                    None => Err(ViewErr::Detached),
                }
            } else if self.data_views@.contains_key(p) {
                let d = self.data_views@[p];
                if !bufs.contains_key(d.buffer) {
                    Err(ViewErr::Detached)
                } else {
                    let n = bufs[d.buffer]@.len();
                    if d.track {
                        if d.offset > n {
                            Err(ViewErr::Detached)
                        } else {
                            Ok(
                                ByteRange {
                                    key: d.buffer,
                                    off: d.offset,
                                    len: (n - d.offset) as usize,
                                },
                            )
                        }
                    } else if d.offset + d.len > n {
                        Err(ViewErr::Detached)
                    } else {
                        Ok(ByteRange { key: d.buffer, off: d.offset, len: d.len })
                    }
                }
            } else if bufs.contains_key(p) {
                Ok(ByteRange { key: p, off: 0, len: bufs[p]@.len() as usize })
            } else if self.buffer_objects@.contains(p) {
                Err(ViewErr::Detached)
            } else {
                Err(ViewErr::NotView)
            },
            _ => Err(ViewErr::NotView),
        }
    }
}

/// The buffers of the table, and the lent ones.
pub open spec fn with_lent(bufs: Buffers, lent: Buffers) -> Buffers {
    bufs.union_prefer_right(lent)
}

fn len_of(bufs: &HashMap<u64, Vec<u8>>, lent: &HashMap<u64, Vec<u8>>, key: u64) -> (r: Option<usize>)
    ensures
        ({
            let all = with_lent(bufs@, lent@);
            r == if all.contains_key(key) {
                Some(all[key]@.len() as usize)
            } else {
                None
            }
        }),
        r matches Some(n) ==> n == with_lent(bufs@, lent@)[key]@.len(),
{
    match lent.get(&key) {
        Some(b) => Some(b.len()),
        None => match bufs.get(&key) {
            Some(b) => Some(b.len()),
            None => None,
        },
    }
}

/// The bytes that a value covers: a typed array, a `DataView` or an `ArrayBuffer`. A view whose
/// buffer is gone or too short is detached, and so is an object that was made as a buffer and has
/// none. The buffers are those of the table and the lent ones.
pub fn resolve_view(t: &ViewTables, lent: &HashMap<u64, Vec<u8>>, v: &Value) -> (r: Result<
    ByteRange,
    ViewErr,
>)
    requires
        t.wf(),
    ensures
        r == t.covered(with_lent(t.array_buffers@, lent@), *v),
{
    let ghost all = with_lent(t.array_buffers@, lent@);
    let p: u64 = match v {
        Value::Obj(p) => *p,
        _ => {
            return Err(ViewErr::NotView);
        },
    };
    if let Some(info) = t.typed_arrays.get(&p) {
        let info: TaInfo = *info;
        assert(t.typed_arrays@.contains_key(p));
        let blen: usize = match len_of(&t.array_buffers, lent, info.buffer) {
            Some(n) => n,
            None => match t.shared_buffers.get(&info.buffer) {
                Some(id) => match t.shared_mem.get(id) {
                    Some(m) => m.len(),
                    None => {
                        return Err(ViewErr::Detached);
                    },
                },
                None => {
                    return Err(ViewErr::Detached);
                },
            },
        };
        if info.offset > blen {
            proof {
                assert(info.len * info.elsize >= 0) by (nonlinear_arith)
                    requires
                        info.len >= 0,
                        info.elsize >= 0,
                ;
            }
            return Err(ViewErr::Detached);
        }
        let room: usize = (blen - info.offset) / info.elsize;
        proof {
            let rest = blen - info.offset;
            vstd::arithmetic::div_mod::lemma_fundamental_div_mod(rest, info.elsize as int);
            assert(room * info.elsize <= rest) by (nonlinear_arith)
                requires
                    rest == info.elsize * room + rest % (info.elsize as int),
                    rest % (info.elsize as int) >= 0,
            ;
            if info.len <= room {
                assert(info.len * info.elsize <= room * info.elsize) by (nonlinear_arith)
                    requires
                        info.len <= room,
                        info.elsize > 0,
                ;
            } else {
                assert(info.len * info.elsize >= (room + 1) * info.elsize) by (nonlinear_arith)
                    requires
                        info.len >= room + 1,
                        info.elsize > 0,
                ;
                assert((room + 1) * info.elsize > rest) by (nonlinear_arith)
                    requires
                        rest == info.elsize * room + rest % (info.elsize as int),
                        rest % (info.elsize as int) < info.elsize,
                ;
            }
        }
        if info.track {
            return Ok(
                ByteRange { key: info.buffer, off: info.offset, len: room * info.elsize },
            );
        }
        if info.len > room {
            return Err(ViewErr::Detached);
        }
        return Ok(ByteRange { key: info.buffer, off: info.offset, len: info.len * info.elsize });
    }
    if let Some(d) = t.data_views.get(&p) {
        let d: DvInfo = *d;
        let blen: usize = match len_of(&t.array_buffers, lent, d.buffer) {
            Some(n) => n,
            None => {
                return Err(ViewErr::Detached);
            },
        };
        if d.offset > blen {
            return Err(ViewErr::Detached);
        }
        if d.track {
            return Ok(ByteRange { key: d.buffer, off: d.offset, len: blen - d.offset });
        }
        if d.len > blen - d.offset {
            return Err(ViewErr::Detached);
        }
        return Ok(ByteRange { key: d.buffer, off: d.offset, len: d.len });
    }
    match len_of(&t.array_buffers, lent, p) {
        Some(n) => Ok(ByteRange { key: p, off: 0, len: n }),
        None => if t.buffer_objects.contains(&p) {
            Err(ViewErr::Detached)
        } else {
            Err(ViewErr::NotView)
        },
    }
}

/// The bytes that a value covers lie inside its buffer.
pub proof fn lemma_covered_is_in_range(t: ViewTables, bufs: Buffers, v: Value)
    requires
        t.wf(),
        t.covered(bufs, v) is Ok,
    ensures
        ({
            let r = t.covered(bufs, v)->Ok_0;
            &&& t.buffer_len(bufs, r.key) is Some
            &&& r.off + r.len <= t.buffer_len(bufs, r.key)->0
        }),
{
    let r = t.covered(bufs, v)->Ok_0;
    if let Value::Obj(p) = v {
        if t.typed_arrays@.contains_key(p) {
            let info = t.typed_arrays@[p];
            let n = t.buffer_len(bufs, info.buffer)->0;
            let e = info.elsize as int;
            let m = t.ta_elems(bufs, info)->0 as int;
            if bufs.contains_key(info.buffer) {
                assert(bufs[info.buffer].len() == n);
            } else {
                assert(t.shared_mem@[t.shared_buffers@[info.buffer]].len() == n);
            }
            if info.track {
                let rest = n - info.offset;
                vstd::arithmetic::div_mod::lemma_fundamental_div_mod(rest, e);
                assert(m * e <= rest) by (nonlinear_arith)
                    requires
                        rest == e * m + rest % e,
                        rest % e >= 0,
                ;
            }
            assert(m * e >= 0) by (nonlinear_arith)
                requires
                    m >= 0,
                    e >= 0,
            ;
        } else if t.data_views@.contains_key(p) {
            let d = t.data_views@[p];
            assert(bufs[d.buffer].len() == bufs[d.buffer]@.len());
        } else {
            assert(bufs[p].len() == bufs[p]@.len());
        }
    }
}

} // verus!
