//! Results that become objects of their own: arrays, and the bytes of buffers.

use crate::embed_convert::convert::{made, succeeds, IntoJs};
use crate::embed_convert::op_error::OpError;
use crate::embed_convert::views::{ByteRange, TaInfo, ViewErr, ViewTables};
use crate::interpreter::arrays::is_array;
use crate::interpreter::interp::Interp;
use crate::object::{Exotic, Heap, Object};
use crate::value::Value;
use vstd::prelude::*;

verus! {

broadcast use vstd::std_specs::hash::group_hash_axioms;

/// Results as an array: each is converted, in order, and the first that fails is the failure.
pub fn list_into_js<T: IntoJs>(i: &mut Interp, items: Vec<T>) -> (r: Result<Value, OpError>)
    requires
        old(i).wf(),
        old(i).room(1),
        items@.len() < 0x20_0000_0000_0000,
    ensures
        final(i).wf(),
        match r {
            Ok(v) => {
                &&& v == Value::Obj(old(i).heap.objects@.len() as u64)
                &&& final(i).heap.objects@.len() == old(i).heap.objects@.len() + 1
                &&& final(i).heap.objects@.drop_last() == old(i).heap.objects@
                &&& exists|vs: Seq<Value>|
                    {
                        &&& vs.len() == items@.len()
                        &&& forall|k: int|
                            0 <= k < vs.len() ==> made(
                                Ok::<Value, OpError>(#[trigger] vs[k]),
                                items@[k].makes(),
                            )
                        &&& #[trigger] is_array(
                            final(i).heap.objects@.last(),
                            old(i).array_proto,
                            vs,
                            Seq::empty(),
                        )
                    }
            },
            Err(e) => {
                &&& *final(i) == *old(i)
                &&& exists|k: int|
                    {
                        &&& 0 <= k < items@.len()
                        &&& #[trigger] made(Err::<Value, OpError>(e), items@[k].makes())
                        &&& !succeeds(items@[k].makes())
                        &&& forall|j: int| 0 <= j < k ==> succeeds((#[trigger] items@[j]).makes())
                    }
            },
        },
{
    let ghost all = items@;
    let n: usize = items.len();
    let mut rest = items;
    let mut out: Vec<Value> = Vec::new();
    let mut k: usize = 0;
    assert(rest@ =~= all.skip(0));
    while k < n
        invariant
            k <= n,
            n == all.len(),
            rest@ == all.skip(k as int),
            out@.len() == k,
            *i == *old(i),
            i.wf(),
            i.room(1),
            all == items@,
            forall|j: int|
                0 <= j < k ==> made(Ok::<Value, OpError>(#[trigger] out@[j]), all[j].makes()),
        decreases n - k,
    {
        let v = rest.remove(0);
        assert(v == all[k as int]);
        assert(rest@ =~= all.skip(k + 1));
        match v.into_js() {
            Ok(x) => {
                out.push(x);
            },
            Err(e) => {
                proof {
                    assert forall|j: int| 0 <= j < k implies succeeds(
                        (#[trigger] all[j]).makes(),
                    ) by {
                        assert(made(Ok::<Value, OpError>(out@[j]), all[j].makes()));
                    }
                    assert(made(Err::<Value, OpError>(e), all[k as int].makes()));
                }
                return Err(e);
            },
        }
        k = k + 1;
    }
    Ok(i.make_array(out))
}

/// A fresh object whose behaviour lives in a side table.
pub open spec fn side_object(o: Object, proto: Option<u64>) -> bool {
    &&& o.proto == proto
    &&& o.exotic == Exotic::Ordinary
    &&& o.extensible
    &&& !o.ic_plain
    &&& o.props@.len() == 0
    &&& o.elems@.len() == 0
}

fn add_side_object(heap: &mut Heap, proto: Option<u64>) -> (r: u64)
    requires
        old(heap).objects@.len() < u64::MAX,
    ensures
        r == old(heap).objects@.len(),
        final(heap).objects@.len() == r + 1,
        final(heap).objects@.drop_last() == old(heap).objects@,
        side_object(final(heap).at(r), proto),
{
    let mut o = Object::new(proto);
    o.ic_plain = false;
    let id = heap.add_object(o);
    assert(heap.objects@.drop_last() =~= old(heap).objects@);
    id
}

/// No view or buffer has an identity that no object has yet.
pub open spec fn tables_within(t: ViewTables, h: Heap) -> bool {
    &&& forall|p: u64| #[trigger] t.typed_arrays@.contains_key(p) ==> h.has(p)
    &&& forall|p: u64| #[trigger] t.data_views@.contains_key(p) ==> h.has(p)
    &&& forall|p: u64| #[trigger] t.array_buffers@.contains_key(p) ==> h.has(p)
}

/// An `ArrayBuffer` that adopts bytes.
pub fn make_array_buffer_from(
    heap: &mut Heap,
    t: &mut ViewTables,
    proto: Option<u64>,
    bytes: Vec<u8>,
) -> (r: Value)
    requires
        old(heap).objects@.len() < u64::MAX,
        tables_within(*old(t), *old(heap)),
        old(t).wf(),
    ensures
        final(t).wf(),
        tables_within(*final(t), *final(heap)),
        ({
            let p = old(heap).objects@.len() as u64;
            &&& r == Value::Obj(p)
            &&& final(heap).objects@.len() == p + 1
            &&& final(heap).objects@.drop_last() == old(heap).objects@
            &&& side_object(final(heap).at(p), proto)
            &&& final(t).array_buffers@ == old(t).array_buffers@.insert(p, bytes)
            &&& final(t).buffer_objects@ == old(t).buffer_objects@.insert(p)
            &&& final(t).typed_arrays == old(t).typed_arrays
            &&& final(t).data_views == old(t).data_views
            &&& final(t).shared_buffers == old(t).shared_buffers
            &&& final(t).shared_mem == old(t).shared_mem
            &&& final(t).immutable_buffers == old(t).immutable_buffers
        }),
{
    let p = add_side_object(heap, proto);
    let _ = t.array_buffers.insert(p, bytes);
    let _ = t.buffer_objects.insert(p);
    Value::Obj(p)
}

/// A `Uint8Array` over a fresh buffer that adopts bytes.
pub fn uint8array_from_vec(
    heap: &mut Heap,
    t: &mut ViewTables,
    buffer_proto: Option<u64>,
    proto: Option<u64>,
    bytes: Vec<u8>,
) -> (r: Value)
    requires
        old(heap).objects@.len() + 1 < u64::MAX,
        tables_within(*old(t), *old(heap)),
        old(t).wf(),
    ensures
        final(t).wf(),
        tables_within(*final(t), *final(heap)),
        ({
            let b = old(heap).objects@.len() as u64;
            let p = (b + 1) as u64;
            &&& r == Value::Obj(p)
            &&& final(heap).objects@.len() == p + 1
            &&& final(heap).objects@.take(b as int) == old(heap).objects@
            &&& side_object(final(heap).at(b), buffer_proto)
            &&& side_object(final(heap).at(p), proto)
            &&& final(t).array_buffers@ == old(t).array_buffers@.insert(b, bytes)
            &&& final(t).typed_arrays@ == old(t).typed_arrays@.insert(
                p,
                TaInfo {
                    buffer: b,
                    offset: 0,
                    len: bytes@.len() as usize,
                    elsize: 1,
                    track: false,
                },
            )
            &&& final(t).data_views == old(t).data_views
            &&& final(t).covered(final(t).array_buffers@, r) == Ok::<ByteRange, ViewErr>(
                ByteRange { key: b, off: 0, len: bytes@.len() as usize },
            )
        }),
{
    let len: usize = bytes.len();
    let buf = make_array_buffer_from(heap, t, buffer_proto, bytes);
    let b: u64 = match buf {
        Value::Obj(b) => b,
        _ => 0,
    };
    let ghost mid = heap.objects@;
    let p = add_side_object(heap, proto);
    proof {
        assert(heap.objects@.drop_last()[b as int] == mid[b as int]);
        assert(heap.objects@.take(b as int) =~= mid.drop_last());
    }
    let _ = t.typed_arrays.insert(
        p,
        TaInfo { buffer: b, offset: 0, len, elsize: 1, track: false },
    );
    Value::Obj(p)
}

} // verus!
