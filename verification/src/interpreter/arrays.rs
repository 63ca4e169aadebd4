//! Arrays made from values.

use crate::interpreter::interp::Interp;
use crate::object::{put, Exotic, Named, Object, PropKind, Property};
use crate::value::Value;
use vstd::prelude::*;

verus! {

/// The elements of an array that was made from values.
pub open spec fn plain_elems(items: Seq<Value>) -> Seq<Option<Property>> {
    Seq::new(items.len(), |i: int| Some(Property::spec_data(items[i], true, true, true)))
}

/// The `length` of an array: writable, and nothing else.
pub open spec fn is_length(p: (Seq<char>, Property), n: int) -> bool {
    &&& p.0 == "length"@
    &&& (p.1.kind matches PropKind::Data(Value::Num(x)) && crate::num::integer_value(x) == Some(n))
    &&& p.1.writable && !p.1.enumerable && !p.1.configurable
}

/// An array of values, with more own properties behind its `length`.
pub open spec fn is_array(o: Object, proto: u64, items: Seq<Value>, more: Named) -> bool {
    &&& o.proto == Some(proto)
    &&& o.exotic == Exotic::Array
    &&& o.call == crate::object::Callable::Never
    &&& !o.is_constructor
    &&& o.extensible
    &&& o.ic_plain
    &&& o.elems@ == plain_elems(items)
    &&& o.props@.len() == 1 + more.len()
    &&& is_length(o.props@[0], items.len() as int)
    &&& o.props@.skip(1) == more
}

/// Makes an array of values.
pub fn array_object(proto: u64, items: Vec<Value>) -> (o: Object)
    requires
        items@.len() < 0x20_0000_0000_0000,
    ensures
        is_array(o, proto, items@, Seq::empty()),
{
    let ghost vs = items@;
    let n: usize = items.len();
    let mut o = Object::new(Some(proto));
    o.exotic = Exotic::Array;
    let len: u64 = crate::num::from_int(n as u64);
    o.props.insert("length", Property::data(Value::Num(len), true, false, false));
    proof {
        let e = Seq::<(Seq<char>, Property)>::empty();
        let l = Property::spec_data(Value::Num(len), true, false, false);
        assert(put(e, "length"@, l) =~= seq![("length"@, l)]);
        assert(o.props@.skip(1) =~= Seq::<(Seq<char>, Property)>::empty());
    }
    let mut i: usize = 0;
    while i < n
        invariant
            i <= n,
            n == items@.len(),
            vs == items@,
            o.proto == Some(proto),
            o.exotic == Exotic::Array,
            o.call == crate::object::Callable::Never,
            !o.is_constructor,
            o.extensible,
            o.ic_plain,
            o.props@.len() == 1,
            is_length(o.props@[0], n as int),
            o.props@.skip(1) == Seq::<(Seq<char>, Property)>::empty(),
            o.elems@ == plain_elems(vs.take(i as int)),
        decreases n - i,
    {
        o.elems.push(Some(Property::plain(items[i].duplicate())));
        i = i + 1;
        assert(o.elems@ =~= plain_elems(vs.take(i as int)));
    }
    assert(vs.take(i as int) =~= vs);
    o
}

impl Interp {
    /// An array of values.
    pub fn make_array(&mut self, items: Vec<Value>) -> (r: Value)
        requires
            old(self).wf(),
            old(self).room(1),
            items@.len() < 0x20_0000_0000_0000,
        ensures
            final(self).wf(),
            r == Value::Obj(old(self).heap.objects@.len() as u64),
            final(self).heap.objects@.len() == old(self).heap.objects@.len() + 1,
            final(self).heap.objects@.drop_last() == old(self).heap.objects@,
            is_array(
                final(self).heap.objects@.last(),
                old(self).array_proto,
                items@,
                Seq::empty(),
            ),
            *final(self) == (Interp { heap: final(self).heap, ..*old(self) }),
    {
        let o = array_object(self.array_proto, items);
        let id = self.heap.add_object(o);
        assert(self.heap.objects@.drop_last() =~= old(self).heap.objects@);
        Value::Obj(id)
    }

    /// The match array of a regular expression: the captures, and where the match starts, the
    /// text and the named groups.
    pub fn make_exec_result(
        &mut self,
        items: Vec<Value>,
        index: Value,
        input: Value,
        groups: Value,
    ) -> (r: Value)
        requires
            old(self).wf(),
            old(self).room(1),
            items@.len() < 0x20_0000_0000_0000,
        ensures
            final(self).wf(),
            r == Value::Obj(old(self).heap.objects@.len() as u64),
            final(self).heap.objects@.len() == old(self).heap.objects@.len() + 1,
            final(self).heap.objects@.drop_last() == old(self).heap.objects@,
            is_array(
                final(self).heap.objects@.last(),
                old(self).array_proto,
                items@,
                seq![
                    ("index"@, Property::spec_data(index, true, true, true)),
                    ("input"@, Property::spec_data(input, true, true, true)),
                    ("groups"@, Property::spec_data(groups, true, true, true)),
                ],
            ),
            *final(self) == (Interp { heap: final(self).heap, ..*old(self) }),
    {
        let ghost vs = items@;
        let mut o = array_object(self.array_proto, items);
        let ghost s0 = o.props@;
        let ghost a = Property::spec_data(index, true, true, true);
        let ghost b = Property::spec_data(input, true, true, true);
        let ghost c = Property::spec_data(groups, true, true, true);
        o.props.insert("index", Property::plain(index));
        o.props.insert("input", Property::plain(input));
        o.props.insert("groups", Property::plain(groups));
        proof {
            reveal_strlit("length");
            reveal_strlit("index");
            reveal_strlit("input");
            reveal_strlit("groups");
            assert("length"@[0] != "index"@[0]);
            assert("length"@[0] != "input"@[0]);
            assert("length"@[0] != "groups"@[0]);
            assert("index"@[2] != "input"@[2]);
            assert("index"@[0] != "groups"@[0]);
            assert("input"@[0] != "groups"@[0]);
            crate::object::lemma_index_of_key_is(s0, "index"@, 1);
            let s1 = s0.push(("index"@, a));
            crate::object::lemma_index_of_key_is(s1, "input"@, 2);
            let s2 = s1.push(("input"@, b));
            crate::object::lemma_index_of_key_is(s2, "groups"@, 3);
            assert(o.props@ =~= s2.push(("groups"@, c)));
            assert(o.props@.skip(1) =~= seq![("index"@, a), ("input"@, b), ("groups"@, c)]);
        }
        let id = self.heap.add_object(o);
        assert(self.heap.objects@.drop_last() =~= old(self).heap.objects@);
        Value::Obj(id)
    }
}

/// An array that was made from values holds them, in order, under its indices, and no others.
pub proof fn lemma_array_elements_read_back(o: Object, proto: u64, items: Seq<Value>, more: Named, i: int)
    requires
        is_array(o, proto, items, more),
        0 <= i < items.len(),
    ensures
        o.elems@.len() == items.len(),
        o.elems@[i] == Some(Property::spec_data(items[i], true, true, true)),
{
}

} // verus!
