//! The fields of class instances on the compiled tiers.
//!
//! The field initializers of a class run as one synthetic method. Where that cannot be compiled,
//! the fields are initialized one by one.

use crate::ast::{ArrayElem, Expr, Stmt, NO_POS};
use crate::embed_convert::op_error::{new_error, OpError};
use crate::engine::Tier;
use crate::object::{
    is_private_key, lookup, only_props_changed, private_key, put, Exotic, Heap, Named, Object,
    Property,
};
use crate::text::same;
use crate::value::Value;
use std::collections::HashSet;
use vstd::prelude::*;

verus! {

broadcast use vstd::std_specs::hash::group_hash_axioms;

/// The initializer of a class.
pub enum FieldCode {
    /// Not tried yet: the constructions so far.
    Cold(u8),
    /// The synthetic method; `undefined` when there is nothing to compile.
    Ready(Value),
    /// Fields are initialized one by one.
    Off,
}

/// A field of a class.
pub struct Field {
    pub key: String,
    /// The initializer; none for `undefined`.
    pub init: Option<Expr>,
    /// The initializer is an anonymous function, which takes the field's name.
    pub anonymous_fn: bool,
    /// Decorators transform its value.
    pub transformed: bool,
}

/// A private method or accessor.
pub struct PrivateMember {
    pub key: String,
    pub prop: Property,
}

/// What is known of a class.
pub struct ClassInfo {
    pub fields: Vec<Field>,
    pub privates: Vec<PrivateMember>,
    pub initializers: Vec<Value>,
    pub code: FieldCode,
}

/// The constructions of a class before its initializer is compiled.
pub const COMPILE_AFTER: u8 = 0;

/// How the fields of an instance are initialized.
pub enum FieldPlan {
    /// There is nothing to do.
    Nothing,
    /// By the compiled initializer.
    Run(Value),
    /// The initializer is to be compiled first.
    Compile,
    /// One by one.
    Walk,
}

impl ClassInfo {
    /// There is nothing to initialize.
    pub open spec fn bare(self) -> bool {
        self.fields@.len() == 0 && self.privates@.len() == 0 && self.initializers@.len() == 0
    }

    /// How the fields of an instance are initialized.
    pub fn plan(&mut self) -> (r: FieldPlan)
        ensures
            final(self).fields == old(self).fields,
            final(self).privates == old(self).privates,
            final(self).initializers == old(self).initializers,
            if old(self).bare() {
                r is Nothing && *final(self) == *old(self)
            } else {
                match old(self).code {
                    FieldCode::Ready(f) => r == FieldPlan::Run(f) && *final(self) == *old(self),
                    FieldCode::Off => r is Walk && *final(self) == *old(self),
                    FieldCode::Cold(n) => if n < COMPILE_AFTER {
                        r is Walk && final(self).code == FieldCode::Cold((n + 1) as u8)
                    } else {
                        r is Compile && *final(self) == *old(self)
                    },
                }
            },
    {
        if self.fields.len() == 0 && self.privates.len() == 0 && self.initializers.len() == 0 {
            return FieldPlan::Nothing;
        }
        match &self.code {
            FieldCode::Ready(f) => FieldPlan::Run(f.duplicate()),
            FieldCode::Off => FieldPlan::Walk,
            FieldCode::Cold(n) => {
                let n: u8 = *n;
                if n < COMPILE_AFTER {
                    self.code = FieldCode::Cold(n + 1);
                    return FieldPlan::Walk;
                }
                FieldPlan::Compile
            },
        }
    }

    /// The initializer of the class, where it may be compiled: nothing is compiled for a class
    /// without fields, and `made` is what compiling gave for another one.
    pub open spec fn initializer(self, tier: Tier, made: Option<Value>) -> Option<Value> {
        if !self.eligible(tier) {
            None
        } else if self.fields@.len() == 0 {
            Some(Value::Undefined)
        } else {
            made
        }
    }

    /// The class's initializer is made and kept, or its fields are initialized one by one from
    /// now on. `made` is the function that compiling [`initializer_body`] gave; none where the
    /// compiler refused. It is only looked at where there is something to compile.
    pub fn compile_initializer(&mut self, tier: Tier, made: Option<Value>) -> (r: FieldPlan)
        ensures
            match old(self).initializer(tier, made) {
                Some(f) => {
                    &&& r == FieldPlan::Run(f)
                    &&& *final(self) == (ClassInfo { code: FieldCode::Ready(f), ..*old(self) })
                },
                None => {
                    &&& r is Walk
                    &&& *final(self) == (ClassInfo { code: FieldCode::Off, ..*old(self) })
                },
            },
    {
        let init: Option<Value> = if !self.can_compile(tier) {
            None
        } else if self.fields.len() == 0 {
            Some(Value::Undefined)
        } else {
            made
        };
        match init {
            Some(f) => {
                self.code = FieldCode::Ready(f.duplicate());
                FieldPlan::Run(f)
            },
            None => {
                self.code = FieldCode::Off;
                FieldPlan::Walk
            },
        }
    }

    /// Whether the initializer may be compiled: on a compiling tier, with no field that
    /// decorators transform.
    pub open spec fn eligible(self, tier: Tier) -> bool {
        tier != Tier::Interp && forall|i: int|
            0 <= i < self.fields@.len() ==> !(#[trigger] self.fields@[i]).transformed
    }

    /// Whether the initializer may be compiled.
    pub fn can_compile(&self, tier: Tier) -> (r: bool)
        ensures
            r == self.eligible(tier),
    {
        if tier == Tier::Interp {
            return false;
        }
        let mut i: usize = 0;
        while i < self.fields.len()
            invariant
                i <= self.fields@.len(),
                tier != Tier::Interp,
                forall|j: int| 0 <= j < i ==> !(#[trigger] self.fields@[j]).transformed,
            decreases self.fields@.len() - i,
        {
            if self.fields[i].transformed {
                return false;
            }
            i = i + 1;
        }
        true
    }
}

/// The name that the statements of a synthetic initializer call.
pub const DEFINE_FIELD: &'static str = "%DefineField%";

/// What marks the scope of a synthetic initializer, for direct `eval`s below it.
pub const FIELD_INIT: &'static str = "%fieldinit%";

/// What kind of function a code makes.
#[derive(Clone, Copy, Debug, PartialEq, Eq, Structural)]
pub struct FnKind {
    pub is_strict: bool,
    pub is_arrow: bool,
    pub is_method: bool,
    pub is_generator: bool,
    pub is_async: bool,
}

/// The kind of a synthetic initializer: a strict method.
pub fn initializer_kind() -> (r: FnKind)
    ensures
        r.is_strict,
        r.is_method,
        !r.is_arrow,
        !r.is_generator,
        !r.is_async,
{
    FnKind {
        is_strict: true,
        is_arrow: false,
        is_method: true,
        is_generator: false,
        is_async: false,
    }
}

/// The statement that defines a field: a call with the key, the value and whether the value takes
/// the field's name.
pub open spec fn defines(s: Stmt, f: Field) -> bool {
    s matches Stmt::Expr(Expr::Call { callee, args, pos }) && {
        &&& (*callee matches Expr::Ident(n) && n@ == DEFINE_FIELD@)
        &&& args@.len() == 3
        &&& (args@[0] matches ArrayElem::Item(Expr::Str(k)) && k@ == f.key@)
        &&& args@[1] == ArrayElem::Item(
            match f.init {
                Some(e) => e,
                None => Expr::Undefined,
            },
        )
        &&& args@[2] == ArrayElem::Item(Expr::Bool(f.init is Some && f.anonymous_fn))
        &&& pos == NO_POS
    }
}

/// The body of a class's synthetic initializer: one definition for each field, in order.
pub fn initializer_body(fields: Vec<Field>) -> (r: Vec<Stmt>)
    ensures
        r@.len() == fields@.len(),
        forall|i: int| 0 <= i < r@.len() ==> defines(#[trigger] r@[i], fields@[i]),
{
    let ghost fs = fields@;
    let mut rest = fields;
    let mut out: Vec<Stmt> = Vec::new();
    let n: usize = rest.len();
    let mut i: usize = 0;
    assert(rest@ =~= fs.skip(0));
    while i < n
        invariant
            i <= n,
            n == fs.len(),
            rest@ == fs.skip(i as int),
            out@.len() == i,
            forall|j: int| 0 <= j < i ==> defines(#[trigger] out@[j], fs[j]),
        decreases n - i,
    {
        let f = rest.remove(0);
        assert(f == fs[i as int]);
        assert(rest@ =~= fs.skip(i + 1));
        let Field { key, init, anonymous_fn, transformed } = f;
        let named = init.is_some() && anonymous_fn;
        let value = match init {
            Some(e) => e,
            None => Expr::Undefined,
        };
        let mut args: Vec<ArrayElem> = Vec::new();
        args.push(ArrayElem::Item(Expr::Str(key)));
        args.push(ArrayElem::Item(value));
        args.push(ArrayElem::Item(Expr::Bool(named)));
        let callee = Box::new(Expr::Ident(DEFINE_FIELD.to_owned()));
        out.push(Stmt::Expr(Expr::Call { callee, args, pos: NO_POS }));
        i = i + 1;
    }
    out
}

/// Properties with private members put in.
pub open spec fn with_privates(base: Named, ps: Seq<PrivateMember>) -> Named
    decreases ps.len(),
{
    if ps.len() == 0 {
        base
    } else {
        put(with_privates(base, ps.drop_last()), ps.last().key@, ps.last().prop)
    }
}

/// Why the private methods and accessors of a class cannot be added to an object: they are there,
/// or the object is not extensible.
pub open spec fn privates_fault(ob: Object, ps: Seq<PrivateMember>) -> Option<Seq<char>> {
    if ps.len() == 0 {
        None
    } else if lookup(ob.props@, ps[0].key@) is Some {
        Some("cannot initialize private methods of a class twice on the same object"@)
    } else if !ob.extensible {
        Some("cannot add private members to a non-extensible object"@)
    } else {
        None
    }
}

/// Adds the private methods and accessors of a class to an instance. Adding them twice, or to an
/// object that is not extensible, is a `TypeError`.
pub fn add_privates(heap: &mut Heap, this: &Value, ps: &Vec<PrivateMember>) -> (r: Result<(), OpError>)
    requires
        *this matches Value::Obj(o) ==> old(heap).has(o),
    ensures
        match *this {
            Value::Obj(o) => {
                let ob = old(heap).at(o);
                match privates_fault(ob, ps@) {
                    Some(m) => {
                        &&& r matches Err(e)
                        &&& e@ == new_error("TypeError"@, m)
                        &&& *final(heap) == *old(heap)
                    },
                    None => {
                        &&& r is Ok
                        &&& only_props_changed(
                            *old(heap),
                            *final(heap),
                            o,
                            with_privates(ob.props@, ps@),
                        )
                    },
                }
            },
            _ => r is Ok && *final(heap) == *old(heap),
        },
{
    let o: u64 = match this {
        Value::Obj(o) => *o,
        _ => {
            return Ok(());
        },
    };
    if ps.len() == 0 {
        return Ok(());
    }
    if heap.get(o).props.contains(ps[0].key.as_str()) {
        return Err(
            OpError::type_error(
                "cannot initialize private methods of a class twice on the same object",
            ),
        );
    }
    if !heap.get(o).extensible {
        return Err(
            OpError::type_error("cannot add private members to a non-extensible object"),
        );
    }
    let mut i: usize = 0;
    assert(ps@.take(0) =~= Seq::<PrivateMember>::empty());
    while i < ps.len()
        invariant
            i <= ps@.len(),
            old(heap).has(o),
            only_props_changed(
                *old(heap),
                *heap,
                o,
                with_privates(old(heap).at(o).props@, ps@.take(i as int)),
            ),
        decreases ps@.len() - i,
    {
        proof {
            assert(ps@.take(i + 1).drop_last() =~= ps@.take(i as int));
        }
        heap.set_prop(o, ps[i].key.as_str(), ps[i].prop.duplicate());
        i = i + 1;
    }
    assert(ps@.take(i as int) =~= ps@);
    Ok(())
}

/// The flags that running field initializers sets and puts back.
#[derive(Clone, Copy, Debug, PartialEq, Eq, Structural)]
pub struct FieldFlags {
    pub super_call_ok: bool,
    pub in_field_init_code: bool,
}

impl FieldFlags {
    /// Field initializers are about to run. Gives what to put back.
    pub fn enter_fields(&mut self) -> (r: FieldFlags)
        ensures
            r == *old(self),
            !final(self).super_call_ok,
            final(self).in_field_init_code,
    {
        let saved = FieldFlags {
            super_call_ok: self.super_call_ok,
            in_field_init_code: self.in_field_init_code,
        };
        self.super_call_ok = false;
        self.in_field_init_code = true;
        saved
    }

    /// They have run, or thrown.
    pub fn leave_fields(&mut self, saved: FieldFlags)
        ensures
            *final(self) == saved,
    {
        *self = saved;
    }
}

/// The functions that initialize an instance, in order: the compiled initializer, where there is
/// one, then the initializers of decorators. The first that throws ends it.
pub fn field_calls(init: &Value, initializers: &Vec<Value>) -> (r: Vec<Value>)
    ensures
        r@ == calls_of(*init, initializers@),
{
    let rest = crate::value::duplicate_all(initializers.as_slice());
    if init.is_undefined() {
        return rest;
    }
    let mut out: Vec<Value> = Vec::new();
    out.push(init.duplicate());
    let mut more = rest;
    out.append(&mut more);
    assert(out@ =~= seq![*init] + initializers@);
    out
}

/// Why the private members of a class cannot be added to a value.
pub open spec fn cannot_add(heap: Heap, this: Value, ps: Seq<PrivateMember>) -> Option<Seq<char>> {
    match this {
        Value::Obj(o) => privates_fault(heap.at(o), ps),
        _ => None,
    }
}

/// The private members of a class were added to a value.
pub open spec fn added(before: Heap, after: Heap, this: Value, ps: Seq<PrivateMember>) -> bool {
    match this {
        Value::Obj(o) => only_props_changed(
            before,
            after,
            o,
            with_privates(before.at(o).props@, ps),
        ),
        _ => after == before,
    }
}

/// The functions that initialize an instance, in order.
pub open spec fn calls_of(init: Value, initializers: Seq<Value>) -> Seq<Value> {
    if init == Value::Undefined {
        initializers
    } else {
        seq![init] + initializers
    }
}

/// Initializing an instance: the functions that are called, how many were, and the flags that are
/// put back at the end.
pub struct FieldRun {
    pub calls: Vec<Value>,
    pub next: usize,
    pub saved: FieldFlags,
}

/// What initializing an instance does next.
pub enum FieldStep {
    /// This function is called on the instance, without arguments.
    Call(Value),
    /// It has ended, perhaps with what was thrown.
    Done(Result<(), Value>),
}

impl FieldRun {
    /// Begins to initialize an instance: the private methods and accessors of its class come
    /// first. Where they cannot be added, nothing is run.
    pub fn begin(
        heap: &mut Heap,
        flags: &mut FieldFlags,
        this: &Value,
        ps: &Vec<PrivateMember>,
        init: &Value,
        initializers: &Vec<Value>,
    ) -> (r: Result<FieldRun, OpError>)
        requires
            *this matches Value::Obj(o) ==> old(heap).has(o),
        ensures
            match cannot_add(*old(heap), *this, ps@) {
                Some(m) => {
                    &&& r matches Err(e)
                    &&& e@ == new_error("TypeError"@, m)
                    &&& *final(heap) == *old(heap)
                    &&& *final(flags) == *old(flags)
                },
                None => {
                    &&& r matches Ok(run)
                    &&& added(*old(heap), *final(heap), *this, ps@)
                    &&& *final(flags) == (FieldFlags {
                        super_call_ok: false,
                        in_field_init_code: true,
                    })
                    &&& run.saved == *old(flags)
                    &&& run.next == 0
                    &&& run.calls@ == calls_of(*init, initializers@)
                },
            },
    {
        match add_privates(heap, this, ps) {
            Err(e) => Err(e),
            Ok(_) => {
                let saved = flags.enter_fields();
                Ok(FieldRun { calls: field_calls(init, initializers), next: 0, saved })
            },
        }
    }

    /// What follows, given how the last call ended (that it did, before the first one). A call
    /// that throws is the last; the flags are put back at the end, however it came.
    pub fn step(&mut self, flags: &mut FieldFlags, last: Result<(), Value>) -> (r: FieldStep)
        requires
            old(self).next <= old(self).calls@.len(),
        ensures
            if last is Err || old(self).next == old(self).calls@.len() {
                &&& r == FieldStep::Done(last)
                &&& *final(flags) == old(self).saved
                &&& *final(self) == *old(self)
            } else {
                &&& r == FieldStep::Call(old(self).calls@[old(self).next as int])
                &&& *final(flags) == *old(flags)
                &&& *final(self) == (FieldRun { next: (old(self).next + 1) as usize, ..*old(self) })
            },
    {
        match last {
            Err(e) => {
                flags.leave_fields(self.saved);
                FieldStep::Done(Err(e))
            },
            Ok(u) => {
                if self.next == self.calls.len() {
                    flags.leave_fields(self.saved);
                    return FieldStep::Done(Ok(u));
                }
                let f: Value = self.calls[self.next].duplicate();
                self.next = self.next + 1;
                FieldStep::Call(f)
            },
        }
    }
}

/// The objects that properties are not defined on in the ordinary way.
pub struct SpecialObjects {
    pub proxies: HashSet<u64>,
    pub typed_arrays: HashSet<u64>,
    /// Namespaces of modules that are not evaluated yet.
    pub deferred: HashSet<u64>,
    pub global: u64,
}

impl SpecialObjects {
    pub open spec fn spec_has(self, o: u64) -> bool {
        self.proxies@.contains(o) || self.typed_arrays@.contains(o) || self.deferred@.contains(o)
            || o == self.global
    }

    /// Whether an object is one of them.
    pub fn has(&self, o: u64) -> (r: bool)
        ensures
            r == self.spec_has(o),
    {
        self.proxies.contains(&o) || self.typed_arrays.contains(&o) || self.deferred.contains(&o)
            || o == self.global
    }
}

/// What defining a field comes to.
pub enum FieldDefined {
    Done,
    Throws(OpError),
    /// The ordinary definition, which may run code, is to be made.
    Ordinary,
}

/// Whether a key's first character may begin a number.
pub open spec fn maybe_numeric(key: Seq<char>) -> bool {
    key.len() == 0 || '0' <= key[0] <= '9' || key[0] == '-' || key[0] == 'I' || key[0] == 'N'
}

/// Why a private field cannot be added to an object: it is there, or the object is not extensible.
pub open spec fn field_fault(ob: Object, key: Seq<char>) -> Option<Seq<char>> {
    if lookup(ob.props@, key) is Some {
        Some("cannot initialize the same private field twice"@)
    } else if !ob.extensible {
        Some("cannot add a private field to a non-extensible object"@)
    } else {
        None
    }
}

/// Defines a field on an instance. A private one is put on the object itself; adding it twice, or
/// to an object that is not extensible, is a `TypeError`. A public one that is new on an ordinary,
/// extensible object with no behaviour elsewhere is put there; anything else takes the ordinary
/// definition.
pub fn define_instance_field(
    heap: &mut Heap,
    this: &Value,
    key: &str,
    v: Value,
    specials: &SpecialObjects,
) -> (r: FieldDefined)
    requires
        *this matches Value::Obj(o) ==> old(heap).has(o),
    ensures
        match *this {
            Value::Obj(o) => {
                let ob = old(heap).at(o);
                let there = lookup(ob.props@, key@) is Some;
                if private_key(key@) {
                    match field_fault(ob, key@) {
                        Some(m) => {
                            &&& r matches FieldDefined::Throws(e)
                            &&& e@ == new_error("TypeError"@, m)
                            &&& *final(heap) == *old(heap)
                        },
                        None => {
                            &&& r is Done
                            &&& only_props_changed(
                                *old(heap),
                                *final(heap),
                                o,
                                put(ob.props@, key@, Property::spec_data(v, true, false, false)),
                            )
                        },
                    }
                } else if !maybe_numeric(key@) && ob.exotic == Exotic::Ordinary && ob.extensible
                    && !there && !specials.spec_has(o) {
                    &&& r is Done
                    &&& only_props_changed(
                        *old(heap),
                        *final(heap),
                        o,
                        put(ob.props@, key@, Property::spec_data(v, true, true, true)),
                    )
                } else {
                    r is Ordinary && *final(heap) == *old(heap)
                }
            },
            _ => {
                &&& *final(heap) == *old(heap)
                &&& if private_key(key@) {
                    r matches FieldDefined::Throws(e) && e@ == new_error(
                        "TypeError"@,
                        "cannot add a private field"@,
                    )
                } else {
                    r is Ordinary
                }
            },
        },
{
    let o: u64 = match this {
        Value::Obj(o) => *o,
        _ => {
            return if is_private_key(key) {
                FieldDefined::Throws(OpError::type_error("cannot add a private field"))
            } else {
                FieldDefined::Ordinary
            };
        },
    };
    let there = heap.get(o).props.contains(key);
    if is_private_key(key) {
        if there {
            return FieldDefined::Throws(
                OpError::type_error("cannot initialize the same private field twice"),
            );
        }
        if !heap.get(o).extensible {
            return FieldDefined::Throws(
                OpError::type_error("cannot add a private field to a non-extensible object"),
            );
        }
        heap.set_prop(o, key, Property::data(v, true, false, false));
        return FieldDefined::Done;
    }
    let cs = crate::text::chars_of(key);
    let numeric = cs.len() == 0 || (cs[0] >= '0' && cs[0] <= '9') || cs[0] == '-' || cs[0] == 'I'
        || cs[0] == 'N';
    let ob = heap.get(o);
    if !numeric && ob.exotic == Exotic::Ordinary && ob.extensible && !there && !specials.has(o) {
        heap.set_prop(o, key, Property::plain(v));
        FieldDefined::Done
    } else {
        FieldDefined::Ordinary
    }
}

/// A private field that was added is there, and adding it again is refused.
pub proof fn lemma_private_fields_are_added_once(
    before: Heap,
    after: Heap,
    o: u64,
    key: Seq<char>,
    p: Property,
)
    requires
        before.has(o),
        only_props_changed(before, after, o, put(before.at(o).props@, key, p)),
    ensures
        lookup(after.at(o).props@, key) == Some(p),
        field_fault(after.at(o), key) == Some("cannot initialize the same private field twice"@),
{
    crate::object::lemma_put_reads_back(before.at(o).props@, key, p, key);
}

/// The private methods and accessors of a class are added to an object once: adding them again is
/// refused.
pub proof fn lemma_private_members_are_added_once(
    before: Heap,
    after: Heap,
    o: u64,
    ps: Seq<PrivateMember>,
)
    requires
        before.has(o),
        ps.len() > 0,
        only_props_changed(before, after, o, with_privates(before.at(o).props@, ps)),
    ensures
        privates_fault(after.at(o), ps) == Some(
            "cannot initialize private methods of a class twice on the same object"@,
        ),
{
    lemma_first_private_is_there(before.at(o).props@, ps);
}

proof fn lemma_first_private_is_there(base: Named, ps: Seq<PrivateMember>)
    requires
        ps.len() > 0,
    ensures
        lookup(with_privates(base, ps), ps[0].key@) is Some,
    decreases ps.len(),
{
    crate::object::lemma_put_reads_back(
        with_privates(base, ps.drop_last()),
        ps.last().key@,
        ps.last().prop,
        ps[0].key@,
    );
    if ps.len() > 1 {
        lemma_first_private_is_there(base, ps.drop_last());
        assert(ps.drop_last()[0] == ps[0]);
    }
}

} // verus!
