//! Scopes and their bindings.

use crate::text::same;
use crate::value::Value;
use vstd::prelude::*;

verus! {

/// A binding of a scope.
pub struct Binding {
    pub value: Value,
    pub initialized: bool,
    pub mutable: bool,
    /// It stands for a binding of another module.
    pub import: bool,
}

impl Binding {
    /// A binding that holds a value.
    pub fn data(value: Value, mutable: bool, initialized: bool) -> (r: Binding)
        ensures
            r == (Binding { value, initialized, mutable, import: false }),
    {
        Binding { value, initialized, mutable, import: false }
    }
}

/// A named binding.
pub struct Var {
    pub name: String,
    pub binding: Binding,
}

/// The bindings of a scope. One that was made from a layout, and whose names have not changed
/// since, has the names of the layout in order. Every change of the names is a new generation.
pub struct VarMap {
    pub vars: Vec<Var>,
    /// The layout, while the names are those of one.
    pub layout: Option<u64>,
    pub generation: u32,
}

/// The names of bindings, in order.
pub open spec fn var_names(vs: Seq<Var>) -> Seq<Seq<char>> {
    Seq::new(vs.len(), |i: int| vs[i].name@)
}

/// The index of a name; the length when it is not there.
pub open spec fn name_index(names: Seq<Seq<char>>, name: Seq<char>) -> nat
    decreases names.len(),
{
    if names.len() == 0 || names[0] == name {
        0
    } else {
        1 + name_index(names.drop_first(), name)
    }
}

pub proof fn lemma_name_index_is(names: Seq<Seq<char>>, name: Seq<char>, k: int)
    requires
        0 <= k <= names.len(),
        forall|i: int| 0 <= i < k ==> names[i] != name,
        k < names.len() ==> names[k] == name,
    ensures
        name_index(names, name) == k,
    decreases k,
{
    if k > 0 {
        let d = names.drop_first();
        assert forall|i: int| 0 <= i < k - 1 implies d[i] != name by {
            assert(names[i + 1] != name);
        }
        assert(names[0] != name);
        lemma_name_index_is(d, name, k - 1);
    }
}

impl VarMap {
    pub open spec fn names(self) -> Seq<Seq<char>> {
        var_names(self.vars@)
    }

    /// No bindings.
    pub fn new() -> (r: VarMap)
        ensures
            r.vars@.len() == 0,
            r.layout is None,
            r.generation == 0,
    {
        VarMap { vars: Vec::new(), layout: None, generation: 0 }
    }

    /// The bindings of a layout: every name is bound to `undefined`.
    pub fn from_layout(layout: u64, names: &Vec<String>) -> (r: VarMap)
        ensures
            r.layout == Some(layout),
            r.generation == 0,
            r.names() == Seq::new(names@.len(), |i: int| names@[i]@),
            forall|i: int|
                0 <= i < r.vars@.len() ==> (#[trigger] r.vars@[i]).binding == (Binding {
                    value: Value::Undefined,
                    initialized: true,
                    mutable: true,
                    import: false,
                }),
    {
        let mut vars: Vec<Var> = Vec::new();
        let mut i: usize = 0;
        while i < names.len()
            invariant
                i <= names@.len(),
                vars@.len() == i,
                forall|j: int|
                    0 <= j < i ==> (#[trigger] vars@[j]).name@ == names@[j]@ && vars@[j].binding
                        == (Binding {
                        value: Value::Undefined,
                        initialized: true,
                        mutable: true,
                        import: false,
                    }),
            decreases names@.len() - i,
        {
            vars.push(
                Var {
                    name: names[i].clone(),
                    binding: Binding {
                        value: Value::Undefined,
                        initialized: true,
                        mutable: true,
                        import: false,
                    },
                },
            );
            i = i + 1;
        }
        let r = VarMap { vars, layout: Some(layout), generation: 0 };
        assert(r.names() =~= Seq::new(names@.len(), |i: int| names@[i]@));
        r
    }

    /// The index of a name; the length when it is not bound.
    pub fn find(&self, name: &str) -> (r: usize)
        ensures
            r == name_index(self.names(), name@),
            r <= self.vars@.len(),
    {
        let mut i: usize = 0;
        while i < self.vars.len()
            invariant
                i <= self.vars@.len(),
                forall|j: int| 0 <= j < i ==> self.names()[j] != name@,
            decreases self.vars@.len() - i,
        {
            assert(self.names()[i as int] == self.vars@[i as int].name@);
            if same(self.vars[i].name.as_str(), name) {
                proof {
                    lemma_name_index_is(self.names(), name@, i as int);
                }
                return i;
            }
            i = i + 1;
        }
        proof {
            lemma_name_index_is(self.names(), name@, i as int);
        }
        i
    }

    /// Binds a name. A new name ends the layout and the generation.
    pub fn insert(&mut self, name: &str, b: Binding)
        requires
            old(self).generation < u32::MAX,
        ensures
            ({
                let i = name_index(old(self).names(), name@) as int;
                if i < old(self).vars@.len() {
                    &&& final(self).names() == old(self).names()
                    &&& final(self).vars@.len() == old(self).vars@.len()
                    &&& final(self).vars@[i].binding == b
                    &&& final(self).layout == old(self).layout
                    &&& final(self).generation == old(self).generation
                    &&& forall|j: int|
                        0 <= j < old(self).vars@.len() && j != i ==> (#[trigger] final(
                            self).vars@[j]) == old(self).vars@[j]
                } else {
                    &&& final(self).names() == old(self).names().push(name@)
                    &&& final(self).vars@.len() == old(self).vars@.len() + 1
                    &&& final(self).vars@.last().binding == b
                    &&& final(self).vars@.drop_last() == old(self).vars@
                    &&& final(self).layout is None
                    &&& final(self).generation == old(self).generation + 1
                }
            }),
    {
        let i = self.find(name);
        if i < self.vars.len() {
            self.vars[i].binding = b;
            assert(self.names() =~= old(self).names());
        } else {
            self.vars.push(Var { name: name.to_owned(), binding: b });
            self.layout = None;
            self.generation = self.generation + 1;
            assert(self.names() =~= old(self).names().push(name@));
            assert(self.vars@.drop_last() =~= old(self).vars@);
        }
    }

    /// Removes a name. That ends the layout and the generation.
    pub fn remove(&mut self, name: &str)
        requires
            old(self).generation < u32::MAX,
        ensures
            ({
                let i = name_index(old(self).names(), name@) as int;
                if i < old(self).vars@.len() {
                    &&& final(self).vars@ == old(self).vars@.remove(i)
                    &&& final(self).layout is None
                    &&& final(self).generation == old(self).generation + 1
                } else {
                    *final(self) == *old(self)
                }
            }),
    {
        let i = self.find(name);
        if i < self.vars.len() {
            let _ = self.vars.remove(i);
            self.layout = None;
            self.generation = self.generation + 1;
        }
    }
}

/// A scope. `with_obj`: it looks names up on an object.
pub struct Scope {
    pub vars: VarMap,
    pub parent: Option<u64>,
    pub with_obj: bool,
}

/// The scopes; an identity is an index.
pub struct Scopes {
    pub scopes: Vec<Scope>,
}

impl Scopes {
    pub open spec fn has(self, id: u64) -> bool {
        id < self.scopes@.len()
    }

    pub open spec fn at(self, id: u64) -> Scope {
        self.scopes@[id as int]
    }

    /// No scopes.
    pub fn new() -> (r: Scopes)
        ensures
            r.scopes@.len() == 0,
    {
        Scopes { scopes: Vec::new() }
    }

    /// Adds a scope.
    pub fn add_scope(&mut self, parent: Option<u64>, vars: VarMap) -> (r: u64)
        requires
            old(self).scopes@.len() < u64::MAX,
        ensures
            r == old(self).scopes@.len(),
            final(self).scopes@ == old(self).scopes@.push(
                Scope { vars, parent, with_obj: false },
            ),
    {
        let r: u64 = self.scopes.len() as u64;
        self.scopes.push(Scope { vars, parent, with_obj: false });
        r
    }

    /// Whether an identity is that of a scope.
    pub fn holds(&self, id: u64) -> (r: bool)
        ensures
            r == self.has(id),
    {
        id < self.scopes.len() as u64
    }

    /// The scope with an identity.
    pub fn get(&self, id: u64) -> (r: &Scope)
        requires
            self.has(id),
        ensures
            *r == self.at(id),
    {
        assert(self.scopes.len() == self.scopes@.len());
        &self.scopes[id as usize]
    }

    /// Sets the value of a binding.
    pub fn set_value(&mut self, id: u64, slot: usize, v: Value)
        requires
            old(self).has(id),
            slot < old(self).at(id).vars.vars@.len(),
        ensures
            stored(*old(self), *final(self), id, slot, v),
    {
        assert(self.scopes.len() == self.scopes@.len());
        self.scopes[id as usize].vars.vars[slot].binding.value = v;
    }
}

/// One binding's value is set, and nothing else.
pub open spec fn stored(a: Scopes, b: Scopes, id: u64, slot: usize, v: Value) -> bool {
    &&& b.scopes@.len() == a.scopes@.len()
    &&& forall|i: int| 0 <= i < a.scopes@.len() && i != id ==> #[trigger] b.scopes@[i] == a.scopes@[i]
    &&& ({
        let x = a.at(id);
        let y = b.at(id);
        let var = x.vars.vars@[slot as int];
        &&& y.parent == x.parent
        &&& y.with_obj == x.with_obj
        &&& y.vars.layout == x.vars.layout
        &&& y.vars.generation == x.vars.generation
        &&& y.vars.vars@ == x.vars.vars@.update(
            slot as int,
            Var { binding: Binding { value: v, ..var.binding }, ..var },
        )
    })
}

} // verus!
