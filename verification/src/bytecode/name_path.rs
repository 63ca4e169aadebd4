//! Name resolution through guarded scope paths, without looking the name up again.
//!
//! A path remembers the scopes that a resolution went through, each by its layout or by itself,
//! and where it ended. It reads the current value while every guard holds.

use crate::interpreter::scope::{name_index, stored, Binding, Scope, Scopes};
use crate::object::{index_of_key, Named, PropKind, Property, Props};
use crate::value::Value;
use vstd::prelude::*;

verus! {

/// The longest path.
pub const MAX_DEPTH: usize = 8;

/// What a scope on a path must still be.
#[derive(Clone, Copy, Debug, PartialEq, Eq, Structural)]
pub enum ScopeGuard {
    /// Any scope with this layout.
    Layout(u64),
    /// This scope, with the names it had.
    Exact { scope: u64, generation: u32 },
}

/// Where a path ends.
#[derive(Clone, Copy, Debug, PartialEq, Eq, Structural)]
pub enum Holder {
    /// A binding of the last scope, which is an exact one.
    Binding(usize),
    /// A binding of whatever scope has the last layout.
    Slot(usize),
    /// A property of the global object.
    Global { object: u64, shape: u32, slot: usize },
}

/// A realm's global object, as a path sees it. A shape fixes the keys and their order.
pub struct GlobalView {
    /// The global scope.
    pub env: u64,
    pub object: u64,
    /// Reading its properties runs no code of a proxy or a module.
    pub ordinary: bool,
    pub exotic: bool,
    pub shape: u32,
    pub props: Props,
}

/// A path.
pub struct NamePath {
    guards: Vec<ScopeGuard>,
    holder: Holder,
}

pub struct NamePathView {
    pub guards: Seq<ScopeGuard>,
    pub holder: Holder,
}

impl View for NamePath {
    type V = NamePathView;

    closed spec fn view(&self) -> NamePathView {
        NamePathView { guards: self.guards@, holder: self.holder }
    }
}

/// The guard of a scope.
pub open spec fn guard_of(id: u64, s: Scope) -> ScopeGuard {
    match s.vars.layout {
        Some(l) => ScopeGuard::Layout(l),
        None => ScopeGuard::Exact { scope: id, generation: s.vars.generation },
    }
}

/// Whether a guard holds of a scope.
pub open spec fn holds(g: ScopeGuard, id: u64, s: Scope) -> bool {
    !s.with_obj && match g {
        ScopeGuard::Layout(l) => s.vars.layout == Some(l),
        ScopeGuard::Exact { scope, generation } => id == scope && s.vars.generation == generation,
    }
}

/// The value of a binding that can be read: initialized, and no import.
pub open spec fn readable(b: Binding) -> Option<Value> {
    if b.initialized && !b.import {
        Some(b.value)
    } else {
        None
    }
}

/// The value of the global object's property in a slot, while its shape is the one given.
pub open spec fn global_data(g: GlobalView, shape: u32, slot: usize) -> Option<Value> {
    if !g.ordinary || g.exotic || g.shape != shape || slot >= g.props@.len() {
        None
    } else {
        match g.props@[slot as int].1.kind {
            PropKind::Data(v) => Some(v),
            PropKind::Accessor { .. } => None,
        }
    }
}

/// The scope that a path from `env` ends in, when the guards from the `k`-th on hold.
pub open spec fn end_scope(scopes: Scopes, guards: Seq<ScopeGuard>, env: u64, k: int) -> Option<u64>
    decreases guards.len() - k,
{
    if !(0 <= k < guards.len()) || !scopes.has(env) || !holds(guards[k], env, scopes.at(env)) {
        None
    } else if k + 1 == guards.len() {
        Some(env)
    } else {
        match scopes.at(env).parent {
            Some(p) => end_scope(scopes, guards, p, k + 1),
            None => None,
        }
    }
}

/// The binding that a path ends in.
pub open spec fn end_binding(scopes: Scopes, p: NamePathView, env: u64) -> Option<(u64, usize)> {
    match end_scope(scopes, p.guards, env, 0) {
        None => None,
        Some(id) => {
            let s = scopes.at(id);
            match p.holder {
                Holder::Binding(k) => if k < s.vars.vars@.len() {
                    Some((id, k))
                } else {
                    None
                },
                Holder::Slot(k) => if s.vars.layout is Some && k < s.vars.vars@.len() {
                    Some((id, k))
                } else {
                    None
                },
                Holder::Global { .. } => None,
            }
        },
    }
}

/// What a path reads.
pub open spec fn path_value(scopes: Scopes, g: GlobalView, p: NamePathView, env: u64) -> Option<
    Value,
> {
    match p.holder {
        Holder::Global { object, shape, slot } => match end_scope(scopes, p.guards, env, 0) {
            Some(id) => if id == g.env && object == g.object {
                global_data(g, shape, slot)
            } else {
                None
            },
            None => None,
        },
        _ => match end_binding(scopes, p, env) {
            Some((id, k)) => readable(scopes.at(id).vars.vars@[k as int].binding),
            None => None,
        },
    }
}

/// What building a path from a scope on comes to, when `depth` scopes lie before it: the guards
/// and the end, and the value.
pub open spec fn built(
    scopes: Scopes,
    g: GlobalView,
    cur: u64,
    name: Seq<char>,
    depth: nat,
    guards: Seq<ScopeGuard>,
) -> Option<(NamePathView, Value)>
    decreases MAX_DEPTH - depth,
{
    if depth >= MAX_DEPTH || !scopes.has(cur) {
        None
    } else {
        let s = scopes.at(cur);
        let i = name_index(s.vars.names(), name) as int;
        let gs = guards.push(guard_of(cur, s));
        if s.with_obj {
            None
        } else if i < s.vars.vars@.len() {
            match readable(s.vars.vars@[i].binding) {
                Some(v) => if depth == 0 {
                    None
                } else {
                    let holder = if s.vars.layout is Some {
                        Holder::Slot(i as usize)
                    } else {
                        Holder::Binding(i as usize)
                    };
                    Some((NamePathView { guards: gs, holder }, v))
                },
                None => None,
            }
        } else if cur == g.env {
            let k = index_of_key(g.props@, name);
            if depth == 0 || k >= g.props@.len() {
                None
            } else {
                match global_data(g, g.shape, k as usize) {
                    Some(v) => Some(
                        (
                            NamePathView {
                                guards: gs,
                                holder: Holder::Global {
                                    object: g.object,
                                    shape: g.shape,
                                    slot: k as usize,
                                },
                            },
                            v,
                        ),
                    ),
                    None => None,
                }
            }
        } else {
            match s.parent {
                Some(p) => built(scopes, g, p, name, depth + 1, gs),
                None => None,
            }
        }
    }
}

/// What a name means in a scope: the value of the first binding on the way up, or of the global
/// object's property. None where it is not there, not initialized, an import or an accessor, or
/// where a scope on the way looks names up on an object.
pub open spec fn meaning(scopes: Scopes, g: GlobalView, cur: u64, name: Seq<char>, fuel: nat) -> Option<
    Value,
>
    decreases fuel,
{
    if fuel == 0 || !scopes.has(cur) {
        None
    } else {
        let s = scopes.at(cur);
        let i = name_index(s.vars.names(), name) as int;
        if s.with_obj {
            None
        } else if i < s.vars.vars@.len() {
            readable(s.vars.vars@[i].binding)
        } else if cur == g.env {
            let k = index_of_key(g.props@, name);
            if k >= g.props@.len() {
                None
            } else {
                global_data(g, g.shape, k as usize)
            }
        } else {
            match s.parent {
                Some(p) => meaning(scopes, g, p, name, (fuel - 1) as nat),
                None => None,
            }
        }
    }
}

fn scope_guard(id: u64, s: &Scope) -> (r: ScopeGuard)
    ensures
        r == guard_of(id, *s),
{
    match s.vars.layout {
        Some(l) => ScopeGuard::Layout(l),
        None => ScopeGuard::Exact { scope: id, generation: s.vars.generation },
    }
}

fn guard_matches(g: ScopeGuard, id: u64, s: &Scope) -> (r: bool)
    ensures
        r == holds(g, id, *s),
{
    if s.with_obj {
        return false;
    }
    match g {
        ScopeGuard::Layout(l) => match s.vars.layout {
            Some(m) => m == l,
            None => false,
        },
        ScopeGuard::Exact { scope, generation } => id == scope && s.vars.generation == generation,
    }
}

fn read_binding(b: &Binding) -> (r: Option<Value>)
    ensures
        r == readable(*b),
{
    if b.initialized && !b.import {
        Some(b.value.duplicate())
    } else {
        None
    }
}

fn global_value(g: &GlobalView, shape: u32, slot: usize) -> (r: Option<Value>)
    ensures
        r == global_data(*g, shape, slot),
{
    if !g.ordinary || g.exotic || g.shape != shape || slot >= g.props.items.len() {
        return None;
    }
    match g.props.items[slot].prop.data_value() {
        Some(v) => Some(v.duplicate()),
        None => None,
    }
}

impl NamePath {
    fn resolve(&self, scopes: &Scopes, env: u64) -> (r: Option<u64>)
        ensures
            r == end_scope(*scopes, self@.guards, env, 0),
            r matches Some(id) ==> scopes.has(id),
    {
        let mut cur: u64 = env;
        let mut k: usize = 0;
        while k < self.guards.len()
            invariant
                k <= self.guards@.len(),
                end_scope(*scopes, self.guards@, cur, k as int) == end_scope(
                    *scopes,
                    self.guards@,
                    env,
                    0,
                ),
            decreases self.guards@.len() - k,
        {
            if !scopes.holds(cur) {
                return None;
            }
            let s = scopes.get(cur);
            if !guard_matches(self.guards[k], cur, s) {
                return None;
            }
            if k + 1 == self.guards.len() {
                return Some(cur);
            }
            match s.parent {
                Some(p) => {
                    cur = p;
                },
                None => {
                    return None;
                },
            }
            k = k + 1;
        }
        None
    }

    fn find_binding(&self, scopes: &Scopes, env: u64) -> (r: Option<(u64, usize)>)
        ensures
            r == end_binding(*scopes, self@, env),
            r matches Some((id, k)) ==> scopes.has(id) && k < scopes.at(id).vars.vars@.len(),
    {
        let id: u64 = match self.resolve(scopes, env) {
            Some(id) => id,
            None => {
                return None;
            },
        };
        let s = scopes.get(id);
        match self.holder {
            Holder::Binding(k) => if k < s.vars.vars.len() {
                Some((id, k))
            } else {
                None
            },
            Holder::Slot(k) => if s.vars.layout.is_some() && k < s.vars.vars.len() {
                Some((id, k))
            } else {
                None
            },
            Holder::Global { .. } => None,
        }
    }

    /// The binding that a path ends in, when it is initialized, no import, and mutable if it is
    /// to be written.
    pub fn binding_ptr(&self, scopes: &Scopes, env: u64, write: bool) -> (r: Option<(u64, usize)>)
        ensures
            r == usable_binding(*scopes, self@, env, write),
            r matches Some((id, k)) ==> scopes.has(id) && k < scopes.at(id).vars.vars@.len(),
    {
        match self.find_binding(scopes, env) {
            Some((id, k)) => {
                let b = &scopes.get(id).vars.vars[k].binding;
                if b.initialized && !b.import && (!write || b.mutable) {
                    Some((id, k))
                } else {
                    None
                }
            },
            None => None,
        }
    }

    /// The global object's slot that a path ends in, while it is a data property.
    pub fn global_slot(&self, scopes: &Scopes, g: &GlobalView, env: u64) -> (r: Option<usize>)
        ensures
            r == usable_global(*scopes, *g, self@, env),
    {
        match self.holder {
            Holder::Global { object, shape, slot } => match self.resolve(scopes, env) {
                Some(id) => {
                    if id != g.env || object != g.object {
                        return None;
                    }
                    match global_value(g, shape, slot) {
                        Some(_) => Some(slot),
                        None => None,
                    }
                },
                None => None,
            },
            _ => None,
        }
    }

    /// What a path reads from a scope; none when a guard fails.
    pub fn read(&self, scopes: &Scopes, g: &GlobalView, env: u64) -> (r: Option<Value>)
        ensures
            r == path_value(*scopes, *g, self@, env),
    {
        match self.holder {
            Holder::Global { object, shape, slot } => match self.resolve(scopes, env) {
                Some(id) => if id == g.env && object == g.object {
                    global_value(g, shape, slot)
                } else {
                    None
                },
                None => None,
            },
            _ => match self.find_binding(scopes, env) {
                Some((id, k)) => read_binding(&scopes.get(id).vars.vars[k].binding),
                None => None,
            },
        }
    }

    /// What a path reads, when it is an object.
    pub fn read_obj_ptr(&self, scopes: &Scopes, g: &GlobalView, env: u64) -> (r: Option<u64>)
        ensures
            r == match path_value(*scopes, *g, self@, env) {
                Some(Value::Obj(o)) => Some(o),
                _ => None,
            },
    {
        match self.read(scopes, g, env) {
            Some(Value::Obj(o)) => Some(o),
            _ => None,
        }
    }

    /// Resolves a name from a scope and remembers the path, with the value. None where there is
    /// nothing to remember: the name is bound in the scope itself, or cannot be read plainly.
    pub fn build(scopes: &Scopes, g: &GlobalView, env: u64, name: &str) -> (r: Option<
        (NamePath, Value),
    >)
        ensures
            match r {
                Some((p, v)) => built(*scopes, *g, env, name@, 0, Seq::empty()) == Some((p@, v)),
                None => built(*scopes, *g, env, name@, 0, Seq::empty()) is None,
            },
    {
        let mut guards: Vec<ScopeGuard> = Vec::new();
        let mut cur: u64 = env;
        let mut depth: usize = 0;
        assert(guards@ =~= Seq::<ScopeGuard>::empty());
        while depth < MAX_DEPTH
            invariant
                depth <= MAX_DEPTH,
                built(*scopes, *g, cur, name@, depth as nat, guards@) == built(
                    *scopes,
                    *g,
                    env,
                    name@,
                    0,
                    Seq::empty(),
                ),
            decreases MAX_DEPTH - depth,
        {
            if !scopes.holds(cur) {
                return None;
            }
            let s = scopes.get(cur);
            if s.with_obj {
                return None;
            }
            guards.push(scope_guard(cur, s));
            let i = s.vars.find(name);
            if i < s.vars.vars.len() {
                return match read_binding(&s.vars.vars[i].binding) {
                    Some(v) => {
                        if depth == 0 {
                            return None;
                        }
                        let holder = if s.vars.layout.is_some() {
                            Holder::Slot(i)
                        } else {
                            Holder::Binding(i)
                        };
                        Some((NamePath { guards, holder }, v))
                    },
                    None => None,
                };
            }
            if cur == g.env {
                let k = g.props.find(name);
                if depth == 0 || k >= g.props.items.len() {
                    return None;
                }
                return match global_value(g, g.shape, k) {
                    Some(v) => {
                        let holder = Holder::Global {
                            object: g.object,
                            shape: g.shape,
                            slot: k,
                        };
                        Some((NamePath { guards, holder }, v))
                    },
                    None => None,
                };
            }
            match s.parent {
                Some(p) => {
                    cur = p;
                },
                None => {
                    return None;
                },
            }
            depth = depth + 1;
        }
        None
    }
}

/// The binding that a path ends in and that can be read or written.
pub open spec fn usable_binding(scopes: Scopes, p: NamePathView, env: u64, write: bool) -> Option<
    (u64, usize),
> {
    match end_binding(scopes, p, env) {
        Some((id, k)) => {
            let b = scopes.at(id).vars.vars@[k as int].binding;
            if b.initialized && !b.import && (!write || b.mutable) {
                Some((id, k))
            } else {
                None
            }
        },
        None => None,
    }
}

/// The global object's slot that a path ends in.
pub open spec fn usable_global(scopes: Scopes, g: GlobalView, p: NamePathView, env: u64) -> Option<
    usize,
> {
    match p.holder {
        Holder::Global { slot, .. } => if path_value(scopes, g, p, env) is Some {
            Some(slot)
        } else {
            None
        },
        _ => None,
    }
}

/// Writes the global object's property in a slot when it is a writable data property of an
/// ordinary object; else hands the value back.
pub fn global_store(g: &mut GlobalView, slot: usize, value: Value) -> (r: Result<(), Value>)
    ensures
        ({
            let ok = old(g).ordinary && !old(g).exotic && slot < old(g).props@.len() && old(
                g).props@[slot as int].1.kind is Data && old(g).props@[slot as int].1.writable;
            if ok {
                &&& r is Ok
                &&& final(g).props@ == old(g).props@.update(
                    slot as int,
                    (
                        old(g).props@[slot as int].0,
                        Property {
                            kind: PropKind::Data(value),
                            ..old(g).props@[slot as int].1
                        },
                    ),
                )
                &&& *final(g) == GlobalView { props: final(g).props, ..*old(g) }
            } else {
                r == Err::<(), Value>(value) && *final(g) == *old(g)
            }
        }),
{
    if !g.ordinary || g.exotic || slot >= g.props.items.len() {
        return Err(value);
    }
    if g.props.items[slot].prop.accessor() || !g.props.items[slot].prop.writable {
        return Err(value);
    }
    let ghost v = value;
    g.props.items[slot].prop.kind = PropKind::Data(value);
    assert(g.props@ =~= old(g).props@.update(
        slot as int,
        (
            old(g).props@[slot as int].0,
            Property { kind: PropKind::Data(v), ..old(g).props@[slot as int].1 },
        ),
    ));
    Ok(())
}

/// The paths that a chunk's name caches hold.
pub struct NamePaths {
    pub paths: Vec<Option<NamePath>>,
}

/// The path of a cache.
pub open spec fn path_of(paths: Seq<Option<NamePath>>, cache: u32) -> Option<NamePathView> {
    if cache < paths.len() {
        match paths[cache as int] {
            Some(p) => Some(p@),
            None => None,
        }
    } else {
        None
    }
}

impl NamePaths {
    /// What a cache's path reads.
    pub fn name_path_hit(&self, scopes: &Scopes, g: &GlobalView, env: u64, cache: u32) -> (r: Option<
        Value,
    >)
        ensures
            r == match path_of(self.paths@, cache) {
                Some(p) => path_value(*scopes, *g, p, env),
                None => None,
            },
    {
        if cache as usize >= self.paths.len() {
            return None;
        }
        match &self.paths[cache as usize] {
            Some(p) => p.read(scopes, g, env),
            None => None,
        }
    }

    /// What a cache's path reads, when it is an object.
    pub fn name_path_obj_ptr(&self, scopes: &Scopes, g: &GlobalView, env: u64, cache: u32) -> (r:
        Option<u64>)
        ensures
            r == match path_of(self.paths@, cache) {
                Some(p) => match path_value(*scopes, *g, p, env) {
                    Some(Value::Obj(o)) => Some(o),
                    _ => None,
                },
                None => None,
            },
    {
        match self.name_path_hit(scopes, g, env, cache) {
            Some(Value::Obj(o)) => Some(o),
            _ => None,
        }
    }

    /// The binding that a cache's path ends in.
    pub fn name_path_binding(&self, scopes: &Scopes, env: u64, cache: u32, write: bool) -> (r:
        Option<(u64, usize)>)
        ensures
            r == match path_of(self.paths@, cache) {
                Some(p) => usable_binding(*scopes, p, env, write),
                None => None,
            },
    {
        if cache as usize >= self.paths.len() {
            return None;
        }
        match &self.paths[cache as usize] {
            Some(p) => p.binding_ptr(scopes, env, write),
            None => None,
        }
    }

    /// The global object's slot that a cache's path ends in.
    pub fn name_path_global(&self, scopes: &Scopes, g: &GlobalView, env: u64, cache: u32) -> (r:
        Option<usize>)
        ensures
            r == match path_of(self.paths@, cache) {
                Some(p) => usable_global(*scopes, *g, p, env),
                None => None,
            },
    {
        if cache as usize >= self.paths.len() {
            return None;
        }
        match &self.paths[cache as usize] {
            Some(p) => p.global_slot(scopes, g, env),
            None => None,
        }
    }

    /// Whether a cache has a path, and whether that ends at the global object.
    pub fn name_path_kind(&self, cache: u32) -> (r: Option<bool>)
        ensures
            r == match path_of(self.paths@, cache) {
                Some(p) => Some(p.holder is Global),
                None => None,
            },
    {
        if cache as usize >= self.paths.len() {
            return None;
        }
        match &self.paths[cache as usize] {
            Some(p) => match p.holder {
                Holder::Global { .. } => Some(true),
                _ => Some(false),
            },
            None => None,
        }
    }

    /// Resolves a name and keeps the path in a cache; gives the value.
    pub fn name_path_fill(
        &mut self,
        scopes: &Scopes,
        g: &GlobalView,
        env: u64,
        name: &str,
        cache: u32,
    ) -> (r: Option<Value>)
        requires
            cache < old(self).paths@.len(),
        ensures
            final(self).paths@.len() == old(self).paths@.len(),
            match built(*scopes, *g, env, name@, 0, Seq::empty()) {
                Some((p, v)) => {
                    &&& r == Some(v)
                    &&& path_of(final(self).paths@, cache) == Some(p)
                    &&& forall|c: u32|
                        c != cache ==> #[trigger] path_of(final(self).paths@, c) == path_of(
                            old(self).paths@,
                            c,
                        )
                },
                None => r is None && *final(self) == *old(self),
            },
    {
        match NamePath::build(scopes, g, env, name) {
            Some((p, v)) => {
                self.paths.set(cache as usize, Some(p));
                Some(v)
            },
            None => None,
        }
    }

    /// Writes through a cache's path; hands the value back where the path does not prove a plain
    /// writable target.
    pub fn name_path_store(
        &self,
        scopes: &mut Scopes,
        g: &mut GlobalView,
        env: u64,
        cache: u32,
        value: Value,
    ) -> (r: Result<(), Value>)
        ensures
            match path_of(self.paths@, cache) {
                None => {
                    r == Err::<(), Value>(value) && *final(scopes) == *old(scopes) && *final(g)
                        == *old(g)
                },
                Some(p) => match usable_binding(*old(scopes), p, env, true) {
                    Some((id, k)) => {
                        &&& r is Ok
                        &&& stored(*old(scopes), *final(scopes), id, k, value)
                        &&& *final(g) == *old(g)
                    },
                    None => {
                        &&& *final(scopes) == *old(scopes)
                        &&& match usable_global(*old(scopes), *old(g), p, env) {
                            Some(slot) => {
                                let was = old(g).props@[slot as int];
                                if was.1.writable {
                                    &&& r is Ok
                                    &&& final(g).props@ == old(g).props@.update(
                                        slot as int,
                                        (was.0, Property { kind: PropKind::Data(value), ..was.1 }),
                                    )
                                    &&& *final(g) == GlobalView {
                                        props: final(g).props,
                                        ..*old(g)
                                    }
                                } else {
                                    r == Err::<(), Value>(value) && *final(g) == *old(g)
                                }
                            },
                            None => r == Err::<(), Value>(value) && *final(g) == *old(g),
                        }
                    },
                },
            },
    {
        if cache as usize >= self.paths.len() {
            return Err(value);
        }
        let p = match &self.paths[cache as usize] {
            Some(p) => p,
            None => {
                return Err(value);
            },
        };
        if let Some((id, k)) = p.binding_ptr(scopes, env, true) {
            scopes.set_value(id, k, value);
            return Ok(());
        }
        match p.global_slot(scopes, g, env) {
            Some(slot) => global_store(g, slot, value),
            None => Err(value),
        }
    }
}

/// The names of a layout, of an exact scope's generation and of a shape are what they were.
pub open spec fn evolved(s0: Scopes, g0: GlobalView, s1: Scopes, g1: GlobalView) -> bool {
    &&& forall|a: u64, b: u64|
        #![trigger s0.at(a), s1.at(b)]
        s0.has(a) && s1.has(b) && s0.at(a).vars.layout is Some && s0.at(a).vars.layout
            == s1.at(b).vars.layout ==> s0.at(a).vars.names() == s1.at(b).vars.names()
    &&& forall|a: u64|
        #![trigger s1.at(a)]
        s0.has(a) && s1.has(a) && s0.at(a).vars.layout is None && s0.at(a).vars.generation
            == s1.at(a).vars.generation ==> s0.at(a).vars.names() == s1.at(a).vars.names()
    &&& g0.shape == g1.shape && g0.object == g1.object ==> key_list(g0.props@) == key_list(
        g1.props@,
    )
    &&& s1.has(g1.env) ==> s1.at(g1.env).parent is None
}

pub open spec fn key_list(s: Named) -> Seq<Seq<char>> {
    Seq::new(s.len(), |i: int| s[i].0)
}

proof fn lemma_same_keys(a: Named, b: Named, key: Seq<char>)
    requires
        key_list(a) == key_list(b),
    ensures
        index_of_key(a, key) == index_of_key(b, key),
        a.len() == b.len(),
{
    assert(key_list(a).len() == a.len());
    assert(key_list(b).len() == b.len());
    crate::object::lemma_index_of_key(a, key);
    let k = index_of_key(a, key) as int;
    assert forall|i: int| 0 <= i < k implies (#[trigger] b[i]).0 != key by {
        assert(key_list(a)[i] == a[i].0 && key_list(b)[i] == b[i].0);
    }
    if k < b.len() {
        assert(key_list(a)[k] == a[k].0 && key_list(b)[k] == b[k].0);
    }
    crate::object::lemma_index_of_key_is(b, key, k);
}

proof fn lemma_guards_extend(
    scopes: Scopes,
    g: GlobalView,
    cur: u64,
    name: Seq<char>,
    depth: nat,
    guards: Seq<ScopeGuard>,
)
    requires
        guards.len() == depth,
        built(scopes, g, cur, name, depth, guards) is Some,
    ensures
        ({
            let p = (built(scopes, g, cur, name, depth, guards)->0).0;
            &&& depth < p.guards.len() <= MAX_DEPTH
            &&& p.guards.take(depth as int) == guards
            &&& p.guards[depth as int] == guard_of(cur, scopes.at(cur))
        }),
    decreases MAX_DEPTH - depth,
{
    let s = scopes.at(cur);
    let i = name_index(s.vars.names(), name) as int;
    let gs = guards.push(guard_of(cur, s));
    assert(gs.take(depth as int) =~= guards);
    if i < s.vars.vars@.len() || cur == g.env {
    } else {
        let p = s.parent->0;
        lemma_guards_extend(scopes, g, p, name, depth + 1, gs);
        let v = (built(scopes, g, p, name, depth + 1, gs)->0).0;
        assert(v.guards.take(depth as int) =~= v.guards.take(depth as int + 1).take(depth as int));
        assert(v.guards.take(depth as int + 1)[depth as int] == v.guards[depth as int]);
    }
}

proof fn lemma_path_is_the_meaning_from(
    s0: Scopes,
    g0: GlobalView,
    s1: Scopes,
    g1: GlobalView,
    c0: u64,
    c1: u64,
    name: Seq<char>,
    depth: nat,
    guards: Seq<ScopeGuard>,
    fuel: nat,
)
    requires
        evolved(s0, g0, s1, g1),
        guards.len() == depth,
        built(s0, g0, c0, name, depth, guards) is Some,
        fuel + depth >= MAX_DEPTH,
        ({
            let p = (built(s0, g0, c0, name, depth, guards)->0).0;
            match end_scope(s1, p.guards, c1, depth as int) {
                Some(id) => value_at(s1, g1, p, id) is Some,
                None => false,
            }
        }),
    ensures
        ({
            let p = (built(s0, g0, c0, name, depth, guards)->0).0;
            let id = end_scope(s1, p.guards, c1, depth as int)->0;
            meaning(s1, g1, c1, name, fuel) == value_at(s1, g1, p, id)
        }),
    decreases MAX_DEPTH - depth,
{
    let p = (built(s0, g0, c0, name, depth, guards)->0).0;
    lemma_guards_extend(s0, g0, c0, name, depth, guards);
    let x = s0.at(c0);
    let y = s1.at(c1);
    let d = depth as int;
    assert(holds(p.guards[d], c1, y));
    assert(x.vars.names() == y.vars.names()) by {
        if x.vars.layout is Some {
            assert(y.vars.layout == x.vars.layout);
        } else {
            assert(c1 == c0);
        }
    }
    assert(x.vars.names().len() == x.vars.vars@.len());
    assert(y.vars.names().len() == y.vars.vars@.len());
    let i = name_index(x.vars.names(), name) as int;
    let gs = guards.push(guard_of(c0, x));
    assert(x.vars.vars.len() == x.vars.vars@.len());
    assert(g0.props.items.len() == g0.props.items@.len());
    if i < x.vars.vars@.len() {
        assert(p.guards == gs);
        assert(end_scope(s1, p.guards, c1, d) == Some(c1));
    } else if c0 == g0.env {
        assert(p.guards == gs);
        lemma_same_keys(g0.props@, g1.props@, name);
    } else {
        lemma_guards_extend(s0, g0, x.parent->0, name, depth + 1, gs);
        assert(d + 1 < p.guards.len());
        assert(c1 != g1.env);
        lemma_path_is_the_meaning_from(
            s0,
            g0,
            s1,
            g1,
            x.parent->0,
            y.parent->0,
            name,
            depth + 1,
            gs,
            (fuel - 1) as nat,
        );
    }
}

/// What a path reads once its end is known.
pub open spec fn value_at(scopes: Scopes, g: GlobalView, p: NamePathView, id: u64) -> Option<
    Value,
> {
    let s = scopes.at(id);
    match p.holder {
        Holder::Binding(k) => if k < s.vars.vars@.len() {
            readable(s.vars.vars@[k as int].binding)
        } else {
            None
        },
        Holder::Slot(k) => if s.vars.layout is Some && k < s.vars.vars@.len() {
            readable(s.vars.vars@[k as int].binding)
        } else {
            None
        },
        Holder::Global { object, shape, slot } => if id == g.env && object == g.object {
            global_data(g, shape, slot)
        } else {
            None
        },
    }
}

/// Whatever a path reads, at any later time and from any scope, is what the name means there:
/// shadowing, other ancestors, deletion and accessors make it read nothing.
pub proof fn lemma_path_is_the_meaning(
    s0: Scopes,
    g0: GlobalView,
    env0: u64,
    s1: Scopes,
    g1: GlobalView,
    env1: u64,
    name: Seq<char>,
)
    requires
        evolved(s0, g0, s1, g1),
        built(s0, g0, env0, name, 0, Seq::empty()) is Some,
        path_value(s1, g1, (built(s0, g0, env0, name, 0, Seq::empty())->0).0, env1) is Some,
    ensures
        path_value(s1, g1, (built(s0, g0, env0, name, 0, Seq::empty())->0).0, env1) == meaning(
            s1,
            g1,
            env1,
            name,
            MAX_DEPTH as nat,
        ),
{
    let p = (built(s0, g0, env0, name, 0, Seq::empty())->0).0;
    let id = end_scope(s1, p.guards, env1, 0)->0;
    assert(value_at(s1, g1, p, id) == path_value(s1, g1, p, env1));
    lemma_path_is_the_meaning_from(
        s0,
        g0,
        s1,
        g1,
        env0,
        env1,
        name,
        0,
        Seq::empty(),
        MAX_DEPTH as nat,
    );
}

/// A value that is stored through a path reads back through it.
pub proof fn lemma_store_reads_back(
    s0: Scopes,
    s1: Scopes,
    g: GlobalView,
    p: NamePathView,
    env: u64,
    v: Value,
)
    requires
        usable_binding(s0, p, env, true) is Some,
        ({
            let (id, k) = usable_binding(s0, p, env, true)->0;
            stored(s0, s1, id, k, v) && s0.has(id) && k < s0.at(id).vars.vars@.len()
        }),
    ensures
        path_value(s1, g, p, env) == Some(v),
{
    let (id, k) = usable_binding(s0, p, env, true)->0;
    lemma_stored_keeps_the_end(s0, s1, p.guards, env, 0, id, k, v);
}

proof fn lemma_stored_keeps_the_end(
    s0: Scopes,
    s1: Scopes,
    guards: Seq<ScopeGuard>,
    env: u64,
    j: int,
    id: u64,
    k: usize,
    v: Value,
)
    requires
        stored(s0, s1, id, k, v),
        s0.has(id),
    ensures
        end_scope(s1, guards, env, j) == end_scope(s0, guards, env, j),
    decreases guards.len() - j,
{
    if 0 <= j < guards.len() && s0.has(env) {
        if env != id {
            assert(s1.scopes@[env as int] == s0.scopes@[env as int]);
        }
        if let Some(q) = s0.at(env).parent {
            lemma_stored_keeps_the_end(s0, s1, guards, q, j + 1, id, k, v);
        }
    }
}

} // verus!
