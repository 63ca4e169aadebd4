//! Laws of name paths and of the words that values are kept in.

use super::name_path::{
    built, end_scope, global_data, guard_of, holds, path_of, path_value, readable, usable_binding,
    usable_global, GlobalView, Holder, NamePath, NamePathView, ScopeGuard,
};
use super::vm_regs::{tag_value, value_of, words_of, Words};
use crate::interpreter::scope::{name_index, Binding, Scope, Scopes};
use crate::object::{lemma_index_of_key, PropKind};
use crate::value::Value;
use vstd::prelude::*;

verus! {

/// The scope `n` steps out from a scope.
pub open spec fn outward(scopes: Scopes, env: u64, n: nat) -> Option<u64>
    decreases n,
{
    if !scopes.has(env) {
        None
    } else if n == 0 {
        Some(env)
    } else {
        match scopes.at(env).parent {
            Some(p) => outward(scopes, p, (n - 1) as nat),
            None => None,
        }
    }
}

/// The guard of a scope with a layout holds of every scope with that layout. That of a scope
/// without one holds of that scope alone, while it has gained and lost no name. No guard holds
/// of the scope of a `with` statement.
pub proof fn lemma_guards_know_scopes(a: u64, s: Scope, b: u64, t: Scope)
    ensures
        t.with_obj ==> !holds(guard_of(a, s), b, t),
        !t.with_obj && s.vars.layout is Some ==> (holds(guard_of(a, s), b, t) <==> t.vars.layout
            == s.vars.layout),
        !t.with_obj && s.vars.layout is None ==> (holds(guard_of(a, s), b, t) <==> a == b
            && t.vars.generation == s.vars.generation),
        guard_of(a, s) is Layout <==> s.vars.layout is Some,
{
}

/// A binding can be read without further ado when it is initialised and not an import: its
/// value is what is read.
pub proof fn lemma_bindings_are_read_once_initialised(b: Binding, v: Value)
    ensures
        readable(b) == Some(v) <==> (b.initialized && !b.import && b.value == v),
        readable(b) is None <==> (!b.initialized || b.import),
{
}

/// A property of the global object is read by slot when the object is an ordinary one that
/// still has the shape, and the slot holds data.
pub proof fn lemma_global_slots_hold_data(g: GlobalView, shape: u32, slot: usize, v: Value)
    ensures
        global_data(g, shape, slot) == Some(v) <==> {
            &&& g.ordinary
            &&& !g.exotic
            &&& g.shape == shape
            &&& slot < g.props@.len()
            &&& g.props@[slot as int].1.kind == PropKind::Data(v)
        },
{
}

proof fn lemma_paths_go_outward_from(
    scopes: Scopes,
    guards: Seq<ScopeGuard>,
    env: u64,
    k: int,
    j: int,
)
    requires
        0 <= k <= j < guards.len(),
        end_scope(scopes, guards, env, k) is Some,
    ensures
        outward(scopes, env, (guards.len() - 1 - k) as nat) == end_scope(scopes, guards, env, k),
        outward(scopes, env, (j - k) as nat) is Some,
        holds(
            guards[j],
            outward(scopes, env, (j - k) as nat)->0,
            scopes.at(outward(scopes, env, (j - k) as nat)->0),
        ),
    decreases guards.len() - k,
{
    reveal_with_fuel(outward, 2);
    if k + 1 < guards.len() {
        let p = scopes.at(env).parent->0;
        let next = if j > k {
            j
        } else {
            k + 1
        };
        lemma_paths_go_outward_from(scopes, guards, p, k + 1, next);
        assert(((guards.len() - 1 - k) as nat - 1) as nat == (guards.len() - 1 - (k + 1)) as nat);
        if j > k {
            assert(((j - k) as nat - 1) as nat == (j - (k + 1)) as nat);
        }
    }
}

/// A path of guards that ends somewhere ends at the scope as many steps out as there are
/// guards, less one, and each guard holds of the scope at its distance.
pub proof fn lemma_paths_go_outward(scopes: Scopes, guards: Seq<ScopeGuard>, env: u64, j: int)
    requires
        end_scope(scopes, guards, env, 0) is Some,
        0 <= j < guards.len(),
    ensures
        outward(scopes, env, (guards.len() - 1) as nat) == end_scope(scopes, guards, env, 0),
        outward(scopes, env, j as nat) is Some,
        holds(
            guards[j],
            outward(scopes, env, j as nat)->0,
            scopes.at(outward(scopes, env, j as nat)->0),
        ),
{
    lemma_paths_go_outward_from(scopes, guards, env, 0, j);
}

proof fn lemma_broken_from(scopes: Scopes, guards: Seq<ScopeGuard>, env: u64, k: int) -> (j: nat)
    requires
        0 <= k < guards.len(),
        end_scope(scopes, guards, env, k) is None,
    ensures
        k + j < guards.len(),
        outward(scopes, env, j) is None || !holds(
            guards[k + j],
            outward(scopes, env, j)->0,
            scopes.at(outward(scopes, env, j)->0),
        ),
    decreases guards.len() - k,
{
    reveal_with_fuel(outward, 2);
    if !scopes.has(env) || !holds(guards[k], env, scopes.at(env)) {
        0
    } else {
        match scopes.at(env).parent {
            None => 1,
            Some(p) => {
                let j = lemma_broken_from(scopes, guards, p, k + 1);
                assert(outward(scopes, env, j + 1) == outward(scopes, p, j));
                j + 1
            },
        }
    }
}

/// A path of guards that ends nowhere has a guard that does not hold of the scope at its
/// distance, or there is no scope that far out.
pub proof fn lemma_broken_paths_end_nowhere(
    scopes: Scopes,
    guards: Seq<ScopeGuard>,
    env: u64,
) -> (j: nat)
    requires
        guards.len() > 0,
        end_scope(scopes, guards, env, 0) is None,
    ensures
        j < guards.len(),
        outward(scopes, env, j) is None || !holds(
            guards[j as int],
            outward(scopes, env, j)->0,
            scopes.at(outward(scopes, env, j)->0),
        ),
{
    lemma_broken_from(scopes, guards, env, 0)
}

proof fn lemma_name_found(names: Seq<Seq<char>>, name: Seq<char>)
    ensures
        name_index(names, name) <= names.len(),
        name_index(names, name) < names.len() ==> names[name_index(names, name) as int] == name,
        name_index(names, name) == names.len() ==> !names.contains(name),
    decreases names.len(),
{
    if names.len() > 0 && names[0] != name {
        lemma_name_found(names.drop_first(), name);
        if name_index(names, name) == names.len() && names.contains(name) {
            let i = names.index_of(name);
            assert(names.drop_first()[i - 1] == name);
        }
    }
}

/// What a path that was just built for a name is.
pub open spec fn leads_to(
    scopes: Scopes,
    g: GlobalView,
    p: NamePathView,
    id: u64,
    name: Seq<char>,
    v: Value,
) -> bool {
    let s = scopes.at(id);
    match p.holder {
        Holder::Binding(k) => {
            &&& s.vars.layout is None
            &&& k < s.vars.vars@.len()
            &&& s.vars.vars@[k as int].name@ == name
            &&& s.vars.vars@[k as int].binding.value == v
            &&& s.vars.vars@[k as int].binding.initialized
            &&& !s.vars.vars@[k as int].binding.import
        },
        Holder::Slot(k) => {
            &&& s.vars.layout is Some
            &&& k < s.vars.vars@.len()
            &&& s.vars.vars@[k as int].name@ == name
            &&& s.vars.vars@[k as int].binding.value == v
            &&& s.vars.vars@[k as int].binding.initialized
            &&& !s.vars.vars@[k as int].binding.import
        },
        Holder::Global { object, shape, slot } => {
            &&& id == g.env
            &&& g.ordinary
            &&& !g.exotic
            &&& !s.vars.names().contains(name)
            &&& object == g.object
            &&& shape == g.shape
            &&& slot < g.props@.len()
            &&& g.props@[slot as int].0 == name
            &&& g.props@[slot as int].1.kind == PropKind::Data(v)
        },
    }
}

proof fn lemma_built_from(
    scopes: Scopes,
    g: GlobalView,
    cur: u64,
    name: Seq<char>,
    depth: nat,
    guards: Seq<ScopeGuard>,
    j: nat,
)
    requires
        guards.len() == depth,
        built(scopes, g, cur, name, depth, guards) is Some,
    ensures
        ({
            let (p, v) = built(scopes, g, cur, name, depth, guards)->0;
            &&& depth < p.guards.len() <= 8
            &&& 2 <= p.guards.len()
            &&& p.guards.take(depth as int) == guards
            &&& end_scope(scopes, p.guards, cur, depth as int) is Some
            &&& leads_to(scopes, g, p, end_scope(scopes, p.guards, cur, depth as int)->0, name, v)
            &&& j + 1 < p.guards.len() - depth ==> {
                &&& outward(scopes, cur, j) is Some
                &&& !scopes.at(outward(scopes, cur, j)->0).vars.names().contains(name)
            }
        }),
    decreases 8 - depth,
{
    let s = scopes.at(cur);
    let i = name_index(s.vars.names(), name) as int;
    let gs = guards.push(guard_of(cur, s));
    let (p, v) = built(scopes, g, cur, name, depth, guards)->0;
    assert(s.vars.vars@.len() == s.vars.vars.len() && g.props@.len() == g.props.items.len());
    lemma_name_found(s.vars.names(), name);
    lemma_index_of_key(g.props@, name);
    assert(gs.take(depth as int) =~= guards);
    if i < s.vars.vars@.len() || cur == g.env {
        assert(p.guards == gs);
    } else {
        let out = s.parent->0;
        let less = (if j > 0 { j - 1 } else { 0 }) as nat;
        lemma_built_from(scopes, g, out, name, depth + 1, gs, less);
        assert(p.guards.take(depth as int) =~= p.guards.take(depth as int + 1).take(depth as int));
        assert(p.guards[depth as int] == p.guards.take(depth as int + 1)[depth as int]);
        reveal_with_fuel(outward, 2);
    }
}

/// A path that is built for a name goes at least one scope out and at most seven. It ends at a
/// holder of the name, in the first scope outward that has it, and reads there at once the
/// value that was found.
pub proof fn lemma_built_paths_lead_to_the_name(
    scopes: Scopes,
    g: GlobalView,
    env: u64,
    name: Seq<char>,
    j: nat,
)
    requires
        built(scopes, g, env, name, 0, Seq::empty()) is Some,
    ensures
        ({
            let (p, v) = built(scopes, g, env, name, 0, Seq::empty())->0;
            &&& 2 <= p.guards.len() <= 8
            &&& end_scope(scopes, p.guards, env, 0) is Some
            &&& leads_to(scopes, g, p, end_scope(scopes, p.guards, env, 0)->0, name, v)
            &&& path_value(scopes, g, p, env) == Some(v)
            &&& j + 1 < p.guards.len() ==> {
                &&& outward(scopes, env, j) is Some
                &&& !scopes.at(outward(scopes, env, j)->0).vars.names().contains(name)
            }
        }),
{
    lemma_built_from(scopes, g, env, name, 0, Seq::empty(), j);
}

/// A path is written through to a mutable binding only; reading it takes no more than that
/// the binding can be read.
pub proof fn lemma_paths_write_mutable_bindings(
    scopes: Scopes,
    g: GlobalView,
    p: NamePathView,
    env: u64,
    id: u64,
    k: usize,
)
    ensures
        usable_binding(scopes, p, env, false) == Some((id, k)) ==> {
            &&& path_value(scopes, g, p, env) == Some(scopes.at(id).vars.vars@[k as int].binding.value)
            &&& usable_binding(scopes, p, env, true) == (if scopes.at(
                id,
            ).vars.vars@[k as int].binding.mutable {
                Some((id, k))
            } else {
                None
            })
        },
        usable_binding(scopes, p, env, false) is Some <==> !(p.holder is Global) && path_value(
            scopes,
            g,
            p,
            env,
        ) is Some,
        usable_binding(scopes, p, env, true) is Some ==> usable_binding(scopes, p, env, false)
            is Some,
        usable_binding(scopes, p, env, false) == Some((id, k)) ==> end_scope(
            scopes,
            p.guards,
            env,
            0,
        ) == Some(id) && match p.holder {
            Holder::Binding(n) => n == k,
            Holder::Slot(n) => n == k && scopes.at(id).vars.layout is Some,
            Holder::Global { .. } => false,
        },
{
}

/// A path to a global property gives the slot while it reads the value there, and the path
/// still ends at the global scope of the same object.
pub proof fn lemma_paths_to_globals(
    scopes: Scopes,
    g: GlobalView,
    p: NamePathView,
    env: u64,
    slot: usize,
)
    ensures
        usable_global(scopes, g, p, env) == Some(slot) ==> {
            &&& p.holder matches Holder::Global { object, shape, slot: n }
            &&& n == slot
            &&& object == g.object
            &&& shape == g.shape
            &&& end_scope(scopes, p.guards, env, 0) == Some(g.env)
            &&& slot < g.props@.len()
            &&& path_value(scopes, g, p, env) is Some
            &&& g.props@[slot as int].1.kind == PropKind::Data(path_value(scopes, g, p, env)->0)
        },
        !(p.holder is Global) ==> usable_global(scopes, g, p, env) is None,
        p.holder is Global && path_value(scopes, g, p, env) is Some ==> usable_global(
            scopes,
            g,
            p,
            env,
        ) is Some,
        usable_global(scopes, g, p, env) is Some ==> usable_binding(scopes, p, env, false) is None,
{
}

/// A cached path is the one in the cache's place.
pub proof fn lemma_cached_paths(paths: Seq<Option<NamePath>>, cache: u32, p: NamePathView)
    ensures
        path_of(paths, cache) == Some(p) <==> cache < paths.len() && paths[cache as int] is Some
            && paths[cache as int]->0@ == p,
{
}

/// A value's words: the low byte is the kind, in the order undefined, empty, null, boolean,
/// number; the next byte is a boolean's value, and the high word a number's bits. Other kinds
/// have no plain words.
pub proof fn lemma_words_tell_kinds(v: Value, w: Words)
    requires
        words_of(v) == Some(w),
    ensures
        w.low % 256 == 0 <==> v is Undefined,
        w.low % 256 == 1 <==> v is Empty,
        w.low % 256 == 2 <==> v is Null,
        w.low % 256 == 3 <==> v is Bool,
        w.low % 256 == 4 <==> v is Num,
        v matches Value::Bool(b) ==> w.low / 256 == (if b {
            1u64
        } else {
            0u64
        }),
        v matches Value::Num(x) ==> w.high == x,
        !(v is Num) ==> w.high == 0,
        !(v is Bool) ==> w.low < 256,
{
}

/// Exactly the values without a pointer have words, and only words of their kinds are read.
pub proof fn lemma_plain_values_have_words(v: Value, w: Words)
    ensures
        words_of(v) is Some <==> (v is Undefined || v is Empty || v is Null || v is Bool || v is Num),
        value_of(w) is Some <==> w.low % 256 <= 4,
        w.low % 256 == 3 ==> value_of(w) == Some(Value::Bool((w.low / 256) % 256 != 0)),
        w.low % 256 == 4 ==> value_of(w) == Some(Value::Num(w.high)),
{
}

/// The three kinds that are all tag.
pub proof fn lemma_tags_are_values(tag: u8)
    requires
        tag <= 2,
    ensures
        words_of(tag_value(tag)) == Some((Words { low: tag as u64, high: 0 })),
        value_of((Words { low: tag as u64, high: 0 })) == Some(tag_value(tag)),
        tag == 0 <==> tag_value(tag) is Undefined,
        tag == 1 <==> tag_value(tag) is Empty,
        tag == 2 <==> tag_value(tag) is Null,
{
}

} // verus!
