//! `new C(args)` through `C`'s constructor template: no frame and no body. The template instance
//! has its constant slots filled; the argument slots are then plain stores of the argument words,
//! which `new` consumes.

use crate::bytecode::jit::words::{
    bool_word, num_word, packed, value_packed, word_of_bool, word_of_num, RawValue, TAG_OBJ,
};
use crate::value::Value;
use vstd::prelude::*;

verus! {

/// Where a slot of the template instance comes from.
#[derive(Clone, Copy, Debug, PartialEq, Eq, Structural)]
pub enum PlanSrc {
    Const(u64),
    Arg(u16),
}

/// A planned `new` site: the constructor's handle, and which argument goes to which entry.
pub struct NewSite {
    pub word: u64,
    /// `(entry slot, argument index)`, each argument at most once.
    pub stores: Vec<(u32, u16)>,
}

/// The stores of the first `n` slots with `argc` arguments.
pub open spec fn stores_of(slots: Seq<PlanSrc>, argc: usize, n: nat) -> Seq<(u32, u16)>
    decreases n,
{
    if n == 0 {
        Seq::empty()
    } else {
        let s = stores_of(slots, argc, (n - 1) as nat);
        match slots[n - 1] {
            PlanSrc::Arg(a) => if a < argc {
                s.push(((n - 1) as u32, a))
            } else {
                s
            },
            PlanSrc::Const(_) => s,
        }
    }
}

/// No argument is stored twice.
pub open spec fn args_once(stores: Seq<(u32, u16)>) -> bool {
    forall|i: int, j: int| 0 <= i < j < stores.len() ==> stores[i].1 != stores[j].1
}

/// Every slot that takes an argument has an index that a store can hold.
pub open spec fn slots_fit(slots: Seq<PlanSrc>, argc: usize) -> bool {
    forall|k: int|
        0 <= k < slots.len() && ((#[trigger] slots[k]) matches PlanSrc::Arg(a) && a < argc) ==> k
            <= u32::MAX
}

/// Whether `a` is stored.
pub open spec fn stores_arg(stores: Seq<(u32, u16)>, a: int) -> bool {
    exists|i: int| 0 <= i < stores.len() && (#[trigger] stores[i]).1 == a
}

fn is_stored(stores: &Vec<(u32, u16)>, a: u16) -> (r: bool)
    ensures
        r == stores_arg(stores@, a as int),
{
    let mut i: usize = 0;
    while i < stores.len()
        invariant
            i <= stores@.len(),
            forall|j: int| 0 <= j < i ==> (#[trigger] stores@[j]).1 != a,
        decreases stores@.len() - i,
    {
        if stores[i].1 == a {
            assert(stores@[i as int].1 == a);
            return true;
        }
        i = i + 1;
    }
    false
}

proof fn lemma_stores_prefix(slots: Seq<PlanSrc>, argc: usize, m: nat, n: nat)
    requires
        m <= n,
    ensures
        stores_of(slots, argc, m).len() <= stores_of(slots, argc, n).len(),
        forall|i: int|
            0 <= i < stores_of(slots, argc, m).len() ==> stores_of(slots, argc, n)[i] == stores_of(
                slots,
                argc,
                m,
            )[i],
    decreases n,
{
    if m < n {
        lemma_stores_prefix(slots, argc, m, (n - 1) as nat);
    }
}

/// The planned `new` site of a constructor with a template. None without one, or when an argument
/// would be stored twice (a second store would need a copy) or into a slot that no store can name.
pub fn plan_site(callee: &RawValue, plan: Option<&Vec<PlanSrc>>, argc: usize) -> (r: Option<NewSite>)
    ensures
        match r {
            Some(site) => {
                &&& callee.tag == TAG_OBJ
                &&& plan is Some
                &&& site.word == callee.payload
                &&& site.stores@ == stores_of(plan->0@, argc, plan->0@.len())
                &&& args_once(site.stores@)
                &&& slots_fit(plan->0@, argc)
            },
            None => callee.tag != TAG_OBJ || plan is None || !args_once(
                stores_of(plan->0@, argc, plan->0@.len()),
            ) || !slots_fit(plan->0@, argc),
        },
{
    if callee.tag != TAG_OBJ {
        return None;
    }
    let slots = match plan {
        Some(p) => p,
        None => {
            return None;
        },
    };
    let mut stores: Vec<(u32, u16)> = Vec::new();
    let mut k: usize = 0;
    while k < slots.len()
        invariant
            k <= slots@.len(),
            callee.tag == TAG_OBJ,
            plan == Some(slots),
            stores@ == stores_of(slots@, argc, k as nat),
            args_once(stores@),
            slots_fit(slots@.take(k as int), argc),
        decreases slots@.len() - k,
    {
        let ghost done = slots@.take(k as int);
        let ghost more = slots@.take(k + 1);
        assert(more[k as int] == slots@[k as int]);
        assert(forall|j: int| 0 <= j < k ==> more[j] == done[j]);
        if let PlanSrc::Arg(a) = slots[k] {
            if (a as usize) < argc {
                if is_stored(&stores, a) {
                    proof {
                        let s = stores@;
                        let i = choose|i: int| 0 <= i < s.len() && (#[trigger] s[i]).1 == a;
                        let t = stores_of(slots@, argc, (k + 1) as nat);
                        let whole = stores_of(slots@, argc, slots@.len());
                        assert(t == s.push((k as u32, a)));
                        lemma_stores_prefix(slots@, argc, (k + 1) as nat, slots@.len());
                        assert(whole[i] == t[i] && whole[s.len() as int] == t[s.len() as int]);
                        assert(whole[i].1 == whole[s.len() as int].1);
                    }
                    return None;
                }
                if k > u32::MAX as usize {
                    assert(!slots_fit(slots@, argc)) by {
                        assert(slots@[k as int] == PlanSrc::Arg(a));
                    }
                    return None;
                }
                proof {
                    let s = stores@;
                    let t = s.push((k as u32, a));
                    assert forall|i: int, j: int| 0 <= i < j < t.len() implies t[i].1 != t[j].1 by {
                        if j == s.len() {
                            assert(s[i].1 != a);
                        }
                    }
                }
                stores.push((k as u32, a));
            }
        }
        k = k + 1;
    }
    assert(slots@.take(k as int) =~= slots@);
    Some(NewSite { word: callee.payload, stores })
}

/// An operand of the native code's abstract stack.
#[derive(Clone, Copy, Debug, PartialEq, Eq, Structural)]
pub enum Operand {
    Num(u64),
    Bool(bool),
    /// An owned value in memory.
    Boxed(RawValue),
    /// A borrowed value in memory.
    Ref(RawValue),
    /// The pinned constructor itself.
    Pinned,
}

impl Operand {
    pub open spec fn wf(self) -> bool {
        match self {
            Operand::Boxed(v) => v.wf(),
            Operand::Ref(v) => v.wf(),
            _ => true,
        }
    }
}

/// Whether the callee operand is the site's constructor, and whether it is then consumed. None
/// when it is not, and the ordinary construction runs.
pub open spec fn callee_matches(op: Operand, word: u64) -> Option<bool> {
    match op {
        Operand::Pinned => Some(false),
        Operand::Ref(v) => if v.tag == TAG_OBJ && v.payload == word {
            Some(false)
        } else {
            None
        },
        Operand::Boxed(v) => if v.tag == TAG_OBJ && v.payload == word {
            Some(true)
        } else {
            None
        },
        Operand::Num(_) | Operand::Bool(_) => None,
    }
}

/// Whether the callee operand is the site's constructor (see [`callee_matches`]).
pub fn check_callee(op: &Operand, word: u64) -> (r: Option<bool>)
    ensures
        r == callee_matches(*op, word),
{
    match op {
        Operand::Pinned => Some(false),
        Operand::Ref(v) => if v.tag == TAG_OBJ && v.payload == word {
            Some(false)
        } else {
            None
        },
        Operand::Boxed(v) => if v.tag == TAG_OBJ && v.payload == word {
            Some(true)
        } else {
            None
        },
        Operand::Num(_) | Operand::Bool(_) => None,
    }
}

/// The word of an argument.
pub open spec fn arg_word(op: Operand) -> u64 {
    match op {
        Operand::Num(n) => word_of_num(n),
        Operand::Bool(b) => word_of_bool(b),
        Operand::Boxed(v) => packed(v),
        Operand::Ref(v) => packed(v),
        Operand::Pinned => 0,
    }
}

/// What a planned `new` does: the words that go to the entries, and the operands that are left to
/// drop.
pub struct NewStores {
    /// The callee operand owns the constructor, which the instance replaces.
    pub consumes_callee: bool,
    /// `(entry slot, word)`.
    pub words: Vec<(u32, u64)>,
    /// The arguments that no entry takes and that own a value.
    pub drops: Vec<usize>,
}

/// The argument slots are stores of the argument words, and an owned argument that is not stored
/// is dropped.
pub open spec fn moves_args(site: NewSite, args: Seq<Operand>, r: NewStores) -> bool {
    &&& r.words@.len() == site.stores@.len()
    &&& forall|i: int|
        0 <= i < site.stores@.len() ==> #[trigger] r.words@[i] == (
            site.stores@[i].0,
            arg_word(args[site.stores@[i].1 as int]),
        )
    &&& drops_rest(site, args, r.drops@)
    &&& forall|i: int, j: int| 0 <= i < j < r.drops@.len() ==> r.drops@[i] < r.drops@[j]
    &&& forall|i: int| 0 <= i < r.drops@.len() ==> (#[trigger] r.drops@[i]) < args.len()
}

/// `drops` are the owned arguments that are not stored.
pub open spec fn drops_rest(site: NewSite, args: Seq<Operand>, drops: Seq<usize>) -> bool {
    forall|a: int| #[trigger]
        drops.contains(a as usize) && 0 <= a < args.len() <==> 0 <= a < args.len()
            && args[a] is Boxed && !stores_arg(site.stores@, a)
}

/// A planned `new`: with the site's constructor as the callee and its template instance made, the
/// arguments move into the instance. None when the callee is another one or no instance could be
/// made (`made`, see [`new_plan_ready`]); the ordinary construction then takes the operands. The
/// arguments are owned or unboxed.
pub fn plan_new(site: &NewSite, callee: &Operand, made: bool, args: &Vec<Operand>) -> (r: Option<
    NewStores,
>)
    requires
        forall|i: int|
            0 <= i < site.stores@.len() ==> (#[trigger] site.stores@[i]).1 < args@.len(),
        forall|i: int|
            0 <= i < args@.len() ==> (#[trigger] args@[i]).wf() && !(args@[i] is Pinned),
    ensures
        match callee_matches(*callee, site.word) {
            Some(consume) => if made {
                r matches Some(s) && s.consumes_callee == consume && moves_args(*site, args@, s)
            } else {
                r is None
            },
            None => r is None,
        },
{
    let consumes_callee = match check_callee(callee, site.word) {
        Some(consume) => consume,
        None => {
            return None;
        },
    };
    if !made {
        return None;
    }
    let mut words: Vec<(u32, u64)> = Vec::new();
    let mut i: usize = 0;
    while i < site.stores.len()
        invariant
            i <= site.stores@.len(),
            words@.len() == i,
            forall|k: int|
                0 <= k < site.stores@.len() ==> (#[trigger] site.stores@[k]).1 < args@.len(),
            forall|k: int|
                0 <= k < args@.len() ==> (#[trigger] args@[k]).wf() && !(args@[k] is Pinned),
            forall|k: int|
                0 <= k < i ==> #[trigger] words@[k] == (
                    site.stores@[k].0,
                    arg_word(args@[site.stores@[k].1 as int]),
                ),
        decreases site.stores@.len() - i,
    {
        let (slot, a) = site.stores[i];
        assert(site.stores@[i as int].1 < args@.len());
        let op: Operand = args[a as usize];
        assert(args@[a as int].wf());
        let w: u64 = match op {
            Operand::Num(n) => num_word(n),
            Operand::Bool(b) => bool_word(b),
            Operand::Boxed(v) => value_packed(&v),
            Operand::Ref(v) => value_packed(&v),
            Operand::Pinned => 0,
        };
        words.push((slot, w));
        i = i + 1;
    }
    let mut drops: Vec<usize> = Vec::new();
    let mut a: usize = 0;
    while a < args.len()
        invariant
            a <= args@.len(),
            forall|x: int| #[trigger]
                drops@.contains(x as usize) && 0 <= x < a <==> 0 <= x < a && args@[x] is Boxed
                    && !stores_arg(site.stores@, x),
            forall|k: int, l: int| 0 <= k < l < drops@.len() ==> drops@[k] < drops@[l],
            forall|k: int| 0 <= k < drops@.len() ==> (#[trigger] drops@[k]) < a,
        decreases args@.len() - a,
    {
        let boxed = match args[a] {
            Operand::Boxed(_) => true,
            _ => false,
        };
        let ghost before = drops@;
        if boxed && (a > u16::MAX as usize || !is_stored(&site.stores, a as u16)) {
            drops.push(a);
        }
        proof {
            assert forall|x: int| #[trigger]
                drops@.contains(x as usize) && 0 <= x < a + 1 <==> 0 <= x < a + 1
                    && args@[x] is Boxed && !stores_arg(site.stores@, x) by {
                if 0 <= x < a {
                    if before.contains(x as usize) {
                        let k = choose|k: int| 0 <= k < before.len() && before[k] == x as usize;
                        assert(drops@[k] == x as usize);
                    }
                    if drops@.contains(x as usize) {
                        let k = choose|k: int| 0 <= k < drops@.len() && drops@[k] == x as usize;
                        assert(k < before.len());
                        assert(before[k] == x as usize);
                    }
                } else if x == a {
                    if drops@.len() > before.len() {
                        assert(drops@[before.len() as int] == a);
                    }
                    if before.contains(a) {
                        let k = choose|k: int| 0 <= k < before.len() && before[k] == a;
                        assert(before[k] < a);
                    }
                }
            }
        }
        a = a + 1;
    }
    Some(NewStores { consumes_callee, words, drops })
}

/// What decides whether a template can be used now.
pub struct PlanGuards {
    /// The collector's tick, and the mask at whose boundary it is polled.
    pub gc_tick: u32,
    pub poll_mask: u32,
    pub terminating: bool,
    pub multi_realm: bool,
    /// The plan's own guards hold.
    pub guards_ok: bool,
}

/// The prototype of an instance: `C.prototype` when it is an object, the realm's object prototype
/// when it is another value. None when it cannot be read without running code.
pub open spec fn proto_of(own: Option<Value>, object_proto: u64) -> Option<u64> {
    match own {
        Some(Value::Obj(p)) => Some(p),
        Some(_) => Some(object_proto),
        None => None,
    }
}

/// The prototype of an instance (see [`proto_of`]).
pub fn plan_proto(own: &Option<Value>, object_proto: u64) -> (r: Option<u64>)
    ensures
        r == proto_of(*own, object_proto),
{
    match own {
        Some(Value::Obj(p)) => Some(*p),
        Some(_) => Some(object_proto),
        None => None,
    }
}

/// Whether the template instance can be made now: gives its prototype and the collector's next
/// tick. None when a guard fails, a poll is due, or the prototype chain is not the proved one
/// (`proved` says of which prototype it is); nothing was done then.
pub fn new_plan_ready(
    g: &PlanGuards,
    own: &Option<Value>,
    object_proto: u64,
    proved: Option<u64>,
) -> (r: Option<(u64, u32)>)
    ensures
        ({
            let tick = g.gc_tick.wrapping_add(1);
            let proto = proto_of(*own, object_proto);
            r == if tick & g.poll_mask == 0 || g.terminating || g.multi_realm || !g.guards_ok
                || proto is None || proved != proto {
                None
            } else {
                Some((proto->0, tick))
            }
        }),
{
    let tick: u32 = g.gc_tick.wrapping_add(1);
    if tick & g.poll_mask == 0 || g.terminating || g.multi_realm || !g.guards_ok {
        return None;
    }
    match (plan_proto(own, object_proto), proved) {
        (Some(p), Some(q)) => if p == q {
            Some((p, tick))
        } else {
            None
        },
        _ => None,
    }
}

/// `new` consumes each of its arguments exactly once: an owned argument is either stored, into
/// one entry, or dropped.
pub proof fn lemma_each_argument_is_consumed_once(
    site: NewSite,
    args: Seq<Operand>,
    drops: Seq<usize>,
    a: int,
)
    requires
        args_once(site.stores@),
        0 <= a < args.len(),
        args[a] is Boxed,
        drops_rest(site, args, drops),
    ensures
        stores_arg(site.stores@, a) != drops.contains(a as usize),
        forall|i: int, j: int|
            0 <= i < j < site.stores@.len() ==> !(site.stores@[i].1 == a && site.stores@[j].1
                == a),
{
    assert(drops.contains(a as usize) && 0 <= a < args.len() <==> 0 <= a < args.len()
        && args[a] is Boxed && !stores_arg(site.stores@, a));
}

} // verus!
