//! Runs of scripts and modules: what they begin with, and what their outcomes come to.

use crate::ast::{has_directive, opens_with, Stmt};
use crate::engine::{
    describe_throw, thrown_message, thrown_name, Completion, Engine, Loader, ParseError,
    SourceKind, Thrown,
};
use crate::eval::promise_fast::Job;
use crate::lstr::LStr;
use crate::lstr_compact::{compact_views, compactable};
use crate::object::{fresh_function, Callable, Named, Object, Property};
use crate::text::push_dec;
use crate::value::Value;
use vstd::prelude::*;

verus! {

/// How a parse failure is reported: its message, and its line in parentheses.
pub open spec fn parse_report(e: ParseError) -> Seq<char> {
    e.message@ + " (line "@ + crate::text::dec_digits(e.line as nat) + ")"@
}

/// How a parse failure is reported.
pub fn report_parse(e: &ParseError) -> (r: String)
    ensures
        r@ == parse_report(*e),
{
    let mut out = e.message.clone();
    out.append(" (line ");
    push_dec(&mut out, e.line as u64);
    out.append(")");
    assert(out@ =~= parse_report(*e));
    out
}

/// The snapshot of a script: of a source that parses with every body, the encoding of what parses
/// with the bodies left out. The first failure is reported.
pub fn compile_snapshot(eager: Option<ParseError>, lazy: Result<Vec<u8>, ParseError>) -> (r: Result<
    Vec<u8>,
    String,
>)
    ensures
        match eager {
            Some(e) => r matches Err(t) && t@ == parse_report(e),
            None => match lazy {
                Ok(b) => r == Ok::<Vec<u8>, String>(b),
                Err(e) => r matches Err(t) && t@ == parse_report(e),
            },
        },
{
    if let Some(e) = eager {
        return Err(report_parse(&e));
    }
    match lazy {
        Ok(b) => Ok(b),
        Err(e) => Err(report_parse(&e)),
    }
}

/// A blob that was refused, as a failure to parse: without a line.
pub open spec fn refusal(e: ParseError, message: Seq<char>) -> bool {
    e.message@ == message && e.line == 0 && !e.at_eof
}

/// A blob that was refused, as a failure to parse.
pub fn refused(message: String) -> (e: ParseError)
    ensures
        refusal(e, message@),
{
    ParseError { message, line: 0, at_eof: false }
}

/// The failure to decode a unit: it names the unit.
pub fn unit_refused(key: &str, message: &str) -> (e: ParseError)
    ensures
        refusal(e, key@ + ": "@ + message@),
{
    let mut out = key.to_owned();
    out.append(": ");
    out.append(message);
    refused(out)
}

/// The outcome of running code: the value, rendered, or what was thrown with the report of a
/// rejected TypeScript source.
pub enum Ran {
    Value(String),
    Threw { thrown: Thrown, report: Option<String> },
}

/// What a run comes to.
pub open spec fn completes(c: Completion, ran: Ran) -> bool {
    match ran {
        Ran::Value(v) => c matches Completion::Value(t) && t@ == v@,
        Ran::Threw { thrown, report } => c matches Completion::Throw { name, message } && match report {
            Some(text) => name@.len() == 0 && message@ == text@,
            None => name@ == thrown_name(thrown) && message@ == thrown_message(thrown),
        },
    }
}

/// What a run comes to.
pub fn complete(ran: Ran) -> (c: Completion)
    ensures
        completes(c, ran),
{
    match ran {
        Ran::Value(v) => Completion::Value(v),
        Ran::Threw { thrown, report } => describe_throw(thrown, report),
    }
}

/// What loading a module comes to: its value is not shown.
pub open spec fn module_completes(
    c: Completion,
    threw: Option<(Thrown, Option<String>)>,
) -> bool {
    match threw {
        None => c matches Completion::Value(t) && t@.len() == 0,
        Some((thrown, report)) => completes(c, Ran::Threw { thrown, report }),
    }
}

/// What loading a module comes to.
pub fn complete_module(threw: Option<(Thrown, Option<String>)>) -> (c: Completion)
    ensures
        module_completes(c, threw),
{
    match threw {
        None => Completion::Value(String::new()),
        Some((thrown, report)) => describe_throw(thrown, report),
    }
}

/// The value of a script that ran: an empty completion is `undefined`.
pub fn script_value(result: Result<Value, Value>) -> (r: Result<Value, Value>)
    ensures
        r == match result {
            Ok(v) => if v == Value::Empty {
                Ok(Value::Undefined)
            } else {
                Ok(v)
            },
            Err(e) => Err(e),
        },
{
    match result {
        Ok(Value::Empty) => Ok(Value::Undefined),
        Ok(v) => Ok(v),
        Err(e) => Err(e),
    }
}

/// A precompiled blob that was validated: its units, and which of them is the entry module.
pub struct Blob {
    pub keys: Vec<String>,
    pub kinds: Vec<SourceKind>,
    pub entry: Option<usize>,
}

impl Blob {
    /// Every unit has a key and a kind, and the entry module is one of them.
    pub open spec fn wf(self) -> bool {
        self.keys@.len() == self.kinds@.len() && (self.entry matches Some(e) ==> e
            < self.keys@.len())
    }
}

/// The script units from an index on, in order.
pub open spec fn script_units(kinds: Seq<SourceKind>, from: int) -> Seq<int>
    decreases kinds.len() - from,
{
    if !(0 <= from < kinds.len()) {
        Seq::empty()
    } else if kinds[from] == SourceKind::Script {
        seq![from] + script_units(kinds, from + 1)
    } else {
        script_units(kinds, from + 1)
    }
}

/// The script units are those of the kind, each once.
pub proof fn lemma_script_units(kinds: Seq<SourceKind>, from: int)
    requires
        0 <= from <= kinds.len(),
    ensures
        forall|i: int| #[trigger]
            script_units(kinds, from).contains(i) <==> from <= i < kinds.len() && kinds[i]
                == SourceKind::Script,
        forall|a: int, b: int|
            0 <= a < b < script_units(kinds, from).len() ==> script_units(kinds, from)[a]
                < script_units(kinds, from)[b],
    decreases kinds.len() - from,
{
    let s = script_units(kinds, from);
    if from < kinds.len() {
        lemma_script_units(kinds, from + 1);
        let t = script_units(kinds, from + 1);
        if kinds[from] == SourceKind::Script {
            assert(s =~= seq![from] + t);
            assert forall|i: int| #[trigger]
                s.contains(i) <==> from <= i < kinds.len() && kinds[i] == SourceKind::Script by {
                if s.contains(i) {
                    let a = s.index_of(i);
                    if a > 0 {
                        assert(t[a - 1] == i);
                        assert(t.contains(i));
                    }
                }
                if i == from {
                    assert(s[0] == i);
                } else if t.contains(i) {
                    let a = t.index_of(i);
                    assert(s[a + 1] == i);
                }
            }
            assert forall|a: int, b: int| 0 <= a < b < s.len() implies s[a] < s[b] by {
                let later = t[b - 1];
                assert(s[b] == later);
                assert(t.contains(later));
                if a > 0 {
                    let earlier = t[a - 1];
                    assert(s[a] == earlier);
                } else {
                    assert(s[a] == from);
                }
            }
        }
    }
}

/// What loading a precompiled blob does next.
pub enum LoadStep {
    /// Decode and run the script unit with this index.
    Script(usize),
    /// Load the entry module, which has this index.
    Entry(usize),
    Done,
}

/// A precompiled blob on its way: its modules are registered, its script units run in order, and
/// its entry module is loaded last.
pub struct Loading {
    pub blob: Blob,
    /// The script units before this one ran.
    pub from: usize,
    /// Nothing is left to run: the entry module was loaded, or a unit threw.
    pub ended: bool,
    /// What the last of them came to.
    pub last: Completion,
}

impl Loading {
    /// The script units that are still to run.
    pub open spec fn scripts(self) -> Seq<int> {
        if self.ended {
            Seq::empty()
        } else {
            script_units(self.blob.kinds@, self.from as int)
        }
    }

    /// What is done next.
    pub open spec fn step(self) -> LoadStep {
        if self.ended {
            LoadStep::Done
        } else if self.scripts().len() > 0 {
            LoadStep::Script(self.scripts()[0] as usize)
        } else {
            match self.blob.entry {
                Some(e) => LoadStep::Entry(e),
                None => LoadStep::Done,
            }
        }
    }

    /// What is done next.
    pub fn next(&self) -> (r: LoadStep)
        requires
            self.blob.wf(),
        ensures
            r == self.step(),
            match r {
                LoadStep::Script(i) => i < self.blob.keys@.len(),
                LoadStep::Entry(i) => i < self.blob.keys@.len(),
                LoadStep::Done => true,
            },
    {
        if self.ended {
            return LoadStep::Done;
        }
        let kinds = &self.blob.kinds;
        let mut i: usize = self.from;
        while i < kinds.len()
            invariant
                self.from <= i,
                !self.ended,
                kinds@ == self.blob.kinds@,
                self.blob.wf(),
                script_units(kinds@, i as int) == self.scripts(),
            decreases kinds@.len() - i,
        {
            if kinds[i] == SourceKind::Script {
                assert(self.scripts()[0] == i);
                return LoadStep::Script(i);
            }
            i = i + 1;
        }
        match self.blob.entry {
            Some(e) => LoadStep::Entry(e),
            None => LoadStep::Done,
        }
    }

    /// The script unit that was next ran. One that threw ends it.
    pub fn script_ran(&mut self, unit: usize, ran: Ran)
        requires
            old(self).blob.wf(),
            old(self).step() == LoadStep::Script(unit),
        ensures
            final(self).blob == old(self).blob,
            completes(final(self).last, ran),
            final(self).ended == ran is Threw,
            final(self).scripts() == if ran is Threw {
                Seq::empty()
            } else {
                old(self).scripts().drop_first()
            },
    {
        let count: usize = self.blob.kinds.len();
        proof {
            lemma_first_script(self.blob.kinds@, self.from as int);
            assert(unit < count);
        }
        match &ran {
            Ran::Value(_) => {
                self.from = unit + 1;
            },
            Ran::Threw { .. } => {
                self.ended = true;
            },
        }
        self.last = complete(ran);
    }

    /// The entry module was loaded, which is the end; its value is not shown.
    pub fn entry_ran(&mut self, threw: Option<(Thrown, Option<String>)>)
        requires
            old(self).step() is Entry,
        ensures
            final(self).blob == old(self).blob,
            final(self).ended,
            module_completes(final(self).last, threw),
    {
        self.ended = true;
        self.last = complete_module(threw);
    }
}

proof fn lemma_first_script(kinds: Seq<SourceKind>, from: int)
    requires
        0 <= from,
        script_units(kinds, from).len() > 0,
    ensures
        ({
            let i = script_units(kinds, from)[0];
            &&& from <= i < kinds.len()
            &&& script_units(kinds, i + 1) == script_units(kinds, from).drop_first()
        }),
    decreases kinds.len() - from,
{
    if from < kinds.len() {
        if kinds[from] == SourceKind::Script {
            assert((seq![from] + script_units(kinds, from + 1)).drop_first() =~= script_units(
                kinds,
                from + 1,
            ));
        } else {
            lemma_first_script(kinds, from + 1);
        }
    }
}

/// What draining the queue does next.
pub enum Drain {
    /// Run this job.
    Run(Job),
    /// The queue is empty, and the string buffers are compacted.
    Idle,
}

/// A native method.
pub struct NativeSpec {
    pub name: String,
    pub length: u32,
    pub native: u64,
}

/// Properties with a function for each method put in; the functions start at the object `first`.
pub open spec fn with_methods(base: Named, ops: Seq<NativeSpec>, first: int) -> Named
    decreases ops.len(),
{
    if ops.len() == 0 {
        base
    } else {
        crate::object::put(
            with_methods(base, ops.drop_last(), first),
            ops.last().name@,
            Property::spec_data(
                Value::Obj((first + ops.len() - 1) as u64),
                true,
                false,
                true,
            ),
        )
    }
}

impl Engine {
    /// Begins a script that was parsed: it is strict if that is asked for, or if it opens with
    /// the directive. Its body is run next, then the queued jobs, and [`complete`] says what the
    /// run came to. A failure to parse is handed on.
    pub fn eval(&mut self, parsed: Result<Vec<Stmt>, ParseError>, strict: bool) -> (r: Result<
        Vec<Stmt>,
        ParseError,
    >)
        ensures
            r == parsed,
            match parsed {
                Ok(body) => *final(self) == (Engine {
                    strict: strict || opens_with(body@, "use strict"@),
                    ..*old(self)
                }),
                Err(_) => *final(self) == *old(self),
            },
    {
        match parsed {
            Ok(body) => {
                self.strict = strict || has_directive(&body, "use strict");
                Ok(body)
            },
            Err(e) => Err(e),
        }
    }

    /// Begins a script whose value is wanted as it is; no jobs run after it, and
    /// [`script_value`] says what it came to.
    pub fn eval_value(&mut self, parsed: Result<Vec<Stmt>, ParseError>) -> (r: Result<
        Vec<Stmt>,
        ParseError,
    >)
        ensures
            r == parsed,
            match parsed {
                Ok(body) => *final(self) == (Engine {
                    strict: opens_with(body@, "use strict"@),
                    ..*old(self)
                }),
                Err(_) => *final(self) == *old(self),
            },
    {
        self.eval(parsed, false)
    }

    /// Begins to evaluate a module: its loader is consulted for every dependency. The module is
    /// loaded next, then the queued jobs run, and [`complete_module`] says what it came to.
    pub fn eval_module(&mut self, loader: u64)
        ensures
            *final(self) == (Engine {
                module_loader: Some(Loader { id: loader, attrs: false }),
                ..*old(self)
            }),
    {
        self.set_module_loader(loader);
    }

    /// Begins to evaluate a module with a loader that is told the `type` attribute of imports.
    pub fn eval_module_attrs(&mut self, loader: u64)
        ensures
            *final(self) == (Engine {
                module_loader: Some(Loader { id: loader, attrs: true }),
                ..*old(self)
            }),
    {
        self.set_module_loader_attrs(loader);
    }

    /// Begins to load a precompiled blob whose modules are registered. One that was refused is a
    /// failure to parse.
    pub fn load_precompiled(parsed: Result<Blob, String>) -> (r: Result<Loading, ParseError>)
        ensures
            match parsed {
                Ok(b) => r matches Ok(l) && l.blob == b && !l.ended && l.scripts() == script_units(
                    b.kinds@,
                    0,
                ) && (l.last matches Completion::Value(t) && t@.len() == 0),
                Err(m) => r matches Err(e) && refusal(e, m@),
            },
    {
        match parsed {
            Ok(blob) => Ok(
                Loading {
                    blob,
                    from: 0,
                    ended: false,
                    last: Completion::Value(String::new()),
                },
            ),
            Err(m) => Err(refused(m)),
        }
    }

    /// Begins a script that a snapshot was decoded to, as a parsed one is begun. A snapshot that
    /// was refused is a failure to parse.
    pub fn eval_snapshot(&mut self, decoded: Result<Vec<Stmt>, String>, strict: bool) -> (r: Result<
        Vec<Stmt>,
        ParseError,
    >)
        ensures
            match decoded {
                Ok(body) => {
                    &&& r == Ok::<Vec<Stmt>, ParseError>(body)
                    &&& *final(self) == Engine {
                        strict: strict || opens_with(body@, "use strict"@),
                        ..*old(self)
                    }
                },
                Err(m) => {
                    &&& r matches Err(e) && refusal(e, m@)
                    &&& *final(self) == *old(self)
                },
            },
    {
        match decoded {
            Ok(body) => self.eval(Ok(body), strict),
            Err(m) => Err(refused(m)),
        }
    }

    /// The key of the entry module of a blob whose modules are registered.
    pub fn register_precompiled(parsed: Result<Blob, String>) -> (r: Result<
        Option<String>,
        ParseError,
    >)
        requires
            parsed matches Ok(b) ==> b.wf(),
        ensures
            match parsed {
                Ok(b) => match b.entry {
                    Some(e) => r matches Ok(Some(k)) && k@ == b.keys@[e as int]@,
                    None => r == Ok::<Option<String>, ParseError>(None),
                },
                Err(m) => r matches Err(e) && refusal(e, m@),
            },
    {
        match parsed {
            Ok(b) => match b.entry {
                Some(e) => Ok(Some(b.keys[e].clone())),
                None => Ok(None),
            },
            Err(m) => Err(refused(m)),
        }
    }

    /// Becomes a spawned agent: it may block, and has channels to the others.
    pub fn run_as_agent(&mut self, channels: u64)
        ensures
            *final(self) == (Engine { can_block: true, agent: Some(channels), ..*old(self) }),
    {
        self.can_block = true;
        self.agent = Some(channels);
    }

    /// Installs a module loader.
    pub fn set_module_loader(&mut self, id: u64)
        ensures
            *final(self) == (Engine {
                module_loader: Some(Loader { id, attrs: false }),
                ..*old(self)
            }),
    {
        self.module_loader = Some(Loader { id, attrs: false });
    }

    /// Installs a module loader that is told the `type` attribute of imports.
    pub fn set_module_loader_attrs(&mut self, id: u64)
        ensures
            *final(self) == (Engine {
                module_loader: Some(Loader { id, attrs: true }),
                ..*old(self)
            }),
    {
        self.module_loader = Some(Loader { id, attrs: true });
    }

    /// The attribute that the loader is told of an import that has one.
    pub fn loader_attribute(&self, attribute: Option<String>) -> (r: Option<String>)
        ensures
            r == if self.module_loader matches Some(l) && l.attrs {
                attribute
            } else {
                None
            },
    {
        match self.module_loader {
            Some(l) => if l.attrs {
                attribute
            } else {
                None
            },
            None => None,
        }
    }

    /// Gives a way to stop the realm from elsewhere.
    pub fn set_interrupt(&mut self, flag: u64)
        ensures
            *final(self) == (Engine { interrupt: Some(flag), ..*old(self) }),
    {
        self.interrupt = Some(flag);
    }

    /// Drains the queue: takes the next job, or, when there is none left, compacts the string
    /// buffers that only views still use.
    pub fn run_microtasks(&mut self) -> (r: Drain)
        requires
            old(self).strings.wf(),
            old(self).strings.cells@.len() * 2 < usize::MAX,
        ensures
            final(self).strings.wf(),
            ({
                let q = old(self).interp.promises.microtasks@;
                if q.len() > 0 {
                    &&& r == Drain::Run(q[0])
                    &&& final(self).interp.promises.microtasks@ == q.drop_first()
                    &&& final(self).same_but_jobs(*old(self))
                } else {
                    &&& r is Idle
                    &&& *final(self) == Engine { strings: final(self).strings, ..*old(self) }
                    &&& forall|s: LStr| #[trigger]
                        old(self).strings.held(s) ==> final(self).strings.held(s) && final(
                            self).strings.content(s) == old(self).strings.content(s)
                    &&& forall|k: int|
                        0 <= k < final(self).strings.cells@.len() ==> !(#[trigger] compactable(
                            final(self).strings.cells@,
                            k,
                        ))
                }
            }),
    {
        if self.interp.promises.microtasks.len() == 0 {
            let _ = compact_views(&mut self.strings);
            return Drain::Idle;
        }
        let job = self.interp.promises.microtasks.remove(0);
        assert(self.interp.promises.microtasks@ =~= old(
            self).interp.promises.microtasks@.drop_first());
        Drain::Run(job)
    }

    /// Defines a global as a namespace object with native methods.
    pub fn define_namespace(&mut self, name: &str, ops: &Vec<NativeSpec>)
        requires
            old(self).wf(),
            old(self).interp.room(1 + ops@.len() as int),
        ensures
            final(self).wf(),
            final(self).same_but_objects(*old(self)),
            ({
                let n = old(self).interp.heap.objects@.len() as int;
                let g = old(self).interp.global;
                let h = final(self).interp.heap;
                &&& h.objects@.len() == n + 1 + ops@.len()
                &&& final(self).interp.ops == old(self).interp.ops
                &&& crate::object::ordinary(
                    h.at(n as u64),
                    Some(old(self).interp.object_proto),
                )
                &&& crate::object::same_but_props(h.at(g), old(self).interp.heap.at(g))
                &&& h.at(n as u64).props@ == with_methods(Seq::empty(), ops@, n + 1)
                &&& forall|i: int|
                    0 <= i < ops@.len() ==> fresh_function(
                        #[trigger] h.objects@[n + 1 + i],
                        old(self).interp.function_proto,
                        Callable::Native(ops@[i].native),
                        ops@[i].length as int,
                        ops@[i].name@,
                    )
                &&& h.at(g).props@ == crate::object::put(
                    old(self).interp.heap.at(g).props@,
                    name@,
                    Property::spec_data(Value::Obj(n as u64), true, false, true),
                )
                &&& forall|i: int|
                    0 <= i < n && i != g ==> #[trigger] h.objects@[i]
                        == old(self).interp.heap.objects@[i]
            }),
    {
        let g = self.interp.global;
        let ghost n = self.interp.heap.objects@.len() as int;
        let proto = self.interp.object_proto;
        let ns = self.interp.heap.add_object(Object::new(Some(proto)));
        let ghost first = n + 1;
        let mut i: usize = 0;
        assert(ops@.take(0) =~= Seq::<NativeSpec>::empty());
        while i < ops.len()
            invariant
                self.wf(),
                i <= ops@.len(),
                self.same_but_objects(*old(self)),
                g == old(self).interp.global,
                g < n,
                ns == n,
                first == n + 1,
                n == old(self).interp.heap.objects@.len(),
                proto == old(self).interp.object_proto,
                first + ops@.len() <= u64::MAX,
                self.interp.heap.objects@.len() == first + i,
                crate::object::ordinary(self.interp.heap.at(ns), Some(proto)),
                self.interp.ops == old(self).interp.ops,
                self.interp.heap.at(ns).props@ == with_methods(
                    Seq::empty(),
                    ops@.take(i as int),
                    first,
                ),
                forall|k: int|
                    0 <= k < n ==> #[trigger] self.interp.heap.objects@[k]
                        == old(self).interp.heap.objects@[k],
                forall|k: int|
                    0 <= k < i ==> fresh_function(
                        #[trigger] self.interp.heap.objects@[first + k],
                        old(self).interp.function_proto,
                        Callable::Native(ops@[k].native),
                        ops@[k].length as int,
                        ops@[k].name@,
                    ),
            decreases ops@.len() - i,
        {
            let op = &ops[i];
            let ghost before = self.interp.heap;
            let f = self.interp.make_native(op.name.as_str(), op.length, op.native);
            let ghost mid = self.interp.heap;
            proof {
                assert(ops@.take(i + 1).drop_last() =~= ops@.take(i as int));
                assert forall|k: int| 0 <= k < first + i implies #[trigger] mid.objects@[k]
                    == before.objects@[k] by {
                    assert(mid.objects@.take(first + i)[k] == before.objects@[k]);
                }
            }
            self.interp.heap.set_prop(ns, op.name.as_str(), Property::builtin(Value::Obj(f)));
            proof {
                assert forall|k: int| 0 <= k < i + 1 implies fresh_function(
                    #[trigger] self.interp.heap.objects@[first + k],
                    old(self).interp.function_proto,
                    Callable::Native(ops@[k].native),
                    ops@[k].length as int,
                    ops@[k].name@,
                ) by {
                    assert(self.interp.heap.objects@[first + k] == mid.objects@[first + k]);
                    if k < i {
                        assert(mid.objects@[first + k] == before.objects@[first + k]);
                    }
                }
            }
            i = i + 1;
        }
        assert(ops@.take(i as int) =~= ops@);
        let ghost before = self.interp.heap;
        self.interp.heap.set_prop(g, name, Property::builtin(Value::Obj(ns)));
        proof {
            assert forall|k: int| 0 <= k < ops@.len() implies fresh_function(
                #[trigger] self.interp.heap.objects@[n + 1 + k],
                old(self).interp.function_proto,
                Callable::Native(ops@[k].native),
                ops@[k].length as int,
                ops@[k].name@,
            ) by {
                assert(before.objects@[first + k] == self.interp.heap.objects@[first + k]);
            }
            assert(before.objects@[ns as int] == self.interp.heap.objects@[ns as int]);
            assert(before.objects@[g as int] == old(self).interp.heap.objects@[g as int]);
        }
    }
}

} // verus!
