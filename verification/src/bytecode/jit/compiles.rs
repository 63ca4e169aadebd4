//! Compilations: the addresses that code is linked against, and what the attempts add up to.

use crate::text::{chars_of, dec_digits, push_dec, text_range};
use vstd::prelude::*;

verus! {

/// The first import that names an external address rather than a helper.
pub const EXT_BASE: u32 = 0x1_0000;

/// The import of the function being compiled itself.
pub const SELF_ID: u32 = 0xffff;

/// The characters of a failure that the report of an attempt keeps.
pub const REASON_CHARS: usize = 60;

/// The address of import `id`: one of the unit's external addresses, or the helper's.
pub open spec fn address_of(externs: Seq<u64>, id: u32, helper: Option<u64>) -> Option<u64> {
    if id < EXT_BASE {
        helper
    } else if id - EXT_BASE < externs.len() {
        Some(externs[id - EXT_BASE])
    } else {
        None
    }
}

/// The address of import `id`; `helper` is the address of the helper of that number.
pub fn import_address(externs: &[u64], id: u32, helper: Option<u64>) -> (r: Option<u64>)
    ensures
        r == address_of(externs@, id, helper),
{
    if id < EXT_BASE {
        return helper;
    }
    let k: usize = (id - EXT_BASE) as usize;
    if k < externs.len() {
        Some(externs[k])
    } else {
        None
    }
}

/// The address that a loaded unit is linked against: an import of itself is its own entry, the
/// first of the loaded addresses.
pub fn link_address(loaded: &[u64], externs: &[u64], id: u32, helper: Option<u64>) -> (r: Option<
    u64,
>)
    ensures
        r == if id != SELF_ID {
            address_of(externs@, id, helper)
        } else if loaded@.len() > 0 {
            Some(loaded@[0])
        } else {
            None
        },
{
    if id != SELF_ID {
        return import_address(externs, id, helper);
    }
    if loaded.len() > 0 {
        Some(loaded[0])
    } else {
        None
    }
}

/// What the compile attempts add up to.
#[derive(Clone, Copy, Debug, PartialEq, Eq, Structural)]
pub struct CompileTotals {
    /// Attempts that gave code.
    pub ok: u32,
    /// Attempts that gave none.
    pub bailed: u32,
    /// Microseconds spent.
    pub us: u64,
}

/// The outcome of an attempt as its report words it.
pub open spec fn outcome_text(failure: Option<Seq<char>>) -> Seq<char> {
    match failure {
        None => "ok"@,
        Some(e) => "bail: "@ + if e.len() <= REASON_CHARS {
            e
        } else {
            e.take(REASON_CHARS as int)
        },
    }
}

impl CompileTotals {
    pub open spec fn with(self, us: u64, failed: bool) -> CompileTotals {
        CompileTotals {
            ok: (self.ok + if failed {
                0int
            } else {
                1
            }) as u32,
            bailed: (self.bailed + if failed {
                1int
            } else {
                0
            }) as u32,
            us: (self.us + us) as u64,
        }
    }

    /// The report of an attempt, with the totals after it.
    pub open spec fn report(self, kind: Seq<char>, us: u64, failure: Option<Seq<char>>) -> Seq<
        char,
    > {
        "[jit-stats] "@ + kind + " "@ + dec_digits(us as nat) + " us "@ + outcome_text(failure)
            + " | total "@ + dec_digits(self.us as nat) + " us, "@ + dec_digits(self.ok as nat)
            + " ok, "@ + dec_digits(self.bailed as nat) + " bailed"@
    }

    pub fn new() -> (r: CompileTotals)
        ensures
            r == (CompileTotals { ok: 0, bailed: 0, us: 0 }),
    {
        CompileTotals { ok: 0, bailed: 0, us: 0 }
    }

    /// Counts an attempt that took `us` microseconds and failed with `failure`, or gave code, and
    /// reports it.
    pub fn attempt(&mut self, kind: &str, us: u64, failure: Option<&str>) -> (line: String)
        requires
            failure is None ==> old(self).ok < u32::MAX,
            failure is Some ==> old(self).bailed < u32::MAX,
            old(self).us + us <= u64::MAX,
        ensures
            *final(self) == old(self).with(us, failure is Some),
            line@ == final(self).report(
                kind@,
                us,
                match failure {
                    Some(e) => Some(e@),
                    None => None,
                },
            ),
    {
        let mut out = String::new();
        out.append("[jit-stats] ");
        out.append(kind);
        out.append(" ");
        push_dec(&mut out, us);
        out.append(" us ");
        let ghost head = out@;
        match failure {
            None => {
                self.ok = self.ok + 1;
                out.append("ok");
            },
            Some(e) => {
                self.bailed = self.bailed + 1;
                let cs = chars_of(e);
                let n: usize = if cs.len() <= REASON_CHARS {
                    cs.len()
                } else {
                    REASON_CHARS
                };
                let kept = text_range(&cs, 0, n);
                out.append("bail: ");
                out.append(kept.as_str());
                proof {
                    let whole = if e@.len() <= REASON_CHARS {
                        e@
                    } else {
                        e@.take(REASON_CHARS as int)
                    };
                    assert(kept@ =~= whole);
                    assert(out@ =~= head + outcome_text(Some(e@)));
                }
            },
        }
        self.us = self.us + us;
        out.append(" | total ");
        push_dec(&mut out, self.us);
        out.append(" us, ");
        push_dec(&mut out, self.ok as u64);
        out.append(" ok, ");
        push_dec(&mut out, self.bailed as u64);
        out.append(" bailed");
        assert(Seq::<char>::empty() + "[jit-stats] "@ =~= "[jit-stats] "@);
        out
    }
}

} // verus!
