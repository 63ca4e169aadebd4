//! The source registry: what a source is called in traces, where its own text starts, and its
//! line table.

use crate::ast::NO_POS;
use crate::interpreter::line_table::{
    byte_off, rank, table_of, LazyTable, LineTable, LineTableView,
};
use crate::tables::retain_alive;
use std::collections::{HashMap, HashSet};
use vstd::prelude::*;

verus! {

broadcast use vstd::std_specs::hash::group_hash_axioms;

/// A known source.
pub struct SourceInfo {
    pub name: String,
    /// The byte offset where the file's own text begins, after a synthesized header.
    pub body_start: u32,
    /// The function that wraps the source as a module; 0 for none.
    pub wrapper: u64,
    /// The line table, once it is needed or given.
    pub table: Option<LazyTable>,
}

/// The fewest entries that pruning runs at.
pub const PRUNE_MIN: usize = 64;

/// The source registry. A source is known by the index of its text. Entries of sources that
/// nobody registered are made on first use; entries of dead sources are pruned as it grows.
pub struct Sources {
    pub texts: Vec<String>,
    pub map: HashMap<u64, SourceInfo>,
    pub prune_at: usize,
}

/// What is known of a source.
pub struct SourceFacts {
    pub name: Seq<char>,
    pub body_start: u32,
    pub wrapper: u64,
    /// The line table; none where its bytes are malformed.
    pub table: Option<LineTableView>,
}

/// The 1-based line and column of a position, counted from the start of the file's own text.
pub open spec fn position(f: SourceFacts, pos: u32) -> Option<(u32, u32)> {
    match f.table {
        None => None,
        Some(t) => if pos == NO_POS || pos < f.body_start {
            None
        } else {
            match (t.line_col(pos), t.line_col(f.body_start)) {
                (Some((l, c)), Some((bl, bc))) => if l == bl {
                    if c >= bc {
                        Some((1, (c - bc + 1) as u32))
                    } else {
                        None
                    }
                } else {
                    Some(((l - bl + 1) as u32, (c + 1) as u32))
                },
                _ => None,
            }
        },
    }
}

proof fn lemma_rank_monotone(starts: Seq<u32>, p: u32, q: u32)
    requires
        p <= q,
    ensures
        rank(starts, p) <= rank(starts, q) <= starts.len(),
    decreases starts.len(),
{
    if starts.len() > 0 && starts[0] <= q {
        lemma_rank_monotone(starts.drop_first(), p, q);
    }
}

proof fn lemma_rank_positive(starts: Seq<u32>, p: u32)
    requires
        starts.len() > 0,
        starts[0] == 0,
    ensures
        rank(starts, p) >= 1,
{
}

impl Sources {
    pub open spec fn wf(self) -> bool {
        &&& forall|i: int|
            0 <= i < self.texts@.len() ==> byte_off(
                (#[trigger] self.texts@[i])@,
                self.texts@[i]@.len() as int,
            ) < u32::MAX
        &&& forall|q: u64| #[trigger]
            self.map@.contains_key(q) ==> (self.map@[q].table matches Some(t) ==> t.wf())
    }

    /// What is known of a source.
    pub open spec fn facts(self, src: u64) -> SourceFacts {
        let built = Some(table_of(self.texts@[src as int]@));
        if self.map@.contains_key(src) {
            let i = self.map@[src];
            SourceFacts {
                name: i.name@,
                body_start: i.body_start,
                wrapper: i.wrapper,
                table: match i.table {
                    Some(t) => t.table(),
                    None => built,
                },
            }
        } else {
            SourceFacts { name: "<anonymous>"@, body_start: 0, wrapper: 0, table: built }
        }
    }

    /// What is known of the living sources is the same.
    pub open spec fn same_facts(self, k: Sources, alive: Set<u64>) -> bool {
        &&& k.texts == self.texts
        &&& forall|q: u64| alive.contains(q) ==> #[trigger] k.facts(q) == self.facts(q)
    }

    /// An empty registry.
    pub fn new() -> (r: Sources)
        ensures
            r.wf(),
            r.texts@.len() == 0,
            r.map@ == Map::<u64, SourceInfo>::empty(),
    {
        Sources { texts: Vec::new(), map: HashMap::new(), prune_at: 0 }
    }

    /// Adds a source text.
    pub fn add_text(&mut self, text: String) -> (r: u64)
        requires
            old(self).wf(),
            byte_off(text@, text@.len() as int) < u32::MAX,
            old(self).texts@.len() < u64::MAX,
        ensures
            final(self).wf(),
            r == old(self).texts@.len(),
            final(self).texts@ == old(self).texts@.push(text),
            *final(self) == (Sources { texts: final(self).texts, ..*old(self) }),
    {
        let r: u64 = self.texts.len() as u64;
        self.texts.push(text);
        r
    }

    /// The size at which the next pruning runs, when `n` entries are left by one.
    pub open spec fn next_prune(n: nat) -> int {
        if 2 * n > usize::MAX {
            usize::MAX as int
        } else if 2 * n > PRUNE_MIN {
            2 * n as int
        } else {
            PRUNE_MIN as int
        }
    }

    /// The entries that stay when one for `src` is wanted: all of them, unless a new entry finds
    /// the registry grown, which drops those of dead sources first.
    pub open spec fn staying(self, src: u64, alive: Set<u64>) -> Map<u64, SourceInfo> {
        if !self.map@.contains_key(src) && self.map@.len() >= self.prune_at {
            self.map@.restrict(alive)
        } else {
            self.map@
        }
    }

    /// The registry after an entry for `src` was wanted: the entries of other sources are those
    /// that stay.
    pub open spec fn entered(self, after: Sources, src: u64, alive: Set<u64>) -> bool {
        let kept = self.staying(src, alive);
        &&& after.texts == self.texts
        &&& after.map@.contains_key(src)
        &&& after.map@.remove(src) == kept.remove(src)
        &&& after.prune_at == if !self.map@.contains_key(src) && self.map@.len() >= self.prune_at {
            Self::next_prune(kept.len())
        } else {
            self.prune_at as int
        }
    }

    /// Makes sure that a source has an entry.
    fn entry(&mut self, src: u64, alive: &HashSet<u64>)
        requires
            old(self).wf(),
            src < old(self).texts@.len(),
            alive@.contains(src),
        ensures
            final(self).wf(),
            old(self).entered(*final(self), src, alive@),
            old(self).same_facts(*final(self), alive@),
            final(self).map@[src].table is None ==> final(self).facts(src).table == Some(
                table_of(final(self).texts@[src as int]@),
            ),
            old(self).map@.contains_key(src) ==> final(self).map@[src] == old(self).map@[src],
            !old(self).map@.contains_key(src) ==> final(self).map@[src].table is None,
    {
        if self.map.contains_key(&src) {
            return;
        }
        if self.map.len() >= self.prune_at {
            retain_alive(&mut self.map, alive);
            let n: usize = self.map.len();
            self.prune_at = if n > usize::MAX / 2 {
                usize::MAX
            } else if n * 2 > PRUNE_MIN {
                n * 2
            } else {
                PRUNE_MIN
            };
        }
        let ghost kept = self.map@;
        let name = "<anonymous>".to_owned();
        self.map.insert(src, SourceInfo { name, body_start: 0, wrapper: 0, table: None });
        assert(self.map@.remove(src) =~= kept.remove(src));
    }

    /// Names a source, says where its own text starts and which function wraps it, and gives it a
    /// line table; what is not given stays as it was.
    pub fn register(
        &mut self,
        src: u64,
        name: Option<&str>,
        body_start: Option<u32>,
        wrapper: u64,
        table: Option<LazyTable>,
        alive: &HashSet<u64>,
    )
        requires
            old(self).wf(),
            src < old(self).texts@.len(),
            alive@.contains(src),
            table matches Some(t) ==> t.wf(),
        ensures
            final(self).wf(),
            old(self).entered(*final(self), src, alive@),
            forall|q: u64| alive@.contains(q) && q != src ==> #[trigger] final(self).facts(q)
                == old(self).facts(q),
            ({
                let f = old(self).facts(src);
                final(self).facts(src) == SourceFacts {
                    name: match name {
                        Some(n) => n@,
                        None => f.name,
                    },
                    body_start: match body_start {
                        Some(b) => b,
                        None => f.body_start,
                    },
                    wrapper: if wrapper != 0 {
                        wrapper
                    } else {
                        f.wrapper
                    },
                    table: match table {
                        Some(t) => t.table(),
                        None => f.table,
                    },
                }
            }),
    {
        self.entry(src, alive);
        let ghost mid = *self;
        if let Some(mut e) = self.map.remove(&src) {
            if let Some(n) = name {
                e.name = n.to_owned();
            }
            if let Some(b) = body_start {
                e.body_start = b;
            }
            if wrapper != 0 {
                e.wrapper = wrapper;
            }
            if let Some(t) = table {
                e.table = Some(t);
            }
            self.map.insert(src, e);
        }
        assert(self.map@.remove(src) =~= mid.map@.remove(src));
        assert forall|q: u64| alive@.contains(q) && q != src implies #[trigger] self.facts(q)
            == old(self).facts(q) by {
            assert(mid.facts(q) == old(self).facts(q));
        }
        assert(mid.facts(src) == old(self).facts(src));
    }

    /// The name of a source, the line and column of a position in it, and its wrapper function.
    pub fn describe(&mut self, src: u64, pos: u32, alive: &HashSet<u64>) -> (r: (
        String,
        Option<(u32, u32)>,
        u64,
    ))
        requires
            old(self).wf(),
            src < old(self).texts@.len(),
            alive@.contains(src),
        ensures
            final(self).wf(),
            old(self).entered(*final(self), src, alive@),
            old(self).same_facts(*final(self), alive@),
            final(self).map@[src].table is Some == (pos != NO_POS || (old(self).map@.contains_key(
                src,
            ) && old(self).map@[src].table is Some)),
            r.0@ == old(self).facts(src).name,
            r.1 == position(old(self).facts(src), pos),
            r.2 == old(self).facts(src).wrapper,
    {
        self.entry(src, alive);
        let ghost mid = *self;
        assert(mid.facts(src) == old(self).facts(src));
        let e = match self.map.remove(&src) {
            Some(e) => e,
            None => {
                return (String::new(), None, 0);
            },
        };
        let SourceInfo { name, body_start, wrapper, table } = e;
        if pos == NO_POS {
            let n = name.clone();
            self.map.insert(src, SourceInfo { name, body_start, wrapper, table });
            proof {
                assert(self.map@.remove(src) =~= mid.map@.remove(src));
                self.lemma_same(mid, *old(self), src, alive@);
            }
            return (n, None, wrapper);
        }
        let mut t = match table {
            Some(t) => t,
            None => {
                assert(self.texts.len() == self.texts@.len());
                LazyTable::Ready(LineTable::build(self.texts[src as usize].as_str()))
            },
        };
        let a = t.line_col(pos);
        let b = t.line_col(body_start);
        let ghost tv = t.table();
        let lc = match (a, b) {
            (Some((l, c)), Some((bl, bc))) if pos >= body_start => {
                proof {
                    let v = tv->0;
                    assert(v.wf());
                    lemma_rank_monotone(v.starts, body_start, pos);
                    lemma_rank_monotone(v.starts, pos, pos);
                    lemma_rank_positive(v.starts, body_start);
                    assert(c <= pos);
                }
                if l == bl {
                    if c >= bc {
                        Some((1, c - bc + 1))
                    } else {
                        None
                    }
                } else {
                    Some((l - bl + 1, c + 1))
                }
            },
            _ => None,
        };
        let n = name.clone();
        self.map.insert(src, SourceInfo { name, body_start, wrapper, table: Some(t) });
        proof {
            assert(self.map@.remove(src) =~= mid.map@.remove(src));
            self.lemma_same(mid, *old(self), src, alive@);
        }
        (n, lc, wrapper)
    }

    proof fn lemma_same(self, mid: Sources, before: Sources, src: u64, alive: Set<u64>)
        requires
            before.same_facts(mid, alive),
            self.texts == mid.texts,
            self.facts(src) == before.facts(src),
            forall|q: u64| q != src ==> (#[trigger] self.map@.contains_key(q)
                == mid.map@.contains_key(q)),
            forall|q: u64| q != src && #[trigger] mid.map@.contains_key(q) ==> self.map@[q]
                == mid.map@[q],
        ensures
            before.same_facts(self, alive),
    {
        assert forall|q: u64| alive.contains(q) implies #[trigger] self.facts(q) == before.facts(
            q,
        ) by {
            assert(mid.facts(q) == before.facts(q));
            if q != src {
                assert(self.map@.contains_key(q) == mid.map@.contains_key(q));
            }
        }
    }
}

} // verus!
