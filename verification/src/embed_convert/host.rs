//! The host values behind class instances: a table from objects to values, and the borrows that
//! calls hold on them.

use crate::tables::retain_alive;
use std::collections::{HashMap, HashSet};
use vstd::prelude::*;

verus! {

broadcast use vstd::std_specs::hash::group_hash_axioms;

/// The host value of an instance.
#[derive(Clone, Copy, Debug, PartialEq, Eq, Structural)]
pub struct HostEntry {
    /// The identity of its host type.
    pub class: u64,
    /// The value, by its handle.
    pub handle: u64,
    /// How many calls borrow it shared.
    pub shared: u32,
    /// A call borrows it exclusively.
    pub exclusive: bool,
}

/// The host values by object. Entries of dead objects are swept as the table grows.
pub struct HostObjects {
    pub entries: HashMap<u64, HostEntry>,
    /// The size at which the next sweep runs.
    pub sweep_at: usize,
}

/// A borrow that a call holds.
#[derive(Clone, Copy, Debug, PartialEq, Eq, Structural)]
pub struct Guard {
    pub obj: u64,
    pub exclusive: bool,
}

/// The fewest entries that a sweep runs at.
pub const SWEEP_MIN: usize = 256;

/// An entry that no call borrows.
pub open spec fn idle_entry(class: u64, handle: u64) -> HostEntry {
    HostEntry { class, handle, shared: 0, exclusive: false }
}

/// Twice a size, as far as it goes.
pub open spec fn doubled(n: nat) -> int {
    if 2 * n <= usize::MAX {
        2 * n as int
    } else {
        usize::MAX as int
    }
}

/// Whether a value can be borrowed.
pub open spec fn free(e: HostEntry, exclusive: bool) -> bool {
    !e.exclusive && if exclusive {
        e.shared == 0
    } else {
        e.shared < u32::MAX
    }
}

/// The entry while one more call borrows its value.
pub open spec fn borrowed(e: HostEntry, exclusive: bool) -> HostEntry {
    if exclusive {
        HostEntry { exclusive: true, ..e }
    } else {
        HostEntry { shared: (e.shared + 1) as u32, ..e }
    }
}

/// The entry once a borrow has ended.
pub open spec fn returned(e: HostEntry, exclusive: bool) -> HostEntry {
    if exclusive {
        HostEntry { exclusive: false, ..e }
    } else if e.shared > 0 {
        HostEntry { shared: (e.shared - 1) as u32, ..e }
    } else {
        e
    }
}

impl HostObjects {
    /// An empty table.
    pub fn new() -> (r: HostObjects)
        ensures
            r.entries@ == Map::<u64, HostEntry>::empty(),
            r.sweep_at == 0,
    {
        HostObjects { entries: HashMap::new(), sweep_at: 0 }
    }

    /// The value of a host type behind an object.
    pub open spec fn spec_data(self, obj: u64, class: u64) -> Option<u64> {
        if self.entries@.contains_key(obj) && self.entries@[obj].class == class {
            Some(self.entries@[obj].handle)
        } else {
            None
        }
    }

    /// The value of a host type behind an object.
    pub fn data(&self, obj: u64, class: u64) -> (r: Option<u64>)
        ensures
            r == self.spec_data(obj, class),
    {
        match self.entries.get(&obj) {
            Some(e) => if e.class == class {
                Some(e.handle)
            } else {
                None
            },
            None => None,
        }
    }

    /// Drops the values of dead objects, and says how many.
    pub fn sweep(&mut self, alive: &HashSet<u64>) -> (r: usize)
        ensures
            final(self).entries@ == old(self).entries@.restrict(alive@),
            r == old(self).entries@.len() - final(self).entries@.len(),
            final(self).sweep_at == doubled(final(self).entries@.len()),
    {
        let before: usize = self.entries.len();
        retain_alive(&mut self.entries, alive);
        let after: usize = self.entries.len();
        self.sweep_at = if after <= usize::MAX / 2 {
            after * 2
        } else {
            usize::MAX
        };
        before - after
    }

    /// An entry is attached; where the table has grown enough, the dead are swept first.
    pub open spec fn attached(
        self,
        after: HostObjects,
        obj: u64,
        e: HostEntry,
        alive: Set<u64>,
    ) -> bool {
        let limit = if self.sweep_at > SWEEP_MIN {
            self.sweep_at
        } else {
            SWEEP_MIN
        };
        if self.entries@.len() >= limit {
            let kept = self.entries@.restrict(alive);
            after.entries@ == kept.insert(obj, e) && after.sweep_at == doubled(kept.len())
        } else {
            after.entries@ == self.entries@.insert(obj, e) && after.sweep_at == self.sweep_at
        }
    }

    /// Attaches a value to an object, after a sweep when the table has grown enough.
    pub fn attach(&mut self, obj: u64, class: u64, handle: u64, alive: &HashSet<u64>)
        ensures
            old(self).attached(*final(self), obj, idle_entry(class, handle), alive@),
            final(self).spec_data(obj, class) == Some(handle),
    {
        let limit: usize = if self.sweep_at > SWEEP_MIN {
            self.sweep_at
        } else {
            SWEEP_MIN
        };
        if self.entries.len() >= limit {
            let _ = self.sweep(alive);
        }
        let _ = self.entries.insert(
            obj,
            HostEntry { class, handle, shared: 0, exclusive: false },
        );
    }

    /// Borrows the value behind an object; false on a conflict with a borrow that another call
    /// holds.
    pub fn borrow_value(&mut self, obj: u64, exclusive: bool) -> (r: bool)
        requires
            old(self).entries@.contains_key(obj),
        ensures
            final(self).sweep_at == old(self).sweep_at,
            r == free(old(self).entries@[obj], exclusive),
            final(self).entries@ == if r {
                old(self).entries@.insert(obj, borrowed(old(self).entries@[obj], exclusive))
            } else {
                old(self).entries@
            },
    {
        let mut e: HostEntry = match self.entries.get(&obj) {
            Some(e) => *e,
            None => {
                return false;
            },
        };
        if e.exclusive {
            return false;
        }
        if exclusive {
            if e.shared != 0 {
                return false;
            }
            e.exclusive = true;
        } else {
            if e.shared == u32::MAX {
                return false;
            }
            e.shared = e.shared + 1;
        }
        let _ = self.entries.insert(obj, e);
        true
    }

    /// The table once a borrow has ended.
    pub open spec fn released(self, g: Guard) -> Map<u64, HostEntry> {
        if self.entries@.contains_key(g.obj) {
            self.entries@.insert(g.obj, returned(self.entries@[g.obj], g.exclusive))
        } else {
            self.entries@
        }
    }

    /// Ends a borrow. The value of an object that was swept meanwhile is gone.
    pub fn release(&mut self, g: Guard)
        ensures
            final(self).entries@ == old(self).released(g),
            final(self).sweep_at == old(self).sweep_at,
    {
        let mut e: HostEntry = match self.entries.get(&g.obj) {
            Some(e) => *e,
            None => {
                return ;
            },
        };
        if g.exclusive {
            e.exclusive = false;
        } else if e.shared > 0 {
            e.shared = e.shared - 1;
        }
        let _ = self.entries.insert(g.obj, e);
    }
}

/// A borrow that ends leaves the table as it was before it was taken.
pub proof fn lemma_release_undoes_borrow(before: HostObjects, during: HostObjects, g: Guard)
    requires
        before.entries@.contains_key(g.obj),
        free(before.entries@[g.obj], g.exclusive),
        during.entries@ == before.entries@.insert(
            g.obj,
            borrowed(before.entries@[g.obj], g.exclusive),
        ),
    ensures
        during.released(g) == before.entries@,
{
    assert(during.released(g) =~= before.entries@);
}

/// A sweep keeps the value of every object that is alive, and of no other.
pub proof fn lemma_sweep_keeps_the_living(
    before: HostObjects,
    after: HostObjects,
    alive: Set<u64>,
    obj: u64,
    class: u64,
)
    requires
        after.entries@ == before.entries@.restrict(alive),
    ensures
        after.spec_data(obj, class) == if alive.contains(obj) {
            before.spec_data(obj, class)
        } else {
            None
        },
{
}

} // verus!
