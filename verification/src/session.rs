//! The pending-invocation table: which dialog a user's next private
//! message belongs to, keyed by user identity. Each user holds at most
//! one pending invocation, so a second dialog cannot be started while
//! one is underway.

use vstd::prelude::*;

use crate::seq_util::{find_first, find_index, has_match, lemma_find_first};

verus! {

/// The commands a pending invocation can be driving.
#[derive(Clone, Copy, PartialEq, Eq, Structural, Debug)]
pub enum Command {
    CreateEvent,
}

/// A pending invocation: the command being driven and the channel it
/// was triggered from.
#[derive(Clone, Copy, PartialEq, Eq, Structural, Debug)]
pub struct Invocation {
    pub command: Command,
    pub source_channel: u64,
}

/// Matches a table entry by user identity.
pub open spec fn keyed(user: u64) -> spec_fn((u64, Invocation)) -> bool {
    |e: (u64, Invocation)| e.0 == user
}

/// Pending invocations keyed by user identity.
pub struct SessionTable {
    entries: Vec<(u64, Invocation)>,
}

impl SessionTable {
    /// The entries, in the order the invocations were begun.
    pub closed spec fn spec_entries(self) -> Seq<(u64, Invocation)> {
        self.entries@
    }

    /// Each user holds at most one entry.
    pub open spec fn inv(self) -> bool {
        forall|i: int, j: int|
            0 <= i < j < self.spec_entries().len() ==> (#[trigger] self.spec_entries()[i]).0 != (
            #[trigger] self.spec_entries()[j]).0
    }

    /// Whether this user holds a pending invocation.
    pub open spec fn spec_contains(self, user: u64) -> bool {
        has_match(self.spec_entries(), keyed(user))
    }

    /// An empty table.
    pub fn new() -> (s: Self)
        ensures
            s.inv(),
            s.spec_entries() == Seq::<(u64, Invocation)>::empty(),
    {
        let s = SessionTable { entries: Vec::new() };
        proof {
            assert(s.spec_entries() =~= Seq::<(u64, Invocation)>::empty());
        }
        s
    }

    /// Finds the position of this user's entry.
    fn position(&self, user: u64) -> (r: Option<usize>)
        ensures
            match r {
                Some(i) => {
                    &&& i < self.spec_entries().len()
                    &&& self.spec_entries()[i as int].0 == user
                    &&& find_index(self.spec_entries(), keyed(user)) == i
                    &&& self.spec_contains(user)
                },
                None => !self.spec_contains(user),
            },
    {
        let ghost entries = self.spec_entries();
        let n = self.entries.len();
        let mut i: usize = 0;
        while i < n
            invariant
                entries == self.spec_entries(),
                n == entries.len(),
                i <= n,
                forall|j: int| 0 <= j < i ==> !(keyed(user)(#[trigger] entries[j])),
            decreases n - i,
        {
            if self.entries[i].0 == user {
                proof {
                    assert(keyed(user)(entries[i as int]));
                    lemma_find_first(entries, keyed(user));
                }
                return Some(i);
            }
            i += 1;
        }
        None
    }

    /// Whether this user holds a pending invocation.
    pub fn contains(&self, user: u64) -> (r: bool)
        ensures
            r == self.spec_contains(user),
    {
        self.position(user).is_some()
    }

    /// Begins an invocation for this user. Refused — leaving the table
    /// unchanged — when the user already holds one, so concurrent
    /// dialogs for one user cannot start.
    pub fn begin(&mut self, user: u64, invocation: Invocation) -> (r: bool)
        requires
            old(self).inv(),
        ensures
            final(self).inv(),
            old(self).spec_contains(user) ==> !r && final(self).spec_entries() == old(
                self,
            ).spec_entries(),
            !old(self).spec_contains(user) ==> r && final(self).spec_entries() == old(
                self,
            ).spec_entries().push((user, invocation)),
    {
        if self.position(user).is_some() {
            return false;
        }
        let ghost entries = self.spec_entries();
        self.entries.push((user, invocation));
        proof {
            assert(forall|j: int| 0 <= j < entries.len() ==> !(keyed(user)(#[trigger] entries[j])));
            assert(forall|j: int|
                0 <= j < entries.len() ==> self.spec_entries()[j] == entries[j]);
            assert(self.spec_entries()[entries.len() as int] == (user, invocation));
        }
        true
    }

    /// Takes this user's pending invocation out of the table, if any:
    /// the entry leaves the table and its invocation is returned.
    pub fn take(&mut self, user: u64) -> (r: Option<Invocation>)
        requires
            old(self).inv(),
        ensures
            final(self).inv(),
            ({
                let entries = old(self).spec_entries();
                if old(self).spec_contains(user) {
                    let i = find_index(entries, keyed(user));
                    &&& r == Some(entries[i].1)
                    &&& final(self).spec_entries() == entries.remove(i)
                } else {
                    r is None && final(self).spec_entries() == entries
                }
            }),
    {
        let ghost entries = self.spec_entries();
        let i = match self.position(user) {
            Some(i) => i,
            None => {
                return None;
            },
        };
        let entry = self.entries.remove(i);
        proof {
            entries.remove_ensures(i as int);
            let e2 = self.spec_entries();
            assert forall|a: int, b: int|
                0 <= a < b < e2.len() implies (#[trigger] e2[a]).0 != (#[trigger] e2[b]).0 by {
                let a0: int = if a < i { a } else { a + 1 };
                let b0: int = if b < i { b } else { b + 1 };
                assert(e2[a] == entries[a0]);
                assert(e2[b] == entries[b0]);
            }
        }
        Some(entry.1)
    }
}

} // verus!
