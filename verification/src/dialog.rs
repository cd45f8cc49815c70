//! The two conversational protocols: a bounded single-choice menu and
//! the free-text loop that collects an ordered list of roles. Both are
//! pure decision machines; the surrounding program performs the sends,
//! reads and deletes and hands every reply back in.

use vstd::prelude::*;

use crate::errors::CoreError;
use crate::event::Role;
use crate::text::{contains_negative, has_negative, parse_u32, spec_parse_u32};

verus! {

/// Seconds a presented menu waits for its single selection before the
/// dialog fails with a timeout.
pub const SELECTION_TIMEOUT_SECS: u64 = 30;

/// A single-choice menu: a prompt, the labels to choose between, and the
/// bound on the wait. The runner sends the menu, awaits at most one
/// selection within `timeout_secs` and deletes the menu message again,
/// then hands the outcome to `resolve`.
pub struct SelectionDialog {
    pub prompt: String,
    pub labels: Vec<String>,
}

impl SelectionDialog {
    /// A menu over these labels.
    pub fn new(prompt: String, labels: Vec<String>) -> (d: SelectionDialog)
        ensures
            d.prompt@ == prompt@,
            d.labels == labels,
    {
        SelectionDialog { prompt, labels }
    }

    /// How many choices the menu offers.
    pub fn choice_count(&self) -> (n: usize)
        ensures
            n == self.labels@.len(),
    {
        self.labels.len()
    }

    /// The bound on the wait, in seconds.
    pub fn timeout_secs(&self) -> (t: u64)
        ensures
            t == SELECTION_TIMEOUT_SECS,
    {
        SELECTION_TIMEOUT_SECS
    }

    /// Turns the awaited outcome into the dialog's result: the selected
    /// position when one selection arrived, and a `DialogTimeout` failure
    /// — never a crash — when none did.
    pub fn resolve(&self, selection: Option<usize>) -> (r: Result<usize, CoreError>)
        requires
            selection matches Some(i) ==> i < self.labels@.len(),
        ensures
            selection matches Some(i) ==> r == Ok::<usize, CoreError>(i),
            selection is None ==> r == Err::<usize, CoreError>(CoreError::DialogTimeout),
    {
        match selection {
            Some(i) => Ok(i),
            None => Err(CoreError::DialogTimeout),
        }
    }
}

/// Where the role-collection conversation stands: which reply it awaits,
/// or how it ended.
#[derive(PartialEq, Eq, Structural, Clone, Copy, Debug)]
pub enum RolePhase {
    /// Awaiting a role name.
    AwaitName,
    /// Awaiting the capacity for the name just given.
    AwaitAmount,
    /// Awaiting the answer to "another role?".
    AwaitAnother,
    /// Ended normally; the collected roles stand.
    Finished,
    /// Ended on a malformed capacity reply; the collection failed.
    Aborted,
}

/// The free-text conversation that collects an ordered list of roles.
///
/// It prompts for a role name first. A name reply whose text contains the
/// negative-acknowledgement token ends the sequence; otherwise the
/// conversation asks how many are needed, reads the reply as a
/// non-negative integer — a malformed reply aborts the whole collection —
/// and then asks whether another role should follow. A negative reply
/// there ends the sequence; anything else starts over with a name
/// prompt.
pub struct RoleCollectionDialog {
    phase: RolePhase,
    pending_name: String,
    collected: Vec<Role>,
}

impl RoleCollectionDialog {
    /// The current phase.
    pub closed spec fn spec_phase(self) -> RolePhase {
        self.phase
    }

    /// The name awaiting its capacity, meaningful in `AwaitAmount`.
    pub closed spec fn spec_pending(self) -> Seq<char> {
        self.pending_name@
    }

    /// The roles collected so far, in the order they were given.
    pub closed spec fn spec_collected(self) -> Seq<Role> {
        self.collected@
    }

    /// Whether the conversation still awaits a reply.
    pub open spec fn spec_active(self) -> bool {
        self.spec_phase() == RolePhase::AwaitName || self.spec_phase() == RolePhase::AwaitAmount
            || self.spec_phase() == RolePhase::AwaitAnother
    }

    /// A fresh conversation, awaiting the first role name.
    pub fn new() -> (d: RoleCollectionDialog)
        ensures
            d.spec_phase() == RolePhase::AwaitName,
            d.spec_collected() == Seq::<Role>::empty(),
    {
        let d = RoleCollectionDialog {
            phase: RolePhase::AwaitName,
            pending_name: String::new(),
            collected: Vec::new(),
        };
        proof {
            assert(d.spec_collected() =~= Seq::<Role>::empty());
        }
        d
    }

    /// The current phase.
    pub fn phase(&self) -> (p: RolePhase)
        ensures
            p == self.spec_phase(),
    {
        self.phase
    }

    /// The prompt to send for the awaited reply.
    pub fn prompt(&self) -> (p: String)
        requires
            self.spec_active(),
        ensures
            self.spec_phase() == RolePhase::AwaitName ==> p@ == "Name a role for the event."@,
            self.spec_phase() == RolePhase::AwaitAmount ==> p@ == "How many "@
                + self.spec_pending() + " will you need?"@,
            self.spec_phase() == RolePhase::AwaitAnother ==> p@
                == "Do you want to create another role?"@,
    {
        match self.phase {
            RolePhase::AwaitName => String::from_str("Name a role for the event."),
            RolePhase::AwaitAmount => {
                let mut p = String::from_str("How many ");
                p.append(self.pending_name.as_str());
                p.append(" will you need?");
                p
            },
            _ => String::from_str("Do you want to create another role?"),
        }
    }

    /// Consumes one reply and moves the conversation along:
    /// - a name reply containing the negative token finishes the
    ///   sequence, any other name reply is held and its capacity asked;
    /// - a capacity reply that parses appends a role and asks for
    ///   another, one that does not parse aborts the collection;
    /// - a negative "another role?" reply finishes the sequence, any
    ///   other starts the next name prompt.
    pub fn on_reply(&mut self, reply: &str)
        requires
            old(self).spec_active(),
        ensures
            old(self).spec_phase() == RolePhase::AwaitName ==> {
                if contains_negative(reply@) {
                    &&& final(self).spec_phase() == RolePhase::Finished
                    &&& final(self).spec_collected() == old(self).spec_collected()
                } else {
                    &&& final(self).spec_phase() == RolePhase::AwaitAmount
                    &&& final(self).spec_pending() == reply@
                    &&& final(self).spec_collected() == old(self).spec_collected()
                }
            },
            old(self).spec_phase() == RolePhase::AwaitAmount ==> {
                match spec_parse_u32(reply@) {
                    Some(n) => {
                        &&& final(self).spec_phase() == RolePhase::AwaitAnother
                        &&& final(self).spec_collected().len() == old(self).spec_collected().len()
                            + 1
                        &&& final(self).spec_collected().drop_last() == old(self).spec_collected()
                        &&& final(self).spec_collected().last().name@ == old(self).spec_pending()
                        &&& final(self).spec_collected().last().amount == n
                    },
                    None => {
                        &&& final(self).spec_phase() == RolePhase::Aborted
                        &&& final(self).spec_collected() == old(self).spec_collected()
                    },
                }
            },
            old(self).spec_phase() == RolePhase::AwaitAnother ==> {
                &&& final(self).spec_phase() == (if contains_negative(reply@) {
                    RolePhase::Finished
                } else {
                    RolePhase::AwaitName
                })
                &&& final(self).spec_collected() == old(self).spec_collected()
            },
    {
        match self.phase {
            RolePhase::AwaitName => {
                if has_negative(reply) {
                    self.phase = RolePhase::Finished;
                } else {
                    self.pending_name = String::from_str(reply);
                    self.phase = RolePhase::AwaitAmount;
                }
            },
            RolePhase::AwaitAmount => {
                match parse_u32(reply) {
                    Some(n) => {
                        let ghost before = self.collected@;
                        let name = self.pending_name.clone();
                        self.collected.push(Role { name, amount: n });
                        self.phase = RolePhase::AwaitAnother;
                        proof {
                            assert(self.collected@.drop_last() =~= before);
                        }
                    },
                    None => {
                        self.phase = RolePhase::Aborted;
                    },
                }
            },
            _ => {
                if has_negative(reply) {
                    self.phase = RolePhase::Finished;
                } else {
                    self.phase = RolePhase::AwaitName;
                }
            },
        }
    }

    /// Hands out the collected roles once the conversation has ended.
    pub fn into_roles(self) -> (r: Vec<Role>)
        requires
            !self.spec_active(),
        ensures
            r@ == self.spec_collected(),
    {
        self.collected
    }
}

} // verus!
