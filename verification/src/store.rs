//! The shared store of events: insert, list by scope, find by
//! identifier. Mutation always re-resolves the live event by identifier
//! and goes through the event's own methods, so the event invariant holds
//! for every stored event at all times.

use vstd::prelude::*;

use crate::errors::CoreError;
use crate::event::{spec_contains_user, Event};
use crate::seq_util::{find_first, find_index, lemma_find_first, lemma_find_first_none};

verus! {

/// Matches an event by identifier.
pub open spec fn with_id(id: u128) -> spec_fn(Event) -> bool {
    |e: Event| e.spec_id() == id
}

/// The process-lifetime collection of events.
pub struct EventStore {
    events: Vec<Event>,
}

impl EventStore {
    /// The stored events, in insertion order.
    pub closed spec fn spec_events(self) -> Seq<Event> {
        self.events@
    }

    /// Every stored event satisfies its invariant.
    pub open spec fn inv(self) -> bool {
        forall|i: int|
            0 <= i < self.spec_events().len() ==> (#[trigger] self.spec_events()[i]).inv()
    }

    /// The first stored event with this identifier, if any.
    pub open spec fn spec_find(self, id: u128) -> Option<Event> {
        find_first(self.spec_events(), with_id(id))
    }

    /// An empty store.
    pub fn new() -> (s: Self)
        ensures
            s.inv(),
            s.spec_events() == Seq::<Event>::empty(),
    {
        let s = EventStore { events: Vec::new() };
        proof {
            assert(s.spec_events() =~= Seq::<Event>::empty());
        }
        s
    }

    /// How many events are stored.
    pub fn len(&self) -> (n: usize)
        ensures
            n == self.spec_events().len(),
    {
        self.events.len()
    }

    /// Borrows the event at a position.
    pub fn get(&self, i: usize) -> (r: &Event)
        requires
            i < self.spec_events().len(),
        ensures
            *r == self.spec_events()[i as int],
    {
        &self.events[i]
    }

    /// Appends an event.
    pub fn insert(&mut self, ev: Event)
        requires
            old(self).inv(),
            ev.inv(),
        ensures
            final(self).inv(),
            final(self).spec_events() == old(self).spec_events().push(ev),
    {
        self.events.push(ev);
    }

    /// Finds the position of the first event with this identifier.
    fn find_index(&self, id: u128) -> (r: Option<usize>)
        ensures
            match r {
                Some(i) => {
                    &&& i < self.spec_events().len()
                    &&& self.spec_find(id) == Some(self.spec_events()[i as int])
                    &&& find_index(self.spec_events(), with_id(id)) == i
                    &&& self.spec_events()[i as int].spec_id() == id
                },
                None => self.spec_find(id) is None,
            },
    {
        let ghost events = self.spec_events();
        let n = self.events.len();
        let mut i: usize = 0;
        while i < n
            invariant
                events == self.spec_events(),
                n == events.len(),
                i <= n,
                forall|j: int| 0 <= j < i ==> !(with_id(id)(#[trigger] events[j])),
            decreases n - i,
        {
            if self.events[i].event_id() == id {
                proof {
                    assert(with_id(id)(events[i as int]));
                    lemma_find_first(events, with_id(id));
                }
                return Some(i);
            }
            i += 1;
        }
        proof {
            lemma_find_first_none(events, with_id(id));
        }
        None
    }

    /// Whether the event with this identifier has a signup for this
    /// user.
    pub fn contains_participant(&self, id: u128, user: u64) -> (r: Result<bool, CoreError>)
        ensures
            match self.spec_find(id) {
                None => r == Err::<bool, CoreError>(CoreError::EventNotFound),
                Some(e) => r == Ok::<bool, CoreError>(
                    spec_contains_user(e.spec_participants(), user),
                ),
            },
    {
        match self.find_index(id) {
            Some(i) => Ok(self.events[i].contains_participant(user)),
            None => Err(CoreError::EventNotFound),
        }
    }

    /// Re-resolves the event by identifier and validates and appends the
    /// signup through `Event::add_participant`.
    pub fn add_participant(&mut self, id: u128, user: u64, role: String, flavor: String) -> (r:
        Result<(), CoreError>)
        requires
            old(self).inv(),
            match old(self).spec_find(id) {
                Some(e) => !spec_contains_user(e.spec_participants(), user),
                None => true,
            },
        ensures
            final(self).inv(),
            match old(self).spec_find(id) {
                None => r == Err::<(), CoreError>(CoreError::EventNotFound) && final(self).spec_events() == old(self).spec_events(),
                Some(e) => {
                    let i = find_index(old(self).spec_events(), with_id(id));
                    &&& final(self).spec_events().len() == old(self).spec_events().len()
                    &&& forall|j: int|
                        0 <= j < old(self).spec_events().len() && j != i
                            ==> final(self).spec_events()[j] == old(self).spec_events()[j]
                    &&& final(self).spec_events()[i].same_config(e)
                    &&& final(self).spec_events()[i].spec_messages() == e.spec_messages()
                    &&& match e.add_check(user, role@, flavor@) {
                        Ok(p) => r is Ok && final(self).spec_events()[i].spec_participants()
                            == e.spec_participants().push(p),
                        Err(err) => r == Err::<(), CoreError>(err)
                            && final(self).spec_events()[i].spec_participants()
                            == e.spec_participants(),
                    }
                },
            },
    {
        let ghost events = self.spec_events();
        let i = match self.find_index(id) {
            Some(i) => i,
            None => {
                return Err(CoreError::EventNotFound);
            },
        };
        let mut ev = self.events.remove(i);
        let r = ev.add_participant(user, role, flavor);
        self.events.insert(i, ev);
        proof {
            events.remove_ensures(i as int);
            events.remove(i as int).insert_ensures(i as int, ev);
            assert(forall|j: int|
                0 <= j < events.len() && j != i ==> self.spec_events()[j] == events[j]);
            assert(self.spec_events()[i as int] == ev);
            assert(self.spec_events().len() == events.len());
        }
        r
    }

    /// Re-resolves the event by identifier and removes the user's signup
    /// through `Event::remove_participant`.
    pub fn remove_participant(&mut self, id: u128, user: u64) -> (r: Result<(), CoreError>)
        requires
            old(self).inv(),
        ensures
            final(self).inv(),
            match old(self).spec_find(id) {
                None => r == Err::<(), CoreError>(CoreError::EventNotFound) && final(self).spec_events() == old(self).spec_events(),
                Some(e) => {
                    let i = find_index(old(self).spec_events(), with_id(id));
                    &&& final(self).spec_events().len() == old(self).spec_events().len()
                    &&& forall|j: int|
                        0 <= j < old(self).spec_events().len() && j != i
                            ==> final(self).spec_events()[j] == old(self).spec_events()[j]
                    &&& final(self).spec_events()[i].same_config(e)
                    &&& final(self).spec_events()[i].spec_messages() == e.spec_messages()
                    &&& if spec_contains_user(e.spec_participants(), user) {
                        r is Ok && final(self).spec_events()[i].spec_participants()
                            == e.spec_participants().remove(
                            find_index(
                                e.spec_participants(),
                                crate::event::is_user(user),
                            ),
                        )
                    } else {
                        r == Err::<(), CoreError>(CoreError::ParticipantNotFound)
                            && final(self).spec_events()[i].spec_participants()
                            == e.spec_participants()
                    }
                },
            },
    {
        let ghost events = self.spec_events();
        let i = match self.find_index(id) {
            Some(i) => i,
            None => {
                return Err(CoreError::EventNotFound);
            },
        };
        let mut ev = self.events.remove(i);
        let r = ev.remove_participant(user);
        self.events.insert(i, ev);
        proof {
            events.remove_ensures(i as int);
            events.remove(i as int).insert_ensures(i as int, ev);
            assert(forall|j: int|
                0 <= j < events.len() && j != i ==> self.spec_events()[j] == events[j]);
            assert(self.spec_events()[i as int] == ev);
            assert(self.spec_events().len() == events.len());
        }
        r
    }

    /// Re-resolves the event by identifier and records a display-message
    /// handle on it.
    pub fn add_event_message(&mut self, id: u128, handle: u64) -> (r: Result<(), CoreError>)
        requires
            old(self).inv(),
        ensures
            final(self).inv(),
            match old(self).spec_find(id) {
                None => r == Err::<(), CoreError>(CoreError::EventNotFound) && final(self).spec_events() == old(self).spec_events(),
                Some(e) => {
                    let i = find_index(old(self).spec_events(), with_id(id));
                    &&& r is Ok
                    &&& final(self).spec_events().len() == old(self).spec_events().len()
                    &&& forall|j: int|
                        0 <= j < old(self).spec_events().len() && j != i
                            ==> final(self).spec_events()[j] == old(self).spec_events()[j]
                    &&& final(self).spec_events()[i].same_config(e)
                    &&& final(self).spec_events()[i].spec_participants() == e.spec_participants()
                    &&& final(self).spec_events()[i].spec_messages() == e.spec_messages().push(
                        handle,
                    )
                },
            },
    {
        let ghost events = self.spec_events();
        let i = match self.find_index(id) {
            Some(i) => i,
            None => {
                return Err(CoreError::EventNotFound);
            },
        };
        let mut ev = self.events.remove(i);
        ev.add_event_message(handle);
        self.events.insert(i, ev);
        proof {
            events.remove_ensures(i as int);
            events.remove(i as int).insert_ensures(i as int, ev);
            assert(forall|j: int|
                0 <= j < events.len() && j != i ==> self.spec_events()[j] == events[j]);
            assert(self.spec_events()[i as int] == ev);
            assert(self.spec_events().len() == events.len());
        }
        Ok(())
    }

    /// The names of the roles that still have room on the event with
    /// this identifier, for the role menu.
    pub fn role_choices(&self, id: u128) -> (r: Result<Vec<String>, CoreError>)
        ensures
            match self.spec_find(id) {
                None => r == Err::<Vec<String>, CoreError>(CoreError::EventNotFound),
                Some(e) => r is Ok && crate::event::views_of(r->Ok_0@)
                    == crate::event::possible_role_names(e.spec_roles(), e.spec_participants()),
            },
    {
        match self.find_index(id) {
            Some(i) => Ok(self.events[i].possible_roles()),
            None => Err(CoreError::EventNotFound),
        }
    }

    /// The labels of the flavors that are not full on the event with
    /// this identifier, ending with the explicit entry for declining a
    /// flavor, for the flavor menu.
    pub fn flavor_choices(&self, id: u128) -> (r: Result<Vec<String>, CoreError>)
        ensures
            match self.spec_find(id) {
                None => r == Err::<Vec<String>, CoreError>(CoreError::EventNotFound),
                Some(e) => r is Ok && crate::event::views_of(r->Ok_0@)
                    == crate::event::possible_flavor_labels(
                    e.spec_flavors(),
                    e.spec_participants(),
                ).push("None"@),
            },
    {
        match self.find_index(id) {
            Some(i) => Ok(self.events[i].possible_flavors()),
            None => Err(CoreError::EventNotFound),
        }
    }

    /// The current display text of the event with this identifier,
    /// together with every recorded display-message handle, for the
    /// fan-out update after a mutation.
    pub fn display_payload(&self, id: u128) -> (r: Result<(String, Vec<u64>), CoreError>)
        requires
            self.inv(),
        ensures
            match self.spec_find(id) {
                None => r == Err::<(String, Vec<u64>), CoreError>(CoreError::EventNotFound),
                Some(e) => {
                    &&& r is Ok
                    &&& r->Ok_0.0@ == e.spec_display()
                    &&& r->Ok_0.1@ == e.spec_messages()
                },
            },
    {
        match self.find_index(id) {
            Some(i) => {
                let text = self.events[i].build_new_message();
                let handles = self.events[i].event_messages();
                Ok((text, handles))
            },
            None => Err(CoreError::EventNotFound),
        }
    }
}

} // verus!
