//! The event entity: roles with capacities, optional flavors, the roster
//! of participants, and the capacity rules that govern joining and
//! leaving. Every mutation preserves the event invariant.

use vstd::prelude::*;

use crate::errors::CoreError;
use crate::text::{dec_digits, dec_signed, dec_string, dec_string_i64};
use crate::seq_util::{
    count_where, find_first, find_index, has_match, lemma_count_bounds, lemma_count_push,
    lemma_count_remove, lemma_find_first, lemma_find_first_none, lemma_find_first_push,
    lemma_push_parts, lemma_sum_of_prefix, lemma_sum_of_push, sum_of,
};

verus! {

/// A named, capacity-limited slot category within an event.
pub struct Role {
    pub name: String,
    pub amount: u32,
}

/// An optional sub-category a participant can additionally claim within a
/// role. A capacity of zero means the flavor is unconstrained.
pub struct RoleFlavor {
    pub flavor: String,
    pub amount: u32,
}

/// One signup: a user identity together with a snapshot of the claimed
/// role and, optionally, the claimed flavor.
pub struct Participant {
    pub id: u64,
    pub role: Role,
    pub flavor: Option<RoleFlavor>,
}

/// A plannable activity with role-based capacity and a roster of
/// participants. The roster is mutated only through the methods below,
/// which preserve `inv`.
pub struct Event {
    pub creator: u64,
    pub title: String,
    pub id: u128,
    server_id: u64,
    date: i64,
    participants: Vec<Participant>,
    needed_roles: Vec<Role>,
    needed_flavors: Vec<RoleFlavor>,
    event_messages: Vec<u64>,
}

/// Matches a role by name.
pub open spec fn role_named(name: Seq<char>) -> spec_fn(Role) -> bool {
    |r: Role| r.name@ == name
}

/// Matches a flavor by label.
pub open spec fn flavor_labeled(label: Seq<char>) -> spec_fn(RoleFlavor) -> bool {
    |f: RoleFlavor| f.flavor@ == label
}

/// Matches a participant by the name of the claimed role.
pub open spec fn in_role(name: Seq<char>) -> spec_fn(Participant) -> bool {
    |p: Participant| p.role.name@ == name
}

/// Matches a participant by the label of the claimed flavor.
pub open spec fn in_flavor(label: Seq<char>) -> spec_fn(Participant) -> bool {
    |p: Participant| p.flavor is Some && p.flavor->0.flavor@ == label
}

/// Matches a participant by user identity.
pub open spec fn is_user(user: u64) -> spec_fn(Participant) -> bool {
    |p: Participant| p.id == user
}

/// The capacity a role contributes to the event's total.
pub open spec fn role_capacity() -> spec_fn(Role) -> int {
    |r: Role| r.amount as int
}

/// The sum of all role capacities.
pub open spec fn sum_amounts(roles: Seq<Role>) -> int {
    sum_of(roles, role_capacity())
}

/// How many participants claim the role with this name.
pub open spec fn role_headcount(ps: Seq<Participant>, name: Seq<char>) -> int {
    count_where(ps, in_role(name))
}

/// How many participants claim the flavor with this label.
pub open spec fn flavor_headcount(ps: Seq<Participant>, label: Seq<char>) -> int {
    count_where(ps, in_flavor(label))
}

/// Some participant has this user identity.
pub open spec fn spec_contains_user(ps: Seq<Participant>, user: u64) -> bool {
    has_match(ps, is_user(user))
}

impl Event {
    /// The roster, in signup order.
    pub closed spec fn spec_participants(self) -> Seq<Participant> {
        self.participants@
    }

    /// The roles, in the order they were configured.
    pub closed spec fn spec_roles(self) -> Seq<Role> {
        self.needed_roles@
    }

    /// The flavors, in the order they were configured.
    pub closed spec fn spec_flavors(self) -> Seq<RoleFlavor> {
        self.needed_flavors@
    }

    /// The recorded display-message handles, in recording order.
    pub closed spec fn spec_messages(self) -> Seq<u64> {
        self.event_messages@
    }

    /// The creator's user identity.
    pub closed spec fn spec_creator(self) -> u64 {
        self.creator
    }

    /// The title.
    pub closed spec fn spec_title(self) -> Seq<char> {
        self.title@
    }

    /// The identifier.
    pub closed spec fn spec_id(self) -> u128 {
        self.id
    }

    /// The owning scope.
    pub closed spec fn spec_server_id(self) -> u64 {
        self.server_id
    }

    /// The scheduled time, as seconds since the Unix epoch.
    pub closed spec fn spec_date(self) -> i64 {
        self.date
    }

    /// The event invariant: role names and flavor labels are unique, the
    /// total capacity fits the count's type, every participant's snapshot
    /// is exactly the configured role (and flavor, when claimed), no role
    /// or constrained flavor is over capacity, the roster never exceeds
    /// the total capacity, and each user appears at most once.
    pub open spec fn inv(self) -> bool {
        let roles = self.spec_roles();
        let flavors = self.spec_flavors();
        let ps = self.spec_participants();
        &&& forall|i: int, j: int|
            0 <= i < j < roles.len() ==> #[trigger] roles[i].name@ != #[trigger] roles[j].name@
        &&& forall|i: int, j: int|
            0 <= i < j < flavors.len() ==> #[trigger] flavors[i].flavor@
                != #[trigger] flavors[j].flavor@
        &&& sum_amounts(roles) <= u32::MAX
        &&& forall|k: int|
            0 <= k < ps.len() ==> find_first(roles, role_named(#[trigger] ps[k].role.name@))
                == Some(ps[k].role)
        &&& forall|k: int|
            0 <= k < ps.len() ==> (#[trigger] ps[k].flavor matches Some(f) ==> find_first(
                flavors,
                flavor_labeled(f.flavor@),
            ) == Some(f))
        &&& forall|i: int|
            0 <= i < roles.len() ==> role_headcount(ps, #[trigger] roles[i].name@)
                <= roles[i].amount
        &&& forall|i: int|
            0 <= i < flavors.len() ==> #[trigger] flavors[i].amount > 0 ==> flavor_headcount(
                ps,
                flavors[i].flavor@,
            ) <= flavors[i].amount
        &&& ps.len() <= sum_amounts(roles)
        &&& forall|i: int, j: int|
            0 <= i < j < ps.len() ==> #[trigger] ps[i].id != #[trigger] ps[j].id
    }

    /// Everything but the roster and the display messages is unchanged
    /// between `self` and `other`.
    pub open spec fn same_config(self, other: Event) -> bool {
        &&& self.spec_creator() == other.spec_creator()
        &&& self.spec_title() == other.spec_title()
        &&& self.spec_id() == other.spec_id()
        &&& self.spec_server_id() == other.spec_server_id()
        &&& self.spec_date() == other.spec_date()
        &&& self.spec_roles() == other.spec_roles()
        &&& self.spec_flavors() == other.spec_flavors()
    }

    /// What `add_participant` decides for this request, in the order the
    /// checks are made: an unknown role name, then an unknown non-empty
    /// flavor label, then a full event, a full role, and a full
    /// constrained flavor; otherwise the participant that will be
    /// appended.
    pub open spec fn add_check(self, user: u64, role: Seq<char>, flavor: Seq<char>) -> Result<
        Participant,
        CoreError,
    > {
        match find_first(self.spec_roles(), role_named(role)) {
            None => Err(CoreError::RoleNotFound),
            Some(r) => {
                let fl = find_first(self.spec_flavors(), flavor_labeled(flavor));
                if fl is None && flavor.len() > 0 {
                    Err(CoreError::FlavorNotFound)
                } else if self.spec_participants().len() == sum_amounts(self.spec_roles()) {
                    Err(CoreError::EventFull)
                } else if role_headcount(self.spec_participants(), role) >= r.amount {
                    Err(CoreError::RoleFull)
                } else if fl matches Some(f) && f.amount > 0 && flavor_headcount(
                    self.spec_participants(),
                    flavor,
                ) >= f.amount {
                    Err(CoreError::FlavorFull)
                } else {
                    Ok(Participant { id: user, role: r, flavor: fl })
                }
            },
        }
    }

    /// Creates an empty event. The identifier is freshly generated and
    /// nothing is promised of its value.
    pub fn new(creator: u64, title: String, date: i64, server_id: u64) -> (r: Event)
        ensures
            r.inv(),
            r.spec_creator() == creator,
            r.spec_title() == title@,
            r.spec_date() == date,
            r.spec_server_id() == server_id,
            r.spec_participants() == Seq::<Participant>::empty(),
            r.spec_roles() == Seq::<Role>::empty(),
            r.spec_flavors() == Seq::<RoleFlavor>::empty(),
            r.spec_messages() == Seq::<u64>::empty(),
    {
        let ev = Event {
            creator,
            title,
            id: fresh_event_id(),
            server_id,
            date,
            participants: Vec::new(),
            needed_roles: Vec::new(),
            needed_flavors: Vec::new(),
            event_messages: Vec::new(),
        };
        proof {
            assert(ev.spec_roles() =~= Seq::<Role>::empty());
            assert(ev.spec_flavors() =~= Seq::<RoleFlavor>::empty());
            assert(ev.spec_participants() =~= Seq::<Participant>::empty());
            assert(ev.spec_messages() =~= Seq::<u64>::empty());
        }
        ev
    }

    /// The sum of all role capacities.
    pub fn needed_participants(&self) -> (r: u32)
        requires
            self.inv(),
        ensures
            r == sum_amounts(self.spec_roles()),
    {
        let ghost roles = self.spec_roles();
        proof {
            assert(forall|i: int|
                0 <= i < roles.len() ==> role_capacity()(#[trigger] roles[i]) >= 0);
        }
        let n = self.needed_roles.len();
        let mut total: u32 = 0;
        let mut i: usize = 0;
        while i < n
            invariant
                self.inv(),
                roles == self.spec_roles(),
                n == roles.len(),
                i <= n,
                total == sum_of(roles.take(i as int), role_capacity()),
            decreases n - i,
        {
            proof {
                assert(forall|k: int|
                    0 <= k < roles.len() ==> role_capacity()(#[trigger] roles[k]) >= 0);
                lemma_sum_of_prefix(roles, role_capacity(), i + 1);
                assert(roles.take(i + 1).drop_last() =~= roles.take(i as int));
                assert(roles.take(i + 1).last() == roles[i as int]);
            }
            total = total + self.needed_roles[i].amount;
            i += 1;
        }
        proof {
            assert(roles.take(n as int) =~= roles);
        }
        total
    }

    /// The owning scope.
    pub fn server_id(&self) -> (r: u64)
        ensures
            r == self.spec_server_id(),
    {
        self.server_id
    }

    /// The identifier.
    pub fn event_id(&self) -> (r: u128)
        ensures
            r == self.spec_id(),
    {
        self.id
    }

    /// A copy of the title.
    pub fn title_text(&self) -> (r: String)
        ensures
            r@ == self.spec_title(),
    {
        self.title.clone()
    }

    /// Appends a role. The name must be new and the total capacity must
    /// still fit the count's type.
    pub fn add_role(&mut self, role: Role)
        requires
            old(self).inv(),
            !has_match(old(self).spec_roles(), role_named(role.name@)),
            sum_amounts(old(self).spec_roles()) + role.amount <= u32::MAX,
        ensures
            final(self).inv(),
            final(self).spec_roles() == old(self).spec_roles().push(role),
            final(self).spec_participants() == old(self).spec_participants(),
            final(self).spec_flavors() == old(self).spec_flavors(),
            final(self).spec_messages() == old(self).spec_messages(),
            final(self).spec_creator() == old(self).spec_creator(),
            final(self).spec_title() == old(self).spec_title(),
            final(self).spec_id() == old(self).spec_id(),
            final(self).spec_server_id() == old(self).spec_server_id(),
            final(self).spec_date() == old(self).spec_date(),
    {
        let ghost roles = self.spec_roles();
        let ghost ps = self.spec_participants();
        self.needed_roles.push(role);
        proof {
            let roles2 = self.spec_roles();
            assert(roles2 == roles.push(role));
            lemma_push_parts(roles, role);
            lemma_sum_of_push(roles, role_capacity(), role);
            // The fresh name collides with no existing role.
            assert(forall|i: int|
                0 <= i < roles.len() ==> !(role_named(role.name@)(#[trigger] roles[i])));
            assert(forall|i: int| 0 <= i < roles.len() ==> roles2[i] == roles[i]);
            assert(roles2[roles.len() as int] == role);
            // Existing participants' roles are still found unchanged.
            assert forall|k: int|
                0 <= k < ps.len() implies find_first(
                roles2,
                role_named(#[trigger] ps[k].role.name@),
            ) == Some(ps[k].role) by {
                lemma_find_first_push(roles, role_named(ps[k].role.name@), role);
            }
            // Nobody claims the new role yet.
            assert(!has_match(ps, in_role(role.name@))) by {
                if has_match(ps, in_role(role.name@)) {
                    let k = choose|k: int|
                        0 <= k < ps.len() && in_role(role.name@)(#[trigger] ps[k]);
                    assert(find_first(roles, role_named(ps[k].role.name@)) == Some(ps[k].role));
                    lemma_find_first(roles, role_named(role.name@));
                }
            }
            lemma_count_bounds(ps, in_role(role.name@));
            assert(role_headcount(ps, role.name@) == 0);
        }
    }

    /// Appends a flavor. The label must be new.
    pub fn add_flavor(&mut self, flavor: RoleFlavor)
        requires
            old(self).inv(),
            !has_match(old(self).spec_flavors(), flavor_labeled(flavor.flavor@)),
        ensures
            final(self).inv(),
            final(self).spec_flavors() == old(self).spec_flavors().push(flavor),
            final(self).spec_participants() == old(self).spec_participants(),
            final(self).spec_roles() == old(self).spec_roles(),
            final(self).spec_messages() == old(self).spec_messages(),
            final(self).spec_creator() == old(self).spec_creator(),
            final(self).spec_title() == old(self).spec_title(),
            final(self).spec_id() == old(self).spec_id(),
            final(self).spec_server_id() == old(self).spec_server_id(),
            final(self).spec_date() == old(self).spec_date(),
    {
        let ghost flavors = self.spec_flavors();
        let ghost ps = self.spec_participants();
        self.needed_flavors.push(flavor);
        proof {
            let flavors2 = self.spec_flavors();
            assert(flavors2 == flavors.push(flavor));
            lemma_push_parts(flavors, flavor);
            assert(forall|i: int|
                0 <= i < flavors.len() ==> !(flavor_labeled(flavor.flavor@)(
                    #[trigger] flavors[i],
                )));
            assert(forall|i: int| 0 <= i < flavors.len() ==> flavors2[i] == flavors[i]);
            assert(flavors2[flavors.len() as int] == flavor);
            // Claimed flavors are still found unchanged.
            assert forall|k: int|
                0 <= k < ps.len() && #[trigger] ps[k].flavor is Some implies find_first(
                flavors2,
                flavor_labeled(ps[k].flavor->0.flavor@),
            ) == Some(ps[k].flavor->0) by {
                lemma_find_first_push(flavors, flavor_labeled(ps[k].flavor->0.flavor@), flavor);
            }
            // Nobody claims the new flavor yet.
            assert(!has_match(ps, in_flavor(flavor.flavor@))) by {
                if has_match(ps, in_flavor(flavor.flavor@)) {
                    let k = choose|k: int|
                        0 <= k < ps.len() && in_flavor(flavor.flavor@)(#[trigger] ps[k]);
                    assert(find_first(flavors, flavor_labeled(ps[k].flavor->0.flavor@))
                        == Some(ps[k].flavor->0));
                    lemma_find_first(flavors, flavor_labeled(flavor.flavor@));
                }
            }
            lemma_count_bounds(ps, in_flavor(flavor.flavor@));
            assert(flavor_headcount(ps, flavor.flavor@) == 0);
        }
    }

    /// Records the handle of a display message that renders this event.
    pub fn add_event_message(&mut self, new_message: u64)
        requires
            old(self).inv(),
        ensures
            final(self).inv(),
            final(self).spec_messages() == old(self).spec_messages().push(new_message),
            final(self).spec_participants() == old(self).spec_participants(),
            final(self).spec_roles() == old(self).spec_roles(),
            final(self).spec_flavors() == old(self).spec_flavors(),
            final(self).same_config(*old(self)),
    {
        self.event_messages.push(new_message);
        proof {
            assert(self.spec_participants() == old(self).spec_participants());
            assert(self.spec_roles() == old(self).spec_roles());
            assert(self.spec_flavors() == old(self).spec_flavors());
        }
    }

    /// Whether some participant has this user identity.
    pub fn contains_participant(&self, user: u64) -> (r: bool)
        ensures
            r == spec_contains_user(self.spec_participants(), user),
    {
        let ghost ps = self.spec_participants();
        let n = self.participants.len();
        let mut i: usize = 0;
        while i < n
            invariant
                ps == self.spec_participants(),
                n == ps.len(),
                i <= n,
                forall|j: int| 0 <= j < i ==> !(is_user(user)(#[trigger] ps[j])),
            decreases n - i,
        {
            if self.participants[i].id == user {
                proof {
                    assert(is_user(user)(ps[i as int]));
                }
                return true;
            }
            i += 1;
        }
        false
    }

    /// Whether the role with this name is at capacity. The name must
    /// match a configured role.
    pub open spec fn spec_role_full(self, name: Seq<char>) -> bool
        recommends
            has_match(self.spec_roles(), role_named(name)),
    {
        role_headcount(self.spec_participants(), name) >= find_first(
            self.spec_roles(),
            role_named(name),
        )->0.amount
    }

    /// Whether the flavor with this label is full: it must be configured,
    /// constrained, and at capacity.
    pub open spec fn spec_flavor_full(self, label: Seq<char>) -> bool {
        match find_first(self.spec_flavors(), flavor_labeled(label)) {
            Some(f) => f.amount > 0 && flavor_headcount(self.spec_participants(), label)
                >= f.amount,
            None => false,
        }
    }

    /// Whether the role with this name is at capacity.
    pub fn is_role_full(&self, role: &String) -> (r: bool)
        requires
            has_match(self.spec_roles(), role_named(role@)),
        ensures
            r == self.spec_role_full(role@),
    {
        let i = match find_role_index(&self.needed_roles, role) {
            Some(i) => i,
            None => {
                proof {
                    assert(false);
                }
                return false;
            },
        };
        let c = count_in_role(&self.participants, role);
        c >= self.needed_roles[i].amount as usize
    }

    /// Whether the flavor with this label is full.
    pub fn is_flavor_full(&self, flavor: &String) -> (r: bool)
        ensures
            r == self.spec_flavor_full(flavor@),
    {
        let i = match find_flavor_index(&self.needed_flavors, flavor) {
            Some(i) => i,
            None => {
                return false;
            },
        };
        let cap = self.needed_flavors[i].amount;
        if cap == 0 {
            return false;
        }
        let c = count_in_flavor(&self.participants, flavor);
        c >= cap as usize
    }

    /// All role names, in configuration order.
    pub fn roles(&self) -> (r: Vec<String>)
        ensures
            views_of(r@) == role_names(self.spec_roles()),
    {
        let ghost roles = self.spec_roles();
        let n = self.needed_roles.len();
        let mut out: Vec<String> = Vec::new();
        let mut i: usize = 0;
        while i < n
            invariant
                roles == self.spec_roles(),
                n == roles.len(),
                i <= n,
                views_of(out@) == role_names(roles.take(i as int)),
            decreases n - i,
        {
            let ghost before = out@;
            out.push(self.needed_roles[i].name.clone());
            proof {
                assert(views_of(before).len() == before.len());
                assert(role_names(roles.take(i as int)).len() == i);
                assert(before.len() == i);
                assert(out@ == before.push(roles[i as int].name));
                assert(roles.take(i + 1)[i as int] == roles[i as int]);
                assert(forall|k: int| 0 <= k < i ==> roles.take(i + 1)[k] == roles.take(i as int)[k]);
                assert(out@[i as int]@ == roles[i as int].name@);
                assert forall|k: int| 0 <= k < i implies views_of(out@)[k] == role_names(
                    roles.take(i + 1),
                )[k] by {
                    assert(out@[k] == before[k]);
                    assert(views_of(before)[k] == before[k]@);
                }
                assert(views_of(out@) =~= role_names(roles.take(i + 1)));
            }
            i += 1;
        }
        proof {
            assert(roles.take(n as int) =~= roles);
        }
        out
    }

    /// All flavor labels, in configuration order.
    pub fn flavors(&self) -> (r: Vec<String>)
        ensures
            views_of(r@) == flavor_labels(self.spec_flavors()),
    {
        let ghost flavors = self.spec_flavors();
        let n = self.needed_flavors.len();
        let mut out: Vec<String> = Vec::new();
        let mut i: usize = 0;
        while i < n
            invariant
                flavors == self.spec_flavors(),
                n == flavors.len(),
                i <= n,
                views_of(out@) == flavor_labels(flavors.take(i as int)),
            decreases n - i,
        {
            let ghost before = out@;
            out.push(self.needed_flavors[i].flavor.clone());
            proof {
                assert(views_of(before).len() == before.len());
                assert(flavor_labels(flavors.take(i as int)).len() == i);
                assert(before.len() == i);
                assert(out@ == before.push(flavors[i as int].flavor));
                assert(flavors.take(i + 1)[i as int] == flavors[i as int]);
                assert(forall|k: int| 0 <= k < i ==> flavors.take(i + 1)[k] == flavors.take(i as int)[k]);
                assert(out@[i as int]@ == flavors[i as int].flavor@);
                assert forall|k: int| 0 <= k < i implies views_of(out@)[k] == flavor_labels(
                    flavors.take(i + 1),
                )[k] by {
                    assert(out@[k] == before[k]);
                    assert(views_of(before)[k] == before[k]@);
                }
                assert(views_of(out@) =~= flavor_labels(flavors.take(i + 1)));
            }
            i += 1;
        }
        proof {
            assert(flavors.take(n as int) =~= flavors);
        }
        out
    }

    /// The names of the roles that still have room.
    pub fn possible_roles(&self) -> (r: Vec<String>)
        ensures
            views_of(r@) == possible_role_names(self.spec_roles(), self.spec_participants()),
    {
        let ghost roles = self.spec_roles();
        let ghost ps = self.spec_participants();
        let n = self.needed_roles.len();
        let mut out: Vec<String> = Vec::new();
        let mut i: usize = 0;
        while i < n
            invariant
                roles == self.spec_roles(),
                ps == self.spec_participants(),
                n == roles.len(),
                i <= n,
                views_of(out@) == possible_role_names(roles.take(i as int), ps),
            decreases n - i,
        {
            proof {
                assert(roles.take(i + 1).drop_last() =~= roles.take(i as int));
                assert(roles.take(i + 1).last() == roles[i as int]);
            }
            let c = count_in_role(&self.participants, &self.needed_roles[i].name);
            if c < self.needed_roles[i].amount as usize {
                out.push(self.needed_roles[i].name.clone());
                proof {
                    assert(views_of(out@) =~= possible_role_names(roles.take(i + 1), ps));
                }
            } else {
                proof {
                    assert(views_of(out@) =~= possible_role_names(roles.take(i + 1), ps));
                }
            }
            i += 1;
        }
        proof {
            assert(roles.take(n as int) =~= roles);
        }
        out
    }

    /// The labels of the flavors that are not full, with an explicit
    /// closing entry for declining a flavor.
    pub fn possible_flavors(&self) -> (r: Vec<String>)
        ensures
            views_of(r@) == possible_flavor_labels(
                self.spec_flavors(),
                self.spec_participants(),
            ).push("None"@),
    {
        let ghost flavors = self.spec_flavors();
        let ghost ps = self.spec_participants();
        let n = self.needed_flavors.len();
        let mut out: Vec<String> = Vec::new();
        let mut i: usize = 0;
        while i < n
            invariant
                flavors == self.spec_flavors(),
                ps == self.spec_participants(),
                n == flavors.len(),
                i <= n,
                views_of(out@) == possible_flavor_labels(flavors.take(i as int), ps),
            decreases n - i,
        {
            proof {
                assert(flavors.take(i + 1).drop_last() =~= flavors.take(i as int));
                assert(flavors.take(i + 1).last() == flavors[i as int]);
            }
            let cap = self.needed_flavors[i].amount;
            let keep = if cap == 0 {
                true
            } else {
                let c = count_in_flavor(&self.participants, &self.needed_flavors[i].flavor);
                c < cap as usize
            };
            if keep {
                out.push(self.needed_flavors[i].flavor.clone());
            }
            proof {
                assert(views_of(out@) =~= possible_flavor_labels(flavors.take(i + 1), ps));
            }
            i += 1;
        }
        proof {
            assert(flavors.take(n as int) =~= flavors);
        }
        out.push(String::from_str("None"));
        proof {
            assert(views_of(out@) =~= possible_flavor_labels(flavors, ps).push("None"@));
        }
        out
    }

    /// The recorded display-message handles.
    pub fn event_messages(&self) -> (r: Vec<u64>)
        ensures
            r@ == self.spec_messages(),
    {
        let n = self.event_messages.len();
        let mut out: Vec<u64> = Vec::new();
        let mut i: usize = 0;
        while i < n
            invariant
                n == self.spec_messages().len(),
                i <= n,
                out@ == self.spec_messages().take(i as int),
            decreases n - i,
        {
            out.push(self.event_messages[i]);
            proof {
                assert(out@ =~= self.spec_messages().take(i + 1));
            }
            i += 1;
        }
        proof {
            assert(self.spec_messages().take(n as int) =~= self.spec_messages());
        }
        out
    }

    /// The display text, as a function of the current state alone:
    /// title, identifier, date and totals, then one block per role.
    pub open spec fn spec_display(self) -> Seq<char> {
        self.spec_title() + " ["@ + dec_digits(self.spec_id() as int) + "]\nDate: <t:"@
            + dec_signed(self.spec_date() as int) + ">\n("@ + dec_digits(
            self.spec_participants().len() as int,
        ) + " / "@ + dec_digits(sum_amounts(self.spec_roles())) + ")\nNeeded Roles:\n"@
            + role_blocks(self.spec_roles(), self.spec_participants())
    }

    /// Renders the display text. The result is determined by the current
    /// state: without a mutation in between, every call returns the same
    /// text.
    pub fn build_new_message(&self) -> (r: String)
        requires
            self.inv(),
        ensures
            r@ == self.spec_display(),
    {
        let ghost roles = self.spec_roles();
        let ghost ps = self.spec_participants();
        let mut out = self.title.clone();
        out.append(" [");
        let ids = dec_string(self.id);
        out.append(ids.as_str());
        out.append("]\nDate: <t:");
        let ds = dec_string_i64(self.date);
        out.append(ds.as_str());
        out.append(">\n(");
        let cur = dec_string(self.participants.len() as u128);
        out.append(cur.as_str());
        out.append(" / ");
        let total = self.needed_participants();
        let ts = dec_string(total as u128);
        out.append(ts.as_str());
        out.append(")\nNeeded Roles:\n");
        let ghost header = out@;
        proof {
            assert(out@ =~= header + role_blocks(roles.take(0), ps));
        }
        let n = self.needed_roles.len();
        let mut i: usize = 0;
        while i < n
            invariant
                self.inv(),
                roles == self.spec_roles(),
                ps == self.spec_participants(),
                n == roles.len(),
                i <= n,
                out@ == header + role_blocks(roles.take(i as int), ps),
            decreases n - i,
        {
            out.append(self.needed_roles[i].name.as_str());
            out.append(": ");
            let c = count_in_role(&self.participants, &self.needed_roles[i].name);
            let cs = dec_string(c as u128);
            out.append(cs.as_str());
            out.append("/");
            let caps = dec_string(self.needed_roles[i].amount as u128);
            out.append(caps.as_str());
            out.append("\n");
            let ghost name = roles[i as int].name@;
            let ghost linestart = out@;
            proof {
                assert(out@ =~= linestart + participant_lines(ps.take(0), name));
            }
            let m = self.participants.len();
            let mut k: usize = 0;
            while k < m
                invariant
                    ps == self.spec_participants(),
                    roles == self.spec_roles(),
                    n == roles.len(),
                    i < n,
                    name == roles[i as int].name@,
                    m == ps.len(),
                    k <= m,
                    out@ == linestart + participant_lines(ps.take(k as int), name),
                decreases m - k,
            {
                proof {
                    assert(ps.take(k + 1).drop_last() =~= ps.take(k as int));
                    assert(ps.take(k + 1).last() == ps[k as int]);
                }
                if self.participants[k].role.name == self.needed_roles[i].name {
                    out.append("- ");
                    match &self.participants[k].flavor {
                        Some(f) => {
                            out.append(f.flavor.as_str());
                            out.append(" ");
                        },
                        None => {},
                    }
                    let us = dec_string(self.participants[k].id as u128);
                    out.append(us.as_str());
                    out.append("\n");
                }
                proof {
                    assert(out@ =~= linestart + participant_lines(ps.take(k + 1), name));
                }
                k += 1;
            }
            proof {
                assert(ps.take(m as int) =~= ps);
                assert(roles.take(i + 1).drop_last() =~= roles.take(i as int));
                assert(roles.take(i + 1).last() == roles[i as int]);
                assert(out@ =~= header + role_blocks(roles.take(i + 1), ps));
            }
            i += 1;
        }
        proof {
            assert(roles.take(n as int) =~= roles);
            assert(out@ =~= self.spec_display());
        }
        out
    }

    /// Validates and appends a signup. The request is rejected with the
    /// first applicable failure from `add_check`, in the documented
    /// order; otherwise the participant is appended in one step, with no
    /// partial state in between.
    pub fn add_participant(&mut self, user: u64, role: String, flavor: String) -> (r: Result<
        (),
        CoreError,
    >)
        requires
            old(self).inv(),
            !spec_contains_user(old(self).spec_participants(), user),
        ensures
            final(self).inv(),
            final(self).same_config(*old(self)),
            final(self).spec_messages() == old(self).spec_messages(),
            match old(self).add_check(user, role@, flavor@) {
                Ok(p) => r is Ok && final(self).spec_participants() == old(
                    self,
                ).spec_participants().push(p),
                Err(e) => r == Err::<(), CoreError>(e) && final(self).spec_participants() == old(
                    self,
                ).spec_participants(),
            },
    {
        let ghost roles = self.spec_roles();
        let ghost flavors = self.spec_flavors();
        let ghost ps = self.spec_participants();
        let ri = match find_role_index(&self.needed_roles, &role) {
            Some(i) => i,
            None => {
                return Err(CoreError::RoleNotFound);
            },
        };
        let fi: Option<usize> = match find_flavor_index(&self.needed_flavors, &flavor) {
            Some(i) => Some(i),
            None => {
                if !flavor.as_str().is_empty() {
                    return Err(CoreError::FlavorNotFound);
                }
                None
            },
        };
        let total = self.needed_participants();
        if self.participants.len() == total as usize {
            return Err(CoreError::EventFull);
        }
        let cap = self.needed_roles[ri].amount;
        let rcount = count_in_role(&self.participants, &role);
        if rcount >= cap as usize {
            return Err(CoreError::RoleFull);
        }
        if let Some(i) = fi {
            let fcap = self.needed_flavors[i].amount;
            if fcap > 0 {
                let fcount = count_in_flavor(&self.participants, &flavor);
                if fcount >= fcap as usize {
                    return Err(CoreError::FlavorFull);
                }
            }
        }
        let snapshot_role = Role {
            name: self.needed_roles[ri].name.clone(),
            amount: self.needed_roles[ri].amount,
        };
        let snapshot_flavor = match fi {
            Some(i) => Some(
                RoleFlavor {
                    flavor: self.needed_flavors[i].flavor.clone(),
                    amount: self.needed_flavors[i].amount,
                },
            ),
            None => None,
        };
        let p = Participant { id: user, role: snapshot_role, flavor: snapshot_flavor };
        proof {
            assert(p.role == roles[ri as int]);
            assert(old(self).add_check(user, role@, flavor@) == Ok::<Participant, CoreError>(p));
        }
        self.participants.push(p);
        proof {
            let ps2 = self.spec_participants();
            assert(ps2 == ps.push(p));
            assert(forall|k: int| 0 <= k < ps.len() ==> ps2[k] == ps[k]);
            assert(ps2[ps.len() as int] == p);
            // Per-role headcounts change only for the claimed role, which
            // had room.
            assert forall|i: int|
                0 <= i < roles.len() implies role_headcount(ps2, #[trigger] roles[i].name@)
                <= roles[i].amount by {
                lemma_count_push(ps, in_role(roles[i].name@), p);
                if roles[i].name@ == role@ {
                    assert(forall|j: int| 0 <= j < roles.len() && j != ri ==> roles[j].name@ != role@);
                    assert(i == ri);
                } else {
                    assert(!(in_role(roles[i].name@)(p)));
                }
            }
            // Per-flavor headcounts change only for the claimed flavor,
            // which had room or is unconstrained.
            assert forall|i: int|
                0 <= i < flavors.len() && #[trigger] flavors[i].amount > 0 implies flavor_headcount(
                ps2,
                flavors[i].flavor@,
            ) <= flavors[i].amount by {
                lemma_count_push(ps, in_flavor(flavors[i].flavor@), p);
                if p.flavor is Some && flavors[i].flavor@ == flavor@ {
                    assert(forall|j: int, k: int|
                        0 <= j < k < flavors.len() ==> #[trigger] flavors[j].flavor@
                            != #[trigger] flavors[k].flavor@);
                } else {
                    assert(!(in_flavor(flavors[i].flavor@)(p)));
                }
            }
            // The new user identity was not on the roster.
            assert(forall|k: int| 0 <= k < ps.len() ==> !(is_user(user)(#[trigger] ps[k])));
            assert(forall|i: int, j: int|
                0 <= i < j < ps2.len() ==> #[trigger] ps2[i].id != #[trigger] ps2[j].id);
        }
        Ok(())
    }

    /// Removes the signup of this user, if any; exactly one entry leaves
    /// the roster.
    pub fn remove_participant(&mut self, user: u64) -> (r: Result<(), CoreError>)
        requires
            old(self).inv(),
        ensures
            final(self).inv(),
            final(self).same_config(*old(self)),
            final(self).spec_messages() == old(self).spec_messages(),
            ({
                let ps = old(self).spec_participants();
                if spec_contains_user(ps, user) {
                    r is Ok && final(self).spec_participants() == ps.remove(
                        find_index(ps, is_user(user)),
                    )
                } else {
                    r == Err::<(), CoreError>(CoreError::ParticipantNotFound)
                        && final(self).spec_participants() == ps
                }
            }),
    {
        let ghost ps = self.spec_participants();
        let i = match find_user_index(&self.participants, user) {
            Some(i) => i,
            None => {
                return Err(CoreError::ParticipantNotFound);
            },
        };
        self.participants.remove(i);
        proof {
            let roles = self.spec_roles();
            let flavors = self.spec_flavors();
            let ps2 = self.spec_participants();
            assert(ps2 == ps.remove(i as int));
            ps.remove_ensures(i as int);
            // Snapshots carry over from the old roster.
            assert forall|k: int|
                0 <= k < ps2.len() implies find_first(
                roles,
                role_named(#[trigger] ps2[k].role.name@),
            ) == Some(ps2[k].role) && (ps2[k].flavor matches Some(f) ==> find_first(
                flavors,
                flavor_labeled(f.flavor@),
            ) == Some(f)) by {
                if k < i {
                    assert(ps2[k] == ps[k]);
                } else {
                    assert(ps2[k] == ps[k + 1]);
                }
            }
            // Headcounts never grow when an entry leaves.
            assert forall|j: int|
                0 <= j < roles.len() implies role_headcount(ps2, #[trigger] roles[j].name@)
                <= roles[j].amount by {
                lemma_count_remove(ps, in_role(roles[j].name@), i as int);
            }
            assert forall|j: int|
                0 <= j < flavors.len() && #[trigger] flavors[j].amount > 0 implies flavor_headcount(
                ps2,
                flavors[j].flavor@,
            ) <= flavors[j].amount by {
                lemma_count_remove(ps, in_flavor(flavors[j].flavor@), i as int);
            }
            // Distinct entries stay distinct.
            assert forall|a: int, b: int|
                0 <= a < b < ps2.len() implies #[trigger] ps2[a].id != #[trigger] ps2[b].id by {
                let a0: int = if a < i { a } else { a + 1 };
                let b0: int = if b < i { b } else { b + 1 };
                assert(ps2[a] == ps[a0]);
                assert(ps2[b] == ps[b0]);
            }
        }
        Ok(())
    }
}

/// The names of the roles that still have room, in configuration order.
pub open spec fn possible_role_names(roles: Seq<Role>, ps: Seq<Participant>) -> Seq<Seq<char>>
    decreases roles.len(),
{
    if roles.len() == 0 {
        Seq::empty()
    } else {
        let rest = possible_role_names(roles.drop_last(), ps);
        if role_headcount(ps, roles.last().name@) < roles.last().amount {
            rest.push(roles.last().name@)
        } else {
            rest
        }
    }
}

/// The labels of the flavors that are not full, in configuration order.
/// An unconstrained flavor (capacity zero) is never full.
pub open spec fn possible_flavor_labels(flavors: Seq<RoleFlavor>, ps: Seq<Participant>) -> Seq<
    Seq<char>,
>
    decreases flavors.len(),
{
    if flavors.len() == 0 {
        Seq::empty()
    } else {
        let rest = possible_flavor_labels(flavors.drop_last(), ps);
        let f = flavors.last();
        if f.amount == 0 || flavor_headcount(ps, f.flavor@) < f.amount {
            rest.push(f.flavor@)
        } else {
            rest
        }
    }
}

/// The views of a sequence of strings.
pub open spec fn views_of(ss: Seq<String>) -> Seq<Seq<char>> {
    ss.map_values(|s: String| s@)
}

/// The names of a sequence of roles.
pub open spec fn role_names(roles: Seq<Role>) -> Seq<Seq<char>> {
    roles.map_values(|rl: Role| rl.name@)
}

/// The labels of a sequence of flavors.
pub open spec fn flavor_labels(flavors: Seq<RoleFlavor>) -> Seq<Seq<char>> {
    flavors.map_values(|f: RoleFlavor| f.flavor@)
}

/// One roster line: the claimed flavor's label when present, then the
/// user identity.
pub open spec fn participant_line(p: Participant) -> Seq<char> {
    "- "@ + (match p.flavor {
        Some(f) => f.flavor@ + " "@,
        None => Seq::<char>::empty(),
    }) + dec_digits(p.id as int) + "\n"@
}

/// The roster lines of the participants claiming this role, in signup
/// order.
pub open spec fn participant_lines(ps: Seq<Participant>, name: Seq<char>) -> Seq<char>
    decreases ps.len(),
{
    if ps.len() == 0 {
        Seq::empty()
    } else {
        participant_lines(ps.drop_last(), name) + if ps.last().role.name@ == name {
            participant_line(ps.last())
        } else {
            Seq::<char>::empty()
        }
    }
}

/// One role's display block: the current headcount over the capacity,
/// then the roster lines.
pub open spec fn role_block(role: Role, ps: Seq<Participant>) -> Seq<char> {
    role.name@ + ": "@ + dec_digits(role_headcount(ps, role.name@)) + "/"@ + dec_digits(
        role.amount as int,
    ) + "\n"@ + participant_lines(ps, role.name@)
}

/// The display blocks of all roles, in configuration order.
pub open spec fn role_blocks(roles: Seq<Role>, ps: Seq<Participant>) -> Seq<char>
    decreases roles.len(),
{
    if roles.len() == 0 {
        Seq::empty()
    } else {
        role_blocks(roles.drop_last(), ps) + role_block(roles.last(), ps)
    }
}

/// Finds the first participant with this user identity.
fn find_user_index(ps: &Vec<Participant>, user: u64) -> (r: Option<usize>)
    ensures
        match r {
            Some(i) => {
                &&& i < ps@.len()
                &&& ps@[i as int].id == user
                &&& forall|j: int| 0 <= j < i ==> !(is_user(user)(#[trigger] ps@[j]))
                &&& find_index(ps@, is_user(user)) == i
                &&& spec_contains_user(ps@, user)
            },
            None => !spec_contains_user(ps@, user),
        },
{
    let n = ps.len();
    let mut i: usize = 0;
    while i < n
        invariant
            n == ps@.len(),
            i <= n,
            forall|j: int| 0 <= j < i ==> !(is_user(user)(#[trigger] ps@[j])),
        decreases n - i,
    {
        if ps[i].id == user {
            proof {
                assert(is_user(user)(ps@[i as int]));
                lemma_find_first(ps@, is_user(user));
            }
            return Some(i);
        }
        i += 1;
    }
    None
}

/// Finds the first role with this name.
fn find_role_index(roles: &Vec<Role>, name: &String) -> (r: Option<usize>)
    ensures
        match r {
            Some(i) => {
                &&& i < roles@.len()
                &&& roles@[i as int].name@ == name@
                &&& forall|j: int| 0 <= j < i ==> !(role_named(name@)(#[trigger] roles@[j]))
                &&& find_first(roles@, role_named(name@)) == Some(roles@[i as int])
                &&& find_index(roles@, role_named(name@)) == i
            },
            None => {
                &&& !has_match(roles@, role_named(name@))
                &&& find_first(roles@, role_named(name@)) is None
            },
        },
{
    let n = roles.len();
    let mut i: usize = 0;
    while i < n
        invariant
            n == roles@.len(),
            i <= n,
            forall|j: int| 0 <= j < i ==> !(role_named(name@)(#[trigger] roles@[j])),
        decreases n - i,
    {
        if roles[i].name == *name {
            proof {
                assert(role_named(name@)(roles@[i as int]));
                lemma_find_first(roles@, role_named(name@));
            }
            return Some(i);
        }
        i += 1;
    }
    proof {
        lemma_find_first_none(roles@, role_named(name@));
    }
    None
}

/// Finds the first flavor with this label.
fn find_flavor_index(flavors: &Vec<RoleFlavor>, label: &String) -> (r: Option<usize>)
    ensures
        match r {
            Some(i) => {
                &&& i < flavors@.len()
                &&& flavors@[i as int].flavor@ == label@
                &&& forall|j: int| 0 <= j < i ==> !(flavor_labeled(label@)(#[trigger] flavors@[j]))
                &&& find_first(flavors@, flavor_labeled(label@)) == Some(flavors@[i as int])
            },
            None => {
                &&& !has_match(flavors@, flavor_labeled(label@))
                &&& find_first(flavors@, flavor_labeled(label@)) is None
            },
        },
{
    let n = flavors.len();
    let mut i: usize = 0;
    while i < n
        invariant
            n == flavors@.len(),
            i <= n,
            forall|j: int| 0 <= j < i ==> !(flavor_labeled(label@)(#[trigger] flavors@[j])),
        decreases n - i,
    {
        if flavors[i].flavor == *label {
            proof {
                assert(flavor_labeled(label@)(flavors@[i as int]));
                lemma_find_first(flavors@, flavor_labeled(label@));
            }
            return Some(i);
        }
        i += 1;
    }
    proof {
        lemma_find_first_none(flavors@, flavor_labeled(label@));
    }
    None
}

/// Counts participants claiming the role with this name.
fn count_in_role(ps: &Vec<Participant>, name: &String) -> (c: usize)
    ensures
        c == role_headcount(ps@, name@),
{
    let n = ps.len();
    let mut c: usize = 0;
    let mut i: usize = 0;
    proof {
        assert(ps@.take(0) =~= Seq::<Participant>::empty());
    }
    while i < n
        invariant
            n == ps@.len(),
            i <= n,
            c <= i,
            c == count_where(ps@.take(i as int), in_role(name@)),
        decreases n - i,
    {
        proof {
            assert(ps@.take(i + 1).drop_last() =~= ps@.take(i as int));
            assert(ps@.take(i + 1).last() == ps@[i as int]);
        }
        if ps[i].role.name == *name {
            c += 1;
        }
        i += 1;
    }
    proof {
        assert(ps@.take(n as int) =~= ps@);
    }
    c
}

/// Counts participants claiming the flavor with this label.
fn count_in_flavor(ps: &Vec<Participant>, label: &String) -> (c: usize)
    ensures
        c == flavor_headcount(ps@, label@),
{
    let n = ps.len();
    let mut c: usize = 0;
    let mut i: usize = 0;
    proof {
        assert(ps@.take(0) =~= Seq::<Participant>::empty());
    }
    while i < n
        invariant
            n == ps@.len(),
            i <= n,
            c <= i,
            c == count_where(ps@.take(i as int), in_flavor(label@)),
        decreases n - i,
    {
        proof {
            assert(ps@.take(i + 1).drop_last() =~= ps@.take(i as int));
            assert(ps@.take(i + 1).last() == ps@[i as int]);
        }
        let matched = match &ps[i].flavor {
            Some(f) => f.flavor == *label,
            None => false,
        };
        if matched {
            c += 1;
        }
        i += 1;
    }
    proof {
        assert(ps@.take(n as int) =~= ps@);
    }
    c
}

/// A signup is rejected as `RoleFull` exactly when the claimed role's
/// headcount has reached its capacity at call time: whenever `RoleFull`
/// comes back the headcount equals the capacity, and whenever the checks
/// before it pass while the headcount equals the capacity, `RoleFull`
/// comes back.
pub proof fn lemma_role_full_rejection(e: Event, user: u64, role: Seq<char>, flavor: Seq<char>)
    requires
        e.inv(),
    ensures
        e.add_check(user, role, flavor) == Err::<Participant, CoreError>(CoreError::RoleFull)
            ==> role_headcount(e.spec_participants(), role) == find_first(
            e.spec_roles(),
            role_named(role),
        )->0.amount,
        ({
            let fr = find_first(e.spec_roles(), role_named(role));
            let fl = find_first(e.spec_flavors(), flavor_labeled(flavor));
            (fr is Some && !(fl is None && flavor.len() > 0) && e.spec_participants().len()
                != sum_amounts(e.spec_roles()) && role_headcount(e.spec_participants(), role)
                == fr->0.amount) ==> e.add_check(user, role, flavor) == Err::<
                Participant,
                CoreError,
            >(CoreError::RoleFull)
        }),
{
    let roles = e.spec_roles();
    let ps = e.spec_participants();
    lemma_find_first(roles, role_named(role));
    if e.add_check(user, role, flavor) == Err::<Participant, CoreError>(CoreError::RoleFull) {
        let i = find_index(roles, role_named(role));
        assert(roles[i].name@ == role);
        assert(role_headcount(ps, roles[i].name@) <= roles[i].amount);
    }
}

/// A signup is rejected as `EventFull` exactly when the roster already
/// equals the sum of all role capacities, for any request whose role and
/// flavor resolve — even if the claimed role itself still has room.
pub proof fn lemma_event_full_rejection(e: Event, user: u64, role: Seq<char>, flavor: Seq<char>)
    requires
        e.inv(),
        find_first(e.spec_roles(), role_named(role)) is Some,
        !(find_first(e.spec_flavors(), flavor_labeled(flavor)) is None && flavor.len() > 0),
    ensures
        e.add_check(user, role, flavor) == Err::<Participant, CoreError>(CoreError::EventFull)
            <==> e.spec_participants().len() == sum_amounts(e.spec_roles()),
{
}

/// Leaving and immediately signing up again with the same user, role and
/// flavor restores the roster up to order: on the state after the
/// removal (`after`), the re-signup with the removed entry's role name
/// and flavor label is accepted, reconstructs exactly the removed entry,
/// and pushing it back yields the same multiset of entries the event
/// started with. When the removed entry had no flavor, the re-signup
/// hands in an empty label, so no configured flavor may carry the empty
/// label.
pub proof fn lemma_remove_add_round_trip(e: Event, after: Event, u: u64)
    requires
        e.inv(),
        spec_contains_user(e.spec_participants(), u),
        after.spec_roles() == e.spec_roles(),
        after.spec_flavors() == e.spec_flavors(),
        after.spec_participants() == e.spec_participants().remove(
            find_index(e.spec_participants(), is_user(u)),
        ),
        ({
            let ps = e.spec_participants();
            ps[find_index(ps, is_user(u))].flavor is None ==> !has_match(
                e.spec_flavors(),
                flavor_labeled(Seq::<char>::empty()),
            )
        }),
    ensures
        ({
            let ps = e.spec_participants();
            let i = find_index(ps, is_user(u));
            let p = ps[i];
            let label = if p.flavor is Some {
                p.flavor->0.flavor@
            } else {
                Seq::<char>::empty()
            };
            &&& p.id == u
            &&& after.add_check(u, p.role.name@, label) == Ok::<Participant, CoreError>(p)
            &&& after.spec_participants().push(p).to_multiset() == e.spec_participants().to_multiset()
        }),
{
    broadcast use vstd::seq_lib::group_to_multiset_ensures;
    broadcast use vstd::multiset::group_multiset_axioms;

    let roles = e.spec_roles();
    let flavors = e.spec_flavors();
    let ps = e.spec_participants();
    lemma_find_first(ps, is_user(u));
    let i = find_index(ps, is_user(u));
    let p = ps[i];
    let label = if p.flavor is Some {
        p.flavor->0.flavor@
    } else {
        Seq::<char>::empty()
    };
    let ps2 = after.spec_participants();
    assert(ps2 == ps.remove(i));
    ps.remove_ensures(i);
    // The role resolves to the stored snapshot.
    assert(find_first(roles, role_named(p.role.name@)) == Some(p.role));
    lemma_find_first(roles, role_named(p.role.name@));
    let ri = find_index(roles, role_named(p.role.name@));
    assert(roles[ri] == p.role);
    // The flavor label resolves to the stored snapshot, or to nothing
    // when no flavor was claimed.
    if p.flavor is Some {
        assert(find_first(flavors, flavor_labeled(label)) == Some(p.flavor->0));
    } else {
        lemma_find_first(flavors, flavor_labeled(label));
    }
    // The shrunken roster is strictly under every relevant bound.
    assert(role_headcount(ps, roles[ri].name@) <= roles[ri].amount);
    lemma_count_remove(ps, in_role(p.role.name@), i);
    assert(in_role(p.role.name@)(p));
    assert(role_headcount(ps2, p.role.name@) == role_headcount(ps, p.role.name@) - 1);
    if p.flavor is Some && p.flavor->0.amount > 0 {
        let f = p.flavor->0;
        lemma_find_first(flavors, flavor_labeled(label));
        let fi = find_index(flavors, flavor_labeled(label));
        assert(flavors[fi] == f);
        assert(flavor_headcount(ps, flavors[fi].flavor@) <= flavors[fi].amount);
        lemma_count_remove(ps, in_flavor(label), i);
        assert(in_flavor(label)(p));
    }
    assert(after.add_check(u, p.role.name@, label) == Ok::<Participant, CoreError>(p));
    // Removing an entry and pushing it back keeps the same multiset.
    assert(ps.to_multiset().count(p) >= 1);
    assert(ps2.to_multiset() =~= ps.to_multiset().remove(p));
    assert(ps2.push(p).to_multiset() =~= ps2.to_multiset().insert(p));
    assert(ps2.push(p).to_multiset() =~= ps.to_multiset());
}

/// Relies on `uuid::Uuid::new_v4` for a freshly generated random
/// identifier, read out with `Uuid::as_u128`. Nothing is promised of the
/// value.
#[verifier::external_body]
fn fresh_event_id() -> u128 {
    uuid::Uuid::new_v4().as_u128()
}

} // verus!
