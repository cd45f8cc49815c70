//! The decision cores of the user-facing flows: assembling a new event
//! from the role-collection dialog's outcome, listing the events of a
//! scope with their display texts, and picking the candidate events a
//! user may sign up for or off from. The surrounding program only sends,
//! reads and deletes messages.

use vstd::prelude::*;

use crate::errors::CoreError;
use crate::event::{
    role_capacity, role_named, spec_contains_user, sum_amounts, Event, Participant, Role,
    RoleFlavor,
};
use crate::seq_util::lemma_sum_of_prefix;

verus! {

/// Some role name repeats within the list.
pub open spec fn has_duplicate_names(roles: Seq<Role>) -> bool {
    exists|i: int, j: int|
        0 <= i < j < roles.len() && #[trigger] roles[i].name@ == #[trigger] roles[j].name@
}

/// The views of a sequence of identifier/text pairs.
pub open spec fn pair_views(s: Seq<(u128, String)>) -> Seq<(u128, Seq<char>)> {
    s.map_values(|p: (u128, String)| (p.0, p.1@))
}

/// The in-scope events, each as its identifier and display text, in
/// store order.
pub open spec fn listing(events: Seq<Event>, server_id: u64) -> Seq<(u128, Seq<char>)>
    decreases events.len(),
{
    if events.len() == 0 {
        Seq::empty()
    } else {
        let rest = listing(events.drop_last(), server_id);
        let e = events.last();
        if e.spec_server_id() == server_id {
            rest.push((e.spec_id(), e.spec_display()))
        } else {
            rest
        }
    }
}

/// The events a user could sign up for: in scope and not yet joined,
/// each as its identifier and title, in store order.
pub open spec fn signup_choices(events: Seq<Event>, server_id: u64, user: u64) -> Seq<
    (u128, Seq<char>),
>
    decreases events.len(),
{
    if events.len() == 0 {
        Seq::empty()
    } else {
        let rest = signup_choices(events.drop_last(), server_id, user);
        let e = events.last();
        if e.spec_server_id() == server_id && !spec_contains_user(e.spec_participants(), user) {
            rest.push((e.spec_id(), e.spec_title()))
        } else {
            rest
        }
    }
}

/// The events a user could sign off from: in scope and joined, each as
/// its identifier and title, in store order.
pub open spec fn signoff_choices(events: Seq<Event>, server_id: u64, user: u64) -> Seq<
    (u128, Seq<char>),
>
    decreases events.len(),
{
    if events.len() == 0 {
        Seq::empty()
    } else {
        let rest = signoff_choices(events.drop_last(), server_id, user);
        let e = events.last();
        if e.spec_server_id() == server_id && spec_contains_user(e.spec_participants(), user) {
            rest.push((e.spec_id(), e.spec_title()))
        } else {
            rest
        }
    }
}

/// Assembles a new event from the outcome of the role-collection
/// dialog. Creation aborts, leaving nothing behind, when the dialog
/// yielded no role at all, when a role name repeats, or when the total
/// capacity does not fit the count's type.
pub fn create_event(creator: u64, server_id: u64, title: String, date: i64, roles: Vec<Role>) -> (r:
    Result<Event, CoreError>)
    ensures
        r is Err <==> (roles@.len() == 0 || has_duplicate_names(roles@) || sum_amounts(roles@)
            > u32::MAX),
        r is Err ==> r->Err_0 == CoreError::DialogAborted,
        r is Ok ==> {
            let ev = r->Ok_0;
            &&& ev.inv()
            &&& ev.spec_creator() == creator
            &&& ev.spec_server_id() == server_id
            &&& ev.spec_title() == title@
            &&& ev.spec_date() == date
            &&& ev.spec_roles() == roles@
            &&& ev.spec_flavors() == Seq::<RoleFlavor>::empty()
            &&& ev.spec_participants() == Seq::<Participant>::empty()
            &&& ev.spec_messages() == Seq::<u64>::empty()
        },
{
    let n = roles.len();
    if n == 0 {
        return Err(CoreError::DialogAborted);
    }
    proof {
        assert(forall|k: int|
            0 <= k < roles@.len() ==> role_capacity()(#[trigger] roles@[k]) >= 0);
        assert(sum_amounts(roles@.take(0)) == 0) by {
            assert(roles@.take(0) =~= Seq::<Role>::empty());
        }
    }
    // One pass over the list checks for repeated names and keeps a
    // running total of the capacities.
    let mut total: u64 = 0;
    let mut i: usize = 0;
    while i < n
        invariant
            n == roles@.len(),
            i <= n,
            forall|a: int, b: int|
                0 <= a < b < i ==> #[trigger] roles@[a].name@ != #[trigger] roles@[b].name@,
            total == sum_amounts(roles@.take(i as int)),
            total <= u32::MAX,
        decreases n - i,
    {
        let mut j: usize = 0;
        while j < i
            invariant
                n == roles@.len(),
                i < n,
                j <= i,
                forall|b: int| 0 <= b < j ==> #[trigger] roles@[b].name@ != roles@[i as int].name@,
            decreases i - j,
        {
            if roles[j].name == roles[i].name {
                proof {
                    assert(roles@[j as int].name@ == roles@[i as int].name@);
                }
                return Err(CoreError::DialogAborted);
            }
            j += 1;
        }
        proof {
            assert(forall|k: int|
                0 <= k < roles@.len() ==> role_capacity()(#[trigger] roles@[k]) >= 0);
            assert(roles@.take(i + 1).drop_last() =~= roles@.take(i as int));
            assert(roles@.take(i + 1).last() == roles@[i as int]);
        }
        total = total + roles[i].amount as u64;
        i += 1;
        if total > u32::MAX as u64 {
            proof {
                lemma_sum_of_prefix(roles@, role_capacity(), i as int);
            }
            return Err(CoreError::DialogAborted);
        }
    }
    proof {
        assert(roles@.take(n as int) =~= roles@);
    }
    let mut ev = Event::new(creator, title, date, server_id);
    let mut k: usize = 0;
    while k < n
        invariant
            n == roles@.len(),
            k <= n,
            forall|a: int, b: int|
                0 <= a < b < n ==> #[trigger] roles@[a].name@ != #[trigger] roles@[b].name@,
            sum_amounts(roles@) <= u32::MAX,
            ev.inv(),
            ev.spec_creator() == creator,
            ev.spec_server_id() == server_id,
            ev.spec_title() == title@,
            ev.spec_date() == date,
            ev.spec_roles() == roles@.take(k as int),
            ev.spec_flavors() == Seq::<RoleFlavor>::empty(),
            ev.spec_participants() == Seq::<Participant>::empty(),
            ev.spec_messages() == Seq::<u64>::empty(),
        decreases n - k,
    {
        proof {
            assert(forall|c: int|
                0 <= c < roles@.len() ==> role_capacity()(#[trigger] roles@[c]) >= 0);
            assert(roles@.take(k + 1).drop_last() =~= roles@.take(k as int));
            assert(roles@.take(k + 1).last() == roles@[k as int]);
            lemma_sum_of_prefix(roles@, role_capacity(), k + 1);
            assert(forall|a: int|
                0 <= a < k ==> !(role_named(roles@[k as int].name@)(
                    #[trigger] roles@.take(k as int)[a],
                )));
        }
        let role = Role { name: roles[k].name.clone(), amount: roles[k].amount };
        proof {
            assert(role == roles@[k as int]);
        }
        ev.add_role(role);
        proof {
            assert(ev.spec_roles() =~= roles@.take(k + 1));
        }
        k += 1;
    }
    proof {
        assert(roles@.take(n as int) =~= roles@);
    }
    Ok(ev)
}

/// Renders every event of the scope for a fresh listing: identifier and
/// display text, in store order. The runner sends one message per entry
/// and records each new handle on its event.
pub fn list_events(store: &crate::store::EventStore, server_id: u64) -> (r: Vec<(u128, String)>)
    requires
        store.inv(),
    ensures
        pair_views(r@) == listing(store.spec_events(), server_id),
{
    let ghost events = store.spec_events();
    proof {
        assert(pair_views(Seq::<(u128, String)>::empty()) =~= listing(events.take(0), server_id));
    }
    let n = store.len();
    let mut out: Vec<(u128, String)> = Vec::new();
    let mut i: usize = 0;
    while i < n
        invariant
            store.inv(),
            events == store.spec_events(),
            n == events.len(),
            i <= n,
            pair_views(out@) == listing(events.take(i as int), server_id),
        decreases n - i,
    {
        proof {
            assert(events.take(i + 1).drop_last() =~= events.take(i as int));
            assert(events.take(i + 1).last() == events[i as int]);
            assert(pair_views(out@).len() == out@.len());
        }
        let ev = store.get(i);
        if ev.server_id() == server_id {
            let ghost before = out@;
            out.push((ev.event_id(), ev.build_new_message()));
            proof {
                assert(listing(events.take(i as int), server_id).len() == before.len());
                assert(out@ == before.push((events[i as int].spec_id(), out@.last().1)));
                assert(out@.last().1@ == events[i as int].spec_display());
                assert forall|c: int| 0 <= c < before.len() implies pair_views(out@)[c]
                    == pair_views(before)[c] by {
                    assert(out@[c] == before[c]);
                }
                assert(pair_views(out@) =~= listing(events.take(i + 1), server_id));
            }
        } else {
            proof {
                assert(pair_views(out@) =~= listing(events.take(i + 1), server_id));
            }
        }
        i += 1;
    }
    proof {
        assert(events.take(n as int) =~= events);
    }
    out
}

/// The events this user may sign up for: in this scope and not yet
/// joined, as identifier and title pairs for the selection menu.
pub fn signup_candidates(store: &crate::store::EventStore, server_id: u64, user: u64) -> (r: Vec<
    (u128, String),
>)
    ensures
        pair_views(r@) == signup_choices(store.spec_events(), server_id, user),
{
    let ghost events = store.spec_events();
    proof {
        assert(pair_views(Seq::<(u128, String)>::empty()) =~= signup_choices(
            events.take(0),
            server_id,
            user,
        ));
    }
    let n = store.len();
    let mut out: Vec<(u128, String)> = Vec::new();
    let mut i: usize = 0;
    while i < n
        invariant
            events == store.spec_events(),
            n == events.len(),
            i <= n,
            pair_views(out@) == signup_choices(events.take(i as int), server_id, user),
        decreases n - i,
    {
        proof {
            assert(events.take(i + 1).drop_last() =~= events.take(i as int));
            assert(events.take(i + 1).last() == events[i as int]);
            assert(pair_views(out@).len() == out@.len());
        }
        let ev = store.get(i);
        if ev.server_id() == server_id && !ev.contains_participant(user) {
            let ghost before = out@;
            out.push((ev.event_id(), ev.title_text()));
            proof {
                assert(signup_choices(events.take(i as int), server_id, user).len()
                    == before.len());
                assert(out@ == before.push((events[i as int].spec_id(), out@.last().1)));
                assert(out@.last().1@ == events[i as int].spec_title());
                assert forall|c: int| 0 <= c < before.len() implies pair_views(out@)[c]
                    == pair_views(before)[c] by {
                    assert(out@[c] == before[c]);
                }
                assert(pair_views(out@) =~= signup_choices(events.take(i + 1), server_id, user));
            }
        } else {
            proof {
                assert(pair_views(out@) =~= signup_choices(events.take(i + 1), server_id, user));
            }
        }
        i += 1;
    }
    proof {
        assert(events.take(n as int) =~= events);
    }
    out
}

/// The events this user may sign off from: in this scope and joined, as
/// identifier and title pairs for the selection menu.
pub fn signoff_candidates(store: &crate::store::EventStore, server_id: u64, user: u64) -> (r: Vec<
    (u128, String),
>)
    ensures
        pair_views(r@) == signoff_choices(store.spec_events(), server_id, user),
{
    let ghost events = store.spec_events();
    proof {
        assert(pair_views(Seq::<(u128, String)>::empty()) =~= signoff_choices(
            events.take(0),
            server_id,
            user,
        ));
    }
    let n = store.len();
    let mut out: Vec<(u128, String)> = Vec::new();
    let mut i: usize = 0;
    while i < n
        invariant
            events == store.spec_events(),
            n == events.len(),
            i <= n,
            pair_views(out@) == signoff_choices(events.take(i as int), server_id, user),
        decreases n - i,
    {
        proof {
            assert(events.take(i + 1).drop_last() =~= events.take(i as int));
            assert(events.take(i + 1).last() == events[i as int]);
            assert(pair_views(out@).len() == out@.len());
        }
        let ev = store.get(i);
        if ev.server_id() == server_id && ev.contains_participant(user) {
            let ghost before = out@;
            out.push((ev.event_id(), ev.title_text()));
            proof {
                assert(signoff_choices(events.take(i as int), server_id, user).len()
                    == before.len());
                assert(out@ == before.push((events[i as int].spec_id(), out@.last().1)));
                assert(out@.last().1@ == events[i as int].spec_title());
                assert forall|c: int| 0 <= c < before.len() implies pair_views(out@)[c]
                    == pair_views(before)[c] by {
                    assert(out@[c] == before[c]);
                }
                assert(pair_views(out@) =~= signoff_choices(events.take(i + 1), server_id, user));
            }
        } else {
            proof {
                assert(pair_views(out@) =~= signoff_choices(events.take(i + 1), server_id, user));
            }
        }
        i += 1;
    }
    proof {
        assert(events.take(n as int) =~= events);
    }
    out
}

} // verus!
