use event_signup::errors::CoreError;
use event_signup::event::{Event, Role, RoleFlavor};
use event_signup::flows::{create_event, list_events, signoff_candidates, signup_candidates};
use event_signup::store::EventStore;

fn sample_event() -> Event {
    let roles = vec![
        Role { name: String::from("Tank"), amount: 1 },
        Role { name: String::from("Healer"), amount: 2 },
    ];
    create_event(7, 99, String::from("Raid Night"), 1_000_000, roles).unwrap()
}

#[test]
fn invariants_hold_after_mixed_mutations() {
    let mut ev = sample_event();
    ev.add_flavor(RoleFlavor { flavor: String::from("Druid"), amount: 1 });
    assert!(ev.add_participant(1, String::from("Tank"), String::new()).is_ok());
    assert!(ev.add_participant(2, String::from("Healer"), String::from("Druid")).is_ok());
    assert!(ev.remove_participant(1).is_ok());
    assert!(ev.add_participant(3, String::from("Healer"), String::new()).is_ok());
    assert!(ev.remove_participant(2).is_ok());
    assert!(ev.add_participant(4, String::from("Tank"), String::new()).is_ok());
    // Headcounts stay within capacity and the roster stays consistent.
    assert!(ev.is_role_full(&String::from("Tank")));
    assert!(!ev.is_role_full(&String::from("Healer")));
    assert!(ev.contains_participant(3));
    assert!(ev.contains_participant(4));
    assert!(!ev.contains_participant(1));
    assert_eq!(ev.needed_participants(), 3);
}

#[test]
fn role_full_rejection_exactly_at_capacity() {
    let mut ev = sample_event();
    assert!(!ev.is_role_full(&String::from("Tank")));
    assert!(ev.add_participant(1, String::from("Tank"), String::new()).is_ok());
    assert!(ev.is_role_full(&String::from("Tank")));
    // The tank slot is at capacity while the event still has room.
    assert_eq!(
        ev.add_participant(2, String::from("Tank"), String::new()),
        Err(CoreError::RoleFull)
    );
    // One signup below capacity the same request is accepted.
    assert!(ev.add_participant(2, String::from("Healer"), String::new()).is_ok());
}

#[test]
fn event_full_wins_once_total_capacity_reached() {
    let roles = vec![
        Role { name: String::from("Tank"), amount: 1 },
        Role { name: String::from("Healer"), amount: 1 },
    ];
    let mut ev = create_event(7, 99, String::from("Duo"), 0, roles).unwrap();
    assert!(ev.add_participant(1, String::from("Tank"), String::new()).is_ok());
    assert!(ev.add_participant(2, String::from("Healer"), String::new()).is_ok());
    // The sum of the capacities is reached exactly: the event-full check
    // fires, and it comes before the role-full check.
    assert_eq!(
        ev.add_participant(3, String::from("Tank"), String::new()),
        Err(CoreError::EventFull)
    );
}

#[test]
fn rejection_order_follows_the_check_sequence() {
    let mut ev = create_event(
        7,
        99,
        String::from("Solo"),
        0,
        vec![Role { name: String::from("Solo"), amount: 1 }],
    )
    .unwrap();
    assert!(ev.add_participant(1, String::from("Solo"), String::new()).is_ok());
    // The event is now at total capacity. An unknown role or flavor is
    // still reported before fullness; with both resolved, fullness wins.
    assert_eq!(
        ev.add_participant(2, String::from("Bard"), String::new()),
        Err(CoreError::RoleNotFound)
    );
    assert_eq!(
        ev.add_participant(2, String::from("Solo"), String::from("Mage")),
        Err(CoreError::FlavorNotFound)
    );
    assert_eq!(
        ev.add_participant(2, String::from("Solo"), String::new()),
        Err(CoreError::EventFull)
    );
}

#[test]
fn remove_then_add_restores_observable_state() {
    let mut ev = sample_event();
    ev.add_flavor(RoleFlavor { flavor: String::from("Druid"), amount: 2 });
    assert!(ev.add_participant(1, String::from("Healer"), String::from("Druid")).is_ok());
    let text_before = ev.build_new_message();
    let roles_before = ev.possible_roles();
    assert!(ev.remove_participant(1).is_ok());
    assert!(!ev.contains_participant(1));
    assert!(ev.add_participant(1, String::from("Healer"), String::from("Druid")).is_ok());
    // The round trip restores the display text and every query.
    assert_eq!(ev.build_new_message(), text_before);
    let roles_after = ev.possible_roles();
    assert_eq!(roles_before.len(), roles_after.len());
    for k in 0..roles_before.len() {
        assert_eq!(roles_before[k], roles_after[k]);
    }
    assert!(ev.contains_participant(1));
}

#[test]
fn display_text_is_deterministic() {
    let mut ev = sample_event();
    assert!(ev.add_participant(5, String::from("Tank"), String::new()).is_ok());
    let first = ev.build_new_message();
    let second = ev.build_new_message();
    assert_eq!(first, second);
}

#[test]
fn display_text_exact_rendering() {
    let mut ev = sample_event();
    ev.add_flavor(RoleFlavor { flavor: String::from("Druid"), amount: 2 });
    assert!(ev.add_participant(5, String::from("Tank"), String::new()).is_ok());
    assert!(ev.add_participant(6, String::from("Healer"), String::from("Druid")).is_ok());
    let expected = format!(
        "Raid Night [{}]\nDate: <t:1000000>\n(2 / 3)\nNeeded Roles:\nTank: 1/1\n- 5\nHealer: 1/2\n- Druid 6\n",
        ev.id
    );
    assert_eq!(ev.build_new_message(), expected);
}

#[test]
fn unknown_role_and_flavor_are_rejected() {
    let mut ev = sample_event();
    ev.add_flavor(RoleFlavor { flavor: String::from("Druid"), amount: 0 });
    assert_eq!(
        ev.add_participant(1, String::from("Bard"), String::new()),
        Err(CoreError::RoleNotFound)
    );
    assert_eq!(
        ev.add_participant(1, String::from("Healer"), String::from("Mage")),
        Err(CoreError::FlavorNotFound)
    );
    // An unconstrained flavor never rejects.
    assert!(ev.add_participant(1, String::from("Healer"), String::from("Druid")).is_ok());
    assert!(ev.add_participant(2, String::from("Healer"), String::from("Druid")).is_ok());
}

#[test]
fn constrained_flavor_fills_up() {
    let mut ev = sample_event();
    ev.add_flavor(RoleFlavor { flavor: String::from("Druid"), amount: 1 });
    assert!(!ev.is_flavor_full(&String::from("Druid")));
    assert!(ev.add_participant(1, String::from("Healer"), String::from("Druid")).is_ok());
    assert!(ev.is_flavor_full(&String::from("Druid")));
    assert_eq!(
        ev.add_participant(2, String::from("Healer"), String::from("Druid")),
        Err(CoreError::FlavorFull)
    );
}

#[test]
fn removing_an_absent_user_fails() {
    let mut ev = sample_event();
    assert_eq!(ev.remove_participant(42), Err(CoreError::ParticipantNotFound));
}

#[test]
fn possible_roles_and_flavors_track_capacity() {
    let mut ev = sample_event();
    ev.add_flavor(RoleFlavor { flavor: String::from("Druid"), amount: 1 });
    ev.add_flavor(RoleFlavor { flavor: String::from("Mage"), amount: 0 });
    let all = ev.roles();
    assert_eq!(all, vec![String::from("Tank"), String::from("Healer")]);
    assert!(ev.add_participant(1, String::from("Tank"), String::from("Druid")).is_ok());
    // The tank role is now full and leaves the open list.
    assert_eq!(ev.possible_roles(), vec![String::from("Healer")]);
    // The claimed constrained flavor is full; the unconstrained one and
    // the closing entry stay.
    assert_eq!(ev.possible_flavors(), vec![String::from("Mage"), String::from("None")]);
    assert_eq!(ev.flavors(), vec![String::from("Druid"), String::from("Mage")]);
}

#[test]
fn creation_aborts_on_empty_or_duplicate_roles() {
    assert!(matches!(
        create_event(7, 99, String::from("Empty"), 0, Vec::new()),
        Err(CoreError::DialogAborted)
    ));
    let duplicated = vec![
        Role { name: String::from("Tank"), amount: 1 },
        Role { name: String::from("Tank"), amount: 2 },
    ];
    assert!(matches!(
        create_event(7, 99, String::from("Dup"), 0, duplicated),
        Err(CoreError::DialogAborted)
    ));
}

#[test]
fn store_resolves_by_identifier() {
    let mut store = EventStore::new();
    let ev = sample_event();
    let id = ev.id;
    store.insert(ev);
    let other = create_event(
        8,
        100,
        String::from("Other"),
        5,
        vec![Role { name: String::from("Scout"), amount: 1 }],
    )
    .unwrap();
    let other_id = other.id;
    store.insert(other);
    assert_eq!(store.contains_participant(id, 1), Ok(false));
    assert!(store.add_participant(id, 1, String::from("Tank"), String::new()).is_ok());
    assert_eq!(store.contains_participant(id, 1), Ok(true));
    assert_eq!(store.contains_participant(other_id, 1), Ok(false));
    assert!(store.remove_participant(id, 1).is_ok());
    assert_eq!(
        store.remove_participant(id, 1),
        Err(CoreError::ParticipantNotFound)
    );
    // A stale identifier reports the event as gone.
    assert_eq!(
        store.add_participant(12345, 1, String::from("Tank"), String::new()),
        Err(CoreError::EventNotFound)
    );
    assert_eq!(store.remove_participant(12345, 1), Err(CoreError::EventNotFound));
    assert_eq!(store.contains_participant(12345, 1), Err(CoreError::EventNotFound));
    assert!(store.display_payload(12345).is_err());
}

#[test]
fn store_display_payload_carries_text_and_handles() {
    let mut store = EventStore::new();
    let ev = sample_event();
    let id = ev.id;
    store.insert(ev);
    assert!(store.add_event_message(id, 501).is_ok());
    assert!(store.add_event_message(id, 502).is_ok());
    let (text, handles) = store.display_payload(id).unwrap();
    assert_eq!(handles, vec![501, 502]);
    assert!(text.starts_with("Raid Night ["));
    assert_eq!(store.add_event_message(777, 1), Err(CoreError::EventNotFound));
}

#[test]
fn candidate_lists_filter_by_scope_and_membership() {
    let mut store = EventStore::new();
    let ev = sample_event(); // scope 99
    let id = ev.id;
    store.insert(ev);
    let other = create_event(
        8,
        100,
        String::from("Elsewhere"),
        5,
        vec![Role { name: String::from("Scout"), amount: 1 }],
    )
    .unwrap();
    store.insert(other);
    let open = signup_candidates(&store, 99, 1);
    assert_eq!(open.len(), 1);
    assert_eq!(open[0].0, id);
    assert_eq!(open[0].1, String::from("Raid Night"));
    assert!(signoff_candidates(&store, 99, 1).is_empty());
    assert!(store.add_participant(id, 1, String::from("Tank"), String::new()).is_ok());
    // Once joined, the event moves from the signup list to the signoff
    // list.
    assert!(signup_candidates(&store, 99, 1).is_empty());
    let joined = signoff_candidates(&store, 99, 1);
    assert_eq!(joined.len(), 1);
    assert_eq!(joined[0].0, id);
    // The other scope never shows this event.
    assert!(signup_candidates(&store, 100, 1).len() == 1);
    assert!(signoff_candidates(&store, 100, 1).is_empty());
}

#[test]
fn listing_renders_every_event_in_scope() {
    let mut store = EventStore::new();
    let ev = sample_event();
    let id = ev.id;
    store.insert(ev);
    let cards = list_events(&store, 99);
    assert_eq!(cards.len(), 1);
    assert_eq!(cards[0].0, id);
    assert!(cards[0].1.contains("Needed Roles:"));
    assert!(list_events(&store, 1).is_empty());
}
