use event_signup::dialog::{
    RoleCollectionDialog, RolePhase, SelectionDialog, SELECTION_TIMEOUT_SECS,
};
use event_signup::errors::CoreError;
use event_signup::flows::create_event;
use event_signup::schedule::{
    current_day_start, date_choices, scheduled_timestamp, time_choices,
};
use event_signup::session::{Command, Invocation, SessionTable};
use event_signup::text::{has_negative, parse_u32};

fn run_role_dialog(inputs: &[&str]) -> Result<Vec<event_signup::event::Role>, CoreError> {
    let mut dialog = RoleCollectionDialog::new();
    let mut i = 0;
    while dialog.phase() != RolePhase::Finished && dialog.phase() != RolePhase::Aborted {
        let _prompt = dialog.prompt();
        dialog.on_reply(inputs[i]);
        i += 1;
    }
    if dialog.phase() == RolePhase::Aborted {
        Err(CoreError::DialogAborted)
    } else {
        Ok(dialog.into_roles())
    }
}

#[test]
fn scripted_collection_yields_both_roles() {
    let roles = run_role_dialog(&["Healer", "4", "yes", "Tank", "2", "no"]).unwrap();
    assert_eq!(roles.len(), 2);
    assert_eq!(roles[0].name, String::from("Healer"));
    assert_eq!(roles[0].amount, 4);
    assert_eq!(roles[1].name, String::from("Tank"));
    assert_eq!(roles[1].amount, 2);
}

#[test]
fn immediate_refusal_yields_nothing_and_creation_aborts() {
    let roles = run_role_dialog(&["no"]).unwrap();
    assert!(roles.is_empty());
    // The creation flow refuses to register an event without roles.
    assert!(matches!(
        create_event(7, 99, String::from("Nothing"), 0, roles),
        Err(CoreError::DialogAborted)
    ));
}

#[test]
fn malformed_capacity_aborts_the_collection() {
    let outcome = run_role_dialog(&["Healer", "four"]);
    assert!(matches!(outcome, Err(CoreError::DialogAborted)));
}

#[test]
fn collection_prompts_follow_the_protocol() {
    let mut dialog = RoleCollectionDialog::new();
    assert_eq!(dialog.prompt(), String::from("Name a role for the event."));
    dialog.on_reply("Healer");
    assert_eq!(dialog.prompt(), String::from("How many Healer will you need?"));
    dialog.on_reply("4");
    assert_eq!(dialog.prompt(), String::from("Do you want to create another role?"));
    dialog.on_reply("sure");
    assert_eq!(dialog.phase(), RolePhase::AwaitName);
}

#[test]
fn negative_token_is_found_case_insensitively() {
    assert!(has_negative("no"));
    assert!(has_negative("  NO thanks "));
    assert!(has_negative("I think Not... nO"));
    assert!(!has_negative("yes"));
    assert!(!has_negative("Knight"));
    assert!(!has_negative("n"));
    assert!(!has_negative(""));
}

#[test]
fn capacity_replies_parse_as_plain_numbers() {
    assert_eq!(parse_u32("4"), Some(4));
    assert_eq!(parse_u32("  17\n"), Some(17));
    assert_eq!(parse_u32("0"), Some(0));
    assert_eq!(parse_u32("4294967295"), Some(u32::MAX));
    assert_eq!(parse_u32("4294967296"), None);
    assert_eq!(parse_u32("99999999999999999999"), None);
    assert_eq!(parse_u32("four"), None);
    assert_eq!(parse_u32("-1"), None);
    assert_eq!(parse_u32("1 2"), None);
    assert_eq!(parse_u32(""), None);
    assert_eq!(parse_u32("   "), None);
}

#[test]
fn selection_times_out_as_a_failure_not_a_crash() {
    let menu = SelectionDialog::new(
        String::from("Select an event to sign up for."),
        vec![String::from("Raid Night")],
    );
    assert_eq!(menu.resolve(None), Err(CoreError::DialogTimeout));
    assert_eq!(menu.resolve(Some(0)), Ok(0));
    assert_eq!(menu.timeout_secs(), SELECTION_TIMEOUT_SECS);
    assert_eq!(menu.choice_count(), 1);
}

#[test]
fn day_choices_carry_calendar_labels() {
    // The day after the epoch day.
    let choices = date_choices(0);
    assert_eq!(choices.len(), 7);
    assert_eq!(choices[0].1, 86400);
    assert_eq!(choices[0].0, String::from("Friday January 02, 1970"));
    assert_eq!(choices[6].1, 7 * 86400);
    assert_eq!(choices[6].0, String::from("Thursday January 08, 1970"));
}

#[test]
fn hour_choices_are_zero_padded() {
    let hours = time_choices();
    assert_eq!(hours.len(), 24);
    assert_eq!(hours[0].0, String::from("00:00"));
    assert_eq!(hours[0].1, 0);
    assert_eq!(hours[9].0, String::from("09:00"));
    assert_eq!(hours[10].0, String::from("10:00"));
    assert_eq!(hours[23].0, String::from("23:00"));
    assert_eq!(hours[23].1, 23);
}

#[test]
fn schedule_arithmetic_combines_day_and_hour() {
    assert_eq!(scheduled_timestamp(86400, 15), 86400 + 15 * 3600);
    let day0 = current_day_start();
    assert_eq!(day0 % 86400, 0);
    assert!(day0 >= 0);
}

#[test]
fn session_table_holds_one_invocation_per_user() {
    let mut table = SessionTable::new();
    let invocation = Invocation { command: Command::CreateEvent, source_channel: 42 };
    assert!(!table.contains(9));
    assert!(table.begin(9, invocation));
    assert!(table.contains(9));
    // A second dialog for the same user is refused.
    assert!(!table.begin(9, Invocation { command: Command::CreateEvent, source_channel: 43 }));
    let taken = table.take(9).unwrap();
    assert_eq!(taken.source_channel, 42);
    assert_eq!(taken.command, Command::CreateEvent);
    assert!(!table.contains(9));
    assert!(table.take(9).is_none());
}
