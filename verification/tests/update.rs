use pvm::interactive::{menu_action, menu_options, MenuAction};
use pvm::prompt::{answer_of, approval, confirm_without_prompt, Approval};
use pvm::update::{guard_text, newer_patch, update_gate, update_line, UpdateGate, UPDATE_INTERVAL_SECS};

#[test]
fn update_gate_respects_mode_and_guard() {
    assert_eq!(update_gate(Some("disabled"), "", 1000), UpdateGate::Disabled);
    assert_eq!(update_gate(Some("notify"), "", 1000), UpdateGate::Due);
    assert_eq!(update_gate(None, "1000\n", 1000 + UPDATE_INTERVAL_SECS - 1), UpdateGate::CheckedRecently);
    assert_eq!(update_gate(None, "1000\n", 1000 + UPDATE_INTERVAL_SECS), UpdateGate::Due);
    assert_eq!(update_gate(None, "garbage", 5), UpdateGate::Due);
}

#[test]
fn a_recorded_check_suppresses_the_next_day() {
    let now = 1_700_000_000u64;
    let guard = guard_text(now);
    assert_eq!(guard, "1700000000\n");
    assert_eq!(update_gate(None, &guard, now), UpdateGate::CheckedRecently);
    assert_eq!(update_gate(None, &guard, now + 3600), UpdateGate::CheckedRecently);
    assert_eq!(update_gate(None, &guard, now + UPDATE_INTERVAL_SECS), UpdateGate::Due);
}

#[test]
fn a_guard_time_after_now_does_not_suppress_the_check() {
    let now = 1_700_000_000u64;
    assert_eq!(update_gate(None, &guard_text(now + 1), now), UpdateGate::Due);
    assert_eq!(update_gate(None, &guard_text(now + 3600), now), UpdateGate::Due);
    assert_eq!(update_gate(None, &guard_text(u64::MAX), 10), UpdateGate::Due);
    assert_eq!(update_gate(None, &guard_text(now), now), UpdateGate::CheckedRecently);
}

#[test]
fn update_line_and_newer_patch() {
    assert_eq!(update_line("8.4.1"), Some("8.4".to_string()));
    assert_eq!(update_line("system"), None);
    assert_eq!(update_line("8"), None);
    assert_eq!(newer_patch("8.4.1", Some("8.4.3")), Some("8.4.3".to_string()));
    assert_eq!(newer_patch("8.4.3", Some("8.4.3")), None);
    assert_eq!(newer_patch("8.4.3", None), None);
}

#[test]
fn prompts_without_a_terminal_take_the_default() {
    assert_eq!(confirm_without_prompt(false, true, false), Some(true));
    assert_eq!(confirm_without_prompt(true, false, false), Some(true));
    assert_eq!(confirm_without_prompt(false, false, false), Some(false));
    assert_eq!(confirm_without_prompt(true, false, true), None);
    assert!(answer_of(Some(true)));
    assert!(!answer_of(Some(false)));
    assert!(!answer_of(None));
}

#[test]
fn approval_refuses_without_terminal_or_yes() {
    assert_eq!(approval(true, false), Approval::Given);
    assert_eq!(approval(false, true), Approval::Ask);
    assert_eq!(approval(false, false), Approval::Refused);
}

#[test]
fn menu_maps_selections_to_actions() {
    let options = menu_options();
    assert_eq!(options.len(), 10);
    assert_eq!(options[3], "Prune       (Remove superseded patch versions)");
    assert_eq!(options[9], "Exit");
    assert_eq!(menu_action(Some(0)), MenuAction::Use);
    assert_eq!(menu_action(Some(7)), MenuAction::Default);
    assert_eq!(menu_action(Some(8)), MenuAction::Init);
    assert_eq!(menu_action(Some(9)), MenuAction::Exit);
    assert_eq!(menu_action(None), MenuAction::Exit);
}
