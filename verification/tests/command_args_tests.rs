use venus::commands::{
    effort_level, option_pick, permissions_command, prompt_colors, resume_choice, rewind_count, rewind_steps,
    screen_command, EffortLevel, OptionPick, PermissionsCommand, PickerKind, ScreenCommand, SessionChoiceError,
};
use venus::permissions::PermissionMode;

fn ids() -> Vec<String> {
    vec!["a1b2".to_string(), "b7c8".to_string(), "b9d0".to_string()]
}

#[test]
fn resume_choice_by_number_counts_from_one() {
    assert_eq!(resume_choice("2", &ids()), Ok(1));
    assert_eq!(resume_choice(" 3 ", &ids()), Ok(2));
    assert_eq!(resume_choice("+1", &ids()), Ok(0));
}

#[test]
fn resume_choice_refuses_numbers_out_of_range() {
    assert_eq!(resume_choice("0", &ids()), Err(SessionChoiceError::BadNumber));
    assert_eq!(resume_choice("4", &ids()), Err(SessionChoiceError::BadNumber));
}

#[test]
fn resume_choice_by_prefix_takes_the_first_match() {
    assert_eq!(resume_choice("b", &ids()), Ok(1));
    assert_eq!(resume_choice("b9", &ids()), Ok(2));
    assert_eq!(resume_choice("a1b2", &ids()), Ok(0));
    assert_eq!(resume_choice("zz", &ids()), Err(SessionChoiceError::NoMatch));
}

#[test]
fn rewind_steps_defaults_to_one() {
    assert_eq!(rewind_steps(None), 1);
    assert_eq!(rewind_steps(Some(" 3 ")), 3);
    assert_eq!(rewind_steps(Some("many")), 1);
    assert_eq!(rewind_steps(Some("-2")), 1);
}

#[test]
fn rewind_count_is_two_per_exchange_at_most_all() {
    assert_eq!(rewind_count(3, 10), 6);
    assert_eq!(rewind_count(3, 4), 4);
    assert_eq!(rewind_count(0, 5), 0);
    assert_eq!(rewind_count(1, 0), 0);
}

#[test]
fn effort_level_names_four_levels() {
    assert_eq!(effort_level(Some("low")), Some(EffortLevel::Low));
    assert_eq!(effort_level(Some(" medium ")), Some(EffortLevel::Medium));
    assert_eq!(effort_level(Some("high")), Some(EffortLevel::High));
    assert_eq!(effort_level(Some("max")), Some(EffortLevel::Max));
    assert_eq!(effort_level(Some("ultra")), None);
    assert_eq!(effort_level(Some("High")), None);
    assert_eq!(effort_level(None), None);
}

#[test]
fn option_pick_finds_a_colour_by_name() {
    let colours = prompt_colors();
    assert_eq!(colours, vec!["blue", "green", "red", "yellow", "cyan", "magenta", "white"]);
    assert!(matches!(option_pick(Some(" red "), &colours), OptionPick::Pick(2)));
    assert!(matches!(option_pick(None, &colours), OptionPick::Show));
    match option_pick(Some(" pink "), &colours) {
        OptionPick::Unknown(t) => assert_eq!(t, "pink"),
        _ => panic!("expected an unknown colour"),
    }
}

#[test]
fn permissions_command_sets_known_modes() {
    assert_eq!(permissions_command(Some("mode auto")), PermissionsCommand::SetMode(PermissionMode::Auto));
    assert_eq!(permissions_command(Some(" mode  bypass ")), PermissionsCommand::SetMode(PermissionMode::Bypass));
    assert_eq!(permissions_command(Some("mode default")), PermissionsCommand::SetMode(PermissionMode::Default));
    assert_eq!(permissions_command(Some("mode plan")), PermissionsCommand::InvalidMode);
    assert_eq!(permissions_command(Some("mode ")), PermissionsCommand::Show);
    assert_eq!(permissions_command(Some("list")), PermissionsCommand::Show);
    assert_eq!(permissions_command(None), PermissionsCommand::Show);
}

#[test]
fn screen_command_opens_pickers_without_argument() {
    assert!(matches!(screen_command("/model", None, None), ScreenCommand::Open(PickerKind::Model)));
    assert!(matches!(screen_command("/resume", None, None), ScreenCommand::Open(PickerKind::Resume)));
    assert!(matches!(screen_command("/continue", None, None), ScreenCommand::Open(PickerKind::Resume)));
    assert!(matches!(screen_command("/effort", None, None), ScreenCommand::Open(PickerKind::Effort)));
    assert!(matches!(screen_command("/help", None, None), ScreenCommand::Open(PickerKind::Help)));
    assert!(matches!(screen_command("/settings", None, None), ScreenCommand::Open(PickerKind::Config)));
    assert!(matches!(screen_command("/allowed-tools", None, None), ScreenCommand::Open(PickerKind::Permissions)));
    assert!(matches!(screen_command("/skills", None, None), ScreenCommand::Open(PickerKind::Skills)));
}

#[test]
fn screen_command_acts_at_once() {
    assert!(matches!(screen_command("/cost", None, None), ScreenCommand::ShowCost));
    assert!(matches!(screen_command("/clear", None, None), ScreenCommand::Clear));
    assert!(matches!(screen_command("/status", None, None), ScreenCommand::ShowStatus));
    assert!(matches!(screen_command("/q", None, None), ScreenCommand::Quit));
    assert!(matches!(screen_command("/exit", None, None), ScreenCommand::Quit));
    assert!(matches!(screen_command("/fast", None, None), ScreenCommand::ToggleFast));
    assert!(matches!(screen_command("/diff", None, None), ScreenCommand::OpenDiff));
    match screen_command("/model  sonnet-large ", None, None) {
        ScreenCommand::SetModel(m) => assert_eq!(m, "sonnet-large"),
        _ => panic!("expected a model switch"),
    }
}

#[test]
fn screen_command_delegates_with_argument_or_unknown() {
    assert!(matches!(screen_command("/resume 2", None, None), ScreenCommand::Delegate(_)));
    assert!(matches!(screen_command("/effort high", None, None), ScreenCommand::Delegate(_)));
    assert!(matches!(screen_command("/vim", None, None), ScreenCommand::Delegate(_)));
}
