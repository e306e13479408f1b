use venus::permissions::{PermissionResponse, ToolInput};
use venus::ui_state::{
    color_ansi, cycle_effort, cycle_permission_mode, cycle_thinking_mode, describe_effort, history_search_matches,
    permission_choice, tool_activity, PickerAction, PickerItem, PickerSource, PickerState,
};

fn input(fields: &[(&str, &str)]) -> ToolInput {
    ToolInput {
        string_fields: fields.iter().map(|(k, v)| (k.to_string(), v.to_string())).collect(),
        json: "{}".to_string(),
    }
}

#[test]
fn effort_cycles_forward_and_back() {
    assert_eq!(cycle_effort(None, 1), ("high", 10000));
    assert_eq!(cycle_effort(Some(500), 1), ("medium", 4096));
    assert_eq!(cycle_effort(Some(20000), 1), ("low", 1024));
    assert_eq!(cycle_effort(Some(1024), -1), ("max", 32000));
    assert_eq!(cycle_effort(Some(10000), -1), ("medium", 4096));
    assert_eq!(cycle_effort(Some(4096), 0), ("medium", 4096));
}

#[test]
fn effort_note_is_replaced() {
    assert_eq!(describe_effort("Opus 4 | effort: low", "max"), "Opus 4 | effort: max");
    assert_eq!(describe_effort("Sonnet", "high"), "Sonnet | effort: high");
}

#[test]
fn colors_map_to_escapes() {
    assert_eq!(color_ansi("red"), "\x1b[31m");
    assert_eq!(color_ansi("white"), "\x1b[37m");
    assert_eq!(color_ansi("purple"), "\x1b[36m");
}

#[test]
fn tool_activity_by_tool() {
    assert_eq!(tool_activity("Bash", &input(&[("command", "ls -la")])), Some("ls -la".to_string()));
    let long = "x".repeat(100);
    let shown = tool_activity("BashTool", &input(&[("command", &long)])).unwrap();
    assert_eq!(shown.chars().count(), 80);
    assert!(shown.ends_with("..."));
    assert_eq!(tool_activity("Read", &input(&[("file_path", "/a/b.rs")])), Some("/a/b.rs".to_string()));
    assert_eq!(tool_activity("Grep", &input(&[("pattern", "fn main")])), Some("fn main in .".to_string()));
    assert_eq!(
        tool_activity("GrepTool", &input(&[("pattern", "x"), ("path", "src")])),
        Some("x in src".to_string())
    );
    assert_eq!(tool_activity("WebSearch", &input(&[("query", "verus")])), Some("verus".to_string()));
    assert_eq!(tool_activity("Bash", &input(&[])), None);
    assert_eq!(tool_activity("Unknown", &input(&[("command", "ls")])), None);
}

#[test]
fn history_search_newest_first_at_most_five() {
    let history: Vec<String> = ["git status", "cargo build", "git log", "ls", "git diff", "git push", "git pull", "GIT stash"]
        .iter()
        .map(|s| s.to_string())
        .collect();
    let all = history_search_matches(&history, "");
    assert_eq!(all, vec!["GIT stash", "git pull", "git push", "git diff", "ls"]);
    let gits = history_search_matches(&history, "Git");
    assert_eq!(gits, vec!["GIT stash", "git pull", "git push", "git diff", "git log"]);
    assert!(history_search_matches(&history, "zzz").is_empty());
}

#[test]
fn permission_and_thinking_modes_cycle() {
    assert_eq!(cycle_permission_mode(None), "auto");
    assert_eq!(cycle_permission_mode(Some("auto")), "bypass");
    assert_eq!(cycle_permission_mode(Some("bypass")), "default");
    assert_eq!(cycle_permission_mode(Some("plan")), "default");
    assert_eq!(cycle_thinking_mode(None), "enabled");
    assert_eq!(cycle_thinking_mode(Some("enabled")), "adaptive");
    assert_eq!(cycle_thinking_mode(Some("adaptive")), "disabled");
    assert_eq!(permission_choice(0), PermissionResponse::Allow);
    assert_eq!(permission_choice(1), PermissionResponse::AlwaysAllow);
    assert_eq!(permission_choice(2), PermissionResponse::Deny);
    assert_eq!(permission_choice(7), PermissionResponse::Deny);
}

fn picker(source: PickerSource, values: &[&str], selected: usize) -> PickerState {
    let items = values
        .iter()
        .map(|v| PickerItem { label: v.to_string(), description: String::new(), value: v.to_string() })
        .collect();
    let mut p = PickerState::new("t".to_string(), items, source);
    p.selected = selected;
    p
}

#[test]
fn picker_choices() {
    match picker(PickerSource::Model, &["opus", "sonnet"], 1).chosen_action() {
        PickerAction::SetModel(m) => assert_eq!(m, "sonnet"),
        _ => panic!("expected a model"),
    }
    assert!(matches!(picker(PickerSource::Model, &[""], 0).chosen_action(), PickerAction::Close));
    assert!(matches!(picker(PickerSource::Model, &["x"], 3).chosen_action(), PickerAction::Close));
    assert!(matches!(picker(PickerSource::Permissions, &["plan"], 0).chosen_action(), PickerAction::Nothing));
    match picker(PickerSource::Permissions, &["auto"], 0).chosen_action() {
        PickerAction::SetPermissionMode(m) => assert_eq!(m, "auto"),
        _ => panic!("expected a mode"),
    }
    match picker(PickerSource::Effort, &["high"], 0).chosen_action() {
        PickerAction::SetEffort { label, budget } => {
            assert_eq!(label, "high");
            assert_eq!(budget, Some(10000));
        }
        _ => panic!("expected an effort"),
    }
    match picker(PickerSource::Skills(vec![]), &["deploy"], 0).chosen_action() {
        PickerAction::RunCommand(c) => assert_eq!(c, "/deploy"),
        _ => panic!("expected a command"),
    }
    match picker(PickerSource::Resume(vec!["abc".to_string()]), &["abc"], 0).chosen_action() {
        PickerAction::ResumeSession(id) => assert_eq!(id, "abc"),
        _ => panic!("expected a session"),
    }
    assert!(matches!(
        picker(PickerSource::Resume(vec!["abc".to_string()]), &["zzz"], 0).chosen_action(),
        PickerAction::Nothing
    ));
    match picker(PickerSource::ConfigSub("color".to_string()), &["red"], 0).chosen_action() {
        PickerAction::SetPromptColor(c) => assert_eq!(c, "red"),
        _ => panic!("expected a colour"),
    }
    assert!(matches!(picker(PickerSource::Help, &["/help"], 0).chosen_action(), PickerAction::ShowHelp));
}
