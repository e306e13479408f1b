use venus::keys::{handle_key, Key, KeyAction, KeyCode, KeyContext, Modifiers};
use venus::permissions::PermissionResponse;
use venus::ui_state::InputMode;

const NONE: Modifiers = Modifiers { shift: false, control: false, alt: false, other: false };
const CTRL: Modifiers = Modifiers { shift: false, control: true, alt: false, other: false };
const ALT: Modifiers = Modifiers { shift: false, control: false, alt: true, other: false };
const SHIFT: Modifiers = Modifiers { shift: true, control: false, alt: false, other: false };

fn ctx(mode: InputMode) -> KeyContext {
    KeyContext {
        mode,
        buffer_empty: false,
        buffer_starts_with_slash: false,
        has_history: true,
        has_completions: false,
        browsing_history: false,
        file_completion_active: false,
        picker_is_model: false,
        ctrl_c_recent: false,
        esc_recent: false,
    }
}

fn key(code: KeyCode, modifiers: Modifiers) -> Key {
    Key { code, modifiers }
}

#[test]
fn ctrl_c_depends_on_mode() {
    let c = key(KeyCode::Char('c'), CTRL);
    assert_eq!(handle_key(&ctx(InputMode::Streaming), &c), KeyAction::CancelStream);
    assert_eq!(handle_key(&ctx(InputMode::Picker), &c), KeyAction::ClosePicker);
    assert_eq!(handle_key(&ctx(InputMode::HistorySearch), &c), KeyAction::ExitHistorySearch);
    assert_eq!(handle_key(&ctx(InputMode::Normal), &c), KeyAction::WarnCtrlC);
    let mut again = ctx(InputMode::Normal);
    again.ctrl_c_recent = true;
    assert_eq!(handle_key(&again, &c), KeyAction::Quit);
}

#[test]
fn editing_keys_at_the_prompt() {
    let n = ctx(InputMode::Normal);
    assert_eq!(handle_key(&n, &key(KeyCode::Char('x'), NONE)), KeyAction::InsertChar('x'));
    assert_eq!(handle_key(&n, &key(KeyCode::Char('x'), CTRL)), KeyAction::InsertChar('x'));
    assert_eq!(handle_key(&n, &key(KeyCode::Char('w'), CTRL)), KeyAction::DeleteWordBackward);
    assert_eq!(handle_key(&n, &key(KeyCode::Enter, SHIFT)), KeyAction::Submit);
    assert_eq!(handle_key(&n, &key(KeyCode::Enter, ALT)), KeyAction::InsertChar('\n'));
    assert_eq!(handle_key(&n, &key(KeyCode::Tab, SHIFT)), KeyAction::CyclePermissionMode);
    assert_eq!(handle_key(&n, &key(KeyCode::Left, CTRL)), KeyAction::Nothing);
    assert_eq!(handle_key(&n, &key(KeyCode::Home, CTRL)), KeyAction::ScrollTop);
    assert_eq!(handle_key(&n, &key(KeyCode::Esc, NONE)), KeyAction::WarnEsc);
    let mut c = n;
    c.has_completions = true;
    assert_eq!(handle_key(&c, &key(KeyCode::Esc, NONE)), KeyAction::ClearCompletions);
    let mut slash = n;
    slash.buffer_starts_with_slash = true;
    assert_eq!(handle_key(&slash, &key(KeyCode::Tab, NONE)), KeyAction::CompleteSlash);
}

#[test]
fn global_shortcuts_and_other_modes() {
    let n = ctx(InputMode::Normal);
    assert_eq!(handle_key(&n, &key(KeyCode::Char('p'), ALT)), KeyAction::OpenModelPicker);
    assert_eq!(handle_key(&n, &key(KeyCode::Char('p'), CTRL)), KeyAction::OpenHelpPicker);
    let p = ctx(InputMode::Picker);
    assert_eq!(handle_key(&p, &key(KeyCode::Char('p'), CTRL)), KeyAction::Nothing);
    assert_eq!(handle_key(&p, &key(KeyCode::Char('n'), CTRL)), KeyAction::PickerDown);
    assert_eq!(handle_key(&p, &key(KeyCode::Right, NONE)), KeyAction::Nothing);
    let mut model = p;
    model.picker_is_model = true;
    assert_eq!(handle_key(&model, &key(KeyCode::Left, NONE)), KeyAction::CycleEffort(-1));
    let q = ctx(InputMode::PermissionPrompt);
    assert_eq!(handle_key(&q, &key(KeyCode::Char('Y'), SHIFT)), KeyAction::Respond(PermissionResponse::Allow));
    assert_eq!(handle_key(&q, &key(KeyCode::Char('n'), CTRL)), KeyAction::PermissionDown);
    assert_eq!(handle_key(&q, &key(KeyCode::Esc, NONE)), KeyAction::Respond(PermissionResponse::Deny));
    let s = ctx(InputMode::Streaming);
    assert_eq!(handle_key(&s, &key(KeyCode::Char('x'), NONE)), KeyAction::Nothing);
    assert_eq!(handle_key(&s, &key(KeyCode::Char('d'), CTRL)), KeyAction::Quit);
    let h = ctx(InputMode::HistorySearch);
    assert_eq!(handle_key(&h, &key(KeyCode::Char('g'), NONE)), KeyAction::SearchInsert('g'));
    assert_eq!(handle_key(&h, &key(KeyCode::Backspace, NONE)), KeyAction::SearchBackspace);
    let mut stash = n;
    stash.buffer_empty = true;
    assert_eq!(handle_key(&stash, &key(KeyCode::Char('s'), CTRL)), KeyAction::Nothing);
    assert_eq!(handle_key(&n, &key(KeyCode::Char('s'), CTRL)), KeyAction::StashPrompt);
}
