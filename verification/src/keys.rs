use vstd::prelude::*;

use crate::permissions::PermissionResponse;
use crate::ui_state::InputMode;

verus! {

// ---------------------------------------------------------------------------
// Keys
// ---------------------------------------------------------------------------

/// The key of a key press.
#[derive(Debug, Clone, Copy, PartialEq, Eq, Structural)]
pub enum KeyCode {
    Char(char),
    Enter,
    Esc,
    Tab,
    Up,
    Down,
    Left,
    Right,
    Home,
    End,
    PageUp,
    PageDown,
    Backspace,
    Delete,
    /// Any other key.
    Other,
}

/// The modifiers held with a key (`other` stands for any modifier beyond
/// shift, control and alt).
#[derive(Debug, Clone, Copy, PartialEq, Eq, Structural)]
pub struct Modifiers {
    pub shift: bool,
    pub control: bool,
    pub alt: bool,
    pub other: bool,
}

/// A key press.
#[derive(Debug, Clone, Copy, PartialEq, Eq, Structural)]
pub struct Key {
    pub code: KeyCode,
    pub modifiers: Modifiers,
}

/// What the key handler reads of the interface's state.
#[derive(Debug, Clone, Copy, PartialEq, Eq, Structural)]
pub struct KeyContext {
    pub mode: InputMode,
    pub buffer_empty: bool,
    pub buffer_starts_with_slash: bool,
    pub has_history: bool,
    /// The slash-command completion list is open.
    pub has_completions: bool,
    /// An older history entry is shown in the input.
    pub browsing_history: bool,
    pub file_completion_active: bool,
    /// The open picker is the model picker.
    pub picker_is_model: bool,
    /// A first Ctrl+C came less than 800 ms ago.
    pub ctrl_c_recent: bool,
    /// A first Esc came less than 800 ms ago.
    pub esc_recent: bool,
}

/// What a key press does.
#[derive(Debug, Clone, Copy, PartialEq, Eq, Structural)]
pub enum KeyAction {
    Nothing,
    CancelStream,
    ClosePicker,
    ExitHistorySearch,
    Quit,
    /// A first Ctrl+C: remember it, and clear the input (or say how to exit).
    WarnCtrlC,
    ResetScroll,
    OpenHistorySearch,
    OpenModelPicker,
    ToggleThinking,
    ToggleFastMode,
    OpenHelpPicker,
    OpenEditor,
    StashPrompt,
    PickerUp,
    PickerDown,
    CycleEffort(i32),
    PickerSelect,
    AcceptHistorySearch,
    SearchInsert(char),
    SearchBackspace,
    PermissionUp,
    PermissionDown,
    PermissionSelect,
    Respond(PermissionResponse),
    Submit,
    InsertChar(char),
    ClearCompletions,
    LeaveHistory,
    ClearInput,
    /// A first Esc: remember it (and say a second one clears the input).
    WarnEsc,
    CompleteSlash,
    CompleteFile,
    HistoryUp,
    HistoryDown,
    PageUp,
    PageDown,
    ScrollTop,
    ScrollBottom,
    CyclePermissionMode,
    CursorHome,
    CursorEnd,
    DeleteToEnd,
    DeleteToStart,
    DeleteWordBackward,
    Backspace,
    Delete,
    CursorLeft,
    CursorRight,
}

pub open spec fn no_mods(m: Modifiers) -> bool {
    !m.shift && !m.control && !m.alt && !m.other
}

pub open spec fn ctrl_only(m: Modifiers) -> bool {
    !m.shift && m.control && !m.alt && !m.other
}

pub open spec fn alt_only(m: Modifiers) -> bool {
    !m.shift && !m.control && m.alt && !m.other
}

pub open spec fn shift_only(m: Modifiers) -> bool {
    m.shift && !m.control && !m.alt && !m.other
}

pub open spec fn is_char(k: Key, c: char) -> bool {
    k.code == KeyCode::Char(c)
}

/// The shortcuts that work in every mode, if the key is one of them.
pub open spec fn global_action(ctx: KeyContext, k: Key) -> Option<KeyAction> {
    let m = k.modifiers;
    let normal = ctx.mode == InputMode::Normal;
    if ctrl_only(m) && is_char(k, 'c') {
        Some(
            if ctx.mode == InputMode::Streaming {
                KeyAction::CancelStream
            } else if ctx.mode == InputMode::Picker {
                KeyAction::ClosePicker
            } else if ctx.mode == InputMode::HistorySearch {
                KeyAction::ExitHistorySearch
            } else if ctx.ctrl_c_recent {
                KeyAction::Quit
            } else {
                KeyAction::WarnCtrlC
            },
        )
    } else if ctrl_only(m) && is_char(k, 'd') {
        Some(KeyAction::Quit)
    } else if ctrl_only(m) && is_char(k, 'l') {
        Some(KeyAction::ResetScroll)
    } else if ctrl_only(m) && is_char(k, 'r') {
        Some(
            if ctx.has_history && normal {
                KeyAction::OpenHistorySearch
            } else {
                KeyAction::Nothing
            },
        )
    } else if alt_only(m) && is_char(k, 'p') {
        Some(if normal { KeyAction::OpenModelPicker } else { KeyAction::Nothing })
    } else if alt_only(m) && is_char(k, 't') {
        Some(if normal { KeyAction::ToggleThinking } else { KeyAction::Nothing })
    } else if alt_only(m) && is_char(k, 'o') {
        Some(if normal { KeyAction::ToggleFastMode } else { KeyAction::Nothing })
    } else if (ctrl_only(m) || shift_only(m)) && is_char(k, 'p') {
        Some(if normal { KeyAction::OpenHelpPicker } else { KeyAction::Nothing })
    } else if (ctrl_only(m) || shift_only(m)) && is_char(k, 'f') {
        Some(if normal { KeyAction::OpenHistorySearch } else { KeyAction::Nothing })
    } else if ctrl_only(m) && is_char(k, 'g') {
        Some(if normal { KeyAction::OpenEditor } else { KeyAction::Nothing })
    } else if ctrl_only(m) && is_char(k, 's') {
        Some(
            if normal && !ctx.buffer_empty {
                KeyAction::StashPrompt
            } else {
                KeyAction::Nothing
            },
        )
    } else {
        None
    }
}

/// A key in a picker.
pub open spec fn picker_action(ctx: KeyContext, k: Key) -> KeyAction {
    let m = k.modifiers;
    if k.code == KeyCode::Esc {
        KeyAction::ClosePicker
    } else if k.code == KeyCode::Up || (ctrl_only(m) && is_char(k, 'p')) {
        KeyAction::PickerUp
    } else if k.code == KeyCode::Down || (ctrl_only(m) && is_char(k, 'n')) {
        KeyAction::PickerDown
    } else if k.code == KeyCode::Left {
        if ctx.picker_is_model {
            KeyAction::CycleEffort(-1i32)
        } else {
            KeyAction::Nothing
        }
    } else if k.code == KeyCode::Right {
        if ctx.picker_is_model {
            KeyAction::CycleEffort(1i32)
        } else {
            KeyAction::Nothing
        }
    } else if k.code == KeyCode::Enter {
        KeyAction::PickerSelect
    } else {
        KeyAction::Nothing
    }
}

/// A key while searching the history.
pub open spec fn search_action(k: Key) -> KeyAction {
    let m = k.modifiers;
    if k.code == KeyCode::Esc || (ctrl_only(m) && is_char(k, 'c')) {
        KeyAction::ExitHistorySearch
    } else if k.code == KeyCode::Enter {
        KeyAction::AcceptHistorySearch
    } else if k.code is Char {
        KeyAction::SearchInsert(k.code->Char_0)
    } else if no_mods(m) && k.code == KeyCode::Backspace {
        KeyAction::SearchBackspace
    } else {
        KeyAction::Nothing
    }
}

/// A key while a permission is asked for.
pub open spec fn permission_action(k: Key) -> KeyAction {
    let m = k.modifiers;
    if k.code == KeyCode::Up || (ctrl_only(m) && is_char(k, 'p')) {
        KeyAction::PermissionUp
    } else if k.code == KeyCode::Down || (ctrl_only(m) && is_char(k, 'n')) {
        KeyAction::PermissionDown
    } else if k.code == KeyCode::Enter {
        KeyAction::PermissionSelect
    } else if k.code == KeyCode::Esc {
        KeyAction::Respond(PermissionResponse::Deny)
    } else if is_char(k, 'y') || is_char(k, 'Y') {
        KeyAction::Respond(PermissionResponse::Allow)
    } else if is_char(k, 'n') || is_char(k, 'N') {
        KeyAction::Respond(PermissionResponse::Deny)
    } else if is_char(k, 'a') || is_char(k, 'A') {
        KeyAction::Respond(PermissionResponse::AlwaysAllow)
    } else {
        KeyAction::Nothing
    }
}

/// A key while editing the input.
pub open spec fn normal_action(ctx: KeyContext, k: Key) -> KeyAction {
    let m = k.modifiers;
    let c = k.code;
    if (no_mods(m) || shift_only(m)) && c == KeyCode::Enter {
        KeyAction::Submit
    } else if alt_only(m) && c == KeyCode::Enter {
        KeyAction::InsertChar('\n')
    } else if no_mods(m) && c == KeyCode::Esc {
        if ctx.has_completions {
            KeyAction::ClearCompletions
        } else if ctx.browsing_history {
            KeyAction::LeaveHistory
        } else if ctx.esc_recent {
            KeyAction::ClearInput
        } else {
            KeyAction::WarnEsc
        }
    } else if no_mods(m) && c == KeyCode::Tab {
        if ctx.buffer_starts_with_slash {
            KeyAction::CompleteSlash
        } else if ctx.file_completion_active {
            KeyAction::CompleteFile
        } else {
            KeyAction::Nothing
        }
    } else if no_mods(m) && c == KeyCode::Up {
        KeyAction::HistoryUp
    } else if no_mods(m) && c == KeyCode::Down {
        KeyAction::HistoryDown
    } else if no_mods(m) && c == KeyCode::PageUp {
        KeyAction::PageUp
    } else if no_mods(m) && c == KeyCode::PageDown {
        KeyAction::PageDown
    } else if ctrl_only(m) && c == KeyCode::Home {
        KeyAction::ScrollTop
    } else if ctrl_only(m) && c == KeyCode::End {
        KeyAction::ScrollBottom
    } else if shift_only(m) && c == KeyCode::Tab {
        KeyAction::CyclePermissionMode
    } else if ctrl_only(m) && is_char(k, 'a') {
        KeyAction::CursorHome
    } else if ctrl_only(m) && is_char(k, 'e') {
        KeyAction::CursorEnd
    } else if ctrl_only(m) && is_char(k, 'k') {
        KeyAction::DeleteToEnd
    } else if ctrl_only(m) && is_char(k, 'u') {
        KeyAction::DeleteToStart
    } else if ctrl_only(m) && is_char(k, 'w') {
        KeyAction::DeleteWordBackward
    } else if c is Char {
        KeyAction::InsertChar(c->Char_0)
    } else if no_mods(m) && c == KeyCode::Backspace {
        KeyAction::Backspace
    } else if no_mods(m) && c == KeyCode::Delete {
        KeyAction::Delete
    } else if no_mods(m) && c == KeyCode::Left {
        KeyAction::CursorLeft
    } else if no_mods(m) && c == KeyCode::Right {
        KeyAction::CursorRight
    } else if no_mods(m) && c == KeyCode::Home {
        KeyAction::CursorHome
    } else if no_mods(m) && c == KeyCode::End {
        KeyAction::CursorEnd
    } else {
        KeyAction::Nothing
    }
}

/// What a key press does: a shortcut that works everywhere, else what the
/// current mode makes of it (nothing while a reply streams).
pub open spec fn key_action(ctx: KeyContext, k: Key) -> KeyAction {
    match global_action(ctx, k) {
        Some(a) => a,
        None => if ctx.mode == InputMode::Picker {
            picker_action(ctx, k)
        } else if ctx.mode == InputMode::HistorySearch {
            search_action(k)
        } else if ctx.mode == InputMode::PermissionPrompt {
            permission_action(k)
        } else if ctx.mode == InputMode::Streaming {
            KeyAction::Nothing
        } else {
            normal_action(ctx, k)
        },
    }
}


// ---------------------------------------------------------------------------
// Deciding
// ---------------------------------------------------------------------------

fn none_held(m: Modifiers) -> (b: bool)
    ensures
        b == no_mods(m),
{
    !m.shift && !m.control && !m.alt && !m.other
}

fn ctrl_held(m: Modifiers) -> (b: bool)
    ensures
        b == ctrl_only(m),
{
    !m.shift && m.control && !m.alt && !m.other
}

fn alt_held(m: Modifiers) -> (b: bool)
    ensures
        b == alt_only(m),
{
    !m.shift && !m.control && m.alt && !m.other
}

fn shift_held(m: Modifiers) -> (b: bool)
    ensures
        b == shift_only(m),
{
    m.shift && !m.control && !m.alt && !m.other
}

fn global_key(ctx: &KeyContext, k: &Key) -> (r: Option<KeyAction>)
    ensures
        r == global_action(*ctx, *k),
{
    let m = k.modifiers;
    let normal = ctx.mode == InputMode::Normal;
    let ctrl = ctrl_held(m);
    let alt = alt_held(m);
    let shift = shift_held(m);
    if ctrl && k.code == KeyCode::Char('c') {
        Some(
            if ctx.mode == InputMode::Streaming {
                KeyAction::CancelStream
            } else if ctx.mode == InputMode::Picker {
                KeyAction::ClosePicker
            } else if ctx.mode == InputMode::HistorySearch {
                KeyAction::ExitHistorySearch
            } else if ctx.ctrl_c_recent {
                KeyAction::Quit
            } else {
                KeyAction::WarnCtrlC
            },
        )
    } else if ctrl && k.code == KeyCode::Char('d') {
        Some(KeyAction::Quit)
    } else if ctrl && k.code == KeyCode::Char('l') {
        Some(KeyAction::ResetScroll)
    } else if ctrl && k.code == KeyCode::Char('r') {
        Some(
            if ctx.has_history && normal {
                KeyAction::OpenHistorySearch
            } else {
                KeyAction::Nothing
            },
        )
    } else if alt && k.code == KeyCode::Char('p') {
        Some(if normal { KeyAction::OpenModelPicker } else { KeyAction::Nothing })
    } else if alt && k.code == KeyCode::Char('t') {
        Some(if normal { KeyAction::ToggleThinking } else { KeyAction::Nothing })
    } else if alt && k.code == KeyCode::Char('o') {
        Some(if normal { KeyAction::ToggleFastMode } else { KeyAction::Nothing })
    } else if (ctrl || shift) && k.code == KeyCode::Char('p') {
        Some(if normal { KeyAction::OpenHelpPicker } else { KeyAction::Nothing })
    } else if (ctrl || shift) && k.code == KeyCode::Char('f') {
        Some(if normal { KeyAction::OpenHistorySearch } else { KeyAction::Nothing })
    } else if ctrl && k.code == KeyCode::Char('g') {
        Some(if normal { KeyAction::OpenEditor } else { KeyAction::Nothing })
    } else if ctrl && k.code == KeyCode::Char('s') {
        Some(
            if normal && !ctx.buffer_empty {
                KeyAction::StashPrompt
            } else {
                KeyAction::Nothing
            },
        )
    } else {
        None
    }
}

fn picker_key(ctx: &KeyContext, k: &Key) -> (r: KeyAction)
    ensures
        r == picker_action(*ctx, *k),
{
    let ctrl = ctrl_held(k.modifiers);
    if k.code == KeyCode::Esc {
        KeyAction::ClosePicker
    } else if k.code == KeyCode::Up || (ctrl && k.code == KeyCode::Char('p')) {
        KeyAction::PickerUp
    } else if k.code == KeyCode::Down || (ctrl && k.code == KeyCode::Char('n')) {
        KeyAction::PickerDown
    } else if k.code == KeyCode::Left {
        if ctx.picker_is_model {
            KeyAction::CycleEffort(-1)
        } else {
            KeyAction::Nothing
        }
    } else if k.code == KeyCode::Right {
        if ctx.picker_is_model {
            KeyAction::CycleEffort(1)
        } else {
            KeyAction::Nothing
        }
    } else if k.code == KeyCode::Enter {
        KeyAction::PickerSelect
    } else {
        KeyAction::Nothing
    }
}

fn search_key(k: &Key) -> (r: KeyAction)
    ensures
        r == search_action(*k),
{
    let ctrl = ctrl_held(k.modifiers);
    if k.code == KeyCode::Esc || (ctrl && k.code == KeyCode::Char('c')) {
        KeyAction::ExitHistorySearch
    } else if k.code == KeyCode::Enter {
        KeyAction::AcceptHistorySearch
    } else {
        match k.code {
            KeyCode::Char(c) => KeyAction::SearchInsert(c),
            _ => if none_held(k.modifiers) && k.code == KeyCode::Backspace {
                KeyAction::SearchBackspace
            } else {
                KeyAction::Nothing
            },
        }
    }
}

fn permission_key(k: &Key) -> (r: KeyAction)
    ensures
        r == permission_action(*k),
{
    let ctrl = ctrl_held(k.modifiers);
    let c = k.code;
    if c == KeyCode::Up || (ctrl && c == KeyCode::Char('p')) {
        KeyAction::PermissionUp
    } else if c == KeyCode::Down || (ctrl && c == KeyCode::Char('n')) {
        KeyAction::PermissionDown
    } else if c == KeyCode::Enter {
        KeyAction::PermissionSelect
    } else if c == KeyCode::Esc {
        KeyAction::Respond(PermissionResponse::Deny)
    } else if c == KeyCode::Char('y') || c == KeyCode::Char('Y') {
        KeyAction::Respond(PermissionResponse::Allow)
    } else if c == KeyCode::Char('n') || c == KeyCode::Char('N') {
        KeyAction::Respond(PermissionResponse::Deny)
    } else if c == KeyCode::Char('a') || c == KeyCode::Char('A') {
        KeyAction::Respond(PermissionResponse::AlwaysAllow)
    } else {
        KeyAction::Nothing
    }
}

fn normal_key(ctx: &KeyContext, k: &Key) -> (r: KeyAction)
    ensures
        r == normal_action(*ctx, *k),
{
    let m = k.modifiers;
    let c = k.code;
    let none = none_held(m);
    let ctrl = ctrl_held(m);
    let alt = alt_held(m);
    let shift = shift_held(m);
    if (none || shift) && c == KeyCode::Enter {
        KeyAction::Submit
    } else if alt && c == KeyCode::Enter {
        KeyAction::InsertChar('\n')
    } else if none && c == KeyCode::Esc {
        if ctx.has_completions {
            KeyAction::ClearCompletions
        } else if ctx.browsing_history {
            KeyAction::LeaveHistory
        } else if ctx.esc_recent {
            KeyAction::ClearInput
        } else {
            KeyAction::WarnEsc
        }
    } else if none && c == KeyCode::Tab {
        if ctx.buffer_starts_with_slash {
            KeyAction::CompleteSlash
        } else if ctx.file_completion_active {
            KeyAction::CompleteFile
        } else {
            KeyAction::Nothing
        }
    } else if none && c == KeyCode::Up {
        KeyAction::HistoryUp
    } else if none && c == KeyCode::Down {
        KeyAction::HistoryDown
    } else if none && c == KeyCode::PageUp {
        KeyAction::PageUp
    } else if none && c == KeyCode::PageDown {
        KeyAction::PageDown
    } else if ctrl && c == KeyCode::Home {
        KeyAction::ScrollTop
    } else if ctrl && c == KeyCode::End {
        KeyAction::ScrollBottom
    } else if shift && c == KeyCode::Tab {
        KeyAction::CyclePermissionMode
    } else if ctrl && c == KeyCode::Char('a') {
        KeyAction::CursorHome
    } else if ctrl && c == KeyCode::Char('e') {
        KeyAction::CursorEnd
    } else if ctrl && c == KeyCode::Char('k') {
        KeyAction::DeleteToEnd
    } else if ctrl && c == KeyCode::Char('u') {
        KeyAction::DeleteToStart
    } else if ctrl && c == KeyCode::Char('w') {
        KeyAction::DeleteWordBackward
    } else {
        match c {
            KeyCode::Char(ch) => KeyAction::InsertChar(ch),
            _ => if none && c == KeyCode::Backspace {
                KeyAction::Backspace
            } else if none && c == KeyCode::Delete {
                KeyAction::Delete
            } else if none && c == KeyCode::Left {
                KeyAction::CursorLeft
            } else if none && c == KeyCode::Right {
                KeyAction::CursorRight
            } else if none && c == KeyCode::Home {
                KeyAction::CursorHome
            } else if none && c == KeyCode::End {
                KeyAction::CursorEnd
            } else {
                KeyAction::Nothing
            },
        }
    }
}

/// Decides what a key press does in the given state (see `key_action`).
pub fn handle_key(ctx: &KeyContext, key: &Key) -> (r: KeyAction)
    ensures
        r == key_action(*ctx, *key),
{
    match global_key(ctx, key) {
        Some(a) => a,
        None => if ctx.mode == InputMode::Picker {
            picker_key(ctx, key)
        } else if ctx.mode == InputMode::HistorySearch {
            search_key(key)
        } else if ctx.mode == InputMode::PermissionPrompt {
            permission_key(key)
        } else if ctx.mode == InputMode::Streaming {
            KeyAction::Nothing
        } else {
            normal_key(ctx, key)
        },
    }
}

// ---------------------------------------------------------------------------
// Laws
// ---------------------------------------------------------------------------

/// While a reply streams, no key edits the input or submits: a key either
/// cancels the stream, quits, resets the scroll, or does nothing.
pub proof fn law_streaming_keys_do_not_edit(ctx: KeyContext, k: Key)
    requires
        ctx.mode == InputMode::Streaming,
    ensures
        key_action(ctx, k) == KeyAction::CancelStream || key_action(ctx, k) == KeyAction::Quit || key_action(ctx, k)
            == KeyAction::ResetScroll || key_action(ctx, k) == KeyAction::Nothing,
{
}

/// Ctrl+C at the prompt exits only when pressed twice in quick succession:
/// the first press warns, a second one within the window quits.
pub proof fn law_ctrl_c_twice_quits(ctx: KeyContext)
    requires
        ctx.mode == InputMode::Normal,
    ensures
        ({
            let k = Key {
                code: KeyCode::Char('c'),
                modifiers: Modifiers { shift: false, control: true, alt: false, other: false },
            };
            key_action(ctx, k) == if ctx.ctrl_c_recent {
                KeyAction::Quit
            } else {
                KeyAction::WarnCtrlC
            }
        }),
{
}

} // verus!
