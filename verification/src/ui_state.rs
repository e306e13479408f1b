use vstd::prelude::*;

use std::time::Instant;

use crate::tasks::{decimal, decimal_string};
use crate::permissions::{field_from, pattern_view, PermissionResponse, ToolInput};
use crate::text::{
    chars_of, contains, copy_str, find, find_from_exec, push_str, str_contains, str_eq, string_from_range,
    sub_vec, string_from, to_lowercase, unicode_lowercase,
};

verus! {

// ---------------------------------------------------------------------------
// Display model
// ---------------------------------------------------------------------------

/// A segment of rendered assistant response.
pub enum RenderSegment {
    Text(String),
}

/// A single conversation message for display.
pub enum DisplayMessage {
    User { text: String },
    Assistant { segments: Vec<RenderSegment> },
    ToolCall { name: String, activity: String, is_error: bool, summary: String },
    Error { text: String },
    Status { text: String },
}

/// Input mode determines how key events are handled.
#[derive(Debug, Clone, Copy, PartialEq, Eq, Structural)]
pub enum InputMode {
    Normal,
    Streaming,
    PermissionPrompt,
    Picker,
    HistorySearch,
}

// ---------------------------------------------------------------------------
// Pickers
// ---------------------------------------------------------------------------

/// A single item in a picker list.
pub struct PickerItem {
    pub label: String,
    pub description: String,
    pub value: String,
}

/// Which picker is currently active (a resume picker lists session ids).
pub enum PickerSource {
    Model,
    Theme,
    Help,
    Resume(Vec<String>),
    Permissions,
    Effort,
    Skills(Vec<String>),
    Config,
    ConfigSub(String),
}

/// State for an active picker/list selection overlay.
pub struct PickerState {
    pub title: String,
    pub items: Vec<PickerItem>,
    pub selected: usize,
    pub scroll_offset: usize,
    pub source: PickerSource,
    pub visible_count: usize,
}

impl PickerState {
    /// The selection is on the visible window of rows.
    pub open spec fn wf(&self) -> bool {
        self.visible_count > 0 ==> self.scroll_offset <= self.selected < self.scroll_offset
            + self.visible_count
    }

    /// A picker on its first item, showing up to ten rows.
    pub fn new(title: String, items: Vec<PickerItem>, source: PickerSource) -> (p: Self)
        ensures
            p.title@ == title@,
            p.items@ == items@,
            p.selected == 0,
            p.scroll_offset == 0,
            p.visible_count == if items@.len() < 10 {
                items@.len()
            } else {
                10
            },
            p.wf(),
    {
        let visible_count = if items.len() < 10 {
            items.len()
        } else {
            10
        };
        PickerState { title, items, selected: 0, scroll_offset: 0, source, visible_count }
    }

    /// Moves the selection up one row, scrolling to keep it visible.
    pub fn move_up(&mut self)
        ensures
            final(self).items == old(self).items,
            final(self).visible_count == old(self).visible_count,
            final(self).selected == if old(self).selected > 0 {
                old(self).selected - 1
            } else {
                old(self).selected as int
            },
            final(self).scroll_offset == if old(self).selected > 0 && old(self).selected - 1
                < old(self).scroll_offset {
                old(self).selected - 1
            } else {
                old(self).scroll_offset as int
            },
            old(self).wf() ==> final(self).wf(),
    {
        if self.selected > 0 {
            self.selected = self.selected - 1;
            if self.selected < self.scroll_offset {
                self.scroll_offset = self.selected;
            }
        }
    }

    /// Moves the selection down one row, scrolling to keep it visible.
    pub fn move_down(&mut self)
        ensures
            final(self).items == old(self).items,
            final(self).visible_count == old(self).visible_count,
            final(self).selected == if old(self).selected + 1 < old(self).items.len() {
                old(self).selected + 1
            } else {
                old(self).selected as int
            },
            final(self).scroll_offset == if old(self).selected + 1 < old(self).items.len()
                && old(self).selected + 1 >= old(self).scroll_offset + old(self).visible_count {
                old(self).selected + 2 - old(self).visible_count
            } else {
                old(self).scroll_offset as int
            },
            old(self).wf() ==> final(self).wf(),
    {
        if self.items.len() > 0 && self.selected < self.items.len() - 1 {
            self.selected = self.selected + 1;
            if self.selected >= self.scroll_offset && self.selected - self.scroll_offset >= self.visible_count {
                self.scroll_offset = self.selected - self.visible_count + 1;
            }
        }
    }

    /// The selected item, if the selection is on an item.
    pub fn selected_item(&self) -> (r: Option<&PickerItem>)
        ensures
            self.selected < self.items.len() ==> r == Some(&self.items@[self.selected as int]),
            self.selected >= self.items.len() ==> r is None,
    {
        if self.selected < self.items.len() {
            Some(&self.items[self.selected])
        } else {
            None
        }
    }
}

// ---------------------------------------------------------------------------
// The spinner
// ---------------------------------------------------------------------------

#[verifier::external_type_specification]
#[verifier::external_body]
pub struct ExInstant(std::time::Instant);

/// `Instant::elapsed` in whole seconds (`Duration::as_secs`): what the
/// clock says, about which nothing is stated.
#[verifier::external_body]
fn whole_secs_since(t: &Instant) -> u64 {
    t.elapsed().as_secs()
}

/// Verbs shown during the spinner.
pub open spec fn spinner_verbs() -> Seq<Seq<char>> {
    seq![
        "Thinking"@,
        "Processing"@,
        "Analyzing"@,
        "Computing"@,
        "Working"@,
        "Reasoning"@,
        "Planning"@,
        "Searching"@,
        "Reading"@,
        "Writing"@,
    ]
}

fn spinner_verb(i: usize) -> (r: &'static str)
    requires
        i < 10,
    ensures
        r@ == spinner_verbs()[i as int],
{
    match i {
        0 => "Thinking",
        1 => "Processing",
        2 => "Analyzing",
        3 => "Computing",
        4 => "Working",
        5 => "Reasoning",
        6 => "Planning",
        7 => "Searching",
        8 => "Reading",
        _ => "Writing",
    }
}

/// The spinner's text: the verb (chosen by index, cycling) and `...`, with
/// the elapsed seconds after thirty of them.
pub open spec fn spinner_text(verb_index: int, elapsed: int) -> Seq<char> {
    let verb = spinner_verbs()[verb_index % 10];
    if elapsed >= 30 {
        verb + "... ("@ + decimal(elapsed as nat) + "s)"@
    } else {
        verb + "..."@
    }
}

/// The spinner's text for a verb index and elapsed seconds.
pub fn spinner_message(verb_index: usize, elapsed: u64) -> (r: String)
    ensures
        r@ == spinner_text(verb_index as int, elapsed as int),
{
    let mut r = copy_str(spinner_verb(verb_index % 10));
    if elapsed >= 30 {
        push_str(&mut r, "... (");
        let n = decimal_string(elapsed);
        push_str(&mut r, n.as_str());
        push_str(&mut r, "s)");
    } else {
        push_str(&mut r, "...");
    }
    r
}

/// Spinner animation state.
pub struct SpinnerState {
    pub frame: usize,
    pub message: String,
    pub active: bool,
    pub started_at: Option<Instant>,
    pub verb_index: usize,
}

impl SpinnerState {
    /// Seconds since the spinner started (0 when it has not).
    pub fn elapsed_secs(&self) -> (r: u64)
        ensures
            self.started_at is None ==> r == 0,
    {
        match &self.started_at {
            Some(t) => whole_secs_since(t),
            None => 0,
        }
    }

    /// Get the display message with verb and elapsed time (after 30s).
    pub fn display_message(&self) -> (r: String)
        ensures
            exists|e: u64|
                #![trigger spinner_text(self.verb_index as int, e as int)]
                (self.started_at is None ==> e == 0) && r@ == spinner_text(
                    self.verb_index as int,
                    e as int,
                ),
    {
        let e = self.elapsed_secs();
        spinner_message(self.verb_index, e)
    }
}

// ---------------------------------------------------------------------------
// Small display helpers
// ---------------------------------------------------------------------------

/// A string cut to `max` characters: the first `max - 3` and `...` when it is longer.
pub open spec fn shortened(s: Seq<char>, max: int) -> Seq<char> {
    if s.len() <= max {
        s
    } else {
        s.take(max - 3) + "..."@
    }
}

/// Cuts a string to at most `max_chars` characters, marking the cut with `...`.
pub fn truncate_str(s: &str, max_chars: usize) -> (r: String)
    requires
        s@.len() > max_chars ==> max_chars >= 3,
    ensures
        r@ == shortened(s@, max_chars as int),
{
    let c = chars_of(s);
    if c.len() <= max_chars {
        return copy_str(s);
    }
    let mut r = string_from_range(&c, 0, max_chars - 3);
    push_str(&mut r, "...");
    assert(c@.subrange(0, max_chars - 3) =~= c@.take(max_chars - 3));
    r
}

/// The effort level that a thinking budget stands for.
pub open spec fn effort_of(budget: Option<u64>) -> Seq<char> {
    match budget {
        Some(b) => if b <= 1024 {
            "low"@
        } else if b <= 4096 {
            "medium"@
        } else if b <= 10000 {
            "high"@
        } else {
            "max"@
        },
        None => "medium"@,
    }
}

/// The effort label of a thinking budget (none set is `medium`).
pub fn get_effort_label(budget_tokens: Option<u64>) -> (r: &'static str)
    ensures
        r@ == effort_of(budget_tokens),
{
    match budget_tokens {
        Some(b) => if b <= 1024 {
            "low"
        } else if b <= 4096 {
            "medium"
        } else if b <= 10000 {
            "high"
        } else {
            "max"
        },
        None => "medium",
    }
}

/// The effort level after `current` one step in `direction` (1 forward,
/// -1 back, through low, medium, high, max and round); any other
/// direction keeps it.
pub open spec fn next_effort(current: Seq<char>, direction: i32) -> Seq<char> {
    if direction == 1 {
        if current == "low"@ {
            "medium"@
        } else if current == "medium"@ {
            "high"@
        } else if current == "high"@ {
            "max"@
        } else {
            "low"@
        }
    } else if direction == -1 {
        if current == "low"@ {
            "max"@
        } else if current == "medium"@ {
            "low"@
        } else if current == "high"@ {
            "medium"@
        } else {
            "high"@
        }
    } else {
        current
    }
}

/// The thinking budget an effort level sets.
pub open spec fn effort_budget(label: Seq<char>) -> u64 {
    if label == "low"@ {
        1024
    } else if label == "medium"@ {
        4096
    } else if label == "high"@ {
        10000
    } else {
        32000
    }
}

/// The effort level one step from the one `budget_tokens` stands for, and
/// the thinking budget it sets.
pub fn cycle_effort(budget_tokens: Option<u64>, direction: i32) -> (r: (&'static str, u64))
    ensures
        r.0@ == next_effort(effort_of(budget_tokens), direction),
        r.1 == effort_budget(r.0@),
{
    let current = get_effort_label(budget_tokens);
    let next: &'static str = if direction == 1 {
        if str_eq(current, "low") {
            "medium"
        } else if str_eq(current, "medium") {
            "high"
        } else if str_eq(current, "high") {
            "max"
        } else {
            "low"
        }
    } else if direction == -1 {
        if str_eq(current, "low") {
            "max"
        } else if str_eq(current, "medium") {
            "low"
        } else if str_eq(current, "high") {
            "medium"
        } else {
            "high"
        }
    } else {
        current
    };
    let budget: u64 = if str_eq(next, "low") {
        1024
    } else if str_eq(next, "medium") {
        4096
    } else if str_eq(next, "high") {
        10000
    } else {
        32000
    };
    (next, budget)
}

/// A model description with its effort note replaced: the text before the
/// first ` | effort:`, then ` | effort: ` and the level.
pub open spec fn with_effort(description: Seq<char>, label: Seq<char>) -> Seq<char> {
    let base = match find(description, " | effort:"@) {
        Some(k) => description.take(k),
        None => description,
    };
    base + " | effort: "@ + label
}

/// Replaces the effort note of a model description.
pub fn describe_effort(description: &str, label: &str) -> (r: String)
    ensures
        r@ == with_effort(description@, label@),
{
    let d = chars_of(description);
    let sep = chars_of(" | effort:");
    let mut r = match find_from_exec(&d, &sep, 0) {
        Some(k) => {
            proof {
                crate::text::lemma_find_from(d@, sep@, 0);
            }
            let b = string_from(&sub_vec(&d, 0, k));
            assert(d@.subrange(0, k as int) =~= d@.take(k as int));
            b
        },
        None => copy_str(description),
    };
    push_str(&mut r, " | effort: ");
    push_str(&mut r, label);
    r
}

/// The ANSI escape that selects a named prompt colour (cyan for an unknown name).
pub open spec fn ansi_of(name: Seq<char>) -> Seq<char> {
    if name == "blue"@ {
        "\x1b[34m"@
    } else if name == "green"@ {
        "\x1b[32m"@
    } else if name == "red"@ {
        "\x1b[31m"@
    } else if name == "yellow"@ {
        "\x1b[33m"@
    } else if name == "cyan"@ {
        "\x1b[36m"@
    } else if name == "magenta"@ {
        "\x1b[35m"@
    } else if name == "white"@ {
        "\x1b[37m"@
    } else {
        "\x1b[36m"@
    }
}

/// Maps a colour name to its ANSI escape.
pub fn color_ansi(name: &str) -> (r: &'static str)
    ensures
        r@ == ansi_of(name@),
{
    if str_eq(name, "blue") {
        "\x1b[34m"
    } else if str_eq(name, "green") {
        "\x1b[32m"
    } else if str_eq(name, "red") {
        "\x1b[31m"
    } else if str_eq(name, "yellow") {
        "\x1b[33m"
    } else if str_eq(name, "cyan") {
        "\x1b[36m"
    } else if str_eq(name, "magenta") {
        "\x1b[35m"
    } else if str_eq(name, "white") {
        "\x1b[37m"
    } else {
        "\x1b[36m"
    }
}

/// The activity line shown for a tool call, from the tool's name and the
/// string members of its input.
pub open spec fn activity_of(tool: Seq<char>, fields: Seq<(String, String)>) -> Option<Seq<char>> {
    if tool == "Bash"@ || tool == "BashTool"@ {
        match field_from(fields, "command"@, 0) {
            Some(c) => Some(shortened(c, 80)),
            None => None,
        }
    } else if tool == "Read"@ || tool == "Write"@ || tool == "Edit"@ || tool == "FileReadTool"@ || tool
        == "FileWriteTool"@ || tool == "FileEditTool"@ {
        field_from(fields, "file_path"@, 0)
    } else if tool == "Glob"@ || tool == "GlobTool"@ {
        field_from(fields, "pattern"@, 0)
    } else if tool == "Grep"@ || tool == "GrepTool"@ {
        match field_from(fields, "pattern"@, 0) {
            Some(p) => Some(
                p + " in "@ + match field_from(fields, "path"@, 0) {
                    Some(d) => d,
                    None => "."@,
                },
            ),
            None => None,
        }
    } else if tool == "Agent"@ || tool == "AgentTool"@ {
        field_from(fields, "description"@, 0)
    } else if tool == "WebFetch"@ || tool == "WebFetchTool"@ {
        field_from(fields, "url"@, 0)
    } else if tool == "WebSearch"@ || tool == "WebSearchTool"@ {
        field_from(fields, "query"@, 0)
    } else {
        None
    }
}

/// A human-readable activity for a tool call (its command, path, pattern,
/// ...), or `None` for a tool without one or an input that lacks it.
pub fn tool_activity(tool_name: &str, input: &ToolInput) -> (r: Option<String>)
    ensures
        pattern_view(r) == activity_of(tool_name@, input.string_fields@),
{
    if str_eq(tool_name, "Bash") || str_eq(tool_name, "BashTool") {
        match input.get_str("command") {
            Some(c) => Some(truncate_str(c.as_str(), 80)),
            None => None,
        }
    } else if str_eq(tool_name, "Read") || str_eq(tool_name, "Write") || str_eq(tool_name, "Edit")
        || str_eq(tool_name, "FileReadTool") || str_eq(tool_name, "FileWriteTool") || str_eq(
        tool_name,
        "FileEditTool",
    ) {
        input.get_str("file_path")
    } else if str_eq(tool_name, "Glob") || str_eq(tool_name, "GlobTool") {
        input.get_str("pattern")
    } else if str_eq(tool_name, "Grep") || str_eq(tool_name, "GrepTool") {
        match input.get_str("pattern") {
            Some(p) => {
                let mut s = copy_str(p.as_str());
                push_str(&mut s, " in ");
                match input.get_str("path") {
                    Some(d) => push_str(&mut s, d.as_str()),
                    None => push_str(&mut s, "."),
                }
                Some(s)
            },
            None => None,
        }
    } else if str_eq(tool_name, "Agent") || str_eq(tool_name, "AgentTool") {
        input.get_str("description")
    } else if str_eq(tool_name, "WebFetch") || str_eq(tool_name, "WebFetchTool") {
        input.get_str("url")
    } else if str_eq(tool_name, "WebSearch") || str_eq(tool_name, "WebSearchTool") {
        input.get_str("query")
    } else {
        None
    }
}

/// The history entries a search shows: newest first, at most five; with a
/// query, only those that contain it, both taken in lower case.
pub open spec fn search_hits(history: Seq<String>, query: Seq<char>, n: int) -> Seq<Seq<char>>
    decreases n,
{
    if n <= 0 {
        Seq::empty()
    } else {
        let r = search_hits(history, query, n - 1);
        let e = history[history.len() - n];
        if r.len() < 5 && (query.len() == 0 || contains(unicode_lowercase(e@), query)) {
            r.push(e@)
        } else {
            r
        }
    }
}

/// The history entries that match the search text (see `search_hits`).
pub fn history_search_matches(history: &Vec<String>, buffer: &str) -> (r: Vec<String>)
    ensures
        crate::tasks::str_views(r@) == search_hits(history@, unicode_lowercase(buffer@), history@.len() as int),
{
    let query = to_lowercase(buffer);
    let no_query = chars_of(query.as_str()).len() == 0;
    let mut r: Vec<String> = Vec::new();
    let mut n: usize = 0;
    while n < history.len()
        invariant
            n <= history.len(),
            query@ == unicode_lowercase(buffer@),
            no_query == (query@.len() == 0),
            crate::tasks::str_views(r@) == search_hits(history@, query@, n as int),
            r.len() <= 5,
        decreases history.len() - n,
    {
        let e = &history[history.len() - 1 - n];
        let ghost before = r@;
        if r.len() < 5 {
            let hit = if no_query {
                true
            } else {
                let low = to_lowercase(e.as_str());
                str_contains(low.as_str(), query.as_str())
            };
            if hit {
                r.push(copy_str(e.as_str()));
                assert(crate::tasks::str_views(r@) =~= crate::tasks::str_views(before).push(e@));
            }
        }
        n = n + 1;
    }
    r
}

/// The permission mode after `current` (none set is `default`): default,
/// auto, bypass and round.
pub open spec fn next_permission_mode(current: Option<Seq<char>>) -> Seq<char> {
    let c = match current {
        Some(m) => m,
        None => "default"@,
    };
    if c == "default"@ {
        "auto"@
    } else if c == "auto"@ {
        "bypass"@
    } else {
        "default"@
    }
}

/// The permission mode a toggle moves to.
pub fn cycle_permission_mode(current: Option<&str>) -> (r: &'static str)
    ensures
        r@ == next_permission_mode(
            match current {
                Some(m) => Some(m@),
                None => None,
            },
        ),
{
    let c: &str = match current {
        Some(m) => m,
        None => "default",
    };
    if str_eq(c, "default") {
        "auto"
    } else if str_eq(c, "auto") {
        "bypass"
    } else {
        "default"
    }
}

/// The thinking mode after `current` (none set is `disabled`): disabled,
/// enabled, adaptive and round.
pub open spec fn next_thinking_mode(current: Option<Seq<char>>) -> Seq<char> {
    let c = match current {
        Some(m) => m,
        None => "disabled"@,
    };
    if c == "disabled"@ {
        "enabled"@
    } else if c == "enabled"@ {
        "adaptive"@
    } else {
        "disabled"@
    }
}

/// The thinking mode a toggle moves to.
pub fn cycle_thinking_mode(current: Option<&str>) -> (r: &'static str)
    ensures
        r@ == next_thinking_mode(
            match current {
                Some(m) => Some(m@),
                None => None,
            },
        ),
{
    let c: &str = match current {
        Some(m) => m,
        None => "disabled",
    };
    if str_eq(c, "disabled") {
        "enabled"
    } else if str_eq(c, "enabled") {
        "adaptive"
    } else {
        "disabled"
    }
}

/// The answer chosen in the permission prompt: allow, always allow, or
/// deny (any other option denies).
pub fn permission_choice(selected_option: usize) -> (r: PermissionResponse)
    ensures
        selected_option == 0 ==> r is Allow,
        selected_option == 1 ==> r is AlwaysAllow,
        selected_option >= 2 ==> r is Deny,
{
    if selected_option == 0 {
        PermissionResponse::Allow
    } else if selected_option == 1 {
        PermissionResponse::AlwaysAllow
    } else {
        PermissionResponse::Deny
    }
}

/// What choosing an item of a picker does.
pub enum PickerAction {
    /// No item with a value is selected: the picker just closes.
    Close,
    /// Use this model.
    SetModel(String),
    /// Use this theme.
    SetTheme(String),
    /// The help picker only shows; nothing happens.
    ShowHelp,
    /// Resume the listed session with this id.
    ResumeSession(String),
    /// Use this permission mode.
    SetPermissionMode(String),
    /// Use this effort level, with the thinking budget it sets (none for an
    /// unknown level).
    SetEffort { label: String, budget: Option<u64> },
    /// Run this slash command (a skill).
    RunCommand(String),
    /// Open the settings picker for this setting.
    OpenConfigSub(String),
    /// Use this thinking mode.
    SetThinkingMode(String),
    /// Use this prompt colour.
    SetPromptColor(String),
    /// The choice changes nothing.
    Nothing,
}

/// A picker action as plain values: its kind (the variant's position in
/// `PickerAction`) and its text.
pub open spec fn action_view(a: PickerAction) -> (int, Seq<char>, Option<u64>) {
    match a {
        PickerAction::Close => (0, Seq::empty(), None),
        PickerAction::SetModel(v) => (1, v@, None),
        PickerAction::SetTheme(v) => (2, v@, None),
        PickerAction::ShowHelp => (3, Seq::empty(), None),
        PickerAction::ResumeSession(v) => (4, v@, None),
        PickerAction::SetPermissionMode(v) => (5, v@, None),
        PickerAction::SetEffort { label, budget } => (6, label@, budget),
        PickerAction::RunCommand(v) => (7, v@, None),
        PickerAction::OpenConfigSub(v) => (8, v@, None),
        PickerAction::SetThinkingMode(v) => (9, v@, None),
        PickerAction::SetPromptColor(v) => (10, v@, None),
        PickerAction::Nothing => (11, Seq::empty(), None),
    }
}

/// The thinking budget an effort level names, if it names one.
pub open spec fn effort_level_budget(label: Seq<char>) -> Option<u64> {
    if label == "low"@ {
        Some(1024)
    } else if label == "medium"@ {
        Some(4096)
    } else if label == "high"@ {
        Some(10000)
    } else if label == "max"@ {
        Some(32000)
    } else {
        None
    }
}

/// What choosing the value `v` in a picker of the given source does.
pub open spec fn picker_choice(source: PickerSource, v: Seq<char>) -> (int, Seq<char>, Option<u64>) {
    match source {
        PickerSource::Model => (1, v, None),
        PickerSource::Theme => (2, v, None),
        PickerSource::Help => (3, Seq::empty(), None),
        PickerSource::Resume(ids) => if exists|i: int| 0 <= i < ids@.len() && (#[trigger] ids@[i])@ == v {
            (4, v, None)
        } else {
            (11, Seq::empty(), None)
        },
        PickerSource::Permissions => if v == "default"@ || v == "auto"@ || v == "bypass"@ {
            (5, v, None)
        } else {
            (11, Seq::empty(), None)
        },
        PickerSource::Effort => (6, v, effort_level_budget(v)),
        PickerSource::Skills(_) => (7, seq!['/'] + v, None),
        PickerSource::Config => (8, v, None),
        PickerSource::ConfigSub(setting) => if setting@ == "thinking"@ {
            (9, v, None)
        } else if setting@ == "color"@ {
            (10, v, None)
        } else {
            (11, Seq::empty(), None)
        },
    }
}

impl PickerState {
    /// What choosing the selected item does: nothing but closing when no
    /// item with a value is selected, else what the picker's source makes of
    /// the item's value.
    pub fn chosen_action(&self) -> (r: PickerAction)
        ensures
            action_view(r) == match if self.selected < self.items.len() {
                Some(self.items@[self.selected as int])
            } else {
                None::<PickerItem>
            } {
                Some(item) => if item.value@.len() > 0 {
                    picker_choice(self.source, item.value@)
                } else {
                    (0, Seq::empty(), None)
                },
                None => (0, Seq::empty(), None),
            },
    {
        let item = match self.selected_item() {
            Some(item) => item,
            None => {
                return PickerAction::Close;
            },
        };
        if chars_of(item.value.as_str()).len() == 0 {
            return PickerAction::Close;
        }
        let v = copy_str(item.value.as_str());
        match &self.source {
            PickerSource::Model => PickerAction::SetModel(v),
            PickerSource::Theme => PickerAction::SetTheme(v),
            PickerSource::Help => PickerAction::ShowHelp,
            PickerSource::Resume(ids) => {
                let mut i: usize = 0;
                while i < ids.len()
                    invariant
                        i <= ids.len(),
                        v@ == item.value@,
                        self.selected < self.items.len(),
                        self.items@[self.selected as int].value@ == v@,
                        v@.len() > 0,
                        self.source == PickerSource::Resume(*ids),
                        forall|k: int| 0 <= k < i ==> (#[trigger] ids@[k])@ != v@,
                    decreases ids.len() - i,
                {
                    if str_eq(ids[i].as_str(), v.as_str()) {
                        assert(self.source->Resume_0 == *ids);
                        assert(self.source->Resume_0@[i as int]@ == v@);
                        assert(picker_choice(self.source, v@) == (4int, v@, None::<u64>));
                        return PickerAction::ResumeSession(v);
                    }
                    i = i + 1;
                }
                PickerAction::Nothing
            },
            PickerSource::Permissions => {
                if str_eq(v.as_str(), "default") || str_eq(v.as_str(), "auto") || str_eq(v.as_str(), "bypass") {
                    PickerAction::SetPermissionMode(v)
                } else {
                    PickerAction::Nothing
                }
            },
            PickerSource::Effort => {
                let budget: Option<u64> = if str_eq(v.as_str(), "low") {
                    Some(1024)
                } else if str_eq(v.as_str(), "medium") {
                    Some(4096)
                } else if str_eq(v.as_str(), "high") {
                    Some(10000)
                } else if str_eq(v.as_str(), "max") {
                    Some(32000)
                } else {
                    None
                };
                PickerAction::SetEffort { label: v, budget }
            },
            PickerSource::Skills(_) => {
                let mut c = String::new();
                crate::text::push_char(&mut c, '/');
                push_str(&mut c, v.as_str());
                PickerAction::RunCommand(c)
            },
            PickerSource::Config => PickerAction::OpenConfigSub(v),
            PickerSource::ConfigSub(setting) => {
                if str_eq(setting.as_str(), "thinking") {
                    PickerAction::SetThinkingMode(v)
                } else if str_eq(setting.as_str(), "color") {
                    PickerAction::SetPromptColor(v)
                } else {
                    PickerAction::Nothing
                }
            },
        }
    }
}

// ---------------------------------------------------------------------------
// Command outcomes and output formats
// ---------------------------------------------------------------------------

/// Result of handling a slash command.
pub enum CommandResult {
    /// Continue the REPL normally.
    Continue,
    /// Exit the REPL.
    Exit,
    /// Inject a message as if the user typed it (used for skill invocation).
    InjectMessage(String),
    /// Toggle vim mode in the editor.
    ToggleVim,
}

/// Output format for rendered events.
#[derive(Debug, Clone, Copy, PartialEq, Eq, Structural)]
pub enum OutputFormat {
    Text,
    Json,
    StreamJson,
}

impl Default for OutputFormat {
    fn default() -> (r: Self)
        ensures
            r == OutputFormat::Text,
    {
        OutputFormat::Text
    }
}

} // verus!
