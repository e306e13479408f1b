use vstd::prelude::*;

use crate::json::{bool_text, count_text, json_quote, object_from, object_text, pair_views, quoted};
use crate::tasks::decimal;
use crate::text::{chars_of, copy_str, starts_with, str_eq, string_from, trim, trim_vec};

verus! {

/// Events that can trigger hooks. A tool input is carried as its JSON text.
pub enum HookEvent {
    PreToolUse {
        session_id: String,
        tool_name: String,
        tool_input: String,
    },
    PostToolUse {
        session_id: String,
        tool_name: String,
        tool_input: String,
        tool_result: String,
        is_error: bool,
    },
    UserPromptSubmit {
        session_id: String,
        prompt: String,
    },
    SessionStart {
        session_id: String,
        cwd: String,
        model: String,
    },
    PreCompact {
        session_id: String,
        message_count: usize,
    },
    PostCompact {
        session_id: String,
        messages_before: usize,
        messages_after: usize,
    },
    Stop {
        session_id: String,
    },
    PostToolUseFailure {
        session_id: String,
        tool_name: String,
        error: String,
    },
    SessionEnd {
        session_id: String,
        message_count: usize,
    },
    SubagentStart {
        session_id: String,
        description: String,
    },
    SubagentStop {
        session_id: String,
    },
    PermissionRequest {
        session_id: String,
        tool_name: String,
    },
    FileChanged {
        session_id: String,
        path: String,
        change_type: String,
    },
    TaskCreated {
        session_id: String,
        task_id: String,
        subject: String,
    },
    TaskCompleted {
        session_id: String,
        task_id: String,
    },
}

/// The name under which hooks for an event are configured.
pub open spec fn event_name_of(e: HookEvent) -> Seq<char> {
    match e {
        HookEvent::PreToolUse { .. } => "PreToolUse"@,
        HookEvent::PostToolUse { .. } => "PostToolUse"@,
        HookEvent::UserPromptSubmit { .. } => "UserPromptSubmit"@,
        HookEvent::SessionStart { .. } => "SessionStart"@,
        HookEvent::PreCompact { .. } => "PreCompact"@,
        HookEvent::PostCompact { .. } => "PostCompact"@,
        HookEvent::Stop { .. } => "Stop"@,
        HookEvent::PostToolUseFailure { .. } => "PostToolUseFailure"@,
        HookEvent::SessionEnd { .. } => "SessionEnd"@,
        HookEvent::SubagentStart { .. } => "SubagentStart"@,
        HookEvent::SubagentStop { .. } => "SubagentStop"@,
        HookEvent::PermissionRequest { .. } => "PermissionRequest"@,
        HookEvent::FileChanged { .. } => "FileChanged"@,
        HookEvent::TaskCreated { .. } => "TaskCreated"@,
        HookEvent::TaskCompleted { .. } => "TaskCompleted"@,
    }
}

/// The tool of a tool-related event.
pub open spec fn event_tool_of(e: HookEvent) -> Option<Seq<char>> {
    match e {
        HookEvent::PreToolUse { tool_name, .. } => Some(tool_name@),
        HookEvent::PostToolUse { tool_name, .. } => Some(tool_name@),
        HookEvent::PostToolUseFailure { tool_name, .. } => Some(tool_name@),
        HookEvent::PermissionRequest { tool_name, .. } => Some(tool_name@),
        _ => None,
    }
}

/// The members of the JSON data of an event (values as JSON text; the tool
/// input as it is carried).
pub open spec fn event_members(e: HookEvent) -> Seq<(Seq<char>, Seq<char>)> {
    match e {
        HookEvent::PreToolUse { session_id, tool_name, tool_input } => seq![
            ("session_id"@, quoted(session_id@)),
            ("tool_name"@, quoted(tool_name@)),
            ("tool_input"@, tool_input@),
        ],
        HookEvent::PostToolUse { session_id, tool_name, tool_input, tool_result, is_error } => seq![
            ("session_id"@, quoted(session_id@)),
            ("tool_name"@, quoted(tool_name@)),
            ("tool_input"@, tool_input@),
            ("tool_result"@, quoted(tool_result@)),
            ("is_error"@, bool_text(is_error)),
        ],
        HookEvent::UserPromptSubmit { session_id, prompt } => seq![
            ("session_id"@, quoted(session_id@)),
            ("prompt"@, quoted(prompt@)),
        ],
        HookEvent::SessionStart { session_id, cwd, model } => seq![
            ("session_id"@, quoted(session_id@)),
            ("cwd"@, quoted(cwd@)),
            ("model"@, quoted(model@)),
        ],
        HookEvent::PreCompact { session_id, message_count } => seq![
            ("session_id"@, quoted(session_id@)),
            ("message_count"@, decimal(message_count as nat)),
        ],
        HookEvent::PostCompact { session_id, messages_before, messages_after } => seq![
            ("session_id"@, quoted(session_id@)),
            ("messages_before"@, decimal(messages_before as nat)),
            ("messages_after"@, decimal(messages_after as nat)),
        ],
        HookEvent::Stop { session_id } => seq![("session_id"@, quoted(session_id@))],
        HookEvent::PostToolUseFailure { session_id, tool_name, error } => seq![
            ("session_id"@, quoted(session_id@)),
            ("tool_name"@, quoted(tool_name@)),
            ("error"@, quoted(error@)),
        ],
        HookEvent::SessionEnd { session_id, message_count } => seq![
            ("session_id"@, quoted(session_id@)),
            ("message_count"@, decimal(message_count as nat)),
        ],
        HookEvent::SubagentStart { session_id, description } => seq![
            ("session_id"@, quoted(session_id@)),
            ("description"@, quoted(description@)),
        ],
        HookEvent::SubagentStop { session_id } => seq![("session_id"@, quoted(session_id@))],
        HookEvent::PermissionRequest { session_id, tool_name } => seq![
            ("session_id"@, quoted(session_id@)),
            ("tool_name"@, quoted(tool_name@)),
        ],
        HookEvent::FileChanged { session_id, path, change_type } => seq![
            ("session_id"@, quoted(session_id@)),
            ("path"@, quoted(path@)),
            ("change_type"@, quoted(change_type@)),
        ],
        HookEvent::TaskCreated { session_id, task_id, subject } => seq![
            ("session_id"@, quoted(session_id@)),
            ("task_id"@, quoted(task_id@)),
            ("subject"@, quoted(subject@)),
        ],
        HookEvent::TaskCompleted { session_id, task_id } => seq![
            ("session_id"@, quoted(session_id@)),
            ("task_id"@, quoted(task_id@)),
        ],
    }
}

impl HookEvent {
    /// The event's data as a JSON object (text): its session and the fields
    /// of its kind.
    pub fn event_data(&self) -> (r: String)
        ensures
            r@ == object_text(event_members(*self)),
    {
        let pairs = self.data_members();
        object_from(&pairs)
    }

    /// The members of the event's data, each value as JSON text.
    #[verifier::spinoff_prover]
    fn data_members(&self) -> (ps: Vec<(&'static str, String)>)
        ensures
            pair_views(ps@) == event_members(*self),
    {
        proof {
            reveal_strlit("true");
            reveal_strlit("false");
        }
        let ps = match self {
            HookEvent::PreToolUse { session_id, tool_name, tool_input } => vec![
                ("session_id", json_quote(session_id.as_str())),
                ("tool_name", json_quote(tool_name.as_str())),
                ("tool_input", copy_str(tool_input.as_str())),
            ],
            HookEvent::PostToolUse { session_id, tool_name, tool_input, tool_result, is_error } => vec![
                ("session_id", json_quote(session_id.as_str())),
                ("tool_name", json_quote(tool_name.as_str())),
                ("tool_input", copy_str(tool_input.as_str())),
                ("tool_result", json_quote(tool_result.as_str())),
                ("is_error", copy_str(if *is_error { "true" } else { "false" })),
            ],
            HookEvent::UserPromptSubmit { session_id, prompt } => vec![
                ("session_id", json_quote(session_id.as_str())),
                ("prompt", json_quote(prompt.as_str())),
            ],
            HookEvent::SessionStart { session_id, cwd, model } => vec![
                ("session_id", json_quote(session_id.as_str())),
                ("cwd", json_quote(cwd.as_str())),
                ("model", json_quote(model.as_str())),
            ],
            HookEvent::PreCompact { session_id, message_count } => vec![
                ("session_id", json_quote(session_id.as_str())),
                ("message_count", count_text(*message_count)),
            ],
            HookEvent::PostCompact { session_id, messages_before, messages_after } => vec![
                ("session_id", json_quote(session_id.as_str())),
                ("messages_before", count_text(*messages_before)),
                ("messages_after", count_text(*messages_after)),
            ],
            HookEvent::Stop { session_id } => vec![("session_id", json_quote(session_id.as_str()))],
            HookEvent::PostToolUseFailure { session_id, tool_name, error } => vec![
                ("session_id", json_quote(session_id.as_str())),
                ("tool_name", json_quote(tool_name.as_str())),
                ("error", json_quote(error.as_str())),
            ],
            HookEvent::SessionEnd { session_id, message_count } => vec![
                ("session_id", json_quote(session_id.as_str())),
                ("message_count", count_text(*message_count)),
            ],
            HookEvent::SubagentStart { session_id, description } => vec![
                ("session_id", json_quote(session_id.as_str())),
                ("description", json_quote(description.as_str())),
            ],
            HookEvent::SubagentStop { session_id } => vec![("session_id", json_quote(session_id.as_str()))],
            HookEvent::PermissionRequest { session_id, tool_name } => vec![
                ("session_id", json_quote(session_id.as_str())),
                ("tool_name", json_quote(tool_name.as_str())),
            ],
            HookEvent::FileChanged { session_id, path, change_type } => vec![
                ("session_id", json_quote(session_id.as_str())),
                ("path", json_quote(path.as_str())),
                ("change_type", json_quote(change_type.as_str())),
            ],
            HookEvent::TaskCreated { session_id, task_id, subject } => vec![
                ("session_id", json_quote(session_id.as_str())),
                ("task_id", json_quote(task_id.as_str())),
                ("subject", json_quote(subject.as_str())),
            ],
            HookEvent::TaskCompleted { session_id, task_id } => vec![
                ("session_id", json_quote(session_id.as_str())),
                ("task_id", json_quote(task_id.as_str())),
            ],
        };
        assert(pair_views(ps@) =~= event_members(*self));
        ps
    }

    /// Returns the event name string used to look up hooks in config.
    pub fn event_name(&self) -> (r: &'static str)
        ensures
            r@ == event_name_of(*self),
    {
        match self {
            HookEvent::PreToolUse { .. } => "PreToolUse",
            HookEvent::PostToolUse { .. } => "PostToolUse",
            HookEvent::UserPromptSubmit { .. } => "UserPromptSubmit",
            HookEvent::SessionStart { .. } => "SessionStart",
            HookEvent::PreCompact { .. } => "PreCompact",
            HookEvent::PostCompact { .. } => "PostCompact",
            HookEvent::Stop { .. } => "Stop",
            HookEvent::PostToolUseFailure { .. } => "PostToolUseFailure",
            HookEvent::SessionEnd { .. } => "SessionEnd",
            HookEvent::SubagentStart { .. } => "SubagentStart",
            HookEvent::SubagentStop { .. } => "SubagentStop",
            HookEvent::PermissionRequest { .. } => "PermissionRequest",
            HookEvent::FileChanged { .. } => "FileChanged",
            HookEvent::TaskCreated { .. } => "TaskCreated",
            HookEvent::TaskCompleted { .. } => "TaskCompleted",
        }
    }

    /// Returns the tool name for tool-related events, `None` for others.
    pub fn tool_name(&self) -> (r: Option<&str>)
        ensures
            match r {
                Some(t) => event_tool_of(*self) == Some(t@),
                None => event_tool_of(*self) is None,
            },
    {
        match self {
            HookEvent::PreToolUse { tool_name, .. } => Some(tool_name.as_str()),
            HookEvent::PostToolUse { tool_name, .. } => Some(tool_name.as_str()),
            HookEvent::PostToolUseFailure { tool_name, .. } => Some(tool_name.as_str()),
            HookEvent::PermissionRequest { tool_name, .. } => Some(tool_name.as_str()),
            _ => None,
        }
    }
}

// ---------------------------------------------------------------------------
// Matching hook entries
// ---------------------------------------------------------------------------

/// What the hook logic reads of a configured hook entry: its tool matcher.
pub struct HookEntry {
    pub matcher: Option<String>,
}

/// Simple glob matching: `*` matches all, a trailing `*` matches by prefix,
/// anything else matches exactly.
pub open spec fn glob_matches(pattern: Seq<char>, name: Seq<char>) -> bool {
    if pattern == "*"@ {
        true
    } else if pattern.len() > 0 && pattern.last() == '*' {
        starts_with(name, pattern.drop_last())
    } else {
        pattern == name
    }
}

/// Simple glob matching: "*" matches all, "Bash*" prefix match, exact match.
pub fn glob_match(pattern: &str, name: &str) -> (r: bool)
    ensures
        r == glob_matches(pattern@, name@),
{
    if str_eq(pattern, "*") {
        return true;
    }
    let p = chars_of(pattern);
    if p.len() > 0 && p[p.len() - 1] == '*' {
        let stem = crate::text::sub_vec(&p, 0, p.len() - 1);
        let n = chars_of(name);
        assert(stem@ =~= p@.drop_last());
        crate::text::starts_with_exec(&n, &stem)
    } else {
        str_eq(pattern, name)
    }
}

/// An entry applies to an event: it has no matcher, the event concerns no
/// tool, or its matcher matches the event's tool.
pub open spec fn entry_applies(entry: HookEntry, event: HookEvent) -> bool {
    match entry.matcher {
        None => true,
        Some(p) => match event_tool_of(event) {
            Some(t) => glob_matches(p@, t),
            None => true,
        },
    }
}

fn matches_event(entry: &HookEntry, event: &HookEvent) -> (r: bool)
    ensures
        r == entry_applies(*entry, *event),
{
    match &entry.matcher {
        None => true,
        Some(pattern) => match event.tool_name() {
            Some(tool_name) => glob_match(pattern.as_str(), tool_name),
            None => true,
        },
    }
}

/// The positions of the entries that apply to the event, in order.
pub open spec fn applying_entries(entries: Seq<HookEntry>, event: HookEvent, n: int) -> Seq<usize>
    decreases n,
{
    if n <= 0 {
        Seq::empty()
    } else {
        let r = applying_entries(entries, event, n - 1);
        if entry_applies(entries[n - 1], event) {
            r.push((n - 1) as usize)
        } else {
            r
        }
    }
}

/// Filter hook entries that match the given event: their positions, in order.
pub fn matching_hooks(entries: &Vec<HookEntry>, event: &HookEvent) -> (r: Vec<usize>)
    ensures
        r@ == applying_entries(entries@, *event, entries.len() as int),
{
    let mut r: Vec<usize> = Vec::new();
    let mut i: usize = 0;
    while i < entries.len()
        invariant
            i <= entries.len(),
            r@ == applying_entries(entries@, *event, i as int),
        decreases entries.len() - i,
    {
        if matches_event(&entries[i], event) {
            r.push(i);
        }
        i = i + 1;
    }
    r
}

// ---------------------------------------------------------------------------
// Hook outcomes
// ---------------------------------------------------------------------------

/// Response from a PreToolUse hook (its tool input as JSON text).
pub struct PreToolUseResponse {
    /// Decision: "allow", "deny", or "ask".
    pub decision: Option<String>,
    /// Reason for denial.
    pub reason: Option<String>,
    /// Modified tool input (replaces original if present).
    pub updated_input: Option<String>,
}

/// Response from a UserPromptSubmit hook.
pub struct UserPromptSubmitResponse {
    /// Modified prompt text (replaces original if present).
    pub updated_prompt: Option<String>,
    /// If true, block submission entirely.
    pub deny: Option<bool>,
    /// Reason for denial.
    pub reason: Option<String>,
}

/// What to do after one hook command ran.
pub enum HookStep {
    /// The hook blocks, for this reason.
    Block(String),
    /// The hook printed this (trimmed) output, to be read as a JSON response.
    Inspect(String),
    /// Go on with the next hook.
    Next,
}

/// The step after a hook that exited with `exit_code` and printed `stdout`:
/// exit code 2 blocks, with the trimmed output as the reason (or `default`
/// when there is none); otherwise non-blank output is to be inspected.
pub open spec fn hook_step(exit_code: i32, stdout: Seq<char>, default: Seq<char>, s: HookStep) -> bool {
    if exit_code == 2 {
        s matches HookStep::Block(r) && r@ == (if trim(stdout).len() == 0 {
            default
        } else {
            trim(stdout)
        })
    } else if trim(stdout).len() > 0 {
        s matches HookStep::Inspect(t) && t@ == trim(stdout)
    } else {
        s is Next
    }
}

fn step_after(exit_code: i32, stdout: &str, default: &str) -> (s: HookStep)
    ensures
        hook_step(exit_code, stdout@, default@, s),
{
    let t = trim_vec(&chars_of(stdout));
    if exit_code == 2 {
        if t.len() == 0 {
            HookStep::Block(copy_str(default))
        } else {
            HookStep::Block(string_from(&t))
        }
    } else if t.len() > 0 {
        HookStep::Inspect(string_from(&t))
    } else {
        HookStep::Next
    }
}

/// The step after a PreToolUse hook ran.
pub fn pre_tool_use_step(exit_code: i32, stdout: &str) -> (s: HookStep)
    ensures
        hook_step(exit_code, stdout@, "blocked by hook (exit code 2)"@, s),
{
    step_after(exit_code, stdout, "blocked by hook (exit code 2)")
}

/// The step after a UserPromptSubmit hook ran.
pub fn prompt_hook_step(exit_code: i32, stdout: &str) -> (s: HookStep)
    ensures
        hook_step(exit_code, stdout@, "blocked by hook"@, s),
{
    step_after(exit_code, stdout, "blocked by hook")
}

impl PreToolUseResponse {
    /// The response of a blocking hook: deny, for `reason`.
    pub fn blocked(reason: String) -> (r: Self)
        ensures
            r.decision matches Some(d) && d@ == "deny"@,
            r.reason matches Some(x) && x@ == reason@,
            r.updated_input is None,
    {
        PreToolUseResponse { decision: Some(copy_str("deny")), reason: Some(reason), updated_input: None }
    }

    /// Whether a hook's response settles the call: it denies or rewrites the input.
    pub fn settles(&self) -> (r: bool)
        ensures
            r == ((self.decision matches Some(d) && d@ == "deny"@) || self.updated_input is Some),
    {
        let denies = match &self.decision {
            Some(d) => str_eq(d.as_str(), "deny"),
            None => false,
        };
        denies || self.updated_input.is_some()
    }
}

impl UserPromptSubmitResponse {
    /// The response of a blocking hook: deny, for `reason`.
    pub fn blocked(reason: String) -> (r: Self)
        ensures
            r.updated_prompt is None,
            r.deny == Some(true),
            r.reason matches Some(x) && x@ == reason@,
    {
        UserPromptSubmitResponse { updated_prompt: None, deny: Some(true), reason: Some(reason) }
    }

    /// Whether a hook's response settles the prompt: it blocks or rewrites it.
    pub fn settles(&self) -> (r: bool)
        ensures
            r == (self.deny == Some(true) || self.updated_prompt is Some),
    {
        let denies = match self.deny {
            Some(b) => b,
            None => false,
        };
        denies || self.updated_prompt.is_some()
    }
}

/// The time a hook may run, in seconds: its configured timeout, or 10 when none is set.
pub fn hook_timeout_secs(timeout: u64) -> (r: u64)
    ensures
        r == if timeout > 0 {
            timeout
        } else {
            10
        },
{
    if timeout > 0 {
        timeout
    } else {
        10
    }
}

} // verus!
