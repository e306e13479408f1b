use vstd::prelude::*;

use crate::text::{chars_eq, chars_of};

verus! {

/// The number of slash commands.
pub const SLASH_COMMAND_COUNT: usize = 53;

/// The slash commands and their short descriptions, sorted by command.
pub open spec fn slash_table() -> Seq<(Seq<char>, Seq<char>)> {
    seq![
        ("/add-dir"@, "Add a directory"@),
        ("/agents"@, "Manage agents"@),
        ("/attach"@, "Attach to session"@),
        ("/branch"@, "Git branch"@),
        ("/btw"@, "Notes"@),
        ("/clear"@, "Clear conversation"@),
        ("/color"@, "Toggle color"@),
        ("/commit"@, "Create a git commit"@),
        ("/compact"@, "Compact context"@),
        ("/config"@, "Edit configuration"@),
        ("/context"@, "Show context usage"@),
        ("/copy"@, "Copy last reply"@),
        ("/cost"@, "Show token costs"@),
        ("/delete-session"@, "Delete session"@),
        ("/diff"@, "Show uncommitted diff"@),
        ("/doctor"@, "Diagnose setup"@),
        ("/effort"@, "Set reasoning effort"@),
        ("/exit"@, "Quit Venus"@),
        ("/export"@, "Export conversation"@),
        ("/fast"@, "Fast mode"@),
        ("/files"@, "List files"@),
        ("/help"@, "Show help"@),
        ("/history"@, "Show input history"@),
        ("/hooks"@, "Edit hooks"@),
        ("/init"@, "Create VENUS.md"@),
        ("/keybindings"@, "Show keybindings"@),
        ("/kill"@, "Kill a process"@),
        ("/mcp"@, "List MCP servers"@),
        ("/memory"@, "Edit memory"@),
        ("/model"@, "Switch model"@),
        ("/output-style"@, "Set output style"@),
        ("/permissions"@, "Edit permissions"@),
        ("/plan"@, "Plan mode"@),
        ("/plugin"@, "Manage plugins"@),
        ("/ps"@, "List processes"@),
        ("/quit"@, "Quit Venus"@),
        ("/rename"@, "Rename session"@),
        ("/resume"@, "Resume a session"@),
        ("/return"@, "Rewind to before #N (last if omitted)"@),
        ("/review"@, "Request code review"@),
        ("/rewind"@, "Rewind state"@),
        ("/sandbox-toggle"@, "Toggle sandbox"@),
        ("/sessions"@, "List sessions"@),
        ("/skills"@, "List skills"@),
        ("/stats"@, "Show stats"@),
        ("/status"@, "Show status"@),
        ("/summary"@, "Summarize chat"@),
        ("/tag"@, "Tag a point"@),
        ("/tasks"@, "List tasks"@),
        ("/theme"@, "Set theme"@),
        ("/tokens"@, "Show token usage"@),
        ("/version"@, "Show version"@),
        ("/vim"@, "Toggle vim mode"@),
    ]
}

/// Entry `i` of the slash command table: the command (with its leading `/`)
/// and its short description.
pub fn slash_entry(i: usize) -> (r: (&'static str, &'static str))
    requires
        i < SLASH_COMMAND_COUNT,
    ensures
        r.0@ == slash_table()[i as int].0,
        r.1@ == slash_table()[i as int].1,
{
    match i {
        0 => ("/add-dir", "Add a directory"),
        1 => ("/agents", "Manage agents"),
        2 => ("/attach", "Attach to session"),
        3 => ("/branch", "Git branch"),
        4 => ("/btw", "Notes"),
        5 => ("/clear", "Clear conversation"),
        6 => ("/color", "Toggle color"),
        7 => ("/commit", "Create a git commit"),
        8 => ("/compact", "Compact context"),
        9 => ("/config", "Edit configuration"),
        10 => ("/context", "Show context usage"),
        11 => ("/copy", "Copy last reply"),
        12 => ("/cost", "Show token costs"),
        13 => ("/delete-session", "Delete session"),
        14 => ("/diff", "Show uncommitted diff"),
        15 => ("/doctor", "Diagnose setup"),
        16 => ("/effort", "Set reasoning effort"),
        17 => ("/exit", "Quit Venus"),
        18 => ("/export", "Export conversation"),
        19 => ("/fast", "Fast mode"),
        20 => ("/files", "List files"),
        21 => ("/help", "Show help"),
        22 => ("/history", "Show input history"),
        23 => ("/hooks", "Edit hooks"),
        24 => ("/init", "Create VENUS.md"),
        25 => ("/keybindings", "Show keybindings"),
        26 => ("/kill", "Kill a process"),
        27 => ("/mcp", "List MCP servers"),
        28 => ("/memory", "Edit memory"),
        29 => ("/model", "Switch model"),
        30 => ("/output-style", "Set output style"),
        31 => ("/permissions", "Edit permissions"),
        32 => ("/plan", "Plan mode"),
        33 => ("/plugin", "Manage plugins"),
        34 => ("/ps", "List processes"),
        35 => ("/quit", "Quit Venus"),
        36 => ("/rename", "Rename session"),
        37 => ("/resume", "Resume a session"),
        38 => ("/return", "Rewind to before #N (last if omitted)"),
        39 => ("/review", "Request code review"),
        40 => ("/rewind", "Rewind state"),
        41 => ("/sandbox-toggle", "Toggle sandbox"),
        42 => ("/sessions", "List sessions"),
        43 => ("/skills", "List skills"),
        44 => ("/stats", "Show stats"),
        45 => ("/status", "Show status"),
        46 => ("/summary", "Summarize chat"),
        47 => ("/tag", "Tag a point"),
        48 => ("/tasks", "List tasks"),
        49 => ("/theme", "Set theme"),
        50 => ("/tokens", "Show token usage"),
        51 => ("/version", "Show version"),
        52 => ("/vim", "Toggle vim mode"),
        _ => ("/kill", "Kill a process"),
    }
}

/// The index of the first table entry at or after `i` whose command is `cmd`.
pub open spec fn slash_index_from(cmd: Seq<char>, i: int) -> Option<int>
    decreases 53 - i,
{
    if i < 0 || i >= 53 {
        None
    } else if slash_table()[i].0 == cmd {
        Some(i)
    } else {
        slash_index_from(cmd, i + 1)
    }
}

/// The description of a slash command; empty for a string that is not one.
pub open spec fn slash_description_spec(cmd: Seq<char>) -> Seq<char> {
    match slash_index_from(cmd, 0) {
        Some(i) => slash_table()[i].1,
        None => Seq::empty(),
    }
}

/// Short, human-readable description for a slash command (right column).
pub fn slash_description(cmd: &str) -> (r: &'static str)
    ensures
        r@ == slash_description_spec(cmd@),
{
    let c = chars_of(cmd);
    let mut i: usize = 0;
    while i < SLASH_COMMAND_COUNT
        invariant
            i <= SLASH_COMMAND_COUNT,
            c@ == cmd@,
            slash_index_from(cmd@, 0) == slash_index_from(cmd@, i as int),
        decreases SLASH_COMMAND_COUNT - i,
    {
        let (name, desc) = slash_entry(i);
        let n = chars_of(name);
        if chars_eq(&n, &c) {
            return desc;
        }
        i = i + 1;
    }
    let empty = "";
    proof {
        reveal_strlit("");
    }
    assert(empty@ =~= Seq::<char>::empty());
    empty
}

} // verus!
