use vstd::prelude::*;

use crate::plugins::{command_entries, PluginCommandDef, PluginRegistry};
use crate::skills::{skill_pos, SkillRegistry};
use crate::lsp_wire::{parse_usize, parse_usize_spec};
use crate::tasks::str_views;
use crate::text::{char_pos, char_pos_exec, chars_of, copy_str, push_str, starts_with, starts_with_exec, str_eq, string_from, sub_vec, trim, trim_str};

verus! {

// ---------------------------------------------------------------------------
// Reading a command line
// ---------------------------------------------------------------------------

/// The command word of an input line (up to the first space) and the
/// rest after that space, if there is one.
pub open spec fn command_parts(input: Seq<char>) -> (Seq<char>, Option<Seq<char>>) {
    match char_pos(input, ' ') {
        Some(k) => (input.take(k), Some(input.skip(k + 1))),
        None => (input, None),
    }
}

/// Splits a command line into its command word and its arguments.
pub fn split_command(input: &str) -> (r: (String, Option<String>))
    ensures
        r.0@ == command_parts(input@).0,
        crate::json::opt_chars(r.1) == command_parts(input@).1,
{
    let c = chars_of(input);
    match char_pos_exec(&c, ' ') {
        Some(k) => {
            proof {
                crate::text::lemma_char_pos(c@, ' ');
            }
            let cmd = string_from(&sub_vec(&c, 0, k));
            let rest = string_from(&sub_vec(&c, k + 1, c.len()));
            assert(c@.subrange(0, k as int) =~= c@.take(k as int));
            assert(c@.subrange(k + 1, c@.len() as int) =~= c@.skip(k + 1));
            (cmd, Some(rest))
        },
        None => (copy_str(input), None),
    }
}

// ---------------------------------------------------------------------------
// Skills and plugin commands invoked by name
// ---------------------------------------------------------------------------

/// A prompt with the arguments it was invoked with, if any.
pub open spec fn with_arguments(prompt: Seq<char>, args: Option<Seq<char>>) -> Seq<char> {
    match args {
        Some(a) => prompt + "\n\nArguments: "@ + a,
        None => prompt,
    }
}

/// The prompt of the first plugin command named `name` that has one.
pub open spec fn plugin_prompt(cs: Seq<PluginCommandDef>, name: Seq<char>) -> Option<Seq<char>>
    decreases cs.len(),
{
    if cs.len() == 0 {
        None
    } else if cs[0].name@ == name && cs[0].prompt is Some {
        Some(cs[0].prompt->0@)
    } else {
        plugin_prompt(cs.drop_first(), name)
    }
}

/// The message an unknown `/command` injects: the content of the skill of
/// that name (ignoring case) if it is user-invocable, else the prompt of the
/// first plugin command of that name that has one; with the arguments
/// appended. `None` when neither applies.
pub open spec fn custom_message(
    input: Seq<char>,
    skills: Option<SkillRegistry>,
    plugins: Option<PluginRegistry>,
) -> Option<Seq<char>> {
    let (cmd, args) = command_parts(input);
    let name = cmd.skip(1);
    let skill = match skills {
        Some(reg) => match skill_pos(reg.skills@, name, 0) {
            Some(i) => if reg.skills@[i].user_invocable {
                Some(reg.skills@[i].content@)
            } else {
                None
            },
            None => None,
        },
        None => None,
    };
    match skill {
        Some(content) => Some(with_arguments(content, args)),
        None => match plugins {
            Some(reg) => match plugin_prompt(command_entries(reg.plugins@, reg.plugins@.len() as int), name) {
                Some(p) => Some(with_arguments(p, args)),
                None => None,
            },
            None => None,
        },
    }
}

fn appended(prompt: &str, args: &Option<String>) -> (r: String)
    ensures
        r@ == with_arguments(prompt@, crate::json::opt_chars(*args)),
{
    let mut r = copy_str(prompt);
    match args {
        Some(a) => {
            push_str(&mut r, "\n\nArguments: ");
            push_str(&mut r, a.as_str());
        },
        None => {},
    }
    r
}

/// The prompt of the first plugin command named `name` that has one.
fn find_plugin_prompt(plugins: &PluginRegistry, name: &str) -> (r: Option<String>)
    ensures
        crate::json::opt_chars(r) == plugin_prompt(command_entries(plugins.plugins@, plugins.plugins@.len() as int), name@),
{
    let cmds = plugins.command_defs();
    let ghost cs = command_entries(plugins.plugins@, plugins.plugins@.len() as int);
    let mut i: usize = 0;
    assert(cs.skip(0) =~= cs);
    while i < cmds.len()
        invariant
            i <= cmds.len(),
            cmds@.len() == cs.len(),
            cs == command_entries(plugins.plugins@, plugins.plugins@.len() as int),
            forall|k: int| 0 <= k < cs.len() ==> *#[trigger] cmds@[k] == cs[k],
            plugin_prompt(cs, name@) == plugin_prompt(cs.skip(i as int), name@),
        decreases cmds.len() - i,
    {
        assert(cs.skip(i as int).drop_first() =~= cs.skip(i + 1));
        assert(cs.skip(i as int)[0] == cs[i as int]);
        let c = cmds[i];
        assert(*cmds@[i as int] == cs[i as int]);
        if str_eq(c.name.as_str(), name) {
            match &c.prompt {
                Some(p) => {
                    assert(cs.skip(i as int)[0] == *c);
                    assert(c.prompt == Some(*p));
                    assert(plugin_prompt(cs.skip(i as int), name@) == Some(p@));
                    return Some(copy_str(p.as_str()));
                },
                None => {},
            }
        }
        i = i + 1;
    }
    assert(cs.skip(i as int).len() == 0);
    None
}

/// The message that an unknown `/command` line injects (see `custom_message`).
pub fn custom_command_message(
    input: &str,
    skills: Option<&SkillRegistry>,
    plugins: Option<&PluginRegistry>,
) -> (r: Option<String>)
    requires
        input@.len() > 0,
        input@[0] == '/',
    ensures
        crate::json::opt_chars(r) == custom_message(
            input@,
            match skills {
                Some(s) => Some(*s),
                None => None,
            },
            match plugins {
                Some(p) => Some(*p),
                None => None,
            },
        ),
{
    let (cmd, args) = split_command(input);
    let cc = chars_of(cmd.as_str());
    proof {
        crate::text::lemma_char_pos(input@, ' ');
    }
    let name = string_from(&sub_vec(&cc, 1, cc.len()));
    assert(cc@.subrange(1, cc@.len() as int) =~= cc@.skip(1));
    match skills {
        Some(reg) => match reg.find(name.as_str()) {
            Some(skill) => {
                if skill.user_invocable {
                    return Some(appended(skill.content.as_str(), &args));
                }
            },
            None => {},
        },
        None => {},
    }
    match plugins {
        Some(reg) => match find_plugin_prompt(reg, name.as_str()) {
            Some(p) => Some(appended(p.as_str(), &args)),
            None => None,
        },
        None => None,
    }
}


/// A command line is its command word and, when it has arguments, a space
/// and the arguments; the command word holds no space.
pub proof fn law_split_command_rejoins(input: Seq<char>)
    ensures
        match command_parts(input) {
            (cmd, Some(args)) => cmd + seq![' '] + args == input,
            (cmd, None) => cmd == input,
        },
        !command_parts(input).0.contains(' '),
{
    crate::text::lemma_char_pos(input, ' ');
    match char_pos(input, ' ') {
        Some(k) => {
            assert(input.take(k) + seq![' '] + input.skip(k + 1) =~= input);
            assert forall|j: int| 0 <= j < input.take(k).len() implies input.take(k)[j] != ' ' by {
                assert(input.take(k)[j] == input[j]);
            }
        },
        None => {},
    }
}

// ---------------------------------------------------------------------------
// Dispatch
// ---------------------------------------------------------------------------

/// A built-in command that acts on the session, the workspace or the
/// terminal (carried out by the front end).
#[derive(Debug, Clone, Copy, PartialEq, Eq, Structural)]
pub enum Builtin {
    /// `/help /h`: show the help.
    Help,
    /// `/cost`: show the session's cost.
    Cost,
    /// `/history`: count the messages.
    History,
    /// `/diff`: show the git diff.
    Diff,
    /// `/compact`: compact the conversation.
    Compact,
    /// `/config /settings`: show the configuration.
    Config,
    /// `/doctor`: check the installation.
    Doctor,
    /// `/context`: show the context usage.
    Context,
    /// `/tokens`: show the token counts.
    Tokens,
    /// `/plugin /plugins`: list the plugins.
    Plugins,
    /// `/sessions`: list saved sessions.
    Sessions,
    /// `/resume /continue`: resume a session.
    Resume,
    /// `/commit`: ask for a commit message.
    Commit,
    /// `/review`: ask for a review.
    Review,
    /// `/init`: write the project notes.
    Init,
    /// `/memory`: show the memory files.
    Memory,
    /// `/skills`: list the skills.
    Skills,
    /// `/tasks`: list the tasks.
    Tasks,
    /// `/plan`: toggle plan mode.
    Plan,
    /// `/effort`: set the effort level.
    Effort,
    /// `/copy`: copy the last answer.
    Copy,
    /// `/version`: show the version.
    Version,
    /// `/status`: show the session status.
    Status,
    /// `/summary`: ask for a summary.
    Summary,
    /// `/export`: export the conversation.
    Export,
    /// `/rewind`: drop the last exchanges.
    Rewind,
    /// `/permissions /allowed-tools`: show or set permissions.
    Permissions,
    /// `/mcp`: list MCP servers.
    Mcp,
    /// `/files`: list the files.
    Files,
    /// `/keybindings`: show or save key bindings.
    Keybindings,
    /// `/color`: set the prompt colour.
    Color,
    /// `/theme`: set the theme.
    Theme,
    /// `/sandbox-toggle`: toggle the sandbox.
    SandboxToggle,
    /// `/ps`: list background tasks.
    Ps,
    /// `/attach`: show a background task.
    Attach,
    /// `/kill`: stop a background task.
    Kill,
    /// `/stats`: show statistics.
    Stats,
    /// `/agents`: list agents.
    Agents,
    /// `/add-dir`: add a working directory.
    AddDir,
    /// `/output-style`: set the output style.
    OutputStyle,
    /// `/branch`: show git branches.
    Branch,
    /// `/btw`: note something.
    Btw,
    /// `/tag`: tag the session.
    Tag,
    /// `/fast`: toggle fast mode.
    Fast,
    /// `/rename /rename-session`: rename the session.
    Rename,
    /// `/hooks`: list the hooks.
    Hooks,
    /// `/delete-session`: delete a session.
    DeleteSession,
}

/// The built-in command a command word names.
pub open spec fn builtin_of(cmd: Seq<char>) -> Option<Builtin> {
    if cmd == "/help"@ || cmd == "/h"@ {
        Some(Builtin::Help)
    } else if cmd == "/cost"@ {
        Some(Builtin::Cost)
    } else if cmd == "/history"@ {
        Some(Builtin::History)
    } else if cmd == "/diff"@ {
        Some(Builtin::Diff)
    } else if cmd == "/compact"@ {
        Some(Builtin::Compact)
    } else if cmd == "/config"@ || cmd == "/settings"@ {
        Some(Builtin::Config)
    } else if cmd == "/doctor"@ {
        Some(Builtin::Doctor)
    } else if cmd == "/context"@ {
        Some(Builtin::Context)
    } else if cmd == "/tokens"@ {
        Some(Builtin::Tokens)
    } else if cmd == "/plugin"@ || cmd == "/plugins"@ {
        Some(Builtin::Plugins)
    } else if cmd == "/sessions"@ {
        Some(Builtin::Sessions)
    } else if cmd == "/resume"@ || cmd == "/continue"@ {
        Some(Builtin::Resume)
    } else if cmd == "/commit"@ {
        Some(Builtin::Commit)
    } else if cmd == "/review"@ {
        Some(Builtin::Review)
    } else if cmd == "/init"@ {
        Some(Builtin::Init)
    } else if cmd == "/memory"@ {
        Some(Builtin::Memory)
    } else if cmd == "/skills"@ {
        Some(Builtin::Skills)
    } else if cmd == "/tasks"@ {
        Some(Builtin::Tasks)
    } else if cmd == "/plan"@ {
        Some(Builtin::Plan)
    } else if cmd == "/effort"@ {
        Some(Builtin::Effort)
    } else if cmd == "/copy"@ {
        Some(Builtin::Copy)
    } else if cmd == "/version"@ {
        Some(Builtin::Version)
    } else if cmd == "/status"@ {
        Some(Builtin::Status)
    } else if cmd == "/summary"@ {
        Some(Builtin::Summary)
    } else if cmd == "/export"@ {
        Some(Builtin::Export)
    } else if cmd == "/rewind"@ {
        Some(Builtin::Rewind)
    } else if cmd == "/permissions"@ || cmd == "/allowed-tools"@ {
        Some(Builtin::Permissions)
    } else if cmd == "/mcp"@ {
        Some(Builtin::Mcp)
    } else if cmd == "/files"@ {
        Some(Builtin::Files)
    } else if cmd == "/keybindings"@ {
        Some(Builtin::Keybindings)
    } else if cmd == "/color"@ {
        Some(Builtin::Color)
    } else if cmd == "/theme"@ {
        Some(Builtin::Theme)
    } else if cmd == "/sandbox-toggle"@ {
        Some(Builtin::SandboxToggle)
    } else if cmd == "/ps"@ {
        Some(Builtin::Ps)
    } else if cmd == "/attach"@ {
        Some(Builtin::Attach)
    } else if cmd == "/kill"@ {
        Some(Builtin::Kill)
    } else if cmd == "/stats"@ {
        Some(Builtin::Stats)
    } else if cmd == "/agents"@ {
        Some(Builtin::Agents)
    } else if cmd == "/add-dir"@ {
        Some(Builtin::AddDir)
    } else if cmd == "/output-style"@ {
        Some(Builtin::OutputStyle)
    } else if cmd == "/branch"@ {
        Some(Builtin::Branch)
    } else if cmd == "/btw"@ {
        Some(Builtin::Btw)
    } else if cmd == "/tag"@ {
        Some(Builtin::Tag)
    } else if cmd == "/fast"@ {
        Some(Builtin::Fast)
    } else if cmd == "/rename"@ || cmd == "/rename-session"@ {
        Some(Builtin::Rename)
    } else if cmd == "/hooks"@ {
        Some(Builtin::Hooks)
    } else if cmd == "/delete-session"@ {
        Some(Builtin::DeleteSession)
    } else {
        None
    }
}

fn builtin_exec(cmd: &str) -> (r: Option<Builtin>)
    ensures
        r == builtin_of(cmd@),
{
    if str_eq(cmd, "/help") || str_eq(cmd, "/h") {
        Some(Builtin::Help)
    } else if str_eq(cmd, "/cost") {
        Some(Builtin::Cost)
    } else if str_eq(cmd, "/history") {
        Some(Builtin::History)
    } else if str_eq(cmd, "/diff") {
        Some(Builtin::Diff)
    } else if str_eq(cmd, "/compact") {
        Some(Builtin::Compact)
    } else if str_eq(cmd, "/config") || str_eq(cmd, "/settings") {
        Some(Builtin::Config)
    } else if str_eq(cmd, "/doctor") {
        Some(Builtin::Doctor)
    } else if str_eq(cmd, "/context") {
        Some(Builtin::Context)
    } else if str_eq(cmd, "/tokens") {
        Some(Builtin::Tokens)
    } else if str_eq(cmd, "/plugin") || str_eq(cmd, "/plugins") {
        Some(Builtin::Plugins)
    } else if str_eq(cmd, "/sessions") {
        Some(Builtin::Sessions)
    } else if str_eq(cmd, "/resume") || str_eq(cmd, "/continue") {
        Some(Builtin::Resume)
    } else if str_eq(cmd, "/commit") {
        Some(Builtin::Commit)
    } else if str_eq(cmd, "/review") {
        Some(Builtin::Review)
    } else if str_eq(cmd, "/init") {
        Some(Builtin::Init)
    } else if str_eq(cmd, "/memory") {
        Some(Builtin::Memory)
    } else if str_eq(cmd, "/skills") {
        Some(Builtin::Skills)
    } else if str_eq(cmd, "/tasks") {
        Some(Builtin::Tasks)
    } else if str_eq(cmd, "/plan") {
        Some(Builtin::Plan)
    } else if str_eq(cmd, "/effort") {
        Some(Builtin::Effort)
    } else if str_eq(cmd, "/copy") {
        Some(Builtin::Copy)
    } else if str_eq(cmd, "/version") {
        Some(Builtin::Version)
    } else if str_eq(cmd, "/status") {
        Some(Builtin::Status)
    } else if str_eq(cmd, "/summary") {
        Some(Builtin::Summary)
    } else if str_eq(cmd, "/export") {
        Some(Builtin::Export)
    } else if str_eq(cmd, "/rewind") {
        Some(Builtin::Rewind)
    } else if str_eq(cmd, "/permissions") || str_eq(cmd, "/allowed-tools") {
        Some(Builtin::Permissions)
    } else if str_eq(cmd, "/mcp") {
        Some(Builtin::Mcp)
    } else if str_eq(cmd, "/files") {
        Some(Builtin::Files)
    } else if str_eq(cmd, "/keybindings") {
        Some(Builtin::Keybindings)
    } else if str_eq(cmd, "/color") {
        Some(Builtin::Color)
    } else if str_eq(cmd, "/theme") {
        Some(Builtin::Theme)
    } else if str_eq(cmd, "/sandbox-toggle") {
        Some(Builtin::SandboxToggle)
    } else if str_eq(cmd, "/ps") {
        Some(Builtin::Ps)
    } else if str_eq(cmd, "/attach") {
        Some(Builtin::Attach)
    } else if str_eq(cmd, "/kill") {
        Some(Builtin::Kill)
    } else if str_eq(cmd, "/stats") {
        Some(Builtin::Stats)
    } else if str_eq(cmd, "/agents") {
        Some(Builtin::Agents)
    } else if str_eq(cmd, "/add-dir") {
        Some(Builtin::AddDir)
    } else if str_eq(cmd, "/output-style") {
        Some(Builtin::OutputStyle)
    } else if str_eq(cmd, "/branch") {
        Some(Builtin::Branch)
    } else if str_eq(cmd, "/btw") {
        Some(Builtin::Btw)
    } else if str_eq(cmd, "/tag") {
        Some(Builtin::Tag)
    } else if str_eq(cmd, "/fast") {
        Some(Builtin::Fast)
    } else if str_eq(cmd, "/rename") || str_eq(cmd, "/rename-session") {
        Some(Builtin::Rename)
    } else if str_eq(cmd, "/hooks") {
        Some(Builtin::Hooks)
    } else if str_eq(cmd, "/delete-session") {
        Some(Builtin::DeleteSession)
    } else {
        None
    }
}

/// What a `/command` line asks for.
pub enum CommandAction {
    /// Leave the program.
    Exit,
    /// Clear the conversation.
    Clear,
    /// Switch to this model.
    SetModel(String),
    /// Show the current model.
    ShowModel,
    /// Toggle vim mode in the editor.
    ToggleVim,
    /// Another built-in command, with the text after the command word.
    Run(Builtin, Option<String>),
    /// Send this message, as if the user typed it (a skill or plugin command).
    Inject(String),
    /// No command of this name.
    Unknown(String),
}

/// A command action as plain values.
pub enum ActionModel {
    Exit,
    Clear,
    SetModel(Seq<char>),
    ShowModel,
    ToggleVim,
    Run(Builtin, Option<Seq<char>>),
    Inject(Seq<char>),
    Unknown(Seq<char>),
}

pub open spec fn action_model(a: CommandAction) -> ActionModel {
    match a {
        CommandAction::Exit => ActionModel::Exit,
        CommandAction::Clear => ActionModel::Clear,
        CommandAction::SetModel(m) => ActionModel::SetModel(m@),
        CommandAction::ShowModel => ActionModel::ShowModel,
        CommandAction::ToggleVim => ActionModel::ToggleVim,
        CommandAction::Run(b, a) => ActionModel::Run(b, crate::json::opt_chars(a)),
        CommandAction::Inject(m) => ActionModel::Inject(m@),
        CommandAction::Unknown(c) => ActionModel::Unknown(c@),
    }
}

/// The action of a `/command` line: `/exit`, `/quit` and `/q` leave;
/// `/clear` clears; `/model` with a name switches to it and alone shows the
/// model; `/vim` toggles vim mode; the other built-in commands run with the
/// text after the command word; otherwise a skill or plugin command of that
/// name injects its message, and any other word is unknown.
pub open spec fn command_spec(input: Seq<char>, skills: Option<SkillRegistry>, plugins: Option<PluginRegistry>) -> ActionModel {
    let (cmd, args) = command_parts(input);
    if cmd == "/exit"@ || cmd == "/quit"@ || cmd == "/q"@ {
        ActionModel::Exit
    } else if cmd == "/clear"@ {
        ActionModel::Clear
    } else if cmd == "/model"@ {
        match args {
            Some(m) => ActionModel::SetModel(m),
            None => ActionModel::ShowModel,
        }
    } else if cmd == "/vim"@ {
        ActionModel::ToggleVim
    } else {
        match builtin_of(cmd) {
            Some(b) => ActionModel::Run(b, args),
            None => match custom_message(input, skills, plugins) {
                Some(m) => ActionModel::Inject(m),
                None => ActionModel::Unknown(cmd),
            },
        }
    }
}

/// Decides what a `/command` line asks for.
pub fn command_action(input: &str, skills: Option<&SkillRegistry>, plugins: Option<&PluginRegistry>) -> (r: CommandAction)
    requires
        input@.len() > 0,
        input@[0] == '/',
    ensures
        action_model(r) == command_spec(
            input@,
            match skills {
                Some(s) => Some(*s),
                None => None,
            },
            match plugins {
                Some(p) => Some(*p),
                None => None,
            },
        ),
{
    let (cmd, args) = split_command(input);
    let c = cmd.as_str();
    if str_eq(c, "/exit") || str_eq(c, "/quit") || str_eq(c, "/q") {
        CommandAction::Exit
    } else if str_eq(c, "/clear") {
        CommandAction::Clear
    } else if str_eq(c, "/model") {
        match args {
            Some(m) => CommandAction::SetModel(m),
            None => CommandAction::ShowModel,
        }
    } else if str_eq(c, "/vim") {
        CommandAction::ToggleVim
    } else {
        match builtin_exec(c) {
            Some(b) => CommandAction::Run(b, args),
            None => match custom_command_message(input, skills, plugins) {
                Some(m) => CommandAction::Inject(m),
                None => CommandAction::Unknown(cmd),
            },
        }
    }
}

// ---------------------------------------------------------------------------
// Arguments of built-in commands
// ---------------------------------------------------------------------------

/// Why a session could not be picked.
#[derive(Debug, Clone, Copy, PartialEq, Eq, Structural)]
pub enum SessionChoiceError {
    /// A number outside `1..=count`.
    BadNumber,
    /// No session id starts with the text.
    NoMatch,
}

/// The first session id, from index `i` on, that starts with `prefix`.
pub open spec fn id_with_prefix(ids: Seq<Seq<char>>, prefix: Seq<char>, i: int) -> Option<int>
    decreases ids.len() - i,
{
    if i < 0 || i >= ids.len() {
        None
    } else if starts_with(ids[i], prefix) {
        Some(i)
    } else {
        id_with_prefix(ids, prefix, i + 1)
    }
}

/// The session a `/resume` or `/delete-session` argument picks among the
/// listed ids: a number counts from 1 (out of range is refused); any other
/// text picks the first id it begins.
pub open spec fn session_choice_spec(arg: Seq<char>, ids: Seq<Seq<char>>) -> Result<usize, SessionChoiceError> {
    let a = trim(arg);
    match parse_usize_spec(a) {
        Some(n) => if n == 0 || n > ids.len() {
            Err(SessionChoiceError::BadNumber)
        } else {
            Ok((n - 1) as usize)
        },
        None => match id_with_prefix(ids, a, 0) {
            Some(i) => Ok(i as usize),
            None => Err(SessionChoiceError::NoMatch),
        },
    }
}

/// Picks the session that a `/resume` or `/delete-session` argument names.
pub fn resume_choice(arg: &str, ids: &Vec<String>) -> (r: Result<usize, SessionChoiceError>)
    ensures
        r == session_choice_spec(arg@, str_views(ids@)),
{
    let a = trim_str(arg);
    match parse_usize(a.as_str()) {
        Some(n) => {
            if n == 0 || n > ids.len() {
                Err(SessionChoiceError::BadNumber)
            } else {
                Ok(n - 1)
            }
        },
        None => {
            let ac = chars_of(a.as_str());
            let mut i: usize = 0;
            while i < ids.len()
                invariant
                    i <= ids.len(),
                    ac@ == trim(arg@),
                    parse_usize_spec(trim(arg@)) is None,
                    id_with_prefix(str_views(ids@), ac@, 0) == id_with_prefix(str_views(ids@), ac@, i as int),
                decreases ids.len() - i,
            {
                assert(str_views(ids@)[i as int] == ids@[i as int]@);
                if starts_with_exec(&chars_of(ids[i].as_str()), &ac) {
                    return Ok(i);
                }
                i = i + 1;
            }
            Err(SessionChoiceError::NoMatch)
        },
    }
}

/// The exchanges `/rewind` goes back: its argument as a number, else one.
pub open spec fn rewind_steps_spec(arg: Option<Seq<char>>) -> usize {
    match arg {
        Some(a) => match parse_usize_spec(trim(a)) {
            Some(n) => n,
            None => 1,
        },
        None => 1,
    }
}

/// Reads the argument of `/rewind`.
pub fn rewind_steps(arg: Option<&str>) -> (n: usize)
    ensures
        n == rewind_steps_spec(match arg {
            Some(a) => Some(a@),
            None => None,
        }),
{
    match arg {
        Some(a) => match parse_usize(trim_str(a).as_str()) {
            Some(n) => n,
            None => 1,
        },
        None => 1,
    }
}

/// The messages that going back `n` exchanges removes from `total`: two per
/// exchange, at most all of them.
pub fn rewind_count(n: usize, total: usize) -> (r: usize)
    requires
        n <= usize::MAX / 2,
    ensures
        r == (if 2 * n < total { 2 * n } else { total as int }),
{
    let twice = n * 2;
    if twice < total {
        twice
    } else {
        total
    }
}

/// An effort level.
#[derive(Debug, Clone, Copy, PartialEq, Eq, Structural)]
pub enum EffortLevel {
    Low,
    Medium,
    High,
    Max,
}

/// The effort level an `/effort` argument names (trimmed); `None` asks for
/// the usage.
pub open spec fn effort_level_spec(arg: Option<Seq<char>>) -> Option<EffortLevel> {
    match arg {
        Some(a) => {
            let t = trim(a);
            if t == "low"@ {
                Some(EffortLevel::Low)
            } else if t == "medium"@ {
                Some(EffortLevel::Medium)
            } else if t == "high"@ {
                Some(EffortLevel::High)
            } else if t == "max"@ {
                Some(EffortLevel::Max)
            } else {
                None
            }
        },
        None => None,
    }
}

/// Reads the argument of `/effort`.
pub fn effort_level(arg: Option<&str>) -> (r: Option<EffortLevel>)
    ensures
        r == effort_level_spec(match arg {
            Some(a) => Some(a@),
            None => None,
        }),
{
    match arg {
        Some(a) => {
            let t = trim_str(a);
            let s = t.as_str();
            if str_eq(s, "low") {
                Some(EffortLevel::Low)
            } else if str_eq(s, "medium") {
                Some(EffortLevel::Medium)
            } else if str_eq(s, "high") {
                Some(EffortLevel::High)
            } else if str_eq(s, "max") {
                Some(EffortLevel::Max)
            } else {
                None
            }
        },
        None => None,
    }
}

/// What an argument naming one of a command's options asks for.
pub enum OptionPick {
    /// No argument: show the current value and the usage.
    Show,
    /// The option at this index of the list.
    Pick(usize),
    /// Not one of the options: the trimmed text.
    Unknown(String),
}

/// The first index of `options` equal to `t`.
pub open spec fn option_pos(options: Seq<Seq<char>>, t: Seq<char>, i: int) -> Option<int>
    decreases options.len() - i,
{
    if i < 0 || i >= options.len() {
        None
    } else if options[i] == t {
        Some(i)
    } else {
        option_pos(options, t, i + 1)
    }
}

/// The pick of an argument among `options`, the argument trimmed.
pub open spec fn option_pick_ok(arg: Option<Seq<char>>, options: Seq<Seq<char>>, r: OptionPick) -> bool {
    match arg {
        None => r is Show,
        Some(a) => match option_pos(options, trim(a), 0) {
            Some(i) => r == OptionPick::Pick(i as usize),
            None => r matches OptionPick::Unknown(t) && t@ == trim(a),
        },
    }
}

/// Reads an argument that names one of `options` (`/color`, `/theme`,
/// `/output-style`).
pub fn option_pick(arg: Option<&str>, options: &Vec<&str>) -> (r: OptionPick)
    ensures
        option_pick_ok(
            match arg {
                Some(a) => Some(a@),
                None => None,
            },
            Seq::new(options@.len(), |i: int| options@[i]@),
            r,
        ),
{
    let ghost opts = Seq::new(options@.len(), |i: int| options@[i]@);
    match arg {
        None => OptionPick::Show,
        Some(a) => {
            let t = trim_str(a);
            let mut i: usize = 0;
            while i < options.len()
                invariant
                    i <= options.len(),
                    t@ == trim(a@),
                    arg == Some(a),
                    opts == Seq::new(options@.len(), |i: int| options@[i]@),
                    option_pos(opts, t@, 0) == option_pos(opts, t@, i as int),
                decreases options.len() - i,
            {
                assert(opts[i as int] == options@[i as int]@);
                if str_eq(t.as_str(), options[i]) {
                    return OptionPick::Pick(i);
                }
                i = i + 1;
            }
            OptionPick::Unknown(t)
        },
    }
}

/// The colours `/color` offers.
pub fn prompt_colors() -> (r: Vec<&'static str>)
    ensures
        Seq::new(r@.len(), |i: int| r@[i]@) == seq!["blue"@, "green"@, "red"@, "yellow"@, "cyan"@, "magenta"@, "white"@],
{
    let r = vec!["blue", "green", "red", "yellow", "cyan", "magenta", "white"];
    assert(Seq::new(r@.len(), |i: int| r@[i]@) =~= seq!["blue"@, "green"@, "red"@, "yellow"@, "cyan"@, "magenta"@, "white"@]);
    r
}

/// What `/permissions` asks for.
#[derive(Debug, Clone, Copy, PartialEq, Eq, Structural)]
pub enum PermissionsCommand {
    /// Show the mode and the rules.
    Show,
    /// Set this mode (`default`, `auto` or `bypass`).
    SetMode(crate::permissions::PermissionMode),
    /// `mode` with another name.
    InvalidMode,
}

/// `/permissions mode NAME` sets `default`, `auto` or `bypass` (the name
/// trimmed) and refuses any other name; anything else shows the settings.
pub open spec fn permissions_spec(arg: Option<Seq<char>>) -> PermissionsCommand {
    match arg {
        Some(a) => {
            let t = trim(a);
            if starts_with(t, "mode "@) {
                let m = trim(t.skip(5));
                if m == "default"@ {
                    PermissionsCommand::SetMode(crate::permissions::PermissionMode::Default)
                } else if m == "auto"@ {
                    PermissionsCommand::SetMode(crate::permissions::PermissionMode::Auto)
                } else if m == "bypass"@ {
                    PermissionsCommand::SetMode(crate::permissions::PermissionMode::Bypass)
                } else {
                    PermissionsCommand::InvalidMode
                }
            } else {
                PermissionsCommand::Show
            }
        },
        None => PermissionsCommand::Show,
    }
}

/// Reads the argument of `/permissions`.
pub fn permissions_command(arg: Option<&str>) -> (r: PermissionsCommand)
    ensures
        r == permissions_spec(match arg {
            Some(a) => Some(a@),
            None => None,
        }),
{
    match arg {
        None => PermissionsCommand::Show,
        Some(a) => {
            proof {
                reveal_strlit("mode ");
            }
            let t = chars_of(trim_str(a).as_str());
            if starts_with_exec(&t, &chars_of("mode ")) {
                let rest = sub_vec(&t, 5, t.len());
                assert(rest@ =~= t@.skip(5));
                let m = trim_str(string_from(&rest).as_str());
                let s = m.as_str();
                if str_eq(s, "default") {
                    PermissionsCommand::SetMode(crate::permissions::PermissionMode::Default)
                } else if str_eq(s, "auto") {
                    PermissionsCommand::SetMode(crate::permissions::PermissionMode::Auto)
                } else if str_eq(s, "bypass") {
                    PermissionsCommand::SetMode(crate::permissions::PermissionMode::Bypass)
                } else {
                    PermissionsCommand::InvalidMode
                }
            } else {
                PermissionsCommand::Show
            }
        },
    }
}

// ---------------------------------------------------------------------------
// The full-screen front end's commands
// ---------------------------------------------------------------------------

/// A picker the full-screen front end opens.
#[derive(Debug, Clone, Copy, PartialEq, Eq, Structural)]
pub enum PickerKind {
    Model,
    Help,
    Resume,
    Theme,
    Permissions,
    Effort,
    Skills,
    Config,
}

/// What a `/command` line asks of the full-screen front end.
pub enum ScreenCommand {
    /// Show the cost and token counts.
    ShowCost,
    /// Clear the conversation and the transcript.
    Clear,
    /// Switch to this model.
    SetModel(String),
    /// Show the session status.
    ShowStatus,
    /// Open a picker.
    Open(PickerKind),
    /// Quit.
    Quit,
    /// Toggle fast mode.
    ToggleFast,
    /// Open the diff viewer.
    OpenDiff,
    /// Anything else, as the line-mode dispatch decides it.
    Delegate(CommandAction),
}

/// A screen command as plain values.
pub enum ScreenModel {
    ShowCost,
    Clear,
    SetModel(Seq<char>),
    ShowStatus,
    Open(PickerKind),
    Quit,
    ToggleFast,
    OpenDiff,
    Delegate(ActionModel),
}

pub open spec fn screen_model(c: ScreenCommand) -> ScreenModel {
    match c {
        ScreenCommand::ShowCost => ScreenModel::ShowCost,
        ScreenCommand::Clear => ScreenModel::Clear,
        ScreenCommand::SetModel(m) => ScreenModel::SetModel(m@),
        ScreenCommand::ShowStatus => ScreenModel::ShowStatus,
        ScreenCommand::Open(k) => ScreenModel::Open(k),
        ScreenCommand::Quit => ScreenModel::Quit,
        ScreenCommand::ToggleFast => ScreenModel::ToggleFast,
        ScreenCommand::OpenDiff => ScreenModel::OpenDiff,
        ScreenCommand::Delegate(a) => ScreenModel::Delegate(action_model(a)),
    }
}

/// The full-screen front end's reading of a command line, by its
/// white-space separated words: `/cost`, `/clear`, `/status`, `/help`,
/// `/quit` (`/exit`, `/q`), `/fast`, `/skills` and `/diff` act at once;
/// `/model NAME` switches model and `/model` alone opens the model picker;
/// `/resume` (`/continue`), `/theme`, `/permissions` (`/allowed-tools`),
/// `/effort` and `/config` (`/settings`) open their picker when no argument
/// follows; everything else goes to the line-mode dispatch.
pub open spec fn screen_spec(input: Seq<char>, skills: Option<SkillRegistry>, plugins: Option<PluginRegistry>) -> ScreenModel {
    let ws = crate::text::split_ws_spec(input);
    let cmd = if ws.len() > 0 { ws[0] } else { Seq::<char>::empty() };
    let has_arg = ws.len() > 1;
    let delegate = ScreenModel::Delegate(command_spec(input, skills, plugins));
    if cmd == "/cost"@ {
        ScreenModel::ShowCost
    } else if cmd == "/clear"@ {
        ScreenModel::Clear
    } else if cmd == "/model"@ {
        if has_arg { ScreenModel::SetModel(ws[1]) } else { ScreenModel::Open(PickerKind::Model) }
    } else if cmd == "/status"@ {
        ScreenModel::ShowStatus
    } else if cmd == "/help"@ {
        ScreenModel::Open(PickerKind::Help)
    } else if cmd == "/quit"@ || cmd == "/exit"@ || cmd == "/q"@ {
        ScreenModel::Quit
    } else if cmd == "/resume"@ || cmd == "/continue"@ {
        if has_arg { delegate } else { ScreenModel::Open(PickerKind::Resume) }
    } else if cmd == "/theme"@ {
        if has_arg { delegate } else { ScreenModel::Open(PickerKind::Theme) }
    } else if cmd == "/permissions"@ || cmd == "/allowed-tools"@ {
        if has_arg { delegate } else { ScreenModel::Open(PickerKind::Permissions) }
    } else if cmd == "/fast"@ {
        ScreenModel::ToggleFast
    } else if cmd == "/effort"@ {
        if has_arg { delegate } else { ScreenModel::Open(PickerKind::Effort) }
    } else if cmd == "/skills"@ {
        ScreenModel::Open(PickerKind::Skills)
    } else if cmd == "/config"@ || cmd == "/settings"@ {
        if has_arg { delegate } else { ScreenModel::Open(PickerKind::Config) }
    } else if cmd == "/diff"@ {
        ScreenModel::OpenDiff
    } else {
        delegate
    }
}

/// Decides what a `/command` line asks of the full-screen front end.
pub fn screen_command(input: &str, skills: Option<&SkillRegistry>, plugins: Option<&PluginRegistry>) -> (r: ScreenCommand)
    requires
        input@.len() > 0,
        input@[0] == '/',
    ensures
        screen_model(r) == screen_spec(
            input@,
            match skills {
                Some(s) => Some(*s),
                None => None,
            },
            match plugins {
                Some(p) => Some(*p),
                None => None,
            },
        ),
{
    let ws = crate::text::split_whitespace(&chars_of(input));
    let cmd_v: Vec<char> = if ws.len() > 0 { crate::text::concat_chars(&ws[0], &Vec::new()) } else { Vec::new() };
    proof {
        if ws.len() > 0 {
            assert(ws.deep_view()[0] == ws@[0]@);
            assert(cmd_v@ =~= ws@[0]@);
        } else {
            assert(cmd_v@ =~= Seq::<char>::empty());
        }
    }
    let cmd_s = string_from(&cmd_v);
    let c = cmd_s.as_str();
    let has_arg = ws.len() > 1;
    if str_eq(c, "/cost") {
        ScreenCommand::ShowCost
    } else if str_eq(c, "/clear") {
        ScreenCommand::Clear
    } else if str_eq(c, "/model") {
        if has_arg {
            assert(ws.deep_view()[1] == ws@[1]@);
            ScreenCommand::SetModel(string_from(&ws[1]))
        } else {
            ScreenCommand::Open(PickerKind::Model)
        }
    } else if str_eq(c, "/status") {
        ScreenCommand::ShowStatus
    } else if str_eq(c, "/help") {
        ScreenCommand::Open(PickerKind::Help)
    } else if str_eq(c, "/quit") || str_eq(c, "/exit") || str_eq(c, "/q") {
        ScreenCommand::Quit
    } else if str_eq(c, "/resume") || str_eq(c, "/continue") {
        if has_arg { ScreenCommand::Delegate(command_action(input, skills, plugins)) } else { ScreenCommand::Open(PickerKind::Resume) }
    } else if str_eq(c, "/theme") {
        if has_arg { ScreenCommand::Delegate(command_action(input, skills, plugins)) } else { ScreenCommand::Open(PickerKind::Theme) }
    } else if str_eq(c, "/permissions") || str_eq(c, "/allowed-tools") {
        if has_arg { ScreenCommand::Delegate(command_action(input, skills, plugins)) } else { ScreenCommand::Open(PickerKind::Permissions) }
    } else if str_eq(c, "/fast") {
        ScreenCommand::ToggleFast
    } else if str_eq(c, "/effort") {
        if has_arg { ScreenCommand::Delegate(command_action(input, skills, plugins)) } else { ScreenCommand::Open(PickerKind::Effort) }
    } else if str_eq(c, "/skills") {
        ScreenCommand::Open(PickerKind::Skills)
    } else if str_eq(c, "/config") || str_eq(c, "/settings") {
        if has_arg { ScreenCommand::Delegate(command_action(input, skills, plugins)) } else { ScreenCommand::Open(PickerKind::Config) }
    } else if str_eq(c, "/diff") {
        ScreenCommand::OpenDiff
    } else {
        ScreenCommand::Delegate(command_action(input, skills, plugins))
    }
}

} // verus!
