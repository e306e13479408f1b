use vstd::prelude::*;

use crate::text::{
    to_lowercase, unicode_lowercase, chars_of, contains, copy_str, ends_with, push_char, push_str, starts_with, str_contains,
    str_eq, };

verus! {

// ---------------------------------------------------------------------------
// Modes and rules
// ---------------------------------------------------------------------------

/// How tool calls that no rule decides are handled.
#[derive(Debug, Clone, Copy, PartialEq, Eq, Structural)]
pub enum PermissionMode {
    Default,
    Auto,
    Plan,
    Bypass,
}

impl Default for PermissionMode {
    fn default() -> (r: Self)
        ensures
            r == PermissionMode::Default,
    {
        PermissionMode::Default
    }
}

/// The mode that a lower-cased mode name selects.
pub open spec fn mode_named(l: Seq<char>) -> PermissionMode {
    if l == "bypass"@ || l == "yolo"@ {
        PermissionMode::Bypass
    } else if l == "plan"@ {
        PermissionMode::Plan
    } else if l == "auto"@ {
        PermissionMode::Auto
    } else {
        PermissionMode::Default
    }
}

/// The mode that a lower-cased mode name selects: `bypass` or `yolo`,
/// `plan`, `auto`; anything else is the default mode.
pub fn mode_from_lowercase(l: &str) -> (m: PermissionMode)
    ensures
        m == mode_named(l@),
{
    if str_eq(l, "bypass") || str_eq(l, "yolo") {
        PermissionMode::Bypass
    } else if str_eq(l, "plan") {
        PermissionMode::Plan
    } else if str_eq(l, "auto") {
        PermissionMode::Auto
    } else {
        PermissionMode::Default
    }
}

impl PermissionMode {
    /// Parses a mode name, ignoring case.
    pub fn parse_mode(s: &str) -> (m: Self)
        ensures
            m == mode_named(unicode_lowercase(s@)),
            crate::text::all_ascii(s@) ==> m == mode_named(crate::text::ascii_lowered(s@)),
    {
        let l = to_lowercase(s);
        mode_from_lowercase(l.as_str())
    }
}

/// A permission rule as configured: a tool name and an optional content pattern.
pub struct PermissionRule {
    pub tool: String,
    pub pattern: Option<String>,
}

/// A parsed permission rule: tool name + optional content pattern.
#[derive(Debug, Clone)]
pub struct ParsedRule {
    pub tool: String,
    pub pattern: Option<String>,
}

/// The pattern of a rule as characters.
pub open spec fn pattern_view(p: Option<String>) -> Option<Seq<char>> {
    match p {
        Some(s) => Some(s@),
        None => None,
    }
}

/// A copy of an optional string.
fn copy_opt(p: &Option<String>) -> (r: Option<String>)
    ensures
        pattern_view(r) == pattern_view(*p),
{
    match p {
        Some(s) => Some(copy_str(s.as_str())),
        None => None,
    }
}

/// Parse a configured rule into a `ParsedRule`: the same tool and pattern.
pub fn parse_rule(rule: &PermissionRule) -> (r: ParsedRule)
    ensures
        r.tool@ == rule.tool@,
        pattern_view(r.pattern) == pattern_view(rule.pattern),
{
    ParsedRule { tool: copy_str(rule.tool.as_str()), pattern: copy_opt(&rule.pattern) }
}

// ---------------------------------------------------------------------------
// Tool inputs
// ---------------------------------------------------------------------------

/// What the permission logic reads of a tool call's JSON input: its
/// top-level members whose values are strings, in order, and the input
/// serialised as compact JSON text.
pub struct ToolInput {
    pub string_fields: Vec<(String, String)>,
    pub json: String,
}

/// The string value of the first member named `key`.
pub open spec fn field_from(fields: Seq<(String, String)>, key: Seq<char>, i: int) -> Option<
    Seq<char>,
>
    decreases fields.len() - i,
{
    if i < 0 || i >= fields.len() {
        None
    } else if fields[i].0@ == key {
        Some(fields[i].1@)
    } else {
        field_from(fields, key, i + 1)
    }
}

/// The string value of the member named `key`, or `default` when there is
/// none (or it is not a string).
pub open spec fn field_or(input: ToolInput, key: Seq<char>, default: Seq<char>) -> Seq<char> {
    match field_from(input.string_fields@, key, 0) {
        Some(v) => v,
        None => default,
    }
}

impl ToolInput {
    /// The string value of the member named `key`, if there is one.
    pub fn get_str(&self, key: &str) -> (r: Option<String>)
        ensures
            pattern_view(r) == field_from(self.string_fields@, key@, 0),
    {
        let mut i: usize = 0;
        while i < self.string_fields.len()
            invariant
                i <= self.string_fields.len(),
                field_from(self.string_fields@, key@, 0) == field_from(
                    self.string_fields@,
                    key@,
                    i as int,
                ),
            decreases self.string_fields.len() - i,
        {
            if str_eq(self.string_fields[i].0.as_str(), key) {
                return Some(copy_str(self.string_fields[i].1.as_str()));
            }
            i = i + 1;
        }
        None
    }

    /// The string value of the member named `key`, or `default`.
    fn get_or(&self, key: &str, default: &str) -> (r: String)
        ensures
            r@ == field_or(*self, key@, default@),
    {
        match self.get_str(key) {
            Some(v) => v,
            None => copy_str(default),
        }
    }
}

// ---------------------------------------------------------------------------
// Matching rules
// ---------------------------------------------------------------------------

/// A rule's tool name matches a tool: exactly, or by a trailing `*` as a prefix.
pub open spec fn tool_matches(rule_tool: Seq<char>, actual: Seq<char>) -> bool {
    rule_tool == actual || (rule_tool.len() > 0 && rule_tool.last() == '*' && starts_with(
        actual,
        rule_tool.drop_last(),
    ))
}

/// Match tool name: exact or trailing wildcard (`Bash*` matches `Bash`, `BashTerminal`).
pub fn tool_name_matches(rule_tool: &str, actual: &str) -> (r: bool)
    ensures
        r == tool_matches(rule_tool@, actual@),
{
    let rt = chars_of(rule_tool);
    let a = chars_of(actual);
    if crate::text::chars_eq(&rt, &a) {
        return true;
    }
    if rt.len() > 0 && rt[rt.len() - 1] == '*' {
        let stem = crate::text::sub_vec(&rt, 0, rt.len() - 1);
        assert(stem@ =~= rt@.drop_last());
        crate::text::starts_with_exec(&a, &stem)
    } else {
        false
    }
}

/// The tool names whose matchable content is their file path.
pub open spec fn is_file_tool(t: Seq<char>) -> bool {
    t == "Read"@ || t == "Write"@ || t == "Edit"@
}

/// The content that a rule's pattern is matched against: the command of
/// `Bash`, the file path of `Read`, `Write` and `Edit`, the pattern of
/// `Glob` and `Grep` (each empty when missing), and the whole input as JSON
/// for any other tool.
pub open spec fn matchable_content(tool_name: Seq<char>, input: ToolInput) -> Seq<char> {
    if tool_name == "Bash"@ {
        field_or(input, "command"@, ""@)
    } else if is_file_tool(tool_name) {
        field_or(input, "file_path"@, ""@)
    } else if tool_name == "Glob"@ || tool_name == "Grep"@ {
        field_or(input, "pattern"@, ""@)
    } else {
        input.json@
    }
}

/// Extract the matchable content string from tool input based on tool type.
pub fn extract_matchable_content(tool_name: &str, input: &ToolInput) -> (r: String)
    ensures
        r@ == matchable_content(tool_name@, *input),
{
    if str_eq(tool_name, "Bash") {
        input.get_or("command", "")
    } else if str_eq(tool_name, "Read") || str_eq(tool_name, "Write") || str_eq(tool_name, "Edit") {
        input.get_or("file_path", "")
    } else if str_eq(tool_name, "Glob") || str_eq(tool_name, "Grep") {
        input.get_or("pattern", "")
    } else {
        copy_str(input.json.as_str())
    }
}

/// Whether the regular expression `re` compiles, and if so whether it finds
/// a match in `text`, as the `regex` crate decides.
pub uninterp spec fn regex_outcome(re: Seq<char>, text: Seq<char>) -> Option<bool>;

/// `regex::Regex::new` on `re`, then `Regex::is_match` on `text`: `None`
/// when the pattern does not compile. What the regex engine answers is
/// named `regex_outcome`.
#[verifier::external_body]
fn regex_search(re: &str, text: &str) -> (r: Option<bool>)
    ensures
        r == regex_outcome(re@, text@),
{
    match regex::Regex::new(re) {
        Ok(compiled) => Some(compiled.is_match(text)),
        Err(_) => None,
    }
}

/// The characters that a wildcard pattern escapes for the regex engine.
pub open spec fn is_regex_meta(c: char) -> bool {
    c == '.' || c == '+' || c == '?' || c == '(' || c == ')' || c == '[' || c == ']' || c == '{'
        || c == '}' || c == '\\' || c == '^' || c == '$' || c == '|'
}

/// The regex text for a wildcard pattern body: `*` is any run of characters,
/// regex metacharacters are escaped, others stand for themselves.
pub open spec fn wildcard_body(p: Seq<char>) -> Seq<char>
    decreases p.len(),
{
    if p.len() == 0 {
        Seq::empty()
    } else {
        let c = p.last();
        wildcard_body(p.drop_last()) + (if c == '*' {
            seq!['.', '*']
        } else if is_regex_meta(c) {
            seq!['\\', c]
        } else {
            seq![c]
        })
    }
}

/// The anchored regex of a wildcard pattern. A trailing ` *` is optional:
/// `git *` matches `git` and `git status`.
pub open spec fn wildcard_regex_spec(pattern: Seq<char>) -> Seq<char> {
    if ends_with(pattern, " *"@) {
        "^"@ + wildcard_body(pattern.take(pattern.len() - 2)) + "( .*)?"@ + "$"@
    } else {
        "^"@ + wildcard_body(pattern) + "$"@
    }
}

/// Whether a wildcard pattern matches the whole text (a pattern whose regex
/// does not compile matches nothing).
pub open spec fn wildcard_matches(pattern: Seq<char>, text: Seq<char>) -> bool {
    regex_outcome(wildcard_regex_spec(pattern), text) == Some(true)
}

/// The anchored regex text of a wildcard pattern.
pub fn wildcard_regex(pattern: &str) -> (r: String)
    ensures
        r@ == wildcard_regex_spec(pattern@),
{
    let p = chars_of(pattern);
    let tail = chars_of(" *");
    let has_optional_tail = crate::text::ends_with_exec(&p, &tail);
    proof {
        reveal_strlit(" *");
        reveal_strlit("^");
        reveal_strlit("$");
    }
    let n = if has_optional_tail {
        p.len() - 2
    } else {
        p.len()
    };
    let mut r = String::new();
    push_char(&mut r, '^');
    let ghost head = r@;
    assert(head =~= "^"@);
    let mut i: usize = 0;
    assert(p@.take(0) =~= Seq::<char>::empty());
    while i < n
        invariant
            n <= p.len(),
            i <= n,
            head == "^"@,
            r@ == head + wildcard_body(p@.take(i as int)),
        decreases n - i,
    {
        let ch = p[i];
        if ch == '*' {
            push_str(&mut r, ".*");
            proof {
                reveal_strlit(".*");
            }
        } else if ch == '.' || ch == '+' || ch == '?' || ch == '(' || ch == ')' || ch == '['
            || ch == ']' || ch == '{' || ch == '}' || ch == '\\' || ch == '^' || ch == '$' || ch
            == '|' {
            push_char(&mut r, '\\');
            push_char(&mut r, ch);
        } else {
            push_char(&mut r, ch);
        }
        assert(p@.take(i + 1).drop_last() =~= p@.take(i as int));
        i = i + 1;
        assert(r@ =~= head + wildcard_body(p@.take(i as int)));
    }
    if has_optional_tail {
        push_str(&mut r, "( .*)?");
    }
    push_char(&mut r, '$');
    proof {
        if !has_optional_tail {
            assert(p@.take(n as int) =~= p@);
        }
    }
    assert(r@ =~= wildcard_regex_spec(pattern@));
    r
}

/// Wildcard pattern matching: `*` matches any sequence of characters, and a
/// trailing ` *` (space, star) is optional, so `git *` matches both `git`
/// and `git status`. The whole text must match.
pub fn wildcard_match(pattern: &str, text: &str) -> (r: bool)
    ensures
        r == wildcard_matches(pattern@, text@),
{
    let re = wildcard_regex(pattern);
    match regex_search(re.as_str(), text) {
        Some(b) => b,
        None => false,
    }
}

/// Whether `rule` applies to a call of `tool_name` with `input`: the tool
/// name matches, and the pattern, if any, matches the call's content.
pub open spec fn rule_applies(rule: ParsedRule, tool_name: Seq<char>, input: ToolInput) -> bool {
    &&& tool_matches(rule.tool@, tool_name)
    &&& match rule.pattern {
        None => true,
        Some(p) => wildcard_matches(p@, matchable_content(tool_name, input)),
    }
}

/// Check if a rule matches the given tool name and input.
pub fn rule_matches(rule: &ParsedRule, tool_name: &str, input: &ToolInput) -> (r: bool)
    ensures
        r == rule_applies(*rule, tool_name@, *input),
{
    if !tool_name_matches(rule.tool.as_str(), tool_name) {
        return false;
    }
    match &rule.pattern {
        None => true,
        Some(p) => {
            let content = extract_matchable_content(tool_name, input);
            wildcard_match(p.as_str(), content.as_str())
        },
    }
}

// ---------------------------------------------------------------------------
// Dangerous operations
// ---------------------------------------------------------------------------

/// File paths that always require explicit approval, even in bypass mode.
pub open spec fn dangerous_paths() -> Seq<Seq<char>> {
    seq![
        "/etc/passwd"@,
        "/etc/shadow"@,
        "/etc/sudoers"@,
        ".ssh/"@,
        ".ssh/id_"@,
        ".ssh/authorized_keys"@,
        ".gnupg/"@,
        ".aws/credentials"@,
        ".env"@,
        ".env.local"@,
        ".env.production"@,
        ".env.staging"@,
    ]
}

/// Command fragments that always require explicit approval.
pub open spec fn dangerous_commands() -> Seq<Seq<char>> {
    seq![
        "chmod 777"@,
        "chmod -R 777"@,
        "mkfs"@,
        "dd if="@,
        "> /dev/sd"@,
        ":(){ :|:& };:"@,
        "| sh"@,
        "| bash"@,
    ]
}

/// Regexes for `rm` commands aimed at the root, the home directory or the
/// current directory (`rm -rf /`, `rm -rf ~`, `rm -rf .`, not `rm -rf /tmp/x`).
pub open spec fn dangerous_rm_patterns() -> Seq<Seq<char>> {
    seq![
        "rm\\s+(-\\w*f\\w*\\s+)*/$"@,
        "rm\\s+(-\\w*f\\w*\\s+)*/\\s"@,
        "rm\\s+(-\\w*f\\w*\\s+)*~"@,
        "rm\\s+(-\\w*f\\w*\\s+)*\\.\\s*$"@,
        "rm\\s+(-\\w*f\\w*\\s+)*\\.$"@,
    ]
}

fn dangerous_path(i: usize) -> (r: &'static str)
    requires
        i < 12,
    ensures
        r@ == dangerous_paths()[i as int],
{
    match i {
        0 => "/etc/passwd",
        1 => "/etc/shadow",
        2 => "/etc/sudoers",
        3 => ".ssh/",
        4 => ".ssh/id_",
        5 => ".ssh/authorized_keys",
        6 => ".gnupg/",
        7 => ".aws/credentials",
        8 => ".env",
        9 => ".env.local",
        10 => ".env.production",
        _ => ".env.staging",
    }
}

fn dangerous_command(i: usize) -> (r: &'static str)
    requires
        i < 8,
    ensures
        r@ == dangerous_commands()[i as int],
{
    match i {
        0 => "chmod 777",
        1 => "chmod -R 777",
        2 => "mkfs",
        3 => "dd if=",
        4 => "> /dev/sd",
        5 => ":(){ :|:& };:",
        6 => "| sh",
        _ => "| bash",
    }
}

fn dangerous_rm_pattern(i: usize) -> (r: &'static str)
    requires
        i < 5,
    ensures
        r@ == dangerous_rm_patterns()[i as int],
{
    match i {
        0 => "rm\\s+(-\\w*f\\w*\\s+)*/$",
        1 => "rm\\s+(-\\w*f\\w*\\s+)*/\\s",
        2 => "rm\\s+(-\\w*f\\w*\\s+)*~",
        3 => "rm\\s+(-\\w*f\\w*\\s+)*\\.\\s*$",
        _ => "rm\\s+(-\\w*f\\w*\\s+)*\\.$",
    }
}

/// `s` contains one of `list`.
pub open spec fn contains_any(s: Seq<char>, list: Seq<Seq<char>>) -> bool {
    exists|i: int| 0 <= i < list.len() && contains(s, #[trigger] list[i])
}

/// One of the dangerous `rm` regexes compiles and finds a match in `cmd`.
pub open spec fn rm_flagged(cmd: Seq<char>) -> bool {
    exists|i: int|
        0 <= i < dangerous_rm_patterns().len() && regex_outcome(
            #[trigger] dangerous_rm_patterns()[i],
            cmd,
        ) == Some(true)
}

/// A call that always requires explicit approval: a `Bash` command with a
/// dangerous fragment or a dangerous `rm`, or a `Write` or `Edit` of a
/// dangerous path.
pub open spec fn is_dangerous_call(tool_name: Seq<char>, input: ToolInput) -> bool {
    if tool_name == "Bash"@ {
        let cmd = field_or(input, "command"@, ""@);
        contains_any(cmd, dangerous_commands()) || rm_flagged(cmd)
    } else if tool_name == "Write"@ || tool_name == "Edit"@ {
        contains_any(field_or(input, "file_path"@, ""@), dangerous_paths())
    } else {
        false
    }
}

/// A `Bash` call is dangerous whenever any of the dangerous `rm` regexes
/// finds a match in its command: `rm` (with any `-...f...` flags) of `/`
/// at the end or before a space, of `~`, or of `.` at the end.
pub proof fn law_dangerous_rm_is_dangerous(input: ToolInput, pattern: Seq<char>)
    requires
        is_listed_rm_regex(pattern),
        regex_outcome(pattern, field_or(input, "command"@, ""@)) == Some(true),
    ensures
        is_dangerous_call("Bash"@, input),
{
    let ps = dangerous_rm_patterns();
    let cmd = field_or(input, "command"@, ""@);
    if pattern == ps[0] {
        assert(rm_flagged(cmd));
    } else if pattern == ps[1] {
        assert(rm_flagged(cmd));
    } else if pattern == ps[2] {
        assert(rm_flagged(cmd));
    } else if pattern == ps[3] {
        assert(rm_flagged(cmd));
    } else {
        assert(pattern == ps[4]);
        assert(rm_flagged(cmd));
    }
}

/// A `Bash` command holding any dangerous fragment (world-writable
/// `chmod`, `mkfs`, `dd if=`, writing to a disk device, a fork bomb, or
/// piping into a shell) is dangerous.
pub proof fn law_dangerous_fragment_is_dangerous(input: ToolInput, fragment: Seq<char>)
    requires
        is_listed_fragment(fragment),
        contains(field_or(input, "command"@, ""@), fragment),
    ensures
        is_dangerous_call("Bash"@, input),
{
    let l = dangerous_commands();
    let cmd = field_or(input, "command"@, ""@);
    let i: int = if fragment == l[0] { 0 } else if fragment == l[1] { 1 } else if fragment == l[2] { 2 } else if fragment
        == l[3] { 3 } else if fragment == l[4] { 4 } else if fragment == l[5] { 5 } else if fragment == l[6] {
        6
    } else {
        7
    };
    assert(l[i] == fragment);
    assert(contains_any(cmd, l));
}

/// A `Write` or `Edit` of a path holding any sensitive fragment (system
/// password and sudo files, SSH and GnuPG directories, AWS credentials,
/// `.env` files) is dangerous.
pub proof fn law_dangerous_path_is_dangerous(tool_name: Seq<char>, input: ToolInput, fragment: Seq<char>)
    requires
        tool_name == "Write"@ || tool_name == "Edit"@,
        is_listed_path(fragment),
        contains(field_or(input, "file_path"@, ""@), fragment),
    ensures
        is_dangerous_call(tool_name, input),
{
    let l = dangerous_paths();
    let path = field_or(input, "file_path"@, ""@);
    let i: int = if fragment == l[0] { 0 } else if fragment == l[1] { 1 } else if fragment == l[2] { 2 } else if fragment
        == l[3] { 3 } else if fragment == l[4] { 4 } else if fragment == l[5] { 5 } else if fragment == l[6] {
        6
    } else if fragment == l[7] {
        7
    } else if fragment == l[8] {
        8
    } else if fragment == l[9] {
        9
    } else if fragment == l[10] {
        10
    } else {
        11
    };
    assert(l[i] == fragment);
    assert(contains_any(path, l));
    assert(tool_name != "Bash"@) by {
        reveal_strlit("Bash");
        reveal_strlit("Write");
        reveal_strlit("Edit");
        assert(tool_name[0] != 'B');
    }
}

/// The dangerous command fragments.
pub open spec fn is_listed_fragment(f: Seq<char>) -> bool {
    f == "chmod 777"@ || f == "chmod -R 777"@ || f == "mkfs"@ || f == "dd if="@ || f == "> /dev/sd"@ || f
        == ":(){ :|:& };:"@ || f == "| sh"@ || f == "| bash"@
}

/// The dangerous `rm` regexes.
pub open spec fn is_listed_rm_regex(p: Seq<char>) -> bool {
    p == "rm\\s+(-\\w*f\\w*\\s+)*/$"@ || p == "rm\\s+(-\\w*f\\w*\\s+)*/\\s"@ || p
        == "rm\\s+(-\\w*f\\w*\\s+)*~"@ || p == "rm\\s+(-\\w*f\\w*\\s+)*\\.\\s*$"@ || p
        == "rm\\s+(-\\w*f\\w*\\s+)*\\.$"@
}

/// The sensitive path fragments.
pub open spec fn is_listed_path(f: Seq<char>) -> bool {
    f == "/etc/passwd"@ || f == "/etc/shadow"@ || f == "/etc/sudoers"@ || f == ".ssh/"@ || f == ".ssh/id_"@ || f
        == ".ssh/authorized_keys"@ || f == ".gnupg/"@ || f == ".aws/credentials"@ || f == ".env"@ || f
        == ".env.local"@ || f == ".env.production"@ || f == ".env.staging"@
}

/// Only listed dangers make a call dangerous: a `Bash` command holding a
/// dangerous fragment or matched by a dangerous `rm` regex, or a `Write` or
/// `Edit` of a path holding a sensitive fragment; no other tool's call is.
pub proof fn law_dangerous_only_when_listed(tool_name: Seq<char>, input: ToolInput)
    requires
        is_dangerous_call(tool_name, input),
    ensures
        tool_name == "Bash"@ || tool_name == "Write"@ || tool_name == "Edit"@,
        tool_name == "Bash"@ ==> (exists|f: Seq<char>|
            is_listed_fragment(f) && #[trigger] contains(field_or(input, "command"@, ""@), f)) || (exists|p: Seq<char>|
            is_listed_rm_regex(p) && #[trigger] regex_outcome(p, field_or(input, "command"@, ""@)) == Some(true)),
        tool_name != "Bash"@ ==> exists|f: Seq<char>|
            is_listed_path(f) && #[trigger] contains(field_or(input, "file_path"@, ""@), f),
{
    if tool_name == "Bash"@ {
        let cmd = field_or(input, "command"@, ""@);
        let l = dangerous_commands();
        if contains_any(cmd, l) {
            let i = choose|i: int| 0 <= i < l.len() && contains(cmd, #[trigger] l[i]);
            assert(is_listed_fragment(l[i]));
            assert(contains(cmd, l[i]));
        } else {
            let ps = dangerous_rm_patterns();
            let i = choose|i: int| 0 <= i < ps.len() && regex_outcome(#[trigger] ps[i], cmd) == Some(true);
            assert(is_listed_rm_regex(ps[i]));
            assert(regex_outcome(ps[i], cmd) == Some(true));
        }
    } else {
        let path = field_or(input, "file_path"@, ""@);
        let l = dangerous_paths();
        let i = choose|i: int| 0 <= i < l.len() && contains(path, #[trigger] l[i]);
        assert(is_listed_path(l[i]));
        assert(contains(path, l[i]));
    }
}

/// Whether `s` contains one of the first `n` entries of a table.
fn contains_listed(s: &str, table: u8, n: usize) -> (r: bool)
    requires
        table == 0 ==> n == 12,
        table == 1 ==> n == 8,
        table <= 1,
    ensures
        r == contains_any(s@, if table == 0 {
            dangerous_paths()
        } else {
            dangerous_commands()
        }),
{
    let ghost list = if table == 0 {
        dangerous_paths()
    } else {
        dangerous_commands()
    };
    let mut i: usize = 0;
    while i < n
        invariant
            i <= n,
            table <= 1,
            table == 0 ==> n == 12,
            table == 1 ==> n == 8,
            list == (if table == 0 {
                dangerous_paths()
            } else {
                dangerous_commands()
            }),
            forall|k: int| 0 <= k < i ==> !contains(s@, #[trigger] list[k]),
        decreases n - i,
    {
        let d = if table == 0 {
            dangerous_path(i)
        } else {
            dangerous_command(i)
        };
        if str_contains(s, d) {
            assert(contains(s@, list[i as int]));
            return true;
        }
        i = i + 1;
    }
    false
}

/// Check if a tool invocation touches dangerous paths or commands.
///
/// Returns true if the operation should require explicit user approval
/// regardless of permission mode or allow rules.
pub fn is_dangerous(tool_name: &str, input: &ToolInput) -> (r: bool)
    ensures
        r == is_dangerous_call(tool_name@, *input),
{
    if str_eq(tool_name, "Bash") {
        let cmd = input.get_or("command", "");
        if contains_listed(cmd.as_str(), 1, 8) {
            return true;
        }
        let mut i: usize = 0;
        while i < 5
            invariant
                i <= 5,
                tool_name@ == "Bash"@,
                cmd@ == field_or(*input, "command"@, ""@),
                !contains_any(cmd@, dangerous_commands()),
                forall|k: int|
                    0 <= k < i ==> regex_outcome(#[trigger] dangerous_rm_patterns()[k], cmd@)
                        != Some(true),
            decreases 5 - i,
        {
            if let Some(true) = regex_search(dangerous_rm_pattern(i), cmd.as_str()) {
                assert(dangerous_rm_patterns().len() == 5);
                assert(regex_outcome(dangerous_rm_patterns()[i as int], cmd@) == Some(true));
                return true;
            }
            i = i + 1;
        }
        false
    } else if str_eq(tool_name, "Write") || str_eq(tool_name, "Edit") {
        let path = input.get_or("file_path", "");
        contains_listed(path.as_str(), 0, 12)
    } else {
        false
    }
}

// ---------------------------------------------------------------------------
// Describing a call
// ---------------------------------------------------------------------------

/// The one-line description of a call shown when asking for approval.
pub open spec fn call_description(tool_name: Seq<char>, input: ToolInput) -> Seq<char> {
    if tool_name == "Bash"@ || tool_name == "BashTool"@ {
        "command: "@ + field_or(input, "command"@, "?"@)
    } else if tool_name == "Write"@ || tool_name == "FileWriteTool"@ {
        "write to: "@ + field_or(input, "file_path"@, "?"@)
    } else if tool_name == "Edit"@ || tool_name == "FileEditTool"@ {
        "edit: "@ + field_or(input, "file_path"@, "?"@)
    } else if tool_name == "WebFetch"@ || tool_name == "WebFetchTool"@ {
        "fetch: "@ + field_or(input, "url"@, "?"@)
    } else if tool_name == "WebSearch"@ || tool_name == "WebSearchTool"@ {
        "search: "@ + field_or(input, "query"@, "?"@)
    } else if tool_name == "Agent"@ || tool_name == "AgentTool"@ {
        "agent: "@ + field_or(input, "description"@, "?"@)
    } else {
        input.json@
    }
}

/// `label` followed by the member `key` of the input (or `?`).
fn labelled(label: &str, input: &ToolInput, key: &str) -> (r: String)
    ensures
        r@ == label@ + field_or(*input, key@, "?"@),
{
    let mut r = copy_str(label);
    let v = input.get_or(key, "?");
    push_str(&mut r, v.as_str());
    r
}

/// The description of a call shown when asking for approval.
pub fn format_tool_description(tool_name: &str, input: &ToolInput) -> (r: String)
    ensures
        r@ == call_description(tool_name@, *input),
{
    if str_eq(tool_name, "Bash") || str_eq(tool_name, "BashTool") {
        labelled("command: ", input, "command")
    } else if str_eq(tool_name, "Write") || str_eq(tool_name, "FileWriteTool") {
        labelled("write to: ", input, "file_path")
    } else if str_eq(tool_name, "Edit") || str_eq(tool_name, "FileEditTool") {
        labelled("edit: ", input, "file_path")
    } else if str_eq(tool_name, "WebFetch") || str_eq(tool_name, "WebFetchTool") {
        labelled("fetch: ", input, "url")
    } else if str_eq(tool_name, "WebSearch") || str_eq(tool_name, "WebSearchTool") {
        labelled("search: ", input, "query")
    } else if str_eq(tool_name, "Agent") || str_eq(tool_name, "AgentTool") {
        labelled("agent: ", input, "description")
    } else {
        copy_str(input.json.as_str())
    }
}

// ---------------------------------------------------------------------------
// Deciding a call
// ---------------------------------------------------------------------------

/// What happens to a tool call.
pub enum PermissionDecision {
    Allow,
    Deny(String),
    /// Ask the user, with a description of what the tool wants to do.
    Ask(String),
}

/// The user's answer to a permission request.
#[derive(Debug, Clone, Copy, PartialEq, Eq, Structural)]
pub enum PermissionResponse {
    Allow,
    Deny,
    AlwaysAllow,
    NeverAllow,
}

/// The configured and session rules that permission checks consult.
pub struct PermissionRules {
    pub deny_rules: Vec<ParsedRule>,
    pub allow_rules: Vec<ParsedRule>,
    /// Rules added at runtime by "always allow" answers.
    pub session_allow_rules: Vec<ParsedRule>,
    /// Rules added at runtime by "never" answers.
    pub session_deny_rules: Vec<ParsedRule>,
}

/// The parsed rules hold the configured ones, in order.
pub open spec fn parsed_from(parsed: Seq<ParsedRule>, config: Option<Vec<PermissionRule>>) -> bool {
    match config {
        None => parsed.len() == 0,
        Some(c) => {
            &&& parsed.len() == c@.len()
            &&& forall|i: int|
                0 <= i < parsed.len() ==> (#[trigger] parsed[i]).tool@ == c@[i].tool@
                    && pattern_view(parsed[i].pattern) == pattern_view(c@[i].pattern)
        },
    }
}

/// The first rule, from index `i` on, that applies to the call.
pub open spec fn first_applying(
    rules: Seq<ParsedRule>,
    tool_name: Seq<char>,
    input: ToolInput,
    i: int,
) -> Option<int>
    decreases rules.len() - i,
{
    if i < 0 || i >= rules.len() {
        None
    } else if rule_applies(rules[i], tool_name, input) {
        Some(i)
    } else {
        first_applying(rules, tool_name, input, i + 1)
    }
}

/// Some rule applies to the call.
pub open spec fn any_applies(rules: Seq<ParsedRule>, tool_name: Seq<char>, input: ToolInput) -> bool {
    first_applying(rules, tool_name, input, 0) is Some
}

/// The read-only tools, which are allowed unless a deny rule applies.
pub open spec fn is_read_only_tool(t: Seq<char>) -> bool {
    t == "Read"@ || t == "Glob"@ || t == "Grep"@
}

/// The message of a denial by a configured rule.
pub open spec fn deny_message(rule: ParsedRule) -> Seq<char> {
    "blocked by deny rule: "@ + rule.tool@ + "("@ + (match rule.pattern {
        Some(p) => p@,
        None => "*"@,
    }) + ")"@
}

/// `d` denies with message `m`.
pub open spec fn denies_with(d: PermissionDecision, m: Seq<char>) -> bool {
    d matches PermissionDecision::Deny(s) && s@ == m
}

/// `d` asks the user, describing the call as `m`.
pub open spec fn asks_with(d: PermissionDecision, m: Seq<char>) -> bool {
    d matches PermissionDecision::Ask(s) && s@ == m
}

/// The decision on a call, in order of priority: configured deny rules;
/// session deny rules; dangerous calls are put to the user; read-only
/// tools, configured allow rules and session allow rules allow; then
/// bypass mode allows and every other mode asks.
pub open spec fn decided(
    rules: PermissionRules,
    tool_name: Seq<char>,
    input: ToolInput,
    mode: PermissionMode,
    d: PermissionDecision,
) -> bool {
    match first_applying(rules.deny_rules@, tool_name, input, 0) {
        Some(i) => denies_with(d, deny_message(rules.deny_rules@[i])),
        None => if any_applies(rules.session_deny_rules@, tool_name, input) {
            denies_with(d, "blocked by session rule"@)
        } else if is_dangerous_call(tool_name, input) {
            asks_with(d, call_description(tool_name, input))
        } else if is_read_only_tool(tool_name) || any_applies(
            rules.allow_rules@,
            tool_name,
            input,
        ) || any_applies(rules.session_allow_rules@, tool_name, input) || mode
            == PermissionMode::Bypass {
            d is Allow
        } else {
            asks_with(d, call_description(tool_name, input))
        },
    }
}

/// The rule that a session answer adds: the tool, with no pattern.
pub open spec fn session_rule_for(rule: ParsedRule, tool_name: Seq<char>) -> bool {
    rule.tool@ == tool_name && rule.pattern is None
}

/// The first rule of `rules` that applies to the call.
fn first_match(rules: &Vec<ParsedRule>, tool_name: &str, input: &ToolInput) -> (r: Option<usize>)
    ensures
        match r {
            Some(i) => first_applying(rules@, tool_name@, *input, 0) == Some(i as int),
            None => first_applying(rules@, tool_name@, *input, 0) is None,
        },
{
    let mut i: usize = 0;
    while i < rules.len()
        invariant
            i <= rules.len(),
            first_applying(rules@, tool_name@, *input, 0) == first_applying(
                rules@,
                tool_name@,
                *input,
                i as int,
            ),
        decreases rules.len() - i,
    {
        if rule_matches(&rules[i], tool_name, input) {
            return Some(i);
        }
        i = i + 1;
    }
    None
}

/// Parses configured rules.
fn parse_rules(config: &Option<Vec<PermissionRule>>) -> (r: Vec<ParsedRule>)
    ensures
        parsed_from(r@, *config),
{
    let mut out: Vec<ParsedRule> = Vec::new();
    match config {
        None => {},
        Some(c) => {
            let mut i: usize = 0;
            while i < c.len()
                invariant
                    i <= c.len(),
                    out.len() == i,
                    forall|k: int|
                        0 <= k < i ==> (#[trigger] out@[k]).tool@ == c@[k].tool@ && pattern_view(
                            out@[k].pattern,
                        ) == pattern_view(c@[k].pattern),
                decreases c.len() - i,
            {
                out.push(parse_rule(&c[i]));
                i = i + 1;
            }
        },
    }
    out
}

/// `text` followed by the rule's tool and pattern, as in a deny message.
fn deny_text(rule: &ParsedRule) -> (r: String)
    ensures
        r@ == deny_message(*rule),
{
    let mut r = copy_str("blocked by deny rule: ");
    push_str(&mut r, rule.tool.as_str());
    push_str(&mut r, "(");
    match &rule.pattern {
        Some(p) => push_str(&mut r, p.as_str()),
        None => push_str(&mut r, "*"),
    }
    push_str(&mut r, ")");
    r
}

impl PermissionRules {
    /// The rules of the configuration's deny and allow lists, with no session rules.
    pub fn new(always_deny: &Option<Vec<PermissionRule>>, always_allow: &Option<Vec<PermissionRule>>) -> (r: Self)
        ensures
            parsed_from(r.deny_rules@, *always_deny),
            parsed_from(r.allow_rules@, *always_allow),
            r.session_allow_rules@.len() == 0,
            r.session_deny_rules@.len() == 0,
    {
        PermissionRules {
            deny_rules: parse_rules(always_deny),
            allow_rules: parse_rules(always_allow),
            session_allow_rules: Vec::new(),
            session_deny_rules: Vec::new(),
        }
    }

    /// Add a session-level allow rule (from an "always allow" answer).
    pub fn add_session_allow_rule(&mut self, tool_name: &str)
        ensures
            final(self).deny_rules == old(self).deny_rules,
            final(self).allow_rules == old(self).allow_rules,
            final(self).session_deny_rules == old(self).session_deny_rules,
            final(self).session_allow_rules@.len() == old(self).session_allow_rules@.len() + 1,
            final(self).session_allow_rules@.drop_last() == old(self).session_allow_rules@,
            session_rule_for(final(self).session_allow_rules@.last(), tool_name@),
    {
        self.session_allow_rules.push(ParsedRule { tool: copy_str(tool_name), pattern: None });
        assert(self.session_allow_rules@.drop_last() =~= old(self).session_allow_rules@);
    }

    /// Add a session-level deny rule (from a "never" answer).
    pub fn add_session_deny_rule(&mut self, tool_name: &str)
        ensures
            final(self).deny_rules == old(self).deny_rules,
            final(self).allow_rules == old(self).allow_rules,
            final(self).session_allow_rules == old(self).session_allow_rules,
            final(self).session_deny_rules@.len() == old(self).session_deny_rules@.len() + 1,
            final(self).session_deny_rules@.drop_last() == old(self).session_deny_rules@,
            session_rule_for(final(self).session_deny_rules@.last(), tool_name@),
    {
        self.session_deny_rules.push(ParsedRule { tool: copy_str(tool_name), pattern: None });
        assert(self.session_deny_rules@.drop_last() =~= old(self).session_deny_rules@);
    }

    /// Decides a tool call: deny rules first (configured, then session),
    /// then dangerous calls go to the user, then read-only tools, allow
    /// rules (configured, then session) and bypass mode allow; otherwise the
    /// user is asked.
    pub fn check_permission(&self, tool_name: &str, input: &ToolInput, mode: PermissionMode) -> (d: PermissionDecision)
        ensures
            decided(*self, tool_name@, *input, mode, d),
    {
        if let Some(i) = first_match(&self.deny_rules, tool_name, input) {
            proof {
                lemma_first_applying(self.deny_rules@, tool_name@, *input, 0);
            }
            return PermissionDecision::Deny(deny_text(&self.deny_rules[i]));
        }
        if first_match(&self.session_deny_rules, tool_name, input).is_some() {
            return PermissionDecision::Deny(copy_str("blocked by session rule"));
        }
        if is_dangerous(tool_name, input) {
            return PermissionDecision::Ask(format_tool_description(tool_name, input));
        }
        if str_eq(tool_name, "Read") || str_eq(tool_name, "Glob") || str_eq(tool_name, "Grep") {
            return PermissionDecision::Allow;
        }
        if first_match(&self.allow_rules, tool_name, input).is_some() {
            return PermissionDecision::Allow;
        }
        if first_match(&self.session_allow_rules, tool_name, input).is_some() {
            return PermissionDecision::Allow;
        }
        match mode {
            PermissionMode::Bypass => PermissionDecision::Allow,
            _ => PermissionDecision::Ask(format_tool_description(tool_name, input)),
        }
    }

    /// Applies the user's answer to a request about `tool_name`: "always
    /// allow" and "never" also add a session rule for the tool.
    pub fn resolve(&mut self, tool_name: &str, response: PermissionResponse) -> (d: PermissionDecision)
        ensures
            final(self).deny_rules == old(self).deny_rules,
            final(self).allow_rules == old(self).allow_rules,
            response == PermissionResponse::Allow ==> d is Allow && *final(self) == *old(self),
            response == PermissionResponse::Deny ==> denies_with(d, "user denied"@) && *final(self)
                == *old(self),
            response == PermissionResponse::AlwaysAllow ==> {
                &&& d is Allow
                &&& final(self).session_deny_rules == old(self).session_deny_rules
                &&& final(self).session_allow_rules@.drop_last() == old(self).session_allow_rules@
                &&& final(self).session_allow_rules@.len() == old(self).session_allow_rules@.len() + 1
                &&& session_rule_for(final(self).session_allow_rules@.last(), tool_name@)
            },
            response == PermissionResponse::NeverAllow ==> {
                &&& denies_with(d, "user denied permanently"@)
                &&& final(self).session_allow_rules == old(self).session_allow_rules
                &&& final(self).session_deny_rules@.drop_last() == old(self).session_deny_rules@
                &&& final(self).session_deny_rules@.len() == old(self).session_deny_rules@.len() + 1
                &&& session_rule_for(final(self).session_deny_rules@.last(), tool_name@)
            },
    {
        match response {
            PermissionResponse::Allow => PermissionDecision::Allow,
            PermissionResponse::Deny => PermissionDecision::Deny(copy_str("user denied")),
            PermissionResponse::AlwaysAllow => {
                self.add_session_allow_rule(tool_name);
                PermissionDecision::Allow
            },
            PermissionResponse::NeverAllow => {
                self.add_session_deny_rule(tool_name);
                PermissionDecision::Deny(copy_str("user denied permanently"))
            },
        }
    }
}

// ---------------------------------------------------------------------------
// Laws
// ---------------------------------------------------------------------------

pub proof fn lemma_first_applying(rules: Seq<ParsedRule>, tool_name: Seq<char>, input: ToolInput, i: int)
    requires
        0 <= i,
    ensures
        first_applying(rules, tool_name, input, i) is Some <==> exists|j: int|
            i <= j < rules.len() && rule_applies(#[trigger] rules[j], tool_name, input),
        first_applying(rules, tool_name, input, i) matches Some(k) ==> i <= k < rules.len()
            && rule_applies(rules[k], tool_name, input),
    decreases rules.len() - i,
{
    if i < rules.len() && !rule_applies(rules[i], tool_name, input) {
        lemma_first_applying(rules, tool_name, input, i + 1);
        if exists|j: int| i <= j < rules.len() && rule_applies(#[trigger] rules[j], tool_name, input) {
            let j = choose|j: int| i <= j < rules.len() && rule_applies(#[trigger] rules[j], tool_name, input);
            assert(j != i);
            assert(i + 1 <= j);
        }
    }
}

/// A configured deny rule that applies to a call denies it, whatever the
/// allow rules, the mode and the tool: deny rules have the highest priority.
pub proof fn law_deny_rule_wins(
    rules: PermissionRules,
    tool_name: Seq<char>,
    input: ToolInput,
    mode: PermissionMode,
    d: PermissionDecision,
    i: int,
)
    requires
        decided(rules, tool_name, input, mode, d),
        0 <= i < rules.deny_rules@.len(),
        rule_applies(rules.deny_rules@[i], tool_name, input),
    ensures
        d is Deny,
{
    lemma_first_applying(rules.deny_rules@, tool_name, input, 0);
}

/// A dangerous call is never allowed without asking: it is denied by a
/// rule or put to the user, even in bypass mode and with allow rules.
pub proof fn law_dangerous_needs_approval(
    rules: PermissionRules,
    tool_name: Seq<char>,
    input: ToolInput,
    mode: PermissionMode,
    d: PermissionDecision,
)
    requires
        decided(rules, tool_name, input, mode, d),
        is_dangerous_call(tool_name, input),
    ensures
        !(d is Allow),
{
}

/// The read-only tools are allowed unless a deny rule applies, and are never dangerous.
pub proof fn law_read_only_allowed(
    rules: PermissionRules,
    tool_name: Seq<char>,
    input: ToolInput,
    mode: PermissionMode,
    d: PermissionDecision,
)
    requires
        decided(rules, tool_name, input, mode, d),
        is_read_only_tool(tool_name),
        !any_applies(rules.deny_rules@, tool_name, input),
        !any_applies(rules.session_deny_rules@, tool_name, input),
    ensures
        d is Allow,
        !is_dangerous_call(tool_name, input),
{
    reveal_strlit("Read");
    reveal_strlit("Glob");
    reveal_strlit("Grep");
    reveal_strlit("Bash");
    reveal_strlit("Write");
    reveal_strlit("Edit");
    // The read-only tools differ from the dangerous ones in their first letter.
    assert(tool_name[0] != "Bash"@[0] && tool_name[0] != "Write"@[0] && tool_name[0]
        != "Edit"@[0]);
}

/// In bypass mode every call that no deny rule stops and that is not
/// dangerous is allowed.
pub proof fn law_bypass_allows_safe_calls(
    rules: PermissionRules,
    tool_name: Seq<char>,
    input: ToolInput,
    d: PermissionDecision,
)
    requires
        decided(rules, tool_name, input, PermissionMode::Bypass, d),
        !any_applies(rules.deny_rules@, tool_name, input),
        !any_applies(rules.session_deny_rules@, tool_name, input),
        !is_dangerous_call(tool_name, input),
    ensures
        d is Allow,
{
}

/// A session rule for a tool applies to every call of that tool.
pub proof fn lemma_session_rule_applies(rules: Seq<ParsedRule>, tool_name: Seq<char>, input: ToolInput)
    requires
        rules.len() > 0,
        session_rule_for(rules.last(), tool_name),
    ensures
        any_applies(rules, tool_name, input),
{
    lemma_first_applying(rules, tool_name, input, 0);
    assert(rule_applies(rules[rules.len() - 1], tool_name, input));
}

/// After "always allow" for a tool, a later call of that tool that no deny
/// rule stops and that is not dangerous is allowed without asking.
pub proof fn law_always_allow_sticks(
    before: PermissionRules,
    after: PermissionRules,
    tool_name: Seq<char>,
    input: ToolInput,
    mode: PermissionMode,
    d: PermissionDecision,
)
    requires
        after.deny_rules == before.deny_rules,
        after.session_deny_rules == before.session_deny_rules,
        after.session_allow_rules@.len() > 0,
        session_rule_for(after.session_allow_rules@.last(), tool_name),
        decided(after, tool_name, input, mode, d),
        !any_applies(before.deny_rules@, tool_name, input),
        !any_applies(before.session_deny_rules@, tool_name, input),
        !is_dangerous_call(tool_name, input),
    ensures
        d is Allow,
{
    lemma_session_rule_applies(after.session_allow_rules@, tool_name, input);
}

/// After "never" for a tool, every later call of that tool is denied.
pub proof fn law_never_sticks(
    after: PermissionRules,
    tool_name: Seq<char>,
    input: ToolInput,
    mode: PermissionMode,
    d: PermissionDecision,
)
    requires
        after.session_deny_rules@.len() > 0,
        session_rule_for(after.session_deny_rules@.last(), tool_name),
        decided(after, tool_name, input, mode, d),
    ensures
        d is Deny,
{
    lemma_session_rule_applies(after.session_deny_rules@, tool_name, input);
}

} // verus!
