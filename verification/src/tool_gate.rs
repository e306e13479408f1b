use vstd::prelude::*;

use crate::hooks::PreToolUseResponse;
use crate::messages::ContentBlock;
use crate::permissions::PermissionDecision;
use crate::text::{copy_str, push_str, str_eq};

verus! {

// ---------------------------------------------------------------------------
// The tool calls of an answer
// ---------------------------------------------------------------------------

/// A tool call requested by the model: its id, the tool's name and its input
/// as JSON text.
pub struct ToolCall {
    pub id: String,
    pub name: String,
    pub input: String,
}

pub open spec fn call_views(cs: Seq<ToolCall>) -> Seq<(Seq<char>, Seq<char>, Seq<char>)> {
    Seq::new(cs.len(), |i: int| (cs[i].id@, cs[i].name@, cs[i].input@))
}

/// The tool calls among `bs`, in order.
pub open spec fn tool_calls_in(bs: Seq<ContentBlock>) -> Seq<(Seq<char>, Seq<char>, Seq<char>)>
    decreases bs.len(),
{
    if bs.len() == 0 {
        seq![]
    } else {
        let r = tool_calls_in(bs.drop_last());
        match bs.last() {
            ContentBlock::ToolUse { id, name, input } => r.push((id@, name@, input@)),
            _ => r,
        }
    }
}

/// The tool calls of an assistant's answer, in order; when there are none
/// the turn is over.
pub fn tool_calls(blocks: &Vec<ContentBlock>) -> (r: Vec<ToolCall>)
    ensures
        call_views(r@) == tool_calls_in(blocks@),
{
    let mut r: Vec<ToolCall> = Vec::new();
    let mut i: usize = 0;
    while i < blocks.len()
        invariant
            i <= blocks.len(),
            call_views(r@) == tool_calls_in(blocks@.take(i as int)),
        decreases blocks.len() - i,
    {
        let ghost before = call_views(r@);
        match &blocks[i] {
            ContentBlock::ToolUse { id, name, input } => {
                r.push(ToolCall { id: copy_str(id.as_str()), name: copy_str(name.as_str()), input: copy_str(input.as_str()) });
                assert(call_views(r@) =~= before.push((id@, name@, input@)));
            },
            _ => {},
        }
        assert(blocks@.take(i + 1).drop_last() =~= blocks@.take(i as int));
        i = i + 1;
    }
    assert(blocks@.take(blocks.len() as int) =~= blocks@);
    r
}

// ---------------------------------------------------------------------------
// Before a tool runs
// ---------------------------------------------------------------------------

/// Whether a tool call goes ahead, with the input it runs on, or is refused
/// with the text of its error result.
pub enum ToolStep {
    Proceed(String),
    Refuse(String),
}

pub open spec fn step_view(s: ToolStep) -> (bool, Seq<char>) {
    match s {
        ToolStep::Proceed(t) => (false, t@),
        ToolStep::Refuse(t) => (true, t@),
    }
}

/// After the PreToolUse hooks (`None` when they could not be run): a hook
/// that denies refuses the call, giving its reason (`blocked by hook` when
/// it gave none); a hook that rewrites the input replaces it.
pub open spec fn after_hooks_spec(input: Seq<char>, hook: Option<PreToolUseResponse>) -> (bool, Seq<char>) {
    match hook {
        None => (false, input),
        Some(r) => if r.decision matches Some(d) && d@ == "deny"@ {
            (
                true,
                "Hook denied: "@ + match r.reason {
                    Some(x) => x@,
                    None => "blocked by hook"@,
                },
            )
        } else {
            match r.updated_input {
                Some(u) => (false, u@),
                None => (false, input),
            }
        },
    }
}

/// Applies the PreToolUse hooks' response to a tool call's input.
pub fn after_hooks(input: String, hook: Option<PreToolUseResponse>) -> (s: ToolStep)
    ensures
        step_view(s) == after_hooks_spec(input@, hook),
{
    match hook {
        None => ToolStep::Proceed(input),
        Some(r) => {
            let denies = match &r.decision {
                Some(d) => str_eq(d.as_str(), "deny"),
                None => false,
            };
            if denies {
                let mut t = copy_str("Hook denied: ");
                match &r.reason {
                    Some(x) => push_str(&mut t, x.as_str()),
                    None => push_str(&mut t, "blocked by hook"),
                }
                ToolStep::Refuse(t)
            } else {
                match r.updated_input {
                    Some(u) => ToolStep::Proceed(u),
                    None => ToolStep::Proceed(input),
                }
            }
        },
    }
}

/// After the permission check: a denial refuses the call with its reason;
/// an allowed call, or one the user was asked about and let through, goes
/// ahead.
pub open spec fn after_permission_spec(input: Seq<char>, d: PermissionDecision) -> (bool, Seq<char>) {
    match d {
        PermissionDecision::Deny(reason) => (true, "Permission denied: "@ + reason@),
        _ => (false, input),
    }
}

/// Applies the permission decision to a tool call's input.
pub fn after_permission(input: String, decision: &PermissionDecision) -> (s: ToolStep)
    ensures
        step_view(s) == after_permission_spec(input@, *decision),
{
    match decision {
        PermissionDecision::Deny(reason) => {
            let mut t = copy_str("Permission denied: ");
            push_str(&mut t, reason.as_str());
            ToolStep::Refuse(t)
        },
        _ => ToolStep::Proceed(input),
    }
}

/// The error result for a tool that is not registered.
pub fn unknown_tool_error(name: &str) -> (r: String)
    ensures
        r@ == "unknown tool: "@ + name@,
{
    let mut t = copy_str("unknown tool: ");
    push_str(&mut t, name);
    t
}

/// The error result for a tool whose run failed with `error`.
pub fn tool_error(error: &str) -> (r: String)
    ensures
        r@ == "tool error: "@ + error@,
{
    let mut t = copy_str("tool error: ");
    push_str(&mut t, error);
    t
}

} // verus!
