use vstd::prelude::*;

use crate::messages::{block_texts, join_texts, joined, ContentBlock};
use crate::permissions::ToolInput;
use crate::tasks::{decimal, decimal_string};
use crate::text::{chars_of, copy_str, lines, lines_spec, push_str, str_eq};
use crate::ui_state::{activity_of, tool_activity, DisplayMessage, RenderSegment};

verus! {

// ---------------------------------------------------------------------------
// The transcript as plain values
// ---------------------------------------------------------------------------

/// A displayed message as plain values.
pub enum DisplayModel {
    User(Seq<char>),
    Assistant(Seq<Seq<char>>),
    ToolCall { name: Seq<char>, activity: Seq<char>, is_error: bool, summary: Seq<char> },
    Error(Seq<char>),
    Status(Seq<char>),
}

pub open spec fn segment_texts(ss: Seq<RenderSegment>) -> Seq<Seq<char>> {
    Seq::new(ss.len(), |i: int| match ss[i] {
        RenderSegment::Text(t) => t@,
    })
}

pub open spec fn display_model(m: DisplayMessage) -> DisplayModel {
    match m {
        DisplayMessage::User { text } => DisplayModel::User(text@),
        DisplayMessage::Assistant { segments } => DisplayModel::Assistant(segment_texts(segments@)),
        DisplayMessage::ToolCall { name, activity, is_error, summary } => DisplayModel::ToolCall {
            name: name@,
            activity: activity@,
            is_error,
            summary: summary@,
        },
        DisplayMessage::Error { text } => DisplayModel::Error(text@),
        DisplayMessage::Status { text } => DisplayModel::Status(text@),
    }
}

pub open spec fn display_models(ms: Seq<DisplayMessage>) -> Seq<DisplayModel> {
    Seq::new(ms.len(), |i: int| display_model(ms[i]))
}

// ---------------------------------------------------------------------------
// Streamed text
// ---------------------------------------------------------------------------

/// The transcript after a piece of assistant text: it extends the last text
/// segment of a last assistant message, starts a segment of an assistant
/// message without one, or else starts a new assistant message.
pub open spec fn after_text(ms: Seq<DisplayModel>, t: Seq<char>) -> Seq<DisplayModel> {
    if ms.len() > 0 && ms.last() is Assistant {
        let segs = ms.last()->Assistant_0;
        if segs.len() > 0 {
            ms.update(ms.len() - 1, DisplayModel::Assistant(segs.update(segs.len() - 1, segs.last() + t)))
        } else {
            ms.update(ms.len() - 1, DisplayModel::Assistant(seq![t]))
        }
    } else {
        ms.push(DisplayModel::Assistant(seq![t]))
    }
}

/// Adds streamed assistant text to the transcript.
pub fn append_text_delta(messages: &mut Vec<DisplayMessage>, text: &str)
    ensures
        display_models(final(messages)@) == after_text(display_models(old(messages)@), text@),
{
    let ghost ms = display_models(messages@);
    let n = messages.len();
    let is_assistant = n > 0 && match &messages[n - 1] {
        DisplayMessage::Assistant { .. } => true,
        _ => false,
    };
    if !is_assistant {
        let mut segments: Vec<RenderSegment> = Vec::new();
        segments.push(RenderSegment::Text(copy_str(text)));
        messages.push(DisplayMessage::Assistant { segments });
        assert(display_models(messages@) =~= after_text(ms, text@)) by {
            assert(segment_texts(segments@) =~= seq![text@]);
        }
        return;
    }
    let mut last = DisplayMessage::Status { text: String::new() };
    messages.set_and_swap(n - 1, &mut last);
    assert(display_model(last) == ms[n - 1]);
    match last {
        DisplayMessage::Assistant { segments } => {
            let mut segments = segments;
            let ghost segs = segment_texts(segments@);
            let k = segments.len();
            if k > 0 {
                let mut seg = RenderSegment::Text(String::new());
                segments.set_and_swap(k - 1, &mut seg);
                assert(match seg {
                    RenderSegment::Text(t) => t@,
                } == segs[k - 1]);
                match seg {
                    RenderSegment::Text(t) => {
                        let mut t = t;
                        push_str(&mut t, text);
                        segments.set(k - 1, RenderSegment::Text(t));
                    },
                }
                assert(segment_texts(segments@) =~= segs.update(k - 1, segs.last() + text@));
            } else {
                segments.push(RenderSegment::Text(copy_str(text)));
                assert(segment_texts(segments@) =~= seq![text@]);
            }
            messages.set(n - 1, DisplayMessage::Assistant { segments });
            assert(display_models(messages@) =~= after_text(ms, text@));
        },
        other => {
            messages.set(n - 1, other);
        },
    }
}

// ---------------------------------------------------------------------------
// Tool calls
// ---------------------------------------------------------------------------

/// The transcript after a tool call starts: a new tool call line with no
/// activity, no error and no summary yet.
pub open spec fn after_tool_start(ms: Seq<DisplayModel>, name: Seq<char>) -> Seq<DisplayModel> {
    ms.push(DisplayModel::ToolCall { name, activity: Seq::empty(), is_error: false, summary: Seq::empty() })
}

/// Adds the line of a tool call that has started.
pub fn start_tool_call(messages: &mut Vec<DisplayMessage>, name: String)
    ensures
        display_models(final(messages)@) == after_tool_start(display_models(old(messages)@), name@),
{
    let ghost ms = display_models(messages@);
    messages.push(DisplayMessage::ToolCall { name, activity: String::new(), is_error: false, summary: String::new() });
    assert(display_models(messages@) =~= after_tool_start(ms, name@));
}

/// The last position, before `n`, holding a tool call without activity.
pub open spec fn last_pending_call(ms: Seq<DisplayModel>, n: int) -> Option<int>
    decreases n,
{
    if n <= 0 {
        None
    } else if ms[n - 1] is ToolCall && ms[n - 1]->activity.len() == 0 {
        Some(n - 1)
    } else {
        last_pending_call(ms, n - 1)
    }
}

/// The transcript once a tool call's input is known: the last tool call
/// without activity gets the activity its input describes, if any.
pub open spec fn after_tool_input(ms: Seq<DisplayModel>, input: Option<Seq<(String, String)>>) -> Seq<DisplayModel> {
    match last_pending_call(ms, ms.len() as int) {
        Some(k) => match input {
            Some(fields) => match activity_of(ms[k]->name, fields) {
                Some(a) => ms.update(
                    k,
                    DisplayModel::ToolCall {
                        name: ms[k]->name,
                        activity: a,
                        is_error: ms[k]->is_error,
                        summary: ms[k]->summary,
                    },
                ),
                None => ms,
            },
            None => ms,
        },
        None => ms,
    }
}


proof fn lemma_last_pending(ms: Seq<DisplayModel>, n: int)
    ensures
        last_pending_call(ms, n) matches Some(k) ==> 0 <= k < n && ms[k] is ToolCall && ms[k]->activity.len() == 0,
    decreases n,
{
    if n > 0 {
        lemma_last_pending(ms, n - 1);
    }
}

proof fn lemma_last_named(ms: Seq<DisplayModel>, name: Seq<char>, n: int)
    ensures
        last_call_named(ms, name, n) matches Some(k) ==> 0 <= k < n && ms[k] is ToolCall && ms[k]->name == name,
    decreases n,
{
    if n > 0 {
        lemma_last_named(ms, name, n - 1);
    }
}

/// Finds the last tool call without activity.
fn find_pending_call(messages: &Vec<DisplayMessage>) -> (r: Option<usize>)
    ensures
        match r {
            Some(k) => last_pending_call(display_models(messages@), messages@.len() as int) == Some(k as int),
            None => last_pending_call(display_models(messages@), messages@.len() as int) is None,
        },
{
    let ghost ms = display_models(messages@);
    let mut n: usize = messages.len();
    while n > 0
        invariant
            n <= messages.len(),
            ms == display_models(messages@),
            last_pending_call(ms, messages@.len() as int) == last_pending_call(ms, n as int),
        decreases n,
    {
        assert(ms[n - 1] == display_model(messages@[n - 1]));
        match &messages[n - 1] {
            DisplayMessage::ToolCall { activity, .. } => {
                if chars_of(activity.as_str()).len() == 0 {
                    return Some(n - 1);
                }
            },
            _ => {},
        }
        n = n - 1;
    }
    None
}

/// Records what a tool call is doing, from the string members of its input
/// (`None` when the input could not be read).
pub fn record_tool_input(messages: &mut Vec<DisplayMessage>, input: Option<&ToolInput>)
    ensures
        display_models(final(messages)@) == after_tool_input(
            display_models(old(messages)@),
            match input {
                Some(i) => Some(i.string_fields@),
                None => None,
            },
        ),
{
    let ghost ms = display_models(messages@);
    let k = match find_pending_call(messages) {
        Some(k) => k,
        None => {
            return;
        },
    };
    let fields = match input {
        Some(i) => i,
        None => {
            return;
        },
    };
    proof {
        lemma_last_pending(ms, messages@.len() as int);
    }
    let mut m = DisplayMessage::Status { text: String::new() };
    messages.set_and_swap(k, &mut m);
    assert(display_model(m) == ms[k as int]);
    match m {
        DisplayMessage::ToolCall { name, activity, is_error, summary } => {
            let act = tool_activity(name.as_str(), fields);
            match act {
                Some(a) => {
                    messages.set(k, DisplayMessage::ToolCall { name, activity: a, is_error, summary });
                    assert(display_models(messages@) =~= after_tool_input(ms, Some(fields.string_fields@)));
                },
                None => {
                    messages.set(k, DisplayMessage::ToolCall { name, activity, is_error, summary });
                    assert(display_models(messages@) =~= ms);
                },
            }
        },
        other => {
            messages.set(k, other);
        },
    }
}

/// The summary of a tool result: the tool's name, then its line count (at
/// least one) and character count.
pub open spec fn result_summary(name: Seq<char>, text: Seq<char>) -> Seq<char> {
    let n = lines_spec(text).len();
    name + " ("@ + decimal(if n == 0 { 1 } else { n }) + " lines, "@ + decimal(text.len()) + " chars)"@
}

/// The last position, before `n`, holding a tool call named `name`.
pub open spec fn last_call_named(ms: Seq<DisplayModel>, name: Seq<char>, n: int) -> Option<int>
    decreases n,
{
    if n <= 0 {
        None
    } else if ms[n - 1] is ToolCall && ms[n - 1]->name == name {
        Some(n - 1)
    } else {
        last_call_named(ms, name, n - 1)
    }
}

/// The transcript once a tool has returned: the last call of that tool
/// records whether it failed and a summary of its text blocks.
pub open spec fn after_tool_result(
    ms: Seq<DisplayModel>,
    name: Seq<char>,
    content: Seq<ContentBlock>,
    is_error: bool,
) -> Seq<DisplayModel> {
    match last_call_named(ms, name, ms.len() as int) {
        Some(k) => ms.update(
            k,
            DisplayModel::ToolCall {
                name: ms[k]->name,
                activity: ms[k]->activity,
                is_error,
                summary: result_summary(name, joined(block_texts(content))),
            },
        ),
        None => ms,
    }
}

/// Records the outcome of a tool on the last line of that tool's calls.
pub fn record_tool_result(messages: &mut Vec<DisplayMessage>, name: &str, content: &Vec<ContentBlock>, is_error: bool)
    ensures
        display_models(final(messages)@) == after_tool_result(display_models(old(messages)@), name@, content@, is_error),
{
    let ghost ms = display_models(messages@);
    let (text, _) = join_texts(content);
    let tc = chars_of(text.as_str());
    let ls = lines(&tc);
    let count: usize = if ls.len() == 0 {
        1
    } else {
        ls.len()
    };
    assert(ls.deep_view().len() == ls@.len());
    let mut summary = copy_str(name);
    push_str(&mut summary, " (");
    push_str(&mut summary, decimal_string(count as u64).as_str());
    push_str(&mut summary, " lines, ");
    push_str(&mut summary, decimal_string(tc.len() as u64).as_str());
    push_str(&mut summary, " chars)");
    assert(summary@ == result_summary(name@, joined(block_texts(content@))));
    let mut n: usize = messages.len();
    while n > 0
        invariant
            n <= messages.len(),
            ms == display_models(messages@),
            last_call_named(ms, name@, messages@.len() as int) == last_call_named(ms, name@, n as int),
            summary@ == result_summary(name@, joined(block_texts(content@))),
            messages@ == old(messages)@,
        decreases n,
    {
        assert(ms[n - 1] == display_model(messages@[n - 1]));
        let hit = match &messages[n - 1] {
            DisplayMessage::ToolCall { name: cn, .. } => str_eq(cn.as_str(), name),
            _ => false,
        };
        if hit {
            let k = n - 1;
            proof {
                lemma_last_named(ms, name@, messages@.len() as int);
                assert(ms[k as int] is ToolCall && ms[k as int]->name == name@);
                assert(last_call_named(ms, name@, n as int) == Some(k as int));
            }
            let mut m = DisplayMessage::Status { text: String::new() };
            messages.set_and_swap(k, &mut m);
            assert(display_model(m) == ms[k as int]);
            match m {
                DisplayMessage::ToolCall { name: cn, activity, is_error: _, summary: _ } => {
                    messages.set(k, DisplayMessage::ToolCall { name: cn, activity, is_error, summary });
                    assert(display_models(messages@) =~= after_tool_result(ms, name@, content@, is_error));
                },
                other => {
                    assert(display_model(other) is ToolCall);
                    messages.set(k, other);
                },
            }
            return;
        }
        n = n - 1;
    }
}

/// Adds an error line.
pub fn record_error(messages: &mut Vec<DisplayMessage>, text: String)
    ensures
        display_models(final(messages)@) == display_models(old(messages)@).push(DisplayModel::Error(text@)),
{
    let ghost ms = display_models(messages@);
    messages.push(DisplayMessage::Error { text });
    assert(display_models(messages@) =~= ms.push(DisplayModel::Error(text@)));
}

/// The status line shown after an automatic compaction.
pub fn auto_compact_notice(messages_removed: usize, tokens_saved: u64) -> (r: String)
    ensures
        r@ == "[auto-compacted: removed "@ + decimal(messages_removed as nat) + " messages, ~"@ + decimal(
            tokens_saved as nat,
        ) + " tokens saved]"@,
{
    let mut r = copy_str("[auto-compacted: removed ");
    push_str(&mut r, decimal_string(messages_removed as u64).as_str());
    push_str(&mut r, " messages, ~");
    push_str(&mut r, decimal_string(tokens_saved).as_str());
    push_str(&mut r, " tokens saved]");
    r
}


/// Streaming text in two pieces leaves the same transcript as streaming it
/// in one.
pub proof fn law_text_pieces_concatenate(ms: Seq<DisplayModel>, a: Seq<char>, b: Seq<char>)
    ensures
        after_text(after_text(ms, a), b) == after_text(ms, a + b),
{
    let m1 = after_text(ms, a);
    if ms.len() > 0 && ms.last() is Assistant {
        let segs = ms.last()->Assistant_0;
        if segs.len() > 0 {
            let s1 = segs.update(segs.len() - 1, segs.last() + a);
            assert(m1.last() == DisplayModel::Assistant(s1));
            assert(s1.last() == segs.last() + a);
            assert((segs.last() + a) + b =~= segs.last() + (a + b));
            assert(s1.update(s1.len() - 1, s1.last() + b) =~= segs.update(segs.len() - 1, segs.last() + (a + b)));
            assert(m1.update(m1.len() - 1, DisplayModel::Assistant(s1.update(s1.len() - 1, s1.last() + b))) =~= ms.update(
                ms.len() - 1,
                DisplayModel::Assistant(segs.update(segs.len() - 1, segs.last() + (a + b))),
            ));
        } else {
            let s1 = seq![a];
            assert(m1.last() == DisplayModel::Assistant(s1));
            assert(s1.update(0, s1.last() + b) =~= seq![a + b]);
            assert(m1.update(m1.len() - 1, DisplayModel::Assistant(s1.update(0, s1.last() + b))) =~= ms.update(
                ms.len() - 1,
                DisplayModel::Assistant(seq![a + b]),
            ));
        }
    } else {
        let s1 = seq![a];
        assert(m1.last() == DisplayModel::Assistant(s1));
        assert(s1.update(0, s1.last() + b) =~= seq![a + b]);
        assert(m1.update(m1.len() - 1, DisplayModel::Assistant(s1.update(0, s1.last() + b))) =~= ms.push(
            DisplayModel::Assistant(seq![a + b]),
        ));
    }
}

} // verus!
