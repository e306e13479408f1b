use vstd::prelude::*;

use crate::clock::utc_now_secs;
use crate::text::{
    byte_len, chars_of, copy_str, find, find_from_exec, is_boundary, push_char, push_str, string_from, string_from_range, sub_vec, trim, trim_vec,
};

verus! {

// ---------------------------------------------------------------------------
// Conversation messages
// ---------------------------------------------------------------------------

/// One block of message content. A tool call's input is carried as its
/// pretty-printed JSON text.
pub enum ContentBlock {
    Text { text: String },
    ToolUse { id: String, name: String, input: String },
    ToolResult { tool_use_id: String, content: Vec<ContentBlock>, is_error: bool },
    Thinking { thinking: String, signature: String },
}

pub struct UserMessage {
    pub uuid: String,
    pub content: Vec<ContentBlock>,
    pub timestamp: u64,
}

pub struct AssistantMessage {
    pub uuid: String,
    pub content: Vec<ContentBlock>,
    pub timestamp: u64,
    pub model: Option<String>,
    pub stop_reason: Option<String>,
}

pub struct SystemMessage {
    pub content: String,
}

pub enum Message {
    User(UserMessage),
    Assistant(AssistantMessage),
    System(SystemMessage),
}

impl ContentBlock {
    /// A text block.
    pub fn text(s: String) -> (b: Self)
        ensures
            b matches ContentBlock::Text { text } && text@ == s@,
    {
        ContentBlock::Text { text: s }
    }

    /// A tool-result block.
    pub fn tool_result(tool_use_id: String, content: Vec<ContentBlock>, is_error: bool) -> (b: Self)
        ensures
            b matches ContentBlock::ToolResult { tool_use_id: t, content: c, is_error: e } && t@
                == tool_use_id@ && c@ == content@ && e == is_error,
    {
        ContentBlock::ToolResult { tool_use_id, content, is_error }
    }
}

/// `uuid::Uuid::new_v4().to_string()`: a random version-4 UUID in its
/// hyphenated form, which has 36 characters. Which UUID is not stated: it is
/// drawn at random.
#[verifier::external_body]
fn new_uuid() -> (r: String)
    ensures
        r@.len() == 36,
{
    uuid::Uuid::new_v4().to_string()
}

impl UserMessage {
    /// A user message with a fresh random id, stamped with the current time.
    pub fn new(content: Vec<ContentBlock>) -> (m: Self)
        ensures
            m.uuid@.len() == 36,
            m.content@ == content@,
    {
        UserMessage { uuid: new_uuid(), content, timestamp: utc_now_secs() }
    }
}

impl AssistantMessage {
    /// An assistant message with a fresh random id, stamped with the current
    /// time, with no model and no stop reason.
    pub fn new(content: Vec<ContentBlock>) -> (m: Self)
        ensures
            m.uuid@.len() == 36,
            m.content@ == content@,
            m.model is None,
            m.stop_reason is None,
    {
        AssistantMessage {
            uuid: new_uuid(),
            content,
            timestamp: utc_now_secs(),
            model: None,
            stop_reason: None,
        }
    }
}

impl Message {
    /// Returns the timestamp of this message, if available.
    pub fn timestamp(&self) -> (r: Option<u64>)
        ensures
            r == match *self {
                Message::User(m) => Some(m.timestamp),
                Message::Assistant(m) => Some(m.timestamp),
                Message::System(_) => None::<u64>,
            },
    {
        match self {
            Message::User(m) => Some(m.timestamp),
            Message::Assistant(m) => Some(m.timestamp),
            Message::System(_) => None,
        }
    }

    /// Returns true if this is a user message whose first block is a tool result.
    pub fn is_tool_result(&self) -> (r: bool)
        ensures
            r == (self matches Message::User(m) && m.content@.len() > 0
                && m.content@[0] is ToolResult),
    {
        match self {
            Message::User(m) => m.content.len() > 0 && match &m.content[0] {
                ContentBlock::ToolResult { .. } => true,
                _ => false,
            },
            _ => false,
        }
    }
}

// ---------------------------------------------------------------------------
// The final answer of a sub-agent
// ---------------------------------------------------------------------------

/// The texts of the text blocks, in order.
pub open spec fn block_texts(bs: Seq<ContentBlock>) -> Seq<Seq<char>>
    decreases bs.len(),
{
    if bs.len() == 0 {
        Seq::empty()
    } else {
        let r = block_texts(bs.drop_last());
        match bs.last() {
            ContentBlock::Text { text } => r.push(text@),
            _ => r,
        }
    }
}

/// Texts joined with `\n` between them.
pub open spec fn joined(ls: Seq<Seq<char>>) -> Seq<char> {
    crate::sse::join_lines(ls)
}

/// The answer found among the first `n` messages, looking from the last:
/// the text of the last assistant message that has any text.
pub open spec fn final_answer(ms: Seq<Message>, n: int) -> Option<Seq<char>>
    decreases n,
{
    if n <= 0 {
        None
    } else {
        match ms[n - 1] {
            Message::Assistant(a) => if block_texts(a.content@).len() > 0 {
                Some(joined(block_texts(a.content@)))
            } else {
                final_answer(ms, n - 1)
            },
            _ => final_answer(ms, n - 1),
        }
    }
}

/// Joins the text blocks of `bs` with `\n`.
pub(crate) fn join_texts(bs: &Vec<ContentBlock>) -> (r: (String, usize))
    ensures
        r.0@ == joined(block_texts(bs@)),
        r.1 == block_texts(bs@).len(),
{
    let mut r = String::new();
    let mut count: usize = 0;
    let mut i: usize = 0;
    while i < bs.len()
        invariant
            i <= bs.len(),
            count == block_texts(bs@.take(i as int)).len(),
            count <= i,
            r@ == joined(block_texts(bs@.take(i as int))),
        decreases bs.len() - i,
    {
        assert(bs@.take(i + 1).drop_last() =~= bs@.take(i as int));
        match &bs[i] {
            ContentBlock::Text { text } => {
                let ghost before = block_texts(bs@.take(i as int));
                if count > 0 {
                    push_char(&mut r, '\n');
                }
                push_str(&mut r, text.as_str());
                count = count + 1;
                proof {
                    let after = block_texts(bs@.take(i + 1));
                    assert(after == before.push(text@));
                    if before.len() == 0 {
                        assert(after =~= seq![text@]);
                    } else {
                        assert(after.drop_last() =~= before);
                    }
                }
            },
            _ => {},
        }
        i = i + 1;
    }
    assert(bs@.take(bs.len() as int) =~= bs@);
    (r, count)
}

/// The text of the last assistant message that has text (its text blocks
/// joined with `\n`), or a placeholder when there is none.
pub fn extract_final_response(messages: &Vec<Message>) -> (r: String)
    ensures
        r@ == match final_answer(messages@, messages@.len() as int) {
            Some(t) => t,
            None => "(sub-agent produced no text output)"@,
        },
{
    let mut i = messages.len();
    while i > 0
        invariant
            i <= messages.len(),
            final_answer(messages@, messages@.len() as int) == final_answer(messages@, i as int),
        decreases i,
    {
        match &messages[i - 1] {
            Message::Assistant(a) => {
                let (t, n) = join_texts(&a.content);
                if n > 0 {
                    return t;
                }
            },
            _ => {},
        }
        i = i - 1;
    }
    copy_str("(sub-agent produced no text output)")
}

/// What a sub-agent hands back.
pub struct SubAgentResult {
    pub output: String,
    pub is_error: bool,
}

/// The system prompt of a sub-agent.
pub const SUBAGENT_SYSTEM_PROMPT: &'static str = "You are a sub-agent spawned to handle a specific task. Complete the following task and return the result. Be concise and focused. Do not ask for clarification \u{2014} use your best judgment. When the task is complete, provide your final answer as plain text.";

/// A sub-agent: a query loop of its own on one prompt. The front end runs
/// the loop; these are the decisions around it.
pub struct SubAgent;

impl SubAgent {
    /// The model a sub-agent runs: the one it was given, else the default.
    pub fn model(configured: Option<String>, default_model: &str) -> (r: String)
        ensures
            r@ == match configured {
                Some(m) => m@,
                None => default_model@,
            },
    {
        match configured {
            Some(m) => m,
            None => copy_str(default_model),
        }
    }

    /// What a finished sub-agent returns from its conversation: the text of
    /// its last assistant message that has text, never as an error.
    pub fn result(messages: &Vec<Message>) -> (r: SubAgentResult)
        ensures
            r.output@ == match final_answer(messages@, messages@.len() as int) {
                Some(t) => t,
                None => "(sub-agent produced no text output)"@,
            },
            !r.is_error,
    {
        SubAgentResult { output: extract_final_response(messages), is_error: false }
    }
}

// ---------------------------------------------------------------------------
// Compaction
// ---------------------------------------------------------------------------

/// Configuration for a compaction operation.
pub struct CompactConfig {
    /// Number of recent API-round groups to keep verbatim.
    pub keep_recent_groups: usize,
    /// Model to use for the summarization call.
    pub model: String,
    /// Auth header name ("Authorization" or "x-api-key").
    pub auth_header: String,
    /// Auth header value ("Bearer <token>" or raw API key).
    pub auth_value: String,
    /// Anthropic API base URL.
    pub base_url: String,
    /// Maximum tokens for the summary output.
    pub max_summary_tokens: u32,
}

impl CompactConfig {
    /// Create a config with sensible defaults from engine parameters: keep
    /// the last two groups, summaries of up to 8192 tokens.
    pub fn from_engine(model: &str, auth_header: &str, auth_value: &str, base_url: &str) -> (c: Self)
        ensures
            c.keep_recent_groups == 2,
            c.max_summary_tokens == 8192,
            c.model@ == model@,
            c.auth_header@ == auth_header@,
            c.auth_value@ == auth_value@,
            c.base_url@ == base_url@,
    {
        CompactConfig {
            keep_recent_groups: 2,
            model: copy_str(model),
            auth_header: copy_str(auth_header),
            auth_value: copy_str(auth_value),
            base_url: copy_str(base_url),
            max_summary_tokens: 8192,
        }
    }
}

/// Result of a compaction operation.
pub struct CompactResult {
    pub messages_before: usize,
    pub messages_after: usize,
    pub tokens_saved_estimate: u64,
    pub summary_text: String,
}

/// The instructions for the summarization call.
pub open spec fn summarization_prompt() -> Seq<char> {
    SUMMARIZATION_PROMPT@
}

/// The instructions for the summarization call.
pub const SUMMARIZATION_PROMPT: &'static str = "You are a conversation summarizer. Your job is to create a detailed summary of the conversation so far that preserves all important context needed for continuing the work.

CRITICAL: Respond with TEXT ONLY. Do NOT call any tools.
Do NOT use Read, Bash, Grep, Glob, Edit, Write, or ANY other tool.
You already have all the context you need in the conversation above.
Your entire response must be plain text: an <analysis> block followed by a <summary> block.

Instructions:
1. First, write an <analysis> block where you chronologically analyze each part of the conversation:
   - The user's explicit requests and intents
   - Your approach and reasoning
   - Key decisions and technical concepts
   - Specific details: filenames, code snippets, function signatures, file edits
   - Errors encountered and how they were resolved
   - User feedback, especially corrections

2. Then, write a <summary> block with these sections:
   1. **Primary Request and Intent**: What the user is trying to accomplish
   2. **Key Technical Concepts**: Important technical details and decisions
   3. **Files and Code**: All file paths mentioned, with relevant code snippets
   4. **Errors and Fixes**: Problems encountered and their solutions
   5. **Current Approach**: The strategy being used
   6. **Important User Feedback**: Any corrections or preferences expressed
   7. **Pending Tasks**: Work that still needs to be done
   8. **Current State**: Where we left off, with precise details
   9. **Next Steps**: What should be done next

Be thorough and specific. Include file paths, function names, code snippets, and exact details.
The summary will replace the conversation history, so nothing important should be lost.

REMINDER: Do NOT call any tools. Respond with plain text only.";

/// Build the system prompt for the summarization API call.
pub fn summarization_system_prompt() -> (r: String)
    ensures
        r@ == summarization_prompt(),
{
    copy_str(SUMMARIZATION_PROMPT)
}

/// The summary in a summarization response: the `<analysis>` block is cut
/// out (when both its tags are there), then the text between `<summary>`
/// and `</summary>` is taken (when both are there, in that order), trimmed;
/// otherwise the cleaned text, trimmed.
pub open spec fn summary_of(response: Seq<char>) -> Seq<char> {
    let w = match (find(response, "<analysis>"@), find(response, "</analysis>"@)) {
        (Some(a), Some(e)) => response.take(a) + response.skip(e + 11),
        _ => response,
    };
    match (find(w, "<summary>"@), find(w, "</summary>"@)) {
        (Some(s), Some(t)) => if s + 9 <= t {
            trim(w.subrange(s + 9, t))
        } else {
            trim(w)
        },
        _ => trim(w),
    }
}

/// The response without its analysis block, as `summary_of` cuts it.
pub open spec fn without_analysis(response: Seq<char>) -> Seq<char> {
    match (find(response, "<analysis>"@), find(response, "</analysis>"@)) {
        (Some(a), Some(e)) => response.take(a) + response.skip(e + 11),
        _ => response,
    }
}

/// Parse the summarization response, extracting the <summary> section.
///
/// Removes the <analysis> block (internal scratchpad) and extracts
/// the content between <summary> tags. Falls back to the full text
/// if no tags are found.
pub fn parse_summary(response: &str) -> (r: String)
    ensures
        r@ == summary_of(response@),
{
    let c = chars_of(response);
    let open_a = chars_of("<analysis>");
    let close_a = chars_of("</analysis>");
    let open_s = chars_of("<summary>");
    let close_s = chars_of("</summary>");
    proof {
        reveal_strlit("</analysis>");
        reveal_strlit("<summary>");
    }
    let w = match (find_from_exec(&c, &open_a, 0), find_from_exec(&c, &close_a, 0)) {
        (Some(a), Some(e)) => {
            proof {
                crate::text::lemma_find_from(c@, close_a@, 0);
                crate::text::lemma_find_from(c@, open_a@, 0);
                assert(crate::text::occurs_at(c@, close_a@, e as int));
                assert(close_a@.len() == 11);
            }
            let mut w = sub_vec(&c, 0, a);
            assert(e + close_a.len() <= c.len());
            let e_end = e + close_a.len();
            let rest = sub_vec(&c, e_end, c.len());
            let mut k: usize = 0;
            let ghost head = w@;
            while k < rest.len()
                invariant
                    k <= rest.len(),
                    w@ == head + rest@.take(k as int),
                decreases rest.len() - k,
            {
                w.push(rest[k]);
                k = k + 1;
                assert(w@ =~= head + rest@.take(k as int));
            }
            assert(rest@.take(rest.len() as int) =~= rest@);
            assert(w@ =~= c@.take(a as int) + c@.skip(e + 11));
            w
        },
        _ => c,
    };
    assert(w@ == without_analysis(response@));
    match (find_from_exec(&w, &open_s, 0), find_from_exec(&w, &close_s, 0)) {
        (Some(s), Some(t)) => {
            proof {
                crate::text::lemma_find_from(w@, open_s@, 0);
                crate::text::lemma_find_from(w@, close_s@, 0);
                assert(crate::text::occurs_at(w@, close_s@, t as int));
                assert(crate::text::occurs_at(w@, open_s@, s as int));
                assert(open_s@.len() == 9);
                assert(find(w@, "<summary>"@) == Some(s as int));
                assert(find(w@, "</summary>"@) == Some(t as int));
            }
            if t >= s && t - s >= 9 {
                let inner = sub_vec(&w, s + 9, t);
                string_from(&trim_vec(&inner))
            } else {
                string_from(&trim_vec(&w))
            }
        },
        _ => string_from(&trim_vec(&w)),
    }
}

/// Format a summary for injection into the conversation as context.
pub fn format_compact_context(summary: &str) -> (r: String)
    ensures
        r@ == "This conversation was compacted to reduce context length. Summary of previous work:\n\n"@
            + summary@,
{
    let mut r = copy_str(
        "This conversation was compacted to reduce context length. Summary of previous work:\n\n",
    );
    push_str(&mut r, summary);
    r
}

/// Text cut to `max` characters with a marker; unchanged when it fits.
pub open spec fn truncated(text: Seq<char>, max: int) -> Seq<char> {
    if text.len() <= max {
        text
    } else {
        text.take(max) + "...[truncated]"@
    }
}

/// Truncate text to a maximum character count, appending a marker if truncated.
pub fn truncate_text(text: &str, max_chars: usize) -> (r: String)
    ensures
        r@ == truncated(text@, max_chars as int),
{
    let c = chars_of(text);
    if c.len() <= max_chars {
        return copy_str(text);
    }
    let mut r = string_from_range(&c, 0, max_chars);
    push_str(&mut r, "...[truncated]");
    assert(c@.subrange(0, max_chars as int) =~= c@.take(max_chars as int));
    r
}

} // verus!
