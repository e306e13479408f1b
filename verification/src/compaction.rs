use vstd::prelude::*;

use crate::messages::{block_texts, truncate_text, truncated, ContentBlock, Message, UserMessage, SystemMessage};
use crate::clock::utc_now_secs;
use crate::sse::join_lines;
use crate::text::{copy_str, push_char, push_str, str_eq};

verus! {

// ---------------------------------------------------------------------------
// The conversation as text for the summarizer
// ---------------------------------------------------------------------------

/// Characters kept of each tool result text and tool call input.
pub const MAX_TOOL_RESULT_CHARS: usize = 2000;


/// Each text cut to `MAX_TOOL_RESULT_CHARS` characters.
pub open spec fn cut_all(ts: Seq<Seq<char>>) -> Seq<Seq<char>> {
    Seq::new(ts.len(), |i: int| truncated(ts[i], MAX_TOOL_RESULT_CHARS as int))
}

/// The heading of one tool result.
pub open spec fn result_heading(tool_use_id: Seq<char>, is_error: bool) -> Seq<char> {
    (if is_error {
        "[Tool Error for "@
    } else {
        "[Tool Result for "@
    }) + tool_use_id + "]:"@
}

/// The lines of the tool results among `bs`: a heading, the cut texts, a blank.
pub open spec fn tool_result_parts(bs: Seq<ContentBlock>) -> Seq<Seq<char>>
    decreases bs.len(),
{
    if bs.len() == 0 {
        Seq::empty()
    } else {
        let r = tool_result_parts(bs.drop_last());
        match bs.last() {
            ContentBlock::ToolResult { tool_use_id, content, is_error } => r + seq![
                result_heading(tool_use_id@, is_error),
            ] + cut_all(block_texts(content@)) + seq![Seq::<char>::empty()],
            _ => r,
        }
    }
}



/// The line for a tool call.
pub open spec fn tool_call_line(name: Seq<char>, input: Seq<char>) -> Seq<char> {
    "[Tool Call: "@ + name + "]\n"@ + truncated(input, MAX_TOOL_RESULT_CHARS as int)
}

/// The lines of an assistant's blocks: texts as they are, tool calls with
/// their cut input; thinking is left out.
pub open spec fn assistant_parts(bs: Seq<ContentBlock>) -> Seq<Seq<char>>
    decreases bs.len(),
{
    if bs.len() == 0 {
        Seq::empty()
    } else {
        let r = assistant_parts(bs.drop_last());
        match bs.last() {
            ContentBlock::Text { text } => r.push(text@),
            ContentBlock::ToolUse { name, input, .. } => r.push(tool_call_line(name@, input@)),
            _ => r,
        }
    }
}


/// A user message whose first block is a tool result.
pub open spec fn starts_with_result(bs: Seq<ContentBlock>) -> bool {
    bs.len() > 0 && bs[0] is ToolResult
}

/// The lines that stand for one message.
pub open spec fn message_parts(m: Message) -> Seq<Seq<char>> {
    match m {
        Message::User(u) => if starts_with_result(u.content@) {
            tool_result_parts(u.content@)
        } else {
            seq!["User:"@] + block_texts(u.content@) + seq![Seq::<char>::empty()]
        },
        Message::Assistant(a) => seq!["Assistant:"@] + assistant_parts(a.content@) + seq![
            Seq::<char>::empty(),
        ],
        Message::System(s) => seq!["[System: "@ + s.content@ + "]"@, Seq::<char>::empty()],
    }
}


/// The lines of all the messages, in order.
pub open spec fn all_parts(ms: Seq<Message>) -> Seq<Seq<char>>
    decreases ms.len(),
{
    if ms.len() == 0 {
        Seq::empty()
    } else {
        all_parts(ms.drop_last()) + message_parts(ms.last())
    }
}

/// The opening lines of the summary input.
pub open spec fn summary_opening() -> Seq<Seq<char>> {
    seq!["Please summarize the following conversation:\n"@, "---\n"@]
}

/// The text sent to the summarizer: the opening, the lines of each
/// message, a closing rule, joined with `\n`.
pub open spec fn summary_request(ms: Seq<Message>) -> Seq<char> {
    join_lines(summary_opening() + all_parts(ms) + seq!["---"@])
}

/// Appends `\n` and a line to text made of `parts` joined.
fn push_part(r: &mut String, p: &str, Ghost(parts): Ghost<Seq<Seq<char>>>)
    requires
        parts.len() >= 1,
        old(r)@ == join_lines(parts),
    ensures
        final(r)@ == join_lines(parts.push(p@)),
{
    push_char(r, '\n');
    push_str(r, p);
    assert(parts.push(p@).drop_last() =~= parts);
}

/// Appends the cut texts of one tool result.
fn push_cut_texts(r: &mut String, bs: &Vec<ContentBlock>, Ghost(parts): Ghost<Seq<Seq<char>>>)
    requires
        parts.len() >= 1,
        old(r)@ == join_lines(parts),
    ensures
        final(r)@ == join_lines(parts + cut_all(block_texts(bs@))),
{
    let mut i: usize = 0;
    while i < bs.len()
        invariant
            i <= bs.len(),
            parts.len() >= 1,
            r@ == join_lines(parts + cut_all(block_texts(bs@.take(i as int)))),
        decreases bs.len() - i,
    {
        let ghost pre = bs@.take(i as int);
        let ghost cur = bs@.take(i + 1);
        assert(cur.drop_last() =~= pre);
        assert(cur.last() == bs@[i as int]);
        match &bs[i] {
            ContentBlock::Text { text } => {
                assert(block_texts(cur) == block_texts(pre).push(text@));
                let t = truncate_text(text.as_str(), MAX_TOOL_RESULT_CHARS);
                push_part(r, t.as_str(), Ghost(parts + cut_all(block_texts(pre))));
                assert(cut_all(block_texts(cur)) =~= cut_all(block_texts(pre)).push(t@));
                assert((parts + cut_all(block_texts(pre))).push(t@) =~= parts + cut_all(block_texts(cur)));
            },
            _ => {
                assert(block_texts(cur) == block_texts(pre));
            },
        }
        i = i + 1;
    }
    assert(bs@.take(i as int) =~= bs@);
}


/// Appends the lines of the tool results among `bs`.
fn push_tool_results(r: &mut String, bs: &Vec<ContentBlock>, Ghost(parts): Ghost<Seq<Seq<char>>>)
    requires
        parts.len() >= 1,
        old(r)@ == join_lines(parts),
    ensures
        final(r)@ == join_lines(parts + tool_result_parts(bs@)),
{
    let mut i: usize = 0;
    assert(parts + tool_result_parts(bs@.take(0)) =~= parts);
    while i < bs.len()
        invariant
            i <= bs.len(),
            parts.len() >= 1,
            r@ == join_lines(parts + tool_result_parts(bs@.take(i as int))),
        decreases bs.len() - i,
    {
        let ghost pre = bs@.take(i as int);
        let ghost cur = bs@.take(i + 1);
        assert(cur.drop_last() =~= pre);
        assert(cur.last() == bs@[i as int]);
        match &bs[i] {
            ContentBlock::ToolResult { tool_use_id, content, is_error } => {
                let ghost before = parts + tool_result_parts(pre);
                let mut head = if *is_error {
                    copy_str("[Tool Error for ")
                } else {
                    copy_str("[Tool Result for ")
                };
                push_str(&mut head, tool_use_id.as_str());
                push_str(&mut head, "]:");
                push_part(r, head.as_str(), Ghost(before));
                let ghost with_head = before.push(head@);
                push_cut_texts(r, content, Ghost(with_head));
                let ghost with_texts = with_head + cut_all(block_texts(content@));
                push_part(r, "", Ghost(with_texts));
                proof {
                    reveal_strlit("");
                    assert(""@ =~= Seq::<char>::empty());
                    assert(head@ == result_heading(tool_use_id@, *is_error));
                    assert(tool_result_parts(cur) == tool_result_parts(pre) + seq![
                        result_heading(tool_use_id@, *is_error),
                    ] + cut_all(block_texts(content@)) + seq![Seq::<char>::empty()]);
                    assert(with_head =~= before + seq![head@]);
                }
                assert(with_texts.push(""@) =~= parts + tool_result_parts(cur));
            },
            _ => {
                assert(tool_result_parts(cur) == tool_result_parts(pre));
            },
        }
        i = i + 1;
    }
    assert(bs@.take(i as int) =~= bs@);
}



/// Appends the lines of an assistant's blocks.
fn push_assistant_blocks(r: &mut String, bs: &Vec<ContentBlock>, Ghost(parts): Ghost<Seq<Seq<char>>>)
    requires
        parts.len() >= 1,
        old(r)@ == join_lines(parts),
    ensures
        final(r)@ == join_lines(parts + assistant_parts(bs@)),
{
    let mut i: usize = 0;
    assert(parts + assistant_parts(bs@.take(0)) =~= parts);
    while i < bs.len()
        invariant
            i <= bs.len(),
            parts.len() >= 1,
            r@ == join_lines(parts + assistant_parts(bs@.take(i as int))),
        decreases bs.len() - i,
    {
        let ghost pre = bs@.take(i as int);
        let ghost cur = bs@.take(i + 1);
        assert(cur.drop_last() =~= pre);
        assert(cur.last() == bs@[i as int]);
        let ghost before = parts + assistant_parts(pre);
        match &bs[i] {
            ContentBlock::Text { text } => {
                push_part(r, text.as_str(), Ghost(before));
                assert(before.push(text@) =~= parts + assistant_parts(cur));
            },
            ContentBlock::ToolUse { name, input, .. } => {
                let mut line = copy_str("[Tool Call: ");
                push_str(&mut line, name.as_str());
                push_str(&mut line, "]\n");
                let cut = truncate_text(input.as_str(), MAX_TOOL_RESULT_CHARS);
                push_str(&mut line, cut.as_str());
                push_part(r, line.as_str(), Ghost(before));
                assert(line@ == tool_call_line(name@, input@));
                assert(before.push(line@) =~= parts + assistant_parts(cur));
            },
            _ => {
                assert(assistant_parts(cur) == assistant_parts(pre));
            },
        }
        i = i + 1;
    }
    assert(bs@.take(i as int) =~= bs@);
}

/// Appends the lines that stand for one message.
fn push_message(r: &mut String, m: &Message, Ghost(parts): Ghost<Seq<Seq<char>>>)
    requires
        parts.len() >= 1,
        old(r)@ == join_lines(parts),
    ensures
        final(r)@ == join_lines(parts + message_parts(*m)),
{
    match m {
        Message::User(u) => {
            let first_is_result = u.content.len() > 0 && match &u.content[0] {
                ContentBlock::ToolResult { .. } => true,
                _ => false,
            };
            if first_is_result {
                push_tool_results(r, &u.content, Ghost(parts));
            } else {
                push_part(r, "User:", Ghost(parts));
                let ghost p1 = parts.push("User:"@);
                let mut i: usize = 0;
                assert(p1 + block_texts(u.content@.take(0)) =~= p1);
                while i < u.content.len()
                    invariant
                        i <= u.content.len(),
                        p1.len() >= 1,
                        r@ == join_lines(p1 + block_texts(u.content@.take(i as int))),
                    decreases u.content.len() - i,
                {
                    let ghost pre = u.content@.take(i as int);
                    let ghost cur = u.content@.take(i + 1);
                    assert(cur.drop_last() =~= pre);
                    assert(cur.last() == u.content@[i as int]);
                    match &u.content[i] {
                        ContentBlock::Text { text } => {
                            push_part(r, text.as_str(), Ghost(p1 + block_texts(pre)));
                            assert((p1 + block_texts(pre)).push(text@) =~= p1 + block_texts(cur));
                        },
                        _ => {},
                    }
                    i = i + 1;
                }
                assert(u.content@.take(i as int) =~= u.content@);
                let ghost p2 = p1 + block_texts(u.content@);
                push_part(r, "", Ghost(p2));
                proof {
                    reveal_strlit("");
                    assert(""@ =~= Seq::<char>::empty());
                    assert(p1 =~= parts + seq!["User:"@]);
                }
                assert(p2.push(""@) =~= parts + (seq!["User:"@] + block_texts(u.content@) + seq![
                    Seq::<char>::empty(),
                ]));
            }
        },
        Message::Assistant(a) => {
            push_part(r, "Assistant:", Ghost(parts));
            let ghost p1 = parts.push("Assistant:"@);
            push_assistant_blocks(r, &a.content, Ghost(p1));
            let ghost p2 = p1 + assistant_parts(a.content@);
            push_part(r, "", Ghost(p2));
            proof {
                reveal_strlit("");
                assert(""@ =~= Seq::<char>::empty());
                assert(p1 =~= parts + seq!["Assistant:"@]);
            }
            assert(p2.push(""@) =~= parts + (seq!["Assistant:"@] + assistant_parts(a.content@) + seq![
                Seq::<char>::empty(),
            ]));
        },
        Message::System(s) => {
            let mut line = copy_str("[System: ");
            push_str(&mut line, s.content.as_str());
            push_str(&mut line, "]");
            push_part(r, line.as_str(), Ghost(parts));
            push_part(r, "", Ghost(parts.push(line@)));
            proof {
                reveal_strlit("");
                assert(""@ =~= Seq::<char>::empty());
            }
            assert(parts.push(line@).push(""@) =~= parts + seq![line@, Seq::<char>::empty()]);
        },
    }
}


/// The conversation as plain text for the summarizer: thinking is left
/// out, and each tool result text and tool call input is cut to
/// `MAX_TOOL_RESULT_CHARS` characters.
pub fn build_summary_user_message(messages: &Vec<Message>) -> (r: String)
    ensures
        r@ == summary_request(messages@),
{
    let mut r = copy_str("Please summarize the following conversation:\n");
    let ghost opening = seq!["Please summarize the following conversation:\n"@];
    assert(join_lines(opening) == r@);
    push_part(&mut r, "---\n", Ghost(opening));
    assert(opening.push("---\n"@) =~= summary_opening());
    let mut i: usize = 0;
    assert(summary_opening() + all_parts(messages@.take(0)) =~= summary_opening());
    while i < messages.len()
        invariant
            i <= messages.len(),
            r@ == join_lines(summary_opening() + all_parts(messages@.take(i as int))),
        decreases messages.len() - i,
    {
        let ghost pre = messages@.take(i as int);
        let ghost cur = messages@.take(i + 1);
        assert(cur.drop_last() =~= pre);
        assert(cur.last() == messages@[i as int]);
        push_message(&mut r, &messages[i], Ghost(summary_opening() + all_parts(pre)));
        assert(summary_opening() + all_parts(pre) + message_parts(messages@[i as int]) =~= summary_opening()
            + all_parts(cur));
        i = i + 1;
    }
    assert(messages@.take(i as int) =~= messages@);
    push_part(&mut r, "---", Ghost(summary_opening() + all_parts(messages@)));
    assert((summary_opening() + all_parts(messages@)).push("---"@) =~= summary_opening() + all_parts(messages@)
        + seq!["---"@]);
    r
}


// ---------------------------------------------------------------------------
// Clearing old tool results
// ---------------------------------------------------------------------------

/// What a cleared tool result holds.
pub const CLEARED_MARKER: &'static str = "[Old tool result content cleared]";

/// Tools whose results may be cleared.
pub open spec fn is_compactable(name: Seq<char>) -> bool {
    name == "Read"@ || name == "FileRead"@ || name == "file_read"@ || name == "Bash"@ || name
        == "BashTerminal"@ || name == "Grep"@ || name == "Glob"@ || name == "WebSearch"@ || name
        == "WebFetch"@ || name == "Edit"@ || name == "Write"@
}

fn compactable_tool(name: &str) -> (b: bool)
    ensures
        b == is_compactable(name@),
{
    str_eq(name, "Read") || str_eq(name, "FileRead") || str_eq(name, "file_read") || str_eq(name, "Bash")
        || str_eq(name, "BashTerminal") || str_eq(name, "Grep") || str_eq(name, "Glob") || str_eq(
        name,
        "WebSearch",
    ) || str_eq(name, "WebFetch") || str_eq(name, "Edit") || str_eq(name, "Write")
}

/// The name of the last tool call with the id among `bs`.
pub open spec fn name_in_blocks(bs: Seq<ContentBlock>, id: Seq<char>) -> Option<Seq<char>>
    decreases bs.len(),
{
    if bs.len() == 0 {
        None
    } else {
        match bs.last() {
            ContentBlock::ToolUse { id: i, name, .. } => if i@ == id {
                Some(name@)
            } else {
                name_in_blocks(bs.drop_last(), id)
            },
            _ => name_in_blocks(bs.drop_last(), id),
        }
    }
}

/// The name of the last tool call with the id made by the assistant in the
/// first `n` messages.
pub open spec fn tool_name_for(ms: Seq<Message>, n: int, id: Seq<char>) -> Option<Seq<char>>
    decreases n,
{
    if n <= 0 {
        None
    } else {
        match ms[n - 1] {
            Message::Assistant(a) => match name_in_blocks(a.content@, id) {
                Some(x) => Some(x),
                None => tool_name_for(ms, n - 1, id),
            },
            _ => tool_name_for(ms, n - 1, id),
        }
    }
}

/// The content is just the marker.
pub open spec fn is_cleared(c: Seq<ContentBlock>) -> bool {
    &&& c.len() == 1
    &&& c[0] matches ContentBlock::Text { text } && text@ == CLEARED_MARKER@
}

/// The block is a tool result of a compactable tool, called in the first
/// `cutoff` messages, that is not cleared yet.
pub open spec fn block_clears(b: ContentBlock, ms: Seq<Message>, cutoff: int) -> bool {
    &&& b matches ContentBlock::ToolResult { tool_use_id, content, .. }
    &&& match tool_name_for(ms, cutoff, b->tool_use_id@) {
        Some(n) => is_compactable(n),
        None => false,
    }
    &&& !is_cleared(b->ToolResult_content@)
}

/// `new` is the tool result `old` with its content replaced by the marker.
pub open spec fn cleared_block(old: ContentBlock, new: ContentBlock) -> bool {
    &&& old is ToolResult
    &&& new is ToolResult
    &&& new->tool_use_id == old->tool_use_id
    &&& new->is_error == old->is_error
    &&& is_cleared(new->ToolResult_content@)
}

/// The blocks after clearing: those that clear are cleared, the others stay.
pub open spec fn compacted_blocks(old: Seq<ContentBlock>, new: Seq<ContentBlock>, ms: Seq<Message>, cutoff: int) -> bool {
    &&& new.len() == old.len()
    &&& forall|j: int|
        0 <= j < old.len() ==> if block_clears(#[trigger] old[j], ms, cutoff) {
            cleared_block(old[j], new[j])
        } else {
            new[j] == old[j]
        }
}

/// A message after clearing: a user message keeps its id and time and has
/// its blocks cleared; any other message stays.
pub open spec fn compacted_message(old: Message, new: Message, ms: Seq<Message>, cutoff: int) -> bool {
    match old {
        Message::User(u) => {
            &&& new is User
            &&& new->User_0.uuid == u.uuid
            &&& new->User_0.timestamp == u.timestamp
            &&& compacted_blocks(u.content@, new->User_0.content@, ms, cutoff)
        },
        _ => new == old,
    }
}

/// How many of the blocks clear.
pub open spec fn blocks_clearing(bs: Seq<ContentBlock>, ms: Seq<Message>, cutoff: int) -> nat
    decreases bs.len(),
{
    if bs.len() == 0 {
        0
    } else {
        blocks_clearing(bs.drop_last(), ms, cutoff) + if block_clears(bs.last(), ms, cutoff) {
            1nat
        } else {
            0nat
        }
    }
}

/// How many blocks of the user messages among the first `n` clear.
pub open spec fn clear_count(ms: Seq<Message>, n: int, cutoff: int) -> nat
    decreases n,
{
    if n <= 0 {
        0
    } else {
        clear_count(ms, n - 1, cutoff) + match ms[n - 1] {
            Message::User(u) => blocks_clearing(u.content@, ms, cutoff),
            _ => 0nat,
        }
    }
}

/// The messages up to which old results are cleared.
pub open spec fn cutoff_of(len: int, keep_recent: int) -> int {
    if len <= keep_recent {
        0
    } else {
        len - keep_recent
    }
}

/// The name of the last tool call with the id in the first `cutoff` messages.
fn tool_name_lookup(ms: &Vec<Message>, cutoff: usize, id: &str) -> (r: Option<String>)
    requires
        cutoff <= ms.len(),
    ensures
        match r {
            Some(s) => tool_name_for(ms@, cutoff as int, id@) == Some(s@),
            None => tool_name_for(ms@, cutoff as int, id@) is None,
        },
{
    let mut found: Option<String> = None;
    let mut i: usize = 0;
    while i < cutoff
        invariant
            i <= cutoff <= ms.len(),
            match found {
                Some(s) => tool_name_for(ms@, i as int, id@) == Some(s@),
                None => tool_name_for(ms@, i as int, id@) is None,
            },
        decreases cutoff - i,
    {
        match &ms[i] {
            Message::Assistant(a) => {
                let mut j: usize = 0;
                let mut here: Option<String> = None;
                while j < a.content.len()
                    invariant
                        j <= a.content.len(),
                        match here {
                            Some(s) => name_in_blocks(a.content@.take(j as int), id@) == Some(s@),
                            None => name_in_blocks(a.content@.take(j as int), id@) is None,
                        },
                    decreases a.content.len() - j,
                {
                    let ghost cur = a.content@.take(j + 1);
                    assert(cur.drop_last() =~= a.content@.take(j as int));
                    assert(cur.last() == a.content@[j as int]);
                    match &a.content[j] {
                        ContentBlock::ToolUse { id: bid, name, .. } => {
                            if str_eq(bid.as_str(), id) {
                                here = Some(copy_str(name.as_str()));
                            }
                        },
                        _ => {},
                    }
                    j = j + 1;
                }
                assert(a.content@.take(j as int) =~= a.content@);
                if here.is_some() {
                    found = here;
                }
            },
            _ => {},
        }
        i = i + 1;
    }
    found
}


/// Whether a block is cleared, decided against the messages as they were.
fn block_decision(ms: &Vec<Message>, cutoff: usize, b: &ContentBlock) -> (d: bool)
    requires
        cutoff <= ms.len(),
    ensures
        d == block_clears(*b, ms@, cutoff as int),
{
    match b {
        ContentBlock::ToolResult { tool_use_id, content, .. } => {
            let compactable = match tool_name_lookup(ms, cutoff, tool_use_id.as_str()) {
                Some(n) => compactable_tool(n.as_str()),
                None => false,
            };
            if !compactable {
                return false;
            }
            let cleared = content.len() == 1 && match &content[0] {
                ContentBlock::Text { text } => str_eq(text.as_str(), CLEARED_MARKER),
                _ => false,
            };
            !cleared
        },
        _ => false,
    }
}

/// For each of the first `cutoff` messages, which of its blocks clear.
fn clearing_plan(ms: &Vec<Message>, cutoff: usize) -> (plan: Vec<Vec<bool>>)
    requires
        cutoff <= ms.len(),
    ensures
        plan.len() == cutoff,
        forall|i: int|
            0 <= i < cutoff ==> match #[trigger] ms@[i] {
                Message::User(u) => plan@[i].len() == u.content.len() && forall|j: int|
                    0 <= j < u.content.len() ==> plan@[i]@[j] == block_clears(
                        #[trigger] u.content@[j],
                        ms@,
                        cutoff as int,
                    ),
                _ => plan@[i].len() == 0,
            },
{
    let mut plan: Vec<Vec<bool>> = Vec::new();
    let mut i: usize = 0;
    while i < cutoff
        invariant
            i <= cutoff <= ms.len(),
            plan.len() == i,
            forall|k: int|
                0 <= k < i ==> match #[trigger] ms@[k] {
                    Message::User(u) => plan@[k].len() == u.content.len() && forall|j: int|
                        0 <= j < u.content.len() ==> plan@[k]@[j] == block_clears(
                            #[trigger] u.content@[j],
                            ms@,
                            cutoff as int,
                        ),
                    _ => plan@[k].len() == 0,
                },
        decreases cutoff - i,
    {
        let mut row: Vec<bool> = Vec::new();
        match &ms[i] {
            Message::User(u) => {
                let mut j: usize = 0;
                while j < u.content.len()
                    invariant
                        j <= u.content.len(),
                        cutoff <= ms.len(),
                        row.len() == j,
                        forall|k: int| 0 <= k < j ==> row@[k] == block_clears(#[trigger] u.content@[k], ms@, cutoff as int),
                    decreases u.content.len() - j,
                {
                    row.push(block_decision(ms, cutoff, &u.content[j]));
                    j = j + 1;
                }
            },
            _ => {},
        }
        plan.push(row);
        i = i + 1;
    }
    plan
}

proof fn lemma_blocks_clearing_step(bs: Seq<ContentBlock>, j: int, ms: Seq<Message>, cutoff: int)
    requires
        0 <= j < bs.len(),
    ensures
        blocks_clearing(bs.take(j + 1), ms, cutoff) == blocks_clearing(bs.take(j), ms, cutoff) + if block_clears(
            bs[j],
            ms,
            cutoff,
        ) {
            1nat
        } else {
            0nat
        },
{
    assert(bs.take(j + 1).drop_last() =~= bs.take(j));
    assert(bs.take(j + 1).last() == bs[j]);
}

/// `a + b`, held at `usize::MAX`.
pub open spec fn capped(n: nat) -> usize {
    if n > usize::MAX {
        usize::MAX
    } else {
        n as usize
    }
}

/// Replaces, in the messages before the last `keep_recent`, the content of
/// each tool result of a compactable tool with a short marker; results
/// already cleared are left alone. Returns how many were cleared.
pub fn microcompact(messages: &mut Vec<Message>, keep_recent: usize) -> (r: usize)
    ensures
        final(messages)@.len() == old(messages)@.len(),
        forall|i: int|
            0 <= i < cutoff_of(old(messages)@.len() as int, keep_recent as int) ==> compacted_message(
                #[trigger] old(messages)@[i],
                final(messages)@[i],
                old(messages)@,
                cutoff_of(old(messages)@.len() as int, keep_recent as int),
            ),
        forall|i: int|
            cutoff_of(old(messages)@.len() as int, keep_recent as int) <= i < old(messages)@.len()
                ==> #[trigger] final(messages)@[i] == old(messages)@[i],
        r == capped(
            clear_count(
                old(messages)@,
                cutoff_of(old(messages)@.len() as int, keep_recent as int),
                cutoff_of(old(messages)@.len() as int, keep_recent as int),
            ),
        ),
{
    let len = messages.len();
    if len <= keep_recent {
        return 0;
    }
    let cutoff = len - keep_recent;
    let ghost ms = messages@;
    let ghost c = cutoff as int;
    let plan = clearing_plan(messages, cutoff);
    let mut cleared: usize = 0;
    let mut i: usize = 0;
    while i < cutoff
        invariant
            i <= cutoff <= len,
            len == ms.len(),
            c == cutoff,
            messages@.len() == len,
            plan.len() == cutoff,
            forall|k: int|
                0 <= k < cutoff ==> match #[trigger] ms[k] {
                    Message::User(u) => plan@[k].len() == u.content.len() && forall|j: int|
                        0 <= j < u.content.len() ==> plan@[k]@[j] == block_clears(
                            #[trigger] u.content@[j],
                            ms,
                            c,
                        ),
                    _ => plan@[k].len() == 0,
                },
            forall|k: int| 0 <= k < i ==> compacted_message(#[trigger] ms[k], messages@[k], ms, c),
            forall|k: int| i <= k < len ==> #[trigger] messages@[k] == ms[k],
            cleared == capped(clear_count(ms, i as int, c)),
        decreases cutoff - i,
    {
        let is_user = match &messages[i] {
            Message::User(_) => true,
            _ => false,
        };
        if is_user {
            let mut taken = Message::System(SystemMessage { content: String::new() });
            messages.set_and_swap(i, &mut taken);
            assert(taken == ms[i as int]);
            match taken {
                Message::User(u) => {
                    let UserMessage { uuid, content, timestamp } = u;
                    let mut content = content;
                    let ghost oldc = content@;
                    let row = &plan[i];
                    let mut j: usize = 0;
                    while j < content.len()
                        invariant
                            j <= content.len(),
                            content@.len() == oldc.len(),
                            row@.len() == oldc.len(),
                            forall|k: int| 0 <= k < oldc.len() ==> row@[k] == block_clears(#[trigger] oldc[k], ms, c),
                            forall|k: int|
                                0 <= k < j ==> if block_clears(#[trigger] oldc[k], ms, c) {
                                    cleared_block(oldc[k], content@[k])
                                } else {
                                    content@[k] == oldc[k]
                                },
                            forall|k: int| j <= k < oldc.len() ==> #[trigger] content@[k] == oldc[k],
                            cleared == capped(clear_count(ms, i as int, c) + blocks_clearing(oldc.take(j as int), ms, c)),
                        decreases content.len() - j,
                    {
                        proof {
                            lemma_blocks_clearing_step(oldc, j as int, ms, c);
                        }
                        if row[j] {
                            let mut b = ContentBlock::Text { text: String::new() };
                            content.set_and_swap(j, &mut b);
                            assert(b == oldc[j as int]);
                            match b {
                                ContentBlock::ToolResult { tool_use_id, content: _, is_error } => {
                                    let marker = vec![ContentBlock::Text { text: copy_str(CLEARED_MARKER) }];
                                    content.set(j, ContentBlock::ToolResult { tool_use_id, content: marker, is_error });
                                },
                                other => {
                                    content.set(j, other);
                                },
                            }
                            cleared = cleared.saturating_add(1);
                        }
                        j = j + 1;
                    }
                    assert(oldc.take(j as int) =~= oldc);
                    messages.set(i, Message::User(UserMessage { uuid, content, timestamp }));
                },
                other => {
                    messages.set(i, other);
                },
            }
        }
        assert(clear_count(ms, i + 1, c) == clear_count(ms, i as int, c) + match ms[i as int] {
            Message::User(u) => blocks_clearing(u.content@, ms, c),
            _ => 0nat,
        });
        i = i + 1;
    }
    cleared
}


/// The time of the last assistant message, if any.
pub open spec fn last_assistant_time(ms: Seq<Message>) -> Option<u64>
    decreases ms.len(),
{
    if ms.len() == 0 {
        None
    } else {
        match ms.last() {
            Message::Assistant(a) => Some(a.timestamp),
            _ => last_assistant_time(ms.drop_last()),
        }
    }
}

/// Whether, at `now`, the last assistant message is at least
/// `threshold_secs` old (the user has been away).
pub fn should_microcompact_at(messages: &Vec<Message>, threshold_secs: u64, now: u64) -> (b: bool)
    ensures
        b == match last_assistant_time(messages@) {
            Some(ts) => now > ts && now - ts >= threshold_secs,
            None => false,
        },
{
    let mut i: usize = messages.len();
    assert(messages@.take(i as int) =~= messages@);
    while i > 0
        invariant
            i <= messages.len(),
            last_assistant_time(messages@) == last_assistant_time(messages@.take(i as int)),
        decreases i,
    {
        let ghost cur = messages@.take(i as int);
        assert(cur.drop_last() =~= messages@.take(i - 1));
        assert(cur.last() == messages@[i - 1]);
        match &messages[i - 1] {
            Message::Assistant(a) => {
                let ts = a.timestamp;
                return now > ts && now - ts >= threshold_secs;
            },
            _ => {},
        }
        i = i - 1;
    }
    assert(messages@.take(0) =~= Seq::<Message>::empty());
    false
}

/// Whether the last assistant message is at least `threshold_secs` old now.
pub fn should_microcompact_by_time(messages: &Vec<Message>, threshold_secs: u64) -> (b: bool)
    ensures
        last_assistant_time(messages@) is None ==> !b,
        b ==> exists|now: u64| #![trigger now - last_assistant_time(messages@)->Some_0]
            now > last_assistant_time(messages@)->Some_0 && now - last_assistant_time(messages@)->Some_0 >= threshold_secs,
{
    let now = utc_now_secs();
    should_microcompact_at(messages, threshold_secs, now)
}

/// Clearing touches no assistant message, so the names of the tool calls
/// stay what they were.
proof fn lemma_names_kept(ms: Seq<Message>, ms2: Seq<Message>, c: int, n: int, id: Seq<char>)
    requires
        0 <= n <= c <= ms.len(),
        ms2.len() == ms.len(),
        forall|i: int| 0 <= i < c ==> compacted_message(#[trigger] ms[i], ms2[i], ms, c),
    ensures
        tool_name_for(ms2, n, id) == tool_name_for(ms, n, id),
    decreases n,
{
    if n > 0 {
        lemma_names_kept(ms, ms2, c, n - 1, id);
        assert(compacted_message(ms[n - 1], ms2[n - 1], ms, c));
    }
}

proof fn lemma_none_clear_after(bs: Seq<ContentBlock>, bs2: Seq<ContentBlock>, ms: Seq<Message>, ms2: Seq<Message>, c: int)
    requires
        compacted_blocks(bs, bs2, ms, c),
        forall|id: Seq<char>| #[trigger] tool_name_for(ms2, c, id) == tool_name_for(ms, c, id),
    ensures
        blocks_clearing(bs2, ms2, c) == 0,
    decreases bs.len(),
{
    if bs.len() > 0 {
        let n = bs.len() - 1;
        assert(compacted_blocks(bs.drop_last(), bs2.drop_last(), ms, c)) by {
            assert forall|j: int| 0 <= j < bs.drop_last().len() implies if block_clears(#[trigger] bs.drop_last()[j], ms, c) {
                cleared_block(bs.drop_last()[j], bs2.drop_last()[j])
            } else {
                bs2.drop_last()[j] == bs.drop_last()[j]
            } by {
                assert(bs.drop_last()[j] == bs[j]);
                assert(bs2.drop_last()[j] == bs2[j]);
            }
        }
        lemma_none_clear_after(bs.drop_last(), bs2.drop_last(), ms, ms2, c);
        assert(bs2.last() == bs2[n]);
        if block_clears(bs[n], ms, c) {
            assert(cleared_block(bs[n], bs2[n]));
        } else {
            assert(bs2[n] == bs[n]);
            if bs[n] is ToolResult {
                assert(tool_name_for(ms2, c, bs[n]->tool_use_id@) == tool_name_for(ms, c, bs[n]->tool_use_id@));
            }
        }
    }
}

/// Clearing twice clears nothing more: once the old results are cleared, a
/// second pass over the same messages (with the same cutoff) finds none.
pub proof fn law_microcompact_idempotent(ms: Seq<Message>, ms2: Seq<Message>, c: int)
    requires
        0 <= c <= ms.len(),
        ms2.len() == ms.len(),
        forall|i: int| 0 <= i < c ==> compacted_message(#[trigger] ms[i], ms2[i], ms, c),
    ensures
        forall|n: int| 0 <= n <= c ==> #[trigger] clear_count(ms2, n, c) == 0,
{
    assert forall|id: Seq<char>| #[trigger] tool_name_for(ms2, c, id) == tool_name_for(ms, c, id) by {
        lemma_names_kept(ms, ms2, c, c, id);
    }
    assert forall|n: int| 0 <= n <= c implies #[trigger] clear_count(ms2, n, c) == 0 by {
        lemma_count_zero(ms, ms2, c, n);
    }
}

proof fn lemma_count_zero(ms: Seq<Message>, ms2: Seq<Message>, c: int, n: int)
    requires
        0 <= n <= c <= ms.len(),
        ms2.len() == ms.len(),
        forall|i: int| 0 <= i < c ==> compacted_message(#[trigger] ms[i], ms2[i], ms, c),
        forall|id: Seq<char>| #[trigger] tool_name_for(ms2, c, id) == tool_name_for(ms, c, id),
    ensures
        clear_count(ms2, n, c) == 0,
    decreases n,
{
    if n > 0 {
        lemma_count_zero(ms, ms2, c, n - 1);
        assert(compacted_message(ms[n - 1], ms2[n - 1], ms, c));
        match ms[n - 1] {
            Message::User(u) => {
                lemma_none_clear_after(u.content@, ms2[n - 1]->User_0.content@, ms, ms2, c);
            },
            _ => {},
        }
    }
}

proof fn lemma_zero_means_none(bs: Seq<ContentBlock>, ms: Seq<Message>, c: int)
    requires
        blocks_clearing(bs, ms, c) == 0,
    ensures
        forall|j: int| 0 <= j < bs.len() ==> !block_clears(#[trigger] bs[j], ms, c),
    decreases bs.len(),
{
    if bs.len() > 0 {
        lemma_zero_means_none(bs.drop_last(), ms, c);
        assert forall|j: int| 0 <= j < bs.len() implies !block_clears(#[trigger] bs[j], ms, c) by {
            if j < bs.len() - 1 {
                assert(bs[j] == bs.drop_last()[j]);
            }
        }
    }
}

/// Two messages hold the same: equal, or user messages with the same id,
/// time and blocks.
pub open spec fn same_message(a: Message, b: Message) -> bool {
    match a {
        Message::User(u) => {
            &&& b is User
            &&& b->User_0.uuid == u.uuid
            &&& b->User_0.timestamp == u.timestamp
            &&& b->User_0.content@ == u.content@
        },
        _ => b == a,
    }
}

/// A second pass of `microcompact` (with the same cutoff) over what a first
/// pass left changes no message.
pub proof fn law_microcompact_second_pass_unchanged(ms: Seq<Message>, ms2: Seq<Message>, ms3: Seq<Message>, c: int)
    requires
        0 <= c <= ms.len(),
        ms2.len() == ms.len(),
        ms3.len() == ms2.len(),
        forall|i: int| 0 <= i < c ==> compacted_message(#[trigger] ms[i], ms2[i], ms, c),
        forall|i: int| 0 <= i < c ==> compacted_message(#[trigger] ms2[i], ms3[i], ms2, c),
        forall|i: int| c <= i < ms2.len() ==> #[trigger] ms3[i] == ms2[i],
    ensures
        forall|i: int| 0 <= i < ms2.len() ==> same_message(#[trigger] ms2[i], ms3[i]),
{
    assert forall|id: Seq<char>| #[trigger] tool_name_for(ms2, c, id) == tool_name_for(ms, c, id) by {
        lemma_names_kept(ms, ms2, c, c, id);
    }
    assert forall|i: int| 0 <= i < ms2.len() implies same_message(#[trigger] ms2[i], ms3[i]) by {
        if i < c {
            assert(compacted_message(ms[i], ms2[i], ms, c));
            assert(compacted_message(ms2[i], ms3[i], ms2, c));
            match ms[i] {
                Message::User(u) => {
                    let b2 = ms2[i]->User_0.content@;
                    let b3 = ms3[i]->User_0.content@;
                    lemma_none_clear_after(u.content@, b2, ms, ms2, c);
                    lemma_zero_means_none(b2, ms2, c);
                    assert forall|j: int| 0 <= j < b2.len() implies #[trigger] b3[j] == b2[j] by {
                        assert(!block_clears(b2[j], ms2, c));
                    }
                    assert(b3 =~= b2);
                },
                _ => {},
            }
        } else {
            assert(ms3[i] == ms2[i]);
        }
    }
}

} // verus!
