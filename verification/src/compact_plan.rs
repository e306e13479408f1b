use vstd::prelude::*;

use crate::groups::{group_by_api_round, group_starts, grouped, lemma_token_sum_mono, token_sum, MessageGroup};
use crate::compaction::{capped, clear_count, compacted_message, cutoff_of, microcompact};
use crate::messages::{format_compact_context, AssistantMessage, ContentBlock, Message, UserMessage};
use crate::text::{copy_str, str_contains};

verus! {

// ---------------------------------------------------------------------------
// Where to cut the conversation
// ---------------------------------------------------------------------------

/// Summarisation retries after a prompt-too-long error.
pub const MAX_PTL_RETRIES: usize = 3;

/// Failed automatic compactions in a row after which no more are tried.
pub const MAX_CONSECUTIVE_FAILURES: u32 = 3;

/// The cut of a conversation for compaction: the old messages `..old_end`
/// are summarised, the recent ones `recent_start..` kept; `old_tokens` is
/// the estimate of what the old ones take.
pub struct CompactPlan {
    pub old_end: usize,
    pub recent_start: usize,
    pub old_tokens: u64,
}

/// Why a conversation cannot be compacted.
#[derive(Debug, Clone, Copy, PartialEq, Eq, Structural)]
pub enum CompactError {
    /// Fewer than four messages; the count.
    TooShort(usize),
    /// No more API rounds than are kept; the rounds and the rounds kept.
    TooFewGroups(usize, usize),
    /// The summariser gave back nothing.
    EmptySummary,
}

/// The plan for `ms`, grouped into API rounds (each message with its token
/// estimate), keeping the last `keep` rounds: too short below four
/// messages; too few rounds unless there are more than `keep`; else the old
/// part ends where the last old round ends, the recent part starts where
/// the first kept round starts (at the end when none is kept), and the old
/// part's estimate is the sum over its messages.
pub open spec fn plan_spec(ms: Seq<Message>, tokens: Seq<u64>, keep: int) -> Result<(int, int, int), CompactError> {
    let starts = group_starts(ms, ms.len() as int);
    let ends = |g: int| if g + 1 < starts.len() { starts[g + 1] } else { ms.len() as int };
    if ms.len() < 4 {
        Err(CompactError::TooShort(ms.len() as usize))
    } else if starts.len() <= keep {
        Err(CompactError::TooFewGroups(starts.len() as usize, keep as usize))
    } else {
        let split = starts.len() - keep;
        let old_end = ends(split - 1);
        let recent_start = if keep > 0 { starts[split] } else { ms.len() as int };
        Ok((old_end, recent_start, token_sum(tokens, 0, old_end)))
    }
}

pub open spec fn plan_view(r: Result<CompactPlan, CompactError>) -> Result<(int, int, int), CompactError> {
    match r {
        Ok(p) => Ok((p.old_end as int, p.recent_start as int, p.old_tokens as int)),
        Err(e) => Err(e),
    }
}

proof fn lemma_starts_shape(ms: Seq<Message>, n: int)
    requires
        0 <= n <= ms.len(),
    ensures
        n > 0 ==> group_starts(ms, n).len() > 0 && group_starts(ms, n)[0] == 0,
        forall|i: int, j: int|
            0 <= i < j < group_starts(ms, n).len() ==> group_starts(ms, n)[i] < group_starts(ms, n)[j],
        forall|i: int| 0 <= i < group_starts(ms, n).len() ==> 0 <= #[trigger] group_starts(ms, n)[i] < n,
    decreases n,
{
    if n > 0 {
        lemma_starts_shape(ms, n - 1);
        let r = group_starts(ms, n - 1);
        let q = group_starts(ms, n);
        if n - 1 == 0 || crate::groups::is_user_turn(ms[n - 1]) {
            assert(q == r.push(n - 1));
            assert forall|i: int, j: int| 0 <= i < j < q.len() implies q[i] < q[j] by {
                if j < r.len() {
                    assert(q[i] == r[i] && q[j] == r[j]);
                } else {
                    assert(q[i] == r[i]);
                }
            }
            if n - 1 > 0 {
                assert(q[0] == r[0]);
            } else {
                assert(r.len() == 0);
            }
        } else {
            assert(q == r);
        }
    }
}

proof fn lemma_token_sum_split(t: Seq<u64>, a: int, b: int, c: int)
    requires
        a <= b <= c,
    ensures
        token_sum(t, a, c) == token_sum(t, a, b) + token_sum(t, b, c),
    decreases c - b,
{
    if b < c {
        lemma_token_sum_split(t, a, b, c - 1);
    }
}

/// Plans the compaction of `messages` (after their old tool results were
/// cleared), given each message's token estimate.
pub fn plan_compaction(messages: &Vec<Message>, message_tokens: &Vec<u64>, keep_recent_groups: usize) -> (r:
    Result<CompactPlan, CompactError>)
    requires
        message_tokens.len() == messages.len(),
        token_sum(message_tokens@, 0, messages.len() as int) <= u64::MAX,
    ensures
        plan_view(r) == plan_spec(messages@, message_tokens@, keep_recent_groups as int),
{
    let n = messages.len();
    if n < 4 {
        return Err(CompactError::TooShort(n));
    }
    let groups = group_by_api_round(messages, message_tokens);
    let ghost starts = group_starts(messages@, n as int);
    proof {
        lemma_starts_shape(messages@, n as int);
    }
    if groups.len() <= keep_recent_groups {
        return Err(CompactError::TooFewGroups(groups.len(), keep_recent_groups));
    }
    let split = groups.len() - keep_recent_groups;
    let old_end = groups[split - 1].end;
    let recent_start = if keep_recent_groups > 0 {
        groups[split].start
    } else {
        n
    };
    let mut old_tokens: u64 = 0;
    let mut prev_end: usize = 0;
    let mut g: usize = 0;
    while g < split
        invariant
            split <= groups.len(),
            grouped(groups@, messages@, message_tokens@),
            starts == group_starts(messages@, n as int),
            n == messages.len(),
            n == message_tokens.len(),
            starts.len() > 0 && starts[0] == 0,
            forall|i: int, j: int| 0 <= i < j < starts.len() ==> starts[i] < starts[j],
            forall|i: int| 0 <= i < starts.len() ==> 0 <= #[trigger] starts[i] < n,
            token_sum(message_tokens@, 0, n as int) <= u64::MAX,
            g <= split,
            prev_end == (if g == 0 { 0 } else { groups@[g - 1].end as int }),
            prev_end <= n,
            old_tokens == token_sum(message_tokens@, 0, prev_end as int),
        decreases split - g,
    {
        let grp = &groups[g];
        assert(grouped(groups@, messages@, message_tokens@));
        assert(groups@[g as int].start == starts[g as int]);
        assert(grp.start == prev_end);
        assert(grp.start <= grp.end <= n);
        proof {
            lemma_token_sum_split(message_tokens@, 0, prev_end as int, grp.end as int);
            lemma_token_sum_mono(message_tokens@, 0, grp.end as int, n as int);
        }
        old_tokens = old_tokens + grp.estimated_tokens;
        prev_end = grp.end;
        g = g + 1;
    }
    Ok(CompactPlan { old_end, recent_start, old_tokens })
}

// ---------------------------------------------------------------------------
// Retrying a summary that is too long
// ---------------------------------------------------------------------------

/// The messages dropped from the head of the summary input after a
/// prompt-too-long error: a quarter, at least one.
pub fn ptl_drop_count(n: usize) -> (r: usize)
    ensures
        r == (if n / 4 > 1 { n / 4 } else { 1 }),
{
    let q = n / 4;
    if q > 1 {
        q
    } else {
        1
    }
}

/// What follows a failed summarisation call.
#[derive(Debug, Clone, Copy, PartialEq, Eq, Structural)]
pub enum SummaryRetry {
    /// Drop this many messages from the head of the input and try again.
    Drop(usize),
    /// Dropping would leave nothing to summarise.
    AllDropped,
    /// The error is final.
    Fail,
}

/// After attempt `attempt` failed with `error` on `pending` messages: a
/// prompt-too-long error with retries left drops a quarter of the input
/// (at least one message), unless that leaves none; anything else fails.
pub open spec fn summary_retry_spec(attempt: int, error: Seq<char>, pending: int) -> SummaryRetry {
    if crate::text::contains(error, "prompt is too long"@) && attempt < MAX_PTL_RETRIES {
        let d = if pending / 4 > 1 { pending / 4 } else { 1 };
        if d >= pending {
            SummaryRetry::AllDropped
        } else {
            SummaryRetry::Drop(d as usize)
        }
    } else {
        SummaryRetry::Fail
    }
}

/// Decides what follows a failed summarisation call.
pub fn summary_retry(attempt: usize, error: &str, pending: usize) -> (r: SummaryRetry)
    ensures
        r == summary_retry_spec(attempt as int, error@, pending as int),
{
    if str_contains(error, "prompt is too long") && attempt < MAX_PTL_RETRIES {
        let d = ptl_drop_count(pending);
        if d >= pending {
            SummaryRetry::AllDropped
        } else {
            SummaryRetry::Drop(d)
        }
    } else {
        SummaryRetry::Fail
    }
}

// ---------------------------------------------------------------------------
// The steps around the summary
// ---------------------------------------------------------------------------

/// The first step of a compaction: a conversation of fewer than four
/// messages is refused and left as it is; otherwise the old tool results
/// are cleared (keeping the last `4 * keep_recent_groups` messages), before
/// the messages are grouped into rounds. Gives how many were cleared.
pub fn clear_before_grouping(messages: &mut Vec<Message>, keep_recent_groups: usize) -> (r: Result<usize, CompactError>)
    requires
        keep_recent_groups <= usize::MAX / 4,
    ensures
        old(messages)@.len() < 4 ==> r == Err::<usize, CompactError>(CompactError::TooShort(old(messages)@.len() as usize))
            && final(messages)@ == old(messages)@,
        old(messages)@.len() >= 4 ==> {
            let c = cutoff_of(old(messages)@.len() as int, 4 * keep_recent_groups as int);
            &&& r == Ok::<usize, CompactError>(capped(clear_count(old(messages)@, c, c)))
            &&& final(messages)@.len() == old(messages)@.len()
            &&& forall|i: int| 0 <= i < c ==> compacted_message(#[trigger] old(messages)@[i], final(messages)@[i], old(messages)@, c)
            &&& forall|i: int| c <= i < old(messages)@.len() ==> #[trigger] final(messages)@[i] == old(messages)@[i]
        },
{
    let n = messages.len();
    if n < 4 {
        return Err(CompactError::TooShort(n));
    }
    let cleared = microcompact(messages, keep_recent_groups * 4);
    Ok(cleared)
}

/// The summary a compaction keeps: an empty one is an error.
pub fn summary_outcome(summary: String) -> (r: Result<String, CompactError>)
    ensures
        summary@.len() == 0 ==> r == Err::<String, CompactError>(CompactError::EmptySummary),
        summary@.len() > 0 ==> (r matches Ok(s) && s@ == summary@),
{
    if summary.as_str().is_empty() {
        Err(CompactError::EmptySummary)
    } else {
        Ok(summary)
    }
}

// ---------------------------------------------------------------------------
// The compacted conversation
// ---------------------------------------------------------------------------

/// The assistant's acknowledgement of the summary.
pub open spec fn summary_ack() -> Seq<char> {
    "I understand the context from the summary. I'm ready to continue helping with the work described above."@
}

/// The compacted conversation: a user message holding the summary as
/// context, the acknowledgement, then the kept messages `recent_start..`
/// (new ids and times for the first two).
pub open spec fn compacted_ok(old: Seq<Message>, recent_start: int, summary: Seq<char>, new: Seq<Message>) -> bool {
    &&& new.len() == 2 + old.len() - recent_start
    &&& new[0] is User
    &&& new[0]->User_0.content@ == seq![ContentBlock::Text { text: new[0]->User_0.content@[0]->Text_text }]
    &&& new[0]->User_0.content@[0]->Text_text@
        == "This conversation was compacted to reduce context length. Summary of previous work:\n\n"@ + summary
    &&& new[1] is Assistant
    &&& new[1]->Assistant_0.content@ == seq![ContentBlock::Text { text: new[1]->Assistant_0.content@[0]->Text_text }]
    &&& new[1]->Assistant_0.content@[0]->Text_text@ == summary_ack()
    &&& new.skip(2) == old.skip(recent_start)
}

/// Replaces the old messages by the summary and its acknowledgement.
pub fn compacted_messages(messages: Vec<Message>, recent_start: usize, summary: &str) -> (r: Vec<Message>)
    requires
        recent_start <= messages.len(),
    ensures
        compacted_ok(messages@, recent_start as int, summary@, r@),
{
    let mut messages = messages;
    let ghost old = messages@;
    let recent = messages.split_off(recent_start);
    let context = format_compact_context(summary);
    let mut ub: Vec<ContentBlock> = Vec::new();
    ub.push(ContentBlock::Text { text: context });
    let mut ab: Vec<ContentBlock> = Vec::new();
    ab.push(ContentBlock::Text {
        text: copy_str(
            "I understand the context from the summary. I'm ready to continue helping with the work described above.",
        ),
    });
    let mut out: Vec<Message> = Vec::new();
    out.push(Message::User(UserMessage::new(ub)));
    out.push(Message::Assistant(AssistantMessage::new(ab)));
    let mut rest = recent;
    out.append(&mut rest);
    assert(out@.skip(2) =~= old.skip(recent_start as int));
    out
}

// ---------------------------------------------------------------------------
// Automatic compaction
// ---------------------------------------------------------------------------

/// Whether automatic compaction is tried: not after
/// `MAX_CONSECUTIVE_FAILURES` failures in a row.
pub fn auto_compact_allowed(consecutive_failures: u32) -> (r: bool)
    ensures
        r == (consecutive_failures < MAX_CONSECUTIVE_FAILURES),
{
    consecutive_failures < MAX_CONSECUTIVE_FAILURES
}

/// The failures in a row after an automatic compaction that was tried:
/// none after a success, one more after a failure.
pub fn auto_compact_failures_after(consecutive_failures: u32, succeeded: bool) -> (r: u32)
    requires
        consecutive_failures < MAX_CONSECUTIVE_FAILURES,
    ensures
        r == (if succeeded { 0 } else { consecutive_failures + 1 }),
{
    if succeeded {
        0
    } else {
        consecutive_failures + 1
    }
}

/// Starting from no failures, automatic compaction is tried at most
/// `MAX_CONSECUTIVE_FAILURES` times in a row without success: the count
/// never passes the limit, and at the limit no attempt is made.
pub proof fn law_circuit_breaker(f: u32, succeeded: bool)
    requires
        f <= MAX_CONSECUTIVE_FAILURES,
    ensures
        f < MAX_CONSECUTIVE_FAILURES ==> (if succeeded { 0 } else { f + 1 }) <= MAX_CONSECUTIVE_FAILURES,
        f == MAX_CONSECUTIVE_FAILURES ==> !(f < MAX_CONSECUTIVE_FAILURES),
{
}

} // verus!
