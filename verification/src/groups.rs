use vstd::prelude::*;

use crate::messages::{ContentBlock, Message};

verus! {

/// A group of messages representing one API round-trip.
pub struct MessageGroup {
    /// Start index in the messages array (inclusive).
    pub start: usize,
    /// End index in the messages array (exclusive).
    pub end: usize,
    /// Estimated token count for all messages in this group.
    pub estimated_tokens: u64,
}

/// Token-level breakdown of conversation context (per-tool counts keyed by tool name).
pub struct ContextAnalysis {
    pub total_tokens: u64,
    pub system_prompt_tokens: u64,
    pub user_text_tokens: u64,
    pub assistant_text_tokens: u64,
    pub tool_request_tokens: Vec<(String, u64)>,
    pub tool_result_tokens: Vec<(String, u64)>,
    pub thinking_tokens: u64,
    pub message_count: usize,
    pub turn_count: usize,
    pub duplicate_file_reads: Vec<(String, usize)>,
}

/// A genuine user turn: a user message whose first block is not a tool result.
pub open spec fn is_user_turn(m: Message) -> bool {
    m matches Message::User(u) && !(u.content@.len() > 0 && u.content@[0] is ToolResult)
}

/// The start of every group: the first message, and each genuine user
/// turn after it, in order (positions below `n`).
pub open spec fn group_starts(ms: Seq<Message>, n: int) -> Seq<int>
    decreases n,
{
    if n <= 0 {
        Seq::empty()
    } else {
        let r = group_starts(ms, n - 1);
        if n - 1 == 0 || is_user_turn(ms[n - 1]) {
            r.push(n - 1)
        } else {
            r
        }
    }
}

/// The sum of the token estimates of messages `a..b`.
pub open spec fn token_sum(tokens: Seq<u64>, a: int, b: int) -> int
    decreases b - a,
{
    if b <= a {
        0
    } else {
        token_sum(tokens, a, b - 1) + tokens[b - 1]
    }
}

/// The groups are the runs of messages from each group start to the next
/// (the last to the end), each with the sum of its messages' estimates.
pub open spec fn grouped(
    groups: Seq<MessageGroup>,
    ms: Seq<Message>,
    tokens: Seq<u64>,
) -> bool {
    let starts = group_starts(ms, ms.len() as int);
    &&& groups.len() == starts.len()
    &&& forall|g: int|
        0 <= g < groups.len() ==> {
            &&& (#[trigger] groups[g]).start == starts[g]
            &&& groups[g].end == (if g + 1 < starts.len() {
                starts[g + 1]
            } else {
                ms.len() as int
            })
            &&& groups[g].estimated_tokens == token_sum(tokens, starts[g], groups[g].end as int)
        }
}

fn is_user_turn_exec(m: &Message) -> (r: bool)
    ensures
        r == is_user_turn(*m),
{
    match m {
        Message::User(u) => !(u.content.len() > 0 && match &u.content[0] {
            ContentBlock::ToolResult { .. } => true,
            _ => false,
        }),
        _ => false,
    }
}

pub proof fn lemma_token_sum_mono(tokens: Seq<u64>, a: int, b: int, c: int)
    requires
        a <= b <= c,
    ensures
        token_sum(tokens, a, b) <= token_sum(tokens, a, c),
    decreases c - b,
{
    if b < c {
        lemma_token_sum_mono(tokens, a, b, c - 1);
    }
}

/// Group messages into API rounds, given each message's token estimate.
///
/// Each group starts with a genuine user message (not a tool result
/// continuation) and includes the assistant response plus any subsequent
/// tool-result user messages until the next genuine user message; messages
/// before the first genuine user turn form a group of their own.
pub fn group_by_api_round(messages: &Vec<Message>, message_tokens: &Vec<u64>) -> (r: Vec<MessageGroup>)
    requires
        message_tokens.len() == messages.len(),
        token_sum(message_tokens@, 0, messages.len() as int) <= u64::MAX,
    ensures
        grouped(r@, messages@, message_tokens@),
{
    let n = messages.len();
    let mut groups: Vec<MessageGroup> = Vec::new();
    if n == 0 {
        return groups;
    }
    let mut start: usize = 0;
    let mut tokens: u64 = message_tokens[0];
    let mut i: usize = 1;
    proof {
        assert(token_sum(message_tokens@, 0, 0) == 0);
        assert(group_starts(messages@, 0) =~= Seq::<int>::empty());
        assert(group_starts(messages@, 1) =~= seq![0int]);
        assert(groups@.map_values(|g: MessageGroup| g.start as int) =~= Seq::<int>::empty());
    }
    while i < n
        invariant
            n == messages.len(),
            message_tokens.len() == n,
            token_sum(message_tokens@, 0, n as int) <= u64::MAX,
            1 <= i <= n,
            start < i,
            tokens == token_sum(message_tokens@, start as int, i as int),
            group_starts(messages@, i as int) == groups@.map_values(|g: MessageGroup| g.start as int).push(
                start as int,
            ),
            forall|g: int|
                0 <= g < groups.len() ==> {
                    &&& (#[trigger] groups@[g]).end == (if g + 1 < groups.len() {
                        groups@[g + 1].start as int
                    } else {
                        start as int
                    })
                    &&& groups@[g].estimated_tokens == token_sum(
                        message_tokens@,
                        groups@[g].start as int,
                        groups@[g].end as int,
                    )
                },
            token_sum(message_tokens@, start as int, i as int) <= token_sum(
                message_tokens@,
                0,
                i as int,
            ),
        decreases n - i,
    {
        proof {
            lemma_sum_split(message_tokens@, 0, start as int, i + 1);
            lemma_token_sum_mono(message_tokens@, 0, i + 1, n as int);
        }
        if is_user_turn_exec(&messages[i]) {
            let ghost old_groups = groups@;
            groups.push(MessageGroup { start, end: i, estimated_tokens: tokens });
            proof {
                assert(groups@.map_values(|g: MessageGroup| g.start as int) =~= old_groups.map_values(
                    |g: MessageGroup| g.start as int,
                ).push(start as int));
            }
            start = i;
            tokens = message_tokens[i];
            proof {
                lemma_sum_split(message_tokens@, 0, i as int, i + 1);
            }
        } else {
            tokens = tokens + message_tokens[i];
        }
        i = i + 1;
    }
    let ghost old_groups = groups@;
    groups.push(MessageGroup { start, end: n, estimated_tokens: tokens });
    proof {
        let starts = group_starts(messages@, n as int);
        assert(starts =~= groups@.map_values(|g: MessageGroup| g.start as int));
        assert forall|g: int| 0 <= g < groups.len() implies {
            &&& (#[trigger] groups@[g]).start == starts[g]
            &&& groups@[g].end == (if g + 1 < starts.len() {
                starts[g + 1]
            } else {
                messages@.len() as int
            })
            &&& groups@[g].estimated_tokens == token_sum(
                message_tokens@,
                starts[g],
                groups@[g].end as int,
            )
        } by {
            assert(starts[g] == groups@[g].start as int);
            if g + 1 < starts.len() {
                assert(starts[g + 1] == groups@[g + 1].start as int);
            }
        }
    }
    groups
}

proof fn lemma_sum_split(tokens: Seq<u64>, a: int, b: int, c: int)
    requires
        a <= b <= c,
    ensures
        token_sum(tokens, a, c) == token_sum(tokens, a, b) + token_sum(tokens, b, c),
    decreases c - b,
{
    if b < c {
        lemma_sum_split(tokens, a, b, c - 1);
    }
}

} // verus!
