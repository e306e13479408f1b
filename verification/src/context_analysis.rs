use vstd::prelude::*;

use crate::text::{copy_str, str_eq};

verus! {

// ---------------------------------------------------------------------------
// What the analysis reads of a conversation
// ---------------------------------------------------------------------------

/// A content block as the context analysis sees it, with the token
/// estimates of its texts.
pub enum BlockCost {
    /// A text block and the estimate of its text.
    Text { tokens: u64 },
    /// A tool call: its id, the tool's name, the estimate of its serialised
    /// input plus that of the name, and the input's `file_path` string
    /// member when it has one.
    ToolUse { id: String, name: String, tokens: u64, file_path: Option<String> },
    /// A tool result: the call it answers and the estimates of its inner
    /// text blocks (other inner blocks count nothing).
    ToolResult { tool_use_id: String, text_tokens: Vec<u64> },
    /// A thinking block and the estimate of its text.
    Thinking { tokens: u64 },
}

/// A message as the context analysis sees it.
pub enum MessageCost {
    User(Vec<BlockCost>),
    Assistant(Vec<BlockCost>),
    System,
}

/// Token-level breakdown of a conversation's context. The per-tool maps
/// hold each name once, in the order the names first occur.
pub struct ContextAnalysis {
    pub total_tokens: u64,
    pub system_prompt_tokens: u64,
    pub user_text_tokens: u64,
    pub assistant_text_tokens: u64,
    pub tool_request_tokens: Vec<(String, u64)>,
    pub tool_result_tokens: Vec<(String, u64)>,
    pub thinking_tokens: u64,
    pub message_count: usize,
    pub turn_count: usize,
    pub duplicate_file_reads: Vec<(String, usize)>,
}

// ---------------------------------------------------------------------------
// Keyed counts as sequences
// ---------------------------------------------------------------------------

/// The first position, from `i` on, whose key is `k`.
pub open spec fn key_pos<V>(m: Seq<(Seq<char>, V)>, k: Seq<char>, i: int) -> Option<int>
    decreases m.len() - i,
{
    if i < 0 || i >= m.len() {
        None
    } else if m[i].0 == k {
        Some(i)
    } else {
        key_pos(m, k, i + 1)
    }
}

/// Adds `d` to the count under `k`; a new key goes last.
pub open spec fn bump(m: Seq<(Seq<char>, int)>, k: Seq<char>, d: int) -> Seq<(Seq<char>, int)> {
    match key_pos(m, k, 0) {
        Some(p) => m.update(p, (k, m[p].1 + d)),
        None => m.push((k, d)),
    }
}

/// Sets the value under `k`; a new key goes last.
pub open spec fn put(m: Seq<(Seq<char>, Seq<char>)>, k: Seq<char>, v: Seq<char>) -> Seq<(Seq<char>, Seq<char>)> {
    match key_pos(m, k, 0) {
        Some(p) => m.update(p, (k, v)),
        None => m.push((k, v)),
    }
}

/// The tool named for call `id`, or `unknown`.
pub open spec fn name_of(names: Seq<(Seq<char>, Seq<char>)>, id: Seq<char>) -> Seq<char> {
    match key_pos(names, id, 0) {
        Some(p) => names[p].1,
        None => "unknown"@,
    }
}

proof fn lemma_key_pos<V>(m: Seq<(Seq<char>, V)>, k: Seq<char>, i: int)
    requires
        0 <= i,
    ensures
        key_pos(m, k, i) matches Some(p) ==> i <= p < m.len() && m[p].0 == k,
        key_pos(m, k, i) is None ==> forall|j: int| i <= j < m.len() ==> m[j].0 != k,
    decreases m.len() - i,
{
    if i < m.len() && m[i].0 != k {
        lemma_key_pos(m, k, i + 1);
    }
}

/// Every count in `m` is at most `a`.
pub open spec fn all_at_most(m: Seq<(Seq<char>, int)>, a: int) -> bool {
    forall|i: int| 0 <= i < m.len() ==> 0 <= #[trigger] m[i].1 <= a
}

proof fn lemma_bump_at_most(m: Seq<(Seq<char>, int)>, k: Seq<char>, d: int, a: int)
    requires
        all_at_most(m, a),
        0 <= d,
        0 <= a,
    ensures
        all_at_most(bump(m, k, d), a + d),
{
    lemma_key_pos(m, k, 0);
}

// ---------------------------------------------------------------------------
// The analysis as a fold
// ---------------------------------------------------------------------------

/// What the analysis has counted so far.
pub struct Tally {
    pub total: int,
    pub user: int,
    pub assistant: int,
    pub thinking: int,
    pub requests: Seq<(Seq<char>, int)>,
    pub results: Seq<(Seq<char>, int)>,
    pub reads: Seq<(Seq<char>, int)>,
    pub names: Seq<(Seq<char>, Seq<char>)>,
    pub turns: int,
}

/// The tools whose calls read a file.
pub open spec fn is_read_tool(name: Seq<char>) -> bool {
    name == "Read"@ || name == "FileRead"@ || name == "file_read"@
}

/// The sum of the first `n` numbers of `s`.
pub open spec fn seq_sum(s: Seq<u64>, n: int) -> int
    decreases n,
{
    if n <= 0 {
        0
    } else {
        seq_sum(s, n - 1) + s[n - 1]
    }
}

/// The tokens a block adds to the total.
pub open spec fn block_tokens(b: BlockCost) -> int {
    match b {
        BlockCost::Text { tokens } => tokens as int,
        BlockCost::ToolUse { tokens, .. } => tokens as int,
        BlockCost::ToolResult { text_tokens, .. } => seq_sum(text_tokens@, text_tokens@.len() as int),
        BlockCost::Thinking { tokens } => tokens as int,
    }
}

/// Counts one block of a user (`is_user`) or assistant message: texts
/// by side; a call's tokens under its tool, and a read of a file path by
/// a reading tool; a result's text tokens under the tool its call named
/// (`unknown` when no earlier call did), when it has texts; thinking.
pub open spec fn block_step(t: Tally, b: BlockCost, is_user: bool) -> Tally {
    match b {
        BlockCost::Text { tokens } => if is_user {
            Tally { user: t.user + tokens, total: t.total + tokens, ..t }
        } else {
            Tally { assistant: t.assistant + tokens, total: t.total + tokens, ..t }
        },
        BlockCost::ToolUse { name, tokens, file_path, .. } => {
            let t1 = Tally { requests: bump(t.requests, name@, tokens as int), total: t.total + tokens, ..t };
            match file_path {
                Some(p) => if is_read_tool(name@) {
                    Tally { reads: bump(t1.reads, p@, 1), ..t1 }
                } else {
                    t1
                },
                None => t1,
            }
        },
        BlockCost::ToolResult { tool_use_id, text_tokens } => if text_tokens@.len() == 0 {
            t
        } else {
            let s = seq_sum(text_tokens@, text_tokens@.len() as int);
            Tally { results: bump(t.results, name_of(t.names, tool_use_id@), s), total: t.total + s, ..t }
        },
        BlockCost::Thinking { tokens } => Tally { thinking: t.thinking + tokens, total: t.total + tokens, ..t },
    }
}

/// A block in its message: an assistant's call first records its tool's
/// name under its id.
pub open spec fn step_in(t: Tally, b: BlockCost, is_user: bool) -> Tally {
    let t0 = match b {
        BlockCost::ToolUse { id, name, .. } => if is_user {
            t
        } else {
            Tally { names: put(t.names, id@, name@), ..t }
        },
        _ => t,
    };
    block_step(t0, b, is_user)
}

/// The first `n` blocks counted in order.
pub open spec fn blocks_fold(t: Tally, bs: Seq<BlockCost>, is_user: bool, n: int) -> Tally
    decreases n,
{
    if n <= 0 {
        t
    } else {
        step_in(blocks_fold(t, bs, is_user, n - 1), bs[n - 1], is_user)
    }
}

/// Counts one message: a user message is a turn unless it opens with a
/// tool result; system messages count nothing.
pub open spec fn msg_step(t: Tally, m: MessageCost) -> Tally {
    match m {
        MessageCost::User(bs) => {
            let t1 = if bs@.len() > 0 && bs@[0] is ToolResult {
                t
            } else {
                Tally { turns: t.turns + 1, ..t }
            };
            blocks_fold(t1, bs@, true, bs@.len() as int)
        },
        MessageCost::Assistant(bs) => blocks_fold(t, bs@, false, bs@.len() as int),
        MessageCost::System => t,
    }
}

/// The first `n` messages counted in order.
pub open spec fn msgs_fold(t: Tally, ms: Seq<MessageCost>, n: int) -> Tally
    decreases n,
{
    if n <= 0 {
        t
    } else {
        msg_step(msgs_fold(t, ms, n - 1), ms[n - 1])
    }
}

/// Nothing counted yet but the system prompt.
pub open spec fn start_tally(system: int) -> Tally {
    Tally {
        total: system,
        user: 0,
        assistant: 0,
        thinking: 0,
        requests: seq![],
        results: seq![],
        reads: seq![],
        names: seq![],
        turns: 0,
    }
}

/// The analysis of `ms` with a system prompt of `system` tokens.
pub open spec fn analysis_spec(ms: Seq<MessageCost>, system: int) -> Tally {
    msgs_fold(start_tally(system), ms, ms.len() as int)
}

/// The entries of `m` counted more than once, in order.
pub open spec fn over_one(m: Seq<(Seq<char>, int)>, n: int) -> Seq<(Seq<char>, int)>
    decreases n,
{
    if n <= 0 {
        seq![]
    } else if m[n - 1].1 > 1 {
        over_one(m, n - 1).push(m[n - 1])
    } else {
        over_one(m, n - 1)
    }
}

// ---------------------------------------------------------------------------
// Sizes
// ---------------------------------------------------------------------------

pub open spec fn msg_blocks(m: MessageCost) -> Seq<BlockCost> {
    match m {
        MessageCost::User(bs) => bs@,
        MessageCost::Assistant(bs) => bs@,
        MessageCost::System => seq![],
    }
}

/// The tokens of the first `n` blocks.
pub open spec fn bs_tokens(bs: Seq<BlockCost>, n: int) -> int
    decreases n,
{
    if n <= 0 {
        0
    } else {
        bs_tokens(bs, n - 1) + block_tokens(bs[n - 1])
    }
}

/// The tokens of the blocks of the first `n` messages.
pub open spec fn tokens_upto(ms: Seq<MessageCost>, n: int) -> int
    decreases n,
{
    if n <= 0 {
        0
    } else {
        tokens_upto(ms, n - 1) + bs_tokens(msg_blocks(ms[n - 1]), msg_blocks(ms[n - 1]).len() as int)
    }
}

/// The blocks of the first `n` messages.
pub open spec fn blocks_upto(ms: Seq<MessageCost>, n: int) -> int
    decreases n,
{
    if n <= 0 {
        0
    } else {
        blocks_upto(ms, n - 1) + msg_blocks(ms[n - 1]).len()
    }
}

proof fn lemma_seq_sum_mono(s: Seq<u64>, a: int, b: int)
    requires
        0 <= a <= b,
    ensures
        0 <= seq_sum(s, a) <= seq_sum(s, b),
    decreases b,
{
    if a < b {
        lemma_seq_sum_mono(s, a, b - 1);
    } else if a > 0 {
        lemma_seq_sum_mono(s, a - 1, a - 1);
    }
}

proof fn lemma_block_tokens_nonneg(b: BlockCost)
    ensures
        block_tokens(b) >= 0,
{
    if let BlockCost::ToolResult { text_tokens, .. } = b {
        lemma_seq_sum_mono(text_tokens@, 0, text_tokens@.len() as int);
    }
}

proof fn lemma_bs_tokens_mono(bs: Seq<BlockCost>, a: int, b: int)
    requires
        0 <= a <= b,
    ensures
        0 <= bs_tokens(bs, a) <= bs_tokens(bs, b),
    decreases b,
{
    if a < b {
        lemma_bs_tokens_mono(bs, a, b - 1);
        lemma_block_tokens_nonneg(bs[b - 1]);
    } else if a > 0 {
        lemma_bs_tokens_mono(bs, a - 1, a - 1);
        lemma_block_tokens_nonneg(bs[a - 1]);
    }
}

proof fn lemma_upto_mono(ms: Seq<MessageCost>, a: int, b: int)
    requires
        0 <= a <= b,
    ensures
        0 <= tokens_upto(ms, a) <= tokens_upto(ms, b),
        0 <= blocks_upto(ms, a) <= blocks_upto(ms, b),
    decreases b,
{
    if a < b {
        lemma_upto_mono(ms, a, b - 1);
        let bs = msg_blocks(ms[b - 1]);
        lemma_bs_tokens_mono(bs, 0, bs.len() as int);
    } else if a > 0 {
        lemma_upto_mono(ms, a - 1, a - 1);
        let bs = msg_blocks(ms[a - 1]);
        lemma_bs_tokens_mono(bs, 0, bs.len() as int);
    }
}

// ---------------------------------------------------------------------------
// The counting
// ---------------------------------------------------------------------------

pub open spec fn counts_view(s: Seq<(String, u64)>) -> Seq<(Seq<char>, int)> {
    Seq::new(s.len(), |i: int| (s[i].0@, s[i].1 as int))
}

pub open spec fn sizes_view(s: Seq<(String, usize)>) -> Seq<(Seq<char>, int)> {
    Seq::new(s.len(), |i: int| (s[i].0@, s[i].1 as int))
}

pub open spec fn names_view(s: Seq<(String, String)>) -> Seq<(Seq<char>, Seq<char>)> {
    Seq::new(s.len(), |i: int| (s[i].0@, s[i].1@))
}

/// The running counts.
struct Acc {
    total: u64,
    user: u64,
    assistant: u64,
    thinking: u64,
    requests: Vec<(String, u64)>,
    results: Vec<(String, u64)>,
    reads: Vec<(String, u64)>,
    names: Vec<(String, String)>,
    turns: usize,
}

spec fn acc_view(a: Acc) -> Tally {
    Tally {
        total: a.total as int,
        user: a.user as int,
        assistant: a.assistant as int,
        thinking: a.thinking as int,
        requests: counts_view(a.requests@),
        results: counts_view(a.results@),
        reads: counts_view(a.reads@),
        names: names_view(a.names@),
        turns: a.turns as int,
    }
}

/// The side counts never pass the total.
spec fn bounded(t: Tally) -> bool {
    &&& t.user <= t.total
    &&& t.assistant <= t.total
    &&& t.thinking <= t.total
    &&& all_at_most(t.requests, t.total)
    &&& all_at_most(t.results, t.total)
}

/// Adds `d` under `k`.
fn bump_count(m: &mut Vec<(String, u64)>, k: &str, d: u64)
    requires
        all_at_most(counts_view(old(m)@), u64::MAX - d),
    ensures
        counts_view(final(m)@) == bump(counts_view(old(m)@), k@, d as int),
{
    let ghost cv = counts_view(m@);
    let mut i: usize = 0;
    while i < m.len()
        invariant
            i <= m@.len(),
            m@ == old(m)@,
            cv == counts_view(m@),
            all_at_most(cv, u64::MAX - d),
            key_pos(cv, k@, 0) == key_pos(cv, k@, i as int),
        decreases m.len() - i,
    {
        assert(cv[i as int] == (m@[i as int].0@, m@[i as int].1 as int));
        if str_eq(m[i].0.as_str(), k) {
            assert(cv[i as int].1 <= u64::MAX - d);
            let v = m[i].1 + d;
            m.set(i, (copy_str(k), v));
            assert(counts_view(m@) =~= bump(cv, k@, d as int));
            return;
        }
        i = i + 1;
    }
    m.push((copy_str(k), d));
    assert(counts_view(m@) =~= bump(cv, k@, d as int));
}

/// Sets the tool name of call `id`.
fn put_name(m: &mut Vec<(String, String)>, id: &str, name: &str)
    ensures
        names_view(final(m)@) == put(names_view(old(m)@), id@, name@),
{
    let ghost nv = names_view(m@);
    let mut i: usize = 0;
    while i < m.len()
        invariant
            i <= m@.len(),
            m@ == old(m)@,
            nv == names_view(m@),
            key_pos(nv, id@, 0) == key_pos(nv, id@, i as int),
        decreases m.len() - i,
    {
        assert(nv[i as int].0 == m@[i as int].0@);
        if str_eq(m[i].0.as_str(), id) {
            m.set(i, (copy_str(id), copy_str(name)));
            assert(names_view(m@) =~= put(nv, id@, name@));
            return;
        }
        i = i + 1;
    }
    m.push((copy_str(id), copy_str(name)));
    assert(names_view(m@) =~= put(nv, id@, name@));
}

/// The tool name of call `id`, or `unknown`.
fn tool_name(m: &Vec<(String, String)>, id: &str) -> (r: String)
    ensures
        r@ == name_of(names_view(m@), id@),
{
    let ghost nv = names_view(m@);
    let mut i: usize = 0;
    while i < m.len()
        invariant
            i <= m@.len(),
            nv == names_view(m@),
            key_pos(nv, id@, 0) == key_pos(nv, id@, i as int),
        decreases m.len() - i,
    {
        assert(nv[i as int] == (m@[i as int].0@, m@[i as int].1@));
        if str_eq(m[i].0.as_str(), id) {
            return copy_str(m[i].1.as_str());
        }
        i = i + 1;
    }
    proof {
        reveal_strlit("unknown");
    }
    copy_str("unknown")
}

/// The sum of a result's text estimates.
fn sum_tokens(s: &Vec<u64>, bound: u64) -> (r: u64)
    requires
        seq_sum(s@, s@.len() as int) <= bound,
    ensures
        r == seq_sum(s@, s@.len() as int),
{
    let mut r: u64 = 0;
    let mut i: usize = 0;
    while i < s.len()
        invariant
            i <= s@.len(),
            r == seq_sum(s@, i as int),
            seq_sum(s@, s@.len() as int) <= bound,
        decreases s.len() - i,
    {
        proof {
            lemma_seq_sum_mono(s@, i + 1, s@.len() as int);
        }
        r = r + s[i];
        i = i + 1;
    }
    r
}

/// Counts one block.
fn block_into(acc: &mut Acc, b: &BlockCost, is_user: bool, Ghost(c): Ghost<int>)
    requires
        bounded(acc_view(*old(acc))),
        old(acc).total + block_tokens(*b) <= u64::MAX,
        all_at_most(acc_view(*old(acc)).reads, c),
        0 <= c,
        c + 1 <= usize::MAX,
    ensures
        acc_view(*final(acc)) == step_in(acc_view(*old(acc)), *b, is_user),
        bounded(acc_view(*final(acc))),
        final(acc).total == old(acc).total + block_tokens(*b),
        all_at_most(acc_view(*final(acc)).reads, c + 1),
        final(acc).turns == old(acc).turns,
{
    let ghost t = acc_view(*acc);
    proof {
        lemma_block_tokens_nonneg(*b);
    }
    match b {
        BlockCost::Text { tokens } => {
            if is_user {
                acc.user = acc.user + *tokens;
            } else {
                acc.assistant = acc.assistant + *tokens;
            }
            acc.total = acc.total + *tokens;
            assert(acc_view(*acc) == step_in(t, *b, is_user));
        },
        BlockCost::ToolUse { id, name, tokens, file_path } => {
            if !is_user {
                put_name(&mut acc.names, id.as_str(), name.as_str());
            }
            let ghost t0 = acc_view(*acc);
            proof {
                lemma_bump_at_most(t.requests, name@, *tokens as int, t.total);
            }
            bump_count(&mut acc.requests, name.as_str(), *tokens);
            acc.total = acc.total + *tokens;
            match file_path {
                Some(p) => {
                    let n = name.as_str();
                    if str_eq(n, "Read") || str_eq(n, "FileRead") || str_eq(n, "file_read") {
                        proof {
                            lemma_bump_at_most(t.reads, p@, 1, c);
                        }
                        bump_count(&mut acc.reads, p.as_str(), 1);
                    }
                },
                None => {},
            }
            proof {
                lemma_bump_at_most(t.reads, name@, 0, c);
            }
            assert(acc_view(*acc) == step_in(t, *b, is_user));
        },
        BlockCost::ToolResult { tool_use_id, text_tokens } => {
            if text_tokens.len() > 0 {
                let sum = sum_tokens(text_tokens, u64::MAX);
                let tool = tool_name(&acc.names, tool_use_id.as_str());
                proof {
                    lemma_bump_at_most(t.results, tool@, sum as int, t.total);
                }
                bump_count(&mut acc.results, tool.as_str(), sum);
                acc.total = acc.total + sum;
            }
            assert(acc_view(*acc) == step_in(t, *b, is_user));
        },
        BlockCost::Thinking { tokens } => {
            acc.thinking = acc.thinking + *tokens;
            acc.total = acc.total + *tokens;
            assert(acc_view(*acc) == step_in(t, *b, is_user));
        },
    }
}

/// Counts the blocks of one message in order.
fn blocks_into(acc: &mut Acc, bs: &Vec<BlockCost>, is_user: bool, Ghost(c): Ghost<int>)
    requires
        bounded(acc_view(*old(acc))),
        old(acc).total + bs_tokens(bs@, bs@.len() as int) <= u64::MAX,
        all_at_most(acc_view(*old(acc)).reads, c),
        0 <= c,
        c + bs@.len() <= usize::MAX,
    ensures
        acc_view(*final(acc)) == blocks_fold(acc_view(*old(acc)), bs@, is_user, bs@.len() as int),
        bounded(acc_view(*final(acc))),
        final(acc).total == old(acc).total + bs_tokens(bs@, bs@.len() as int),
        all_at_most(acc_view(*final(acc)).reads, c + bs@.len()),
        final(acc).turns == old(acc).turns,
{
    let ghost t0 = acc_view(*acc);
    let ghost total0 = acc.total as int;
    let mut j: usize = 0;
    while j < bs.len()
        invariant
            j <= bs@.len(),
            acc_view(*acc) == blocks_fold(t0, bs@, is_user, j as int),
            bounded(acc_view(*acc)),
            acc.total == total0 + bs_tokens(bs@, j as int),
            total0 + bs_tokens(bs@, bs@.len() as int) <= u64::MAX,
            all_at_most(acc_view(*acc).reads, c + j),
            0 <= c,
            c + bs@.len() <= usize::MAX,
            acc.turns == old(acc).turns,
        decreases bs.len() - j,
    {
        proof {
            lemma_bs_tokens_mono(bs@, j + 1, bs@.len() as int);
        }
        block_into(acc, &bs[j], is_user, Ghost(c + j));
        j = j + 1;
    }
}

/// Breaks down the context of a conversation, given the token estimate of
/// the system prompt and those of each block: the totals by side, by tool
/// call and result (under the tool's name), thinking, the number of
/// messages and of turns (user messages that do not open with a tool
/// result), and the file paths that reading tools read more than once.
pub fn analyze_context(messages: &Vec<MessageCost>, system_prompt_tokens: u64) -> (r: ContextAnalysis)
    requires
        system_prompt_tokens + tokens_upto(messages@, messages@.len() as int) <= u64::MAX,
        blocks_upto(messages@, messages@.len() as int) < usize::MAX,
    ensures
        ({
            let t = analysis_spec(messages@, system_prompt_tokens as int);
            &&& r.total_tokens == t.total
            &&& r.system_prompt_tokens == system_prompt_tokens
            &&& r.user_text_tokens == t.user
            &&& r.assistant_text_tokens == t.assistant
            &&& counts_view(r.tool_request_tokens@) == t.requests
            &&& counts_view(r.tool_result_tokens@) == t.results
            &&& r.thinking_tokens == t.thinking
            &&& r.message_count == messages@.len()
            &&& r.turn_count == t.turns
            &&& sizes_view(r.duplicate_file_reads@) == over_one(t.reads, t.reads.len() as int)
        }),
        r.total_tokens == system_prompt_tokens + tokens_upto(messages@, messages@.len() as int),
        r.total_tokens == r.system_prompt_tokens + r.user_text_tokens + r.assistant_text_tokens + count_sum(
            counts_view(r.tool_request_tokens@),
        ) + count_sum(counts_view(r.tool_result_tokens@)) + r.thinking_tokens,
        keys_distinct(counts_view(r.tool_request_tokens@)),
        keys_distinct(counts_view(r.tool_result_tokens@)),
        keys_distinct(sizes_view(r.duplicate_file_reads@)),
{
    proof {
        law_total_is_sum_of_parts(messages@, system_prompt_tokens as int);
        law_analysis_names_once(messages@, system_prompt_tokens as int);
    }
    let mut acc = Acc {
        total: system_prompt_tokens,
        user: 0,
        assistant: 0,
        thinking: 0,
        requests: Vec::new(),
        results: Vec::new(),
        reads: Vec::new(),
        names: Vec::new(),
        turns: 0,
    };
    let ghost t0 = acc_view(acc);
    assert(t0 == start_tally(system_prompt_tokens as int)) by {
        assert(counts_view(acc.requests@) =~= seq![]);
        assert(counts_view(acc.results@) =~= seq![]);
        assert(counts_view(acc.reads@) =~= seq![]);
        assert(names_view(acc.names@) =~= seq![]);
    }
    let ghost n = messages@.len() as int;
    let mut i: usize = 0;
    while i < messages.len()
        invariant
            i <= messages@.len(),
            n == messages@.len(),
            acc_view(acc) == msgs_fold(t0, messages@, i as int),
            t0 == start_tally(system_prompt_tokens as int),
            bounded(acc_view(acc)),
            acc.total == system_prompt_tokens + tokens_upto(messages@, i as int),
            system_prompt_tokens + tokens_upto(messages@, n) <= u64::MAX,
            all_at_most(acc_view(acc).reads, blocks_upto(messages@, i as int)),
            blocks_upto(messages@, n) < usize::MAX,
            acc.turns <= i,
        decreases messages.len() - i,
    {
        proof {
            lemma_upto_mono(messages@, i + 1, n);
            lemma_upto_mono(messages@, i as int, i as int);
        }
        let ghost c = blocks_upto(messages@, i as int);
        match &messages[i] {
            MessageCost::User(bs) => {
                let opens_with_result = bs.len() > 0 && match &bs[0] {
                    BlockCost::ToolResult { .. } => true,
                    _ => false,
                };
                if !opens_with_result {
                    acc.turns = acc.turns + 1;
                }
                blocks_into(&mut acc, bs, true, Ghost(c));
            },
            MessageCost::Assistant(bs) => {
                blocks_into(&mut acc, bs, false, Ghost(c));
            },
            MessageCost::System => {},
        }
        i = i + 1;
    }
    let ghost t = acc_view(acc);
    let mut dups: Vec<(String, usize)> = Vec::new();
    let mut k: usize = 0;
    while k < acc.reads.len()
        invariant
            k <= acc.reads@.len(),
            t == acc_view(acc),
            all_at_most(t.reads, blocks_upto(messages@, n)),
            blocks_upto(messages@, n) < usize::MAX,
            sizes_view(dups@) == over_one(t.reads, k as int),
        decreases acc.reads.len() - k,
    {
        assert(t.reads[k as int] == (acc.reads@[k as int].0@, acc.reads@[k as int].1 as int));
        assert(t.reads[k as int].1 <= blocks_upto(messages@, n));
        if acc.reads[k].1 > 1 {
            let ghost before = sizes_view(dups@);
            let count = acc.reads[k].1 as usize;
            dups.push((copy_str(acc.reads[k].0.as_str()), count));
            assert(sizes_view(dups@) =~= before.push(t.reads[k as int]));
        }
        k = k + 1;
    }
    ContextAnalysis {
        total_tokens: acc.total,
        system_prompt_tokens,
        user_text_tokens: acc.user,
        assistant_text_tokens: acc.assistant,
        tool_request_tokens: acc.requests,
        tool_result_tokens: acc.results,
        thinking_tokens: acc.thinking,
        message_count: messages.len(),
        turn_count: acc.turns,
        duplicate_file_reads: dups,
    }
}

// ---------------------------------------------------------------------------
// The total is the sum of the parts
// ---------------------------------------------------------------------------

/// The sum of the counts in `m`.
pub open spec fn count_sum(m: Seq<(Seq<char>, int)>) -> int
    decreases m.len(),
{
    if m.len() == 0 {
        0
    } else {
        count_sum(m.drop_last()) + m.last().1
    }
}

/// The counted parts of a tally, the system prompt aside.
pub open spec fn parts_sum(t: Tally) -> int {
    t.user + t.assistant + count_sum(t.requests) + count_sum(t.results) + t.thinking
}

proof fn lemma_count_sum_update(m: Seq<(Seq<char>, int)>, p: int, x: (Seq<char>, int))
    requires
        0 <= p < m.len(),
    ensures
        count_sum(m.update(p, x)) == count_sum(m) - m[p].1 + x.1,
    decreases m.len(),
{
    if p == m.len() - 1 {
        assert(m.update(p, x).drop_last() =~= m.drop_last());
    } else {
        lemma_count_sum_update(m.drop_last(), p, x);
        assert(m.update(p, x).drop_last() =~= m.drop_last().update(p, x));
    }
}

proof fn lemma_count_sum_bump(m: Seq<(Seq<char>, int)>, k: Seq<char>, d: int)
    ensures
        count_sum(bump(m, k, d)) == count_sum(m) + d,
{
    lemma_key_pos(m, k, 0);
    match key_pos(m, k, 0) {
        Some(p) => lemma_count_sum_update(m, p, (k, m[p].1 + d)),
        None => assert(m.push((k, d)).drop_last() =~= m),
    }
}

proof fn lemma_step_keeps_parts(t: Tally, b: BlockCost, is_user: bool)
    ensures
        step_in(t, b, is_user).total - parts_sum(step_in(t, b, is_user)) == t.total - parts_sum(t),
{
    match b {
        BlockCost::ToolUse { id, name, tokens, .. } => {
            let t0 = if is_user {
                t
            } else {
                Tally { names: put(t.names, id@, name@), ..t }
            };
            lemma_count_sum_bump(t0.requests, name@, tokens as int);
        },
        BlockCost::ToolResult { tool_use_id, text_tokens } => {
            if text_tokens@.len() > 0 {
                let s = seq_sum(text_tokens@, text_tokens@.len() as int);
                lemma_count_sum_bump(t.results, name_of(t.names, tool_use_id@), s);
            }
        },
        _ => {},
    }
}

proof fn lemma_blocks_keep_parts(t: Tally, bs: Seq<BlockCost>, is_user: bool, n: int)
    ensures
        blocks_fold(t, bs, is_user, n).total - parts_sum(blocks_fold(t, bs, is_user, n)) == t.total - parts_sum(t),
    decreases n,
{
    if n > 0 {
        lemma_blocks_keep_parts(t, bs, is_user, n - 1);
        lemma_step_keeps_parts(blocks_fold(t, bs, is_user, n - 1), bs[n - 1], is_user);
    }
}

proof fn lemma_msgs_keep_parts(t: Tally, ms: Seq<MessageCost>, n: int)
    ensures
        msgs_fold(t, ms, n).total - parts_sum(msgs_fold(t, ms, n)) == t.total - parts_sum(t),
    decreases n,
{
    if n > 0 {
        lemma_msgs_keep_parts(t, ms, n - 1);
        let u = msgs_fold(t, ms, n - 1);
        match ms[n - 1] {
            MessageCost::User(bs) => {
                let t1 = if bs@.len() > 0 && bs@[0] is ToolResult {
                    u
                } else {
                    Tally { turns: u.turns + 1, ..u }
                };
                lemma_blocks_keep_parts(t1, bs@, true, bs@.len() as int);
            },
            MessageCost::Assistant(bs) => lemma_blocks_keep_parts(u, bs@, false, bs@.len() as int),
            MessageCost::System => {},
        }
    }
}

/// The total of an analysis is the system prompt's tokens plus the user
/// and assistant texts, every tool's calls and results, and thinking.
pub proof fn law_total_is_sum_of_parts(ms: Seq<MessageCost>, system: int)
    ensures
        ({
            let t = analysis_spec(ms, system);
            t.total == system + t.user + t.assistant + count_sum(t.requests) + count_sum(t.results) + t.thinking
        }),
{
    lemma_msgs_keep_parts(start_tally(system), ms, ms.len() as int);
}

// ---------------------------------------------------------------------------
// Each name once
// ---------------------------------------------------------------------------

/// No key occurs twice.
pub open spec fn keys_distinct<V>(m: Seq<(Seq<char>, V)>) -> bool {
    forall|i: int, j: int| 0 <= i < j < m.len() ==> #[trigger] m[i].0 != #[trigger] m[j].0
}

proof fn lemma_bump_distinct(m: Seq<(Seq<char>, int)>, k: Seq<char>, d: int)
    requires
        keys_distinct(m),
    ensures
        keys_distinct(bump(m, k, d)),
{
    lemma_key_pos(m, k, 0);
    let r = bump(m, k, d);
    assert forall|i: int, j: int| 0 <= i < j < r.len() implies #[trigger] r[i].0 != #[trigger] r[j].0 by {
        match key_pos(m, k, 0) {
            Some(p) => {
                assert(r[i].0 == m[i].0 && r[j].0 == m[j].0);
            },
            None => {
                if j == m.len() {
                    assert(r[i].0 == m[i].0);
                } else {
                    assert(r[i].0 == m[i].0 && r[j].0 == m[j].0);
                }
            },
        }
    }
}

/// The per-tool and per-path counts hold each key once.
pub open spec fn tally_distinct(t: Tally) -> bool {
    keys_distinct(t.requests) && keys_distinct(t.results) && keys_distinct(t.reads)
}

proof fn lemma_step_distinct(t: Tally, b: BlockCost, is_user: bool)
    requires
        tally_distinct(t),
    ensures
        tally_distinct(step_in(t, b, is_user)),
{
    match b {
        BlockCost::ToolUse { id, name, tokens, file_path } => {
            let t0 = if is_user {
                t
            } else {
                Tally { names: put(t.names, id@, name@), ..t }
            };
            lemma_bump_distinct(t0.requests, name@, tokens as int);
            if let Some(p) = file_path {
                lemma_bump_distinct(t0.reads, p@, 1);
            }
        },
        BlockCost::ToolResult { tool_use_id, text_tokens } => {
            if text_tokens@.len() > 0 {
                let s = seq_sum(text_tokens@, text_tokens@.len() as int);
                lemma_bump_distinct(t.results, name_of(t.names, tool_use_id@), s);
            }
        },
        _ => {},
    }
}

proof fn lemma_blocks_distinct(t: Tally, bs: Seq<BlockCost>, is_user: bool, n: int)
    requires
        tally_distinct(t),
    ensures
        tally_distinct(blocks_fold(t, bs, is_user, n)),
    decreases n,
{
    if n > 0 {
        lemma_blocks_distinct(t, bs, is_user, n - 1);
        lemma_step_distinct(blocks_fold(t, bs, is_user, n - 1), bs[n - 1], is_user);
    }
}

proof fn lemma_msgs_distinct(t: Tally, ms: Seq<MessageCost>, n: int)
    requires
        tally_distinct(t),
    ensures
        tally_distinct(msgs_fold(t, ms, n)),
    decreases n,
{
    if n > 0 {
        lemma_msgs_distinct(t, ms, n - 1);
        let u = msgs_fold(t, ms, n - 1);
        match ms[n - 1] {
            MessageCost::User(bs) => {
                let t1 = if bs@.len() > 0 && bs@[0] is ToolResult {
                    u
                } else {
                    Tally { turns: u.turns + 1, ..u }
                };
                lemma_blocks_distinct(t1, bs@, true, bs@.len() as int);
            },
            MessageCost::Assistant(bs) => lemma_blocks_distinct(u, bs@, false, bs@.len() as int),
            MessageCost::System => {},
        }
    }
}

proof fn lemma_over_one(m: Seq<(Seq<char>, int)>, n: int)
    requires
        keys_distinct(m),
        0 <= n <= m.len(),
    ensures
        keys_distinct(over_one(m, n)),
        forall|i: int|
            0 <= i < over_one(m, n).len() ==> exists|j: int| 0 <= j < n && #[trigger] over_one(m, n)[i] == m[j],
    decreases n,
{
    if n > 0 {
        lemma_over_one(m, n - 1);
        let prev = over_one(m, n - 1);
        if m[n - 1].1 > 1 {
            let r = prev.push(m[n - 1]);
            assert forall|i: int, j: int| 0 <= i < j < r.len() implies #[trigger] r[i].0 != #[trigger] r[j].0 by {
                if j == prev.len() {
                    let w = choose|w: int| 0 <= w < n - 1 && #[trigger] prev[i] == m[w];
                    assert(prev[i] == m[w]);
                } else {
                    assert(r[i] == prev[i] && r[j] == prev[j]);
                }
            }
            assert forall|i: int| 0 <= i < r.len() implies exists|j: int| 0 <= j < n && #[trigger] r[i] == m[j] by {
                if i < prev.len() {
                    let w = choose|w: int| 0 <= w < n - 1 && #[trigger] prev[i] == m[w];
                    assert(r[i] == m[w]);
                } else {
                    assert(r[i] == m[n - 1]);
                }
            }
        }
    }
}

/// An analysis names each tool once among the calls, once among the
/// results, and each path once among the repeated reads.
pub proof fn law_analysis_names_once(ms: Seq<MessageCost>, system: int)
    ensures
        ({
            let t = analysis_spec(ms, system);
            &&& keys_distinct(t.requests)
            &&& keys_distinct(t.results)
            &&& keys_distinct(over_one(t.reads, t.reads.len() as int))
        }),
{
    lemma_msgs_distinct(start_tally(system), ms, ms.len() as int);
    let t = analysis_spec(ms, system);
    lemma_over_one(t.reads, t.reads.len() as int);
}

} // verus!
