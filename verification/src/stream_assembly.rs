use vstd::prelude::*;

use crate::json::{jget, json_pretty, jstr, ju64, opt_chars, pretty_json, str_member, u64_member, JsonValue};
use crate::messages::{AssistantMessage, ContentBlock};
use crate::text::{copy_str, push_str, str_eq};

verus! {

// ---------------------------------------------------------------------------
// The state of a streamed reply
// ---------------------------------------------------------------------------

/// What a content block being streamed turns out to be.
#[derive(Debug, Clone, Copy, PartialEq, Eq, Structural)]
pub enum BlockKind {
    Text,
    ToolUse,
    Thinking,
}

/// A content block as it is streamed in: its kind, the text (or tool input
/// JSON, or thinking) received so far, and what its start announced.
pub struct BlockBuilder {
    pub kind: BlockKind,
    pub text: String,
    pub tool_id: Option<String>,
    pub tool_name: Option<String>,
    pub signature: Option<String>,
}

/// A block being streamed, as plain values.
#[verifier::ext_equal]
pub struct BlockModel {
    pub kind: BlockKind,
    pub text: Seq<char>,
    pub tool_id: Option<Seq<char>>,
    pub tool_name: Option<Seq<char>>,
    pub signature: Option<Seq<char>>,
}

pub open spec fn block_model(b: BlockBuilder) -> BlockModel {
    BlockModel {
        kind: b.kind,
        text: b.text@,
        tool_id: opt_chars(b.tool_id),
        tool_name: opt_chars(b.tool_name),
        signature: opt_chars(b.signature),
    }
}

pub open spec fn block_models(bs: Seq<BlockBuilder>) -> Seq<BlockModel> {
    Seq::new(bs.len(), |i: int| block_model(bs[i]))
}

/// A block not started yet: empty text of no known kind (taken as text).
pub open spec fn empty_block() -> BlockModel {
    BlockModel { kind: BlockKind::Text, text: Seq::empty(), tool_id: None, tool_name: None, signature: None }
}

impl BlockBuilder {
    pub fn new() -> (b: Self)
        ensures
            block_model(b) == empty_block(),
    {
        BlockBuilder { kind: BlockKind::Text, text: String::new(), tool_id: None, tool_name: None, signature: None }
    }
}

/// Token counts reported while streaming.
#[derive(Debug, Clone, Copy, PartialEq, Eq, Structural)]
pub struct StreamUsage {
    pub input_tokens: u64,
    pub output_tokens: u64,
    pub cache_read_tokens: u64,
    pub cache_creation_tokens: u64,
}

/// What the stream reports to its listener as it goes.
pub enum StreamEvent {
    /// Incremental text from the assistant.
    TextDelta(String),
    /// Incremental thinking text.
    ThinkingDelta(String),
    /// A tool use block has started.
    ToolUseStart { id: String, name: String },
    /// Incremental JSON input for a tool.
    ToolUseInput(String),
    /// The stream reported an error.
    Error(String),
}

/// A report as plain values.
pub enum EventModel {
    TextDelta(Seq<char>),
    ThinkingDelta(Seq<char>),
    ToolUseStart(Seq<char>, Seq<char>),
    ToolUseInput(Seq<char>),
    Error(Seq<char>),
}

pub open spec fn event_model(e: StreamEvent) -> EventModel {
    match e {
        StreamEvent::TextDelta(t) => EventModel::TextDelta(t@),
        StreamEvent::ThinkingDelta(t) => EventModel::ThinkingDelta(t@),
        StreamEvent::ToolUseStart { id, name } => EventModel::ToolUseStart(id@, name@),
        StreamEvent::ToolUseInput(t) => EventModel::ToolUseInput(t@),
        StreamEvent::Error(t) => EventModel::Error(t@),
    }
}

pub open spec fn opt_event(e: Option<StreamEvent>) -> Option<EventModel> {
    match e {
        Some(x) => Some(event_model(x)),
        None => None,
    }
}

/// A reply being assembled from its stream of events.
pub struct StreamAssembly {
    pub model: String,
    pub blocks: Vec<BlockBuilder>,
    pub stop_reason: Option<String>,
    pub usage: StreamUsage,
}

/// An assembly as plain values.
#[verifier::ext_equal]
pub struct AssemblyModel {
    pub model: Seq<char>,
    pub blocks: Seq<BlockModel>,
    pub stop_reason: Option<Seq<char>>,
    pub usage: StreamUsage,
}

pub open spec fn assembly_model(a: StreamAssembly) -> AssemblyModel {
    AssemblyModel {
        model: a.model@,
        blocks: block_models(a.blocks@),
        stop_reason: opt_chars(a.stop_reason),
        usage: a.usage,
    }
}

// ---------------------------------------------------------------------------
// What each event does
// ---------------------------------------------------------------------------

pub open spec fn or_empty(s: Option<Seq<char>>) -> Seq<char> {
    match s {
        Some(x) => x,
        None => Seq::empty(),
    }
}

pub open spec fn or_zero(n: Option<u64>) -> u64 {
    match n {
        Some(x) => x,
        None => 0,
    }
}

/// The block an event is about: its `index` (0 when missing), as `usize`.
pub open spec fn event_index(j: JsonValue) -> usize {
    or_zero(ju64(jget(j, "index"@))) as usize
}

/// The blocks, with empty ones added until there is a block `idx`.
pub open spec fn grown(bs: Seq<BlockModel>, idx: int) -> Seq<BlockModel> {
    if idx < bs.len() {
        bs
    } else {
        bs + Seq::new((idx + 1 - bs.len()) as nat, |i: int| empty_block())
    }
}

/// A block once its start has been read.
pub open spec fn started_block(b: BlockModel, cb: JsonValue) -> BlockModel {
    let ty = match jstr(jget(cb, "type"@)) {
        Some(t) => t,
        None => "text"@,
    };
    if ty == "text"@ {
        BlockModel { kind: BlockKind::Text, ..b }
    } else if ty == "tool_use"@ {
        BlockModel {
            kind: BlockKind::ToolUse,
            tool_id: jstr(jget(cb, "id"@)),
            tool_name: jstr(jget(cb, "name"@)),
            ..b
        }
    } else if ty == "thinking"@ {
        BlockModel { kind: BlockKind::Thinking, signature: jstr(jget(cb, "signature"@)), ..b }
    } else {
        b
    }
}

/// The text that a delta adds to its block, and the report it makes.
pub open spec fn delta_piece(delta: JsonValue) -> Option<(Seq<char>, EventModel)> {
    let ty = or_empty(jstr(jget(delta, "type"@)));
    if ty == "text_delta"@ {
        let t = or_empty(jstr(jget(delta, "text"@)));
        Some((t, EventModel::TextDelta(t)))
    } else if ty == "input_json_delta"@ {
        let t = or_empty(jstr(jget(delta, "partial_json"@)));
        Some((t, EventModel::ToolUseInput(t)))
    } else if ty == "thinking_delta"@ {
        let t = or_empty(jstr(jget(delta, "thinking"@)));
        Some((t, EventModel::ThinkingDelta(t)))
    } else {
        None
    }
}

/// The assembly after an event of type `et` with data `j`.
pub open spec fn after_event(m: AssemblyModel, et: Seq<char>, j: JsonValue) -> AssemblyModel {
    if et == "message_start"@ {
        match jget(j, "message"@) {
            Some(msg) => {
                let m1 = AssemblyModel { model: or_empty(jstr(jget(msg, "model"@))), ..m };
                match jget(msg, "usage"@) {
                    Some(u) => AssemblyModel {
                        usage: StreamUsage {
                            input_tokens: or_zero(ju64(jget(u, "input_tokens"@))),
                            cache_read_tokens: or_zero(ju64(jget(u, "cache_read_input_tokens"@))),
                            cache_creation_tokens: or_zero(
                                ju64(jget(u, "cache_creation_input_tokens"@)),
                            ),
                            ..m.usage
                        },
                        ..m1
                    },
                    None => m1,
                }
            },
            None => m,
        }
    } else if et == "content_block_start"@ {
        let idx = event_index(j) as int;
        let bs = grown(m.blocks, idx);
        match jget(j, "content_block"@) {
            Some(cb) => AssemblyModel { blocks: bs.update(idx, started_block(bs[idx], cb)), ..m },
            None => AssemblyModel { blocks: bs, ..m },
        }
    } else if et == "content_block_delta"@ {
        let idx = event_index(j) as int;
        if idx < m.blocks.len() {
            match jget(j, "delta"@) {
                Some(d) => match delta_piece(d) {
                    Some((t, _)) => AssemblyModel {
                        blocks: m.blocks.update(idx, BlockModel { text: m.blocks[idx].text + t, ..m.blocks[idx] }),
                        ..m
                    },
                    None => m,
                },
                None => m,
            }
        } else {
            m
        }
    } else if et == "message_delta"@ {
        let m1 = match jget(j, "delta"@) {
            Some(d) => AssemblyModel { stop_reason: jstr(jget(d, "stop_reason"@)), ..m },
            None => m,
        };
        match jget(j, "usage"@) {
            Some(u) => AssemblyModel {
                usage: StreamUsage { output_tokens: or_zero(ju64(jget(u, "output_tokens"@))), ..m1.usage },
                ..m1
            },
            None => m1,
        }
    } else {
        m
    }
}

/// What an event of type `et` with data `j` reports.
pub open spec fn event_report(m: AssemblyModel, et: Seq<char>, j: JsonValue) -> Option<EventModel> {
    if et == "content_block_start"@ {
        match jget(j, "content_block"@) {
            Some(cb) => if jstr(jget(cb, "type"@)) == Some("tool_use"@) {
                Some(
                    EventModel::ToolUseStart(
                        or_empty(jstr(jget(cb, "id"@))),
                        or_empty(jstr(jget(cb, "name"@))),
                    ),
                )
            } else {
                None
            },
            None => None,
        }
    } else if et == "content_block_delta"@ {
        if (event_index(j) as int) < m.blocks.len() {
            match jget(j, "delta"@) {
                Some(d) => match delta_piece(d) {
                    Some((_, e)) => Some(e),
                    None => None,
                },
                None => None,
            }
        } else {
            None
        }
    } else if et == "error"@ {
        match jget(j, "error"@) {
            Some(err) => Some(
                EventModel::Error(
                    match jstr(jget(err, "message"@)) {
                        Some(t) => t,
                        None => "unknown error"@,
                    },
                ),
            ),
            None => None,
        }
    } else {
        None
    }
}


// ---------------------------------------------------------------------------
// Applying events
// ---------------------------------------------------------------------------

fn copy_opt(s: &Option<String>) -> (r: Option<String>)
    ensures
        opt_chars(r) == opt_chars(*s),
{
    match s {
        Some(x) => Some(copy_str(x.as_str())),
        None => None,
    }
}

fn text_or(s: Option<String>, default: &str) -> (r: String)
    ensures
        r@ == match opt_chars(s) {
            Some(t) => t,
            None => default@,
        },
{
    match s {
        Some(x) => x,
        None => copy_str(default),
    }
}

/// The index an event names (0 when missing), as `usize`.
pub fn index_of(data: &JsonValue) -> (r: usize)
    ensures
        r == event_index(*data),
{
    let n: u64 = match u64_member(Some(data), "index") {
        Some(n) => n,
        None => 0,
    };
    n as usize
}

/// The names of the events and of the kinds of blocks and deltas differ.
proof fn lemma_names_differ()
    ensures
        "message_start"@ != "content_block_start"@,
        "message_start"@ != "content_block_delta"@,
        "message_start"@ != "message_delta"@,
        "message_start"@ != "error"@,
        "content_block_start"@ != "content_block_delta"@,
        "content_block_start"@ != "message_delta"@,
        "content_block_start"@ != "error"@,
        "content_block_delta"@ != "message_delta"@,
        "content_block_delta"@ != "error"@,
        "message_delta"@ != "error"@,
        "text"@ != "tool_use"@,
        "text"@ != "thinking"@,
        "tool_use"@ != "thinking"@,
        "text_delta"@ != "input_json_delta"@,
        "text_delta"@ != "thinking_delta"@,
        "input_json_delta"@ != "thinking_delta"@,
        ""@ == Seq::<char>::empty(),
{
    reveal_strlit("message_start");
    reveal_strlit("content_block_start");
    reveal_strlit("content_block_delta");
    reveal_strlit("message_delta");
    reveal_strlit("error");
    reveal_strlit("text");
    reveal_strlit("tool_use");
    reveal_strlit("thinking");
    reveal_strlit("text_delta");
    reveal_strlit("input_json_delta");
    reveal_strlit("thinking_delta");
    reveal_strlit("");
    assert("message_start"@[0] != "content_block_start"@[0]);
    assert("message_start"@[0] != "content_block_delta"@[0]);
    assert("message_start"@[8] != "message_delta"@[8]);
    assert("message_start"@[0] != "error"@[0]);
    assert("content_block_start"@[14] != "content_block_delta"@[14]);
    assert("content_block_start"@[0] != "message_delta"@[0]);
    assert("content_block_start"@[0] != "error"@[0]);
    assert("content_block_delta"@[0] != "message_delta"@[0]);
    assert("content_block_delta"@[0] != "error"@[0]);
    assert("message_delta"@[0] != "error"@[0]);
    assert("text"@[1] != "tool_use"@[1]);
    assert("text"@[1] != "thinking"@[1]);
    assert("tool_use"@[1] != "thinking"@[1]);
    assert("text_delta"@[0] != "input_json_delta"@[0]);
    assert("text_delta"@[1] != "thinking_delta"@[1]);
    assert("input_json_delta"@[0] != "thinking_delta"@[0]);
    assert(""@ =~= Seq::<char>::empty());
}

impl StreamAssembly {
    /// Nothing received yet.
    pub fn new() -> (s: Self)
        ensures
            assembly_model(s) == (AssemblyModel {
                model: Seq::empty(),
                blocks: Seq::empty(),
                stop_reason: None,
                usage: StreamUsage { input_tokens: 0, output_tokens: 0, cache_read_tokens: 0, cache_creation_tokens: 0 },
            }),
    {
        let s = StreamAssembly {
            model: String::new(),
            blocks: Vec::new(),
            stop_reason: None,
            usage: StreamUsage { input_tokens: 0, output_tokens: 0, cache_read_tokens: 0, cache_creation_tokens: 0 },
        };
        assert(block_models(s.blocks@) =~= Seq::<BlockModel>::empty());
        s
    }

    fn on_message_start(&mut self, data: &JsonValue)
        ensures
            assembly_model(*final(self)) == after_event(assembly_model(*old(self)), "message_start"@, *data),
    {
        proof {
            lemma_names_differ();
        }
        let ghost m0 = assembly_model(*self);
        match data.get("message") {
            Some(msg) => {
                self.model = text_or(str_member(Some(msg), "model"), "");
                match msg.get("usage") {
                    Some(u) => {
                        let input = match u64_member(Some(u), "input_tokens") {
                            Some(n) => n,
                            None => 0,
                        };
                        let read = match u64_member(Some(u), "cache_read_input_tokens") {
                            Some(n) => n,
                            None => 0,
                        };
                        let creation = match u64_member(Some(u), "cache_creation_input_tokens") {
                            Some(n) => n,
                            None => 0,
                        };
                        self.usage = StreamUsage {
                            input_tokens: input,
                            cache_read_tokens: read,
                            cache_creation_tokens: creation,
                            output_tokens: self.usage.output_tokens,
                        };
                    },
                    None => {},
                }
            },
            None => {},
        }
        assert(assembly_model(*self) =~= after_event(m0, "message_start"@, *data));
    }

    /// Adds empty blocks until there is a block `idx`.
    fn grow_to(&mut self, idx: usize)
        requires
            idx < usize::MAX,
        ensures
            block_models(final(self).blocks@) == grown(block_models(old(self).blocks@), idx as int),
            final(self).model == old(self).model,
            final(self).stop_reason == old(self).stop_reason,
            final(self).usage == old(self).usage,
    {
        let ghost old_models = block_models(self.blocks@);
        assert(old_models + Seq::new(0, |i: int| empty_block()) =~= old_models);
        while self.blocks.len() <= idx
            invariant
                idx < usize::MAX,
                old_models.len() <= self.blocks.len(),
                old_models.len() <= idx + 1 ==> self.blocks.len() <= idx + 1,
                old_models.len() > idx + 1 ==> self.blocks.len() == old_models.len(),
                block_models(self.blocks@) == old_models + Seq::new(
                    (self.blocks.len() - old_models.len()) as nat,
                    |i: int| empty_block(),
                ),
                self.model == old(self).model,
                self.stop_reason == old(self).stop_reason,
                self.usage == old(self).usage,
            decreases idx + 1 - self.blocks.len(),
        {
            let ghost before = block_models(self.blocks@);
            let b = BlockBuilder::new();
            self.blocks.push(b);
            assert(block_models(self.blocks@) =~= before.push(empty_block()));
            assert(block_models(self.blocks@) =~= old_models + Seq::new(
                (self.blocks.len() - old_models.len()) as nat,
                |i: int| empty_block(),
            ));
        }
        proof {
            if (idx as int) < old_models.len() {
                assert(block_models(self.blocks@) =~= old_models);
            }
        }
    }

    fn on_block_start(&mut self, data: &JsonValue) -> (r: Option<StreamEvent>)
        requires
            event_index(*data) < usize::MAX,
        ensures
            assembly_model(*final(self)) == after_event(assembly_model(*old(self)), "content_block_start"@, *data),
            opt_event(r) == event_report(assembly_model(*old(self)), "content_block_start"@, *data),
    {
        proof {
            lemma_names_differ();
        }
        let ghost m0 = assembly_model(*self);
        let idx = index_of(data);
        self.grow_to(idx);
        let ghost bs = block_models(self.blocks@);
        assert(bs.len() == self.blocks@.len());
        assert(bs.len() > idx);
        match data.get("content_block") {
            Some(cb) => {
                let ty = text_or(str_member(Some(cb), "type"), "text");
                let mut b = BlockBuilder::new();
                self.blocks.set_and_swap(idx, &mut b);
                assert(block_model(b) == bs[idx as int]);
                let mut event: Option<StreamEvent> = None;
                if str_eq(ty.as_str(), "text") {
                    b.kind = BlockKind::Text;
                } else if str_eq(ty.as_str(), "tool_use") {
                    b.kind = BlockKind::ToolUse;
                    b.tool_id = str_member(Some(cb), "id");
                    b.tool_name = str_member(Some(cb), "name");
                    let id = text_or(copy_opt(&b.tool_id), "");
                    let name = text_or(copy_opt(&b.tool_name), "");
                    event = Some(StreamEvent::ToolUseStart { id, name });
                } else if str_eq(ty.as_str(), "thinking") {
                    b.kind = BlockKind::Thinking;
                    b.signature = str_member(Some(cb), "signature");
                }
                let ghost nb = block_model(b);
                self.blocks.set(idx, b);
                proof {
                    assert(nb =~= started_block(bs[idx as int], *cb));
                    assert(block_models(self.blocks@) =~= bs.update(idx as int, nb));
                    if jstr(jget(*cb, "type"@)) == Some("tool_use"@) {
                        assert(ty@ == "tool_use"@);
                    } else {
                        assert(ty@ != "tool_use"@);
                    }
                    assert(assembly_model(*self) =~= after_event(m0, "content_block_start"@, *data));
                }
                event
            },
            None => {
                assert(assembly_model(*self) =~= after_event(m0, "content_block_start"@, *data));
                None
            },
        }
    }

    fn on_block_delta(&mut self, data: &JsonValue) -> (r: Option<StreamEvent>)
        ensures
            assembly_model(*final(self)) == after_event(assembly_model(*old(self)), "content_block_delta"@, *data),
            opt_event(r) == event_report(assembly_model(*old(self)), "content_block_delta"@, *data),
    {
        proof {
            lemma_names_differ();
        }
        let ghost m0 = assembly_model(*self);
        let idx = index_of(data);
        if idx >= self.blocks.len() {
            return None;
        }
        let ghost bs = block_models(self.blocks@);
        assert(bs.len() == self.blocks@.len());
        match data.get("delta") {
            Some(d) => {
                let ty = text_or(str_member(Some(d), "type"), "");
                let (piece, event) = if str_eq(ty.as_str(), "text_delta") {
                    let t = text_or(str_member(Some(d), "text"), "");
                    let e = copy_str(t.as_str());
                    (t, StreamEvent::TextDelta(e))
                } else if str_eq(ty.as_str(), "input_json_delta") {
                    let t = text_or(str_member(Some(d), "partial_json"), "");
                    let e = copy_str(t.as_str());
                    (t, StreamEvent::ToolUseInput(e))
                } else if str_eq(ty.as_str(), "thinking_delta") {
                    let t = text_or(str_member(Some(d), "thinking"), "");
                    let e = copy_str(t.as_str());
                    (t, StreamEvent::ThinkingDelta(e))
                } else {
                    assert(delta_piece(*d) is None);
                    assert(assembly_model(*self) =~= m0);
                    return None;
                };
                assert(delta_piece(*d) == Some((piece@, event_model(event))));
                let mut b = BlockBuilder::new();
                self.blocks.set_and_swap(idx, &mut b);
                assert(block_model(b) == bs[idx as int]);
                push_str(&mut b.text, piece.as_str());
                let ghost nb = block_model(b);
                self.blocks.set(idx, b);
                assert(block_models(self.blocks@) =~= bs.update(
                    idx as int,
                    BlockModel { text: bs[idx as int].text + piece@, ..bs[idx as int] },
                ));
                assert(assembly_model(*self) =~= after_event(m0, "content_block_delta"@, *data));
                Some(event)
            },
            None => None,
        }
    }

    fn on_message_delta(&mut self, data: &JsonValue)
        ensures
            assembly_model(*final(self)) == after_event(assembly_model(*old(self)), "message_delta"@, *data),
    {
        proof {
            lemma_names_differ();
        }
        let ghost m0 = assembly_model(*self);
        match data.get("delta") {
            Some(d) => {
                self.stop_reason = str_member(Some(d), "stop_reason");
            },
            None => {},
        }
        match data.get("usage") {
            Some(u) => {
                let out = match u64_member(Some(u), "output_tokens") {
                    Some(n) => n,
                    None => 0,
                };
                self.usage = StreamUsage { output_tokens: out, ..self.usage };
            },
            None => {},
        }
        assert(assembly_model(*self) =~= after_event(m0, "message_delta"@, *data));
    }

    /// Applies one event of the stream, by its type and its data, and says
    /// what it reports: `message_start` sets the model and input usage;
    /// `content_block_start` opens a block (and reports a tool use);
    /// `content_block_delta` appends to a block and reports the piece;
    /// `message_delta` sets the stop reason and output usage; `error`
    /// reports the error; any other event changes nothing.
    pub fn apply(&mut self, event_type: &str, data: &JsonValue) -> (r: Option<StreamEvent>)
        requires
            event_type@ == "content_block_start"@ ==> event_index(*data) < usize::MAX,
        ensures
            assembly_model(*final(self)) == after_event(assembly_model(*old(self)), event_type@, *data),
            opt_event(r) == event_report(assembly_model(*old(self)), event_type@, *data),
    {
        proof {
            lemma_names_differ();
        }
        if str_eq(event_type, "message_start") {
            self.on_message_start(data);
            None
        } else if str_eq(event_type, "content_block_start") {
            self.on_block_start(data)
        } else if str_eq(event_type, "content_block_delta") {
            self.on_block_delta(data)
        } else if str_eq(event_type, "message_delta") {
            self.on_message_delta(data);
            None
        } else if str_eq(event_type, "error") {
            match data.get("error") {
                Some(err) => {
                    let m = text_or(str_member(Some(err), "message"), "unknown error");
                    Some(StreamEvent::Error(m))
                },
                None => None,
            }
        } else {
            None
        }
    }
}


// ---------------------------------------------------------------------------
// The reply
// ---------------------------------------------------------------------------

/// A content block as plain values.
pub enum ContentModel {
    Text(Seq<char>),
    ToolUse(Seq<char>, Seq<char>, Seq<char>),
    ToolResult(Seq<char>, Seq<ContentModel>, bool),
    Thinking(Seq<char>, Seq<char>),
}

pub open spec fn content_model(c: ContentBlock) -> ContentModel
    decreases c,
{
    match c {
        ContentBlock::Text { text } => ContentModel::Text(text@),
        ContentBlock::ToolUse { id, name, input } => ContentModel::ToolUse(id@, name@, input@),
        ContentBlock::ToolResult { tool_use_id, content, is_error } => ContentModel::ToolResult(
            tool_use_id@,
            Seq::new(
                content@.len(),
                |i: int|
                    if 0 <= i < content@.len() {
                        content_model(content@[i])
                    } else {
                        ContentModel::Text(Seq::empty())
                    },
            ),
            is_error,
        ),
        ContentBlock::Thinking { thinking, signature } => ContentModel::Thinking(thinking@, signature@),
    }
}

pub open spec fn content_models(cs: Seq<ContentBlock>) -> Seq<ContentModel> {
    Seq::new(cs.len(), |i: int| content_model(cs[i]))
}

/// The content block a streamed block becomes: text and thinking when they
/// are not empty, a tool use always (its input the pretty-printed JSON of
/// what was streamed, `null` if that is not JSON).
pub open spec fn block_content(b: BlockModel) -> Option<ContentModel> {
    match b.kind {
        BlockKind::Text => if b.text.len() > 0 {
            Some(ContentModel::Text(b.text))
        } else {
            None
        },
        BlockKind::ToolUse => Some(
            ContentModel::ToolUse(or_empty(b.tool_id), or_empty(b.tool_name), json_pretty(b.text)),
        ),
        BlockKind::Thinking => if b.text.len() > 0 {
            Some(ContentModel::Thinking(b.text, or_empty(b.signature)))
        } else {
            None
        },
    }
}

/// The content blocks of a reply, in order.
pub open spec fn reply_content(bs: Seq<BlockModel>) -> Seq<ContentModel>
    decreases bs.len(),
{
    if bs.len() == 0 {
        Seq::empty()
    } else {
        let r = reply_content(bs.drop_last());
        match block_content(bs.last()) {
            Some(c) => r.push(c),
            None => r,
        }
    }
}

impl BlockBuilder {
    /// The content block this block becomes, if it has any content.
    pub fn to_content_block(&self) -> (r: Option<ContentBlock>)
        ensures
            match r {
                Some(c) => block_content(block_model(*self)) == Some(content_model(c)),
                None => block_content(block_model(*self)) is None,
            },
    {
        proof {
            lemma_names_differ();
        }
        match self.kind {
            BlockKind::Text => {
                if crate::text::chars_of(self.text.as_str()).len() > 0 {
                    Some(ContentBlock::Text { text: copy_str(self.text.as_str()) })
                } else {
                    None
                }
            },
            BlockKind::ToolUse => Some(
                ContentBlock::ToolUse {
                    id: text_or(copy_opt(&self.tool_id), ""),
                    name: text_or(copy_opt(&self.tool_name), ""),
                    input: pretty_json(self.text.as_str()),
                },
            ),
            BlockKind::Thinking => {
                if crate::text::chars_of(self.text.as_str()).len() > 0 {
                    Some(
                        ContentBlock::Thinking {
                            thinking: copy_str(self.text.as_str()),
                            signature: text_or(copy_opt(&self.signature), ""),
                        },
                    )
                } else {
                    None
                }
            },
        }
    }
}

impl StreamAssembly {
    /// The content blocks received so far, in order.
    pub fn content_blocks(&self) -> (r: Vec<ContentBlock>)
        ensures
            content_models(r@) == reply_content(block_models(self.blocks@)),
    {
        let mut r: Vec<ContentBlock> = Vec::new();
        let mut i: usize = 0;
        while i < self.blocks.len()
            invariant
                i <= self.blocks.len(),
                content_models(r@) == reply_content(block_models(self.blocks@).take(i as int)),
            decreases self.blocks.len() - i,
        {
            let ghost bs = block_models(self.blocks@);
            assert(bs.take(i + 1).drop_last() =~= bs.take(i as int));
            assert(bs.take(i + 1).last() == block_model(self.blocks@[i as int]));
            let ghost before = r@;
            match self.blocks[i].to_content_block() {
                Some(c) => {
                    r.push(c);
                    assert(content_models(r@) =~= content_models(before).push(content_model(c)));
                },
                None => {},
            }
            i = i + 1;
        }
        assert(block_models(self.blocks@).take(i as int) =~= block_models(self.blocks@));
        r
    }

    /// Whether some text block has text (a reply interrupted here has
    /// something worth keeping).
    pub fn has_text(&self) -> (b: bool)
        ensures
            b == exists|i: int|
                0 <= i < self.blocks@.len() && (#[trigger] block_models(self.blocks@)[i]).kind
                    == BlockKind::Text && block_models(self.blocks@)[i].text.len() > 0,
    {
        let mut i: usize = 0;
        while i < self.blocks.len()
            invariant
                i <= self.blocks.len(),
                forall|k: int|
                    0 <= k < i ==> !((#[trigger] block_models(self.blocks@)[k]).kind == BlockKind::Text
                        && block_models(self.blocks@)[k].text.len() > 0),
            decreases self.blocks.len() - i,
        {
            assert(block_models(self.blocks@)[i as int] == block_model(self.blocks@[i as int]));
            if self.blocks[i].kind == BlockKind::Text && crate::text::chars_of(self.blocks[i].text.as_str()).len() > 0 {
                return true;
            }
            i = i + 1;
        }
        false
    }

    /// The finished reply: a fresh id, the current time, the content blocks,
    /// the model and the stop reason.
    pub fn finish(self) -> (m: AssistantMessage)
        ensures
            content_models(m.content@) == reply_content(block_models(self.blocks@)),
            m.model matches Some(x) && x@ == self.model@,
            opt_chars(m.stop_reason) == opt_chars(self.stop_reason),
            m.uuid@.len() == 36,
    {
        let content = self.content_blocks();
        let mut m = AssistantMessage::new(content);
        m.model = Some(self.model);
        m.stop_reason = self.stop_reason;
        m
    }
}


// ---------------------------------------------------------------------------
// Laws
// ---------------------------------------------------------------------------

/// Streamed text only grows: no event removes a block or takes text away
/// from one, and a text delta adds exactly its piece to the end of its block.
pub proof fn law_stream_text_only_grows(m: AssemblyModel, et: Seq<char>, j: JsonValue)
    ensures
        after_event(m, et, j).blocks.len() >= m.blocks.len(),
        forall|i: int|
            0 <= i < m.blocks.len() ==> (#[trigger] after_event(m, et, j).blocks[i]).text.take(
                m.blocks[i].text.len() as int,
            ) == m.blocks[i].text,
        et == "content_block_delta"@ && (event_index(j) as int) < m.blocks.len() ==> match jget(j, "delta"@) {
            Some(d) => match delta_piece(d) {
                Some((t, _)) => after_event(m, et, j).blocks[event_index(j) as int].text == m.blocks[event_index(
                    j,
                ) as int].text + t,
                None => after_event(m, et, j) == m,
            },
            None => after_event(m, et, j) == m,
        },
{
    lemma_names_differ();
    let a = after_event(m, et, j);
    assert forall|i: int| 0 <= i < m.blocks.len() implies (#[trigger] a.blocks[i]).text.take(
        m.blocks[i].text.len() as int,
    ) == m.blocks[i].text by {
        if et == "content_block_start"@ {
            let idx = event_index(j) as int;
            let bs = grown(m.blocks, idx);
            assert(bs[i] == m.blocks[i]);
        } else if et == "content_block_delta"@ {
            let idx = event_index(j) as int;
            if idx < m.blocks.len() && i == idx {
                match jget(j, "delta"@) {
                    Some(d) => match delta_piece(d) {
                        Some((t, _)) => {
                            assert((m.blocks[i].text + t).take(m.blocks[i].text.len() as int) =~= m.blocks[i].text);
                        },
                        None => {},
                    },
                    None => {},
                }
            }
        }
        assert(a.blocks[i].text.take(m.blocks[i].text.len() as int) =~= m.blocks[i].text);
    }
}

/// A reply made only of text deltas to one text block holds that text:
/// starting a text block at index 0 and then streaming `t1` and `t2` into it
/// leaves the block's text `t1 + t2`.
pub proof fn law_text_deltas_concatenate(m: AssemblyModel, start: JsonValue, d1: JsonValue, d2: JsonValue, t1: Seq<char>, t2: Seq<char>)
    requires
        m.blocks.len() == 0,
        event_index(start) == 0,
        jget(start, "content_block"@) matches Some(cb) && jstr(jget(cb, "type"@)) == Some("text"@),
        event_index(d1) == 0,
        event_index(d2) == 0,
        jget(d1, "delta"@) matches Some(x) && delta_piece(x) matches Some((p, _)) && p == t1 && jstr(jget(x, "type"@)) == Some("text_delta"@),
        jget(d2, "delta"@) matches Some(x) && delta_piece(x) matches Some((p, _)) && p == t2 && jstr(jget(x, "type"@)) == Some("text_delta"@),
    ensures
        ({
            let m1 = after_event(m, "content_block_start"@, start);
            let m2 = after_event(m1, "content_block_delta"@, d1);
            let m3 = after_event(m2, "content_block_delta"@, d2);
            &&& m3.blocks.len() == 1
            &&& m3.blocks[0].kind == BlockKind::Text
            &&& m3.blocks[0].text == t1 + t2
            &&& reply_content(m3.blocks) == if (t1 + t2).len() > 0 {
                seq![ContentModel::Text(t1 + t2)]
            } else {
                Seq::<ContentModel>::empty()
            }
        }),
{
    lemma_names_differ();
    let m1 = after_event(m, "content_block_start"@, start);
    let bs = grown(m.blocks, 0);
    assert(bs =~= seq![empty_block()]);
    assert(m1.blocks[0].text =~= Seq::<char>::empty());
    let m2 = after_event(m1, "content_block_delta"@, d1);
    assert(m2.blocks[0].text =~= t1);
    let m3 = after_event(m2, "content_block_delta"@, d2);
    assert(m3.blocks[0].text =~= t1 + t2);
    assert(m1.blocks.len() == 1);
    assert(m1.blocks[0].kind == BlockKind::Text);
    assert(m2.blocks.len() == 1);
    assert(m2.blocks[0].kind == BlockKind::Text);
    assert(m3.blocks.len() == 1);
    assert(m3.blocks[0].kind == BlockKind::Text);
    assert(m3.blocks.drop_last() =~= Seq::<BlockModel>::empty());
    assert(reply_content(m3.blocks.drop_last()) =~= Seq::<ContentModel>::empty());
    assert(m3.blocks.last() == m3.blocks[0]);
}

} // verus!
