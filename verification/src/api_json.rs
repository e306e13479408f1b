use vstd::prelude::*;

use crate::json::{bool_text, json_quote, object_from, object_text, pair_views, quoted};
use crate::messages::{ContentBlock, Message};
use crate::text::{copy_str, push_char, push_str};

verus! {

// ---------------------------------------------------------------------------
// Messages as the API's JSON
// ---------------------------------------------------------------------------

/// Items separated by commas.
pub open spec fn comma_joined(items: Seq<Seq<char>>) -> Seq<char>
    decreases items.len(),
{
    if items.len() == 0 {
        Seq::empty()
    } else if items.len() == 1 {
        items[0]
    } else {
        comma_joined(items.drop_last()) + seq![','] + items.last()
    }
}

/// A JSON array of the given values (each given as JSON text).
pub open spec fn array_text(items: Seq<Seq<char>>) -> Seq<char> {
    seq!['['] + comma_joined(items) + seq![']']
}

/// The API form of one content block: an object with its `type` and fields;
/// a tool call's input goes in as the JSON text it is carried as, a tool
/// result's content as the array of its blocks.
pub open spec fn block_api(b: ContentBlock) -> Seq<char>
    decreases b, 0nat,
{
    match b {
        ContentBlock::Text { text } => object_text(seq![("type"@, quoted("text"@)), ("text"@, quoted(text@))]),
        ContentBlock::ToolUse { id, name, input } => object_text(
            seq![
                ("type"@, quoted("tool_use"@)),
                ("id"@, quoted(id@)),
                ("name"@, quoted(name@)),
                ("input"@, input@),
            ],
        ),
        ContentBlock::ToolResult { tool_use_id, content, is_error } => {
            proof {
                assert(decreases_to!(b => content));
                assert(decreases_to!(content => content@));
            }
            object_text(
                seq![
                    ("type"@, quoted("tool_result"@)),
                    ("tool_use_id"@, quoted(tool_use_id@)),
                    ("content"@, array_text(blocks_api(content@, content@.len() as int))),
                    ("is_error"@, bool_text(is_error)),
                ],
            )
        },
        ContentBlock::Thinking { thinking, signature } => object_text(
            seq![
                ("type"@, quoted("thinking"@)),
                ("thinking"@, quoted(thinking@)),
                ("signature"@, quoted(signature@)),
            ],
        ),
    }
}

/// The API forms of the first `n` blocks.
pub open spec fn blocks_api(bs: Seq<ContentBlock>, n: int) -> Seq<Seq<char>>
    decreases bs, n,
{
    if n <= 0 || n > bs.len() {
        Seq::empty()
    } else {
        blocks_api(bs, n - 1).push(block_api(bs[n - 1]))
    }
}

proof fn lemma_blocks_api_len(bs: Seq<ContentBlock>, n: int)
    requires
        0 <= n <= bs.len(),
    ensures
        blocks_api(bs, n).len() == n,
    decreases n,
{
    if n > 0 {
        lemma_blocks_api_len(bs, n - 1);
    }
}

/// Appends `,` (unless first) and an item to array text in progress.
fn push_item(out: &mut String, item: &str, first: bool, Ghost(items): Ghost<Seq<Seq<char>>>)
    requires
        old(out)@ == seq!['['] + comma_joined(items),
        first == (items.len() == 0),
    ensures
        final(out)@ == seq!['['] + comma_joined(items.push(item@)),
{
    let ghost before = out@;
    if !first {
        push_char(out, ',');
    }
    push_str(out, item);
    proof {
        let it = items.push(item@);
        assert(it.drop_last() =~= items);
        if items.len() == 0 {
            assert(before =~= seq!['[']);
        }
        assert(out@ =~= seq!['['] + comma_joined(it));
    }
}

/// The API form of a list of content blocks: a JSON array.
pub fn content_blocks_to_api(blocks: &Vec<ContentBlock>) -> (r: String)
    ensures
        r@ == array_text(blocks_api(blocks@, blocks@.len() as int)),
    decreases blocks@,
{
    let mut out = String::new();
    push_char(&mut out, '[');
    assert(out@ =~= seq!['['] + comma_joined(blocks_api(blocks@, 0)));
    let mut i: usize = 0;
    while i < blocks.len()
        invariant
            i <= blocks.len(),
            out@ == seq!['['] + comma_joined(blocks_api(blocks@, i as int)),
        decreases blocks.len() - i,
    {
        let ghost items = blocks_api(blocks@, i as int);
        let item = block_to_api(&blocks[i]);
        proof {
            lemma_blocks_api_len(blocks@, i as int);
        }
        push_item(&mut out, item.as_str(), i == 0, Ghost(items));
        assert(items.push(item@) == blocks_api(blocks@, i + 1));
        i = i + 1;
    }
    push_char(&mut out, ']');
    out
}

/// The API form of one content block.
fn block_to_api(b: &ContentBlock) -> (r: String)
    ensures
        r@ == block_api(*b),
    decreases *b,
{
    let pairs: Vec<(&'static str, String)> = match b {
        ContentBlock::Text { text } => vec![("type", json_quote("text")), ("text", json_quote(text.as_str()))],
        ContentBlock::ToolUse { id, name, input } => vec![
            ("type", json_quote("tool_use")),
            ("id", json_quote(id.as_str())),
            ("name", json_quote(name.as_str())),
            ("input", copy_str(input.as_str())),
        ],
        ContentBlock::ToolResult { tool_use_id, content, is_error } => {
            proof {
                assert(decreases_to!(*b => *content));
            }
            let inner = content_blocks_to_api(content);
            vec![
                ("type", json_quote("tool_result")),
                ("tool_use_id", json_quote(tool_use_id.as_str())),
                ("content", inner),
                ("is_error", copy_str(if *is_error { "true" } else { "false" })),
            ]
        },
        ContentBlock::Thinking { thinking, signature } => vec![
            ("type", json_quote("thinking")),
            ("thinking", json_quote(thinking.as_str())),
            ("signature", json_quote(signature.as_str())),
        ],
    };
    proof {
        reveal_strlit("true");
        reveal_strlit("false");
    }
    assert(pair_views(pairs@) =~= match *b {
        ContentBlock::Text { text } => seq![("type"@, quoted("text"@)), ("text"@, quoted(text@))],
        ContentBlock::ToolUse { id, name, input } => seq![
            ("type"@, quoted("tool_use"@)),
            ("id"@, quoted(id@)),
            ("name"@, quoted(name@)),
            ("input"@, input@),
        ],
        ContentBlock::ToolResult { tool_use_id, content, is_error } => seq![
            ("type"@, quoted("tool_result"@)),
            ("tool_use_id"@, quoted(tool_use_id@)),
            ("content"@, array_text(blocks_api(content@, content@.len() as int))),
            ("is_error"@, bool_text(is_error)),
        ],
        ContentBlock::Thinking { thinking, signature } => seq![
            ("type"@, quoted("thinking"@)),
            ("thinking"@, quoted(thinking@)),
            ("signature"@, quoted(signature@)),
        ],
    });
    object_from(&pairs)
}

/// The API form of a message: user and assistant messages as objects with
/// their role and content; system messages have none.
pub open spec fn message_api(m: Message) -> Option<Seq<char>> {
    match m {
        Message::User(u) => Some(
            object_text(
                seq![
                    ("role"@, quoted("user"@)),
                    ("content"@, array_text(blocks_api(u.content@, u.content@.len() as int))),
                ],
            ),
        ),
        Message::Assistant(a) => Some(
            object_text(
                seq![
                    ("role"@, quoted("assistant"@)),
                    ("content"@, array_text(blocks_api(a.content@, a.content@.len() as int))),
                ],
            ),
        ),
        Message::System(_) => None,
    }
}

/// The API forms of the messages that have one, in order.
pub open spec fn messages_api(ms: Seq<Message>) -> Seq<Seq<char>>
    decreases ms.len(),
{
    if ms.len() == 0 {
        Seq::empty()
    } else {
        let r = messages_api(ms.drop_last());
        match message_api(ms.last()) {
            Some(t) => r.push(t),
            None => r,
        }
    }
}

/// The conversation as the API's message list (each message as JSON text);
/// system messages are left out.
pub fn messages_to_api_params(messages: &Vec<Message>) -> (r: Vec<String>)
    ensures
        crate::tasks::str_views(r@) == messages_api(messages@),
{
    let mut out: Vec<String> = Vec::new();
    let mut i: usize = 0;
    while i < messages.len()
        invariant
            i <= messages.len(),
            crate::tasks::str_views(out@) == messages_api(messages@.take(i as int)),
        decreases messages.len() - i,
    {
        let ghost cur = messages@.take(i + 1);
        assert(cur.drop_last() =~= messages@.take(i as int));
        assert(cur.last() == messages@[i as int]);
        let ghost before = out@;
        let (role, content): (&'static str, Option<&Vec<ContentBlock>>) = match &messages[i] {
            Message::User(u) => ("user", Some(&u.content)),
            Message::Assistant(a) => ("assistant", Some(&a.content)),
            Message::System(_) => ("", None),
        };
        match content {
            Some(c) => {
                let pairs: Vec<(&'static str, String)> = vec![
                    ("role", json_quote(role)),
                    ("content", content_blocks_to_api(c)),
                ];
                assert(pair_views(pairs@) =~= seq![
                    ("role"@, quoted(role@)),
                    ("content"@, array_text(blocks_api(c@, c@.len() as int))),
                ]);
                let t = object_from(&pairs);
                out.push(t);
                assert(crate::tasks::str_views(out@) =~= crate::tasks::str_views(before).push(t@));
            },
            None => {},
        }
        i = i + 1;
    }
    assert(messages@.take(i as int) =~= messages@);
    out
}

} // verus!
