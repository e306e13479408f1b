use vstd::prelude::*;

use crate::json::{jget, jstr, ju64, json_quote, member_in, quoted, JsonValue};
use crate::retry::{parse_retry_after, parse_u64_spec};
use crate::tasks::{decimal, decimal_string};
use crate::text::{byte_len, chars_of, copy_str, push_str, starts_with, starts_with_exec, str_eq, string_from, string_len, sub_vec, trim, trim_vec};

verus! {

// ---------------------------------------------------------------------------
// Writing messages
// ---------------------------------------------------------------------------

/// A JSON-RPC request as `serde_json` writes it (members in key order).
pub open spec fn request_json(id: u64, method: Seq<char>, params: Seq<char>) -> Seq<char> {
    "{\"id\":"@ + decimal(id as nat) + ",\"jsonrpc\":\"2.0\",\"method\":"@ + quoted(method) + ",\"params\":"@
        + params + "}"@
}

/// A JSON-RPC notification as `serde_json` writes it.
pub open spec fn notification_json(method: Seq<char>, params: Seq<char>) -> Seq<char> {
    "{\"jsonrpc\":\"2.0\",\"method\":"@ + quoted(method) + ",\"params\":"@ + params + "}"@
}

/// The request `id` calling `method` with `params` (JSON text).
pub fn request_text(id: u64, method: &str, params: &str) -> (r: String)
    ensures
        r@ == request_json(id, method@, params@),
{
    let mut r = copy_str("{\"id\":");
    push_str(&mut r, decimal_string(id).as_str());
    push_str(&mut r, ",\"jsonrpc\":\"2.0\",\"method\":");
    push_str(&mut r, json_quote(method).as_str());
    push_str(&mut r, ",\"params\":");
    push_str(&mut r, params);
    push_str(&mut r, "}");
    r
}

/// The notification of `method` with `params` (JSON text).
pub fn notification_text(method: &str, params: &str) -> (r: String)
    ensures
        r@ == notification_json(method@, params@),
{
    let mut r = copy_str("{\"jsonrpc\":\"2.0\",\"method\":");
    push_str(&mut r, json_quote(method).as_str());
    push_str(&mut r, ",\"params\":");
    push_str(&mut r, params);
    push_str(&mut r, "}");
    r
}

/// A message framed for the wire: a `Content-Length` header giving the
/// body's length in bytes, a blank line, and the body.
pub open spec fn framed(body: Seq<char>) -> Seq<char> {
    "Content-Length: "@ + decimal(byte_len(body)) + "\r\n\r\n"@ + body
}

/// Frames a message body for a language server.
pub fn frame(body: &str) -> (r: String)
    ensures
        r@ == framed(body@),
{
    let owned = copy_str(body);
    let n = string_len(&owned);
    let mut r = copy_str("Content-Length: ");
    push_str(&mut r, decimal_string(n as u64).as_str());
    push_str(&mut r, "\r\n\r\n");
    push_str(&mut r, body);
    r
}

/// Takes the next request id, counting up.
pub fn take_id(next_id: &mut u64) -> (id: u64)
    requires
        *old(next_id) < u64::MAX,
    ensures
        id == *old(next_id),
        *final(next_id) == *old(next_id) + 1,
{
    let id = *next_id;
    *next_id = id + 1;
    id
}

// ---------------------------------------------------------------------------
// Reading messages
// ---------------------------------------------------------------------------

/// What a header line does.
#[derive(Debug, Clone, Copy, PartialEq, Eq, Structural)]
pub enum HeaderStep {
    /// Read the next header line.
    Next,
    /// The headers are over; the body follows.
    End,
    /// The `Content-Length` value is not a number.
    BadLength,
}

/// `usize::from_str`.
pub open spec fn parse_usize_spec(s: Seq<char>) -> Option<usize> {
    match parse_u64_spec(s) {
        Some(v) => if v <= usize::MAX {
            Some(v as usize)
        } else {
            None
        },
        None => None,
    }
}

/// `usize::from_str`.
pub fn parse_usize(text: &str) -> (r: Option<usize>)
    ensures
        r == parse_usize_spec(text@),
{
    match parse_retry_after(text) {
        Some(v) => {
            if v <= usize::MAX as u64 {
                Some(v as usize)
            } else {
                None
            }
        },
        None => None,
    }
}

/// One header line (with its line break): a blank line ends the headers; a
/// `Content-Length:` line sets the length to its trimmed value, which must
/// be a number; other headers are passed over.
pub open spec fn header_effect(line: Seq<char>, length: Option<usize>) -> (HeaderStep, Option<usize>) {
    let t = trim(line);
    if t.len() == 0 {
        (HeaderStep::End, length)
    } else if starts_with(t, "Content-Length:"@) {
        match parse_usize_spec(trim(t.skip(15))) {
            Some(n) => (HeaderStep::Next, Some(n)),
            None => (HeaderStep::BadLength, length),
        }
    } else {
        (HeaderStep::Next, length)
    }
}

/// Reads one header line into the content length found so far.
pub fn header_line(line: &str, content_length: &mut Option<usize>) -> (s: HeaderStep)
    ensures
        (s, *final(content_length)) == header_effect(line@, *old(content_length)),
{
    proof {
        reveal_strlit("Content-Length:");
    }
    let t = trim_vec(&chars_of(line));
    if t.len() == 0 {
        return HeaderStep::End;
    }
    let key = chars_of("Content-Length:");
    if starts_with_exec(&t, &key) {
        let rest = sub_vec(&t, 15, t.len());
        assert(rest@ =~= t@.skip(15));
        let val = string_from(&trim_vec(&rest));
        match parse_retry_after(val.as_str()) {
            Some(v) => {
                if v <= usize::MAX as u64 {
                    *content_length = Some(v as usize);
                    HeaderStep::Next
                } else {
                    HeaderStep::BadLength
                }
            },
            None => HeaderStep::BadLength,
        }
    } else {
        HeaderStep::Next
    }
}

/// What a message read while waiting for a response means.
pub enum ReplyStep {
    /// A notification or another request's response: read on.
    Skip,
    /// The awaited response is an error, with this text.
    Failed(String),
    /// The awaited response's result (`null` when it has none).
    Reply(JsonValue),
}

/// The message `msg` while waiting for response `expected_id`: a message
/// with that id answers; it fails with the error's message (`unknown
/// error` without one) when it has an `error` member, else gives its
/// `result`. Anything else is passed over.
pub open spec fn reply_ok(msg: JsonValue, expected_id: u64, s: ReplyStep) -> bool {
    if ju64(jget(msg, "id"@)) == Some(expected_id) {
        if jget(msg, "error"@) is Some {
            s matches ReplyStep::Failed(t) && t@ == "LSP error: "@ + match jstr(
                jget(jget(msg, "error"@)->0, "message"@),
            ) {
                Some(m) => m,
                None => "unknown error"@,
            }
        } else {
            s matches ReplyStep::Reply(v) && v == match jget(msg, "result"@) {
                Some(r) => r,
                None => JsonValue::Null,
            }
        }
    } else {
        s is Skip
    }
}

/// Takes the member `key` out of an object's members: the first one so
/// named.
fn take_member(ms: Vec<(String, JsonValue)>, key: &str) -> (r: Option<JsonValue>)
    ensures
        r == member_in(ms@, key@),
{
    let ghost all = ms@;
    let mut rest = ms;
    while rest.len() > 0
        invariant
            all == ms@,
            member_in(all, key@) == member_in(rest@, key@),
        decreases rest.len(),
    {
        let ghost before = rest@;
        let kv = rest.remove(0);
        assert(kv == before[0]);
        assert(rest@ =~= before.drop_first());
        let (k, v) = kv;
        if str_eq(k.as_str(), key) {
            assert(member_in(before, key@) == Some(before[0].1));
            return Some(v);
        }
    }
    None
}

/// Reads one message from a language server while waiting for a response.
pub fn reply_step(msg: JsonValue, expected_id: u64) -> (s: ReplyStep)
    ensures
        reply_ok(msg, expected_id, s),
{
    let id = match msg.get("id") {
        Some(v) => v.as_u64(),
        None => None,
    };
    if id != Some(expected_id) {
        return ReplyStep::Skip;
    }
    match msg.get("error") {
        Some(e) => {
            let mut t = copy_str("LSP error: ");
            match e.get("message") {
                Some(m) => match m.as_string() {
                    Some(text) => push_str(&mut t, text.as_str()),
                    None => push_str(&mut t, "unknown error"),
                },
                None => push_str(&mut t, "unknown error"),
            }
            return ReplyStep::Failed(t);
        },
        None => {},
    }
    match msg {
        JsonValue::Object(ms) => {
            match take_member(ms, "result") {
                Some(v) => ReplyStep::Reply(v),
                None => ReplyStep::Reply(JsonValue::Null),
            }
        },
        _ => ReplyStep::Reply(JsonValue::Null),
    }
}

} // verus!
