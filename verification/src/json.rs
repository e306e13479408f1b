use vstd::prelude::*;

use crate::tasks::{decimal, decimal_string};
use crate::text::{chars_of, copy_str, push_char, push_str, str_eq};

verus! {

// ---------------------------------------------------------------------------
// JSON values
// ---------------------------------------------------------------------------

/// A JSON number: its value when it is a non-negative integer that fits
/// in `u64`, and its text.
pub struct JsonNumber {
    pub as_u64: Option<u64>,
    pub text: String,
}

/// A JSON value. An object's members are kept in order, each key once.
pub enum JsonValue {
    Null,
    Bool(bool),
    Number(JsonNumber),
    String(String),
    Array(Vec<JsonValue>),
    Object(Vec<(String, JsonValue)>),
}

/// The value of the first member named `key` among `ms`.
pub open spec fn member_in(ms: Seq<(String, JsonValue)>, key: Seq<char>) -> Option<JsonValue>
    decreases ms.len(),
{
    if ms.len() == 0 {
        None
    } else if ms[0].0@ == key {
        Some(ms[0].1)
    } else {
        member_in(ms.drop_first(), key)
    }
}

/// `v[key]` for an object `v`; `None` for a missing member or a non-object.
pub open spec fn jget(v: JsonValue, key: Seq<char>) -> Option<JsonValue> {
    match v {
        JsonValue::Object(ms) => member_in(ms@, key),
        _ => None,
    }
}

/// `v?[key]`.
pub open spec fn jget_in(v: Option<JsonValue>, key: Seq<char>) -> Option<JsonValue> {
    match v {
        Some(x) => jget(x, key),
        None => None,
    }
}

/// The characters of a string value.
pub open spec fn jstr(v: Option<JsonValue>) -> Option<Seq<char>> {
    match v {
        Some(JsonValue::String(s)) => Some(s@),
        _ => None,
    }
}

/// The value of a non-negative integer that fits in `u64`.
pub open spec fn ju64(v: Option<JsonValue>) -> Option<u64> {
    match v {
        Some(JsonValue::Number(n)) => n.as_u64,
        _ => None,
    }
}

/// The characters of an optional string.
pub open spec fn opt_chars(s: Option<String>) -> Option<Seq<char>> {
    match s {
        Some(x) => Some(x@),
        None => None,
    }
}

impl JsonValue {
    /// The member named `key` of an object (`None` for other values).
    pub fn get(&self, key: &str) -> (r: Option<&JsonValue>)
        ensures
            match r {
                Some(x) => jget(*self, key@) == Some(*x),
                None => jget(*self, key@) is None,
            },
    {
        match self {
            JsonValue::Object(ms) => {
                assert(jget(*self, key@) == member_in(ms@, key@));
                let mut i: usize = 0;
                assert(ms@.skip(0) =~= ms@);
                while i < ms.len()
                    invariant
                        i <= ms.len(),
                        member_in(ms@, key@) == member_in(ms@.skip(i as int), key@),
                        jget(*self, key@) == member_in(ms@, key@),
                    decreases ms.len() - i,
                {
                    assert(ms@.skip(i as int).drop_first() =~= ms@.skip(i + 1));
                    assert(ms@.skip(i as int)[0] == ms@[i as int]);
                    if str_eq(ms[i].0.as_str(), key) {
                        assert(jget(*self, key@) == member_in(ms@, key@));
                        return Some(&ms[i].1);
                    }
                    i = i + 1;
                }
                assert(ms@.skip(i as int).len() == 0);
                None
            },
            _ => None,
        }
    }

    /// A copy of the text of a string value.
    pub fn as_string(&self) -> (r: Option<String>)
        ensures
            opt_chars(r) == jstr(Some(*self)),
    {
        match self {
            JsonValue::String(s) => Some(copy_str(s.as_str())),
            _ => None,
        }
    }

    /// The value of a non-negative integer that fits in `u64`.
    pub fn as_u64(&self) -> (r: Option<u64>)
        ensures
            r == ju64(Some(*self)),
    {
        match self {
            JsonValue::Number(n) => n.as_u64,
            _ => None,
        }
    }
}

/// `v?[key]` as a string.
pub fn str_member(v: Option<&JsonValue>, key: &str) -> (r: Option<String>)
    ensures
        opt_chars(r) == jstr(jget_in(
            match v {
                Some(x) => Some(*x),
                None => None,
            },
            key@,
        )),
{
    match v {
        Some(x) => match x.get(key) {
            Some(m) => m.as_string(),
            None => None,
        },
        None => None,
    }
}

/// `v?[key]` as a `u64`.
pub fn u64_member(v: Option<&JsonValue>, key: &str) -> (r: Option<u64>)
    ensures
        r == ju64(jget_in(
            match v {
                Some(x) => Some(*x),
                None => None,
            },
            key@,
        )),
{
    match v {
        Some(x) => match x.get(key) {
            Some(m) => m.as_u64(),
            None => None,
        },
        None => None,
    }
}

/// What `serde_json::to_string_pretty` writes for the value that
/// `serde_json::from_str` reads from `text`, `null` where `text` is not JSON.
pub uninterp spec fn json_pretty(text: Seq<char>) -> Seq<char>;

/// `serde_json::from_str::<serde_json::Value>(text)`, `Value::Null` where that
/// fails, written out by `serde_json::to_string_pretty`. The result is named,
/// not stated: it is serde_json's formatting of the parsed value.
#[verifier::external_body]
pub(crate) fn pretty_json(text: &str) -> (r: String)
    ensures
        r@ == json_pretty(text@),
{
    let v: serde_json::Value = serde_json::from_str(text).unwrap_or(serde_json::Value::Null);
    serde_json::to_string_pretty(&v).unwrap_or_default()
}


// ---------------------------------------------------------------------------
// JSON text
// ---------------------------------------------------------------------------

/// A hexadecimal digit (lower case).
pub open spec fn hex_digit(d: int) -> char {
    if d < 10 {
        ((d + 48) as u8) as char
    } else {
        ((d + 87) as u8) as char
    }
}

/// How a character stands inside a JSON string: `"` and `\` and the
/// control characters are escaped (`\b \t \n \f \r` by name, the others as
/// `\u00XX`); any other character stands for itself.
pub open spec fn escape_char(c: char) -> Seq<char> {
    if c == '"' {
        seq!['\\', '"']
    } else if c == '\\' {
        seq!['\\', '\\']
    } else if c == '\u{8}' {
        seq!['\\', 'b']
    } else if c == '\t' {
        seq!['\\', 't']
    } else if c == '\n' {
        seq!['\\', 'n']
    } else if c == '\u{c}' {
        seq!['\\', 'f']
    } else if c == '\r' {
        seq!['\\', 'r']
    } else if (c as u32) < 0x20 {
        seq!['\\', 'u', '0', '0', hex_digit(((c as u32) / 16) as int), hex_digit(((c as u32) % 16) as int)]
    } else {
        seq![c]
    }
}

/// The characters of `s`, each escaped.
pub open spec fn escaped(s: Seq<char>) -> Seq<char>
    decreases s.len(),
{
    if s.len() == 0 {
        Seq::empty()
    } else {
        escaped(s.drop_last()) + escape_char(s.last())
    }
}

/// `s` as a JSON string literal.
pub open spec fn quoted(s: Seq<char>) -> Seq<char> {
    seq!['"'] + escaped(s) + seq!['"']
}

/// `serde_json::to_string` of a string slice: `format_escaped_str` in
/// serde_json's `ser.rs` writes it between quotes, escaping `"` and `\`,
/// and the control characters below U+0020 (`\b`, `\t`, `\n`, `\f`, `\r`
/// by name, the others as `\u00` and two lower-case hex digits); every other
/// character stands as it is. Serialising a string cannot fail.
#[verifier::external_body]
pub(crate) fn json_quote(s: &str) -> (r: String)
    ensures
        r@ == quoted(s@),
{
    serde_json::to_string(s).unwrap_or_default()
}

/// The members of an object, `"key":value` separated by commas.
pub open spec fn members_text(ms: Seq<(Seq<char>, Seq<char>)>) -> Seq<char>
    decreases ms.len(),
{
    if ms.len() == 0 {
        Seq::empty()
    } else if ms.len() == 1 {
        quoted(ms[0].0) + seq![':'] + ms[0].1
    } else {
        members_text(ms.drop_last()) + seq![','] + quoted(ms.last().0) + seq![':'] + ms.last().1
    }
}

/// A JSON object with the given members (each value given as JSON text).
pub open spec fn object_text(ms: Seq<(Seq<char>, Seq<char>)>) -> Seq<char> {
    seq!['{'] + members_text(ms) + seq!['}']
}

/// JSON text being written: an object opened and its members so far.
pub struct ObjectWriter {
    pub text: String,
    pub empty: bool,
    pub members: Ghost<Seq<(Seq<char>, Seq<char>)>>,
}

impl ObjectWriter {
    pub open spec fn wf(&self) -> bool {
        &&& self.text@ == seq!['{'] + members_text(self.members@)
        &&& self.empty == (self.members@.len() == 0)
    }

    pub fn new() -> (w: Self)
        ensures
            w.wf(),
            w.members@ == Seq::<(Seq<char>, Seq<char>)>::empty(),
    {
        let mut text = String::new();
        push_char(&mut text, '{');
        let w = ObjectWriter { text, empty: true, members: Ghost(Seq::empty()) };
        assert(w.text@ =~= seq!['{'] + members_text(Seq::empty()));
        w
    }

    /// Adds a member whose value is the JSON text `value`.
    pub fn member(&mut self, key: &str, value: &str)
        requires
            old(self).wf(),
        ensures
            final(self).wf(),
            final(self).members@ == old(self).members@.push((key@, value@)),
    {
        let ghost ms = self.members@;
        if !self.empty {
            push_char(&mut self.text, ',');
        }
        self.empty = false;
        let k = json_quote(key);
        push_str(&mut self.text, k.as_str());
        push_char(&mut self.text, ':');
        push_str(&mut self.text, value);
        self.members = Ghost(ms.push((key@, value@)));
        proof {
            let ms2 = ms.push((key@, value@));
            assert(ms2.drop_last() =~= ms);
            if ms.len() == 0 {
                assert(self.text@ =~= seq!['{'] + members_text(ms2));
            } else {
                assert(self.text@ =~= seq!['{'] + members_text(ms2));
            }
        }
    }

    /// Adds a member whose value is the string `value`.
    pub fn string_member(&mut self, key: &str, value: &str)
        requires
            old(self).wf(),
        ensures
            final(self).wf(),
            final(self).members@ == old(self).members@.push((key@, quoted(value@))),
    {
        let q = json_quote(value);
        self.member(key, q.as_str());
    }

    /// Closes the object and gives its text.
    pub fn finish(self) -> (r: String)
        requires
            self.wf(),
        ensures
            r@ == object_text(self.members@),
    {
        let mut t = self.text;
        push_char(&mut t, '}');
        t
    }
}

/// A count as JSON text.
pub fn count_text(n: usize) -> (r: String)
    ensures
        r@ == decimal(n as nat),
{
    decimal_string(n as u64)
}

/// A boolean as JSON text.
pub open spec fn bool_text(b: bool) -> Seq<char> {
    if b {
        "true"@
    } else {
        "false"@
    }
}


/// The keys and value texts of a list of members.
pub open spec fn pair_views(ps: Seq<(&'static str, String)>) -> Seq<(Seq<char>, Seq<char>)> {
    Seq::new(ps.len(), |i: int| (ps[i].0@, ps[i].1@))
}

/// A JSON object with the given members (each value given as JSON text).
pub fn object_from(pairs: &Vec<(&'static str, String)>) -> (r: String)
    ensures
        r@ == object_text(pair_views(pairs@)),
{
    let mut w = ObjectWriter::new();
    let mut i: usize = 0;
    assert(pair_views(pairs@).take(0) =~= Seq::<(Seq<char>, Seq<char>)>::empty());
    while i < pairs.len()
        invariant
            i <= pairs.len(),
            w.wf(),
            w.members@ == pair_views(pairs@).take(i as int),
        decreases pairs.len() - i,
    {
        w.member(pairs[i].0, pairs[i].1.as_str());
        assert(pair_views(pairs@).take(i + 1) =~= pair_views(pairs@).take(i as int).push(
            (pairs@[i as int].0@, pairs@[i as int].1@),
        ));
        i = i + 1;
    }
    assert(pair_views(pairs@).take(i as int) =~= pair_views(pairs@));
    w.finish()
}

} // verus!
