use vstd::prelude::*;

use crate::json::{jget, jget_in, jstr, ju64, JsonValue};
use crate::text::{chars_of, copy_str, push_str, starts_with, starts_with_exec, str_eq, string_from, sub_vec};

verus! {

/// A source location returned by LSP operations (lines and characters counted from 1).
pub struct LspLocation {
    pub file: String,
    pub line: u32,
    pub character: u32,
    pub end_line: Option<u32>,
    pub end_character: Option<u32>,
}

/// A symbol returned by document/workspace symbol operations.
pub struct LspSymbol {
    pub name: String,
    pub kind: String,
    pub location: LspLocation,
}

/// Result of an LSP operation.
pub enum LspResult {
    Locations(Vec<LspLocation>),
    Hover(String),
    Symbols(Vec<LspSymbol>),
    Error(String),
}

/// The language server for a file extension: its command and arguments.
pub open spec fn server_for(ext: Seq<char>) -> Option<(Seq<char>, Seq<Seq<char>>)> {
    if ext == "rs"@ {
        Some(("rust-analyzer"@, Seq::empty()))
    } else if ext == "ts"@ || ext == "tsx"@ || ext == "js"@ || ext == "jsx"@ {
        Some(("typescript-language-server"@, seq!["--stdio"@]))
    } else if ext == "py"@ {
        Some(("pylsp"@, Seq::empty()))
    } else if ext == "go"@ {
        Some(("gopls"@, seq!["serve"@]))
    } else if ext == "java"@ {
        Some(("jdtls"@, Seq::empty()))
    } else {
        None
    }
}

/// The language server for a file with the given extension (none without
/// one): its command and arguments.
pub fn detect_language_server(extension: Option<&str>) -> (r: Option<(&'static str, Vec<&'static str>)>)
    ensures
        match extension {
            None => r is None,
            Some(ext) => match server_for(ext@) {
                None => r is None,
                Some((cmd, args)) => r matches Some((c, a)) && c@ == cmd && a@.len() == args.len()
                    && forall|i: int| 0 <= i < args.len() ==> (#[trigger] a@[i])@ == args[i],
            },
        },
{
    let ext = match extension {
        Some(e) => e,
        None => {
            return None;
        },
    };
    if str_eq(ext, "rs") {
        Some(("rust-analyzer", Vec::new()))
    } else if str_eq(ext, "ts") || str_eq(ext, "tsx") || str_eq(ext, "js") || str_eq(ext, "jsx") {
        let mut a: Vec<&'static str> = Vec::new();
        a.push("--stdio");
        Some(("typescript-language-server", a))
    } else if str_eq(ext, "py") {
        Some(("pylsp", Vec::new()))
    } else if str_eq(ext, "go") {
        let mut a: Vec<&'static str> = Vec::new();
        a.push("serve");
        Some(("gopls", a))
    } else if str_eq(ext, "java") {
        Some(("jdtls", Vec::new()))
    } else {
        None
    }
}

/// The LSP language id of a file extension.
pub open spec fn language_id(ext: Seq<char>) -> Seq<char> {
    if ext == "rs"@ {
        "rust"@
    } else if ext == "ts"@ {
        "typescript"@
    } else if ext == "tsx"@ {
        "typescriptreact"@
    } else if ext == "js"@ {
        "javascript"@
    } else if ext == "jsx"@ {
        "javascriptreact"@
    } else if ext == "py"@ {
        "python"@
    } else if ext == "go"@ {
        "go"@
    } else if ext == "java"@ {
        "java"@
    } else {
        "plaintext"@
    }
}

/// The LSP language id of a file extension (`plaintext` for others).
pub fn ext_to_language_id(ext: &str) -> (r: &'static str)
    ensures
        r@ == language_id(ext@),
{
    if str_eq(ext, "rs") {
        "rust"
    } else if str_eq(ext, "ts") {
        "typescript"
    } else if str_eq(ext, "tsx") {
        "typescriptreact"
    } else if str_eq(ext, "js") {
        "javascript"
    } else if str_eq(ext, "jsx") {
        "javascriptreact"
    } else if str_eq(ext, "py") {
        "python"
    } else if str_eq(ext, "go") {
        "go"
    } else if str_eq(ext, "java") {
        "java"
    } else {
        "plaintext"
    }
}

/// The `file://` URI of an absolute path.
pub fn path_to_uri(abs_path: &str) -> (r: String)
    ensures
        r@ == "file://"@ + abs_path@,
{
    let mut r = copy_str("file://");
    push_str(&mut r, abs_path);
    r
}

/// The path of a `file://` URI; another URI as it is.
pub open spec fn path_of_uri(uri: Seq<char>) -> Seq<char> {
    if starts_with(uri, "file://"@) {
        uri.skip(7)
    } else {
        uri
    }
}

/// The path of a `file://` URI; another URI as it is.
pub fn uri_to_path(uri: &str) -> (r: String)
    ensures
        r@ == path_of_uri(uri@),
{
    let u = chars_of(uri);
    let p = chars_of("file://");
    proof {
        reveal_strlit("file://");
    }
    if starts_with_exec(&u, &p) {
        let rest = sub_vec(&u, 7, u.len());
        assert(rest@ =~= u@.skip(7));
        string_from(&rest)
    } else {
        string_from(&u)
    }
}

/// The names of the LSP symbol kinds 1 to 26.
pub open spec fn symbol_kinds() -> Seq<Seq<char>> {
    seq![
        "File"@,
        "Module"@,
        "Namespace"@,
        "Package"@,
        "Class"@,
        "Method"@,
        "Property"@,
        "Field"@,
        "Constructor"@,
        "Enum"@,
        "Interface"@,
        "Function"@,
        "Variable"@,
        "Constant"@,
        "String"@,
        "Number"@,
        "Boolean"@,
        "Array"@,
        "Object"@,
        "Key"@,
        "Null"@,
        "EnumMember"@,
        "Struct"@,
        "Event"@,
        "Operator"@,
        "TypeParameter"@,
    ]
}

/// The name of an LSP symbol kind; `Unknown` outside 1 to 26.
pub open spec fn symbol_kind(kind: u32) -> Seq<char> {
    if 1 <= kind <= 26 {
        symbol_kinds()[kind - 1]
    } else {
        "Unknown"@
    }
}

fn kind_name(kind: u32) -> (r: &'static str)
    ensures
        r@ == symbol_kind(kind),
{
    match kind {
        1 => "File",
        2 => "Module",
        3 => "Namespace",
        4 => "Package",
        5 => "Class",
        6 => "Method",
        7 => "Property",
        8 => "Field",
        9 => "Constructor",
        10 => "Enum",
        11 => "Interface",
        12 => "Function",
        13 => "Variable",
        14 => "Constant",
        15 => "String",
        16 => "Number",
        17 => "Boolean",
        18 => "Array",
        19 => "Object",
        20 => "Key",
        21 => "Null",
        22 => "EnumMember",
        23 => "Struct",
        24 => "Event",
        25 => "Operator",
        26 => "TypeParameter",
        _ => "Unknown",
    }
}

/// The name of an LSP symbol kind.
pub fn symbol_kind_name(kind: u32) -> (r: String)
    ensures
        r@ == symbol_kind(kind),
{
    copy_str(kind_name(kind))
}


// ---------------------------------------------------------------------------
// Reading responses
// ---------------------------------------------------------------------------

/// A location as plain values.
pub struct LocModel {
    pub file: Seq<char>,
    pub line: u32,
    pub character: u32,
    pub end_line: Option<u32>,
    pub end_character: Option<u32>,
}

pub open spec fn loc_model(l: LspLocation) -> LocModel {
    LocModel { file: l.file@, line: l.line, character: l.character, end_line: l.end_line, end_character: l.end_character }
}

pub open spec fn loc_models(ls: Seq<LspLocation>) -> Seq<LocModel> {
    Seq::new(ls.len(), |i: int| loc_model(ls[i]))
}

/// A zero-based LSP position number made one-based (as `u32`, wrapping).
pub open spec fn one_based(n: u64) -> u32 {
    let x = n as u32;
    if x == u32::MAX {
        0
    } else {
        (x + 1) as u32
    }
}

fn one_based_exec(n: u64) -> (r: u32)
    ensures
        r == one_based(n),
{
    let x = n as u32;
    if x == u32::MAX {
        0
    } else {
        x + 1
    }
}

/// `v` as a one-based position, 1 when it is missing or not a number.
pub open spec fn pos_or_first(v: Option<JsonValue>) -> u32 {
    one_based(
        match ju64(v) {
            Some(n) => n,
            None => 0,
        },
    )
}

/// `v` as a one-based position, if it is a number.
pub open spec fn pos_opt(v: Option<JsonValue>) -> Option<u32> {
    match ju64(v) {
        Some(n) => Some(one_based(n)),
        None => None,
    }
}

/// The location in `file` that an LSP range (`start`, `end`) spans.
pub open spec fn range_location(file: Seq<char>, range: JsonValue) -> LocModel {
    let start = jget(range, "start"@);
    let end = jget(range, "end"@);
    LocModel {
        file,
        line: pos_or_first(jget_in(start, "line"@)),
        character: pos_or_first(jget_in(start, "character"@)),
        end_line: pos_opt(jget_in(end, "line"@)),
        end_character: pos_opt(jget_in(end, "character"@)),
    }
}

/// The first of two optional values that is there.
pub open spec fn first_of(a: Option<JsonValue>, b: Option<JsonValue>) -> Option<JsonValue> {
    match a {
        Some(x) => Some(x),
        None => b,
    }
}

/// The location of a `Location` (`uri`, `range`) or a `LocationLink`
/// (`targetUri`, `targetSelectionRange` or else `targetRange`).
pub open spec fn item_location(item: JsonValue) -> Option<LocModel> {
    let (uri, range) = match jget(item, "targetUri"@) {
        Some(t) => (Some(t), first_of(jget(item, "targetSelectionRange"@), jget(item, "targetRange"@))),
        None => (jget(item, "uri"@), jget(item, "range"@)),
    };
    match (jstr(uri), range) {
        (Some(u), Some(r)) => Some(range_location(path_of_uri(u), r)),
        _ => None,
    }
}

/// The locations of the items that have one, in order.
pub open spec fn item_locations(items: Seq<JsonValue>) -> Seq<LocModel>
    decreases items.len(),
{
    if items.len() == 0 {
        Seq::empty()
    } else {
        let r = item_locations(items.drop_last());
        match item_location(items.last()) {
            Some(l) => r.push(l),
            None => r,
        }
    }
}

/// The locations of a response: an array of locations or links, or a single one.
pub open spec fn response_locations(result: JsonValue) -> Seq<LocModel> {
    match result {
        JsonValue::Array(arr) => item_locations(arr@),
        JsonValue::Object(_) => item_locations(seq![result]),
        _ => Seq::empty(),
    }
}

fn num_or(v: Option<&JsonValue>, key: &str) -> (r: Option<u64>)
    ensures
        r == ju64(jget_in(
            match v {
                Some(x) => Some(*x),
                None => None,
            },
            key@,
        )),
{
    crate::json::u64_member(v, key)
}

/// The location in `file` that a range spans.
fn location_in_range(file: String, range: &JsonValue) -> (r: LspLocation)
    ensures
        loc_model(r) == range_location(file@, *range),
{
    let start = range.get("start");
    let end = range.get("end");
    let line: u64 = match num_or(start, "line") {
        Some(n) => n,
        None => 0,
    };
    let character: u64 = match num_or(start, "character") {
        Some(n) => n,
        None => 0,
    };
    LspLocation {
        file,
        line: one_based_exec(line),
        character: one_based_exec(character),
        end_line: match num_or(end, "line") {
            Some(n) => Some(one_based_exec(n)),
            None => None,
        },
        end_character: match num_or(end, "character") {
            Some(n) => Some(one_based_exec(n)),
            None => None,
        },
    }
}

fn location_of_item(item: &JsonValue) -> (r: Option<LspLocation>)
    ensures
        match r {
            Some(l) => item_location(*item) == Some(loc_model(l)),
            None => item_location(*item) is None,
        },
{
    let (uri, range) = match item.get("targetUri") {
        Some(t) => (
            Some(t),
            match item.get("targetSelectionRange") {
                Some(x) => Some(x),
                None => item.get("targetRange"),
            },
        ),
        None => (item.get("uri"), item.get("range")),
    };
    let u = match uri {
        Some(x) => x.as_string(),
        None => None,
    };
    match (u, range) {
        (Some(u), Some(r)) => Some(location_in_range(uri_to_path(u.as_str()), r)),
        _ => None,
    }
}

fn locations_of_items(items: &Vec<JsonValue>) -> (r: Vec<LspLocation>)
    ensures
        loc_models(r@) == item_locations(items@),
{
    let mut out: Vec<LspLocation> = Vec::new();
    let mut i: usize = 0;
    while i < items.len()
        invariant
            i <= items.len(),
            loc_models(out@) == item_locations(items@.take(i as int)),
        decreases items.len() - i,
    {
        assert(items@.take(i + 1).drop_last() =~= items@.take(i as int));
        assert(items@.take(i + 1).last() == items@[i as int]);
        let ghost before = out@;
        match location_of_item(&items[i]) {
            Some(l) => {
                out.push(l);
                assert(loc_models(out@) =~= loc_models(before).push(loc_model(l)));
            },
            None => {},
        }
        i = i + 1;
    }
    assert(items@.take(i as int) =~= items@);
    out
}

/// The locations in a definition or references response.
pub fn parse_locations(result: &JsonValue) -> (r: Vec<LspLocation>)
    ensures
        loc_models(r@) == response_locations(*result),
{
    match result {
        JsonValue::Array(arr) => {
            assert(response_locations(*result) == item_locations(arr@));
            locations_of_items(arr)
        },
        JsonValue::Object(_) => {
            assert(response_locations(*result) == item_locations(seq![*result]));
            let mut out: Vec<LspLocation> = Vec::new();
            match location_of_item(result) {
                Some(l) => {
                    out.push(l);
                    assert(loc_models(out@) =~= seq![loc_model(l)]);
                },
                None => {
                    assert(loc_models(out@) =~= Seq::<LocModel>::empty());
                },
            }
            assert(seq![*result].drop_last() =~= Seq::<JsonValue>::empty());
            assert(seq![*result].last() == *result);
            assert(item_locations(Seq::<JsonValue>::empty()) == Seq::<LocModel>::empty());
            out
        },
        _ => {
            let out: Vec<LspLocation> = Vec::new();
            assert(loc_models(out@) =~= Seq::<LocModel>::empty());
            out
        },
    }
}

/// The location of a `Location` (`uri`, `range` with a `start`).
pub open spec fn single_location(loc: JsonValue) -> Option<LocModel> {
    match (jstr(jget(loc, "uri"@)), jget(loc, "range"@)) {
        (Some(u), Some(range)) => if jget(range, "start"@) is Some {
            Some(range_location(path_of_uri(u), range))
        } else {
            None
        },
        _ => None,
    }
}

/// The location of a `Location`, if it has a URI and a range with a start.
pub fn parse_single_location(loc: &JsonValue) -> (r: Option<LspLocation>)
    ensures
        match r {
            Some(l) => single_location(*loc) == Some(loc_model(l)),
            None => single_location(*loc) is None,
        },
{
    let uri = match loc.get("uri") {
        Some(u) => match u.as_string() {
            Some(s) => s,
            None => {
                return None;
            },
        },
        None => {
            return None;
        },
    };
    let range = match loc.get("range") {
        Some(r) => r,
        None => {
            return None;
        },
    };
    if range.get("start").is_none() {
        return None;
    }
    Some(location_in_range(uri_to_path(uri.as_str()), range))
}


/// Texts joined with a blank line between them.
pub open spec fn join_paragraphs(ls: Seq<Seq<char>>) -> Seq<char>
    decreases ls.len(),
{
    if ls.len() == 0 {
        Seq::empty()
    } else if ls.len() == 1 {
        ls[0]
    } else {
        join_paragraphs(ls.drop_last()) + "\n\n"@ + ls.last()
    }
}

/// The texts of the marked strings among `items`: a string as it is, an
/// object by its `value` string; anything else is left out.
pub open spec fn marked_texts(items: Seq<JsonValue>) -> Seq<Seq<char>>
    decreases items.len(),
{
    if items.len() == 0 {
        Seq::empty()
    } else {
        let r = marked_texts(items.drop_last());
        match items.last() {
            JsonValue::String(t) => r.push(t@),
            JsonValue::Object(_) => match jstr(jget(items.last(), "value"@)) {
                Some(t) => r.push(t),
                None => r,
            },
            _ => r,
        }
    }
}

/// How a null, boolean or number prints.
pub open spec fn scalar_text(v: JsonValue) -> Seq<char> {
    match v {
        JsonValue::Bool(b) => if b {
            "true"@
        } else {
            "false"@
        },
        JsonValue::Number(n) => n.text@,
        _ => "null"@,
    }
}

/// The text of a hover response.
pub open spec fn hover_text(result: JsonValue) -> Seq<char> {
    if result is Null {
        "No hover information available."@
    } else {
        let contents = match jget(result, "contents"@) {
            Some(c) => c,
            None => result,
        };
        match contents {
            JsonValue::String(t) => t@,
            JsonValue::Object(_) => match jstr(jget(contents, "value"@)) {
                Some(t) => t,
                None => Seq::empty(),
            },
            JsonValue::Array(arr) => join_paragraphs(marked_texts(arr@)),
            _ => scalar_text(contents),
        }
    }
}

/// The text of a hover response: its contents as a string, a marked string
/// or markup (its value), or marked strings joined by blank lines.
pub fn parse_hover(result: &JsonValue) -> (r: String)
    ensures
        r@ == hover_text(*result),
{
    match result {
        JsonValue::Null => {
            return copy_str("No hover information available.");
        },
        _ => {},
    }
    let contents = match result.get("contents") {
        Some(c) => c,
        None => result,
    };
    match contents {
        JsonValue::String(t) => copy_str(t.as_str()),
        JsonValue::Object(_) => match contents.get("value") {
            Some(v) => match v.as_string() {
                Some(t) => t,
                None => String::new(),
            },
            None => String::new(),
        },
        JsonValue::Array(arr) => {
            let mut out = String::new();
            let mut count: usize = 0;
            let mut i: usize = 0;
            while i < arr.len()
                invariant
                    i <= arr.len(),
                    count == marked_texts(arr@.take(i as int)).len(),
                    count <= i,
                    out@ == join_paragraphs(marked_texts(arr@.take(i as int))),
                decreases arr.len() - i,
            {
                let ghost pre = arr@.take(i as int);
                let ghost cur = arr@.take(i + 1);
                assert(cur.drop_last() =~= pre);
                assert(cur.last() == arr@[i as int]);
                let piece: Option<String> = match &arr[i] {
                    JsonValue::String(t) => Some(copy_str(t.as_str())),
                    JsonValue::Object(_) => match arr[i].get("value") {
                        Some(v) => v.as_string(),
                        None => None,
                    },
                    _ => None,
                };
                match piece {
                    Some(t) => {
                        let ghost before = marked_texts(pre);
                        assert(marked_texts(cur) == before.push(t@));
                        if count > 0 {
                            push_str(&mut out, "\n\n");
                        }
                        push_str(&mut out, t.as_str());
                        proof {
                            let after = before.push(t@);
                            if before.len() == 0 {
                                assert(after =~= seq![t@]);
                                assert(out@ =~= t@);
                            } else {
                                assert(after.drop_last() =~= before);
                            }
                        }
                        count = count + 1;
                    },
                    None => {
                        assert(marked_texts(cur) == marked_texts(pre));
                    },
                }
                i = i + 1;
            }
            assert(arr@.take(i as int) =~= arr@);
            out
        },
        JsonValue::Bool(b) => if *b {
            copy_str("true")
        } else {
            copy_str("false")
        },
        JsonValue::Number(n) => copy_str(n.text.as_str()),
        JsonValue::Null => copy_str("null"),
    }
}


/// A symbol as plain values.
pub struct SymModel {
    pub name: Seq<char>,
    pub kind: Seq<char>,
    pub location: LocModel,
}

pub open spec fn sym_model(s: LspSymbol) -> SymModel {
    SymModel { name: s.name@, kind: s.kind@, location: loc_model(s.location) }
}

pub open spec fn sym_models(ss: Seq<LspSymbol>) -> Seq<SymModel> {
    Seq::new(ss.len(), |i: int| sym_model(ss[i]))
}

/// Where a symbol is: its `location` (a `SymbolInformation`), or else its
/// `selectionRange` or `range` in the document (a `DocumentSymbol`).
pub open spec fn symbol_location(item: JsonValue) -> Option<LocModel> {
    match jget(item, "location"@) {
        Some(loc) => single_location(loc),
        None => match first_of(jget(item, "selectionRange"@), jget(item, "range"@)) {
            Some(r) => Some(range_location(Seq::empty(), r)),
            None => None,
        },
    }
}

/// The symbol an item describes, if it says where it is.
pub open spec fn item_symbol(item: JsonValue) -> Option<SymModel> {
    match symbol_location(item) {
        Some(l) => Some(
            SymModel {
                name: match jstr(jget(item, "name"@)) {
                    Some(t) => t,
                    None => Seq::empty(),
                },
                kind: symbol_kind(
                    (match ju64(jget(item, "kind"@)) {
                        Some(k) => k,
                        None => 0,
                    }) as u32,
                ),
                location: l,
            },
        ),
        None => None,
    }
}

/// A member's value is one of the members.
pub proof fn lemma_member_in(ms: Seq<(String, JsonValue)>, key: Seq<char>)
    ensures
        crate::json::member_in(ms, key) matches Some(x) ==> exists|k: int| 0 <= k < ms.len() && #[trigger] ms[k].1 == x,
    decreases ms.len(),
{
    if ms.len() > 0 && ms[0].0@ != key {
        lemma_member_in(ms.drop_first(), key);
        if crate::json::member_in(ms.drop_first(), key) is Some {
            let x = crate::json::member_in(ms.drop_first(), key)->0;
            let k = choose|k: int| 0 <= k < ms.drop_first().len() && #[trigger] ms.drop_first()[k].1 == x;
            assert(ms[k + 1].1 == x);
        }
    }
}

/// The symbols of a response, each item followed by those of its children.
pub open spec fn symbols_in(v: JsonValue) -> Seq<SymModel>
    decreases v, 0nat,
{
    match v {
        JsonValue::Array(arr) => symbols_from(arr@, arr@.len() as int),
        _ => Seq::empty(),
    }
}

/// The symbols of the first `n` items.
pub open spec fn symbols_from(items: Seq<JsonValue>, n: int) -> Seq<SymModel>
    decreases items, n,
{
    if n <= 0 || n > items.len() {
        Seq::empty()
    } else {
        let item = items[n - 1];
        let here = match item_symbol(item) {
            Some(sym) => seq![sym],
            None => Seq::empty(),
        };
        let below = match item {
            JsonValue::Object(ms) => match crate::json::member_in(ms@, "children"@) {
                Some(ch) => {
                    proof {
                        lemma_member_in(ms@, "children"@);
                        let k = choose|k: int| 0 <= k < ms@.len() && #[trigger] ms@[k].1 == ch;
                        assert(decreases_to!(items => item));
                        assert(decreases_to!(item => ms));
                        assert(decreases_to!(ms => ms@));
                        assert(decreases_to!(ms@ => ms@[k]));
                        assert(decreases_to!(ms@[k] => ms@[k].1));
                    }
                    symbols_in(ch)
                },
                None => Seq::empty(),
            },
            _ => Seq::empty(),
        };
        symbols_from(items, n - 1) + here + below
    }
}


fn symbol_of_item(item: &JsonValue) -> (r: Option<LspSymbol>)
    ensures
        match r {
            Some(sym) => item_symbol(*item) == Some(sym_model(sym)),
            None => item_symbol(*item) is None,
        },
{
    let location = match item.get("location") {
        Some(loc) => parse_single_location(loc),
        None => {
            let range = match item.get("selectionRange") {
                Some(x) => Some(x),
                None => item.get("range"),
            };
            match range {
                Some(r) => Some(location_in_range(String::new(), r)),
                None => None,
            }
        },
    };
    match location {
        Some(l) => {
            let name = match item.get("name") {
                Some(v) => match v.as_string() {
                    Some(t) => t,
                    None => String::new(),
                },
                None => String::new(),
            };
            let k: u64 = match item.get("kind") {
                Some(v) => match v.as_u64() {
                    Some(k) => k,
                    None => 0,
                },
                None => 0,
            };
            Some(LspSymbol { name, kind: symbol_kind_name(k as u32), location: l })
        },
        None => None,
    }
}

/// The symbols of a document or workspace symbols response, in order,
/// each followed by the symbols of its children.
pub fn parse_symbols(result: &JsonValue) -> (r: Vec<LspSymbol>)
    ensures
        sym_models(r@) == symbols_in(*result),
    decreases *result,
{
    match result {
        JsonValue::Array(items) => {
            let mut out: Vec<LspSymbol> = Vec::new();
            let mut i: usize = 0;
            assert(sym_models(out@) =~= symbols_from(items@, 0));
            while i < items.len()
                invariant
                    i <= items.len(),
                    *result == JsonValue::Array(*items),
                    sym_models(out@) == symbols_from(items@, i as int),
                decreases items.len() - i,
            {
                let item = &items[i];
                let ghost before = sym_models(out@);
                match symbol_of_item(item) {
                    Some(sym) => {
                        out.push(sym);
                        assert(sym_models(out@) =~= before.push(sym_model(sym)));
                    },
                    None => {},
                }
                let ghost mid = sym_models(out@);
                let mut below: Vec<LspSymbol> = Vec::new();
                match item {
                    JsonValue::Object(ms) => {
                        match item.get("children") {
                            Some(ch) => {
                                proof {
                                    lemma_member_in(ms@, "children"@);
                                    let k = choose|k: int| 0 <= k < ms@.len() && #[trigger] ms@[k].1 == *ch;
                                    assert(result->Array_0 == *items);
                                    assert(decreases_to!(*result => result->Array_0));
                                    assert(decreases_to!(result->Array_0 => result->Array_0@));
                                    assert(decreases_to!(items@ => items@[i as int]));
                                    assert(decreases_to!(items@[i as int] => *ms));
                                    assert(decreases_to!(*ms => ms@));
                                    assert(decreases_to!(ms@ => ms@[k]));
                                    assert(decreases_to!(ms@[k] => ms@[k].1));
                                }
                                below = parse_symbols(ch);
                            },
                            None => {},
                        }
                    },
                    _ => {},
                }
                let ghost b = below@;
                let ghost pre_append = out@;
                out.append(&mut below);
                assert(sym_models(out@) =~= sym_models(pre_append) + sym_models(b));
                i = i + 1;
            }
            out
        },
        _ => Vec::new(),
    }
}

} // verus!
