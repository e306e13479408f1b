use venus::json::{JsonNumber, JsonValue};
use venus::lsp::{parse_hover, parse_locations, parse_single_location, parse_symbols};

fn s(t: &str) -> JsonValue {
    JsonValue::String(t.to_string())
}

fn n(v: u64) -> JsonValue {
    JsonValue::Number(JsonNumber { as_u64: Some(v), text: v.to_string() })
}

fn obj(ms: Vec<(&str, JsonValue)>) -> JsonValue {
    JsonValue::Object(ms.into_iter().map(|(k, v)| (k.to_string(), v)).collect())
}

fn pos(line: u64, ch: u64) -> JsonValue {
    obj(vec![("line", n(line)), ("character", n(ch))])
}

fn range(l0: u64, c0: u64, l1: u64, c1: u64) -> JsonValue {
    obj(vec![("start", pos(l0, c0)), ("end", pos(l1, c1))])
}

#[test]
fn locations_from_array_and_links() {
    let result = JsonValue::Array(vec![
        obj(vec![("uri", s("file:///src/main.rs")), ("range", range(9, 4, 9, 8))]),
        obj(vec![
            ("targetUri", s("file:///src/lib.rs")),
            ("targetRange", range(0, 0, 20, 1)),
            ("targetSelectionRange", range(3, 7, 3, 12)),
        ]),
        obj(vec![("uri", n(5)), ("range", range(1, 1, 1, 1))]),
    ]);
    let locs = parse_locations(&result);
    assert_eq!(locs.len(), 2);
    assert_eq!(locs[0].file, "/src/main.rs");
    assert_eq!((locs[0].line, locs[0].character), (10, 5));
    assert_eq!((locs[0].end_line, locs[0].end_character), (Some(10), Some(9)));
    assert_eq!(locs[1].file, "/src/lib.rs");
    assert_eq!((locs[1].line, locs[1].character), (4, 8));
}

#[test]
fn single_location_object_and_nothing() {
    let one = obj(vec![("uri", s("file:///a.rs")), ("range", obj(vec![("start", pos(0, 0))]))]);
    let locs = parse_locations(&one);
    assert_eq!(locs.len(), 1);
    assert_eq!(locs[0].end_line, None);
    assert!(parse_locations(&JsonValue::Null).is_empty());
    let l = parse_single_location(&one).unwrap();
    assert_eq!((l.line, l.character), (1, 1));
    assert!(parse_single_location(&obj(vec![("uri", s("x")), ("range", obj(vec![]))])).is_none());
}

#[test]
fn hover_texts() {
    assert_eq!(parse_hover(&JsonValue::Null), "No hover information available.");
    let markup = obj(vec![("contents", obj(vec![("kind", s("markdown")), ("value", s("fn main()"))]))]);
    assert_eq!(parse_hover(&markup), "fn main()");
    let list = obj(vec![(
        "contents",
        JsonValue::Array(vec![s("first"), obj(vec![("language", s("rust")), ("value", s("second"))]), n(3)]),
    )]);
    assert_eq!(parse_hover(&list), "first\n\nsecond");
    assert_eq!(parse_hover(&obj(vec![("contents", s("plain"))])), "plain");
    assert_eq!(parse_hover(&obj(vec![("contents", JsonValue::Bool(true))])), "true");
}

#[test]
fn symbols_with_children_follow_their_parent() {
    let result = JsonValue::Array(vec![
        obj(vec![
            ("name", s("Outer")),
            ("kind", n(5)),
            ("range", range(0, 0, 10, 0)),
            ("selectionRange", range(0, 6, 0, 11)),
            (
                "children",
                JsonValue::Array(vec![obj(vec![("name", s("inner")), ("kind", n(6)), ("range", range(2, 4, 4, 5))])]),
            ),
        ]),
        obj(vec![
            ("name", s("helper")),
            ("kind", n(12)),
            ("location", obj(vec![("uri", s("file:///h.rs")), ("range", range(7, 0, 9, 1))])),
        ]),
        obj(vec![("name", s("nowhere")), ("kind", n(99))]),
    ]);
    let syms = parse_symbols(&result);
    assert_eq!(syms.len(), 3);
    assert_eq!((syms[0].name.as_str(), syms[0].kind.as_str()), ("Outer", "Class"));
    assert_eq!((syms[0].location.line, syms[0].location.character), (1, 7));
    assert_eq!(syms[0].location.file, "");
    assert_eq!((syms[1].name.as_str(), syms[1].kind.as_str()), ("inner", "Method"));
    assert_eq!(syms[1].location.line, 3);
    assert_eq!((syms[2].name.as_str(), syms[2].kind.as_str()), ("helper", "Function"));
    assert_eq!(syms[2].location.file, "/h.rs");
    assert!(parse_symbols(&obj(vec![])).is_empty());
}
