use venus::tui_markdown::{parse_inline, render_markdown_line, SpanStyle, StyledSpan};

fn view(v: &[StyledSpan]) -> Vec<(String, SpanStyle)> {
    v.iter().map(|s| (s.text.clone(), s.style)).collect()
}

fn sp(t: &str, s: SpanStyle) -> (String, SpanStyle) {
    (t.to_string(), s)
}

#[test]
fn inline_spans_split_plain_and_styled() {
    let spans = parse_inline("a **b** *c* `d` e");
    assert_eq!(
        view(&spans),
        vec![
            sp("a ", SpanStyle::Plain),
            sp("b", SpanStyle::Bold),
            sp(" ", SpanStyle::Plain),
            sp("c", SpanStyle::Italic),
            sp(" ", SpanStyle::Plain),
            sp("d", SpanStyle::Code),
            sp(" e", SpanStyle::Plain),
        ]
    );
}

#[test]
fn unclosed_markers_stay_plain() {
    assert_eq!(view(&parse_inline("**open and `tick")), vec![sp("**open and `tick", SpanStyle::Plain)]);
    assert!(parse_inline("").is_empty());
    assert_eq!(view(&parse_inline("**x**")), vec![sp("x", SpanStyle::Bold)]);
}

#[test]
fn headings_rules_and_quotes() {
    assert_eq!(view(&render_markdown_line("# Title")), vec![sp("Title", SpanStyle::Heading1)]);
    assert_eq!(view(&render_markdown_line("## Sub")), vec![sp("Sub", SpanStyle::Heading2)]);
    assert_eq!(view(&render_markdown_line("#### Deep")), vec![sp("Deep", SpanStyle::Heading3)]);
    assert_eq!(view(&render_markdown_line("  ***  ")), vec![sp(&"\u{2500}".repeat(40), SpanStyle::Rule)]);
    assert_eq!(
        view(&render_markdown_line("> said")),
        vec![sp("  \u{2502} ", SpanStyle::QuoteBar), sp("said", SpanStyle::Quote)]
    );
}

#[test]
fn list_items() {
    assert_eq!(
        view(&render_markdown_line("- item **x**")),
        vec![sp("  \u{2022} ", SpanStyle::Marker), sp("item ", SpanStyle::Plain), sp("x", SpanStyle::Bold)]
    );
    assert_eq!(
        view(&render_markdown_line("  * sub")),
        vec![sp("    \u{25e6} ", SpanStyle::Marker), sp("sub", SpanStyle::Plain)]
    );
    assert_eq!(
        view(&render_markdown_line("12. twelfth")),
        vec![sp("  12. ", SpanStyle::Marker), sp("twelfth", SpanStyle::Plain)]
    );
    assert_eq!(view(&render_markdown_line("12345. no")), vec![sp("12345. no", SpanStyle::Plain)]);
    assert_eq!(view(&render_markdown_line("ab. no")), vec![sp("ab. no", SpanStyle::Plain)]);
}
