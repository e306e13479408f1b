use venus::md_stream::{render_plain_block, MarkdownStream, RenderOutput};

fn text(s: &str) -> RenderOutput {
    RenderOutput::Text(s.to_string())
}

#[test]
fn stream_renders_header_line() {
    let mut md = MarkdownStream::new(80);
    let out = md.push("# Title\n");
    assert_eq!(out, vec![text("\x1b[1;33mTitle\x1b[0m\r\n")]);
    assert_eq!(md.buffered(), (0, 0));
}

#[test]
fn stream_buffers_partial_line_until_newline() {
    let mut md = MarkdownStream::new(80);
    assert!(md.push("Hello **wor").is_empty());
    assert_eq!(md.buffered(), (11, 0));
    let out = md.push("ld**\n");
    assert_eq!(out, vec![text("Hello \x1b[1mworld\x1b[0m\r\n")]);
}

#[test]
fn stream_split_deltas_match_whole_text() {
    let whole = "- one\n2. two\nplain\n";
    let mut a = MarkdownStream::new(40);
    let all = a.push(whole);
    let mut b = MarkdownStream::new(40);
    let mut parts = b.push("- o");
    parts.extend(b.push("ne\n2. t"));
    parts.extend(b.push("wo\nplain\n"));
    assert_eq!(all, parts);
    assert_eq!(all.len(), 3);
    assert_eq!(all[0], text("  \x1b[36m\u{2022}\x1b[0m one\r\n"));
    assert_eq!(all[1], text("  \x1b[36m2.\x1b[0m two\r\n"));
    assert_eq!(all[2], text("plain\r\n"));
}

#[test]
fn stream_collects_fenced_code_block() {
    let mut md = MarkdownStream::new(80);
    let out = md.push("```rust \nfn main() {}\n\nlet x = 1;\r\n```\nafter\n");
    assert_eq!(
        out,
        vec![
            RenderOutput::CodeBlock(
                "rust".to_string(),
                vec!["fn main() {}".to_string(), "".to_string(), "let x = 1;\r".to_string()]
            ),
            text("after\r\n"),
        ]
    );
}

#[test]
fn stream_code_block_lines_are_not_formatted() {
    let mut md = MarkdownStream::new(80);
    let out = md.push("```\n# not a header\n**x**\n```\n");
    assert_eq!(
        out,
        vec![RenderOutput::CodeBlock(
            String::new(),
            vec!["# not a header".to_string(), "**x**".to_string()]
        )]
    );
}

#[test]
fn stream_thinking_lines_are_dimmed() {
    let mut md = MarkdownStream::new(80);
    let out = md.push_thinking("let me think\nmore");
    assert_eq!(out, vec![text("\x1b[2mlet me think\x1b[0m\r\n")]);
    assert_eq!(md.buffered(), (0, 4));
    // The first response text ends the thinking: its last line, then a blank line.
    let out = md.push("Answer\n");
    assert_eq!(
        out,
        vec![text("\x1b[2mmore\x1b[0m\r\n"), text("\r\n"), text("Answer\r\n")]
    );
    // Later response text has no thinking left to end.
    assert_eq!(md.push("x\n"), vec![text("x\r\n")]);
}

#[test]
fn stream_thinking_wraps_to_width() {
    let mut md = MarkdownStream::new(10);
    let out = md.push_thinking("abcdefghijkl\n");
    assert_eq!(out, vec![text("\x1b[2mabcdefghij\r\nkl\x1b[0m\r\n")]);
}

#[test]
fn stream_finish_flushes_line_and_open_block() {
    let mut md = MarkdownStream::new(80);
    assert!(md.push("tail").is_empty());
    assert_eq!(md.finish(), vec![text("tail\r\n")]);
    assert!(md.push("```py\nprint(1)").is_empty());
    assert_eq!(
        md.finish(),
        vec![RenderOutput::CodeBlock("py".to_string(), vec!["print(1)".to_string()])]
    );
    // Finishing again writes nothing.
    assert!(md.finish().is_empty());
    assert_eq!(md.buffered(), (0, 0));
}

#[test]
fn stream_finish_after_thinking_only() {
    let mut md = MarkdownStream::new(80);
    assert!(md.push_thinking("hmm").is_empty());
    assert_eq!(md.finish(), vec![text("\x1b[2mhmm\x1b[0m\r\n"), text("\r\n")]);
}

#[test]
fn plain_block_with_language() {
    let lines = vec!["a = 1\r".to_string(), "b".to_string()];
    assert_eq!(
        render_plain_block("py", &lines),
        "\x1b[2;36m  \u{256d}\u{2500} py\x1b[0m\r\n  \x1b[2m\u{2502}\x1b[0m \x1b[37ma = 1\x1b[0m\r\n  \x1b[2m\u{2502}\x1b[0m \x1b[37mb\x1b[0m\r\n\x1b[2;36m  \u{2570}\u{2500}\x1b[0m\r\n"
    );
}

#[test]
fn plain_block_without_language() {
    assert_eq!(
        render_plain_block("", &Vec::new()),
        "\x1b[2;36m  \u{256d}\u{2500}\x1b[0m\r\n\x1b[2;36m  \u{2570}\u{2500}\x1b[0m\r\n"
    );
}
