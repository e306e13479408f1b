use venus::markdown::{display_width, format_inline, wrap_line};

#[test]
fn test_format_inline_bold() {
    let result = format_inline("hello **world** end");
    assert!(result.contains("\x1b[1m"));
    assert!(result.contains("world"));
}

#[test]
fn test_format_inline_code() {
    let result = format_inline("use `println!` here");
    assert!(result.contains("\x1b[36m"));
    assert!(result.contains("println!"));
}

#[test]
fn test_format_inline_plain() {
    let result = format_inline("just plain text");
    assert_eq!(result, "just plain text");
}

#[test]
fn test_display_width_ascii() {
    assert_eq!(display_width("hello"), 5);
}

#[test]
fn test_display_width_cjk() {
    assert_eq!(display_width("你好"), 4);
}

#[test]
fn test_display_width_ignores_ansi() {
    assert_eq!(display_width("\x1b[1mhello\x1b[0m"), 5);
    assert_eq!(display_width("\x1b[36m你好\x1b[0m"), 4);
}

#[test]
fn test_wrap_line_no_wrap_needed() {
    let result = wrap_line("short", 80, 0);
    assert_eq!(result, "short");
}

#[test]
fn test_wrap_line_wraps_long_ascii() {
    let text = "a".repeat(20);
    let result = wrap_line(&text, 10, 2);
    assert!(result.contains("\r\n"));
    let lines: Vec<&str> = result.split("\r\n").collect();
    assert_eq!(lines.len(), 3);
}

#[test]
fn test_wrap_line_cjk() {
    let text = "你好世界啊";
    let result = wrap_line(text, 8, 0);
    assert!(result.contains("\r\n"));
}

#[test]
fn test_wrap_line_with_ansi() {
    let text = "\x1b[1mhello world\x1b[0m";
    let result = wrap_line(text, 8, 0);
    assert!(result.contains("\r\n"));
    assert!(result.contains("\x1b[1m"));
}

#[test]
fn format_inline_exact_output() {
    assert_eq!(
        format_inline("a **b** *c* `d` **e"),
        "a \x1b[1mb\x1b[0m \x1b[3mc\x1b[0m \x1b[36md\x1b[0m **e"
    );
    assert_eq!(format_inline("*"), "*");
}

#[test]
fn wrap_line_exact_output() {
    assert_eq!(wrap_line("aaaaaaaaaaaa", 10, 2), "aaaaaaaaaa\r\n  aa");
    // Too narrow for the indent: unchanged.
    assert_eq!(wrap_line("aaaaaaaaaaaa", 6, 2), "aaaaaaaaaaaa");
    // The escapes in force are reset before the break and replayed after it.
    assert_eq!(
        wrap_line("\x1b[1mabcdefghijk", 10, 0),
        "\x1b[1mabcdefghij\x1b[0m\r\n\x1b[1mk"
    );
}

#[test]
fn display_width_of_controls_is_zero() {
    assert_eq!(display_width("a\tb"), 2);
    assert_eq!(display_width(""), 0);
}
