use vstd::prelude::*;

use crate::markdown::{
    bold_at, code_at, find_closing, find_single_closing, italic_at, lemma_closing_char,
    lemma_closing_pair,
};
use crate::text::{
    chars_of, copy_str, find, find_from_exec, is_ascii_digit, push_str, starts_with,
    starts_with_exec, string_from, string_from_range, sub_vec, trim, trim_vec,
};

verus! {

// ---------------------------------------------------------------------------
// Styled spans
// ---------------------------------------------------------------------------

/// How a span of a rendered markdown line is drawn.
#[derive(Debug, Clone, Copy, PartialEq, Eq, Structural)]
pub enum SpanStyle {
    /// Unstyled text.
    Plain,
    /// `**bold**`.
    Bold,
    /// `*italic*`.
    Italic,
    /// `` `code` `` (cyan).
    Code,
    /// `# ` heading (bold yellow).
    Heading1,
    /// `## ` heading (bold blue).
    Heading2,
    /// `### ` and `#### ` headings (bold magenta).
    Heading3,
    /// A horizontal rule (dark gray).
    Rule,
    /// A list bullet or number (theme colour).
    Marker,
    /// The bar before a quote (dark gray).
    QuoteBar,
    /// Quoted text (dark gray italic).
    Quote,
}

/// A piece of a rendered line with its style.
pub struct StyledSpan {
    pub text: String,
    pub style: SpanStyle,
}

/// The spans as plain values.
pub open spec fn span_views(v: Seq<StyledSpan>) -> Seq<(Seq<char>, SpanStyle)> {
    Seq::new(v.len(), |i: int| (v[i].text@, v[i].style))
}

/// The styled span that starts at `i`, if any: its style, where its text
/// starts and ends, and where parsing resumes after it.
pub open spec fn styled_at(c: Seq<char>, i: int) -> Option<(SpanStyle, int, int, int)> {
    if bold_at(c, i) is Some {
        Some((SpanStyle::Bold, i + 2, bold_at(c, i)->0, bold_at(c, i)->0 + 2))
    } else if italic_at(c, i) is Some {
        Some((SpanStyle::Italic, i + 1, italic_at(c, i)->0, italic_at(c, i)->0 + 1))
    } else if code_at(c, i) is Some {
        Some((SpanStyle::Code, i + 1, code_at(c, i)->0, code_at(c, i)->0 + 1))
    } else {
        None
    }
}

/// Pending plain text as a span, if there is any.
pub open spec fn flush(cur: Seq<char>) -> Seq<(Seq<char>, SpanStyle)> {
    if cur.len() > 0 {
        seq![(cur, SpanStyle::Plain)]
    } else {
        Seq::empty()
    }
}

/// The spans of `c[i..]`, with `cur` the plain text read before `i` and not
/// yet emitted: plain runs, then bold, italic and code spans where their
/// markers close; a marker that does not close stays as plain text.
pub open spec fn inline_spans(c: Seq<char>, i: int, cur: Seq<char>) -> Seq<(Seq<char>, SpanStyle)>
    decreases c.len() - i,
{
    if i < 0 || i >= c.len() {
        flush(cur)
    } else {
        match styled_at(c, i) {
            Some((st, lo, hi, next)) => if i < next <= c.len() {
                flush(cur) + seq![(c.subrange(lo, hi), st)] + inline_spans(c, next, Seq::empty())
            } else {
                Seq::empty()
            },
            None => inline_spans(c, i + 1, cur.push(c[i])),
        }
    }
}

proof fn lemma_styled_at(c: Seq<char>, i: int)
    requires
        0 <= i < c.len(),
    ensures
        styled_at(c, i) matches Some((st, lo, hi, next)) ==> i < lo <= hi < next <= c.len(),
{
    lemma_closing_pair(c, i + 2, '*', '*');
    lemma_closing_char(c, i + 1, '*');
    lemma_closing_char(c, i + 1, '`');
}

/// Emits the pending plain text, if any.
fn flush_plain(spans: &mut Vec<StyledSpan>, cur: &mut Vec<char>)
    ensures
        span_views(final(spans)@) == span_views(old(spans)@) + flush(old(cur)@),
        final(cur)@.len() == 0,
{
    if cur.len() > 0 {
        let ghost before = spans@;
        spans.push(StyledSpan { text: string_from(cur), style: SpanStyle::Plain });
        assert(span_views(spans@) =~= span_views(before) + flush(old(cur)@));
        *cur = Vec::new();
    } else {
        assert(span_views(spans@) =~= span_views(spans@) + flush(cur@));
    }
}

/// Inline markdown formatting of a line as styled spans.
pub fn parse_inline(text: &str) -> (r: Vec<StyledSpan>)
    ensures
        span_views(r@) == inline_spans(text@, 0, Seq::empty()),
{
    let chars = chars_of(text);
    let len = chars.len();
    let mut spans: Vec<StyledSpan> = Vec::new();
    let mut cur: Vec<char> = Vec::new();
    let mut i: usize = 0;
    while i < len
        invariant
            len == chars.len(),
            chars@ == text@,
            i <= len,
            span_views(spans@) + inline_spans(chars@, i as int, cur@) == inline_spans(chars@, 0, Seq::empty()),
        decreases len - i,
    {
        proof {
            lemma_styled_at(chars@, i as int);
        }
        let ghost before = span_views(spans@);
        let ghost pending = cur@;
        if i + 1 < len && chars[i] == '*' && chars[i + 1] == '*' {
            if let Some(end) = find_closing(chars.as_slice(), i + 2, &['*', '*']) {
                flush_plain(&mut spans, &mut cur);
                let ghost mid = span_views(spans@);
                let piece = string_from_range(&chars, i + 2, end);
                spans.push(StyledSpan { text: piece, style: SpanStyle::Bold });
                proof {
                    assert(span_views(spans@) =~= mid.push((piece@, SpanStyle::Bold)));
                    assert(cur@ =~= Seq::<char>::empty());
                    assert(styled_at(chars@, i as int) == Some((SpanStyle::Bold, i + 2, end as int, end + 2)));
                    assert(piece@ =~= chars@.subrange(i + 2, end as int));
                }
                assert(span_views(spans@) + inline_spans(chars@, end + 2, cur@) =~= before + inline_spans(
                    chars@,
                    i as int,
                    pending,
                ));
                i = end + 2;
                continue;
            }
        }
        if chars[i] == '*' && (i + 1 >= len || chars[i + 1] != '*') {
            if let Some(end) = find_single_closing(chars.as_slice(), i + 1, '*') {
                flush_plain(&mut spans, &mut cur);
                let ghost mid = span_views(spans@);
                let piece = string_from_range(&chars, i + 1, end);
                spans.push(StyledSpan { text: piece, style: SpanStyle::Italic });
                proof {
                    assert(span_views(spans@) =~= mid.push((piece@, SpanStyle::Italic)));
                    assert(cur@ =~= Seq::<char>::empty());
                    assert(styled_at(chars@, i as int) == Some((SpanStyle::Italic, i + 1, end as int, end + 1)));
                    assert(piece@ =~= chars@.subrange(i + 1, end as int));
                }
                assert(span_views(spans@) + inline_spans(chars@, end + 1, cur@) =~= before + inline_spans(
                    chars@,
                    i as int,
                    pending,
                ));
                i = end + 1;
                continue;
            }
        }
        if chars[i] == '`' {
            if let Some(end) = find_single_closing(chars.as_slice(), i + 1, '`') {
                flush_plain(&mut spans, &mut cur);
                let ghost mid = span_views(spans@);
                let piece = string_from_range(&chars, i + 1, end);
                spans.push(StyledSpan { text: piece, style: SpanStyle::Code });
                proof {
                    assert(span_views(spans@) =~= mid.push((piece@, SpanStyle::Code)));
                    assert(cur@ =~= Seq::<char>::empty());
                    assert(styled_at(chars@, i as int) == Some((SpanStyle::Code, i + 1, end as int, end + 1)));
                    assert(piece@ =~= chars@.subrange(i + 1, end as int));
                }
                assert(span_views(spans@) + inline_spans(chars@, end + 1, cur@) =~= before + inline_spans(
                    chars@,
                    i as int,
                    pending,
                ));
                i = end + 1;
                continue;
            }
        }
        cur.push(chars[i]);
        assert(inline_spans(chars@, i + 1, cur@) == inline_spans(chars@, i as int, pending));
        i = i + 1;
    }
    flush_plain(&mut spans, &mut cur);
    assert(span_views(spans@) =~= inline_spans(chars@, 0, Seq::empty()));
    spans
}


// ---------------------------------------------------------------------------
// Lines
// ---------------------------------------------------------------------------

/// A horizontal rule of 40 box-drawing dashes.
pub open spec fn rule_line() -> Seq<char> {
    Seq::new(40, |i: int| '\u{2500}')
}

/// The characters are all ASCII digits.
pub open spec fn all_digits(s: Seq<char>) -> bool {
    forall|i: int| 0 <= i < s.len() ==> is_ascii_digit(#[trigger] s[i])
}

/// The number of an ordered list item: the text before the first `. `,
/// when that is at most three digits.
pub open spec fn list_number(line: Seq<char>) -> Option<int> {
    match find(line, ". "@) {
        Some(k) => if k <= 3 && all_digits(line.take(k)) {
            Some(k)
        } else {
            None
        },
        None => None,
    }
}

/// The spans of one markdown line: headings, horizontal rules, bulleted,
/// indented and numbered list items, quotes, and otherwise inline formatting.
pub open spec fn markdown_line(line: Seq<char>) -> Seq<(Seq<char>, SpanStyle)> {
    let t = trim(line);
    if starts_with(line, "#### "@) {
        seq![(line.skip(5), SpanStyle::Heading3)]
    } else if starts_with(line, "### "@) {
        seq![(line.skip(4), SpanStyle::Heading3)]
    } else if starts_with(line, "## "@) {
        seq![(line.skip(3), SpanStyle::Heading2)]
    } else if starts_with(line, "# "@) {
        seq![(line.skip(2), SpanStyle::Heading1)]
    } else if t == "---"@ || t == "***"@ || t == "___"@ {
        seq![(rule_line(), SpanStyle::Rule)]
    } else if starts_with(line, "- "@) || starts_with(line, "* "@) {
        seq![("  \u{2022} "@, SpanStyle::Marker)] + inline_spans(line.skip(2), 0, Seq::empty())
    } else if starts_with(line, "  - "@) || starts_with(line, "  * "@) {
        seq![("    \u{25e6} "@, SpanStyle::Marker)] + inline_spans(line.skip(4), 0, Seq::empty())
    } else if list_number(line) is Some {
        let k = list_number(line)->0;
        seq![("  "@ + line.take(k) + ". "@, SpanStyle::Marker)] + inline_spans(line.skip(k + 2), 0, Seq::empty())
    } else if starts_with(line, "> "@) {
        seq![("  \u{2502} "@, SpanStyle::QuoteBar), (line.skip(2), SpanStyle::Quote)]
    } else {
        inline_spans(line, 0, Seq::empty())
    }
}

/// One span.
fn single(text: String, style: SpanStyle) -> (r: Vec<StyledSpan>)
    ensures
        span_views(r@) == seq![(text@, style)],
{
    let mut v: Vec<StyledSpan> = Vec::new();
    v.push(StyledSpan { text, style });
    assert(span_views(v@) =~= seq![(text@, style)]);
    v
}

/// A marker span followed by the inline spans of `rest`.
fn marked(marker: String, rest: &Vec<char>) -> (r: Vec<StyledSpan>)
    ensures
        span_views(r@) == seq![(marker@, SpanStyle::Marker)] + inline_spans(rest@, 0, Seq::empty()),
{
    let mut v = single(marker, SpanStyle::Marker);
    let inner = parse_inline_chars(rest);
    let ghost a = span_views(v@);
    let mut k: usize = 0;
    while k < inner.len()
        invariant
            k <= inner.len(),
            span_views(v@) == a + span_views(inner@).take(k as int),
        decreases inner.len() - k,
    {
        let ghost before = span_views(v@);
        let t = copy_str(inner[k].text.as_str());
        v.push(StyledSpan { text: t, style: inner[k].style });
        assert(span_views(v@) =~= before.push(span_views(inner@)[k as int]));
        assert(span_views(inner@).take(k + 1) =~= span_views(inner@).take(k as int).push(span_views(inner@)[k as int]));
        assert(span_views(v@) =~= a + span_views(inner@).take(k + 1));
        k = k + 1;
    }
    assert(span_views(inner@).take(k as int) =~= span_views(inner@));
    v
}

/// `parse_inline` on characters.
fn parse_inline_chars(c: &Vec<char>) -> (r: Vec<StyledSpan>)
    ensures
        span_views(r@) == inline_spans(c@, 0, Seq::empty()),
{
    let s = string_from(c);
    parse_inline(s.as_str())
}

/// Renders one markdown line as styled spans (see `markdown_line`).
pub fn render_markdown_line(line: &str) -> (r: Vec<StyledSpan>)
    ensures
        span_views(r@) == markdown_line(line@),
{
    let c = chars_of(line);
    let n = c.len();
    proof {
        reveal_strlit("#### ");
        reveal_strlit("### ");
        reveal_strlit("## ");
        reveal_strlit("# ");
        reveal_strlit("- ");
        reveal_strlit("* ");
        reveal_strlit("  - ");
        reveal_strlit("  * ");
        reveal_strlit(". ");
        reveal_strlit("> ");
    }
    if starts_with_exec(&c, &chars_of("#### ")) {
        return single(string_from(&sub_vec(&c, 5, n)), SpanStyle::Heading3);
    }
    if starts_with_exec(&c, &chars_of("### ")) {
        return single(string_from(&sub_vec(&c, 4, n)), SpanStyle::Heading3);
    }
    if starts_with_exec(&c, &chars_of("## ")) {
        return single(string_from(&sub_vec(&c, 3, n)), SpanStyle::Heading2);
    }
    if starts_with_exec(&c, &chars_of("# ")) {
        return single(string_from(&sub_vec(&c, 2, n)), SpanStyle::Heading1);
    }
    let t = trim_vec(&c);
    let ts = string_from(&t);
    if crate::text::str_eq(ts.as_str(), "---") || crate::text::str_eq(ts.as_str(), "***") || crate::text::str_eq(
        ts.as_str(),
        "___",
    ) {
        let mut rule = String::new();
        let mut k: usize = 0;
        while k < 40
            invariant
                k <= 40,
                rule@ == Seq::new(k as nat, |i: int| '\u{2500}'),
            decreases 40 - k,
        {
            crate::text::push_char(&mut rule, '\u{2500}');
            assert(rule@ =~= Seq::new((k + 1) as nat, |i: int| '\u{2500}'));
            k = k + 1;
        }
        return single(rule, SpanStyle::Rule);
    }
    if starts_with_exec(&c, &chars_of("- ")) || starts_with_exec(&c, &chars_of("* ")) {
        return marked(copy_str("  \u{2022} "), &sub_vec(&c, 2, n));
    }
    if starts_with_exec(&c, &chars_of("  - ")) || starts_with_exec(&c, &chars_of("  * ")) {
        return marked(copy_str("    \u{25e6} "), &sub_vec(&c, 4, n));
    }
    let dot = chars_of(". ");
    match find_from_exec(&c, &dot, 0) {
        Some(k) => {
            proof {
                crate::text::lemma_find_from(c@, dot@, 0);
            }
            if k <= 3 {
                let mut digits = true;
                let mut j: usize = 0;
                while j < k
                    invariant
                        j <= k <= 3,
                        k + 2 <= n,
                        n == c.len(),
                        digits == (forall|i: int| 0 <= i < j ==> is_ascii_digit(#[trigger] c@[i])),
                    decreases k - j,
                {
                    if !('0' <= c[j] && c[j] <= '9') {
                        digits = false;
                    }
                    j = j + 1;
                }
                assert(digits == all_digits(c@.take(k as int))) by {
                    if digits {
                        assert forall|i: int| 0 <= i < c@.take(k as int).len() implies is_ascii_digit(#[trigger] c@.take(k as int)[i]) by {
                            assert(c@.take(k as int)[i] == c@[i]);
                        }
                    } else {
                        let i = choose|i: int| 0 <= i < k && !is_ascii_digit(#[trigger] c@[i]);
                        assert(c@.take(k as int)[i] == c@[i]);
                    }
                }
                if digits {
                    let mut m = copy_str("  ");
                    push_str(&mut m, string_from(&sub_vec(&c, 0, k)).as_str());
                    push_str(&mut m, ". ");
                    proof {
                        assert(c@.subrange(0, k as int) =~= c@.take(k as int));
                    }
                    return marked(m, &sub_vec(&c, k + 2, n));
                }
            }
        },
        None => {},
    }
    if starts_with_exec(&c, &chars_of("> ")) {
        let mut v = single(copy_str("  \u{2502} "), SpanStyle::QuoteBar);
        let ghost a = span_views(v@);
        let rest = string_from(&sub_vec(&c, 2, n));
        v.push(StyledSpan { text: rest, style: SpanStyle::Quote });
        assert(span_views(v@) =~= a.push((rest@, SpanStyle::Quote)));
        return v;
    }
    parse_inline(line)
}

} // verus!
