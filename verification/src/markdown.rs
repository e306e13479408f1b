use vstd::prelude::*;

use unicode_width::UnicodeWidthChar;

use crate::text::{ascii_alpha, chars_eq, chars_of, is_ascii_alpha, starts_with, sub_vec, push_char, push_range, push_str};

verus! {

// ---------------------------------------------------------------------------
// Character display widths
// ---------------------------------------------------------------------------

/// The number of terminal columns that `unicode-width` assigns to `c`
/// (`None` for a control character).
pub uninterp spec fn unicode_char_width(c: char) -> Option<usize>;

/// The control characters: below U+0020, and from U+007F up to U+00A0.
pub open spec fn is_control_char(c: char) -> bool {
    (c as u32) < 0x20 || (0x7F <= (c as u32) && (c as u32) < 0xA0)
}

/// Printable ASCII: U+0020 up to U+007F.
pub open spec fn is_printable_ascii(c: char) -> bool {
    0x20 <= (c as u32) && (c as u32) < 0x7F
}

/// A width of at most three columns.
pub open spec fn narrow_enough(r: Option<usize>) -> bool {
    r matches Some(w) && w <= 3
}

/// `UnicodeWidthChar::width` of the `unicode-width` crate. Its source gives
/// `None` for the control characters, one column for printable ASCII, and
/// otherwise a width read from its tables, which hold at most 3. What the
/// tables hold is named `unicode_char_width`.
#[verifier::external_body]
pub(crate) fn char_width(c: char) -> (r: Option<usize>)
    ensures
        r == unicode_char_width(c),
        is_control_char(c) ==> r is None,
        is_printable_ascii(c) ==> r == Some(1usize),
        !is_control_char(c) && !is_printable_ascii(c) ==> narrow_enough(r),
{
    c.width()
}

/// The columns that a character takes (control characters take none).
pub open spec fn cols(c: char) -> int {
    match unicode_char_width(c) {
        Some(w) => w as int,
        None => 0,
    }
}

pub proof fn lemma_cols_bound(c: char)
    requires
        unicode_char_width(c) matches Some(w) ==> w <= 3,
    ensures
        0 <= cols(c) <= 3,
{
}

/// Scans the first `n` characters of `s`, skipping ANSI escape sequences (an
/// ESC up to and including the next ASCII letter): the columns counted so far
/// and whether the scan stands inside an escape sequence.
pub open spec fn ansi_scan(s: Seq<char>, n: int) -> (int, bool)
    decreases n,
{
    if n <= 0 {
        (0, false)
    } else {
        let (w, esc) = ansi_scan(s, n - 1);
        let ch = s[n - 1];
        if esc {
            (w, !is_ascii_alpha(ch))
        } else if ch == '\x1b' {
            (w, true)
        } else {
            (w + cols(ch), false)
        }
    }
}

/// The display width of a string: the columns of its characters outside
/// ANSI escape sequences.
pub open spec fn display_width_spec(s: Seq<char>) -> int {
    ansi_scan(s, s.len() as int).0
}

/// Calculate the display width of a string, ignoring ANSI escape sequences
/// and accounting for CJK double-width characters.
pub fn display_width(s: &str) -> (width: usize)
    requires
        s@.len() <= usize::MAX / 3,
    ensures
        width == display_width_spec(s@),
{
    let chars = chars_of(s);
    let mut width: usize = 0;
    let mut in_escape = false;
    let mut i: usize = 0;
    while i < chars.len()
        invariant
            i <= chars.len(),
            chars@ == s@,
            chars.len() <= usize::MAX / 3,
            (width as int, in_escape) == ansi_scan(s@, i as int),
            width <= 3 * i,
        decreases chars.len() - i,
    {
        let ch = chars[i];
        if in_escape {
            if ascii_alpha(ch) {
                in_escape = false;
            }
        } else if ch == '\x1b' {
            in_escape = true;
        } else {
            let w = match char_width(ch) {
                Some(w) => w,
                None => 0,
            };
            width = width + w;
        }
        i = i + 1;
    }
    width
}

// ---------------------------------------------------------------------------
// Inline formatting
// ---------------------------------------------------------------------------

/// The first `j` at or after `start` where `m0` is followed by `m1`.
pub open spec fn closing_pair(c: Seq<char>, start: int, m0: char, m1: char) -> Option<int>
    decreases c.len() - start,
{
    if start < 0 || start + 1 >= c.len() {
        None
    } else if c[start] == m0 && c[start + 1] == m1 {
        Some(start)
    } else {
        closing_pair(c, start + 1, m0, m1)
    }
}

/// The first `j` at or after `start` where `c[j]` is `m`.
pub open spec fn closing_char(c: Seq<char>, start: int, m: char) -> Option<int>
    decreases c.len() - start,
{
    if start < 0 || start >= c.len() {
        None
    } else if c[start] == m {
        Some(start)
    } else {
        closing_char(c, start + 1, m)
    }
}

pub proof fn lemma_closing_pair(c: Seq<char>, start: int, m0: char, m1: char)
    ensures
        closing_pair(c, start, m0, m1) matches Some(j) ==> start <= j && j + 1 < c.len(),
    decreases c.len() - start,
{
    if start >= 0 && start + 1 < c.len() && !(c[start] == m0 && c[start + 1] == m1) {
        lemma_closing_pair(c, start + 1, m0, m1);
    }
}

pub proof fn lemma_closing_char(c: Seq<char>, start: int, m: char)
    ensures
        closing_char(c, start, m) matches Some(j) ==> start <= j < c.len(),
    decreases c.len() - start,
{
    if start >= 0 && start < c.len() && c[start] != m {
        lemma_closing_char(c, start + 1, m);
    }
}

/// Find the first position at or after `start` where the two-character `marker` begins.
pub fn find_closing(chars: &[char], start: usize, marker: &[char; 2]) -> (r: Option<usize>)
    ensures
        r matches Some(j) ==> closing_pair(chars@, start as int, marker[0], marker[1]) == Some(
            j as int,
        ),
        r is None ==> closing_pair(chars@, start as int, marker[0], marker[1]) is None,
{
    let mut j = start;
    while j < chars.len() && j + 1 < chars.len()
        invariant
            start <= j,
            closing_pair(chars@, start as int, marker[0], marker[1]) == closing_pair(
                chars@,
                j as int,
                marker[0],
                marker[1],
            ),
        decreases chars.len() - j,
    {
        if chars[j] == marker[0] && chars[j + 1] == marker[1] {
            return Some(j);
        }
        j = j + 1;
    }
    None
}

/// Find the first position at or after `start` holding `marker`.
pub fn find_single_closing(chars: &[char], start: usize, marker: char) -> (r: Option<usize>)
    ensures
        r matches Some(j) ==> closing_char(chars@, start as int, marker) == Some(j as int),
        r is None ==> closing_char(chars@, start as int, marker) is None,
{
    let mut j = start;
    while j < chars.len()
        invariant
            start <= j,
            closing_char(chars@, start as int, marker) == closing_char(chars@, j as int, marker),
        decreases chars.len() - j,
    {
        if chars[j] == marker {
            return Some(j);
        }
        j = j + 1;
    }
    None
}

/// The bold span that starts at `i` (`**` .. `**`), by its closing position.
pub open spec fn bold_at(c: Seq<char>, i: int) -> Option<int> {
    if i + 1 < c.len() && c[i] == '*' && c[i + 1] == '*' {
        closing_pair(c, i + 2, '*', '*')
    } else {
        None
    }
}

/// The italic span that starts at `i` (a lone `*` .. `*`), by its closing position.
pub open spec fn italic_at(c: Seq<char>, i: int) -> Option<int> {
    if 0 <= i < c.len() && c[i] == '*' && (i + 1 >= c.len() || c[i + 1] != '*') {
        closing_char(c, i + 1, '*')
    } else {
        None
    }
}

/// The code span that starts at `i` (`` ` `` .. `` ` ``), by its closing position.
pub open spec fn code_at(c: Seq<char>, i: int) -> Option<int> {
    if 0 <= i < c.len() && c[i] == '`' {
        closing_char(c, i + 1, '`')
    } else {
        None
    }
}

/// The styled span that starts at `i`, if any: its ANSI style, where its
/// text starts and ends, and where formatting resumes after it.
pub open spec fn span_at(c: Seq<char>, i: int) -> Option<(Seq<char>, int, int, int)> {
    if bold_at(c, i) is Some {
        Some(("\x1b[1m"@, i + 2, bold_at(c, i)->0, bold_at(c, i)->0 + 2))
    } else if italic_at(c, i) is Some {
        Some(("\x1b[3m"@, i + 1, italic_at(c, i)->0, italic_at(c, i)->0 + 1))
    } else if code_at(c, i) is Some {
        Some(("\x1b[36m"@, i + 1, code_at(c, i)->0, code_at(c, i)->0 + 1))
    } else {
        None
    }
}

/// Inline markdown formatting of `c[i..]`: `**bold**`, `*italic*` and
/// `` `code` `` spans become ANSI-styled text; an opening marker without a
/// closing one stays as it is.
pub open spec fn format_from(c: Seq<char>, i: int) -> Seq<char>
    decreases c.len() - i,
{
    if i < 0 || i >= c.len() {
        Seq::empty()
    } else {
        match span_at(c, i) {
            Some((style, lo, hi, next)) => if i < next <= c.len() {
                style + c.subrange(lo, hi) + "\x1b[0m"@ + format_from(c, next)
            } else {
                Seq::empty()
            },
            None => seq![c[i]] + format_from(c, i + 1),
        }
    }
}

/// Spans close inside the text, after they open.
pub proof fn lemma_span_at(c: Seq<char>, i: int)
    requires
        0 <= i < c.len(),
    ensures
        span_at(c, i) matches Some((style, lo, hi, next)) ==> i < lo <= hi < next <= c.len(),
{
    lemma_closing_pair(c, i + 2, '*', '*');
    lemma_closing_char(c, i + 1, '*');
    lemma_closing_char(c, i + 1, '`');
}

/// Apply inline markdown formatting to a line of text.
pub fn format_inline(text: &str) -> (r: String)
    ensures
        r@ == format_from(text@, 0),
{
    let chars = chars_of(text);
    let len = chars.len();
    let mut result = String::new();
    let mut i: usize = 0;
    while i < len
        invariant
            len == chars.len(),
            chars@ == text@,
            i <= len,
            result@ + format_from(chars@, i as int) == format_from(chars@, 0),
        decreases len - i,
    {
        proof {
            lemma_span_at(chars@, i as int);
        }
        if i + 1 < len && chars[i] == '*' && chars[i + 1] == '*' {
            if let Some(end) = find_closing(chars.as_slice(), i + 2, &['*', '*']) {
                let ghost before = result@;
                push_str(&mut result, "\x1b[1m");
                push_range(&mut result, &chars, i + 2, end);
                push_str(&mut result, "\x1b[0m");
                assert(result@ + format_from(chars@, end + 2) =~= before + format_from(
                    chars@,
                    i as int,
                ));
                i = end + 2;
                continue;
            }
        }
        if chars[i] == '*' && (i + 1 >= len || chars[i + 1] != '*') {
            if let Some(end) = find_single_closing(chars.as_slice(), i + 1, '*') {
                let ghost before = result@;
                push_str(&mut result, "\x1b[3m");
                push_range(&mut result, &chars, i + 1, end);
                push_str(&mut result, "\x1b[0m");
                assert(result@ + format_from(chars@, end + 1) =~= before + format_from(
                    chars@,
                    i as int,
                ));
                i = end + 1;
                continue;
            }
        }
        if chars[i] == '`' {
            if let Some(end) = find_single_closing(chars.as_slice(), i + 1, '`') {
                let ghost before = result@;
                push_str(&mut result, "\x1b[36m");
                push_range(&mut result, &chars, i + 1, end);
                push_str(&mut result, "\x1b[0m");
                assert(result@ + format_from(chars@, end + 1) =~= before + format_from(
                    chars@,
                    i as int,
                ));
                i = end + 1;
                continue;
            }
        }
        let ghost before = result@;
        push_char(&mut result, chars[i]);
        assert(result@ + format_from(chars@, i + 1) =~= before + format_from(chars@, i as int));
        i = i + 1;
    }
    assert(result@ =~= format_from(chars@, 0));
    result
}

// ---------------------------------------------------------------------------
// Wrapping
// ---------------------------------------------------------------------------

/// The character views of a list of character vectors.
pub open spec fn views(a: Seq<Vec<char>>) -> Seq<Seq<char>> {
    Seq::new(a.len(), |i: int| a[i]@)
}

/// The active escape sequences, each replayed with its ESC.
pub open spec fn replay(active: Seq<Seq<char>>) -> Seq<char>
    decreases active.len(),
{
    if active.len() == 0 {
        Seq::empty()
    } else {
        replay(active.drop_last()) + seq!['\x1b'] + active.last()
    }
}

/// `n` spaces.
pub open spec fn spaces(n: int) -> Seq<char> {
    Seq::new(n as nat, |i: int| ' ')
}

/// One character of wrapping. The state is `(output, columns on the current
/// line, on the first line, inside an escape, the escape read so far, the
/// escapes in force)`. An escape ends at an ASCII letter and is copied to
/// the output; `[0m` resets the escapes in force, any other joins them. A
/// visible character that does not fit on a non-empty line starts a new
/// line: the escapes are reset (when any is in force), `\r\n`, the indent,
/// and the escapes in force replayed.
pub open spec fn wrap_step(
    st: (Seq<char>, int, bool, bool, Seq<char>, Seq<Seq<char>>),
    ch: char,
    max_width: int,
    indent: int,
) -> (Seq<char>, int, bool, bool, Seq<char>, Seq<Seq<char>>) {
    let (out, cur, first, in_esc, esc, active) = st;
    if in_esc {
        let e = esc.push(ch);
        if is_ascii_alpha(ch) {
            let act = if e == "[0m"@ {
                Seq::<Seq<char>>::empty()
            } else {
                active.push(e)
            };
            (out.push('\x1b') + e, cur, first, false, Seq::empty(), act)
        } else {
            (out, cur, first, true, e, active)
        }
    } else if ch == '\x1b' {
        (out, cur, first, true, Seq::empty(), active)
    } else {
        let w = cols(ch);
        let available = if first {
            max_width
        } else {
            max_width - indent
        };
        if cur + w > available && cur > 0 {
            let reset = if active.len() > 0 {
                "\x1b[0m"@
            } else {
                Seq::empty()
            };
            let broken = out + reset + "\r\n"@ + spaces(indent) + replay(active);
            (broken.push(ch), w, false, false, esc, active)
        } else {
            (out.push(ch), cur + w, first, false, esc, active)
        }
    }
}

/// The wrapping state after the first `n` characters of `s`.
pub open spec fn wrap_run(s: Seq<char>, n: int, max_width: int, indent: int) -> (
    Seq<char>,
    int,
    bool,
    bool,
    Seq<char>,
    Seq<Seq<char>>,
)
    decreases n,
{
    if n <= 0 {
        (Seq::empty(), 0, true, false, Seq::empty(), Seq::empty())
    } else {
        wrap_step(wrap_run(s, n - 1, max_width, indent), s[n - 1], max_width, indent)
    }
}

/// `text` wrapped to `max_width` columns with continuation lines indented by
/// `indent`; unchanged when `max_width` leaves no room past the indent.
pub open spec fn wrap_line_spec(text: Seq<char>, max_width: int, indent: int) -> Seq<char> {
    if max_width <= indent + 4 {
        text
    } else {
        wrap_run(text, text.len() as int, max_width, indent).0
    }
}

/// Appends the line break that `wrap_step` writes.
fn push_break(result: &mut String, indent: usize, active: &Vec<Vec<char>>)
    ensures
        final(result)@ == old(result)@ + (if active.len() > 0 {
            "\x1b[0m"@
        } else {
            Seq::empty()
        }) + "\r\n"@ + spaces(indent as int) + replay(views(active@)),
{
    let ghost base = result@ + (if active.len() > 0 {
        "\x1b[0m"@
    } else {
        Seq::empty()
    }) + "\r\n"@;
    if active.len() > 0 {
        push_str(result, "\x1b[0m");
    }
    push_str(result, "\r\n");
    assert(result@ =~= base);
    let mut k: usize = 0;
    while k < indent
        invariant
            k <= indent,
            result@ == base + spaces(k as int),
        decreases indent - k,
    {
        push_char(result, ' ');
        k = k + 1;
        assert(result@ =~= base + spaces(k as int));
    }
    let ghost base2 = result@;
    let mut a: usize = 0;
    assert(views(active@).take(0) =~= Seq::<Seq<char>>::empty());
    while a < active.len()
        invariant
            a <= active.len(),
            result@ == base2 + replay(views(active@).take(a as int)),
        decreases active.len() - a,
    {
        push_char(result, '\x1b');
        push_range(result, &active[a], 0, active[a].len());
        proof {
            let vs = views(active@);
            assert(vs.take(a + 1).drop_last() =~= vs.take(a as int));
            assert(active@[a as int]@.subrange(0, active@[a as int]@.len() as int) =~= vs[a as int]);
        }
        a = a + 1;
        assert(result@ =~= base2 + replay(views(active@).take(a as int)));
    }
    assert(views(active@).take(active.len() as int) =~= views(active@));
}

/// Wrap a line of text (which may contain ANSI escapes) to fit within `max_width`.
/// Continuation lines are indented by `indent` spaces.
/// Uses \r\n for line breaks (required when terminal is in raw mode).
pub fn wrap_line(text: &str, max_width: usize, indent: usize) -> (r: String)
    requires
        indent + 4 <= usize::MAX,
        text@.len() <= usize::MAX / 3,
    ensures
        r@ == wrap_line_spec(text@, max_width as int, indent as int),
{
    let chars = chars_of(text);
    if max_width <= indent + 4 {
        return crate::text::string_from(&chars);
    }
    let reset_code = chars_of("[0m");
    let mut result = String::new();
    let mut current_width: usize = 0;
    let mut first_line = true;
    let mut in_escape = false;
    let mut escape_buf: Vec<char> = Vec::new();
    let mut active_escapes: Vec<Vec<char>> = Vec::new();
    let mut i: usize = 0;
    while i < chars.len()
        invariant
            i <= chars.len(),
            chars@ == text@,
            chars.len() <= usize::MAX / 3,
            max_width > indent + 4,
            reset_code@ == "[0m"@,
            current_width <= 3 * i,
            (result@, current_width as int, first_line, in_escape, escape_buf@, views(
                active_escapes@,
            )) == wrap_run(text@, i as int, max_width as int, indent as int),
        decreases chars.len() - i,
    {
        let ch = chars[i];
        let ghost st = wrap_run(text@, i as int, max_width as int, indent as int);
        if in_escape {
            escape_buf.push(ch);
            if ascii_alpha(ch) {
                in_escape = false;
                let esc = escape_buf;
                escape_buf = Vec::new();
                if chars_eq(&esc, &reset_code) {
                    active_escapes = Vec::new();
                } else {
                    active_escapes.push(sub_vec(&esc, 0, esc.len()));
                    proof {
                        assert(esc@.subrange(0, esc@.len() as int) =~= esc@);
                        assert(views(active_escapes@) =~= st.5.push(esc@));
                    }
                }
                assert(views(active_escapes@) =~= wrap_step(st, ch, max_width as int, indent as int).5);
                push_char(&mut result, '\x1b');
                push_range(&mut result, &esc, 0, esc.len());
                assert(esc@.subrange(0, esc@.len() as int) =~= esc@);
            }
        } else if ch == '\x1b' {
            in_escape = true;
            escape_buf = Vec::new();
        } else {
            let ch_width = match char_width(ch) {
                Some(w) => w,
                None => 0,
            };
            let available = if first_line {
                max_width
            } else {
                max_width - indent
            };
            if current_width + ch_width > available && current_width > 0 {
                push_break(&mut result, indent, &active_escapes);
                first_line = false;
                current_width = 0;
            }
            push_char(&mut result, ch);
            current_width = current_width + ch_width;
        }
        i = i + 1;
        assert((result@, current_width as int, first_line, in_escape, escape_buf@, views(
            active_escapes@,
        )) =~~= wrap_step(st, ch, max_width as int, indent as int));
    }
    result
}

// ---------------------------------------------------------------------------
// Laws
// ---------------------------------------------------------------------------

/// A complete ANSI escape sequence: ESC, then non-letters, then one ASCII letter.
pub open spec fn is_escape_sequence(e: Seq<char>) -> bool {
    &&& e.len() >= 2
    &&& e[0] == '\x1b'
    &&& is_ascii_alpha(e.last())
    &&& forall|j: int| 1 <= j < e.len() - 1 ==> !is_ascii_alpha(#[trigger] e[j])
}

proof fn lemma_scan_concat(a: Seq<char>, b: Seq<char>, k: int)
    requires
        !ansi_scan(a, a.len() as int).1,
        0 <= k <= b.len(),
    ensures
        ansi_scan(a + b, a.len() + k) == (
            ansi_scan(a, a.len() as int).0 + ansi_scan(b, k).0,
            ansi_scan(b, k).1,
        ),
    decreases k,
{
    if k == 0 {
        lemma_scan_prefix(a, b, a.len() as int);
    } else {
        lemma_scan_concat(a, b, k - 1);
        assert((a + b)[a.len() + k - 1] == b[k - 1]);
    }
}

proof fn lemma_scan_prefix(a: Seq<char>, b: Seq<char>, n: int)
    requires
        0 <= n <= a.len(),
    ensures
        ansi_scan(a + b, n) == ansi_scan(a, n),
    decreases n,
{
    if n > 0 {
        lemma_scan_prefix(a, b, n - 1);
        assert((a + b)[n - 1] == a[n - 1]);
    }
}

proof fn lemma_escape_scan(e: Seq<char>, k: int)
    requires
        is_escape_sequence(e),
        1 <= k <= e.len(),
    ensures
        ansi_scan(e, k) == (0int, k < e.len()),
    decreases k,
{
    assert(ansi_scan(e, 0) == (0int, false));
    assert(e.last() == e[e.len() - 1]);
    if k > 1 {
        lemma_escape_scan(e, k - 1);
        if k < e.len() {
            assert(!is_ascii_alpha(e[k - 1]));
        }
    }
}

/// Display widths add up over a split that does not cut an escape
/// sequence, and an escape sequence takes no columns: so inserting escape
/// sequences into text between its escapes leaves its width unchanged.
pub proof fn law_display_width_concat(a: Seq<char>, b: Seq<char>)
    requires
        !ansi_scan(a, a.len() as int).1,
    ensures
        display_width_spec(a + b) == display_width_spec(a) + display_width_spec(b),
        !ansi_scan(a + b, (a + b).len() as int).1 <==> !ansi_scan(b, b.len() as int).1,
{
    lemma_scan_concat(a, b, b.len() as int);
}

/// An escape sequence takes no columns and leaves the scan outside escapes.
pub proof fn law_escape_has_no_width(e: Seq<char>)
    requires
        is_escape_sequence(e),
    ensures
        display_width_spec(e) == 0,
        !ansi_scan(e, e.len() as int).1,
{
    lemma_escape_scan(e, e.len() as int);
}

proof fn lemma_scan_no_escape(s: Seq<char>, n: int)
    requires
        0 <= n <= s.len(),
        forall|j: int| 0 <= j < s.len() ==> s[j] != '\x1b',
    ensures
        !ansi_scan(s, n).1,
        0 <= ansi_scan(s, n).0,
        forall|m: int| 0 <= m <= n ==> ansi_scan(s, m).0 <= ansi_scan(s, n).0,
    decreases n,
{
    if n > 0 {
        lemma_scan_no_escape(s, n - 1);
        assert forall|m: int| 0 <= m <= n implies ansi_scan(s, m).0 <= ansi_scan(s, n).0 by {
            if m < n {
                assert(ansi_scan(s, m).0 <= ansi_scan(s, n - 1).0);
            }
        }
    }
}

proof fn lemma_wrap_run_short(s: Seq<char>, n: int, max_width: int, indent: int)
    requires
        0 <= n <= s.len(),
        forall|j: int| 0 <= j < s.len() ==> s[j] != '\x1b',
        display_width_spec(s) <= max_width,
    ensures
        wrap_run(s, n, max_width, indent) == (
            s.take(n),
            ansi_scan(s, n).0,
            true,
            false,
            Seq::<char>::empty(),
            Seq::<Seq<char>>::empty(),
        ),
    decreases n,
{
    lemma_scan_no_escape(s, s.len() as int);
    if n > 0 {
        lemma_wrap_run_short(s, n - 1, max_width, indent);
        lemma_scan_no_escape(s, n);
        lemma_scan_no_escape(s, n - 1);
        assert(ansi_scan(s, n).0 <= ansi_scan(s, s.len() as int).0);
        assert(s[n - 1] != '\x1b');
        assert(ansi_scan(s, n).0 == ansi_scan(s, n - 1).0 + cols(s[n - 1]));
        assert(s.take(n - 1).push(s[n - 1]) =~= s.take(n));
        assert(wrap_run(s, n, max_width, indent) =~~= wrap_step(
            wrap_run(s, n - 1, max_width, indent),
            s[n - 1],
            max_width,
            indent,
        ));
    } else {
        assert(s.take(0) =~= Seq::<char>::empty());
    }
}

/// A line without escapes that fits in `max_width` columns comes back from
/// wrapping unchanged.
pub proof fn law_short_line_unwrapped(text: Seq<char>, max_width: int, indent: int)
    requires
        forall|j: int| 0 <= j < text.len() ==> text[j] != '\x1b',
        display_width_spec(text) <= max_width,
    ensures
        wrap_line_spec(text, max_width, indent) == text,
{
    if max_width > indent + 4 {
        lemma_wrap_run_short(text, text.len() as int, max_width, indent);
        assert(text.take(text.len() as int) =~= text);
    }
}

// ---------------------------------------------------------------------------
// Rendering one line of markdown
// ---------------------------------------------------------------------------

proof fn lemma_format_len(c: Seq<char>, i: int)
    requires
        0 <= i <= c.len(),
    ensures
        format_from(c, i).len() <= 5 * (c.len() - i),
    decreases c.len() - i,
{
    if i < c.len() {
        lemma_span_at(c, i);
        match span_at(c, i) {
            Some((style, lo, hi, next)) => {
                lemma_format_len(c, next);
                reveal_strlit("\x1b[1m");
                reveal_strlit("\x1b[3m");
                reveal_strlit("\x1b[36m");
                reveal_strlit("\x1b[0m");
            },
            None => {
                lemma_format_len(c, i + 1);
            },
        }
    }
}

/// Whether every character is an ASCII digit.
pub open spec fn all_ascii_digits(s: Seq<char>) -> bool {
    forall|j: int| 0 <= j < s.len() ==> '0' <= #[trigger] s[j] <= '9'
}

/// The ordered-list marker of a line: the position of its first `. `, when
/// at most three digits stand before it.
pub open spec fn ordered_marker(line: Seq<char>) -> Option<int> {
    match crate::text::find(line, ". "@) {
        Some(k) => if k <= 3 && all_ascii_digits(line.take(k)) {
            Some(k)
        } else {
            None
        },
        None => None,
    }
}

/// `n` copies of the box-drawing rule character.
pub open spec fn rule_chars(n: int) -> Seq<char> {
    Seq::new(n as nat, |i: int| '\u{2500}')
}

/// Whether the trimmed line is a horizontal rule.
pub open spec fn is_rule(line: Seq<char>) -> bool {
    let t = crate::text::trim(line);
    t == "---"@ || t == "***"@ || t == "___"@
}

/// What a markdown line renders to at `width` columns (before the line
/// break): headers in bold colours, rules as a dimmed line of at most 40
/// columns, bullets and numbered items with a coloured marker and a hanging
/// indent, quotes dimmed and italic, other text with inline formatting; all
/// wrapped.
pub open spec fn rendered_line(line: Seq<char>, width: int) -> Seq<char> {
    let fmt = |t: Seq<char>| format_from(t, 0);
    if starts_with(line, "#### "@) {
        wrap_line_spec("\x1b[1;35m"@ + line.skip(5) + "\x1b[0m"@, width, 0)
    } else if starts_with(line, "### "@) {
        wrap_line_spec("\x1b[1;35m"@ + line.skip(4) + "\x1b[0m"@, width, 0)
    } else if starts_with(line, "## "@) {
        wrap_line_spec("\x1b[1;34m"@ + line.skip(3) + "\x1b[0m"@, width, 0)
    } else if starts_with(line, "# "@) {
        wrap_line_spec("\x1b[1;33m"@ + line.skip(2) + "\x1b[0m"@, width, 0)
    } else if is_rule(line) {
        "\x1b[2m"@ + rule_chars(if width < 40 {
            width
        } else {
            40
        }) + "\x1b[0m"@
    } else if starts_with(line, "- "@) || starts_with(line, "* "@) {
        wrap_line_spec("  \x1b[36m\u{2022}\x1b[0m "@ + fmt(line.skip(2)), width, 4)
    } else if starts_with(line, "  - "@) || starts_with(line, "  * "@) {
        wrap_line_spec("    \x1b[36m\u{25e6}\x1b[0m "@ + fmt(line.skip(4)), width, 6)
    } else if ordered_marker(line) is Some {
        let k = ordered_marker(line)->0;
        wrap_line_spec(
            "  \x1b[36m"@ + line.take(k) + ".\x1b[0m "@ + fmt(line.skip(k + 2)),
            width,
            3 + k + 1,
        )
    } else if starts_with(line, "> "@) {
        wrap_line_spec(
            "  \x1b[2m\u{2502}\x1b[0m "@ + "\x1b[3m"@ + fmt(line.skip(2)) + "\x1b[0m"@,
            width,
            4,
        )
    } else {
        wrap_line_spec(fmt(line), width, 0)
    }
}

/// A string made of `a` then `b`.
fn joined2(a: &str, b: &Vec<char>) -> (r: String)
    ensures
        r@ == a@ + b@,
{
    let mut r = crate::text::copy_str(a);
    push_range(&mut r, b, 0, b.len());
    assert(b@.subrange(0, b@.len() as int) =~= b@);
    r
}

/// Markdown headers render without their `#` marker, the rest of the line
/// in the header's bold colour and wrapped at the width: level 1 yellow,
/// level 2 blue, levels 3 and 4 magenta.
pub proof fn law_headers_render_styled(line: Seq<char>, width: int)
    ensures
        starts_with(line, "# "@) ==> rendered_line(line, width) == wrap_line_spec(
            "\x1b[1;33m"@ + line.skip(2) + "\x1b[0m"@,
            width,
            0,
        ),
        starts_with(line, "## "@) ==> rendered_line(line, width) == wrap_line_spec(
            "\x1b[1;34m"@ + line.skip(3) + "\x1b[0m"@,
            width,
            0,
        ),
        starts_with(line, "### "@) ==> rendered_line(line, width) == wrap_line_spec(
            "\x1b[1;35m"@ + line.skip(4) + "\x1b[0m"@,
            width,
            0,
        ),
        starts_with(line, "#### "@) ==> rendered_line(line, width) == wrap_line_spec(
            "\x1b[1;35m"@ + line.skip(5) + "\x1b[0m"@,
            width,
            0,
        ),
{
    reveal_strlit("# ");
    reveal_strlit("## ");
    reveal_strlit("### ");
    reveal_strlit("#### ");
    if starts_with(line, "# "@) {
        assert(line.subrange(0, 2)[1] == line[1]);
        assert("# "@[1] == ' ');
    }
    if starts_with(line, "## "@) {
        assert(line.subrange(0, 3)[2] == line[2]);
        assert(line[2] == ' ');
    }
    if starts_with(line, "### "@) {
        assert(line.subrange(0, 4)[3] == line[3]);
        assert(line.subrange(0, 4)[2] == line[2]);
        assert(line[3] == ' ');
    }
    if starts_with(line, "#### "@) {
        assert(line.subrange(0, 5)[3] == line[3]);
        assert(line.subrange(0, 5)[2] == line[2]);
        assert(line.subrange(0, 5)[1] == line[1]);
    }
    if starts_with(line, "## "@) && starts_with(line, "### "@) {
        assert(line.subrange(0, 4)[2] == line[2]);
    }
    if starts_with(line, "# "@) && starts_with(line, "## "@) {
        assert(line.subrange(0, 3)[1] == line[1]);
    }
    if starts_with(line, "# "@) && (starts_with(line, "### "@) || starts_with(line, "#### "@)) {
        assert(line.subrange(0, 4)[1] == line[1]);
    }
    if starts_with(line, "## "@) && starts_with(line, "#### "@) {
        assert(line.subrange(0, 5)[2] == line[2]);
    }
    if starts_with(line, "### "@) && starts_with(line, "#### "@) {
        assert(line.subrange(0, 5)[3] == line[3]);
    }
}

proof fn lemma_trim_keeps_first(s: Seq<char>)
    requires
        s.len() > 0,
        !crate::text::is_ws(s[0]),
    ensures
        crate::text::trim(s).len() <= s.len(),
        forall|j: int| 0 <= j < crate::text::trim(s).len() ==> #[trigger] crate::text::trim(s)[j] == s[j],
        crate::text::trim(s).len() >= 1,
{
    assert(crate::text::ws_prefix_len(s) == 0);
    assert(crate::text::trim_start(s) =~= s);
    crate::text::lemma_ws_suffix_len(s);
    let t = crate::text::trim(s);
    if crate::text::ws_suffix_len(s) == s.len() {
        assert(crate::text::is_ws(s[0]));
    }
}

/// A line whose first character is not white space and whose second is a
/// space is no rule.
proof fn lemma_marker_not_rule(line: Seq<char>)
    requires
        line.len() >= 2,
        !crate::text::is_ws(line[0]),
        line[0] != '-' && line[0] != '*' && line[0] != '_' || line[1] == ' ',
    ensures
        !is_rule(line),
{
    lemma_trim_keeps_first(line);
    let t = crate::text::trim(line);
    reveal_strlit("---");
    reveal_strlit("***");
    reveal_strlit("___");
    if t.len() == 3 {
        assert(t[0] == line[0]);
        assert(t[1] == line[1]);
    }
}

/// A line that starts with neither a digit nor `.` carries no ordered-list
/// marker.
proof fn lemma_no_ordered_marker(line: Seq<char>)
    requires
        line.len() >= 1,
        !('0' <= line[0] <= '9'),
        line[0] != '.',
    ensures
        ordered_marker(line) is None,
{
    crate::text::lemma_find_from(line, ". "@, 0);
    reveal_strlit(". ");
    match crate::text::find(line, ". "@) {
        Some(k) => {
            if k == 0 {
                assert(line.subrange(0, 2)[0] == line[0]);
            } else {
                assert(line.take(k)[0] == line[0]);
            }
        },
        None => {},
    }
}

/// A rule line (`---`, `***` or `___`, white space around allowed) renders
/// as a dimmed line of rule characters as wide as the terminal, at most 40.
pub proof fn law_rule_renders_line(line: Seq<char>, width: int)
    requires
        is_rule(line),
    ensures
        rendered_line(line, width) == "\x1b[2m"@ + rule_chars(if width < 40 {
            width
        } else {
            40
        }) + "\x1b[0m"@,
{
    reveal_strlit("# ");
    reveal_strlit("## ");
    reveal_strlit("### ");
    reveal_strlit("#### ");
    if line.len() > 0 && line[0] == '#' {
        lemma_trim_keeps_first(line);
        reveal_strlit("---");
        reveal_strlit("***");
        reveal_strlit("___");
        let t = crate::text::trim(line);
        if t.len() == 3 {
            assert(t[0] == line[0]);
        }
    }
    if starts_with(line, "#### "@) {
        assert(line.subrange(0, 5)[0] == line[0]);
    }
    if starts_with(line, "### "@) {
        assert(line.subrange(0, 4)[0] == line[0]);
    }
    if starts_with(line, "## "@) {
        assert(line.subrange(0, 3)[0] == line[0]);
    }
    if starts_with(line, "# "@) {
        assert(line.subrange(0, 2)[0] == line[0]);
    }
}

/// A bullet (`- ` or `* `) renders as an indented cyan bullet before the
/// item's formatted text, wrapped at the width with a hanging indent of
/// four; a quote (`> `) renders behind a dimmed bar in italics, indented
/// by four.
pub proof fn law_bullets_and_quotes_render(line: Seq<char>, width: int)
    ensures
        (starts_with(line, "- "@) || starts_with(line, "* "@)) ==> rendered_line(line, width) == wrap_line_spec(
            "  \x1b[36m\u{2022}\x1b[0m "@ + format_from(line.skip(2), 0),
            width,
            4,
        ),
        starts_with(line, "> "@) ==> rendered_line(line, width) == wrap_line_spec(
            "  \x1b[2m\u{2502}\x1b[0m "@ + "\x1b[3m"@ + format_from(line.skip(2), 0) + "\x1b[0m"@,
            width,
            4,
        ),
{
    reveal_strlit("# ");
    reveal_strlit("## ");
    reveal_strlit("### ");
    reveal_strlit("#### ");
    reveal_strlit("- ");
    reveal_strlit("* ");
    reveal_strlit("> ");
    reveal_strlit("  - ");
    reveal_strlit("  * ");
    if starts_with(line, "- "@) || starts_with(line, "* "@) || starts_with(line, "> "@) {
        assert(line.subrange(0, 2)[0] == line[0]);
        assert(line.subrange(0, 2)[1] == line[1]);
        assert(!crate::text::is_ws(line[0]));
        lemma_marker_not_rule(line);
        if line.len() >= 3 {
            assert(line.subrange(0, 3)[0] == line[0]);
        }
        if line.len() >= 4 {
            assert(line.subrange(0, 4)[0] == line[0]);
        }
        if line.len() >= 5 {
            assert(line.subrange(0, 5)[0] == line[0]);
        }
    }
    if starts_with(line, "> "@) {
        lemma_no_ordered_marker(line);
    }
}

/// A line that opens with a letter is plain text: its inline formatting,
/// wrapped at the width without indent.
pub proof fn law_plain_text_renders(line: Seq<char>, width: int)
    requires
        line.len() > 0,
        crate::text::is_ascii_alpha(line[0]),
    ensures
        rendered_line(line, width) == wrap_line_spec(format_from(line, 0), width, 0),
{
    reveal_strlit("# ");
    reveal_strlit("## ");
    reveal_strlit("### ");
    reveal_strlit("#### ");
    reveal_strlit("- ");
    reveal_strlit("* ");
    reveal_strlit("> ");
    reveal_strlit("  - ");
    reveal_strlit("  * ");
    reveal_strlit("---");
    reveal_strlit("***");
    reveal_strlit("___");
    assert(!crate::text::is_ws(line[0]));
    lemma_trim_keeps_first(line);
    let t = crate::text::trim(line);
    if t.len() == 3 {
        assert(t[0] == line[0]);
    }
    lemma_no_ordered_marker(line);
    if line.len() >= 2 {
        assert(line.subrange(0, 2)[0] == line[0]);
    }
    if line.len() >= 3 {
        assert(line.subrange(0, 3)[0] == line[0]);
    }
    if line.len() >= 4 {
        assert(line.subrange(0, 4)[0] == line[0]);
    }
    if line.len() >= 5 {
        assert(line.subrange(0, 5)[0] == line[0]);
    }
}

/// A numbered item (one to three digits, `. `, the text) renders as its
/// number in cyan before the item's formatted text, wrapped at the width
/// with a hanging indent past the number.
pub proof fn law_numbered_item_renders(digits: Seq<char>, rest: Seq<char>, width: int)
    requires
        1 <= digits.len() <= 3,
        all_ascii_digits(digits),
    ensures
        rendered_line(digits + ". "@ + rest, width) == wrap_line_spec(
            "  \x1b[36m"@ + digits + ".\x1b[0m "@ + format_from(rest, 0),
            width,
            3 + digits.len() as int + 1,
        ),
{
    reveal_strlit("# ");
    reveal_strlit("## ");
    reveal_strlit("### ");
    reveal_strlit("#### ");
    reveal_strlit("- ");
    reveal_strlit("* ");
    reveal_strlit("  - ");
    reveal_strlit("  * ");
    reveal_strlit(". ");
    reveal_strlit("---");
    reveal_strlit("***");
    reveal_strlit("___");
    let line = digits + ". "@ + rest;
    let k: int = digits.len() as int;
    assert(line[0] == digits[0]);
    assert('0' <= digits[0] <= '9');
    assert(!crate::text::is_ws(line[0]));
    lemma_trim_keeps_first(line);
    let t = crate::text::trim(line);
    if t.len() == 3 {
        assert(t[0] == line[0]);
    }
    assert(line.subrange(0, 2)[0] == line[0]);
    if line.len() >= 3 {
        assert(line.subrange(0, 3)[0] == line[0]);
    }
    if line.len() >= 4 {
        assert(line.subrange(0, 4)[0] == line[0]);
    }
    if line.len() >= 5 {
        assert(line.subrange(0, 5)[0] == line[0]);
    }
    assert(line.subrange(k, k + 2) =~= ". "@);
    assert forall|j: int| 0 <= j < k implies !crate::text::occurs_at(line, ". "@, j) by {
        assert(line[j] == digits[j]);
        assert(line.subrange(j, j + 2)[0] == line[j]);
    }
    crate::text::lemma_find_from(line, ". "@, 0);
    assert(crate::text::occurs_at(line, ". "@, k));
    assert(crate::text::find(line, ". "@) == Some(k));
    assert(line.take(k) =~= digits);
    assert(line.skip(k + 2) =~= rest);
    assert(ordered_marker(line) == Some(k));
}

/// `line[from..]` with inline formatting.
fn format_rest(c: &Vec<char>, from: usize) -> (r: String)
    requires
        from <= c.len(),
    ensures
        r@ == format_from(c@.skip(from as int), 0),
        r@.len() <= 5 * (c@.len() - from),
{
    let rest = sub_vec(c, from, c.len());
    assert(rest@ =~= c@.skip(from as int));
    let s = crate::text::string_from(&rest);
    proof {
        lemma_format_len(rest@, 0);
    }
    format_inline(s.as_str())
}

/// Render one markdown line for a terminal `width` columns wide: the text to
/// write, ending in `\r\n`.
pub fn render_line(line: &str, width: usize) -> (r: String)
    requires
        line@.len() <= usize::MAX / 32,
    ensures
        r@ == rendered_line(line@, width as int) + "\r\n"@,
{
    let c = chars_of(line);
    proof {
        reveal_strlit("#### ");
        reveal_strlit("### ");
        reveal_strlit("## ");
        reveal_strlit("# ");
        reveal_strlit("- ");
        reveal_strlit("* ");
        reveal_strlit("  - ");
        reveal_strlit("  * ");
        reveal_strlit("> ");
        reveal_strlit(". ");
        reveal_strlit("\x1b[1;35m");
        reveal_strlit("\x1b[1;34m");
        reveal_strlit("\x1b[1;33m");
        reveal_strlit("\x1b[0m");
        reveal_strlit("\x1b[3m");
        reveal_strlit("  \x1b[36m\u{2022}\x1b[0m ");
        reveal_strlit("    \x1b[36m\u{25e6}\x1b[0m ");
        reveal_strlit("  \x1b[36m");
        reveal_strlit(".\x1b[0m ");
        reveal_strlit("  \x1b[2m\u{2502}\x1b[0m ");
    }
    let body: String;
    if crate::text::starts_with_exec(&c, &chars_of("#### ")) {
        let mut t = joined2("\x1b[1;35m", &sub_vec(&c, 5, c.len()));
        push_str(&mut t, "\x1b[0m");
        assert(c@.subrange(5, c@.len() as int) =~= c@.skip(5));
        body = wrap_line(t.as_str(), width, 0);
    } else if crate::text::starts_with_exec(&c, &chars_of("### ")) {
        let mut t = joined2("\x1b[1;35m", &sub_vec(&c, 4, c.len()));
        push_str(&mut t, "\x1b[0m");
        assert(c@.subrange(4, c@.len() as int) =~= c@.skip(4));
        body = wrap_line(t.as_str(), width, 0);
    } else if crate::text::starts_with_exec(&c, &chars_of("## ")) {
        let mut t = joined2("\x1b[1;34m", &sub_vec(&c, 3, c.len()));
        push_str(&mut t, "\x1b[0m");
        assert(c@.subrange(3, c@.len() as int) =~= c@.skip(3));
        body = wrap_line(t.as_str(), width, 0);
    } else if crate::text::starts_with_exec(&c, &chars_of("# ")) {
        let mut t = joined2("\x1b[1;33m", &sub_vec(&c, 2, c.len()));
        push_str(&mut t, "\x1b[0m");
        assert(c@.subrange(2, c@.len() as int) =~= c@.skip(2));
        body = wrap_line(t.as_str(), width, 0);
    } else if is_rule_exec(&c) {
        let n = if width < 40 {
            width
        } else {
            40
        };
        let mut t = crate::text::copy_str("\x1b[2m");
        let ghost head = t@;
        let mut i: usize = 0;
        while i < n
            invariant
                i <= n,
                t@ == head + rule_chars(i as int),
            decreases n - i,
        {
            push_char(&mut t, '\u{2500}');
            i = i + 1;
            assert(t@ =~= head + rule_chars(i as int));
        }
        push_str(&mut t, "\x1b[0m");
        body = t;
    } else if crate::text::starts_with_exec(&c, &chars_of("- ")) || crate::text::starts_with_exec(
        &c,
        &chars_of("* "),
    ) {
        let mut t = crate::text::copy_str("  \x1b[36m\u{2022}\x1b[0m ");
        let f = format_rest(&c, 2);
        push_str(&mut t, f.as_str());
        body = wrap_line(t.as_str(), width, 4);
    } else if crate::text::starts_with_exec(&c, &chars_of("  - ")) || crate::text::starts_with_exec(
        &c,
        &chars_of("  * "),
    ) {
        let mut t = crate::text::copy_str("    \x1b[36m\u{25e6}\x1b[0m ");
        let f = format_rest(&c, 4);
        push_str(&mut t, f.as_str());
        body = wrap_line(t.as_str(), width, 6);
    } else if let Some(k) = ordered_marker_exec(&c) {
        let mut t = joined2("  \x1b[36m", &sub_vec(&c, 0, k));
        push_str(&mut t, ".\x1b[0m ");
        let f = format_rest(&c, k + 2);
        push_str(&mut t, f.as_str());
        assert(c@.subrange(0, k as int) =~= c@.take(k as int));
        body = wrap_line(t.as_str(), width, 3 + k + 1);
    } else if crate::text::starts_with_exec(&c, &chars_of("> ")) {
        let mut t = crate::text::copy_str("  \x1b[2m\u{2502}\x1b[0m ");
        push_str(&mut t, "\x1b[3m");
        let f = format_rest(&c, 2);
        push_str(&mut t, f.as_str());
        push_str(&mut t, "\x1b[0m");
        body = wrap_line(t.as_str(), width, 4);
    } else {
        let f = format_rest(&c, 0);
        assert(c@.skip(0) =~= c@);
        body = wrap_line(f.as_str(), width, 0);
    }
    let mut r = body;
    push_str(&mut r, "\r\n");
    r
}

fn is_rule_exec(c: &Vec<char>) -> (r: bool)
    ensures
        r == is_rule(c@),
{
    let t = crate::text::trim_vec(c);
    crate::text::chars_eq(&t, &chars_of("---")) || crate::text::chars_eq(&t, &chars_of("***"))
        || crate::text::chars_eq(&t, &chars_of("___"))
}

fn ordered_marker_exec(c: &Vec<char>) -> (r: Option<usize>)
    ensures
        match r {
            Some(k) => ordered_marker(c@) == Some(k as int) && k + 2 <= c.len() && k <= 3,
            None => ordered_marker(c@) is None,
        },
{
    let dot = chars_of(". ");
    proof {
        reveal_strlit(". ");
    }
    match crate::text::find_from_exec(c, &dot, 0) {
        Some(k) => {
            proof {
                crate::text::lemma_find_from(c@, dot@, 0);
            }
            if k > 3 {
                return None;
            }
            let mut j: usize = 0;
            while j < k
                invariant
                    j <= k <= 3,
                    k <= c.len(),
                    dot@ == ". "@,
                    crate::text::find(c@, dot@) == Some(k as int),
                    forall|i: int| 0 <= i < j ==> '0' <= #[trigger] c@[i] <= '9',
                decreases k - j,
            {
                if !('0' <= c[j] && c[j] <= '9') {
                    assert(c@.take(k as int)[j as int] == c@[j as int]);
                    assert(!all_ascii_digits(c@.take(k as int)));
                    return None;
                }
                j = j + 1;
            }
            assert(all_ascii_digits(c@.take(k as int)));
            assert(crate::text::occurs_at(c@, dot@, k as int));
            Some(k)
        },
        None => None,
    }
}

} // verus!
