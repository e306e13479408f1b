use vstd::prelude::*;

use crate::markdown::{char_width, cols};
use crate::text::{chars_of, split_char, split_char_spec, string_from};
use vstd::utf8::*;
use crate::skills::{skill_pos, Skill, SkillRegistry};
use crate::text::copy_str;
use vstd::string::StringSliceAdditionalSpecFns;

verus! {

// ---------------------------------------------------------------------------
// Tokens of the prompt line
// ---------------------------------------------------------------------------

/// The kind of a token of the prompt buffer.
#[derive(Debug, Clone, Copy, PartialEq, Eq, Structural)]
pub enum Tk {
    /// Plain text.
    Text,
    /// A file reference beginning with `@`.
    File,
    /// A slash token beginning with `/` at a word boundary.
    Slash,
}

/// A token: its kind and its byte range in the buffer.
pub struct TokenSpan {
    pub kind: Tk,
    pub start: usize,
    pub end: usize,
}

/// The ASCII white space that separates tokens.
pub open spec fn is_sep(b: u8) -> bool {
    b == 32 || b == 9 || b == 10 || b == 13
}

/// The end of a run of non-separators starting at `j`.
pub open spec fn word_end(b: Seq<u8>, j: int) -> int
    decreases b.len() - j,
{
    if j < 0 || j >= b.len() || is_sep(b[j]) {
        j
    } else {
        word_end(b, j + 1)
    }
}

/// The end of a text run starting at `j`: before the next `@`, or the next
/// `/` that follows a separator.
pub open spec fn text_end(b: Seq<u8>, j: int) -> int
    decreases b.len() - j,
{
    if j <= 0 || j >= b.len() || b[j] == 64 || (b[j] == 47 && is_sep(b[j - 1])) {
        j
    } else {
        text_end(b, j + 1)
    }
}

/// The tokens of `b[i..]`: `@` starts a file token and `/` at a word
/// boundary (buffer start or after white space) a slash token, each running
/// to the next white space; text runs up to the next token start.
pub open spec fn tokens_from(b: Seq<u8>, i: int) -> Seq<(Tk, int, int)>
    decreases b.len() - i,
{
    if i < 0 || i >= b.len() {
        Seq::empty()
    } else {
        let prev_sep = i == 0 || is_sep(b[i - 1]);
        let (kind, end) = if b[i] == 64 {
            (Tk::File, word_end(b, i + 1))
        } else if b[i] == 47 && prev_sep {
            (Tk::Slash, word_end(b, i + 1))
        } else {
            (Tk::Text, text_end(b, i + 1))
        };
        if i < end <= b.len() {
            seq![(kind, i, end)] + tokens_from(b, end)
        } else {
            Seq::empty()
        }
    }
}

proof fn lemma_word_end(b: Seq<u8>, j: int)
    requires
        0 <= j <= b.len(),
    ensures
        j <= word_end(b, j) <= b.len(),
    decreases b.len() - j,
{
    if j < b.len() && !is_sep(b[j]) {
        lemma_word_end(b, j + 1);
    }
}

proof fn lemma_text_end(b: Seq<u8>, j: int)
    requires
        1 <= j <= b.len(),
    ensures
        j <= text_end(b, j) <= b.len(),
    decreases b.len() - j,
{
    if j < b.len() && !(b[j] == 64 || (b[j] == 47 && is_sep(b[j - 1]))) {
        lemma_text_end(b, j + 1);
    }
}

/// The views of a list of tokens.
pub open spec fn token_views(ts: Seq<TokenSpan>) -> Seq<(Tk, int, int)> {
    Seq::new(ts.len(), |i: int| (ts[i].kind, ts[i].start as int, ts[i].end as int))
}

fn is_sep_exec(b: u8) -> (r: bool)
    ensures
        r == is_sep(b),
{
    b == 32 || b == 9 || b == 10 || b == 13
}

/// Split the prompt buffer into tokens for pill rendering. `@` starts a file
/// token; `/` starts a slash token only when it sits at a word boundary
/// (buffer start or after whitespace), so path separators inside `@path`
/// or `a/b` stay inside their text run. Bytes are scanned directly: `@`, `/`
/// and ASCII whitespace never occur inside a UTF-8 multibyte sequence.
pub fn tokenize_input(buf: &str) -> (r: Vec<TokenSpan>)
    ensures
        token_views(r@) == tokens_from(vstd::utf8::encode_utf8(buf@), 0),
{
    let b = buf.as_bytes();
    let n = b.len();
    let mut toks: Vec<TokenSpan> = Vec::new();
    let mut i: usize = 0;
    while i < n
        invariant
            n == b@.len(),
            b@ == vstd::utf8::encode_utf8(buf@),
            i <= n,
            tokens_from(b@, 0) == token_views(toks@) + tokens_from(b@, i as int),
        decreases n - i,
    {
        let cur = b[i];
        let prev_ws = i == 0 || is_sep_exec(b[i - 1]);
        let start = i;
        let kind;
        if cur == 64u8 || (cur == 47u8 && prev_ws) {
            kind = if cur == 64u8 {
                Tk::File
            } else {
                Tk::Slash
            };
            i = i + 1;
            proof {
                lemma_word_end(b@, i as int);
            }
            while i < n && !is_sep_exec(b[i])
                invariant
                    n == b@.len(),
                    start < i <= n,
                    word_end(b@, start + 1) == word_end(b@, i as int),
                decreases n - i,
            {
                i = i + 1;
            }
        } else {
            kind = Tk::Text;
            i = i + 1;
            proof {
                lemma_text_end(b@, i as int);
            }
            while i < n && !(b[i] == 64u8 || (b[i] == 47u8 && is_sep_exec(b[i - 1])))
                invariant
                    n == b@.len(),
                    start < i <= n,
                    text_end(b@, start + 1) == text_end(b@, i as int),
                decreases n - i,
            {
                i = i + 1;
            }
        }
        let ghost before = token_views(toks@);
        toks.push(TokenSpan { kind, start, end: i });
        assert(token_views(toks@) =~= before.push((kind, start as int, i as int)));
        assert(tokens_from(b@, start as int) =~= seq![(kind, start as int, i as int)]
            + tokens_from(b@, i as int));
        assert(token_views(toks@) + tokens_from(b@, i as int) =~= before + tokens_from(
            b@,
            start as int,
        ));
    }
    assert(token_views(toks@) + tokens_from(b@, n as int) =~= token_views(toks@));
    toks
}

// ---------------------------------------------------------------------------
// Wrapping the prompt to the panel width
// ---------------------------------------------------------------------------

/// Greedy wrapping of the first `n` characters of a paragraph: the rows
/// finished so far, the row being filled and its width. A character that
/// would push a non-empty row past `width` starts a new row.
pub open spec fn fill_rows(p: Seq<char>, n: int, width: int) -> (Seq<Seq<char>>, Seq<char>, int)
    decreases n,
{
    if n <= 0 {
        (Seq::empty(), Seq::empty(), 0)
    } else {
        let (rows, line, w) = fill_rows(p, n - 1, width);
        let c = p[n - 1];
        if w + cols(c) > width && line.len() > 0 {
            (rows.push(line), seq![c], cols(c))
        } else {
            (rows, line.push(c), w + cols(c))
        }
    }
}

/// The rows of one paragraph: as it stands when empty or when the width is
/// zero, else greedily filled rows.
pub open spec fn paragraph_rows(p: Seq<char>, width: int) -> Seq<Seq<char>> {
    if width == 0 || p.len() == 0 {
        seq![p]
    } else {
        let (rows, line, w) = fill_rows(p, p.len() as int, width);
        rows.push(line)
    }
}

/// The rows of all paragraphs, in order.
pub open spec fn all_rows(ps: Seq<Seq<char>>, width: int) -> Seq<Seq<char>>
    decreases ps.len(),
{
    if ps.len() == 0 {
        Seq::empty()
    } else {
        all_rows(ps.drop_last(), width) + paragraph_rows(ps.last(), width)
    }
}

proof fn lemma_all_rows_len(ps: Seq<Seq<char>>, width: int)
    ensures
        all_rows(ps, width).len() >= ps.len(),
    decreases ps.len(),
{
    if ps.len() > 0 {
        lemma_all_rows_len(ps.drop_last(), width);
    }
}

/// The views of a list of strings.
pub open spec fn string_views(v: Seq<String>) -> Seq<Seq<char>> {
    Seq::new(v.len(), |i: int| v[i]@)
}

fn paragraph_rows_exec(p: &Vec<char>, width: usize, out: &mut Vec<String>)
    requires
        p.len() <= usize::MAX / 3,
    ensures
        string_views(final(out)@) == string_views(old(out)@) + paragraph_rows(p@, width as int),
{
    if width == 0 || p.len() == 0 {
        let ghost before = string_views(out@);
        out.push(string_from(p));
        assert(string_views(out@) =~= before + seq![p@]);
        return;
    }
    let ghost base = string_views(out@);
    let mut line: Vec<char> = Vec::new();
    let mut line_w: usize = 0;
    let mut i: usize = 0;
    while i < p.len()
        invariant
            i <= p.len(),
            p.len() <= usize::MAX / 3,
            line_w <= 3 * i,
            ({
                let (rows, l, w) = fill_rows(p@, i as int, width as int);
                string_views(out@) == base + rows && l == line@ && w == line_w
            }),
        decreases p.len() - i,
    {
        let ch = p[i];
        let cw = match char_width(ch) {
            Some(w) => w,
            None => 0,
        };
        if line_w + cw > width && line.len() > 0 {
            let ghost before = string_views(out@);
            out.push(string_from(&line));
            assert(string_views(out@) =~= before.push(line@));
            line = Vec::new();
            line_w = 0;
        }
        line.push(ch);
        line_w = line_w + cw;
        i = i + 1;
    }
    let ghost before = string_views(out@);
    out.push(string_from(&line));
    assert(string_views(out@) =~= before.push(line@));
}

/// Splits the text at newlines, then wraps each paragraph greedily by
/// display width so that every row is at most `width` columns wide (a row
/// holds at least one character).
pub fn wrap_text_to_width(text: &str, width: usize) -> (r: Vec<String>)
    requires
        text@.len() <= usize::MAX / 3,
    ensures
        string_views(r@) == all_rows(split_char_spec(text@, '\n'), width as int),
{
    let c = chars_of(text);
    let ps = split_char(&c, '\n');
    let mut out: Vec<String> = Vec::new();
    let mut k: usize = 0;
    proof {
        crate::text::lemma_split_char_lens(c@, '\n');
    }
    while k < ps.len()
        invariant
            k <= ps.len(),
            ps.deep_view() == split_char_spec(c@, '\n'),
            c@ == text@,
            c.len() <= usize::MAX / 3,
            forall|j: int| 0 <= j < ps.len() ==> (#[trigger] ps.deep_view()[j]).len() <= c@.len(),
            string_views(out@) == all_rows(ps.deep_view().take(k as int), width as int),
        decreases ps.len() - k,
    {
        assert(ps.deep_view()[k as int] == ps[k as int]@);
        paragraph_rows_exec(&ps[k], width, &mut out);
        assert(ps.deep_view().take(k + 1).drop_last() =~= ps.deep_view().take(k as int));
        k = k + 1;
    }
    assert(ps.deep_view().take(ps.len() as int) =~= ps.deep_view());
    proof {
        lemma_all_rows_len(ps.deep_view(), width as int);
    }
    if out.len() == 0 {
        out.push(String::new());
    }
    out
}

// ---------------------------------------------------------------------------
// Pills in the prompt line
// ---------------------------------------------------------------------------

/// A byte position that is an end of `b` or holds an ASCII byte.
pub open spec fn ascii_cut(b: Seq<u8>, x: int) -> bool {
    x == 0 || x == b.len() || (0 <= x < b.len() && b[x] < 128)
}

/// A token whose ends are ASCII cuts, led by its marker.
pub open spec fn token_ok(b: Seq<u8>, t: (Tk, int, int)) -> bool {
    &&& 0 <= t.1 < t.2 <= b.len()
    &&& ascii_cut(b, t.1)
    &&& ascii_cut(b, t.2)
    &&& (t.0 == Tk::Slash ==> b[t.1] == 47)
}

proof fn lemma_word_end_cut(b: Seq<u8>, j: int)
    requires
        0 <= j <= b.len(),
    ensures
        ascii_cut(b, word_end(b, j)),
    decreases b.len() - j,
{
    if j < b.len() && !is_sep(b[j]) {
        lemma_word_end_cut(b, j + 1);
    }
}

proof fn lemma_text_end_cut(b: Seq<u8>, j: int)
    requires
        1 <= j <= b.len(),
    ensures
        ascii_cut(b, text_end(b, j)),
    decreases b.len() - j,
{
    if j < b.len() && !(b[j] == 64 || (b[j] == 47 && is_sep(b[j - 1]))) {
        lemma_text_end_cut(b, j + 1);
    }
}

/// Every token starts and ends at an ASCII cut.
proof fn lemma_tokens_ok(b: Seq<u8>, i: int)
    requires
        0 <= i <= b.len(),
        ascii_cut(b, i),
    ensures
        forall|k: int| 0 <= k < tokens_from(b, i).len() ==> token_ok(b, #[trigger] tokens_from(b, i)[k]),
    decreases b.len() - i,
{
    if i < b.len() {
        let prev_sep = i == 0 || is_sep(b[i - 1]);
        let (kind, end) = if b[i] == 64 {
            (Tk::File, word_end(b, i + 1))
        } else if b[i] == 47 && prev_sep {
            (Tk::Slash, word_end(b, i + 1))
        } else {
            (Tk::Text, text_end(b, i + 1))
        };
        lemma_word_end(b, i + 1);
        lemma_word_end_cut(b, i + 1);
        lemma_text_end(b, i + 1);
        lemma_text_end_cut(b, i + 1);
        if i < end <= b.len() {
            lemma_tokens_ok(b, end);
            let r = tokens_from(b, i);
            let rest = tokens_from(b, end);
            assert(r =~= seq![(kind, i, end)] + rest);
            assert forall|k: int| 0 <= k < r.len() implies token_ok(b, #[trigger] r[k]) by {
                if k > 0 {
                    assert(r[k] == rest[k - 1]);
                }
            }
        }
    }
}

/// In valid UTF-8 the byte after an ASCII character starts a character.
proof fn lemma_after_ascii(b: Seq<u8>, i: int)
    requires
        valid_utf8(b),
        0 <= i,
        i + 1 < b.len(),
        b[i] < 128,
    ensures
        !is_continuation_byte(b[i + 1]),
{
    is_char_boundary_iff_not_is_continuation_byte(b, i);
    valid_utf8_split(b, i);
    let t = b.subrange(i, b.len() as int);
    assert(t[0] == b[i]);
    assert(length_of_first_scalar(t) == 1);
    assert(pop_first_scalar(t).len() > 0);
    assert(is_char_boundary(t, 1)) by {
        reveal_with_fuel(is_char_boundary, 2);
    }
    is_char_boundary_iff_not_is_continuation_byte(t, 1);
    assert(t[1] == b[i + 1]);
}

/// A position that is an end or starts a character is a character boundary.
proof fn lemma_start_is_boundary(b: Seq<u8>, x: int)
    requires
        valid_utf8(b),
        0 <= x <= b.len(),
        x < b.len() ==> !is_continuation_byte(b[x]),
    ensures
        is_char_boundary(b, x),
{
    if x == 0 || x == b.len() {
        is_char_boundary_start_end_of_seq(b);
    } else {
        is_char_boundary_iff_not_is_continuation_byte(b, x);
    }
}

/// The characters encoded by `b[s..e]`.
pub open spec fn piece(b: Seq<u8>, s: int, e: int) -> Seq<char> {
    decode_utf8(b.subrange(s, e))
}

/// `buf` between two byte positions that start characters (or end `buf`).
fn byte_slice<'a>(buf: &'a str, s: usize, e: usize) -> (r: &'a str)
    requires
        s <= e <= encode_utf8(buf@).len(),
        s < encode_utf8(buf@).len() ==> !is_continuation_byte(encode_utf8(buf@)[s as int]),
        e < encode_utf8(buf@).len() ==> !is_continuation_byte(encode_utf8(buf@)[e as int]),
    ensures
        r@ == piece(encode_utf8(buf@), s as int, e as int),
{
    let ghost b = encode_utf8(buf@);
    proof {
        encode_utf8_valid_utf8(buf@);
        lemma_start_is_boundary(b, s as int);
    }
    let (_, rest) = buf.split_at(s);
    proof {
        let rb = rest.spec_bytes();
        assert(rb =~= b.subrange(s as int, b.len() as int));
        encode_utf8_valid_utf8(rest@);
        if e < b.len() {
            assert(rb[e - s] == b[e as int]);
        }
        lemma_start_is_boundary(rb, e - s);
    }
    let (mid, _) = rest.split_at(e - s);
    proof {
        assert(mid.spec_bytes() =~= b.subrange(s as int, e as int));
        encode_utf8_decode_utf8(mid@);
    }
    mid
}

/// How a piece of the prompt line is shown.
#[derive(Debug, Clone, Copy, PartialEq, Eq, Structural)]
pub enum SegKind {
    /// Plain editable text.
    Plain,
    /// A file reference pill.
    FilePill,
    /// A skill invocation pill.
    SkillPill,
    /// The dimmed completion preview after the text.
    Preview,
}

/// A piece of the prompt line and how it is shown.
pub struct InputSegment {
    pub kind: SegKind,
    pub text: String,
}

pub open spec fn segment_views(v: Seq<InputSegment>) -> Seq<(SegKind, Seq<char>)> {
    Seq::new(v.len(), |i: int| (v[i].kind, v[i].text@))
}

/// `/name` resolves to a skill that users may invoke.
pub open spec fn skill_pill(skills: Seq<Skill>, name: Seq<char>) -> bool {
    match skill_pos(skills, name, 0) {
        Some(i) => skills[i].user_invocable,
        None => false,
    }
}

/// `x + 2`, saturating at `u16::MAX`.
pub open spec fn sat_add2(x: int) -> int {
    if x + 2 > u16::MAX {
        u16::MAX as int
    } else {
        x + 2
    }
}

/// How a token is shown with the caret at byte `cp`, and whether its pill
/// puts two delimiter cells before the caret. The token under the caret stays
/// plain; a file token is a pill; a slash token is a pill when it names an
/// invocable skill.
pub open spec fn token_shown(b: Seq<u8>, t: (Tk, int, int), cp: int, skills: Seq<Skill>) -> (SegKind, bool) {
    if t.1 <= cp && cp <= t.2 {
        (SegKind::Plain, false)
    } else {
        match t.0 {
            Tk::Text => (SegKind::Plain, false),
            Tk::File => (SegKind::FilePill, t.2 <= cp),
            Tk::Slash => if skill_pill(skills, piece(b, t.1 + 1, t.2)) {
                (SegKind::SkillPill, t.2 <= cp)
            } else {
                (SegKind::Plain, false)
            },
        }
    }
}

/// The pieces for the tokens `ts`, the end of the last one, and the
/// delimiter cells before the caret.
pub open spec fn plan_tokens(b: Seq<u8>, ts: Seq<(Tk, int, int)>, cp: int, skills: Seq<Skill>) -> (
    Seq<(SegKind, Seq<char>)>,
    int,
    int,
)
    decreases ts.len(),
{
    if ts.len() == 0 {
        (seq![], 0, 0)
    } else {
        let r = plan_tokens(b, ts.drop_last(), cp, skills);
        let t = ts.last();
        let gap = if t.1 > r.1 {
            seq![(SegKind::Plain, piece(b, r.1, t.1))]
        } else {
            seq![]
        };
        let sh = token_shown(b, t, cp, skills);
        (r.0 + gap + seq![(sh.0, piece(b, t.1, t.2))], t.2, if sh.1 {
            sat_add2(r.2)
        } else {
            r.2
        })
    }
}

/// The pieces of the whole prompt line with the caret at `cursor_pos`, then
/// the completion preview; and the delimiter cells before the caret.
pub open spec fn input_plan(buf: Seq<char>, cursor_pos: int, skills: Seq<Skill>, ghost_text: Option<Seq<char>>) -> (
    Seq<(SegKind, Seq<char>)>,
    int,
) {
    let b = encode_utf8(buf);
    let cp = if cursor_pos < b.len() {
        cursor_pos
    } else {
        b.len() as int
    };
    let r = plan_tokens(b, tokens_from(b, 0), cp, skills);
    let tail = if r.1 < b.len() {
        seq![(SegKind::Plain, piece(b, r.1, b.len() as int))]
    } else {
        seq![]
    };
    let g = match ghost_text {
        Some(t) => seq![(SegKind::Preview, t)],
        None => seq![],
    };
    (r.0 + tail + g, r.2)
}

/// The prompt line as pieces: finished `@file` references and `/skill`
/// invocations as pills, the token under the caret as plain editable text,
/// then the completion preview. Also the number of pill delimiter cells
/// before the caret.
pub fn input_segments(buf: &str, cursor_pos: usize, skills: &SkillRegistry, ghost_text: Option<&str>) -> (r: (
    Vec<InputSegment>,
    u16,
))
    ensures
        segment_views(r.0@) == input_plan(
            buf@,
            cursor_pos as int,
            skills.skills@,
            match ghost_text {
                Some(g) => Some(g@),
                None => None,
            },
        ).0,
        r.1 == input_plan(buf@, cursor_pos as int, skills.skills@, None).1,
{
    let ghost b = encode_utf8(buf@);
    let n = buf.as_bytes().len();
    let cp = if cursor_pos < n {
        cursor_pos
    } else {
        n
    };
    let toks = tokenize_input(buf);
    let ghost ts = tokens_from(b, 0);
    proof {
        encode_utf8_valid_utf8(buf@);
        lemma_tokens_ok(b, 0);
    }
    let mut out: Vec<InputSegment> = Vec::new();
    let mut extra: u16 = 0;
    let mut last_end: usize = 0;
    let mut k: usize = 0;
    while k < toks.len()
        invariant
            n == b.len(),
            valid_utf8(b),
            b == encode_utf8(buf@),
            token_views(toks@) == ts,
            ts == tokens_from(b, 0),
            forall|j: int| 0 <= j < ts.len() ==> token_ok(b, #[trigger] ts[j]),
            k <= toks.len(),
            cp == (if cursor_pos < b.len() { cursor_pos as int } else { b.len() as int }),
            ({
                let r = plan_tokens(b, ts.take(k as int), cp as int, skills.skills@);
                segment_views(out@) == r.0 && last_end == r.1 && extra == r.2
            }),
            ascii_cut(b, last_end as int),
            last_end <= n,
        decreases toks.len() - k,
    {
        let ghost before = segment_views(out@);
        let ghost t = ts[k as int];
        assert(token_ok(b, t));
        let start = toks[k].start;
        let end = toks[k].end;
        if start > last_end {
            let gap = byte_slice(buf, last_end, start);
            out.push(InputSegment { kind: SegKind::Plain, text: copy_str(gap) });
        }
        let ghost mid = segment_views(out@);
        let active = cp >= start && cp <= end;
        let before_caret = end <= cp;
        let text = byte_slice(buf, start, end);
        let kind: SegKind;
        if active {
            kind = SegKind::Plain;
        } else {
            match toks[k].kind {
                Tk::Text => {
                    kind = SegKind::Plain;
                },
                Tk::File => {
                    if before_caret {
                        extra = extra.saturating_add(2);
                    }
                    kind = SegKind::FilePill;
                },
                Tk::Slash => {
                    proof {
                        if start + 1 < b.len() {
                            lemma_after_ascii(b, start as int);
                        }
                    }
                    let name = byte_slice(buf, start + 1, end);
                    let is_skill = match skills.find(name) {
                        Some(s) => s.user_invocable,
                        None => false,
                    };
                    if is_skill {
                        if before_caret {
                            extra = extra.saturating_add(2);
                        }
                        kind = SegKind::SkillPill;
                    } else {
                        kind = SegKind::Plain;
                    }
                },
            }
        }
        out.push(InputSegment { kind, text: copy_str(text) });
        last_end = end;
        proof {
            let tk = ts.take(k + 1);
            assert(tk.drop_last() =~= ts.take(k as int));
            assert(tk.last() == t);
            let r0 = plan_tokens(b, ts.take(k as int), cp as int, skills.skills@);
            let gap = if t.1 > r0.1 {
                seq![(SegKind::Plain, piece(b, r0.1, t.1))]
            } else {
                seq![]
            };
            assert(mid =~= before + gap);
            assert(segment_views(out@) =~= r0.0 + gap + seq![(kind, piece(b, t.1, t.2))]);
        }
        k = k + 1;
    }
    assert(ts.take(toks.len() as int) =~= ts);
    if last_end < n {
        let tail = byte_slice(buf, last_end, n);
        let ghost before = segment_views(out@);
        out.push(InputSegment { kind: SegKind::Plain, text: copy_str(tail) });
        assert(segment_views(out@) =~= before + seq![(SegKind::Plain, piece(b, last_end as int, b.len() as int))]);
    }
    let ghost before = segment_views(out@);
    match ghost_text {
        Some(g) => {
            out.push(InputSegment { kind: SegKind::Preview, text: copy_str(g) });
            assert(segment_views(out@) =~= before + seq![(SegKind::Preview, g@)]);
        },
        None => {
            assert(segment_views(out@) =~= before + Seq::<(SegKind, Seq<char>)>::empty());
        },
    }
    (out, extra)
}

} // verus!
