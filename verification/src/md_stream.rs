use vstd::prelude::*;

use crate::markdown::{render_line, rendered_line, wrap_line, wrap_line_spec};
use crate::tasks::str_views;
use crate::text::{chars_of, copy_str, push_char, push_range, push_str, starts_with, starts_with_exec, string_from, sub_vec, trim, trim_vec};

verus! {

// ---------------------------------------------------------------------------
// What the streaming renderer writes
// ---------------------------------------------------------------------------

/// A piece of terminal output of the streaming renderer, in the order it is
/// written: finished text (each line ending in `\r\n`), or a closed fenced
/// code block with its language tag and its lines, left to a highlighter.
#[derive(Debug, Clone, PartialEq, Eq)]
pub enum RenderOutput {
    Text(String),
    CodeBlock(String, Vec<String>),
}

/// A piece of output as plain values.
pub enum OutputModel {
    Text(Seq<char>),
    CodeBlock(Seq<char>, Seq<Seq<char>>),
}

pub open spec fn output_model(o: RenderOutput) -> OutputModel {
    match o {
        RenderOutput::Text(t) => OutputModel::Text(t@),
        RenderOutput::CodeBlock(lang, lines) => OutputModel::CodeBlock(lang@, str_views(lines@)),
    }
}

pub open spec fn output_models(os: Seq<RenderOutput>) -> Seq<OutputModel> {
    Seq::new(os.len(), |i: int| output_model(os[i]))
}

// ---------------------------------------------------------------------------
// The renderer's state as plain values, and what each step does to it
// ---------------------------------------------------------------------------

/// The renderer's buffers: the unfinished response line, whether a fenced
/// code block is open (with its language and the lines gathered so far), the
/// unfinished thinking line, and whether thinking text came since the last
/// response text.
pub struct StreamModel {
    pub line: Seq<char>,
    pub in_code: bool,
    pub lang: Seq<char>,
    pub code: Seq<Seq<char>>,
    pub thinking: Seq<char>,
    pub was_thinking: bool,
}

/// The state of a fresh renderer.
pub open spec fn fresh() -> StreamModel {
    StreamModel {
        line: seq![],
        in_code: false,
        lang: seq![],
        code: seq![],
        thinking: seq![],
        was_thinking: false,
    }
}

/// Outside a code block no language or code lines are kept.
pub open spec fn settled(m: StreamModel) -> bool {
    !m.in_code ==> m.lang.len() == 0 && m.code.len() == 0
}

/// The longest buffered line the renderer takes.
pub open spec fn line_limit() -> int {
    usize::MAX as int / 32
}

/// A finished thinking line: wrapped, dimmed, ending the terminal line.
pub open spec fn dim_line(t: Seq<char>, w: int) -> Seq<char> {
    "\x1b[2m"@ + wrap_line_spec(t, w, 0) + "\x1b[0m"@ + "\r\n"@
}

pub open spec fn with_line(m: StreamModel, line: Seq<char>) -> StreamModel {
    StreamModel {
        line,
        in_code: m.in_code,
        lang: m.lang,
        code: m.code,
        thinking: m.thinking,
        was_thinking: m.was_thinking,
    }
}

pub open spec fn with_thinking(m: StreamModel, thinking: Seq<char>, was_thinking: bool) -> StreamModel {
    StreamModel {
        line: m.line,
        in_code: m.in_code,
        lang: m.lang,
        code: m.code,
        thinking,
        was_thinking,
    }
}

pub open spec fn with_block(m: StreamModel, in_code: bool, lang: Seq<char>, code: Seq<Seq<char>>) -> StreamModel {
    StreamModel {
        line: m.line,
        in_code,
        lang,
        code,
        thinking: m.thinking,
        was_thinking: m.was_thinking,
    }
}

/// Closing the open code block: it is written out, and the block state is
/// cleared.
pub open spec fn after_close(m: StreamModel) -> (StreamModel, Seq<OutputModel>) {
    (with_block(m, false, seq![], seq![]), seq![OutputModel::CodeBlock(m.lang, m.code)])
}

/// Ending the pending thinking: its unfinished line is written, and after any
/// thinking text an empty line separates it from what follows.
pub open spec fn after_thinking_done(m: StreamModel, w: int) -> (StreamModel, Seq<OutputModel>) {
    let o1 = if m.thinking.len() > 0 {
        seq![OutputModel::Text(dim_line(m.thinking, w))]
    } else {
        seq![]
    };
    let o2 = if m.was_thinking {
        seq![OutputModel::Text("\r\n"@)]
    } else {
        seq![]
    };
    (with_thinking(m, seq![], false), o1 + o2)
}

/// Ending the buffered response line. Inside a code block a fence closes the
/// block and any other line joins it; outside, a fence opens a block whose
/// language is the rest of the fence line, trimmed; any other line is
/// rendered as markdown.
pub open spec fn after_flush(m: StreamModel, w: int) -> (StreamModel, Seq<OutputModel>) {
    let line = m.line;
    let m0 = with_line(m, seq![]);
    if m.in_code {
        if starts_with(line, "```"@) {
            after_close(m0)
        } else {
            (with_block(m0, true, m.lang, m.code.push(line)), seq![])
        }
    } else if starts_with(line, "```"@) {
        (with_block(m0, true, trim(line.skip(3)), seq![]), seq![])
    } else {
        (m0, seq![OutputModel::Text(rendered_line(line, w) + "\r\n"@)])
    }
}

/// One character of response text: a newline ends the line, any other
/// character joins it.
pub open spec fn text_step(m: StreamModel, c: char, w: int) -> (StreamModel, Seq<OutputModel>) {
    if c == '\n' {
        after_flush(m, w)
    } else {
        (with_line(m, m.line.push(c)), seq![])
    }
}

/// Response text, character by character.
pub open spec fn text_chars(m: StreamModel, s: Seq<char>, w: int) -> (StreamModel, Seq<OutputModel>)
    decreases s.len(),
{
    if s.len() == 0 {
        (m, seq![])
    } else {
        let r1 = text_chars(m, s.drop_last(), w);
        let r2 = text_step(r1.0, s.last(), w);
        (r2.0, r1.1 + r2.1)
    }
}

/// One character of thinking text: a newline writes the thinking line, any
/// other character joins it.
pub open spec fn thinking_step(m: StreamModel, c: char, w: int) -> (StreamModel, Seq<OutputModel>) {
    if c == '\n' {
        (with_thinking(m, seq![], m.was_thinking), seq![OutputModel::Text(dim_line(m.thinking, w))])
    } else {
        (with_thinking(m, m.thinking.push(c), m.was_thinking), seq![])
    }
}

/// Thinking text, character by character.
pub open spec fn thinking_chars(m: StreamModel, s: Seq<char>, w: int) -> (StreamModel, Seq<OutputModel>)
    decreases s.len(),
{
    if s.len() == 0 {
        (m, seq![])
    } else {
        let r1 = thinking_chars(m, s.drop_last(), w);
        let r2 = thinking_step(r1.0, s.last(), w);
        (r2.0, r1.1 + r2.1)
    }
}

/// A response text delta: pending thinking is ended first.
pub open spec fn after_push(m: StreamModel, s: Seq<char>, w: int) -> (StreamModel, Seq<OutputModel>) {
    let r1 = after_thinking_done(m, w);
    let r2 = text_chars(r1.0, s, w);
    (r2.0, r1.1 + r2.1)
}

/// A thinking text delta.
pub open spec fn after_push_thinking(m: StreamModel, s: Seq<char>, w: int) -> (StreamModel, Seq<OutputModel>) {
    thinking_chars(with_thinking(m, m.thinking, true), s, w)
}

/// The end of the message: pending thinking ends, a non-empty buffered line
/// is flushed, and a code block still open is written out.
pub open spec fn after_finish(m: StreamModel, w: int) -> (StreamModel, Seq<OutputModel>) {
    let r1 = after_thinking_done(m, w);
    let r2 = if r1.0.line.len() > 0 {
        after_flush(r1.0, w)
    } else {
        (r1.0, seq![])
    };
    let r3 = if r2.0.in_code {
        after_close(r2.0)
    } else {
        (r2.0, seq![])
    };
    (r3.0, r1.1 + r2.1 + r3.1)
}

// ---------------------------------------------------------------------------
// The renderer
// ---------------------------------------------------------------------------

/// A streaming markdown renderer for terminal output: it buffers response
/// and thinking text by line and hands back what to write, in order.
pub struct MarkdownStream {
    line_buf: Vec<char>,
    in_code_block: bool,
    code_lang: Vec<char>,
    code_lines: Vec<String>,
    thinking_buf: Vec<char>,
    was_thinking: bool,
    term_width: usize,
}

impl MarkdownStream {
    pub closed spec fn model(&self) -> StreamModel {
        StreamModel {
            line: self.line_buf@,
            in_code: self.in_code_block,
            lang: self.code_lang@,
            code: str_views(self.code_lines@),
            thinking: self.thinking_buf@,
            was_thinking: self.was_thinking,
        }
    }

    /// The terminal width the renderer wraps to.
    pub closed spec fn width(&self) -> int {
        self.term_width as int
    }

    /// Both buffered lines are within the renderer's limit.
    pub open spec fn wf(&self) -> bool {
        &&& self.model().line.len() <= line_limit()
        &&& self.model().thinking.len() <= line_limit()
        &&& settled(self.model())
    }

    /// A renderer for a terminal `term_width` columns wide.
    pub fn new(term_width: usize) -> (s: Self)
        ensures
            s.model() == fresh(),
            s.width() == term_width,
            s.wf(),
    {
        let s = MarkdownStream {
            line_buf: Vec::new(),
            in_code_block: false,
            code_lang: Vec::new(),
            code_lines: Vec::new(),
            thinking_buf: Vec::new(),
            was_thinking: false,
            term_width,
        };
        assert(str_views(s.code_lines@) =~= Seq::<Seq<char>>::empty());
        s
    }

    /// The number of characters waiting in the two line buffers.
    pub fn buffered(&self) -> (n: (usize, usize))
        ensures
            n.0 == self.model().line.len(),
            n.1 == self.model().thinking.len(),
    {
        (self.line_buf.len(), self.thinking_buf.len())
    }

    fn close_block(&mut self, out: &mut Vec<RenderOutput>)
        ensures
            final(self).model() == after_close(old(self).model()).0,
            output_models(final(out)@) == output_models(old(out)@) + after_close(old(self).model()).1,
            final(self).width() == old(self).width(),
    {
        let lang = string_from(&self.code_lang);
        let mut lines: Vec<String> = Vec::new();
        std::mem::swap(&mut lines, &mut self.code_lines);
        self.code_lang = Vec::new();
        self.in_code_block = false;
        out.push(RenderOutput::CodeBlock(lang, lines));
        assert(str_views(self.code_lines@) =~= Seq::<Seq<char>>::empty());
        assert(output_models(out@) =~= output_models(old(out)@) + after_close(old(self).model()).1);
    }

    fn finish_thinking(&mut self, out: &mut Vec<RenderOutput>)
        requires
            old(self).wf(),
        ensures
            final(self).model() == after_thinking_done(old(self).model(), old(self).width()).0,
            output_models(final(out)@) == output_models(old(out)@) + after_thinking_done(
                old(self).model(),
                old(self).width(),
            ).1,
            final(self).width() == old(self).width(),
            final(self).wf(),
    {
        let ghost o0 = output_models(out@);
        if self.thinking_buf.len() > 0 {
            let mut t: Vec<char> = Vec::new();
            std::mem::swap(&mut t, &mut self.thinking_buf);
            let s = string_from(&t);
            let wrapped = wrap_line(s.as_str(), self.term_width, 0);
            let mut text = copy_str("\x1b[2m");
            push_str(&mut text, wrapped.as_str());
            push_str(&mut text, "\x1b[0m");
            push_str(&mut text, "\r\n");
            out.push(RenderOutput::Text(text));
        }
        let ghost o1 = output_models(out@);
        if self.was_thinking {
            self.was_thinking = false;
            out.push(RenderOutput::Text(copy_str("\r\n")));
        }
        proof {
            assert(self.thinking_buf@ =~= Seq::<char>::empty());
            let m = old(self).model();
            let w = old(self).width();
            let a = if m.thinking.len() > 0 {
                seq![OutputModel::Text(dim_line(m.thinking, w))]
            } else {
                seq![]
            };
            assert(o1 =~= o0 + a);
            let b = if m.was_thinking {
                seq![OutputModel::Text("\r\n"@)]
            } else {
                seq![]
            };
            assert(output_models(out@) =~= o1 + b);
            assert(a + b =~= after_thinking_done(m, w).1);
            assert(output_models(out@) =~= o0 + after_thinking_done(m, w).1);
        }
    }

    fn flush_line(&mut self, out: &mut Vec<RenderOutput>)
        requires
            old(self).wf(),
        ensures
            final(self).model() == after_flush(old(self).model(), old(self).width()).0,
            output_models(final(out)@) == output_models(old(out)@) + after_flush(
                old(self).model(),
                old(self).width(),
            ).1,
            final(self).width() == old(self).width(),
            final(self).wf(),
    {
        let ghost m = self.model();
        proof {
            reveal_strlit("```");
        }
        let mut line: Vec<char> = Vec::new();
        std::mem::swap(&mut line, &mut self.line_buf);
        let fence = chars_of("```");
        if self.in_code_block {
            if starts_with_exec(&line, &fence) {
                self.close_block(out);
            } else {
                let s = string_from(&line);
                self.code_lines.push(s);
                assert(str_views(self.code_lines@) =~= m.code.push(line@));
                assert(output_models(out@) =~= output_models(old(out)@) + Seq::<OutputModel>::empty());
            }
            return;
        }
        if starts_with_exec(&line, &fence) {
            let rest = sub_vec(&line, 3, line.len());
            assert(rest@ =~= line@.skip(3));
            self.code_lang = trim_vec(&rest);
            self.in_code_block = true;
            self.code_lines = Vec::new();
            assert(str_views(self.code_lines@) =~= Seq::<Seq<char>>::empty());
            assert(output_models(out@) =~= output_models(old(out)@) + Seq::<OutputModel>::empty());
            return;
        }
        let s = string_from(&line);
        let r = render_line(s.as_str(), self.term_width);
        out.push(RenderOutput::Text(r));
        assert(output_models(out@) =~= output_models(old(out)@) + after_flush(m, old(self).width()).1);
    }
    /// Feeds a response text delta: pending thinking is ended first, then each
    /// completed line is rendered.
    pub fn push(&mut self, text: &str) -> (out: Vec<RenderOutput>)
        requires
            old(self).wf(),
            old(self).model().line.len() + text@.len() <= line_limit(),
        ensures
            final(self).model() == after_push(old(self).model(), text@, old(self).width()).0,
            output_models(out@) == after_push(old(self).model(), text@, old(self).width()).1,
            final(self).width() == old(self).width(),
            final(self).wf(),
    {
        let ghost w = self.width();
        let mut out: Vec<RenderOutput> = Vec::new();
        self.finish_thinking(&mut out);
        let ghost m1 = self.model();
        let ghost o1 = output_models(out@);
        assert(o1 =~= after_thinking_done(old(self).model(), w).1);
        let c = chars_of(text);
        let mut i: usize = 0;
        while i < c.len()
            invariant
                i <= c.len(),
                c@ == text@,
                self.width() == w,
                self.wf(),
                m1.line.len() + c@.len() <= line_limit(),
                self.model().line.len() <= m1.line.len() + i,
                self.model() == text_chars(m1, c@.take(i as int), w).0,
                output_models(out@) == o1 + text_chars(m1, c@.take(i as int), w).1,
            decreases c.len() - i,
        {
            let ghost before = self.model();
            let ghost ob = output_models(out@);
            let ch = c[i];
            if ch == '\n' {
                self.flush_line(&mut out);
            } else {
                self.line_buf.push(ch);
                assert(output_models(out@) =~= ob + Seq::<OutputModel>::empty());
            }
            proof {
                assert(c@.take(i + 1).drop_last() =~= c@.take(i as int));
                assert(c@.take(i + 1).last() == ch);
                assert(self.model() == text_step(before, ch, w).0);
                assert(output_models(out@) =~= o1 + text_chars(m1, c@.take(i + 1), w).1);
            }
            i = i + 1;
        }
        assert(c@.take(c.len() as int) =~= text@);
        out
    }

    /// Feeds a thinking text delta: each completed thinking line is written
    /// wrapped and dimmed.
    pub fn push_thinking(&mut self, text: &str) -> (out: Vec<RenderOutput>)
        requires
            old(self).wf(),
            old(self).model().thinking.len() + text@.len() <= line_limit(),
        ensures
            final(self).model() == after_push_thinking(old(self).model(), text@, old(self).width()).0,
            output_models(out@) == after_push_thinking(old(self).model(), text@, old(self).width()).1,
            final(self).width() == old(self).width(),
            final(self).wf(),
    {
        let ghost w = self.width();
        let mut out: Vec<RenderOutput> = Vec::new();
        self.was_thinking = true;
        let ghost m1 = self.model();
        let c = chars_of(text);
        let mut i: usize = 0;
        while i < c.len()
            invariant
                i <= c.len(),
                c@ == text@,
                self.width() == w,
                self.wf(),
                m1.thinking.len() + c@.len() <= line_limit(),
                self.model().thinking.len() <= m1.thinking.len() + i,
                self.model() == thinking_chars(m1, c@.take(i as int), w).0,
                output_models(out@) == thinking_chars(m1, c@.take(i as int), w).1,
            decreases c.len() - i,
        {
            let ghost before = self.model();
            let ghost ob = output_models(out@);
            let ch = c[i];
            if ch == '\n' {
                let mut t: Vec<char> = Vec::new();
                std::mem::swap(&mut t, &mut self.thinking_buf);
                let s = string_from(&t);
                let wrapped = wrap_line(s.as_str(), self.term_width, 0);
                let mut line = copy_str("\x1b[2m");
                push_str(&mut line, wrapped.as_str());
                push_str(&mut line, "\x1b[0m");
                push_str(&mut line, "\r\n");
                out.push(RenderOutput::Text(line));
                assert(self.thinking_buf@ =~= Seq::<char>::empty());
                assert(output_models(out@) =~= ob + thinking_step(before, ch, w).1);
            } else {
                self.thinking_buf.push(ch);
                assert(output_models(out@) =~= ob + Seq::<OutputModel>::empty());
            }
            proof {
                assert(c@.take(i + 1).drop_last() =~= c@.take(i as int));
                assert(c@.take(i + 1).last() == ch);
                assert(self.model() == thinking_step(before, ch, w).0);
            }
            i = i + 1;
        }
        assert(c@.take(c.len() as int) =~= text@);
        out
    }

    /// Flushes what is still buffered at the end of a message.
    pub fn finish(&mut self) -> (out: Vec<RenderOutput>)
        requires
            old(self).wf(),
        ensures
            final(self).model() == after_finish(old(self).model(), old(self).width()).0,
            output_models(out@) == after_finish(old(self).model(), old(self).width()).1,
            final(self).width() == old(self).width(),
            final(self).wf(),
    {
        let ghost w = self.width();
        let ghost m = self.model();
        let mut out: Vec<RenderOutput> = Vec::new();
        self.finish_thinking(&mut out);
        let ghost o1 = output_models(out@);
        let ghost m1 = self.model();
        if self.line_buf.len() > 0 {
            self.flush_line(&mut out);
        }
        let ghost o2 = output_models(out@);
        let ghost m2 = self.model();
        if self.in_code_block {
            self.close_block(&mut out);
        }
        proof {
            let r1 = after_thinking_done(m, w);
            let r2 = if r1.0.line.len() > 0 {
                after_flush(r1.0, w)
            } else {
                (r1.0, seq![])
            };
            let r3 = if r2.0.in_code {
                after_close(r2.0)
            } else {
                (r2.0, seq![])
            };
            assert(o1 =~= r1.1);
            assert(o2 =~= r1.1 + r2.1);
            assert(output_models(out@) =~= r1.1 + r2.1 + r3.1);
        }
        out
    }
}

// ---------------------------------------------------------------------------
// Laws
// ---------------------------------------------------------------------------

proof fn lemma_text_keeps_thinking(m: StreamModel, s: Seq<char>, w: int)
    ensures
        text_chars(m, s, w).0.thinking == m.thinking,
        text_chars(m, s, w).0.was_thinking == m.was_thinking,
    decreases s.len(),
{
    if s.len() > 0 {
        lemma_text_keeps_thinking(m, s.drop_last(), w);
    }
}

proof fn lemma_text_chars_concat(m: StreamModel, a: Seq<char>, b: Seq<char>, w: int)
    ensures
        text_chars(m, a + b, w).0 == text_chars(text_chars(m, a, w).0, b, w).0,
        text_chars(m, a + b, w).1 == text_chars(m, a, w).1 + text_chars(text_chars(m, a, w).0, b, w).1,
    decreases b.len(),
{
    if b.len() == 0 {
        assert(a + b =~= a);
        assert(text_chars(m, a, w).1 + Seq::<OutputModel>::empty() =~= text_chars(m, a, w).1);
    } else {
        lemma_text_chars_concat(m, a, b.drop_last(), w);
        assert((a + b).drop_last() =~= a + b.drop_last());
        assert((a + b).last() == b.last());
        let ra = text_chars(m, a, w);
        let rb = text_chars(ra.0, b.drop_last(), w);
        let st = text_step(rb.0, b.last(), w);
        assert(ra.1 + rb.1 + st.1 =~= ra.1 + (rb.1 + st.1));
    }
}

proof fn lemma_thinking_keeps_rest(m: StreamModel, s: Seq<char>, w: int)
    ensures
        thinking_chars(m, s, w).0.was_thinking == m.was_thinking,
        thinking_chars(m, s, w).0.line == m.line,
        thinking_chars(m, s, w).0.in_code == m.in_code,
        thinking_chars(m, s, w).0.lang == m.lang,
        thinking_chars(m, s, w).0.code == m.code,
    decreases s.len(),
{
    if s.len() > 0 {
        lemma_thinking_keeps_rest(m, s.drop_last(), w);
    }
}

proof fn lemma_thinking_chars_concat(m: StreamModel, a: Seq<char>, b: Seq<char>, w: int)
    ensures
        thinking_chars(m, a + b, w).0 == thinking_chars(thinking_chars(m, a, w).0, b, w).0,
        thinking_chars(m, a + b, w).1 == thinking_chars(m, a, w).1 + thinking_chars(
            thinking_chars(m, a, w).0,
            b,
            w,
        ).1,
    decreases b.len(),
{
    if b.len() == 0 {
        assert(a + b =~= a);
        assert(thinking_chars(m, a, w).1 + Seq::<OutputModel>::empty() =~= thinking_chars(m, a, w).1);
    } else {
        lemma_thinking_chars_concat(m, a, b.drop_last(), w);
        assert((a + b).drop_last() =~= a + b.drop_last());
        assert((a + b).last() == b.last());
        let ra = thinking_chars(m, a, w);
        let rb = thinking_chars(ra.0, b.drop_last(), w);
        let st = thinking_step(rb.0, b.last(), w);
        assert(ra.1 + rb.1 + st.1 =~= ra.1 + (rb.1 + st.1));
    }
}

/// Response text may arrive split anywhere: two deltas leave the renderer as
/// their concatenation does, and write the same output in the same order.
pub proof fn law_push_split(m: StreamModel, a: Seq<char>, b: Seq<char>, w: int)
    ensures
        after_push(after_push(m, a, w).0, b, w).0 == after_push(m, a + b, w).0,
        after_push(m, a, w).1 + after_push(after_push(m, a, w).0, b, w).1 == after_push(m, a + b, w).1,
{
    let r1 = after_thinking_done(m, w);
    let p1 = text_chars(r1.0, a, w);
    lemma_text_keeps_thinking(r1.0, a, w);
    let r2 = after_thinking_done(p1.0, w);
    assert(r2.0 == p1.0);
    assert(r2.1 =~= Seq::<OutputModel>::empty());
    lemma_text_chars_concat(r1.0, a, b, w);
    let p2 = text_chars(p1.0, b, w);
    assert(r2.1 + p2.1 =~= p2.1);
    assert(r1.1 + p1.1 + p2.1 =~= r1.1 + (p1.1 + p2.1));
}

/// Thinking text may arrive split anywhere, with the same effect as one
/// delta.
pub proof fn law_push_thinking_split(m: StreamModel, a: Seq<char>, b: Seq<char>, w: int)
    ensures
        after_push_thinking(after_push_thinking(m, a, w).0, b, w).0 == after_push_thinking(m, a + b, w).0,
        after_push_thinking(m, a, w).1 + after_push_thinking(after_push_thinking(m, a, w).0, b, w).1
            == after_push_thinking(m, a + b, w).1,
{
    let m1 = with_thinking(m, m.thinking, true);
    let p1 = thinking_chars(m1, a, w);
    lemma_thinking_keeps_rest(m1, a, w);
    assert(with_thinking(p1.0, p1.0.thinking, true) == p1.0);
    lemma_thinking_chars_concat(m1, a, b, w);
}

/// The end of a message writes out everything buffered and leaves a settled
/// renderer as fresh as a new one.
pub proof fn law_finish_resets(m: StreamModel, w: int)
    requires
        settled(m),
    ensures
        after_finish(m, w).0 == fresh(),
{
    let r1 = after_thinking_done(m, w);
    assert(r1.0.thinking =~= fresh().thinking);
    if r1.0.line.len() > 0 {
        let line = r1.0.line;
        if !r1.0.in_code && !starts_with(line, "```"@) {
            assert(after_flush(r1.0, w).0.lang =~= fresh().lang);
            assert(after_flush(r1.0, w).0.code =~= fresh().code);
        }
    } else {
        assert(r1.0.line =~= fresh().line);
        if !r1.0.in_code {
            assert(r1.0.lang =~= fresh().lang);
            assert(r1.0.code =~= fresh().code);
        }
    }
}

// ---------------------------------------------------------------------------
// Code blocks without highlighting
// ---------------------------------------------------------------------------

/// A line without one trailing carriage return, as `str::lines` yields it.
pub open spec fn strip_cr(l: Seq<char>) -> Seq<char> {
    if l.len() > 0 && l.last() == '\r' {
        l.drop_last()
    } else {
        l
    }
}

/// The frame's top: a corner, and the language tag when there is one.
pub open spec fn block_header(lang: Seq<char>) -> Seq<char> {
    if lang.len() == 0 {
        "\x1b[2;36m  \u{256d}\u{2500}\x1b[0m\r\n"@
    } else {
        "\x1b[2;36m  \u{256d}\u{2500} "@ + lang + "\x1b[0m\r\n"@
    }
}

/// The framed code lines, each in plain light grey.
pub open spec fn block_body(lines: Seq<Seq<char>>) -> Seq<char>
    decreases lines.len(),
{
    if lines.len() == 0 {
        seq![]
    } else {
        block_body(lines.drop_last()) + "  \x1b[2m\u{2502}\x1b[0m \x1b[37m"@ + strip_cr(lines.last())
            + "\x1b[0m\r\n"@
    }
}

/// A whole code block without highlighting: header, lines, and the frame's
/// bottom corner.
pub open spec fn plain_block(lang: Seq<char>, lines: Seq<Seq<char>>) -> Seq<char> {
    block_header(lang) + block_body(lines) + "\x1b[2;36m  \u{2570}\u{2500}\x1b[0m\r\n"@
}

/// Renders a closed code block in a frame, without syntax highlighting.
pub fn render_plain_block(lang: &str, lines: &Vec<String>) -> (r: String)
    ensures
        r@ == plain_block(lang@, str_views(lines@)),
{
    let mut r: String;
    if chars_of(lang).len() == 0 {
        r = copy_str("\x1b[2;36m  \u{256d}\u{2500}\x1b[0m\r\n");
    } else {
        r = copy_str("\x1b[2;36m  \u{256d}\u{2500} ");
        push_str(&mut r, lang);
        push_str(&mut r, "\x1b[0m\r\n");
    }
    let ghost head = r@;
    assert(head == block_header(lang@));
    let mut i: usize = 0;
    while i < lines.len()
        invariant
            i <= lines.len(),
            r@ == head + block_body(str_views(lines@).take(i as int)),
        decreases lines.len() - i,
    {
        push_str(&mut r, "  \x1b[2m\u{2502}\x1b[0m \x1b[37m");
        let c = chars_of(lines[i].as_str());
        let n = c.len();
        if n > 0 && c[n - 1] == '\r' {
            push_range(&mut r, &c, 0, n - 1);
            assert(c@.subrange(0, n - 1) =~= strip_cr(lines@[i as int]@));
        } else {
            push_range(&mut r, &c, 0, n);
            assert(c@.subrange(0, n as int) =~= strip_cr(lines@[i as int]@));
        }
        push_str(&mut r, "\x1b[0m\r\n");
        proof {
            let vs = str_views(lines@);
            assert(vs.take(i + 1).drop_last() =~= vs.take(i as int));
            assert(vs.take(i + 1).last() == lines@[i as int]@);
        }
        i = i + 1;
    }
    assert(str_views(lines@).take(lines.len() as int) =~= str_views(lines@));
    push_str(&mut r, "\x1b[2;36m  \u{2570}\u{2500}\x1b[0m\r\n");
    r
}

} // verus!
