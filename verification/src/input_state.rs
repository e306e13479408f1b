use vstd::prelude::*;

use crate::text::{
    byte_len, char_index, char_index_exec, char_utf8_len, chars_of, is_boundary, lemma_byte_len_take_mono,
    lemma_char_index, len_utf8, prefix_byte_len, string_from, string_len,
    sub_vec, trim, trim_vec,
};

verus! {

/// One entry in the completion popup.
#[derive(Clone)]
pub struct CompletionItem {
    /// Left column: command (with leading `/`) or file path under the `@` token.
    pub label: String,
    /// Right column: short description, rendered right-aligned.
    pub description: String,
    /// Full buffer replacement applied when this item is accepted (Tab).
    pub accept: String,
    /// Per-char hit flags for `label`: `true` where the char matches the query.
    /// Slash commands mark a leading prefix run; `@` file completions mark a
    /// scattered subsequence (fzf-style fuzzy match).
    pub matched: Vec<bool>,
}

/// Text input state with cursor, history, and slash command completion.
pub struct InputState {
    pub buffer: String,
    /// Byte offset of the cursor in `buffer`.
    pub cursor_pos: usize,
    pub history: Vec<String>,
    pub history_index: Option<usize>,
    pub history_working: String,
    /// Unified completion items driving the popup.
    pub completion_items: Vec<CompletionItem>,
    pub completion_index: usize,
    /// Ghost text shown inline after cursor (dimmed preview of completion).
    pub ghost_text: Option<String>,
    /// Whether we're in file completion mode (after typing @).
    pub file_completion_active: bool,
}

/// The word start that deleting a word backward from character index `k` reaches:
/// first over spaces, then over non-spaces.
pub open spec fn skip_spaces_back(s: Seq<char>, k: int) -> int
    decreases k,
{
    if k > 0 && s[k - 1] == ' ' {
        skip_spaces_back(s, k - 1)
    } else {
        k
    }
}

pub open spec fn skip_word_back(s: Seq<char>, k: int) -> int
    decreases k,
{
    if k > 0 && s[k - 1] != ' ' {
        skip_word_back(s, k - 1)
    } else {
        k
    }
}

pub open spec fn word_start(s: Seq<char>, k: int) -> int {
    skip_word_back(s, skip_spaces_back(s, k))
}

pub proof fn lemma_skip_back_bounds(s: Seq<char>, k: int)
    requires
        0 <= k <= s.len(),
    ensures
        0 <= skip_spaces_back(s, k) <= k,
        0 <= skip_word_back(s, k) <= k,
    decreases k,
{
    if k > 0 {
        lemma_skip_back_bounds(s, k - 1);
    }
}

impl InputState {
    /// The cursor sits on a character boundary of the buffer, and the history
    /// position (if any) is at most the history's length.
    pub open spec fn wf(&self) -> bool {
        &&& is_boundary(self.buffer@, self.cursor_pos as int)
        &&& (self.history_index matches Some(i) ==> i <= self.history.len())
    }

    /// The character index of the cursor.
    pub open spec fn cursor_char(&self) -> int {
        char_index(self.buffer@, self.cursor_pos as int)
    }

    /// Everything but the buffer and the cursor is the same in `self` and `other`.
    pub open spec fn same_but_text(&self, other: &InputState) -> bool {
        &&& self.history == other.history
        &&& self.history_index == other.history_index
        &&& self.history_working == other.history_working
        &&& self.completion_items == other.completion_items
        &&& self.completion_index == other.completion_index
        &&& self.ghost_text == other.ghost_text
        &&& self.file_completion_active == other.file_completion_active
    }

    /// The completion popup is closed and file completion is off.
    pub open spec fn completions_cleared(&self) -> bool {
        &&& self.completion_items@.len() == 0
        &&& self.completion_index == 0
        &&& self.ghost_text is None
        &&& !self.file_completion_active
    }

    pub fn new() -> (s: Self)
        ensures
            s.wf(),
            s.buffer@ == Seq::<char>::empty(),
            s.cursor_pos == 0,
            s.history@ == Seq::<String>::empty(),
            s.history_index is None,
            s.history_working@ == Seq::<char>::empty(),
            s.completions_cleared(),
    {
        let s = Self {
            buffer: String::new(),
            cursor_pos: 0,
            history: Vec::new(),
            history_index: None,
            history_working: String::new(),
            completion_items: Vec::new(),
            completion_index: 0,
            ghost_text: None,
            file_completion_active: false,
        };
        proof {
            lemma_char_index(s.buffer@, 0, 0);
        }
        s
    }

    /// The buffer's characters, its byte length and the cursor's character index.
    fn locate(&self) -> (r: (Vec<char>, usize, usize))
        requires
            self.wf(),
        ensures
            r.0@ == self.buffer@,
            r.1 == byte_len(self.buffer@),
            r.2 == self.cursor_char(),
            r.2 <= r.0.len(),
            byte_len(self.buffer@.take(r.2 as int)) == self.cursor_pos,
    {
        let chars = chars_of(self.buffer.as_str());
        let total = string_len(&self.buffer);
        let k = char_index_exec(&chars, self.cursor_pos, total);
        (chars, total, k)
    }

    /// Replaces the buffer by `chars` and puts the cursor before character `k`.
    fn set_text(&mut self, chars: &Vec<char>, k: usize, total: usize)
        requires
            k <= chars.len(),
            total == byte_len(chars@),
        ensures
            final(self).buffer@ == chars@,
            final(self).cursor_pos == byte_len(chars@.take(k as int)),
            final(self).cursor_char() == k,
            final(self).same_but_text(old(self)),
    {
        let pos = prefix_byte_len(chars, k, total);
        self.buffer = string_from(chars);
        self.cursor_pos = pos;
        proof {
            lemma_char_index(chars@, pos as int, k as int);
        }
    }

    /// Inserts `c` at the cursor and moves the cursor past it.
    pub fn insert_char(&mut self, c: char)
        requires
            old(self).wf(),
            byte_len(old(self).buffer@) + 4 <= usize::MAX,
        ensures
            final(self).wf(),
            final(self).buffer@ == old(self).buffer@.take(old(self).cursor_char()).push(c) + old(
                self,
            ).buffer@.skip(old(self).cursor_char()),
            final(self).cursor_pos == old(self).cursor_pos + char_utf8_len(c),
            final(self).cursor_char() == old(self).cursor_char() + 1,
            final(self).same_but_text(old(self)),
    {
        let (chars, total, k) = self.locate();
        let mut v = sub_vec(&chars, 0, k);
        v.push(c);
        let rest = sub_vec(&chars, k, chars.len());
        let mut i: usize = 0;
        let ghost head = v@;
        while i < rest.len()
            invariant
                i <= rest.len(),
                v@ == head + rest@.take(i as int),
            decreases rest.len() - i,
        {
            v.push(rest[i]);
            i = i + 1;
            assert(v@ =~= head + rest@.take(i as int));
        }
        assert(rest@.take(i as int) =~= rest@);
        assert(v@ =~= chars@.take(k as int).push(c) + chars@.skip(k as int));
        proof {
            crate::text::lemma_byte_len_concat(chars@.take(k as int).push(c), chars@.skip(k as int));
            crate::text::lemma_byte_len_concat(chars@.take(k as int), chars@.skip(k as int));
            assert(chars@.take(k as int) + chars@.skip(k as int) =~= chars@);
            assert(chars@.take(k as int).push(c).drop_last() =~= chars@.take(k as int));
            assert(v@.take(k + 1) =~= chars@.take(k as int).push(c));
            assert(v@.take(k + 1).drop_last() =~= chars@.take(k as int));
        }
        let new_total = total + len_utf8(c);
        assert(v@.len() == chars@.len() + 1);
        assert(k < v.len());
        self.set_text(&v, k + 1, new_total);
    }

    /// Deletes the character before the cursor.
    pub fn backspace(&mut self)
        requires
            old(self).wf(),
        ensures
            final(self).wf(),
            final(self).same_but_text(old(self)),
            old(self).cursor_pos > 0 ==> {
                &&& final(self).buffer@ == old(self).buffer@.take(old(self).cursor_char() - 1) + old(
                    self,
                ).buffer@.skip(old(self).cursor_char())
                &&& final(self).cursor_char() == old(self).cursor_char() - 1
                &&& final(self).cursor_pos == byte_len(
                    old(self).buffer@.take(old(self).cursor_char() - 1),
                )
            },
            old(self).cursor_pos == 0 ==> *final(self) == *old(self),
    {
        if self.cursor_pos > 0 {
            let (chars, total, k) = self.locate();
            assert(k > 0) by {
                if k == 0 {
                    assert(chars@.take(0) =~= Seq::<char>::empty());
                }
            }
            let (v, vt) = splice_out(&chars, total, k - 1, k);
            proof {
                assert(v@.take(k - 1) =~= chars@.take(k - 1));
            }
            self.set_text(&v, k - 1, vt);
        }
    }

    /// Deletes the character at the cursor.
    pub fn delete(&mut self)
        requires
            old(self).wf(),
        ensures
            final(self).wf(),
            final(self).same_but_text(old(self)),
            final(self).cursor_pos == old(self).cursor_pos,
            old(self).cursor_char() < old(self).buffer@.len() ==> final(self).buffer@ == old(
                self,
            ).buffer@.take(old(self).cursor_char()) + old(self).buffer@.skip(
                old(self).cursor_char() + 1,
            ),
            old(self).cursor_char() >= old(self).buffer@.len() ==> final(self).buffer@ == old(
                self,
            ).buffer@,
    {
        let (chars, total, k) = self.locate();
        if k < chars.len() {
            let (v, vt) = splice_out(&chars, total, k, k + 1);
            proof {
                assert(v@.take(k as int) =~= chars@.take(k as int));
            }
            self.set_text(&v, k, vt);
        }
    }

    pub fn move_cursor_left(&mut self)
        requires
            old(self).wf(),
        ensures
            final(self).wf(),
            final(self).same_but_text(old(self)),
            final(self).buffer == old(self).buffer,
            final(self).cursor_char() == if old(self).cursor_char() > 0 {
                old(self).cursor_char() - 1
            } else {
                0
            },
    {
        let (chars, total, k) = self.locate();
        if k > 0 {
            let pos = prefix_byte_len(&chars, k - 1, total);
            self.cursor_pos = pos;
            proof {
                lemma_char_index(chars@, pos as int, k - 1);
            }
        }
    }

    pub fn move_cursor_right(&mut self)
        requires
            old(self).wf(),
        ensures
            final(self).wf(),
            final(self).same_but_text(old(self)),
            final(self).buffer == old(self).buffer,
            final(self).cursor_char() == if old(self).cursor_char() < old(self).buffer@.len() {
                old(self).cursor_char() + 1
            } else {
                old(self).cursor_char()
            },
    {
        let (chars, total, k) = self.locate();
        if k < chars.len() {
            let pos = prefix_byte_len(&chars, k + 1, total);
            self.cursor_pos = pos;
            proof {
                lemma_char_index(chars@, pos as int, k + 1);
            }
        }
    }

    pub fn move_cursor_home(&mut self)
        requires
            old(self).wf(),
        ensures
            final(self).wf(),
            final(self).same_but_text(old(self)),
            final(self).buffer == old(self).buffer,
            final(self).cursor_pos == 0,
            final(self).cursor_char() == 0,
    {
        self.cursor_pos = 0;
        proof {
            assert(self.buffer@.take(0) =~= Seq::<char>::empty());
            lemma_char_index(self.buffer@, 0, 0);
        }
    }

    pub fn move_cursor_end(&mut self)
        requires
            old(self).wf(),
        ensures
            final(self).wf(),
            final(self).same_but_text(old(self)),
            final(self).buffer == old(self).buffer,
            final(self).cursor_pos == byte_len(old(self).buffer@),
            final(self).cursor_char() == old(self).buffer@.len(),
    {
        self.cursor_pos = string_len(&self.buffer);
        proof {
            assert(self.buffer@.take(self.buffer@.len() as int) =~= self.buffer@);
            lemma_char_index(self.buffer@, self.cursor_pos as int, self.buffer@.len() as int);
        }
    }

    /// Empties the buffer and closes the completion popup.
    pub fn clear(&mut self)
        requires
            old(self).wf(),
        ensures
            final(self).wf(),
            final(self).buffer@ == Seq::<char>::empty(),
            final(self).cursor_pos == 0,
            final(self).history == old(self).history,
            final(self).history_index == old(self).history_index,
            final(self).history_working == old(self).history_working,
            final(self).completions_cleared(),
    {
        self.buffer = String::new();
        self.cursor_pos = 0;
        self.clear_completions();
        proof {
            lemma_char_index(self.buffer@, 0, 0);
        }
    }

    /// Delete from cursor to end of line.
    pub fn delete_to_end(&mut self)
        requires
            old(self).wf(),
        ensures
            final(self).wf(),
            final(self).same_but_text(old(self)),
            final(self).buffer@ == old(self).buffer@.take(old(self).cursor_char()),
            final(self).cursor_pos == old(self).cursor_pos,
    {
        let (chars, total, k) = self.locate();
        let v = sub_vec(&chars, 0, k);
        let pos = self.cursor_pos;
        proof {
            assert(v@ =~= chars@.take(k as int));
            assert(v@.take(k as int) =~= v@);
        }
        self.set_text(&v, k, pos);
    }

    /// Delete from cursor to start of line.
    pub fn delete_to_start(&mut self)
        requires
            old(self).wf(),
        ensures
            final(self).wf(),
            final(self).same_but_text(old(self)),
            final(self).buffer@ == old(self).buffer@.skip(old(self).cursor_char()),
            final(self).cursor_pos == 0,
    {
        let (chars, total, k) = self.locate();
        let (v, vt) = splice_out(&chars, total, 0, k);
        assert(v@ =~= chars@.skip(k as int));
        self.set_text(&v, 0, vt);
        assert(v@.take(0) =~= Seq::<char>::empty());
    }

    /// Delete word backward from cursor: first the spaces before the cursor,
    /// then the non-space characters before them.
    pub fn delete_word_backward(&mut self)
        requires
            old(self).wf(),
        ensures
            final(self).wf(),
            final(self).same_but_text(old(self)),
            final(self).buffer@ == old(self).buffer@.take(
                word_start(old(self).buffer@, old(self).cursor_char()),
            ) + old(self).buffer@.skip(old(self).cursor_char()),
            final(self).cursor_char() == word_start(old(self).buffer@, old(self).cursor_char()),
    {
        let (chars, total, k) = self.locate();
        if k == 0 {
            proof {
                assert(chars@.take(0) + chars@.skip(0) =~= chars@);
            }
            return;
        }
        let mut pos = k;
        while pos > 0 && chars[pos - 1] == ' '
            invariant
                pos <= k <= chars.len(),
                skip_spaces_back(chars@, k as int) == skip_spaces_back(chars@, pos as int),
            decreases pos,
        {
            pos = pos - 1;
        }
        let mid = pos;
        while pos > 0 && chars[pos - 1] != ' '
            invariant
                pos <= mid <= k <= chars.len(),
                skip_spaces_back(chars@, k as int) == mid,
                skip_word_back(chars@, mid as int) == skip_word_back(chars@, pos as int),
            decreases pos,
        {
            pos = pos - 1;
        }
        assert(pos == word_start(chars@, k as int));
        let (v, vt) = splice_out(&chars, total, pos, k);
        proof {
            assert(v@.take(pos as int) =~= chars@.take(pos as int));
        }
        self.set_text(&v, pos, vt);
    }

    /// Take the buffer content, push it to history (unless it is blank), reset state.
    pub fn take_buffer(&mut self) -> (r: String)
        requires
            old(self).wf(),
        ensures
            final(self).wf(),
            r == old(self).buffer,
            final(self).buffer@ == Seq::<char>::empty(),
            final(self).cursor_pos == 0,
            final(self).history@ == if trim(old(self).buffer@).len() > 0 {
                old(self).history@.push(old(self).buffer)
            } else {
                old(self).history@
            },
            final(self).history_index is None,
            final(self).history_working == old(self).history_working,
            final(self).completions_cleared(),
    {
        let mut buf = String::new();
        std::mem::swap(&mut buf, &mut self.buffer);
        self.cursor_pos = 0;
        let chars = chars_of(buf.as_str());
        let t = trim_vec(&chars);
        if t.len() > 0 {
            self.history.push(buf.clone());
        }
        self.history_index = None;
        self.clear_completions();
        proof {
            lemma_char_index(self.buffer@, 0, 0);
        }
        buf
    }

    /// Steps back through the history, keeping the unsent buffer aside the first time.
    pub fn history_up(&mut self)
        requires
            old(self).wf(),
        ensures
            final(self).wf(),
            final(self).completion_items == old(self).completion_items,
            final(self).completion_index == old(self).completion_index,
            final(self).ghost_text == old(self).ghost_text,
            final(self).file_completion_active == old(self).file_completion_active,
            final(self).history == old(self).history,
            old(self).history@.len() == 0 ==> *final(self) == *old(self),
            old(self).history@.len() > 0 ==> {
                let idx = match old(self).history_index {
                    Some(i) => i as int,
                    None => old(self).history@.len() as int,
                };
                &&& final(self).history_working == (if old(self).history_index is None {
                    old(self).buffer
                } else {
                    old(self).history_working
                })
                &&& idx > 0 ==> {
                    &&& final(self).buffer == old(self).history@[idx - 1]
                    &&& final(self).cursor_pos == byte_len(final(self).buffer@)
                    &&& final(self).history_index == Some((idx - 1) as usize)
                }
                &&& idx == 0 ==> final(self).buffer == old(self).buffer && final(self).cursor_pos
                    == old(self).cursor_pos && final(self).history_index == old(self).history_index
            },
    {
        if self.history.len() == 0 {
            return;
        }
        if self.history_index.is_none() {
            self.history_working = self.buffer.clone();
        }
        let idx = match self.history_index {
            Some(i) => i,
            None => self.history.len(),
        };
        if idx > 0 {
            let new_idx = idx - 1;
            self.buffer = self.history[new_idx].clone();
            self.cursor_pos = string_len(&self.buffer);
            self.history_index = Some(new_idx);
            proof {
                assert(self.buffer@.take(self.buffer@.len() as int) =~= self.buffer@);
                lemma_char_index(self.buffer@, self.cursor_pos as int, self.buffer@.len() as int);
            }
        }
    }

    /// Steps forward through the history; past its end, restores the unsent buffer.
    pub fn history_down(&mut self)
        requires
            old(self).wf(),
        ensures
            final(self).wf(),
            final(self).completion_items == old(self).completion_items,
            final(self).completion_index == old(self).completion_index,
            final(self).ghost_text == old(self).ghost_text,
            final(self).file_completion_active == old(self).file_completion_active,
            final(self).history == old(self).history,
            final(self).history_working == old(self).history_working,
            old(self).history_index is None ==> *final(self) == *old(self),
            old(self).history_index matches Some(i) ==> if i + 1 < old(self).history@.len() {
                &&& final(self).buffer == old(self).history@[i + 1]
                &&& final(self).history_index == Some((i + 1) as usize)
                &&& final(self).cursor_pos == byte_len(final(self).buffer@)
            } else {
                &&& final(self).buffer == old(self).history_working
                &&& final(self).history_index is None
                &&& final(self).cursor_pos == byte_len(final(self).buffer@)
            },
    {
        if let Some(idx) = self.history_index {
            if self.history.len() > 0 && idx < self.history.len() - 1 {
                let new_idx = idx + 1;
                self.buffer = self.history[new_idx].clone();
                self.history_index = Some(new_idx);
            } else {
                self.buffer = self.history_working.clone();
                self.history_index = None;
            }
            self.cursor_pos = string_len(&self.buffer);
            proof {
                assert(self.buffer@.take(self.buffer@.len() as int) =~= self.buffer@);
                lemma_char_index(self.buffer@, self.cursor_pos as int, self.buffer@.len() as int);
            }
        }
    }

    /// Closes the completion popup and leaves file completion mode.
    pub fn clear_completions(&mut self)
        ensures
            final(self).completions_cleared(),
            final(self).buffer == old(self).buffer,
            final(self).cursor_pos == old(self).cursor_pos,
            final(self).history == old(self).history,
            final(self).history_index == old(self).history_index,
            final(self).history_working == old(self).history_working,
    {
        self.completion_items = Vec::new();
        self.completion_index = 0;
        self.ghost_text = None;
        self.file_completion_active = false;
    }
}

/// `v[..a] + v[b..]` and its byte length.
fn splice_out(v: &Vec<char>, total: usize, a: usize, b: usize) -> (r: (Vec<char>, usize))
    requires
        a <= b <= v.len(),
        total == byte_len(v@),
    ensures
        r.0@ == v@.take(a as int) + v@.skip(b as int),
        r.1 == byte_len(r.0@),
{
    let mut out = sub_vec(v, 0, a);
    let mut i = b;
    while i < v.len()
        invariant
            a <= b <= i <= v.len(),
            out@ == v@.take(a as int) + v@.subrange(b as int, i as int),
        decreases v.len() - i,
    {
        out.push(v[i]);
        i = i + 1;
        assert(out@ =~= v@.take(a as int) + v@.subrange(b as int, i as int));
    }
    assert(v@.subrange(b as int, v.len() as int) =~= v@.skip(b as int));
    let pa = prefix_byte_len(v, a, total);
    let pb = prefix_byte_len(v, b, total);
    proof {
        crate::text::lemma_byte_len_concat(v@.take(a as int), v@.skip(b as int));
        crate::text::lemma_byte_len_concat(v@.take(b as int), v@.skip(b as int));
        assert(v@.take(b as int) + v@.skip(b as int) =~= v@);
        lemma_byte_len_take_mono(v@, a as int, b as int);
    }
    (out, pa + (total - pb))
}

// ---------------------------------------------------------------------------
// Laws
// ---------------------------------------------------------------------------

/// The cursor of a well-formed state sits `byte_len` of the characters
/// before it into the buffer.
pub proof fn lemma_cursor_bytes(s: InputState)
    requires
        s.wf(),
    ensures
        0 <= s.cursor_char() <= s.buffer@.len(),
        byte_len(s.buffer@.take(s.cursor_char())) == s.cursor_pos,
{
}

/// Typing a character and then deleting it with backspace gives back the
/// buffer and the cursor as they were.
pub proof fn law_insert_then_backspace(s0: InputState, c: char, s1: InputState, s2: InputState)
    requires
        s0.wf(),
        s1.buffer@ == s0.buffer@.take(s0.cursor_char()).push(c) + s0.buffer@.skip(s0.cursor_char()),
        s1.cursor_pos == s0.cursor_pos + char_utf8_len(c),
        s1.cursor_char() == s0.cursor_char() + 1,
        s2.buffer@ == s1.buffer@.take(s1.cursor_char() - 1) + s1.buffer@.skip(s1.cursor_char()),
        s2.cursor_pos == byte_len(s1.buffer@.take(s1.cursor_char() - 1)),
    ensures
        s2.buffer@ == s0.buffer@,
        s2.cursor_pos == s0.cursor_pos,
{
    lemma_cursor_bytes(s0);
    let k = s0.cursor_char();
    let b = s0.buffer@;
    assert(s1.buffer@.take(k) =~= b.take(k));
    assert(s1.buffer@.skip(k + 1) =~= b.skip(k));
    assert(b.take(k) + b.skip(k) =~= b);
}

/// Moving the cursor left and then right, from anywhere but the start,
/// brings it back.
pub proof fn law_left_then_right(s0: InputState, s1: InputState, s2: InputState)
    requires
        s0.wf(),
        s1.wf(),
        s2.wf(),
        s0.cursor_char() > 0,
        s1.buffer == s0.buffer,
        s1.cursor_char() == s0.cursor_char() - 1,
        s2.buffer == s1.buffer,
        s2.cursor_char() == s1.cursor_char() + 1,
    ensures
        s2.cursor_pos == s0.cursor_pos,
{
    lemma_cursor_bytes(s0);
    lemma_cursor_bytes(s2);
}

/// Stepping up into the history and back down again restores the text
/// that was being typed.
pub proof fn law_history_round_trip(s0: InputState, s1: InputState, s2: InputState)
    requires
        s0.history@.len() > 0,
        s0.history_index is None,
        s1.history == s0.history,
        s1.history_working == s0.buffer,
        s1.history_index == Some((s0.history@.len() - 1) as usize),
        s2.history_index is None,
        s2.buffer == s1.history_working,
    ensures
        s2.buffer == s0.buffer,
{
}

} // verus!
