use vstd::prelude::*;

use crate::fuzzy::{fuzzy_match, fuzzy_outcome, FuzzyMatch};
use crate::input_state::{CompletionItem, InputState};
use crate::ranking::{
    lemma_match_hits_bounds, lemma_outcome_key, match_hits, match_key, match_keys, select_top,
    top_ranked,
};
use crate::slash::{slash_entry, slash_table, SLASH_COMMAND_COUNT};
use crate::text::{
    byte_len, char_pos, char_pos_exec, char_rpos, char_rpos_exec, char_utf8_len, chars_of,
    concat_chars, is_ws, is_whitespace, lemma_char_index, lemma_prefix_byte_len, starts_with, starts_with_exec, string_from, string_from_range,
    string_len, sub_vec, chars_eq,
};

verus! {

/// The most rows the completion popup shows.
pub const MAX_COMPLETIONS: usize = 8;

/// Whether the string starts with a `/`.
pub open spec fn is_slash_command(s: Seq<char>) -> bool {
    s.len() > 0 && s[0] == '/'
}

/// The table indices, below `n`, of the slash commands that start with `q`, in table order.
pub open spec fn slash_hits(q: Seq<char>, n: int) -> Seq<int>
    decreases n,
{
    if n <= 0 {
        Seq::empty()
    } else {
        let h = slash_hits(q, n - 1);
        if starts_with(slash_table()[n - 1].0, q) {
            h.push(n - 1)
        } else {
            h
        }
    }
}

/// `len` flags of which the first `m` are set.
pub open spec fn prefix_flags(len: int, m: int) -> Seq<bool> {
    Seq::new(len as nat, |j: int| j < m)
}

/// `item` is the popup row for table entry `i` when `qc` characters were typed.
pub open spec fn slash_item(item: CompletionItem, i: int, qc: int) -> bool {
    &&& item.label@ == slash_table()[i].0
    &&& item.description@ == slash_table()[i].1
    &&& item.accept@ == slash_table()[i].0
    &&& item.matched@ == prefix_flags(slash_table()[i].0.len() as int, qc)
}

/// The inline preview after `typed`: the rest of the first row's label when
/// that label extends what was typed.
pub open spec fn preview(label: Seq<char>, typed: Seq<char>) -> Option<Seq<char>> {
    if starts_with(label, typed) && label.len() > typed.len() {
        Some(label.skip(typed.len() as int))
    } else {
        None
    }
}

/// The ghost text holds `v`.
pub open spec fn ghost_is(g: Option<String>, v: Option<Seq<char>>) -> bool {
    match v {
        Some(t) => g matches Some(s) && s@ == t,
        None => g is None,
    }
}

/// The slash completion rows for the buffer `q`: the commands that start
/// with it, in sorted order, at most eight of them.
pub open spec fn slash_rows(items: Seq<CompletionItem>, q: Seq<char>) -> bool {
    let h = slash_hits(q, SLASH_COMMAND_COUNT as int);
    &&& items.len() == if h.len() < MAX_COMPLETIONS {
        h.len() as int
    } else {
        MAX_COMPLETIONS as int
    }
    &&& forall|k: int| 0 <= k < items.len() ==> slash_item(#[trigger] items[k], h[k], q.len() as int)
}

/// The preview after the buffer `q` for the rows `items`.
pub open spec fn rows_preview(items: Seq<CompletionItem>, q: Seq<char>) -> Option<Seq<char>> {
    if items.len() > 0 {
        preview(items[0].label@, q)
    } else {
        None
    }
}

/// Everything but the completion popup is the same in `a` and `b`.
pub open spec fn same_but_popup(a: &InputState, b: &InputState) -> bool {
    &&& a.buffer == b.buffer
    &&& a.cursor_pos == b.cursor_pos
    &&& a.history == b.history
    &&& a.history_index == b.history_index
    &&& a.history_working == b.history_working
}

pub proof fn lemma_slash_hits_bounds(q: Seq<char>, n: int)
    requires
        0 <= n,
    ensures
        slash_hits(q, n).len() <= n,
        forall|k: int| 0 <= k < slash_hits(q, n).len() ==> 0 <= #[trigger] slash_hits(q, n)[k] < n,
    decreases n,
{
    if n > 0 {
        lemma_slash_hits_bounds(q, n - 1);
    }
}

/// The row for table entry `i` when `qc` characters were typed.
fn slash_row(i: usize, qc: usize) -> (item: CompletionItem)
    requires
        i < SLASH_COMMAND_COUNT,
    ensures
        slash_item(item, i as int, qc as int),
{
    let (cmd, desc) = slash_entry(i);
    let cmd_chars = chars_of(cmd);
    let desc_chars = chars_of(desc);
    let n = cmd_chars.len();
    let mut matched: Vec<bool> = Vec::new();
    while matched.len() < n
        invariant
            matched.len() <= n,
            forall|j: int| 0 <= j < matched.len() ==> #[trigger] matched@[j] == (j < qc),
        decreases n - matched.len(),
    {
        let j = matched.len();
        matched.push(j < qc);
    }
    assert(matched@ =~= prefix_flags(n as int, qc as int));
    CompletionItem {
        label: string_from(&cmd_chars),
        description: string_from(&desc_chars),
        accept: string_from(&cmd_chars),
        matched,
    }
}

impl InputState {
    /// Populate slash-command completion items matching the buffer prefix.
    pub fn complete_slash(&mut self)
        ensures
            same_but_popup(final(self), old(self)),
            final(self).file_completion_active == old(self).file_completion_active,
            !is_slash_command(old(self).buffer@) ==> {
                &&& final(self).completion_items@.len() == 0
                &&& final(self).completion_index == old(self).completion_index
                &&& final(self).ghost_text == old(self).ghost_text
            },
            is_slash_command(old(self).buffer@) ==> {
                &&& slash_rows(final(self).completion_items@, old(self).buffer@)
                &&& final(self).completion_index == 0
                &&& ghost_is(
                    final(self).ghost_text,
                    rows_preview(final(self).completion_items@, old(self).buffer@),
                )
            },
    {
        let q = chars_of(self.buffer.as_str());
        if q.len() == 0 || q[0] != '/' {
            self.completion_items = Vec::new();
            return;
        }
        let qc = q.len();
        let mut items: Vec<CompletionItem> = Vec::new();
        let mut i: usize = 0;
        while i < SLASH_COMMAND_COUNT
            invariant
                i <= SLASH_COMMAND_COUNT,
                q@ == self.buffer@,
                qc == q.len(),
                items.len() == if slash_hits(q@, i as int).len() < MAX_COMPLETIONS {
                    slash_hits(q@, i as int).len() as int
                } else {
                    MAX_COMPLETIONS as int
                },
                forall|k: int|
                    0 <= k < items.len() ==> slash_item(
                        #[trigger] items@[k],
                        slash_hits(q@, i as int)[k],
                        qc as int,
                    ),
            decreases SLASH_COMMAND_COUNT - i,
        {
            let (cmd, _) = slash_entry(i);
            let cmd_chars = chars_of(cmd);
            let ghost h = slash_hits(q@, i as int);
            assert(slash_hits(q@, i + 1) == if starts_with(slash_table()[i as int].0, q@) {
                h.push(i as int)
            } else {
                h
            });
            if starts_with_exec(&cmd_chars, &q) && items.len() < MAX_COMPLETIONS {
                let item = slash_row(i, qc);
                items.push(item);
            }
            i = i + 1;
        }
        self.completion_items = items;
        self.completion_index = 0;
        self.update_ghost_text(&q);
    }

    /// Update inline ghost text for the leading slash-completion match.
    fn update_ghost_text(&mut self, q: &Vec<char>)
        requires
            q@ == old(self).buffer@,
            is_slash_command(q@),
        ensures
            ghost_is(final(self).ghost_text, rows_preview(old(self).completion_items@, q@)),
            same_but_popup(final(self), old(self)),
            final(self).completion_items == old(self).completion_items,
            final(self).completion_index == old(self).completion_index,
            final(self).file_completion_active == old(self).file_completion_active,
    {
        self.ghost_text = None;
        if self.completion_items.len() > 0 {
            let label = chars_of(self.completion_items[0].label.as_str());
            // Of a label that starts with the buffer, the longer in bytes is
            // the longer in characters.
            if starts_with_exec(&label, q) && label.len() > q.len() {
                self.ghost_text = Some(string_from_range(&label, q.len(), label.len()));
                assert(label@.subrange(q.len() as int, label.len() as int) =~= label@.skip(
                    q.len() as int,
                ));
            }
            proof {
                if starts_with(label@, q@) {
                    lemma_prefix_byte_len(label@, q@);
                }
            }
        }
    }

    /// Move the completion selection by `delta`, wrapping within the list:
    /// the new index is `index + delta` taken modulo the list's length.
    pub fn move_completion(&mut self, delta: i32)
        ensures
            same_but_popup(final(self), old(self)),
            final(self).completion_items == old(self).completion_items,
            final(self).ghost_text == old(self).ghost_text,
            final(self).file_completion_active == old(self).file_completion_active,
            final(self).completion_index == wrap_index(
                old(self).completion_index as int,
                delta as int,
                old(self).completion_items.len() as int,
            ),
            old(self).completion_items.len() > 0 ==> final(self).completion_index < old(self).completion_items.len(),
    {
        if self.completion_items.len() == 0 {
            return;
        }
        let n = self.completion_items.len() as u128;
        let i = self.completion_index as i128 + delta as i128;
        let m: u128 = if i >= 0 {
            (i as u128) % n
        } else {
            let k = ((-i) as u128) % n;
            if k == 0 {
                0
            } else {
                n - k
            }
        };
        proof {
            let ii = self.completion_index as int + delta as int;
            let nn = n as int;
            assert(i == ii);
            if ii >= 0 {
                assert(m == ii % nn);
            } else {
                let a = -ii;
                let k = a % nn;
                assert(((-i) as u128) % n == k);
                let q = a / nn;
                vstd::arithmetic::div_mod::lemma_fundamental_div_mod(a, nn);
                assert(a == nn * q + k);
                if k == 0 {
                    assert(ii == (-q) * nn + 0) by (nonlinear_arith)
                        requires
                            a == nn * q,
                            ii == -a,
                    ;
                    vstd::arithmetic::div_mod::lemma_fundamental_div_mod_converse(ii, nn, -q, 0);
                } else {
                    assert(0 < k < nn);
                    assert(ii == (-q - 1) * nn + (nn - k)) by (nonlinear_arith)
                        requires
                            a == nn * q + k,
                            ii == -a,
                    ;
                    vstd::arithmetic::div_mod::lemma_fundamental_div_mod_converse(ii, nn, -q - 1, nn - k);
                }
            }
            assert(0 <= m < nn);
        }
        self.completion_index = m as usize;
    }

    /// Accept the currently selected completion item into the buffer.
    pub fn accept_completion(&mut self)
        requires
            old(self).wf(),
        ensures
            final(self).wf(),
            final(self).history == old(self).history,
            final(self).history_index == old(self).history_index,
            final(self).history_working == old(self).history_working,
            final(self).completions_cleared(),
            old(self).completion_index < old(self).completion_items.len() ==> {
                &&& final(self).buffer@ == old(
                    self,
                ).completion_items@[old(self).completion_index as int].accept@
                &&& final(self).cursor_pos == byte_len(final(self).buffer@)
            },
            old(self).completion_index >= old(self).completion_items.len() ==> {
                &&& final(self).buffer == old(self).buffer
                &&& final(self).cursor_pos == old(self).cursor_pos
            },
    {
        if self.completion_index < self.completion_items.len() {
            let accepted = self.completion_items[self.completion_index].accept.clone();
            self.buffer = accepted;
            self.cursor_pos = string_len(&self.buffer);
            proof {
                assert(self.buffer@.take(self.buffer@.len() as int) =~= self.buffer@);
                lemma_char_index(self.buffer@, self.cursor_pos as int, self.buffer@.len() as int);
            }
        }
        self.clear_completions();
    }
}

/// Where the selection lands when it moves by `delta` in a list of `n` rows
/// from `index`: one step past either end wraps to the other end. A move of
/// more than a whole list below the start leaves the negative remainder of
/// Rust's `%`, cast to `usize`.
pub open spec fn wrap_index(index: int, delta: int, n: int) -> int {
    if n == 0 {
        index
    } else {
        (index + delta) % n
    }
}

// ---------------------------------------------------------------------------
// `@` file completion
// ---------------------------------------------------------------------------

/// The text before the last `@` of the buffer and the token after it; with
/// no `@`, nothing and the buffer after its first character.
pub open spec fn at_split(b: Seq<char>) -> (Seq<char>, Seq<char>) {
    match char_rpos(b, '@') {
        Some(a) => (b.take(a), b.skip(a + 1)),
        None => (Seq::empty(), b.skip(1)),
    }
}

/// A token split at its last `/`: the directory part and the name query.
pub open spec fn dir_split(t: Seq<char>) -> (Seq<char>, Seq<char>) {
    match char_rpos(t, '/') {
        Some(k) => (t.take(k), t.skip(k + 1)),
        None => (Seq::empty(), t),
    }
}

/// The directory part as shown before each path: with a trailing `/` unless empty.
pub open spec fn dir_display(d: Seq<char>) -> Seq<char> {
    if d.len() == 0 {
        d
    } else {
        d.push('/')
    }
}

/// The name query of the buffer's `@` token.
pub open spec fn name_query(b: Seq<char>) -> Seq<char> {
    dir_split(at_split(b).1).1
}

/// The directory prefix shown before each path of the buffer's `@` token.
pub open spec fn shown_dir(b: Seq<char>) -> Seq<char> {
    dir_display(dir_split(at_split(b).1).0)
}

/// The ranking keys of the candidate paths for the query `q`.
pub open spec fn entry_keys(q: Seq<char>, entries: Seq<(String, bool)>) -> Seq<
    Option<(bool, int, int, int, int, Seq<char>)>,
> {
    Seq::new(entries.len(), |j: int| match_key(q, entries[j].0@))
}

/// `len` flags, set at `off + h` for each hit `h`.
pub open spec fn hit_flags(len: int, off: int, hits: Seq<usize>) -> Seq<bool> {
    Seq::new(len as nat, |p: int| exists|t: int| 0 <= t < hits.len() && hits[t] + off == p)
}

/// `item` is the popup row for the candidate `entry` (a path relative to the
/// searched directory, and whether it is a directory).
pub open spec fn file_item(
    item: CompletionItem,
    entry: (String, bool),
    before: Seq<char>,
    disp: Seq<char>,
    q: Seq<char>,
) -> bool {
    let rel = entry.0@;
    &&& item.label@ == disp + rel
    &&& item.description@ == (if entry.1 {
        "directory"@
    } else {
        "file"@
    })
    &&& item.accept@ == before.push('@') + disp + rel
    &&& item.matched@ == hit_flags((disp.len() + rel.len()) as int, disp.len() as int, match_hits(q, rel))
}

/// The file completion rows for the buffer `b` among the candidates
/// `entries`: the eight best fuzzy matches of the name query, best first.
pub open spec fn file_rows(items: Seq<CompletionItem>, b: Seq<char>, entries: Seq<(String, bool)>) -> bool {
    let q = name_query(b);
    exists|r: Seq<int>|
        #[trigger] top_ranked(entry_keys(q, entries), r, MAX_COMPLETIONS as int) && r.len()
            == items.len() && forall|k: int|
            0 <= k < items.len() ==> file_item(
                #[trigger] items[k],
                entries[r[k]],
                at_split(b).0,
                shown_dir(b),
                q,
            )
}

/// The inline preview for file rows: the rest of the best path after the
/// name query, when the path (past the directory prefix) extends the query.
pub open spec fn file_preview(items: Seq<CompletionItem>, b: Seq<char>) -> Option<Seq<char>> {
    if items.len() > 0 && name_query(b).len() > 0 {
        preview(items[0].label@.skip(shown_dir(b).len() as int), name_query(b))
    } else {
        None
    }
}

/// The buffer ends in an `@` token: it has an `@` and no white space after the last one.
pub open spec fn has_file_token(b: Seq<char>) -> bool {
    &&& char_rpos(b, '@') is Some
    &&& forall|j: int| 0 <= j < at_split(b).1.len() ==> !is_ws(#[trigger] at_split(b).1[j])
}

/// Flags for `hit_flags`.
fn hit_flags_exec(len: usize, off: usize, hits: &Vec<usize>) -> (v: Vec<bool>)
    requires
        forall|t: int| 0 <= t < hits.len() ==> off + #[trigger] hits@[t] < len,
    ensures
        v@ == hit_flags(len as int, off as int, hits@),
{
    let mut v: Vec<bool> = Vec::new();
    while v.len() < len
        invariant
            v.len() <= len,
            forall|p: int| 0 <= p < v.len() ==> !#[trigger] v@[p],
        decreases len - v.len(),
    {
        v.push(false);
    }
    let mut t: usize = 0;
    while t < hits.len()
        invariant
            t <= hits.len(),
            v.len() == len,
            forall|u: int| 0 <= u < hits.len() ==> off + #[trigger] hits@[u] < len,
            forall|p: int|
                0 <= p < len ==> (#[trigger] v@[p] <==> exists|u: int|
                    0 <= u < t && hits@[u] + off == p),
        decreases hits.len() - t,
    {
        let idx = off + hits[t];
        if idx < v.len() {
            v.set(idx, true);
        }
        proof {
            assert forall|p: int| 0 <= p < len implies (#[trigger] v@[p] <==> exists|u: int|
                0 <= u < t + 1 && hits@[u] + off == p) by {
                if p == idx {
                    assert(hits@[t as int] + off == p);
                }
            }
        }
        t = t + 1;
    }
    assert(v@ =~= hit_flags(len as int, off as int, hits@));
    v
}

/// The popup row for one candidate path.
fn file_row(
    entry: &(String, bool),
    m: &FuzzyMatch,
    before: &Vec<char>,
    disp: &Vec<char>,
) -> (item: CompletionItem)
    requires
        forall|t: int| 0 <= t < m.hits.len() ==> #[trigger] m.hits@[t] < entry.0@.len(),
    ensures
        item.label@ == disp@ + entry.0@,
        item.description@ == (if entry.1 {
            "directory"@
        } else {
            "file"@
        }),
        item.accept@ == before@.push('@') + disp@ + entry.0@,
        item.matched@ == hit_flags((disp.len() + entry.0@.len()) as int, disp.len() as int, m.hits@),
{
    let rel = chars_of(entry.0.as_str());
    let path = concat_chars(disp, &rel);
    let desc = if entry.1 {
        chars_of("directory")
    } else {
        chars_of("file")
    };
    let mut head = sub_vec(before, 0, before.len());
    head.push('@');
    let acc = concat_chars(&head, &path);
    assert(before@.subrange(0, before.len() as int) =~= before@);
    assert(acc@ =~= before@.push('@') + disp@ + rel@);
    let matched = hit_flags_exec(path.len(), disp.len(), &m.hits);
    CompletionItem {
        label: string_from(&path),
        description: string_from(&desc),
        accept: string_from(&acc),
        matched,
    }
}

/// The parts of the buffer's `@` token: the text before the `@`, the
/// directory prefix as shown, and the name query.
fn token_parts(b: &Vec<char>) -> (r: (Vec<char>, Vec<char>, Vec<char>))
    requires
        char_rpos(b@, '@') is Some || (b.len() > 0 && char_utf8_len(b@[0]) == 1),
    ensures
        r.0@ == at_split(b@).0,
        r.1@ == shown_dir(b@),
        r.2@ == name_query(b@),
{
    let (before, token) = match char_rpos_exec(b, '@') {
        Some(a) => (sub_vec(b, 0, a), sub_vec(b, a + 1, b.len())),
        None => (Vec::new(), sub_vec(b, 1, b.len())),
    };
    let (dir, q) = match char_rpos_exec(&token, '/') {
        Some(k) => (sub_vec(&token, 0, k), sub_vec(&token, k + 1, token.len())),
        None => (Vec::new(), sub_vec(&token, 0, token.len())),
    };
    let mut disp = sub_vec(&dir, 0, dir.len());
    if dir.len() > 0 {
        disp.push('/');
    }
    proof {
        assert(before@ =~= at_split(b@).0);
        assert(token@ =~= at_split(b@).1);
        assert(dir@ =~= dir_split(token@).0);
        assert(q@ =~= dir_split(token@).1);
        assert(disp@ =~= dir_display(dir@));
    }
    (before, disp, q)
}

impl InputState {
    /// Populate file-path completion items for the active `@` token from the
    /// candidate paths `entries` (each relative to the directory that the
    /// token's directory part names, with whether it is a directory), using
    /// fzf-style fuzzy subsequence matching (smart-case) ranked best first.
    /// The row shows the directory part, then the path; hit highlighting
    /// marks the scattered query characters within the path.
    pub fn complete_file_path(&mut self, entries: &Vec<(String, bool)>)
        requires
            old(self).file_completion_active ==> char_rpos(old(self).buffer@, '@') is Some || (old(
                self,
            ).buffer@.len() > 0 && char_utf8_len(old(self).buffer@[0]) == 1),
        ensures
            !old(self).file_completion_active ==> *final(self) == *old(self),
            old(self).file_completion_active ==> {
                &&& same_but_popup(final(self), old(self))
                &&& final(self).file_completion_active
                &&& file_rows(final(self).completion_items@, old(self).buffer@, entries@)
                &&& final(self).completion_index == 0
                &&& ghost_is(
                    final(self).ghost_text,
                    file_preview(final(self).completion_items@, old(self).buffer@),
                )
            },
    {
        if !self.file_completion_active {
            return;
        }
        let b = chars_of(self.buffer.as_str());
        let (before, disp, q) = token_parts(&b);
        let q_str = string_from(&q);
        let ghost keys = entry_keys(q@, entries@);
        let mut ms: Vec<Option<FuzzyMatch>> = Vec::new();
        let mut j: usize = 0;
        while j < entries.len()
            invariant
                j <= entries.len(),
                ms.len() == j,
                q_str@ == q@,
                forall|i: int| 0 <= i < j ==> fuzzy_outcome(q@, entries@[i].0@, #[trigger] ms@[i]),
            decreases entries.len() - j,
        {
            let m = fuzzy_match(q_str.as_str(), entries[j].0.as_str());
            ms.push(m);
            j = j + 1;
        }
        proof {
            assert forall|i: int| 0 <= i < ms.len() implies #[trigger] match_keys(ms@)[i]
                == keys[i] by {
                lemma_outcome_key(q@, entries@[i].0@, ms@[i]);
            }
            assert(match_keys(ms@) =~= keys);
        }
        let top = select_top(&ms, MAX_COMPLETIONS);
        let ghost r = top@.map_values(|x: usize| x as int);
        let mut items: Vec<CompletionItem> = Vec::new();
        let mut t: usize = 0;
        while t < top.len()
            invariant
                t <= top.len(),
                items.len() == t,
                ms.len() == entries.len(),
                r == top@.map_values(|x: usize| x as int),
                top_ranked(keys, r, MAX_COMPLETIONS as int),
                keys == entry_keys(q@, entries@),
                forall|i: int| 0 <= i < ms.len() ==> fuzzy_outcome(q@, entries@[i].0@, #[trigger] ms@[i]),
                forall|k: int|
                    0 <= k < t ==> file_item(
                        #[trigger] items@[k],
                        entries@[r[k]],
                        before@,
                        disp@,
                        q@,
                    ),
            decreases top.len() - t,
        {
            let ji = top[t];
            assert(r[t as int] == ji as int);
            assert(keys[ji as int] is Some);
            proof {
                lemma_outcome_key(q@, entries@[ji as int].0@, ms@[ji as int]);
                lemma_match_hits_bounds(q@, entries@[ji as int].0@);
            }
            let m = ms[ji].as_ref().unwrap();
            let item = file_row(&entries[ji], m, &before, &disp);
            items.push(item);
            t = t + 1;
        }
        let n_items = items.len();
        self.completion_items = items;
        self.completion_index = 0;
        if n_items > 0 {
            self.ghost_text = None;
            assert(r[0] == top@[0] as int);
            assert(crate::ranking::is_ranked(keys, r[0]));
            if q.len() > 0 {
                let rel0 = chars_of(entries[top[0]].0.as_str());
                if starts_with_exec(&rel0, &q) && rel0.len() > q.len() {
                    self.ghost_text = Some(string_from_range(&rel0, q.len(), rel0.len()));
                    assert(rel0@.subrange(q.len() as int, rel0.len() as int) =~= rel0@.skip(
                        q.len() as int,
                    ));
                }
                proof {
                    if starts_with(rel0@, q@) {
                        lemma_prefix_byte_len(rel0@, q@);
                    }
                }
            }
            proof {
                let l0 = self.completion_items@[0].label@;
                assert(l0.skip(disp@.len() as int) =~= entries@[r[0]].0@);
            }
        } else {
            self.ghost_text = None;
        }
        assert(top_ranked(entry_keys(q@, entries@), r, MAX_COMPLETIONS as int));
    }

    /// The directory part and the name query of the buffer's `@` token, when
    /// `update_completions` would complete file paths: the candidates it
    /// wants are the paths under that directory (relative to it).
    pub fn file_completion_query(&self) -> (r: Option<(String, String)>)
        ensures
            match r {
                Some((d, q)) => {
                    &&& char_pos(self.buffer@, '\n') is None
                    &&& !is_slash_command(self.buffer@)
                    &&& has_file_token(self.buffer@)
                    &&& d@ == dir_split(at_split(self.buffer@).1).0
                    &&& q@ == name_query(self.buffer@)
                },
                None => char_pos(self.buffer@, '\n') is Some || is_slash_command(self.buffer@)
                    || !has_file_token(self.buffer@),
            },
    {
        let b = chars_of(self.buffer.as_str());
        if !self.file_token_ready(&b) {
            return None;
        }
        let at = char_rpos_exec(&b, '@').unwrap();
        let token = sub_vec(&b, at + 1, b.len());
        let (dir, q) = match char_rpos_exec(&token, '/') {
            Some(k) => (sub_vec(&token, 0, k), sub_vec(&token, k + 1, token.len())),
            None => (Vec::new(), sub_vec(&token, 0, token.len())),
        };
        proof {
            assert(token@ =~= at_split(b@).1);
            assert(dir@ =~= dir_split(token@).0);
            assert(q@ =~= dir_split(token@).1);
        }
        Some((string_from(&dir), string_from(&q)))
    }

    /// Whether the buffer `b` (this buffer's characters) asks for file completion.
    fn file_token_ready(&self, b: &Vec<char>) -> (r: bool)
        requires
            b@ == self.buffer@,
        ensures
            r == (char_pos(b@, '\n') is None && !is_slash_command(b@) && has_file_token(b@)),
    {
        if char_pos_exec(b, '\n').is_some() {
            return false;
        }
        if b.len() > 0 && b[0] == '/' {
            return false;
        }
        match char_rpos_exec(b, '@') {
            None => false,
            Some(a) => {
                let mut i = a + 1;
                while i < b.len()
                    invariant
                        a < b.len(),
                        a + 1 <= i <= b.len(),
                        char_rpos(b@, '@') == Some(a as int),
                        forall|j: int| a + 1 <= j < i ==> !is_ws(#[trigger] b@[j]),
                    decreases b.len() - i,
                {
                    if is_whitespace(b[i]) {
                        assert(at_split(b@).1[i - a - 1] == b@[i as int]);
                        return false;
                    }
                    i = i + 1;
                }
                assert forall|j: int| 0 <= j < at_split(b@).1.len() implies !is_ws(
                    #[trigger] at_split(b@).1[j],
                ) by {
                    assert(at_split(b@).1[j] == b@[j + a + 1]);
                }
                true
            },
        }
    }

    /// Recompute completion items from the current buffer state, with the
    /// candidate paths `entries` for an `@` token (see
    /// `file_completion_query`). Call after any buffer mutation in normal
    /// input mode.
    pub fn update_completions(&mut self, entries: &Vec<(String, bool)>)
        ensures
            same_but_popup(final(self), old(self)),
            char_pos(old(self).buffer@, '\n') is Some ==> final(self).completions_cleared(),
            char_pos(old(self).buffer@, '\n') is None && is_slash_command(old(self).buffer@) ==> {
                &&& !final(self).file_completion_active
                &&& slash_rows(final(self).completion_items@, old(self).buffer@)
                &&& final(self).completion_index == 0
                &&& ghost_is(
                    final(self).ghost_text,
                    rows_preview(final(self).completion_items@, old(self).buffer@),
                )
            },
            char_pos(old(self).buffer@, '\n') is None && !is_slash_command(old(self).buffer@)
                && has_file_token(old(self).buffer@) ==> {
                &&& final(self).file_completion_active
                &&& file_rows(final(self).completion_items@, old(self).buffer@, entries@)
                &&& final(self).completion_index == 0
                &&& ghost_is(
                    final(self).ghost_text,
                    file_preview(final(self).completion_items@, old(self).buffer@),
                )
            },
            char_pos(old(self).buffer@, '\n') is None && !is_slash_command(old(self).buffer@)
                && !has_file_token(old(self).buffer@) ==> final(self).completions_cleared(),
    {
        let b = chars_of(self.buffer.as_str());
        if char_pos_exec(&b, '\n').is_some() {
            self.clear_completions();
            return;
        }
        if b.len() > 0 && b[0] == '/' {
            self.file_completion_active = false;
            self.complete_slash();
            return;
        }
        if self.file_token_ready(&b) {
            self.file_completion_active = true;
            self.complete_file_path(entries);
            return;
        }
        self.clear_completions();
    }
}

// ---------------------------------------------------------------------------
// Walking the tree for `@` candidates
// ---------------------------------------------------------------------------

/// Directory trees that the `@` walk skips entirely (build and VCS noise).
pub open spec fn skipped_dirs() -> Seq<Seq<char>> {
    seq![
        ".git"@,
        "node_modules"@,
        "target"@,
        "dist"@,
        "build"@,
        ".next"@,
        ".turbo"@,
        ".cache"@,
        ".parcel-cache"@,
        "__pycache__"@,
        ".venv"@,
        "venv"@,
        ".idea"@,
        ".vscode"@,
        "deps"@,
        "_build"@,
    ]
}

/// Entry `i` of `skipped_dirs`.
fn skipped_dir(i: usize) -> (r: &'static str)
    requires
        i < 16,
    ensures
        r@ == skipped_dirs()[i as int],
{
    match i {
        0 => ".git",
        1 => "node_modules",
        2 => "target",
        3 => "dist",
        4 => "build",
        5 => ".next",
        6 => ".turbo",
        7 => ".cache",
        8 => ".parcel-cache",
        9 => "__pycache__",
        10 => ".venv",
        11 => "venv",
        12 => ".idea",
        13 => ".vscode",
        14 => "deps",
        _ => "_build",
    }
}

/// Whether the walk lists a directory entry named `name`: not empty, not
/// `.DS_Store`, hidden (dot) names only when the query starts with a dot,
/// and none of the skipped directories (which it does not enter either).
pub open spec fn is_listed(name: Seq<char>, is_dir: bool, dot_query: bool) -> bool {
    &&& name.len() > 0
    &&& name != ".DS_Store"@
    &&& !(name[0] == '.' && !dot_query)
    &&& !(is_dir && skipped_dirs().contains(name))
}

/// Whether the `@` walk lists (and, for a directory, enters) the entry `name`.
pub fn entry_is_listed(name: &str, is_dir: bool, dot_query: bool) -> (r: bool)
    ensures
        r == is_listed(name@, is_dir, dot_query),
{
    let n = chars_of(name);
    if n.len() == 0 {
        return false;
    }
    let ds = chars_of(".DS_Store");
    if chars_eq(&n, &ds) {
        return false;
    }
    if n[0] == '.' && !dot_query {
        return false;
    }
    if is_dir {
        let mut i: usize = 0;
        while i < 16
            invariant
                i <= 16,
                is_dir,
                n@ == name@,
                forall|k: int| 0 <= k < i ==> skipped_dirs()[k] != name@,
            decreases 16 - i,
        {
            let d = chars_of(skipped_dir(i));
            if chars_eq(&d, &n) {
                assert(skipped_dirs().len() == 16);
                assert(skipped_dirs()[i as int] == name@);
                assert(skipped_dirs().contains(name@));
                return false;
            }
            i = i + 1;
        }
        assert(!skipped_dirs().contains(name@));
    }
    true
}

/// The path of the entry `name` inside the walked directory `prefix` (relative to the root).
pub fn child_path(prefix: &str, name: &str) -> (r: String)
    ensures
        r@ == if prefix@.len() == 0 {
            name@
        } else {
            prefix@.push('/') + name@
        },
{
    let p = chars_of(prefix);
    let n = chars_of(name);
    if p.len() == 0 {
        return string_from(&n);
    }
    let mut head = sub_vec(&p, 0, p.len());
    head.push('/');
    assert(p@.subrange(0, p.len() as int) =~= p@);
    string_from(&concat_chars(&head, &n))
}

} // verus!
