use vstd::prelude::*;

use crate::popup::{str_width, unicode_str_width};
use crate::prompt_view::{all_rows, string_views, wrap_text_to_width};
use crate::tasks::{decimal, decimal_string};
use crate::text::{
    chars_of, copy_str, lines, lines_spec, push_char, push_str, split_char_spec, string_from, trim, trim_str,
};

verus! {

// ---------------------------------------------------------------------------
// A tool's output under its header
// ---------------------------------------------------------------------------

/// Output lines shown in full up to this many.
pub const MAX_FULL: usize = 5;

/// Lines kept at the head of longer output.
pub const HEAD: usize = 2;

/// One row of the tree under a tool call: the last row hangs off `└`, the
/// others off `│`; `marker` rows (the collapsed middle) are dimmed.
pub struct TreeRow {
    pub last: bool,
    pub text: String,
    pub marker: bool,
}

pub open spec fn tree_views(rs: Seq<TreeRow>) -> Seq<(bool, Seq<char>, bool)> {
    Seq::new(rs.len(), |i: int| (rs[i].last, rs[i].text@, rs[i].marker))
}

/// The collapse marker for `n` hidden lines.
pub open spec fn hidden_marker(n: nat) -> Seq<char> {
    "\u{2026} +"@ + decimal(n) + " lines"@
}

/// The rows under a tool call for its output: nothing for no lines; every
/// line when there are at most `MAX_FULL`; else the first `HEAD` lines, a
/// marker counting the hidden ones, and the last line.
pub open spec fn tree_spec(output: Seq<char>) -> Seq<(bool, Seq<char>, bool)> {
    let body = lines_spec(output);
    let n = body.len();
    if n == 0 {
        seq![]
    } else if n <= MAX_FULL {
        Seq::new(n, |i: int| (i + 1 == n, body[i], false))
    } else {
        seq![(false, body[0], false), (false, body[1], false), (false, hidden_marker((n - 3) as nat), true), (
            true,
            body[n - 1],
            false,
        )]
    }
}

/// The tree rows under a tool call, from its output.
pub fn tool_tree_rows(output: &str) -> (r: Vec<TreeRow>)
    ensures
        tree_views(r@) == tree_spec(output@),
{
    let body = lines(&chars_of(output));
    let ghost bv = body.deep_view();
    let n = body.len();
    let mut rows: Vec<TreeRow> = Vec::new();
    if n == 0 {
        assert(tree_views(rows@) =~= tree_spec(output@));
        return rows;
    }
    if n <= MAX_FULL {
        let mut i: usize = 0;
        while i < n
            invariant
                i <= n,
                n == body.len(),
                bv == body.deep_view(),
                bv == lines_spec(output@),
                n <= MAX_FULL,
                tree_views(rows@) == Seq::new(i as nat, |j: int| (j + 1 == n, bv[j], false)),
            decreases n - i,
        {
            assert(bv[i as int] == body@[i as int]@);
            let ghost before = tree_views(rows@);
            let t = string_from(&body[i]);
            rows.push(TreeRow { last: i + 1 == n, text: t, marker: false });
            assert(tree_views(rows@) =~= before.push((i + 1 == n, bv[i as int], false)));
            i = i + 1;
            assert(tree_views(rows@) =~= Seq::new(i as nat, |j: int| (j + 1 == n, bv[j], false)));
        }
        return rows;
    }
    assert(bv[0] == body@[0]@ && bv[1] == body@[1]@ && bv[n - 1] == body@[n - 1]@);
    rows.push(TreeRow { last: false, text: string_from(&body[0]), marker: false });
    rows.push(TreeRow { last: false, text: string_from(&body[1]), marker: false });
    let mut m = copy_str("\u{2026} +");
    push_str(&mut m, decimal_string((n - 3) as u64).as_str());
    push_str(&mut m, " lines");
    rows.push(TreeRow { last: false, text: m, marker: true });
    rows.push(TreeRow { last: true, text: string_from(&body[n - 1]), marker: false });
    assert(tree_views(rows@) =~= tree_spec(output@));
    rows
}

// ---------------------------------------------------------------------------
// Diffs under an edit
// ---------------------------------------------------------------------------

/// Diff lines shown in full up to this many.
pub const DIFF_MAX_FULL: usize = 12;

/// Diff lines kept at the head of a longer diff.
pub const DIFF_HEAD: usize = 6;

/// A row of a shown diff: a diff line by index, or the marker for the
/// hidden ones.
#[derive(Debug, Clone, Copy, PartialEq, Eq, Structural)]
pub enum DiffSlot {
    Line(usize),
    Hidden(usize),
}

/// The diff rows shown for `n` diff lines: all of them up to
/// `DIFF_MAX_FULL`; else the first `DIFF_HEAD`, a marker for the hidden
/// ones, and the last.
pub open spec fn diff_slots_spec(n: int) -> Seq<DiffSlot> {
    if n <= DIFF_MAX_FULL {
        Seq::new(n as nat, |i: int| DiffSlot::Line(i as usize))
    } else {
        Seq::new(DIFF_HEAD as nat, |i: int| DiffSlot::Line(i as usize)) + seq![
            DiffSlot::Hidden((n - DIFF_HEAD - 1) as usize),
            DiffSlot::Line((n - 1) as usize),
        ]
    }
}

/// Which diff rows are shown for `n` diff lines.
pub fn diff_slots(n: usize) -> (r: Vec<DiffSlot>)
    ensures
        r@ == diff_slots_spec(n as int),
{
    let mut r: Vec<DiffSlot> = Vec::new();
    let k = if n <= DIFF_MAX_FULL {
        n
    } else {
        DIFF_HEAD
    };
    let mut i: usize = 0;
    while i < k
        invariant
            i <= k,
            k == (if n <= DIFF_MAX_FULL { n } else { DIFF_HEAD }),
            r@ == Seq::new(i as nat, |j: int| DiffSlot::Line(j as usize)),
        decreases k - i,
    {
        r.push(DiffSlot::Line(i));
        i = i + 1;
        assert(r@ =~= Seq::new(i as nat, |j: int| DiffSlot::Line(j as usize)));
    }
    if n > DIFF_MAX_FULL {
        r.push(DiffSlot::Hidden(n - DIFF_HEAD - 1));
        r.push(DiffSlot::Line(n - 1));
    }
    assert(r@ =~= diff_slots_spec(n as int));
    r
}

// ---------------------------------------------------------------------------
// Status lines and user cards
// ---------------------------------------------------------------------------

/// `n` copies of `c`.
pub open spec fn repeat(c: char, n: int) -> Seq<char> {
    Seq::new(n as nat, |i: int| c)
}

fn push_repeat(s: &mut String, c: char, n: usize)
    ensures
        final(s)@ == old(s)@ + repeat(c, n as int),
{
    let mut i: usize = 0;
    while i < n
        invariant
            i <= n,
            s@ == old(s)@ + repeat(c, i as int),
        decreases n - i,
    {
        push_char(s, c);
        i = i + 1;
        assert(s@ =~= old(s)@ + repeat(c, i as int));
    }
}

/// A status line as a divider across the row: the text between two
/// spaces and two runs of dashes (the left one the shorter when they
/// differ), or the bare text when it nearly fills the row.
pub open spec fn divider_spec(text: Seq<char>, width: int) -> Seq<char> {
    let tw = unicode_str_width(text) as int;
    if tw + 2 >= width {
        text
    } else {
        let sides = width - tw - 2;
        let left = sides / 2;
        repeat('-', left) + seq![' '] + text + seq![' '] + repeat('-', sides - left)
    }
}

/// Renders a status line as a divider `width` cells wide.
pub fn status_divider(text: &str, width: usize) -> (r: String)
    ensures
        r@ == divider_spec(text@, width as int),
{
    let tw = str_width(text);
    if width < 2 || tw >= width - 2 {
        return copy_str(text);
    }
    let sides = width - tw - 2;
    let left = sides / 2;
    let mut r = String::new();
    push_repeat(&mut r, '-', left);
    push_char(&mut r, ' ');
    push_str(&mut r, text);
    push_char(&mut r, ' ');
    push_repeat(&mut r, '-', sides - left);
    r
}

/// A row of a user card: its text and the blanks that carry the card's
/// background to the end of the row.
pub struct CardRow {
    pub text: String,
    pub pad: usize,
}

pub open spec fn card_views(rs: Seq<CardRow>) -> Seq<(Seq<char>, int)> {
    Seq::new(rs.len(), |i: int| (rs[i].text@, rs[i].pad as int))
}

/// The blanks after `text` in a row `width` cells wide.
pub open spec fn pad_of(text: Seq<char>, width: int) -> int {
    let w = unicode_str_width(text) as int;
    if width > w {
        width - w
    } else {
        0
    }
}

/// The user's message `text` as a card `width` cells wide: its wrapped
/// rows, each padded to the width, then the caption `#ordinal` padded on
/// the left to the width.
pub open spec fn card_spec(text: Seq<char>, width: int, ordinal: nat) -> Seq<(Seq<char>, int)> {
    let rows = all_rows(split_char_spec(text, '\n'), width);
    Seq::new(rows.len(), |i: int| (rows[i], pad_of(rows[i], width))) + seq![
        (seq!['#'] + decimal(ordinal), pad_of(seq!['#'] + decimal(ordinal), width)),
    ]
}

/// Lays out the user's message as a full-width card with its ordinal.
pub fn user_card(text: &str, width: usize, ordinal: u64) -> (r: Vec<CardRow>)
    requires
        text@.len() <= usize::MAX / 3,
    ensures
        card_views(r@) == card_spec(text@, width as int, ordinal as nat),
{
    let rows = wrap_text_to_width(text, width);
    let ghost rv = string_views(rows@);
    let mut out: Vec<CardRow> = Vec::new();
    let mut i: usize = 0;
    while i < rows.len()
        invariant
            i <= rows.len(),
            rv == string_views(rows@),
            card_views(out@) == Seq::new(i as nat, |j: int| (rv[j], pad_of(rv[j], width as int))),
        decreases rows.len() - i,
    {
        let w = str_width(rows[i].as_str());
        let pad = if width > w {
            width - w
        } else {
            0
        };
        assert(rv[i as int] == rows@[i as int]@);
        let ghost before = card_views(out@);
        out.push(CardRow { text: copy_str(rows[i].as_str()), pad });
        assert(card_views(out@) =~= before.push((rv[i as int], pad_of(rv[i as int], width as int))));
        i = i + 1;
        assert(card_views(out@) =~= Seq::new(i as nat, |j: int| (rv[j], pad_of(rv[j], width as int))));
    }
    proof {
        reveal_strlit("#");
    }
    let mut cap = copy_str("#");
    push_str(&mut cap, decimal_string(ordinal).as_str());
    let ghost caption = seq!['#'] + decimal(ordinal as nat);
    assert(cap@ =~= caption);
    let cw = str_width(cap.as_str());
    let pad = if width > cw {
        width - cw
    } else {
        0
    };
    assert(pad as int == pad_of(caption, width as int));
    let ghost before = card_views(out@);
    out.push(CardRow { text: cap, pad });
    assert(card_views(out@) =~= before + seq![(caption, pad_of(caption, width as int))]);
    out
}

// ---------------------------------------------------------------------------
// Tool headers and diff rows
// ---------------------------------------------------------------------------

/// The header of a tool call: its name, then its activity in brackets when
/// there is one.
pub open spec fn header_spec(name: Seq<char>, activity: Seq<char>) -> Seq<char> {
    if activity.len() == 0 {
        name
    } else {
        name + seq!['('] + activity + seq![')']
    }
}

/// The header line of a tool call.
pub fn tool_header(name: &str, activity: &str) -> (r: String)
    ensures
        r@ == header_spec(name@, activity@),
{
    let mut r = copy_str(name);
    if activity.unicode_len() > 0 {
        push_char(&mut r, '(');
        push_str(&mut r, activity);
        push_char(&mut r, ')');
    }
    r
}

/// The first row under an edit: the tool's output, or the path when the
/// output is blank.
pub fn diff_status_line(output: &str, path: &str) -> (r: String)
    ensures
        r@ == (if trim(output@).len() == 0 { path@ } else { output@ }),
{
    if trim_str(output).unicode_len() == 0 {
        copy_str(path)
    } else {
        copy_str(output)
    }
}

/// What a diff row shows.
#[derive(Debug, Clone, Copy, PartialEq, Eq, Structural)]
pub enum DiffKind {
    Hunk,
    Context,
    Add,
    Remove,
    Marker,
}

/// `s` right-aligned in `w` columns (longer text is left as it is).
pub open spec fn pad_left(s: Seq<char>, w: int) -> Seq<char> {
    if s.len() < w {
        repeat(' ', w - s.len()) + s
    } else {
        s
    }
}

/// A line number in the gutter: four columns, blank when there is none.
pub open spec fn gutter(n: Option<usize>) -> Seq<char> {
    match n {
        Some(v) => pad_left(decimal(v as nat), 4),
        None => repeat(' ', 4),
    }
}

pub open spec fn diff_sign(k: DiffKind) -> char {
    match k {
        DiffKind::Add => '+',
        DiffKind::Remove => '-',
        _ => ' ',
    }
}

pub open spec fn connector(last: bool) -> char {
    if last {
        '\u{2514}'
    } else {
        '\u{2502}'
    }
}

/// The pieces of a diff row: indent, connector, both line numbers, sign,
/// text.
pub open spec fn diff_pieces(last: bool, old_ln: Option<usize>, new_ln: Option<usize>, k: DiffKind, text: Seq<char>) -> Seq<
    Seq<char>,
> {
    seq![
        repeat(' ', 2),
        seq![connector(last)],
        seq![' '],
        gutter(old_ln),
        seq![' '],
        gutter(new_ln),
        seq![' '],
        seq![diff_sign(k)],
        seq![' '],
        text,
    ]
}

/// The concatenation of the first `n` pieces.
pub open spec fn joined_pieces(ps: Seq<Seq<char>>, n: int) -> Seq<char>
    decreases n,
{
    if n <= 0 {
        Seq::empty()
    } else {
        joined_pieces(ps, n - 1) + ps[n - 1]
    }
}

/// The summed display width of the first `n` pieces.
pub open spec fn pieces_width(ps: Seq<Seq<char>>, n: int) -> int
    decreases n,
{
    if n <= 0 {
        0
    } else {
        pieces_width(ps, n - 1) + unicode_str_width(ps[n - 1])
    }
}

/// A diff row's text, and the blanks that carry its band to `width`
/// (none for context rows, which have no band).
pub open spec fn diff_row_spec(
    last: bool,
    old_ln: Option<usize>,
    new_ln: Option<usize>,
    k: DiffKind,
    text: Seq<char>,
    width: int,
) -> (Seq<char>, int) {
    let ps = diff_pieces(last, old_ln, new_ln, k, text);
    let used = pieces_width(ps, 10);
    (joined_pieces(ps, 10), if k != DiffKind::Context && width > used { width - used } else { 0 })
}

/// A line number for the gutter.
fn gutter_text(n: Option<usize>) -> (r: String)
    ensures
        r@ == gutter(n),
{
    let mut r = String::new();
    match n {
        Some(v) => {
            let d = decimal_string(v as u64);
            let len = d.unicode_len();
            if len < 4 {
                push_repeat(&mut r, ' ', 4 - len);
            }
            push_str(&mut r, d.as_str());
        },
        None => push_repeat(&mut r, ' ', 4),
    }
    r
}

/// Lays out one row of a diff under an edit, `width` cells wide.
pub fn diff_row(
    last: bool,
    old_ln: Option<usize>,
    new_ln: Option<usize>,
    kind: DiffKind,
    text: &str,
    width: usize,
) -> (r: (String, usize))
    ensures
        (r.0@, r.1 as int) == diff_row_spec(last, old_ln, new_ln, kind, text@, width as int),
{
    let ghost ps = diff_pieces(last, old_ln, new_ln, kind, text@);
    proof {
        reveal_strlit(" ");
    }
    let mut indent = String::new();
    push_repeat(&mut indent, ' ', 2);
    assert(indent@ =~= ps[0]);
    let mut c = String::new();
    push_char(&mut c, if last { '\u{2514}' } else { '\u{2502}' });
    assert(c@ =~= ps[1]);
    let mut sg = String::new();
    push_char(
        &mut sg,
        match kind {
            DiffKind::Add => '+',
            DiffKind::Remove => '-',
            _ => ' ',
        },
    );
    assert(sg@ =~= ps[7]);
    let old_g = gutter_text(old_ln);
    let new_g = gutter_text(new_ln);
    let sp = copy_str(" ");
    assert(sp@ =~= ps[2]);
    let t = copy_str(text);
    let pieces: Vec<String> = vec![indent, c, copy_str(" "), old_g, copy_str(" "), new_g, copy_str(" "), sg, sp, t];
    assert(Seq::new(pieces@.len(), |i: int| pieces@[i]@) =~= ps);
    let mut out = String::new();
    let mut used: u128 = 0;
    let mut i: usize = 0;
    while i < pieces.len()
        invariant
            i <= pieces@.len(),
            pieces@.len() == 10,
            Seq::new(pieces@.len(), |j: int| pieces@[j]@) == ps,
            out@ == joined_pieces(ps, i as int),
            used == pieces_width(ps, i as int),
            used <= i * usize::MAX,
        decreases pieces.len() - i,
    {
        assert(ps[i as int] == pieces@[i as int]@);
        push_str(&mut out, pieces[i].as_str());
        let w = str_width(pieces[i].as_str());
        used = used + w as u128;
        i = i + 1;
    }
    let pad: usize = if kind != DiffKind::Context && (width as u128) > used {
        (width as u128 - used) as usize
    } else {
        0
    };
    (out, pad)
}

} // verus!
