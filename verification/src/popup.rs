use vstd::prelude::*;

use unicode_width::UnicodeWidthStr;

use crate::input_state::CompletionItem;
use crate::markdown::spaces;
use crate::text::{chars_of, copy_str, push_char};

verus! {

// ---------------------------------------------------------------------------
// Widths
// ---------------------------------------------------------------------------

/// The columns that `unicode-width` gives a whole string.
pub uninterp spec fn unicode_str_width(s: Seq<char>) -> usize;

/// `UnicodeWidthStr::width` of the `unicode-width` crate: the display width
/// of the string, computed from its characters alone (some sequences, such
/// as emoji with a presentation selector, count together). The tables are
/// named `unicode_str_width`; nothing more is stated of them.
#[verifier::external_body]
pub(crate) fn str_width(s: &str) -> (w: usize)
    ensures
        w == unicode_str_width(s@),
{
    UnicodeWidthStr::width(s)
}

/// A width as the popup keeps it: cut to 16 bits.
pub open spec fn cells(s: Seq<char>) -> int {
    (unicode_str_width(s) as u16) as int
}

// ---------------------------------------------------------------------------
// The completion popup
// ---------------------------------------------------------------------------

/// The most rows the popup shows.
pub const POPUP_ROWS: usize = 8;

/// How a piece of a popup row is painted on the row's background.
#[derive(Debug, Clone, Copy, PartialEq, Eq, Structural)]
pub enum PieceKind {
    /// Blank cells.
    Blank,
    /// Label characters that match the query, in the theme colour.
    Hit,
    /// Other label characters and the description, in grey.
    Dim,
}

/// A run of text in a popup row.
pub struct Piece {
    pub text: String,
    pub kind: PieceKind,
}

/// One row of the popup; a selected row has the highlighted background.
pub struct PopupRow {
    pub selected: bool,
    pub pieces: Vec<Piece>,
}

/// Where the popup goes and what it shows: `rows` rows ending just above the
/// prompt at `y`.
pub struct PopupLayout {
    pub y: u16,
    pub rows: u16,
    pub lines: Vec<PopupRow>,
}

pub open spec fn piece_views(ps: Seq<Piece>) -> Seq<(Seq<char>, PieceKind)> {
    Seq::new(ps.len(), |i: int| (ps[i].text@, ps[i].kind))
}

pub open spec fn row_views(rs: Seq<PopupRow>) -> Seq<(bool, Seq<(Seq<char>, PieceKind)>)> {
    Seq::new(rs.len(), |i: int| (rs[i].selected, piece_views(rs[i].pieces@)))
}

/// Whether label character `i` matches the query.
pub open spec fn hit(m: Seq<bool>, i: int) -> bool {
    i < m.len() && m[i]
}

/// The first `n` label characters grouped into runs that all match or all
/// miss, each run as long as it can be.
pub open spec fn label_runs(c: Seq<char>, m: Seq<bool>, n: int) -> Seq<(Seq<char>, bool)>
    decreases n,
{
    if n <= 0 {
        seq![]
    } else {
        let r = label_runs(c, m, n - 1);
        let h = hit(m, n - 1);
        if r.len() > 0 && r.last().1 == h {
            r.update(r.len() - 1, (r.last().0.push(c[n - 1]), h))
        } else {
            r.push((seq![c[n - 1]], h))
        }
    }
}

/// The runs' texts one after the other.
pub open spec fn flatten(rs: Seq<(Seq<char>, bool)>) -> Seq<char>
    decreases rs.len(),
{
    if rs.len() == 0 {
        seq![]
    } else {
        flatten(rs.drop_last()) + rs.last().0
    }
}

/// The label runs spell out the label; none is empty, each character sits
/// in a run of its own match flag, and neighbouring runs differ in it.
pub proof fn law_label_runs(c: Seq<char>, m: Seq<bool>, n: int)
    requires
        0 <= n <= c.len(),
    ensures
        flatten(label_runs(c, m, n)) == c.take(n),
        forall|i: int| 0 <= i < label_runs(c, m, n).len() ==> #[trigger] label_runs(c, m, n)[i].0.len() > 0,
        forall|i: int|
            1 <= i < label_runs(c, m, n).len() ==> #[trigger] label_runs(c, m, n)[i].1 != label_runs(c, m, n)[i
                - 1].1,
        n > 0 ==> label_runs(c, m, n).last().1 == hit(m, n - 1),
    decreases n,
{
    if n > 0 {
        law_label_runs(c, m, n - 1);
        let r = label_runs(c, m, n - 1);
        let h = hit(m, n - 1);
        if r.len() > 0 && r.last().1 == h {
            let r1 = r.update(r.len() - 1, (r.last().0.push(c[n - 1]), h));
            assert(r1.drop_last() =~= r.drop_last());
            assert(flatten(r) == flatten(r.drop_last()) + r.last().0);
            assert(c.take(n) =~= c.take(n - 1).push(c[n - 1]));
            assert(flatten(r1) =~= flatten(r) + seq![c[n - 1]]);
        } else {
            let r1 = r.push((seq![c[n - 1]], h));
            assert(r1.drop_last() =~= r);
            assert(c.take(n) =~= c.take(n - 1) + seq![c[n - 1]]);
        }
    } else {
        assert(c.take(0) =~= Seq::<char>::empty());
    }
}

pub open spec fn run_pieces(rs: Seq<(Seq<char>, bool)>) -> Seq<(Seq<char>, PieceKind)> {
    Seq::new(rs.len(), |i: int| (rs[i].0, if rs[i].1 { PieceKind::Hit } else { PieceKind::Dim }))
}

/// The width of the label column: the widest of the first `n` labels.
pub open spec fn label_col(items: Seq<CompletionItem>, n: int) -> int
    decreases n,
{
    if n <= 0 {
        0
    } else {
        let a = label_col(items, n - 1);
        let b = cells(items[n - 1].label@);
        if a < b {
            b
        } else {
            a
        }
    }
}

/// The rows shown: at most `POPUP_ROWS`.
pub open spec fn shown(items: Seq<CompletionItem>) -> int {
    if items.len() < POPUP_ROWS {
        items.len() as int
    } else {
        POPUP_ROWS as int
    }
}

/// A row: a two-cell pad, the label in runs, blanks up to the label column,
/// a two-cell gap, the description when there is one, and blanks to the
/// popup's width.
pub open spec fn row_spec(it: CompletionItem, col: int, width: int, selected: bool) -> (
    bool,
    Seq<(Seq<char>, PieceKind)>,
) {
    let lw = cells(it.label@);
    let dw = cells(it.description@);
    let fill = if col > lw {
        col - lw
    } else {
        0
    };
    let trailing = if width > 4 + col + dw {
        width - (4 + col + dw)
    } else {
        0
    };
    let label = run_pieces(label_runs(it.label@, it.matched@, it.label@.len() as int));
    let fill_p = if fill > 0 {
        seq![(spaces(fill), PieceKind::Blank)]
    } else {
        seq![]
    };
    let desc_p = if it.description@.len() > 0 {
        seq![(it.description@, PieceKind::Dim)]
    } else {
        seq![]
    };
    let trail_p = if trailing > 0 {
        seq![(spaces(trailing), PieceKind::Blank)]
    } else {
        seq![]
    };
    (
        selected,
        seq![("  "@, PieceKind::Blank)] + label + fill_p + seq![("  "@, PieceKind::Blank)] + desc_p + trail_p,
    )
}

/// Every shown row's cells add up within 16 bits.
pub open spec fn popup_fits(items: Seq<CompletionItem>) -> bool {
    forall|i: int|
        0 <= i < shown(items) ==> 4 + label_col(items, shown(items)) + cells(#[trigger] items[i].description@)
            <= u16::MAX
}

/// The popup's rows.
pub open spec fn popup_rows(items: Seq<CompletionItem>, selected: int, width: int) -> Seq<
    (bool, Seq<(Seq<char>, PieceKind)>),
> {
    Seq::new(
        shown(items) as nat,
        |i: int| row_spec(items[i], label_col(items, shown(items)), width, i == selected),
    )
}

fn run_pieces_of(label: &str, matched: &Vec<bool>, out: &mut Vec<Piece>)
    ensures
        piece_views(final(out)@) == piece_views(old(out)@) + run_pieces(
            label_runs(label@, matched@, label@.len() as int),
        ),
{
    let c = chars_of(label);
    let ghost base = piece_views(out@);
    let mut buf = String::new();
    let mut cur = false;
    let mut i: usize = 0;
    while i < c.len()
        invariant
            i <= c.len(),
            c@ == label@,
            ({
                let r = run_pieces(label_runs(c@, matched@, i as int));
                if i == 0 {
                    buf@.len() == 0 && piece_views(out@) == base
                } else {
                    &&& buf@.len() > 0
                    &&& r.len() > 0
                    &&& piece_views(out@) == base + r.drop_last()
                    &&& r.last() == (buf@, if cur {
                        PieceKind::Hit
                    } else {
                        PieceKind::Dim
                    })
                    &&& label_runs(c@, matched@, i as int).last().1 == cur
                }
            }),
        decreases c.len() - i,
    {
        let ch = c[i];
        let is_match = i < matched.len() && matched[i];
        let ghost ob = piece_views(out@);
        let ghost cur0 = cur;
        let ghost buf0 = buf@;
        if i == 0 {
            cur = is_match;
            push_char(&mut buf, ch);
        } else if is_match == cur {
            push_char(&mut buf, ch);
        } else {
            let kind = if cur {
                PieceKind::Hit
            } else {
                PieceKind::Dim
            };
            let mut done = String::new();
            std::mem::swap(&mut done, &mut buf);
            out.push(Piece { text: done, kind });
            cur = is_match;
            push_char(&mut buf, ch);
        }
        proof {
            let r0 = label_runs(c@, matched@, i as int);
            let r1 = label_runs(c@, matched@, i + 1);
            assert(hit(matched@, i as int) == is_match);
            assert(c@[i as int] == ch);
            if i == 0 {
                assert(r0 =~= Seq::<(Seq<char>, bool)>::empty());
                assert(r1 =~= seq![(seq![ch], is_match)]);
                assert(run_pieces(r1).drop_last() =~= Seq::<(Seq<char>, PieceKind)>::empty());
                assert(buf@ =~= seq![ch]);
            } else if is_match == cur0 {
                assert(r1 == r0.update(r0.len() - 1, (r0.last().0.push(ch), is_match)));
                assert(run_pieces(r1).drop_last() =~= run_pieces(r0).drop_last());
                assert(r0.last().0 == buf0);
                assert(run_pieces(r1).last() == (buf@, if cur {
                    PieceKind::Hit
                } else {
                    PieceKind::Dim
                }));
            } else {
                assert(r1 == r0.push((seq![ch], is_match)));
                assert(run_pieces(r1).drop_last() =~= run_pieces(r0));
                assert(run_pieces(r0) =~= run_pieces(r0).drop_last().push(run_pieces(r0).last()));
                assert(piece_views(out@) =~= ob.push(run_pieces(r0).last()));
                assert(buf@ =~= seq![ch]);
            }
            assert(piece_views(out@) =~= base + run_pieces(r1).drop_last());
        }
        i = i + 1;
    }
    if i > 0 {
        let kind = if cur {
            PieceKind::Hit
        } else {
            PieceKind::Dim
        };
        let ghost ob = piece_views(out@);
        out.push(Piece { text: buf, kind });
        proof {
            let r = run_pieces(label_runs(c@, matched@, i as int));
            assert(piece_views(out@) =~= ob.push(r.last()));
            assert(piece_views(out@) =~= base + r);
        }
    } else {
        assert(run_pieces(label_runs(c@, matched@, 0)) =~= Seq::<(Seq<char>, PieceKind)>::empty());
        assert(piece_views(out@) =~= base + run_pieces(label_runs(c@, matched@, 0)));
    }
}

fn blank(n: u16) -> (p: Piece)
    ensures
        p.text@ == spaces(n as int),
        p.kind == PieceKind::Blank,
{
    let mut s = String::new();
    let mut i: u16 = 0;
    while i < n
        invariant
            i <= n,
            s@ == spaces(i as int),
        decreases n - i,
    {
        push_char(&mut s, ' ');
        i = i + 1;
        assert(s@ =~= spaces(i as int));
    }
    Piece { text: s, kind: PieceKind::Blank }
}

/// The popup drawn for `items`: nothing without items; else the rows count
/// (the item count cut to 16 bits, at most 8), the top row just above the
/// prompt, and the rows.
pub open spec fn popup_result(items: Seq<CompletionItem>, selected: int, input_y: int, width: int, r: Option<
    PopupLayout,
>) -> bool {
    if items.len() == 0 {
        r is None
    } else {
        r matches Some(p) && {
            let rows = if ((items.len() as u16) as int) < 8 {
                (items.len() as u16) as int
            } else {
                8
            };
            &&& p.rows == rows
            &&& p.y == (if input_y > rows {
                input_y - rows
            } else {
                0
            })
            &&& row_views(p.lines@) == popup_rows(items, selected, width)
        }
    }
}

fn popup_row(it: &CompletionItem, col: u16, width: u16, selected: bool) -> (r: PopupRow)
    requires
        4 + col + cells(it.description@) <= u16::MAX,
    ensures
        (r.selected, piece_views(r.pieces@)) == row_spec(*it, col as int, width as int, selected),
{
    let label_w = str_width(it.label.as_str()) as u16;
    let desc_w = str_width(it.description.as_str()) as u16;
    let label_fill = col.saturating_sub(label_w);
    let trailing = width.saturating_sub(2u16 + col + 2u16 + desc_w);
    let mut pieces: Vec<Piece> = Vec::new();
    pieces.push(Piece { text: copy_str("  "), kind: PieceKind::Blank });
    let ghost p0 = piece_views(pieces@);
    run_pieces_of(it.label.as_str(), &it.matched, &mut pieces);
    let ghost p1 = piece_views(pieces@);
    if label_fill > 0 {
        pieces.push(blank(label_fill));
    }
    let ghost p2 = piece_views(pieces@);
    pieces.push(Piece { text: copy_str("  "), kind: PieceKind::Blank });
    let ghost p3 = piece_views(pieces@);
    if chars_of(it.description.as_str()).len() > 0 {
        pieces.push(Piece { text: copy_str(it.description.as_str()), kind: PieceKind::Dim });
    }
    let ghost p4 = piece_views(pieces@);
    if trailing > 0 {
        pieces.push(blank(trailing));
    }
    proof {
        let lw = cells(it.label@);
        let dw = cells(it.description@);
        assert(label_w == lw);
        assert(desc_w == dw);
        let fill = if col > lw {
            col - lw
        } else {
            0
        };
        let tr = if width > 4 + col + dw {
            width - (4 + col + dw)
        } else {
            0
        };
        assert(label_fill == fill);
        assert(trailing == tr);
        let label = run_pieces(label_runs(it.label@, it.matched@, it.label@.len() as int));
        let fill_p = if fill > 0 {
            seq![(spaces(fill), PieceKind::Blank)]
        } else {
            seq![]
        };
        let desc_p = if it.description@.len() > 0 {
            seq![(it.description@, PieceKind::Dim)]
        } else {
            seq![]
        };
        let trail_p = if tr > 0 {
            seq![(spaces(tr), PieceKind::Blank)]
        } else {
            seq![]
        };
        assert(p0 =~= seq![("  "@, PieceKind::Blank)]);
        assert(p2 =~= p1 + fill_p);
        assert(p3 =~= p2 + seq![("  "@, PieceKind::Blank)]);
        assert(p4 =~= p3 + desc_p);
        assert(piece_views(pieces@) =~= p4 + trail_p);
        assert(piece_views(pieces@) =~= seq![("  "@, PieceKind::Blank)] + label + fill_p + seq![
            ("  "@, PieceKind::Blank),
        ] + desc_p + trail_p);
    }
    PopupRow { selected, pieces }
}

/// The completion popup above a prompt at row `input_y`, `width` cells wide:
/// nothing without items, else up to `POPUP_ROWS` rows, the one at
/// `selected` highlighted, labels in an aligned column.
pub fn completion_popup(items: &Vec<CompletionItem>, selected: usize, input_y: u16, width: u16) -> (r: Option<
    PopupLayout,
>)
    requires
        popup_fits(items@),
    ensures
        popup_result(items@, selected as int, input_y as int, width as int, r),
{
    if items.len() == 0 {
        return None;
    }
    let len16 = items.len() as u16;
    let rows: u16 = if len16 < 8 {
        len16
    } else {
        8
    };
    let y = input_y.saturating_sub(rows);
    let n = if items.len() < POPUP_ROWS {
        items.len()
    } else {
        POPUP_ROWS
    };
    let mut col: u16 = 0;
    let mut i: usize = 0;
    while i < n
        invariant
            i <= n,
            n == shown(items@),
            n <= items.len(),
            col == label_col(items@, i as int),
        decreases n - i,
    {
        let w = str_width(items[i].label.as_str()) as u16;
        if col < w {
            col = w;
        }
        i = i + 1;
    }
    let mut lines: Vec<PopupRow> = Vec::new();
    let mut j: usize = 0;
    while j < n
        invariant
            j <= n,
            n == shown(items@),
            n <= items.len(),
            col == label_col(items@, n as int),
            popup_fits(items@),
            row_views(lines@) == popup_rows(items@, selected as int, width as int).take(j as int),
        decreases n - j,
    {
        assert(4 + label_col(items@, shown(items@)) + cells(items@[j as int].description@) <= u16::MAX);
        let row = popup_row(&items[j], col, width, j == selected);
        let ghost before = row_views(lines@);
        let ghost rv = (row.selected, piece_views(row.pieces@));
        assert(rv == popup_rows(items@, selected as int, width as int)[j as int]);
        lines.push(row);
        assert(row_views(lines@) =~= before.push(rv));
        assert(row_views(lines@) =~= popup_rows(items@, selected as int, width as int).take(j + 1));
        j = j + 1;
    }
    assert(popup_rows(items@, selected as int, width as int).take(n as int) =~= popup_rows(
        items@,
        selected as int,
        width as int,
    ));
    Some(PopupLayout { y, rows, lines })
}

/// The completion popup where every shown row fits in 16 bits of cells;
/// `None` when there are no items or a row does not fit.
pub fn completion_popup_checked(items: &Vec<CompletionItem>, selected: usize, input_y: u16, width: u16) -> (r:
    Option<PopupLayout>)
    ensures
        popup_fits(items@) ==> popup_result(items@, selected as int, input_y as int, width as int, r),
        !popup_fits(items@) ==> r is None,
{
    let n = if items.len() < POPUP_ROWS {
        items.len()
    } else {
        POPUP_ROWS
    };
    let mut col: u16 = 0;
    let mut i: usize = 0;
    while i < n
        invariant
            i <= n,
            n == shown(items@),
            n <= items.len(),
            col == label_col(items@, i as int),
        decreases n - i,
    {
        let w = str_width(items[i].label.as_str()) as u16;
        if col < w {
            col = w;
        }
        i = i + 1;
    }
    let mut k: usize = 0;
    while k < n
        invariant
            k <= n,
            n == shown(items@),
            n <= items.len(),
            col == label_col(items@, n as int),
            forall|q: int| 0 <= q < k ==> 4 + col + cells(#[trigger] items@[q].description@) <= u16::MAX,
        decreases n - k,
    {
        let dw = str_width(items[k].description.as_str()) as u16;
        if 4 + (col as u32) + (dw as u32) > 65535 {
            return None;
        }
        k = k + 1;
    }
    completion_popup(items, selected, input_y, width)
}

} // verus!
