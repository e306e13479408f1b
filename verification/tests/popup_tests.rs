use venus::input_state::CompletionItem;
use venus::popup::{completion_popup, completion_popup_checked, PieceKind, PopupRow};

fn item(label: &str, description: &str, hits: usize) -> CompletionItem {
    let n = label.chars().count();
    CompletionItem {
        label: label.to_string(),
        description: description.to_string(),
        accept: label.to_string(),
        matched: (0..n).map(|i| i < hits).collect(),
    }
}

fn pieces(row: &PopupRow) -> Vec<(&str, PieceKind)> {
    row.pieces.iter().map(|p| (p.text.as_str(), p.kind)).collect()
}

#[test]
fn popup_rows_align_labels_and_fill_width() {
    let items = vec![item("/help", "Show help", 2), item("/hooks", "", 2)];
    let p = completion_popup(&items, 0, 10, 30).unwrap();
    assert_eq!(p.rows, 2);
    assert_eq!(p.y, 8);
    assert_eq!(p.lines.len(), 2);
    assert!(p.lines[0].selected);
    assert!(!p.lines[1].selected);
    let blank11 = " ".repeat(11);
    assert_eq!(
        pieces(&p.lines[0]),
        vec![
            ("  ", PieceKind::Blank),
            ("/h", PieceKind::Hit),
            ("elp", PieceKind::Dim),
            (" ", PieceKind::Blank),
            ("  ", PieceKind::Blank),
            ("Show help", PieceKind::Dim),
            (blank11.as_str(), PieceKind::Blank),
        ]
    );
    let blank20 = " ".repeat(20);
    assert_eq!(
        pieces(&p.lines[1]),
        vec![
            ("  ", PieceKind::Blank),
            ("/h", PieceKind::Hit),
            ("ooks", PieceKind::Dim),
            ("  ", PieceKind::Blank),
            (blank20.as_str(), PieceKind::Blank),
        ]
    );
}

#[test]
fn popup_shows_at_most_eight_rows_and_stops_at_the_top() {
    let items: Vec<CompletionItem> = (0..12).map(|i| item(&format!("@f{}", i), "", 0)).collect();
    let p = completion_popup(&items, 3, 5, 10).unwrap();
    assert_eq!(p.rows, 8);
    assert_eq!(p.y, 0);
    assert_eq!(p.lines.len(), 8);
    assert!(p.lines[3].selected);
    assert_eq!(pieces(&p.lines[0])[1], ("@f0", PieceKind::Dim));
}

#[test]
fn scattered_hits_alternate_runs() {
    let mut it = item("abcd", "", 0);
    it.matched = vec![true, false, true, true];
    let p = completion_popup(&vec![it], 7, 3, 4).unwrap();
    assert!(!p.lines[0].selected);
    assert_eq!(
        pieces(&p.lines[0]),
        vec![
            ("  ", PieceKind::Blank),
            ("a", PieceKind::Hit),
            ("b", PieceKind::Dim),
            ("cd", PieceKind::Hit),
            ("  ", PieceKind::Blank),
        ]
    );
}

#[test]
fn no_items_no_popup() {
    assert!(completion_popup(&Vec::new(), 0, 10, 30).is_none());
    assert!(completion_popup_checked(&Vec::new(), 0, 10, 30).is_none());
}

#[test]
fn checked_popup_refuses_rows_wider_than_sixteen_bits() {
    let huge = "a".repeat(65535);
    let items = vec![item("x", &huge, 0)];
    assert!(completion_popup_checked(&items, 0, 10, 30).is_none());
    let items = vec![item("x", "fine", 1)];
    let p = completion_popup_checked(&items, 0, 10, 30).unwrap();
    assert_eq!(p.rows, 1);
    assert_eq!(pieces(&p.lines[0])[1], ("x", PieceKind::Hit));
}
