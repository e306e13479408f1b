use venus::prompt_view::{input_segments, InputSegment, SegKind};
use venus::skills::{Skill, SkillRegistry};

fn registry() -> SkillRegistry {
    let mut r = SkillRegistry::new();
    for (name, invocable) in [("review", true), ("internal", false)] {
        r.add(Skill {
            name: name.to_string(),
            description: String::new(),
            content: String::new(),
            user_invocable: invocable,
            source_path: String::new(),
        });
    }
    r
}

fn views(segs: &[InputSegment]) -> Vec<(SegKind, &str)> {
    segs.iter().map(|s| (s.kind, s.text.as_str())).collect()
}

#[test]
fn file_reference_before_caret_is_a_pill() {
    let buf = "fix @src/main.rs now";
    let (segs, extra) = input_segments(buf, buf.len(), &registry(), None);
    assert_eq!(
        views(&segs),
        vec![(SegKind::Plain, "fix "), (SegKind::FilePill, "@src/main.rs"), (SegKind::Plain, " now")]
    );
    assert_eq!(extra, 2);
}

#[test]
fn token_under_caret_stays_plain() {
    let buf = "fix @src/main.rs now";
    let (segs, extra) = input_segments(buf, 8, &registry(), None);
    assert_eq!(
        views(&segs),
        vec![(SegKind::Plain, "fix "), (SegKind::Plain, "@src/main.rs"), (SegKind::Plain, " now")]
    );
    assert_eq!(extra, 0);
}

#[test]
fn pill_after_caret_adds_no_cells() {
    let buf = "see @a.rs";
    let (segs, extra) = input_segments(buf, 0, &registry(), None);
    assert_eq!(views(&segs), vec![(SegKind::Plain, "see "), (SegKind::FilePill, "@a.rs")]);
    assert_eq!(extra, 0);
}

#[test]
fn invocable_skill_is_a_pill_ignoring_case() {
    let buf = "/Review this";
    let (segs, extra) = input_segments(buf, buf.len(), &registry(), None);
    assert_eq!(views(&segs), vec![(SegKind::SkillPill, "/Review"), (SegKind::Plain, " this")]);
    assert_eq!(extra, 2);
}

#[test]
fn unknown_or_hidden_skill_stays_plain() {
    let buf = "/nope /internal x";
    let (segs, extra) = input_segments(buf, buf.len(), &registry(), None);
    assert_eq!(
        views(&segs),
        vec![
            (SegKind::Plain, "/nope"),
            (SegKind::Plain, " "),
            (SegKind::Plain, "/internal"),
            (SegKind::Plain, " x")
        ]
    );
    assert_eq!(extra, 0);
}

#[test]
fn slash_inside_a_word_is_text() {
    let buf = "a/b @c/d";
    let (segs, _) = input_segments(buf, buf.len(), &registry(), None);
    assert_eq!(views(&segs), vec![(SegKind::Plain, "a/b "), (SegKind::Plain, "@c/d")]);
}

#[test]
fn multibyte_text_is_cut_on_characters() {
    let buf = "héllo @ü.rs ok";
    let (segs, extra) = input_segments(buf, buf.len(), &registry(), Some("ay"));
    assert_eq!(
        views(&segs),
        vec![
            (SegKind::Plain, "héllo "),
            (SegKind::FilePill, "@ü.rs"),
            (SegKind::Plain, " ok"),
            (SegKind::Preview, "ay")
        ]
    );
    assert_eq!(extra, 2);
}

#[test]
fn empty_prompt_has_only_the_preview() {
    let (segs, extra) = input_segments("", 5, &registry(), Some("/help"));
    assert_eq!(views(&segs), vec![(SegKind::Preview, "/help")]);
    assert_eq!(extra, 0);
    let (segs, _) = input_segments("", 0, &registry(), None);
    assert!(segs.is_empty());
}
