use venus::skills::{parse_skill, SkillError, SkillRegistry};

/// Builds a registry from skill files as the directory loader does: each
/// parsed file is added in turn, later ones overriding earlier ones.
fn load(files: &[(&str, &str)]) -> SkillRegistry {
    let mut registry = SkillRegistry::new();
    for (file_name, content) in files {
        let stem = file_name.strip_suffix(".md");
        if let Ok(skill) = parse_skill(content, stem, file_name) {
            registry.add(skill);
        }
    }
    registry
}

#[test]
fn test_load_from_dirs() {
    let registry = load(&[
        (
            "commit.md",
            "---\nname: commit\ndescription: Create a commit\nuser_invocable: true\n---\n\nCommit skill body.",
        ),
        (
            "review.md",
            "---\nname: review\ndescription: Code review\nuser_invocable: false\n---\n\nReview body.",
        ),
    ]);

    assert_eq!(registry.all().len(), 2);
    assert_eq!(registry.user_invocable().len(), 1);

    let commit = registry.find("commit").unwrap();
    assert_eq!(commit.description, "Create a commit");
    assert!(commit.user_invocable);
    assert_eq!(commit.content, "Commit skill body.");

    // Case insensitive
    assert!(registry.find("COMMIT").is_some());
    assert!(registry.find("nonexistent").is_none());
}

#[test]
fn test_name_fallback_to_filename() {
    let registry = load(&[("deploy.md", "---\ndescription: Deploy things\n---\n\nDeploy body.")]);
    let skill = registry.find("deploy").unwrap();
    assert_eq!(skill.name, "deploy");
}

#[test]
fn test_override_by_later_dir() {
    let registry = load(&[
        ("commit.md", "---\nname: commit\ndescription: V1\n---\n\nV1 body."),
        ("commit.md", "---\nname: commit\ndescription: V2\n---\n\nV2 body."),
    ]);
    let commit = registry.find("commit").unwrap();
    assert_eq!(commit.description, "V2");
}

#[test]
fn test_missing_dir_is_ok() {
    let registry = load(&[]);
    assert!(registry.all().is_empty());
}

#[test]
fn skill_file_errors() {
    assert!(matches!(parse_skill("no frontmatter", None, "x.md"), Err(SkillError::MissingFrontmatter)));
    assert!(matches!(
        parse_skill("---\nname: x\n", None, "x.md"),
        Err(SkillError::MissingClosingFrontmatter)
    ));
    let s = parse_skill("---\n---\nbody", None, "x").unwrap();
    assert_eq!(s.name, "unknown");
    assert_eq!(s.content, "body");
    assert_eq!(s.source_path, "x");
}

#[test]
fn default_registry_is_empty() {
    assert!(SkillRegistry::default().all().is_empty());
}
