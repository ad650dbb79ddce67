use ccclog::conventional_commit::{CommitType, ConventionalCommits};

#[test]
fn commit_type_str_ok() {
    let a = CommitType::parse("unknown").label();
    let e = "Unknown";
    assert_eq!(a, e);

    let a = CommitType::parse("ci").label();
    let e = "CI";
    assert_eq!(a, e);

    let a = CommitType::parse("test").label();
    let e = "Test";
    assert_eq!(a, e);
}

#[test]
fn commit_type_case_insensitive_ok() {
    assert_eq!(CommitType::parse("FEAT"), CommitType::Feat);
    assert_eq!(CommitType::parse("Fix"), CommitType::Fix);
    assert_eq!(
        CommitType::parse("Widget"),
        CommitType::Custom(String::from("Widget"))
    );
}

#[test]
fn classify_roundtrip_ok() {
    let cc = ConventionalCommits::parse("feat(cli): add flag").unwrap();
    assert_eq!(cc._type, CommitType::Feat);
    assert_eq!(cc.scope, Some(String::from("cli")));
    assert_eq!(cc.description, "add flag");
    assert!(!cc.breaking());
}

#[test]
fn classify_fallback_ok() {
    assert!(ConventionalCommits::parse("no colon-delimited token here").is_none());
    assert!(ConventionalCommits::parse("feat:missing space").is_none());
    assert!(ConventionalCommits::parse("").is_none());
}

#[test]
fn classify_breaking_ok() {
    let cc = ConventionalCommits::parse("feat!: change everything").unwrap();
    assert_eq!(cc._type, CommitType::Feat);
    assert!(cc.breaking());

    let cc = ConventionalCommits::parse("feat(core)!: change everything").unwrap();
    assert_eq!(cc.scope, Some(String::from("core")));
    assert!(cc.breaking());

    let cc =
        ConventionalCommits::parse("feat: small\n\nBREAKING CHANGE: the flag is gone").unwrap();
    assert!(cc.breaking());

    let cc = ConventionalCommits::parse("feat: small\nnothing to see").unwrap();
    assert!(!cc.breaking());
}

#[test]
fn classify_custom_ok() {
    let cc = ConventionalCommits::parse("widget: spin harder").unwrap();
    assert_eq!(cc._type, CommitType::Custom(String::from("widget")));
    assert_eq!(cc.description, "spin harder");
}
