use ccclog::changelog::{Changelog, Config, SummaryFilter};
use ccclog::commit::{Commit, Commits, NamableObj};
use ccclog::conventional_commit::{CommitType, ConventionalCommits};
use ccclog::github_url::GithubUrl;
use ccclog::version::Version;
use ccclog::Error;

fn epoch(datetime: &str) -> i64 {
    chrono::DateTime::parse_from_str(datetime, "%a %b %d %H:%M:%S %Y %z")
        .unwrap()
        .timestamp()
}

fn dummy_commit(
    id: &str,
    _type: &str,
    scope: Option<&str>,
    break_change: bool,
    description: &str,
    author: &str,
    datetime: &str,
    tag: Option<&str>,
) -> Commit {
    let cc = ConventionalCommits::new(
        break_change,
        CommitType::parse(_type),
        scope.map(String::from),
        description,
    );
    let ts = epoch(datetime);
    let type_part = match scope {
        Some(s) => format!("{}({})", _type, s),
        None => _type.to_string(),
    };
    let summary = format!("{}: {}", type_part, description);
    let obj = tag.map(|x| NamableObj::Tag {
        version: Version::parse(x).unwrap(),
        datetime: ts,
    });
    Commit::new(id.to_string(), &summary, author, ts, 1, Some(cc), obj)
}

fn dummy_invalid_commit(
    id: &str,
    summary: &str,
    author: &str,
    datetime: &str,
    tag: Option<&str>,
) -> Commit {
    let ts = epoch(datetime);
    let obj = tag.map(|x| NamableObj::Tag {
        version: Version::parse(x).unwrap(),
        datetime: ts,
    });
    Commit::new(id.to_string(), summary, author, ts, 1, None, obj)
}

fn dummy_commits() -> Commits {
    let mut commits = Vec::new();
    commits.push(dummy_commit(
        "3d185faf719f12292414c88872e3397fc5dc4e62",
        "test",
        None,
        false,
        "add 3",
        "Test User <test-user@test.com>",
        "Wed Apr 01 01:01:03 2020 +0000",
        Some("0.1.0"),
    ));
    commits.push(dummy_commit(
        "2d185faf719f12292414c88872e3397fc5dc4e62",
        "fix",
        None,
        false,
        "add 2",
        "Test User <test-user@test.com>",
        "Wed Apr 01 01:01:02 2020 +0000",
        None,
    ));
    commits.push(dummy_commit(
        "1d185faf719f12292414c88872e3397fc5dc4e62",
        "feat",
        None,
        false,
        "add 1",
        "Test User <test-user@test.com>",
        "Wed Apr 01 01:01:01 2020 +0000",
        None,
    ));
    let prev = dummy_commit(
        "0d185faf719f12292414c88872e3397fc5dc4e62",
        "feat",
        None,
        false,
        "add 0",
        "Test User <test-user0@test.com>",
        "Wed Apr 01 01:01:00 2020 +0000",
        Some("0.0.0"),
    );
    Commits::new(prev, commits)
}

#[test]
fn all_commit_type_ok() -> Result<(), Error> {
    let mut commits = Vec::new();
    let data = [
        ("2e185faf719f12292414c88872e3397fc5dc4e62", "security", "fix security", "Test User12 <test-user12@test.com>", "Wed Apr 01 01:01:12 2020 +0000", Some("0.2.0")),
        ("1e185faf719f12292414c88872e3397fc5dc4e62", "revert", "add some", "Test User11 <test-user11@test.com>", "Wed Apr 01 01:01:11 2020 +0000", None),
        ("0e185faf719f12292414c88872e3397fc5dc4e62", "test", "add test", "Test User10 <test-user10@test.com>", "Wed Apr 01 01:01:10 2020 +0000", None),
        ("9d185faf719f12292414c88872e3397fc5dc4e62", "perf", "add perf", "Test User9 <test-user9@test.com>", "Wed Apr 01 01:01:09 2020 +0000", None),
        ("8d185faf719f12292414c88872e3397fc5dc4e62", "refactor", "add refactor", "Test User8 <test-user8@test.com>", "Wed Apr 01 01:01:08 2020 +0000", None),
        ("7d185faf719f12292414c88872e3397fc5dc4e62", "style", "add style", "Test User7 <test-user7@test.com>", "Wed Apr 01 01:01:07 2020 +0000", None),
        ("6d185faf719f12292414c88872e3397fc5dc4e62", "ci", "add CI", "Test User6 <test-user6@test.com>", "Wed Apr 01 01:01:06 2020 +0000", None),
        ("5d185faf719f12292414c88872e3397fc5dc4e62", "chore", "add chore", "Test User5 <test-user5@test.com>", "Wed Apr 01 01:01:05 2020 +0000", None),
        ("4d185faf719f12292414c88872e3397fc5dc4e62", "doc", "add doc", "Test User4 <test-user4@test.com>", "Wed Apr 01 01:01:04 2020 +0000", None),
        ("3d185faf719f12292414c88872e3397fc5dc4e62", "build", "add build script", "Test User3 <test-user3@test.com>", "Wed Apr 01 01:01:03 2020 +0000", None),
        ("2d185faf719f12292414c88872e3397fc5dc4e62", "fix", "fix typo", "Test User2 <test-user2@test.com>", "Wed Apr 01 01:01:03 2020 +0000", None),
        ("1d185faf719f12292414c88872e3397fc5dc4e62", "feat", "add README", "Test User1 <test-user1@test.com>", "Wed Apr 01 01:01:01 2020 +0000", None),
    ];
    for (id, ty, desc, author, dt, tag) in data.iter() {
        commits.push(dummy_commit(id, ty, None, false, desc, author, dt, *tag));
    }
    let previous = dummy_commit(
        "0d185faf719f12292414c88872e3397fc5dc4e62",
        "feat",
        None,
        false,
        "add zero",
        "Test User0 <test-user0@test.com>",
        "Wed Apr 01 01:01:00 2020 +0000",
        Some("0.1.0"),
    );
    let cms = Commits::new(previous, commits);
    let gurl = GithubUrl::new("https://github.com/watawuwu/ccclog.git");
    let changelog = Changelog::new();
    let markdown = changelog.markdown(Some(&gurl), &cms)?;
    let expected = r#"## [0.2.0] - 2020-04-01
### Feat
- [[1d185fa]] add README (Test User1)

### Fix
- [[2d185fa]] fix typo (Test User2)

### Build
- [[3d185fa]] add build script (Test User3)

### Doc
- [[4d185fa]] add doc (Test User4)

### Chore
- [[5d185fa]] add chore (Test User5)

### CI
- [[6d185fa]] add CI (Test User6)

### Style
- [[7d185fa]] add style (Test User7)

### Refactor
- [[8d185fa]] add refactor (Test User8)

### Perf
- [[9d185fa]] add perf (Test User9)

### Test
- [[0e185fa]] add test (Test User10)

### Revert
- [[1e185fa]] add some (Test User11)

### Security
- [[2e185fa]] fix security (Test User12)

[0.2.0]: https://github.com/watawuwu/ccclog/compare/0.1.0...0.2.0
[1d185fa]: https://github.com/watawuwu/ccclog/commit/1d185faf719f12292414c88872e3397fc5dc4e62
[2d185fa]: https://github.com/watawuwu/ccclog/commit/2d185faf719f12292414c88872e3397fc5dc4e62
[3d185fa]: https://github.com/watawuwu/ccclog/commit/3d185faf719f12292414c88872e3397fc5dc4e62
[4d185fa]: https://github.com/watawuwu/ccclog/commit/4d185faf719f12292414c88872e3397fc5dc4e62
[5d185fa]: https://github.com/watawuwu/ccclog/commit/5d185faf719f12292414c88872e3397fc5dc4e62
[6d185fa]: https://github.com/watawuwu/ccclog/commit/6d185faf719f12292414c88872e3397fc5dc4e62
[7d185fa]: https://github.com/watawuwu/ccclog/commit/7d185faf719f12292414c88872e3397fc5dc4e62
[8d185fa]: https://github.com/watawuwu/ccclog/commit/8d185faf719f12292414c88872e3397fc5dc4e62
[9d185fa]: https://github.com/watawuwu/ccclog/commit/9d185faf719f12292414c88872e3397fc5dc4e62
[0e185fa]: https://github.com/watawuwu/ccclog/commit/0e185faf719f12292414c88872e3397fc5dc4e62
[1e185fa]: https://github.com/watawuwu/ccclog/commit/1e185faf719f12292414c88872e3397fc5dc4e62
[2e185fa]: https://github.com/watawuwu/ccclog/commit/2e185faf719f12292414c88872e3397fc5dc4e62
"#;
    assert_eq!(markdown, expected);
    Ok(())
}

#[test]
fn multi_item_ok() -> Result<(), Error> {
    let mut commits = Vec::new();
    commits.push(dummy_commit(
        "3d185faf719f12292414c88872e3397fc5dc4e62",
        "feat",
        None,
        false,
        "add feat3",
        "Test User3 <test-user3@test.com>",
        "Wed Apr 01 01:01:03 2020 +0000",
        Some("1.0.0"),
    ));
    commits.push(dummy_commit(
        "2d185faf719f12292414c88872e3397fc5dc4e62",
        "feat",
        None,
        false,
        "add feat2",
        "Test User2 <test-user2@test.com>",
        "Wed Apr 01 01:01:03 2020 +0000",
        None,
    ));
    commits.push(dummy_commit(
        "1d185faf719f12292414c88872e3397fc5dc4e62",
        "feat",
        None,
        false,
        "add feat1",
        "Test User1 <test-user1@test.com>",
        "Wed Apr 01 01:01:01 2020 +0000",
        None,
    ));
    let prev = dummy_commit(
        "0d185faf719f12292414c88872e3397fc5dc4e62",
        "feat",
        None,
        false,
        "add zero",
        "Test User0 <test-user0@test.com>",
        "Wed Apr 01 01:01:00 2020 +0000",
        Some("0.1.0"),
    );

    let cms = Commits::new(prev, commits);
    let changelog = Changelog::new();
    let gurl = GithubUrl::new("https://github.com/watawuwu/ccclog.git");
    let markdown = changelog.markdown(Some(&gurl), &cms)?;
    let expected = r#"## [1.0.0] - 2020-04-01
### Feat
- [[3d185fa]] add feat3 (Test User3)
- [[2d185fa]] add feat2 (Test User2)
- [[1d185fa]] add feat1 (Test User1)

[1.0.0]: https://github.com/watawuwu/ccclog/compare/0.1.0...1.0.0
[3d185fa]: https://github.com/watawuwu/ccclog/commit/3d185faf719f12292414c88872e3397fc5dc4e62
[2d185fa]: https://github.com/watawuwu/ccclog/commit/2d185faf719f12292414c88872e3397fc5dc4e62
[1d185fa]: https://github.com/watawuwu/ccclog/commit/1d185faf719f12292414c88872e3397fc5dc4e62
"#;
    assert_eq!(markdown, expected);
    Ok(())
}

#[test]
fn sort_ok() -> Result<(), Error> {
    let mut commits = Vec::new();
    commits.push(dummy_commit(
        "4d185faf719f12292414c88872e3397fc5dc4e62",
        "feat",
        None,
        false,
        "add 4",
        "Test User <test-user@test.com>",
        "Wed Apr 01 01:01:04 2020 +0000",
        Some("0.2.0"),
    ));
    commits.push(dummy_commit(
        "3d185faf719f12292414c88872e3397fc5dc4e62",
        "feat",
        None,
        false,
        "add 3",
        "Test User <test-user@test.com>",
        "Wed Apr 01 01:01:03 2020 +0000",
        None,
    ));
    commits.push(dummy_commit(
        "2d185faf719f12292414c88872e3397fc5dc4e62",
        "feat",
        None,
        false,
        "add 2",
        "Test User <test-user@test.com>",
        "Wed Apr 01 01:01:02 2020 +0000",
        Some("0.1.0"),
    ));
    commits.push(dummy_commit(
        "1d185faf719f12292414c88872e3397fc5dc4e62",
        "feat",
        None,
        false,
        "add 1",
        "Test User <test-user@test.com>",
        "Wed Apr 01 01:01:01 2020 +0000",
        None,
    ));
    let prev = dummy_commit(
        "0d185faf719f12292414c88872e3397fc5dc4e62",
        "feat",
        None,
        false,
        "add zero",
        "Test User0 <test-user0@test.com>",
        "Wed Apr 01 01:01:00 2020 +0000",
        Some("0.0.0"),
    );

    let cms = Commits::new(prev, commits);
    let changelog = Changelog::new();
    let gurl = GithubUrl::new("https://github.com/watawuwu/ccclog.git");
    let markdown = changelog.markdown(Some(&gurl), &cms)?;
    let expected = r#"## [0.2.0] - 2020-04-01
### Feat
- [[4d185fa]] add 4 (Test User)
- [[3d185fa]] add 3 (Test User)

## [0.1.0] - 2020-04-01
### Feat
- [[2d185fa]] add 2 (Test User)
- [[1d185fa]] add 1 (Test User)

[0.2.0]: https://github.com/watawuwu/ccclog/compare/0.1.0...0.2.0
[4d185fa]: https://github.com/watawuwu/ccclog/commit/4d185faf719f12292414c88872e3397fc5dc4e62
[3d185fa]: https://github.com/watawuwu/ccclog/commit/3d185faf719f12292414c88872e3397fc5dc4e62
[0.1.0]: https://github.com/watawuwu/ccclog/compare/0.0.0...0.1.0
[2d185fa]: https://github.com/watawuwu/ccclog/commit/2d185faf719f12292414c88872e3397fc5dc4e62
[1d185fa]: https://github.com/watawuwu/ccclog/commit/1d185faf719f12292414c88872e3397fc5dc4e62
"#;
    assert_eq!(markdown, expected);

    let conf = Config {
        reverse: true,
        ..Default::default()
    };

    let changelog = Changelog::from(conf);
    let markdown = changelog.markdown(Some(&gurl), &cms)?;
    let expected = r#"## [0.2.0] - 2020-04-01
### Feat
- [[3d185fa]] add 3 (Test User)
- [[4d185fa]] add 4 (Test User)

## [0.1.0] - 2020-04-01
### Feat
- [[1d185fa]] add 1 (Test User)
- [[2d185fa]] add 2 (Test User)

[0.2.0]: https://github.com/watawuwu/ccclog/compare/0.1.0...0.2.0
[3d185fa]: https://github.com/watawuwu/ccclog/commit/3d185faf719f12292414c88872e3397fc5dc4e62
[4d185fa]: https://github.com/watawuwu/ccclog/commit/4d185faf719f12292414c88872e3397fc5dc4e62
[0.1.0]: https://github.com/watawuwu/ccclog/compare/0.0.0...0.1.0
[1d185fa]: https://github.com/watawuwu/ccclog/commit/1d185faf719f12292414c88872e3397fc5dc4e62
[2d185fa]: https://github.com/watawuwu/ccclog/commit/2d185faf719f12292414c88872e3397fc5dc4e62
"#;

    assert_eq!(markdown, expected);
    Ok(())
}

#[test]
fn unreleased_ok() -> Result<(), Error> {
    let prev = dummy_commit(
        "0d185faf719f12292414c88872e3397fc5dc4e62",
        "feat",
        None,
        false,
        "add zero",
        "Test User0 <test-user0@test.com>",
        "Wed Apr 01 01:01:00 2020 +0000",
        Some("0.1.0"),
    );

    let mut commits = Vec::new();
    commits.push(dummy_commit(
        "1d185faf719f12292414c88872e3397fc5dc4e62",
        "feat",
        None,
        false,
        "add first",
        "Test User <test-user@test.com>",
        "Wed Apr 01 01:01:01 2020 +0000",
        None,
    ));

    let changelog = Changelog::new();

    let cms = Commits::new(prev, commits);
    let gurl = GithubUrl::new("https://github.com/watawuwu/ccclog.git");
    let markdown = changelog.markdown(Some(&gurl), &cms)?;
    let expected = r#"## [Unreleased]
### Feat
- [[1d185fa]] add first (Test User)

[Unreleased]: https://github.com/watawuwu/ccclog/compare/0.1.0...HEAD
[1d185fa]: https://github.com/watawuwu/ccclog/commit/1d185faf719f12292414c88872e3397fc5dc4e62
"#;
    assert_eq!(markdown, expected);
    Ok(())
}

#[test]
fn tag_and_unreleased_ok() -> Result<(), Error> {
    let mut commits = Vec::new();
    commits.push(dummy_commit(
        "2d185faf719f12292414c88872e3397fc5dc4e62",
        "feat",
        None,
        false,
        "add second",
        "Test User <test-user@test.com>",
        "Wed Apr 01 01:01:02 2020 +0000",
        None,
    ));
    commits.push(dummy_commit(
        "1d185faf719f12292414c88872e3397fc5dc4e62",
        "feat",
        None,
        false,
        "add first",
        "Test User <test-user@test.com>",
        "Wed Apr 01 01:01:01 2020 +0000",
        Some("0.1.0"),
    ));
    let prev = dummy_commit(
        "0d185faf719f12292414c88872e3397fc5dc4e62",
        "feat",
        None,
        false,
        "add zero",
        "Test User0 <test-user0@test.com>",
        "Wed Apr 01 01:01:00 2020 +0000",
        Some("0.0.0"),
    );

    let cms = Commits::new(prev, commits);
    let changelog = Changelog::new();
    let gurl = GithubUrl::new("https://github.com/watawuwu/ccclog.git");
    let markdown = changelog.markdown(Some(&gurl), &cms)?;
    let expected = r#"## [Unreleased]
### Feat
- [[2d185fa]] add second (Test User)

## [0.1.0] - 2020-04-01
### Feat
- [[1d185fa]] add first (Test User)

[Unreleased]: https://github.com/watawuwu/ccclog/compare/0.1.0...HEAD
[2d185fa]: https://github.com/watawuwu/ccclog/commit/2d185faf719f12292414c88872e3397fc5dc4e62
[0.1.0]: https://github.com/watawuwu/ccclog/compare/0.0.0...0.1.0
[1d185fa]: https://github.com/watawuwu/ccclog/commit/1d185faf719f12292414c88872e3397fc5dc4e62
"#;
    assert_eq!(markdown, expected);
    Ok(())
}

#[test]
fn scope_ok() -> Result<(), Error> {
    let mut commits = Vec::new();
    commits.push(dummy_commit(
        "1d185faf719f12292414c88872e3397fc5dc4e62",
        "feat",
        Some("test"),
        false,
        "add first",
        "Test User <test-user@test.com>",
        "Wed Apr 01 01:01:01 2020 +0000",
        Some("0.1.0"),
    ));
    let prev = dummy_commit(
        "0d185faf719f12292414c88872e3397fc5dc4e62",
        "feat",
        None,
        false,
        "add zero",
        "Test User0 <test-user0@test.com>",
        "Wed Apr 01 01:01:00 2020 +0000",
        Some("0.0.0"),
    );

    let cms = Commits::new(prev, commits);
    let changelog = Changelog::new();
    let gurl = GithubUrl::new("https://github.com/watawuwu/ccclog.git");
    let markdown = changelog.markdown(Some(&gurl), &cms)?;
    let expected = r#"## [0.1.0] - 2020-04-01
### Feat
- [[1d185fa]] add first (Test User)

[0.1.0]: https://github.com/watawuwu/ccclog/compare/0.0.0...0.1.0
[1d185fa]: https://github.com/watawuwu/ccclog/commit/1d185faf719f12292414c88872e3397fc5dc4e62
"#;
    assert_eq!(markdown, expected);
    Ok(())
}

#[test]
fn no_conventional_commits_ok() -> Result<(), Error> {
    let mut commits = Vec::new();
    commits.push(dummy_invalid_commit(
        "1d185faf719f12292414c88872e3397fc5dc4e62",
        "add first",
        "Test User <test-user@test.com>",
        "Wed Apr 01 01:01:01 2020 +0000",
        Some("0.1.0"),
    ));
    let prev = dummy_invalid_commit(
        "0d185faf719f12292414c88872e3397fc5dc4e62",
        "add zero",
        "Test User0 <test-user0@test.com>",
        "Wed Apr 01 01:01:00 2020 +0000",
        Some("0.0.0"),
    );

    let cms = Commits::new(prev, commits);
    let changelog = Changelog::new();
    let gurl = GithubUrl::new("https://github.com/watawuwu/ccclog.git");
    let markdown = changelog.markdown(Some(&gurl), &cms)?;
    let expected = r#"## [0.1.0] - 2020-04-01
### Others
- [[1d185fa]] add first (Test User)

[0.1.0]: https://github.com/watawuwu/ccclog/compare/0.0.0...0.1.0
[1d185fa]: https://github.com/watawuwu/ccclog/commit/1d185faf719f12292414c88872e3397fc5dc4e62
"#;
    assert_eq!(markdown, expected);
    Ok(())
}

#[test]
fn multi_release_ok() -> Result<(), Error> {
    let mut commits = Vec::new();
    commits.push(dummy_commit(
        "3d185faf719f12292414c88872e3397fc5dc4e62",
        "feat",
        None,
        false,
        "add 3",
        "Test User <test-user@test.com>",
        "Wed Apr 01 01:01:03 2020 +0000",
        Some("0.3.0"),
    ));
    commits.push(dummy_commit(
        "2d185faf719f12292414c88872e3397fc5dc4e62",
        "feat",
        None,
        false,
        "add 2",
        "Test User <test-user@test.com>",
        "Wed Apr 01 01:01:02 2020 +0000",
        Some("0.2.0"),
    ));
    commits.push(dummy_commit(
        "1d185faf719f12292414c88872e3397fc5dc4e62",
        "feat",
        None,
        false,
        "add 1",
        "Test User <test-user@test.com>",
        "Wed Apr 01 01:01:01 2020 +0000",
        Some("0.1.0"),
    ));
    let prev = dummy_commit(
        "0d185faf719f12292414c88872e3397fc5dc4e62",
        "feat",
        None,
        false,
        "add 0",
        "Test User0 <test-user0@test.com>",
        "Wed Apr 01 01:01:00 2020 +0000",
        Some("0.0.0"),
    );

    let cms = Commits::new(prev, commits);
    let changelog = Changelog::new();
    let gurl = GithubUrl::new("https://github.com/watawuwu/ccclog.git");
    let markdown = changelog.markdown(Some(&gurl), &cms)?;
    let expected = r#"## [0.3.0] - 2020-04-01
### Feat
- [[3d185fa]] add 3 (Test User)

## [0.2.0] - 2020-04-01
### Feat
- [[2d185fa]] add 2 (Test User)

## [0.1.0] - 2020-04-01
### Feat
- [[1d185fa]] add 1 (Test User)

[0.3.0]: https://github.com/watawuwu/ccclog/compare/0.2.0...0.3.0
[3d185fa]: https://github.com/watawuwu/ccclog/commit/3d185faf719f12292414c88872e3397fc5dc4e62
[0.2.0]: https://github.com/watawuwu/ccclog/compare/0.1.0...0.2.0
[2d185fa]: https://github.com/watawuwu/ccclog/commit/2d185faf719f12292414c88872e3397fc5dc4e62
[0.1.0]: https://github.com/watawuwu/ccclog/compare/0.0.0...0.1.0
[1d185fa]: https://github.com/watawuwu/ccclog/commit/1d185faf719f12292414c88872e3397fc5dc4e62
"#;
    assert_eq!(markdown, expected);
    Ok(())
}

#[test]
fn enable_email_link_ok() -> Result<(), Error> {
    let mut commits = Vec::new();
    commits.push(dummy_commit(
        "3d185faf719f12292414c88872e3397fc5dc4e62",
        "feat",
        None,
        false,
        "add 3",
        "Test User <test-user@test.com>",
        "Wed Apr 01 01:01:03 2020 +0000",
        Some("0.3.0"),
    ));
    let prev = dummy_commit(
        "0d185faf719f12292414c88872e3397fc5dc4e62",
        "feat",
        None,
        false,
        "add 0",
        "Test User0 <test-user0@test.com>",
        "Wed Apr 01 01:01:00 2020 +0000",
        Some("0.0.0"),
    );

    let cms = Commits::new(prev, commits);
    let conf = Config {
        enable_email_link: true,
        ..Default::default()
    };

    let changelog = Changelog::from(conf);
    let gurl = GithubUrl::new("https://github.com/watawuwu/ccclog.git");
    let markdown = changelog.markdown(Some(&gurl), &cms)?;
    let expected = r#"## [0.3.0] - 2020-04-01
### Feat
- [[3d185fa]] add 3 ([Test User](mailto:test-user@test.com))

[0.3.0]: https://github.com/watawuwu/ccclog/compare/0.0.0...0.3.0
[3d185fa]: https://github.com/watawuwu/ccclog/commit/3d185faf719f12292414c88872e3397fc5dc4e62
"#;
    assert_eq!(markdown, expected);
    Ok(())
}

#[test]
fn root_indent_level_ok() -> Result<(), Error> {
    let mut commits = Vec::new();
    commits.push(dummy_commit(
        "3d185faf719f12292414c88872e3397fc5dc4e62",
        "feat",
        None,
        false,
        "add 3",
        "Test User <test-user@test.com>",
        "Wed Apr 01 01:01:03 2020 +0000",
        Some("0.3.0"),
    ));
    let prev = dummy_commit(
        "0d185faf719f12292414c88872e3397fc5dc4e62",
        "feat",
        None,
        false,
        "add 0",
        "Test User0 <test-user0@test.com>",
        "Wed Apr 01 01:01:00 2020 +0000",
        Some("0.0.0"),
    );

    let cms = Commits::new(prev, commits);
    let conf = Config {
        root_indent_level: 1,
        ..Default::default()
    };
    let changelog = Changelog::from(conf);
    let gurl = GithubUrl::new("https://github.com/watawuwu/ccclog.git");
    let markdown = changelog.markdown(Some(&gurl), &cms)?;
    let expected = r#"# [0.3.0] - 2020-04-01
## Feat
- [[3d185fa]] add 3 (Test User)

[0.3.0]: https://github.com/watawuwu/ccclog/compare/0.0.0...0.3.0
[3d185fa]: https://github.com/watawuwu/ccclog/commit/3d185faf719f12292414c88872e3397fc5dc4e62
"#;
    assert_eq!(markdown, expected);
    Ok(())
}

#[test]
fn no_remote_ok() -> Result<(), Error> {
    let mut commits = Vec::new();
    commits.push(dummy_commit(
        "1d185faf719f12292414c88872e3397fc5dc4e62",
        "feat",
        None,
        false,
        "add 1",
        "Test User <test-user@test.com>",
        "Wed Apr 01 01:01:03 2020 +0000",
        Some("0.3.0"),
    ));
    let prev = dummy_commit(
        "0d185faf719f12292414c88872e3397fc5dc4e62",
        "feat",
        None,
        false,
        "add 0",
        "Test User0 <test-user0@test.com>",
        "Wed Apr 01 01:01:00 2020 +0000",
        Some("0.0.0"),
    );

    let cms = Commits::new(prev, commits);
    let conf = Config {
        root_indent_level: 1,
        ..Default::default()
    };
    let changelog = Changelog::from(conf);
    let markdown = changelog.markdown(None, &cms)?;
    let expected = r#"# 0.3.0 - 2020-04-01
## Feat
- [1d185fa] add 1 (Test User)
"#;
    assert_eq!(markdown, expected);
    Ok(())
}

#[test]
fn custom_ok() -> Result<(), Error> {
    let mut commits = Vec::new();
    commits.push(dummy_commit(
        "4d185faf719f12292414c88872e3397fc5dc4e62",
        "custom2",
        None,
        false,
        "add 4",
        "Test User <test-user@test.com>",
        "Wed Apr 01 01:01:03 2020 +0000",
        Some("0.3.0"),
    ));
    commits.push(dummy_commit(
        "3d185faf719f12292414c88872e3397fc5dc4e62",
        "custom2",
        None,
        false,
        "add 3",
        "Test User <test-user@test.com>",
        "Wed Apr 01 01:01:03 2020 +0000",
        None,
    ));
    commits.push(dummy_commit(
        "2d185faf719f12292414c88872e3397fc5dc4e62",
        "custom1",
        None,
        false,
        "add 2",
        "Test User <test-user@test.com>",
        "Wed Apr 01 01:01:03 2020 +0000",
        None,
    ));
    commits.push(dummy_commit(
        "1d185faf719f12292414c88872e3397fc5dc4e62",
        "custom1",
        None,
        false,
        "add 1",
        "Test User <test-user@test.com>",
        "Wed Apr 01 01:01:03 2020 +0000",
        None,
    ));
    let prev = dummy_commit(
        "0d185faf719f12292414c88872e3397fc5dc4e62",
        "feat",
        None,
        false,
        "add 0",
        "Test User0 <test-user0@test.com>",
        "Wed Apr 01 01:01:00 2020 +0000",
        Some("0.0.0"),
    );

    let cms = Commits::new(prev, commits);
    let changelog = Changelog::new();
    let markdown = changelog.markdown(None, &cms)?;
    let expected = r#"## 0.3.0 - 2020-04-01
### Custom2
- [4d185fa] add 4 (Test User)
- [3d185fa] add 3 (Test User)

### Custom1
- [2d185fa] add 2 (Test User)
- [1d185fa] add 1 (Test User)
"#;
    assert_eq!(markdown, expected);
    Ok(())
}

#[test]
fn filter_ok() -> Result<(), Error> {
    let cms = dummy_commits();
    let conf = Config {
        ignore_summary: Some(SummaryFilter::new(r#"^add 3$"#).unwrap()),
        ..Default::default()
    };
    let changelog = Changelog::from(conf);
    let markdown = changelog.markdown(None, &cms)?;
    let expected = r#"## 0.1.0 - 2020-04-01
### Feat
- [1d185fa] add 1 (Test User)

### Fix
- [2d185fa] add 2 (Test User)
"#;
    assert_eq!(markdown, expected);
    Ok(())
}

#[test]
fn filter_types_ok() -> Result<(), Error> {
    let cms = dummy_commits();
    let conf = Config {
        ignore_types: Some(vec![CommitType::Fix, CommitType::Test]),
        ..Default::default()
    };
    let changelog = Changelog::from(conf);
    let markdown = changelog.markdown(None, &cms)?;
    let expected = r#"## 0.1.0 - 2020-04-01
### Feat
- [1d185fa] add 1 (Test User)
"#;
    assert_eq!(markdown, expected);
    Ok(())
}
