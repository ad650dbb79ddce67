use ccclog::changelog::{Changelog, Config};
use ccclog::commit::{Commit, Commits, NamableObj, ReleaseRange};
use ccclog::conventional_commit::{CommitType, ConventionalCommits};
use ccclog::version::Version;
use ccclog::{run, CommitRecord, Error};

fn epoch(datetime: &str) -> i64 {
    chrono::DateTime::parse_from_str(datetime, "%a %b %d %H:%M:%S %Y %z")
        .unwrap()
        .timestamp()
}

fn record(
    hash: &str,
    message: &str,
    author: &str,
    datetime: &str,
    tag_name: Option<&str>,
) -> CommitRecord {
    CommitRecord {
        hash: hash.to_string(),
        message: message.to_string(),
        author: author.to_string(),
        timestamp: epoch(datetime),
        parent_count: 1,
        tag_name: tag_name.map(String::from),
    }
}

#[test]
fn ok() -> Result<(), Error> {
    let records = vec![
        record(
            "9cd36629bddcf2ce9cfc16fcfbd9ea48815b2dc8",
            "feat: new fun",
            "Test User <test-user@test.com>",
            "Wed Apr 29 16:31:39 2020 +0900",
            Some("0.2.0"),
        ),
        record(
            "6f904822757b9d40ba885d946f9e78a7b5b63ddf",
            "fix: fix build script",
            "Test User <test-user@test.com>",
            "Wed Apr 29 16:30:46 2020 +0900",
            None,
        ),
        record(
            "a673434d9fa4efc63c7026a426a36841b247f446",
            "build: add build script",
            "Test User <test-user@test.com>",
            "Wed Apr 29 16:30:15 2020 +0900",
            None,
        ),
    ];
    let boundary = record(
        "9fa3647bfd047ee3c4c120a492065fa6f1c97bcb",
        "chore: add README",
        "Test User <test-user@test.com>",
        "Wed Apr 29 16:29:47 2020 +0900",
        Some("0.1.0"),
    );

    let actual = run(boundary, records, Config::default(), None)?;

    let expect = r#"## 0.2.0 - 2020-04-29
### Feat
- [9cd3662] new fun (Test User)

### Fix
- [6f90482] fix build script (Test User)

### Build
- [a673434] add build script (Test User)
"#;
    assert_eq!(actual, expect);
    Ok(())
}

#[test]
fn run_with_remote_ok() -> Result<(), Error> {
    let records = vec![record(
        "1d185faf719f12292414c88872e3397fc5dc4e62",
        "feat: add first",
        "Test User <test-user@test.com>",
        "Wed Apr 01 01:01:01 2020 +0000",
        Some("0.1.0"),
    )];
    let boundary = record(
        "0d185faf719f12292414c88872e3397fc5dc4e62",
        "feat: add zero",
        "Test User <test-user@test.com>",
        "Wed Apr 01 01:01:00 2020 +0000",
        Some("0.0.0"),
    );
    let remote = Some(String::from("git@github.com:watawuwu/ccclog.git"));

    let actual = run(boundary, records, Config::default(), remote)?;

    let expect = r#"## [0.1.0] - 2020-04-01
### Feat
- [[1d185fa]] add first (Test User)

[0.1.0]: https://github.com/watawuwu/ccclog/compare/0.0.0...0.1.0
[1d185fa]: https://github.com/watawuwu/ccclog/commit/1d185faf719f12292414c88872e3397fc5dc4e62
"#;
    assert_eq!(actual, expect);
    Ok(())
}

fn plain_commit(id: &str, _type: &str, desc: &str, datetime: &str, tag: Option<&str>) -> Commit {
    let cc = ConventionalCommits::new(false, CommitType::parse(_type), None, desc);
    let ts = epoch(datetime);
    let obj = tag.map(|x| NamableObj::Tag {
        version: Version::parse(x).unwrap(),
        datetime: ts,
    });
    let summary = format!("{}: {}", _type, desc);
    Commit::new(
        id.to_string(),
        &summary,
        "Test User <test-user@test.com>",
        ts,
        1,
        Some(cc),
        obj,
    )
}

fn bucket_hashes(groups: &Vec<(CommitType, Vec<Commit>)>) -> Vec<String> {
    let mut out = Vec::new();
    for (_, cs) in groups.iter() {
        for c in cs.iter() {
            out.push(c.hash());
        }
    }
    out
}

#[test]
fn two_releases_scenario_ok() {
    // Newest-first: C3 tagged 0.2.0, C2 untagged, C1 tagged 0.1.0;
    // boundary C0. Each tagged commit closes the bucket it opened, so
    // C3 and C2 fall into the newest release and C1 into the older one.
    let c3 = plain_commit("c3c3c3c", "feat", "three", "Wed Apr 01 01:01:03 2020 +0000", Some("0.2.0"));
    let c2 = plain_commit("c2c2c2c", "feat", "two", "Wed Apr 01 01:01:02 2020 +0000", None);
    let c1 = plain_commit("c1c1c1c", "feat", "one", "Wed Apr 01 01:01:01 2020 +0000", Some("0.1.0"));
    let c0 = plain_commit("c0c0c0c", "feat", "zero", "Wed Apr 01 01:01:00 2020 +0000", None);

    let cms = Commits::new(c0, vec![c3, c2, c1]);
    let buckets = cms.group_by(None);
    assert_eq!(buckets.len(), 2);

    match &buckets[0].0 {
        ReleaseRange::Release(from, to) => {
            assert_eq!(from.name(), "0.1.0");
            assert_eq!(to.name(), "0.2.0");
        }
        other => panic!("expected a release range, got {:?}", other),
    }
    assert_eq!(bucket_hashes(&buckets[0].1), vec!["c3c3c3c", "c2c2c2c"]);

    match &buckets[1].0 {
        ReleaseRange::Release(from, to) => {
            assert_eq!(from.name(), "c0c0c0c");
            assert_eq!(to.name(), "0.1.0");
        }
        other => panic!("expected a release range, got {:?}", other),
    }
    assert_eq!(bucket_hashes(&buckets[1].1), vec!["c1c1c1c"]);
}

#[test]
fn unreleased_head_scenario_ok() {
    // A single untagged commit over a tagged boundary yields one
    // unreleased bucket holding it.
    let c1 = plain_commit("c1c1c1c", "feat", "one", "Wed Apr 01 01:01:01 2020 +0000", None);
    let c0 = plain_commit("c0c0c0c", "feat", "zero", "Wed Apr 01 01:01:00 2020 +0000", Some("0.1.0"));

    let cms = Commits::new(c0, vec![c1]);
    let buckets = cms.group_by(None);
    assert_eq!(buckets.len(), 1);
    match &buckets[0].0 {
        ReleaseRange::UnRelease(from) => assert_eq!(from.name(), "0.1.0"),
        other => panic!("expected an unreleased range, got {:?}", other),
    }
    assert_eq!(bucket_hashes(&buckets[0].1), vec!["c1c1c1c"]);
}

#[test]
fn empty_slice_scenario_ok() -> Result<(), Error> {
    // Zero commits yield one bucket with an empty kind map, and the
    // renderer omits it entirely.
    let c0 = plain_commit("c0c0c0c", "feat", "zero", "Wed Apr 01 01:01:00 2020 +0000", Some("0.1.0"));
    let cms = Commits::new(c0, Vec::new());
    let buckets = cms.group_by(None);
    assert_eq!(buckets.len(), 1);
    assert!(buckets[0].1.is_empty());

    let changelog = Changelog::new();
    let markdown = changelog.markdown(None, &cms)?;
    assert_eq!(markdown, "");
    Ok(())
}

#[test]
fn prefix_filter_treats_foreign_tags_as_untagged_ok() {
    // A tag whose prefix does not start with the wanted one counts as
    // no tag at all.
    let c1 = plain_commit("c1c1c1c", "feat", "one", "Wed Apr 01 01:01:01 2020 +0000", Some("api-0.2.0"));
    let c0 = plain_commit("c0c0c0c", "feat", "zero", "Wed Apr 01 01:01:00 2020 +0000", None);

    let cms = Commits::new(c0, vec![c1]);
    let buckets = cms.group_by(Some("web-"));
    assert_eq!(buckets.len(), 1);
    match &buckets[0].0 {
        ReleaseRange::UnRelease(from) => assert_eq!(from.name(), "c0c0c0c"),
        other => panic!("expected an unreleased range, got {:?}", other),
    }
}

#[test]
fn error_messages_ok() {
    let e = Error::NotASemanticVersion(String::from("junk"));
    assert_eq!(e.message(), "Can't find semver format. value: junk");

    let e = Error::AmbiguousVersionScheme(String::from("web-"));
    assert!(e.message().ends_with("--tag-prefix=web-"));

    let e = Error::UnsupportedRevisionSpec(String::from("HEAD"));
    assert!(e.message().ends_with("value: HEAD"));
}

#[test]
fn merge_commits_excluded_by_default_ok() -> Result<(), Error> {
    let mut merge = record(
        "2d185faf719f12292414c88872e3397fc5dc4e62",
        "feat: merge work",
        "Test User <test-user@test.com>",
        "Wed Apr 01 01:01:02 2020 +0000",
        None,
    );
    merge.parent_count = 2;
    let records = vec![
        merge,
        record(
            "1d185faf719f12292414c88872e3397fc5dc4e62",
            "feat: add first",
            "Test User <test-user@test.com>",
            "Wed Apr 01 01:01:01 2020 +0000",
            Some("0.1.0"),
        ),
    ];
    let boundary = record(
        "0d185faf719f12292414c88872e3397fc5dc4e62",
        "feat: add zero",
        "Test User <test-user@test.com>",
        "Wed Apr 01 01:01:00 2020 +0000",
        Some("0.0.0"),
    );

    let actual = run(boundary, records, Config::default(), None)?;
    let expect = r#"## 0.1.0 - 2020-04-01
### Feat
- [1d185fa] add first (Test User)
"#;
    assert_eq!(actual, expect);
    Ok(())
}

#[test]
fn merge_commits_kept_when_asked_ok() -> Result<(), Error> {
    let mut merge = record(
        "2d185faf719f12292414c88872e3397fc5dc4e62",
        "feat: merge work",
        "Test User <test-user@test.com>",
        "Wed Apr 01 01:01:02 2020 +0000",
        None,
    );
    merge.parent_count = 2;
    let records = vec![
        merge,
        record(
            "1d185faf719f12292414c88872e3397fc5dc4e62",
            "feat: add first",
            "Test User <test-user@test.com>",
            "Wed Apr 01 01:01:01 2020 +0000",
            Some("0.1.0"),
        ),
    ];
    let boundary = record(
        "0d185faf719f12292414c88872e3397fc5dc4e62",
        "feat: add zero",
        "Test User <test-user@test.com>",
        "Wed Apr 01 01:01:00 2020 +0000",
        Some("0.0.0"),
    );

    let config = Config {
        include_merge_commits: true,
        ..Default::default()
    };
    let actual = run(boundary, records, config, None)?;
    let expect = r#"## Unreleased
### Feat
- [2d185fa] merge work (Test User)

## 0.1.0 - 2020-04-01
### Feat
- [1d185fa] add first (Test User)
"#;
    assert_eq!(actual, expect);
    Ok(())
}
