use ccclog::commit::{Commit, NamableObj};
use ccclog::github_url::GithubUrl;

#[test]
fn ssh_ok() {
    let a = GithubUrl::new("ssh://git@github.com/watawuwu/ccclog.git");
    let e = "https://github.com/watawuwu/ccclog";
    assert_eq!(a.base(), e);
}

#[test]
fn git_ok() {
    let a = GithubUrl::new("git@github.com/watawuwu/ccclog.git");
    let e = "https://github.com/watawuwu/ccclog";
    assert_eq!(a.base(), e);
}

#[test]
fn http_ok() {
    let a = GithubUrl::new("http://github.com/watawuwu/ccclog.git");
    let e = "http://github.com/watawuwu/ccclog";
    assert_eq!(a.base(), e);

    let a = GithubUrl::new("https://github.com/watawuwu/ccclog.git");
    let e = "https://github.com/watawuwu/ccclog";
    assert_eq!(a.base(), e);
}

#[test]
fn enterprise_ok() {
    let a = GithubUrl::new("https://test.com/watawuwu/ccclog.git");
    let e = "https://test.com/watawuwu/ccclog";
    assert_eq!(a.base(), e);
}

#[test]
fn unknown_ok() {
    let a = GithubUrl::new("https://test.com/watawuwu/ccclog");
    let e = "https://test.com/watawuwu/ccclog";
    assert_eq!(a.base(), e);
}

#[test]
fn scp_colon_ok() {
    let a = GithubUrl::new("git@github.com:watawuwu/ccclog.git");
    let e = "https://github.com/watawuwu/ccclog";
    assert_eq!(a.base(), e);
}

#[test]
fn compare_ok() {
    let url = GithubUrl::new("https://test.com/watawuwu/ccclog.git");

    let datetime = 1588156287i64;
    let start = NamableObj::new("0.1.0", datetime).unwrap();
    let end = NamableObj::new("0.3.0", datetime).unwrap();

    let a = url.compare(&start, Some(&end));
    let e = "https://test.com/watawuwu/ccclog/compare/0.1.0...0.3.0";
    assert_eq!(a, e);

    let a = url.compare(&start, None);
    let e = "https://test.com/watawuwu/ccclog/compare/0.1.0...HEAD";
    assert_eq!(a, e);
}

#[test]
fn commit_ok() {
    let url = GithubUrl::new("https://test.com/watawuwu/ccclog.git");

    let commit = Commit::new(
        String::from("1d185faf719f12292414c88872e3397fc5dc4e62"),
        "test summary",
        "Test User<test-user@test.com>",
        1588156287,
        1,
        None,
        None,
    );
    let a = url.commit(&commit);
    let e = "https://test.com/watawuwu/ccclog/commit/1d185faf719f12292414c88872e3397fc5dc4e62";
    assert_eq!(a, e);
}

#[test]
fn author_from_str_ok() {
    let a = ccclog::commit::Author::parse("Test User <test-user@test.com>");

    let e = "Test User";
    assert_eq!(a.name(), e);

    let e = "test-user@test.com";
    assert_eq!(a.email(), Some(e));
}

#[test]
fn author_fallback_ok() {
    let a = ccclog::commit::Author::parse("nospacehere");
    assert_eq!(a.name(), "Unknown");
    assert_eq!(a.email(), None);
}
