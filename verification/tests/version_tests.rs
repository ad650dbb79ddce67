use ccclog::version::{Version, Versions};
use ccclog::Error;

fn v(s: &str) -> Version {
    Version::parse(s).unwrap()
}

fn dummy_versions(vs: Vec<&str>) -> Versions {
    Versions::from(vs.into_iter().map(v).collect::<Vec<Version>>())
}

#[test]
fn latest_range_ok() {
    let expected_latest = v("0.2.0");
    let expected_prev = v("0.1.0");
    let versions = dummy_versions(vec!["0.2.0", "0.1.0"]);

    let (latest, prev) = versions.latest_range();
    assert_eq!(prev, Some(expected_prev));
    assert_eq!(latest, Some(expected_latest));
}

#[test]
fn latest_range_ng() {
    let expected = v("0.2.0");
    let versions = dummy_versions(vec!["0.2.0"]);

    let (latest, prev) = versions.latest_range();
    assert_eq!(prev, None);
    assert_eq!(latest, Some(expected));

    let versions = Versions::from(Vec::new());
    let (latest, prev) = versions.latest_range();
    assert_eq!(prev, None);
    assert_eq!(latest, None);
}

#[test]
fn parse_ok() {
    let a = v("0.2.0");
    assert!(a.has_prefix(""));
    assert_eq!(a.text(), "0.2.0");

    let a = v("v0.2.0");
    assert!(a.has_prefix("v"));
    assert_eq!(a.text(), "v0.2.0");

    let a = v("web-0.2.0");
    assert!(a.has_prefix("web-"));
    assert_eq!(a.text(), "web-0.2.0");

    let a = v("product-0.2.0");
    assert!(a.has_prefix("product-"));
    assert_eq!(a.text(), "product-0.2.0");
}

#[test]
fn parse_ng() {
    match Version::parse("no-digits-here") {
        Err(Error::NotASemanticVersion(t)) => assert_eq!(t, "no-digits-here"),
        other => panic!("expected NotASemanticVersion, got {:?}", other),
    }
    assert!(Version::parse("v1.2").is_err());
    assert!(Version::parse("").is_err());
}

#[test]
fn prefix_count_ok() {
    let a = dummy_versions(vec!["0.1.0", "v0.2.0", "prefix-0.2.0", "test-0.2.0"]);
    let expected: Vec<String> = vec!["", "v", "prefix-", "test-"]
        .into_iter()
        .map(String::from)
        .collect();
    assert_eq!(a.prefix(), expected);

    let a = dummy_versions(Vec::new());
    assert_eq!(a.prefix().iter().count(), 0);
}

#[test]
fn select_ok() {
    let tags = vec!["0.1.0", "v0.2.0", "prefix-0.2.0", "test-0.2.0"];

    let a = dummy_versions(tags.clone());
    let e = dummy_versions(vec!["0.1.0"]);
    assert_eq!(a.select(Some("")), e);

    let a = dummy_versions(tags.clone());
    let e = dummy_versions(vec!["v0.2.0"]);
    assert_eq!(a.select(Some("v")), e);

    let a = dummy_versions(tags.clone());
    let e = dummy_versions(vec!["prefix-0.2.0"]);
    assert_eq!(a.select(Some("prefix-")), e);

    let a = dummy_versions(tags.clone());
    let e = dummy_versions(vec!["test-0.2.0"]);
    assert_eq!(a.select(Some("test-")), e);

    let a = dummy_versions(tags.clone());
    let e = dummy_versions(vec!["0.1.0"]);
    assert_eq!(a.select(None), e);

    let a = dummy_versions(vec!["v0.2.0", "prefix-0.2.0", "test-0.2.0"]);
    let e = dummy_versions(vec!["v0.2.0"]);
    assert_eq!(a.select(None), e);

    let a = dummy_versions(vec!["prefix-0.2.0", "test-0.2.0"]);
    let e = dummy_versions(vec!["prefix-0.2.0", "test-0.2.0"]);
    assert_eq!(a.select(None), e);
}

#[test]
fn precedence_chain_ok() {
    let chain = vec!["1.0.0", "1.0.1", "1.1.0", "2.0.0"];
    for i in 0..chain.len() {
        for j in 0..chain.len() {
            let a = v(chain[i]);
            let b = v(chain[j]);
            assert_eq!(a.precedes(&b), i < j, "{} vs {}", chain[i], chain[j]);
        }
    }
}

#[test]
fn precedence_prerelease_ok() {
    let a = v("1.0.0-alpha");
    let b = v("1.0.0");
    assert!(a.precedes(&b));
    assert!(!b.precedes(&a));

    let a = v("1.0.0-alpha");
    let b = v("1.0.0-alpha.1");
    assert!(a.precedes(&b));

    let a = v("1.0.0-alpha.1");
    let b = v("1.0.0-alpha.beta");
    assert!(a.precedes(&b));

    let a = v("1.0.0-2");
    let b = v("1.0.0-11");
    assert!(a.precedes(&b));

    let a = v("1.0.0+build.1");
    let b = v("1.0.0+build.2");
    assert!(!a.precedes(&b));
    assert!(!b.precedes(&a));
}

#[test]
fn resolve_prefers_empty_prefix_ok() {
    let tags: Vec<String> = vec!["1.0.0", "v1.0.0"].into_iter().map(String::from).collect();
    let versions = Versions::resolve(&tags, None).unwrap();
    assert_eq!(versions, dummy_versions(vec!["1.0.0"]));
}

#[test]
fn resolve_prefers_v_prefix_ok() {
    let tags: Vec<String> = vec!["v1.0.0", "api-1.0.0"].into_iter().map(String::from).collect();
    let versions = Versions::resolve(&tags, None).unwrap();
    assert_eq!(versions, dummy_versions(vec!["v1.0.0"]));
}

#[test]
fn resolve_ambiguous_ng() {
    let tags: Vec<String> = vec!["web-1.0.0", "api-1.0.0"].into_iter().map(String::from).collect();
    match Versions::resolve(&tags, None) {
        Err(Error::AmbiguousVersionScheme(p)) => assert_eq!(p, "web-"),
        other => panic!("expected AmbiguousVersionScheme, got {:?}", other),
    }
}

#[test]
fn resolve_explicit_prefix_ok() {
    let tags: Vec<String> = vec!["web-1.0.0", "api-1.0.0", "junk"]
        .into_iter()
        .map(String::from)
        .collect();
    let versions = Versions::resolve(&tags, Some("api-")).unwrap();
    assert_eq!(versions, dummy_versions(vec!["api-1.0.0"]));

    let versions = Versions::resolve(&tags, Some("missing-")).unwrap();
    assert_eq!(versions, dummy_versions(Vec::new()));
}

#[test]
fn versions_ok() {
    let tags: Vec<String> = vec!["0.1.0", "0.2.0"].into_iter().map(String::from).collect();
    let versions = Versions::resolve(&tags, None).unwrap();
    assert_eq!(versions, dummy_versions(vec!["0.1.0", "0.2.0"]));

    let tags: Vec<String> = vec![
        "1.0.0", "1.1.0", "v0.1.0", "v0.2.0", "v0.3.0", "component-v0.1.0", "component-v0.2.0",
    ]
    .into_iter()
    .map(String::from)
    .collect();

    let versions = Versions::resolve(&tags, Some("v")).unwrap();
    assert_eq!(versions, dummy_versions(vec!["v0.1.0", "v0.2.0", "v0.3.0"]));

    let versions = Versions::resolve(&tags, Some("component-v")).unwrap();
    assert_eq!(
        versions,
        dummy_versions(vec!["component-v0.1.0", "component-v0.2.0"])
    );

    let versions = Versions::resolve(&tags, None).unwrap();
    assert_eq!(versions, dummy_versions(vec!["1.0.0", "1.1.0"]));
}

#[test]
fn versions_ng() {
    let tags: Vec<String> = vec!["aaa-v0.1.0", "aaa-v0.2.0", "bbb-v0.1.0", "bbb-v0.2.0"]
        .into_iter()
        .map(String::from)
        .collect();

    let versions = Versions::resolve(&tags, Some("aaa-v")).unwrap();
    assert_eq!(versions, dummy_versions(vec!["aaa-v0.1.0", "aaa-v0.2.0"]));

    let versions = Versions::resolve(&tags, Some("bbb-v")).unwrap();
    assert_eq!(versions, dummy_versions(vec!["bbb-v0.1.0", "bbb-v0.2.0"]));

    let versions = Versions::resolve(&tags, None);
    assert!(versions.is_err());
}
