use depman::version::{Requirement, Version};

#[test]
fn parse_plain_version() {
    let v = Version::parse("1.2.3").unwrap();
    assert_eq!(v.major(), 1);
    assert_eq!(v.minor(), 2);
    assert_eq!(v.patch(), 3);
    assert_eq!(v.text(), "1.2.3");
}

#[test]
fn parse_full_version() {
    let v = Version::parse("2.10.0-alpha.7+build.5").unwrap();
    assert_eq!(v.major(), 2);
    assert_eq!(v.minor(), 10);
    assert_eq!(v.patch(), 0);
    assert_eq!(v.text(), "2.10.0-alpha.7+build.5");
}

#[test]
fn parse_rejects_invalid() {
    assert!(Version::parse("1.0").is_none());
    assert!(Version::parse("1.0.01").is_none());
    assert!(Version::parse("").is_none());
    assert!(Version::parse("file:../local").is_none());
    assert!(Version::parse("1.0.0-").is_none());
}

#[test]
fn version_equality_is_by_text() {
    let a = Version::parse("1.2.3").unwrap();
    let b = Version::parse("1.2.3").unwrap();
    let c = Version::parse("1.2.4").unwrap();
    assert!(a == b);
    assert!(a != c);
}

#[test]
fn precedence_ordering_of_prereleases() {
    // The canonical chain from the semantic-versioning rules.
    let chain = [
        "1.0.0-alpha",
        "1.0.0-alpha.1",
        "1.0.0-alpha.beta",
        "1.0.0-beta",
        "1.0.0-beta.2",
        "1.0.0-beta.11",
        "1.0.0-rc.1",
        "1.0.0",
    ];
    for w in chain.windows(2) {
        let lo = Version::parse(w[0]).unwrap();
        let hi = Version::parse(w[1]).unwrap();
        assert!(lo.lt(&hi), "{} should be below {}", w[0], w[1]);
        assert!(!hi.lt(&lo));
        assert!(lo.le(&hi));
    }
}

#[test]
fn numeric_identifiers_compare_numerically() {
    let small = Version::parse("1.0.0-pre.8").unwrap();
    let large = Version::parse("1.0.0-pre.12").unwrap();
    assert!(small.lt(&large));

    let lex = Version::parse("1.0.0-pre12").unwrap();
    let lex2 = Version::parse("1.0.0-pre8").unwrap();
    assert!(lex.lt(&lex2));
}

#[test]
fn triples_compare_numerically() {
    let a = Version::parse("1.5.0").unwrap();
    let b = Version::parse("1.19.0").unwrap();
    assert!(a.lt(&b));
}

#[test]
fn build_metadata_is_ignored_in_precedence() {
    let a = Version::parse("1.2.3+abc").unwrap();
    let b = Version::parse("1.2.3").unwrap();
    assert_eq!(a.cmp_precedence(&b), 0);
    assert!(a != b);
}

#[test]
fn requirement_parse_and_match() {
    let req = Requirement::parse("^1.0.0").unwrap();
    assert_eq!(req.text(), "^1.0.0");
    assert!(req.matches(&Version::parse("1.4.0").unwrap()));
    assert!(req.matches(&Version::parse("1.0.0").unwrap()));
    assert!(!req.matches(&Version::parse("2.0.0").unwrap()));
    assert!(!req.matches(&Version::parse("0.9.0").unwrap()));
}

#[test]
fn requirement_rejects_garbage() {
    assert!(Requirement::parse("not;;a--range").is_none());
}

#[test]
fn stringify_renders_placeholder() {
    assert_eq!(depman::stringify(&Some("1.2.3".to_string())), "1.2.3");
    assert_eq!(depman::stringify(&None), "-");
}
