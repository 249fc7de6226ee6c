use depman::javascriptnpm::JavascriptNpm;
use depman::parser::{dep_names, Author, Lockfile, Project, UpgradeType};

fn entries(list: &[(&str, &str)]) -> Vec<(String, Option<String>)> {
    list.iter().map(|(n, r)| (n.to_string(), Some(r.to_string()))).collect()
}

fn texts(list: &[&str]) -> Vec<String> {
    list.iter().map(|s| s.to_string()).collect()
}

fn npm_info(name: &str, versions: &[&str]) -> depman::parser::DepInfo {
    JavascriptNpm::dep_info(name.to_string(), None, None, None, None, texts(versions))
}

/// A one-dependency npm project: `dep` declared as `spec` under
/// `dependencies`, installed at `cur`, with the registry listing `versions`.
fn one_dep_project(spec: &str, cur: &str, versions: &[&str]) -> Project {
    let config = JavascriptNpm::parse_config(
        None,
        None,
        Some(entries(&[("dep", spec)])),
        None,
    );
    let lockfile = JavascriptNpm::parse_lockfile(vec![("dep".to_string(), cur.to_string())]);
    Project::assemble(config, lockfile, vec![npm_info("dep", versions)])
}

#[test]
fn climb_stops_at_first_incompatible() {
    // cur = 1.2.3, spec = ^1.0.0, versions descending
    // [2.0.0, 1.4.0, 1.3.0, 1.2.3, 1.0.0]: the climb reaches 1.4.0 and
    // stops before 2.0.0.
    let p = one_dep_project("^1.0.0", "1.2.3", &["2.0.0", "1.4.0", "1.3.0", "1.2.3", "1.0.0"]);
    let best = p.get_semver_version("dependencies", "dep").unwrap();
    assert_eq!(best.text(), "1.4.0");
    assert!(matches!(p.get_upgrade_type("dependencies", "dep"), UpgradeType::Minor));
    assert_eq!(p.get_latest_version("dep").unwrap().text(), "2.0.0");
}

#[test]
fn climb_to_patch() {
    let p = one_dep_project("^1.0.0", "1.0.0", &["2.0.0", "1.0.1", "1.0.0"]);
    let best = p.get_semver_version("dependencies", "dep").unwrap();
    assert_eq!(best.text(), "1.0.1");
    assert!(matches!(p.get_upgrade_type("dependencies", "dep"), UpgradeType::Patch));
}

#[test]
fn installed_version_missing_from_registry() {
    // cur does not appear in the registry list at all: no upgrade target,
    // no classification.
    let p = one_dep_project("^1.0.0", "9.9.9", &["2.0.0", "1.0.1", "1.0.0"]);
    assert!(p.get_semver_version("dependencies", "dep").is_none());
    assert!(matches!(p.get_upgrade_type("dependencies", "dep"), UpgradeType::UpToDate));
}

#[test]
fn climb_does_not_jump_over_a_rejected_version() {
    // 1.5.0-alpha sits between 1.4.0 and 1.6.0 in precedence order and is
    // rejected by ^1.0.0, so 1.6.0 is unreachable by the hop-by-hop walk.
    let p = one_dep_project("^1.0.0", "1.0.0", &["1.6.0", "1.5.0-alpha", "1.4.0", "1.0.0"]);
    let best = p.get_semver_version("dependencies", "dep").unwrap();
    assert_eq!(best.text(), "1.4.0");
}

#[test]
fn breaking_when_chain_exhausted_but_newer_exists() {
    // Nothing compatible above cur, but a newer major exists.
    let p = one_dep_project("^1.0.0", "1.0.0", &["2.0.0", "1.0.0"]);
    let best = p.get_semver_version("dependencies", "dep").unwrap();
    assert_eq!(best.text(), "1.0.0");
    assert!(matches!(p.get_upgrade_type("dependencies", "dep"), UpgradeType::Breaking));
}

#[test]
fn up_to_date_at_the_top() {
    let p = one_dep_project("^2.0.0", "2.0.0", &["2.0.0", "1.0.0"]);
    assert!(matches!(p.get_upgrade_type("dependencies", "dep"), UpgradeType::UpToDate));
}

#[test]
fn major_upgrade_with_wide_requirement() {
    let p = one_dep_project(">=1.0.0", "1.0.0", &["2.0.0", "1.0.0"]);
    let best = p.get_semver_version("dependencies", "dep").unwrap();
    assert_eq!(best.text(), "2.0.0");
    assert!(matches!(p.get_upgrade_type("dependencies", "dep"), UpgradeType::Major));
}

#[test]
fn absent_from_lockfile_reports_unknown() {
    let config = JavascriptNpm::parse_config(None, None, Some(entries(&[("dep", "^1.0.0")])), None);
    let p = Project::assemble(config, Lockfile::empty(), vec![npm_info("dep", &["1.0.0"])]);
    assert!(p.get_current_version("dep").is_none());
    assert!(p.get_current_version("never-heard-of").is_none());
    assert!(p.get_semver_version("dependencies", "dep").is_none());
    assert!(matches!(p.get_upgrade_type("dependencies", "dep"), UpgradeType::UpToDate));
}

#[test]
fn latest_is_the_maximum() {
    // Handed out of order and with a pre-release: the maximum by precedence
    // wins, not the first or the lexicographically largest text.
    let p = one_dep_project("^1.0.0", "1.0.0", &["0.9.0", "1.0.0", "10.0.0-alpha", "2.0.0"]);
    assert_eq!(p.get_latest_version("dep").unwrap().text(), "10.0.0-alpha");
}

#[test]
fn empty_version_list_reports_unknown() {
    let p = one_dep_project("^1.0.0", "1.0.0", &[]);
    assert!(p.get_latest_version("dep").is_none());
    assert!(!p.is_versions_available("dep"));
    assert!(p.get_dep_versions("dep").is_some());
}

#[test]
fn unparsable_versions_are_dropped_and_texts_deduplicated() {
    let p = one_dep_project(
        "^1.0.0",
        "1.0.0",
        &["1.0.0", "not-a-version", "2.0.0", "1.0.0", "2.0.0+x", "2.0.0+x"],
    );
    let versions = p.get_dep_versions("dep").unwrap();
    assert_eq!(versions.len(), 3);
    assert_eq!(versions[0].major(), 2);
    assert!(p.is_versions_available("dep"));
}

#[test]
fn fetch_plan_deduplicates_across_groups() {
    let config = JavascriptNpm::parse_config(
        None,
        None,
        Some(entries(&[("both", "^1.0.0"), ("only-main", "^1.0.0")])),
        Some(entries(&[("both", "^1.0.0"), ("only-dev", "^1.0.0")])),
    );
    let plan = dep_names(&config);
    assert_eq!(plan, vec!["both".to_string(), "only-main".to_string(), "only-dev".to_string()]);

    // Both groups observe the same merged metadata for the shared name.
    let lockfile = JavascriptNpm::parse_lockfile(vec![("both".to_string(), "1.0.0".to_string())]);
    let p = Project::assemble(config, lockfile, vec![npm_info("both", &["1.2.0", "1.0.0"])]);
    let a = p.get_semver_version("dependencies", "both").unwrap().text().clone();
    let b = p.get_semver_version("dev-dependencies", "both").unwrap().text().clone();
    assert_eq!(a, "1.2.0");
    assert_eq!(a, b);
}

#[test]
fn partial_fetch_failure_leaves_the_rest_intact() {
    let config = JavascriptNpm::parse_config(
        None,
        None,
        Some(entries(&[("good", "^1.0.0"), ("bad", "^1.0.0")])),
        None,
    );
    let lockfile = JavascriptNpm::parse_lockfile(vec![
        ("good".to_string(), "1.0.0".to_string()),
        ("bad".to_string(), "1.0.0".to_string()),
    ]);
    // The fetch for `bad` failed: no entry for it.
    let p = Project::assemble(config, lockfile, vec![npm_info("good", &["1.1.0", "1.0.0"])]);
    assert_eq!(p.get_latest_version("good").unwrap().text(), "1.1.0");
    assert_eq!(p.get_semver_version("dependencies", "good").unwrap().text(), "1.1.0");
    assert!(p.get_latest_version("bad").is_none());
    assert!(p.get_dep_versions("bad").is_none());
    assert!(!p.is_versions_available("bad"));
    assert!(p.get_author("bad").is_none());
    assert!(matches!(p.get_upgrade_type("dependencies", "bad"), UpgradeType::UpToDate));
}

#[test]
fn undeclared_fetch_results_are_not_cached() {
    let config = JavascriptNpm::parse_config(None, None, Some(entries(&[("dep", "^1.0.0")])), None);
    let p = Project::assemble(
        config,
        Lockfile::empty(),
        vec![npm_info("dep", &["1.0.0"]), npm_info("stray", &["9.0.0"])],
    );
    assert!(p.get_dep_versions("dep").is_some());
    assert!(p.get_dep_versions("stray").is_none());
}

#[test]
fn reparse_with_everything_cached_fetches_nothing() {
    let mk_config = || {
        JavascriptNpm::parse_config(
            None,
            None,
            Some(entries(&[("a", "^1.0.0"), ("b", "^2.0.0")])),
            None,
        )
    };
    let mk_lockfile = || {
        JavascriptNpm::parse_lockfile(vec![
            ("a".to_string(), "1.0.0".to_string()),
            ("b".to_string(), "2.0.0".to_string()),
        ])
    };
    let p = Project::assemble(
        mk_config(),
        mk_lockfile(),
        vec![npm_info("a", &["1.1.0", "1.0.0"]), npm_info("b", &["2.0.0"])],
    );
    let before_a = p.get_latest_version("a").unwrap().text().clone();

    // The manifest did not change: nothing is missing from the cache.
    let missing = p.missing_dep_names(&mk_config());
    assert!(missing.is_empty());

    // A reparse with no fresh fetches keeps the metadata identical.
    let p2 = p.reassemble(mk_config(), mk_lockfile(), Vec::new());
    assert_eq!(p2.get_latest_version("a").unwrap().text(), &before_a);
    assert_eq!(p2.get_latest_version("b").unwrap().text(), "2.0.0");
    assert_eq!(p2.get_semver_version("dependencies", "a").unwrap().text(), "1.1.0");
}

#[test]
fn reparse_fetches_only_new_names() {
    let config1 = JavascriptNpm::parse_config(None, None, Some(entries(&[("a", "^1.0.0")])), None);
    let p = Project::assemble(
        config1,
        Lockfile::empty(),
        vec![npm_info("a", &["1.0.0"])],
    );
    let config2 = JavascriptNpm::parse_config(
        None,
        None,
        Some(entries(&[("a", "^1.0.0"), ("b", "^1.0.0")])),
        None,
    );
    let missing = p.missing_dep_names(&config2);
    assert_eq!(missing, vec!["b".to_string()]);

    let config2b = JavascriptNpm::parse_config(
        None,
        None,
        Some(entries(&[("a", "^1.0.0"), ("b", "^1.0.0")])),
        None,
    );
    let p2 = p.reassemble(config2b, Lockfile::empty(), vec![npm_info("b", &["3.0.0"])]);
    assert_eq!(p2.get_latest_version("a").unwrap().text(), "1.0.0");
    assert_eq!(p2.get_latest_version("b").unwrap().text(), "3.0.0");
}

#[test]
fn group_tabs_carry_counts() {
    let config = JavascriptNpm::parse_config(
        None,
        None,
        Some(entries(&[("a", "^1.0.0"), ("b", "^1.0.0")])),
        Some(entries(&[("c", "^1.0.0")])),
    );
    let p = Project::assemble(config, Lockfile::empty(), Vec::new());
    let tabs = p.get_groups();
    assert_eq!(tabs.len(), 2);
    assert_eq!(tabs[0].value, "dependencies");
    assert_eq!(tabs[0].label, "dependencies(2)");
    assert_eq!(tabs[1].value, "dev-dependencies");
    assert_eq!(tabs[1].label, "dev-dependencies(1)");
    assert_eq!(p.get_deps_in_group("dependencies"), vec!["a".to_string(), "b".to_string()]);
    assert_eq!(p.get_deps_in_group("no-such-group"), Vec::<String>::new());
}

#[test]
fn unparsable_requirement_reads_back_as_absent() {
    let config = JavascriptNpm::parse_config(
        None,
        None,
        Some(vec![
            ("weird".to_string(), Some("not;;a--range".to_string())),
            ("plain".to_string(), Some("^1.0.0".to_string())),
        ]),
        None,
    );
    let p = Project::assemble(config, Lockfile::empty(), Vec::new());
    assert!(p.get_specified_version("dependencies", "weird").is_none());
    assert_eq!(p.get_specified_version("dependencies", "plain").unwrap().text(), "^1.0.0");
}

#[test]
fn unresolvable_lock_entries_and_metadata_fields() {
    // A `file:` reference is no semantic version: the entry is left out and
    // the dependency reports an unknown current version.
    let lockfile = JavascriptNpm::parse_lockfile(vec![
        ("linked".to_string(), "file:../local".to_string()),
        ("normal".to_string(), "1.2.3".to_string()),
    ]);
    let config = JavascriptNpm::parse_config(
        None,
        None,
        Some(entries(&[("linked", "^1.0.0"), ("normal", "^1.0.0")])),
        None,
    );
    let author = Author {
        name: "Ada".to_string(),
        url: Some("https://example.org".to_string()),
        email: Some("ada@example.org".to_string()),
    };
    let info = JavascriptNpm::dep_info(
        "normal".to_string(),
        Some(author),
        Some("https://home".to_string()),
        Some("MIT".to_string()),
        Some("does things".to_string()),
        vec!["1.2.3".to_string()],
    );
    let p = Project::assemble(config, lockfile, vec![info]);
    assert!(p.get_current_version("linked").is_none());
    assert!(matches!(p.get_upgrade_type("dependencies", "linked"), UpgradeType::UpToDate));
    assert_eq!(p.get_current_version("normal").unwrap().text(), "1.2.3");
    assert_eq!(p.get_author("normal").unwrap(), "Ada <ada@example.org> [https://example.org]");
    assert_eq!(p.get_homepage("normal").unwrap(), "https://home");
    assert_eq!(p.get_license("normal").unwrap(), "MIT");
    assert_eq!(p.get_description("normal").unwrap(), "does things");
    assert_eq!(p.get_repository("normal").unwrap(), "https://www.npmjs.com/package/normal");
}

#[test]
fn duplicate_declarations_keep_the_first() {
    let config = JavascriptNpm::parse_config(
        None,
        None,
        Some(vec![
            ("dep".to_string(), Some("^1.0.0".to_string())),
            ("dep".to_string(), Some("^2.0.0".to_string())),
        ]),
        None,
    );
    let p = Project::assemble(config, Lockfile::empty(), Vec::new());
    assert_eq!(p.get_deps_in_group("dependencies"), vec!["dep".to_string()]);
    assert_eq!(p.get_specified_version("dependencies", "dep").unwrap().text(), "^1.0.0");
}

#[test]
fn config_own_name_and_version() {
    let config = JavascriptNpm::parse_config(
        Some("myapp".to_string()),
        Some("0.3.1".to_string()),
        None,
        None,
    );
    assert_eq!(config.name.as_deref(), Some("myapp"));
    assert_eq!(config.version.as_ref().unwrap().text(), "0.3.1");
    let bad = JavascriptNpm::parse_config(None, Some("three".to_string()), None, None);
    assert!(bad.version.is_none());
}

#[test]
fn group_label_counts_in_decimal() {
    let deps: Vec<(String, Option<String>)> =
        (0..12).map(|i| (format!("dep{}", i), Some("^1.0.0".to_string()))).collect();
    let config = JavascriptNpm::parse_config(None, None, Some(deps), None);
    let p = Project::assemble(config, Lockfile::empty(), Vec::new());
    let tabs = p.get_groups();
    assert_eq!(tabs[0].label, "dependencies(12)");
}

#[test]
fn empty_config_has_no_groups() {
    let config = JavascriptNpm::parse_config(None, None, None, None);
    assert!(dep_names(&config).is_empty());
    let p = Project::assemble(config, Lockfile::empty(), Vec::new());
    assert!(p.get_groups().is_empty());
}

#[test]
fn duplicate_lock_records_keep_the_last() {
    // A crate present at two versions in the lockfile: the last record wins.
    let lockfile = depman::rustcargo::RustCargo::parse_lockfile(vec![
        ("dep".to_string(), "1.0.0".to_string()),
        ("dep".to_string(), "2.0.0".to_string()),
    ]);
    let config = JavascriptNpm::parse_config(None, None, Some(entries(&[("dep", "^2.0.0")])), None);
    let p = Project::assemble(config, lockfile, Vec::new());
    assert_eq!(p.get_current_version("dep").unwrap().text(), "2.0.0");
}
