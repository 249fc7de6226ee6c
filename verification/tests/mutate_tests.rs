use depman::determinekind::ParserKind;
use depman::javascriptnpm::JavascriptNpm;
use depman::parser::{delete_dep, install_dep, Lockfile, Project};
use depman::render::InstallCandidate;
use depman::rustcargo::{RawSection, RustCargo};

fn candidate(name: &str, version: &str, kind: &str) -> InstallCandidate {
    InstallCandidate { name: name.to_string(), version: version.to_string(), kind: kind.to_string() }
}

const NPM_MANIFEST: &str = r#"{
  "name": "demo",
  "version": "0.1.0",
  "dependencies": {
    "dep": "^1.0.0",
    "other": "^3.0.0"
  }
}"#;

#[test]
fn npm_install_roundtrip() {
    let rewritten =
        JavascriptNpm::install_dep(&candidate("dep", "2.0.0", "dependencies"), NPM_MANIFEST)
            .unwrap();

    // Reparse the rewritten manifest the way a fresh parse would.
    let doc: serde_json::Value = serde_json::from_str(&rewritten).unwrap();
    assert_eq!(doc["dependencies"]["dep"], serde_json::Value::String("^2.0.0".to_string()));
    // Unrelated entries survive with their values.
    assert_eq!(doc["dependencies"]["other"], serde_json::Value::String("^3.0.0".to_string()));
    assert_eq!(doc["name"], serde_json::Value::String("demo".to_string()));

    let deps: Vec<(String, Option<String>)> = doc["dependencies"]
        .as_object()
        .unwrap()
        .iter()
        .map(|(k, v)| (k.clone(), v.as_str().map(|s| s.to_string())))
        .collect();
    let config = JavascriptNpm::parse_config(None, None, Some(deps), None);
    let p = Project::assemble(config, Lockfile::empty(), Vec::new());
    assert_eq!(p.get_specified_version("dependencies", "dep").unwrap().text(), "^2.0.0");
}

#[test]
fn npm_install_creates_missing_group() {
    let rewritten = JavascriptNpm::install_dep(
        &candidate("newdep", "1.0.0", "devDependencies"),
        r#"{"name": "demo"}"#,
    )
    .unwrap();
    let doc: serde_json::Value = serde_json::from_str(&rewritten).unwrap();
    assert_eq!(doc["devDependencies"]["newdep"], serde_json::Value::String("^1.0.0".to_string()));
}

#[test]
fn npm_install_fails_on_broken_manifest() {
    assert!(JavascriptNpm::install_dep(&candidate("dep", "1.0.0", "dependencies"), "{oops").is_none());
    assert!(JavascriptNpm::install_dep(&candidate("dep", "1.0.0", "dependencies"), "[1, 2]").is_none());
}

#[test]
fn npm_delete_removes_only_the_entry() {
    let rewritten = JavascriptNpm::delete_dep(NPM_MANIFEST, "dependencies", "dep").unwrap();
    let doc: serde_json::Value = serde_json::from_str(&rewritten).unwrap();
    assert!(doc["dependencies"].get("dep").is_none());
    assert_eq!(doc["dependencies"]["other"], serde_json::Value::String("^3.0.0".to_string()));
    assert_eq!(doc["version"], serde_json::Value::String("0.1.0".to_string()));
}

const CARGO_MANIFEST: &str = "# keep this comment\n[package]\nname = \"demo\"\nversion = \"0.1.0\"\n\n[dependencies]\ndep = \"1.0.0\"  # pinned\nother = { version = \"3.0.0\", features = [\"extra\"] }\n";

#[test]
fn cargo_install_roundtrip_preserves_formatting() {
    let rewritten =
        RustCargo::install_dep(&candidate("dep", "2.0.0", "dependencies"), CARGO_MANIFEST).unwrap();
    assert!(rewritten.contains("# keep this comment"));
    assert!(rewritten.contains("dep = \"2.0.0\""));
    assert!(rewritten.contains("other = { version = \"3.0.0\", features = [\"extra\"] }"));

    // Reparse the rewritten manifest the way a fresh parse would.
    let doc: toml::Value = toml::from_str(&rewritten).unwrap();
    let deps = doc["dependencies"].as_table().unwrap();
    let entries: Vec<(String, Option<String>)> = deps
        .iter()
        .map(|(k, v)| {
            let text = match v {
                toml::Value::String(s) => Some(s.clone()),
                toml::Value::Table(t) => t.get("version").and_then(|x| x.as_str()).map(|s| s.to_string()),
                _ => None,
            };
            (k.clone(), text)
        })
        .collect();
    let config = RustCargo::parse_config(
        None,
        None,
        vec![RawSection { name: "dependencies".to_string(), entries }],
        Vec::new(),
    );
    let p = Project::assemble(config, Lockfile::empty(), Vec::new());
    assert_eq!(p.get_specified_version("dependencies", "dep").unwrap().text(), "2.0.0");
}

#[test]
fn cargo_install_updates_table_version_in_place() {
    let rewritten =
        RustCargo::install_dep(&candidate("other", "4.0.0", "dependencies"), CARGO_MANIFEST)
            .unwrap();
    // The entry stays a table with its features; only the version changes.
    assert!(rewritten.contains("version = \"4.0.0\""));
    assert!(rewritten.contains("features = [\"extra\"]"));
}

#[test]
fn cargo_delete_removes_only_the_entry() {
    let rewritten = RustCargo::delete_dep(CARGO_MANIFEST, "dependencies", "dep").unwrap();
    assert!(!rewritten.contains("dep = \"1.0.0\""));
    assert!(rewritten.contains("other = { version = \"3.0.0\", features = [\"extra\"] }"));
    assert!(rewritten.contains("# keep this comment"));
}

#[test]
fn cargo_install_fails_on_broken_manifest() {
    assert!(RustCargo::install_dep(&candidate("dep", "1.0.0", "dependencies"), "[oops").is_none());
}

#[test]
fn dispatch_picks_the_backend() {
    let npm = install_dep(
        &ParserKind::JavascriptNpm,
        r#"{"dependencies": {}}"#,
        &candidate("dep", "1.0.0", "dependencies"),
    )
    .unwrap();
    assert!(npm.contains("\"^1.0.0\""));

    let cargo = install_dep(
        &ParserKind::RustCargo,
        "[dependencies]\n",
        &candidate("dep", "1.0.0", "dependencies"),
    )
    .unwrap();
    assert!(cargo.contains("dep = \"1.0.0\""));

    let gone = delete_dep(&ParserKind::RustCargo, "[dependencies]\ndep = \"1.0.0\"\n", "dependencies", "dep")
        .unwrap();
    assert!(!gone.contains("dep = \"1.0.0\""));
    assert!(gone.contains("[dependencies]"));
}

#[test]
fn cargo_lockfile_and_sections() {
    let lockfile = RustCargo::parse_lockfile(vec![
        ("dep".to_string(), "1.2.3".to_string()),
        ("broken".to_string(), "not-sem-ver".to_string()),
    ]);
    let sections = vec![
        RawSection { name: "package".to_string(), entries: Vec::new() },
        RawSection {
            name: "dependencies".to_string(),
            entries: vec![("dep".to_string(), Some("1.0".to_string()))],
        },
    ];
    let targets = vec![RawSection {
        name: "cfg(unix)".to_string(),
        entries: vec![("unixdep".to_string(), Some("0.5.0".to_string()))],
    }];
    let config = RustCargo::parse_config(
        Some("demo".to_string()),
        Some("0.1.0".to_string()),
        sections,
        targets,
    );
    let p = Project::assemble(config, lockfile, Vec::new());
    let tabs = p.get_groups();
    assert_eq!(tabs.len(), 2);
    assert_eq!(tabs[0].value, "dependencies");
    assert_eq!(tabs[1].value, "target.cfg(unix).dependencies");
    assert_eq!(p.get_current_version("dep").unwrap().text(), "1.2.3");
    assert!(p.get_current_version("broken").is_none());
    assert_eq!(p.get_deps_in_group("target.cfg(unix).dependencies"), vec!["unixdep".to_string()]);
}

#[test]
fn cargo_registry_page_is_the_repository() {
    let info = RustCargo::dep_info(
        "demo".to_string(),
        None,
        Some("Apache-2.0".to_string()),
        None,
        vec!["1.0.0".to_string()],
    );
    let config = RustCargo::parse_config(
        None,
        None,
        vec![RawSection {
            name: "dependencies".to_string(),
            entries: vec![("demo".to_string(), Some("1.0.0".to_string()))],
        }],
        Vec::new(),
    );
    let p = Project::assemble(config, Lockfile::empty(), vec![info]);
    assert_eq!(p.get_repository("demo").unwrap(), "https://crates.io/crates/demo");
    assert_eq!(p.get_license("demo").unwrap(), "Apache-2.0");
    assert!(p.get_author("demo").is_none());
}
