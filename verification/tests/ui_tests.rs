use depman::determinekind::{is_this_it, ParserKind, RootFiles};
use depman::events::{TabItem, TabsState};
use depman::parser::Project;
use depman::render::{surviving_selection, unwrap_popup, PopupKind};

fn tab(v: &str) -> TabItem {
    TabItem { value: v.to_string(), label: v.to_string() }
}

#[test]
fn tabs_wrap_around() {
    let mut tabs = TabsState::new(vec![tab("a"), tab("b"), tab("c")]);
    assert_eq!(tabs.index, 0);
    tabs.next();
    assert_eq!(tabs.index, 1);
    tabs.next();
    tabs.next();
    assert_eq!(tabs.index, 0);
    tabs.previous();
    assert_eq!(tabs.index, 2);
    tabs.previous();
    assert_eq!(tabs.index, 1);
}

#[test]
fn kind_detection_prefers_lockfile_then_cargo() {
    let npm = RootFiles { package_json: true, package_lock_json: true, cargo_toml: true };
    assert!(matches!(ParserKind::determine_kind(&npm), Some(ParserKind::JavascriptNpm)));

    let cargo = RootFiles { package_json: false, package_lock_json: false, cargo_toml: true };
    assert!(matches!(ParserKind::determine_kind(&cargo), Some(ParserKind::RustCargo)));

    let neither = RootFiles { package_json: false, package_lock_json: false, cargo_toml: false };
    assert!(ParserKind::determine_kind(&neither).is_none());

    assert!(is_this_it(&npm, &ParserKind::JavascriptNpm));
    assert!(is_this_it(&cargo, &ParserKind::RustCargo));
    assert!(!is_this_it(&neither, &ParserKind::JavascriptNpm));
}

#[test]
fn project_detection_prefers_the_npm_manifest() {
    let both = RootFiles { package_json: true, package_lock_json: false, cargo_toml: true };
    assert!(matches!(Project::determine_kind(&both), Some(ParserKind::JavascriptNpm)));
    let cargo = RootFiles { package_json: false, package_lock_json: false, cargo_toml: true };
    assert!(matches!(Project::determine_kind(&cargo), Some(ParserKind::RustCargo)));
}

#[test]
fn popups_unwind_one_step() {
    assert_eq!(unwrap_popup(&PopupKind::SearchList, true), PopupKind::SearchInput);
    assert_eq!(unwrap_popup(&PopupKind::SearchInput, true), PopupKind::Closed);
    assert_eq!(unwrap_popup(&PopupKind::Help, true), PopupKind::Closed);
    assert_eq!(unwrap_popup(&PopupKind::Versions, true), PopupKind::Closed);
    assert_eq!(unwrap_popup(&PopupKind::Message, false), PopupKind::SearchInput);
    assert_eq!(unwrap_popup(&PopupKind::Message, true), PopupKind::Closed);
    assert_eq!(unwrap_popup(&PopupKind::Closed, true), PopupKind::Closed);
}

#[test]
fn selection_survives_a_reload() {
    assert_eq!(surviving_selection(None, 5), None);
    assert_eq!(surviving_selection(Some(0), 0), None);
    assert_eq!(surviving_selection(Some(0), 3), Some(0));
    // An entry still follows: the index stays.
    assert_eq!(surviving_selection(Some(1), 4), Some(1));
    // The selected entry was the last one: move one up.
    assert_eq!(surviving_selection(Some(2), 3), Some(1));
}
