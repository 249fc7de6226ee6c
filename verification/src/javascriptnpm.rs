//! The npm backend: normalizes a `package.json` manifest and a
//! `package-lock.json` lockfile handed over as plain values, shapes fetched
//! registry metadata, and rewrites the manifest text for install and delete.
//!
//! Reading and writing the files, and deserializing their JSON, stay with
//! the caller; the manifest rewrites go through `serde_json` behind trusted
//! wrappers here.

use vstd::prelude::*;
use vstd::string::StringExecFns;

use crate::parser::{
    build_deps, opt_author_view, opt_string_view, parsed_versions, raw_entries_view,
    raw_pairs_view, spec_build_deps, spec_lock_entries, Author, Config, DepInfo, Group, GroupView,
    Lockfile,
};
use crate::render::InstallCandidate;
use crate::version::{no_dup_texts, sorted_desc, spec_version_of, Version, VersionView};

verus! {

/// The groups an npm manifest yields: `dependencies` then
/// `dev-dependencies`, each only when its object is present.
pub open spec fn spec_npm_groups(
    dependencies: Option<Seq<(Seq<char>, Option<Seq<char>>)>>,
    dev_dependencies: Option<Seq<(Seq<char>, Option<Seq<char>>)>>,
) -> Seq<GroupView> {
    let first = match dependencies {
        Some(es) => seq![GroupView { name: "dependencies"@, deps: spec_build_deps(es) }],
        None => Seq::<GroupView>::empty(),
    };
    match dev_dependencies {
        Some(es) => first.push(
            GroupView { name: "dev-dependencies"@, deps: spec_build_deps(es) },
        ),
        None => first,
    }
}

/// The view of optional raw entries.
pub open spec fn opt_raw_entries_view(es: Option<Vec<(String, Option<String>)>>) -> Option<
    Seq<(Seq<char>, Option<Seq<char>>)>,
> {
    match es {
        Some(v) => Some(raw_entries_view(v@)),
        None => None,
    }
}

/// The npm backend.
pub struct JavascriptNpm;

impl JavascriptNpm {
    /// Normalizes a deserialized `package.json`: the package's name, its
    /// own version when it parses, and up to two groups, `dependencies`
    /// then `dev-dependencies`, each dependency's declared range parsed.
    pub fn parse_config(
        name: Option<String>,
        version_text: Option<String>,
        dependencies: Option<Vec<(String, Option<String>)>>,
        dev_dependencies: Option<Vec<(String, Option<String>)>>,
    ) -> (r: Config)
        ensures
            r@.name == opt_string_view(name),
            r@.version == match version_text {
                Some(t) => spec_version_of(t@),
                None => None::<VersionView>,
            },
            r@.groups == spec_npm_groups(
                opt_raw_entries_view(dependencies),
                opt_raw_entries_view(dev_dependencies),
            ),
    {
        let version = match &version_text {
            Some(t) => Version::parse(t.as_str()),
            None => None,
        };
        let mut groups: Vec<Group> = Vec::new();
        match &dependencies {
            Some(entries) => {
                let deps = build_deps(entries);
                groups.push(Group { name: "dependencies".to_owned(), deps });
            },
            None => {},
        }
        match &dev_dependencies {
            Some(entries) => {
                let deps = build_deps(entries);
                groups.push(Group { name: "dev-dependencies".to_owned(), deps });
            },
            None => {},
        }
        let r = Config { name, version, groups };
        proof {
            assert(r@.groups =~= spec_npm_groups(
                opt_raw_entries_view(dependencies),
                opt_raw_entries_view(dev_dependencies),
            ));
        }
        r
    }

    /// Normalizes a deserialized `package-lock.json`: each dependency's
    /// resolved version. An entry whose version text does not parse (for
    /// example a `file:` or git reference) is left out, and its dependency
    /// then reports an unknown current version; when one name occurs in
    /// several records the last one wins.
    pub fn parse_lockfile(entries: Vec<(String, String)>) -> (r: Lockfile)
        ensures
            r@ == spec_lock_entries(raw_pairs_view(entries@)),
    {
        Lockfile::from_resolved(entries)
    }

    /// Shapes one dependency's fetched registry metadata: the descriptive
    /// fields as the registry reported them, the package's page on the npm
    /// site as its repository link, and the version list normalized.
    pub fn dep_info(
        name: String,
        author: Option<Author>,
        homepage: Option<String>,
        license: Option<String>,
        description: Option<String>,
        version_texts: Vec<String>,
    ) -> (r: DepInfo)
        ensures
            r@.name == name@,
            r@.author == opt_author_view(author),
            r@.homepage == opt_string_view(homepage),
            r@.repository == Some("https://www.npmjs.com/package/"@ + name@),
            r@.license == opt_string_view(license),
            r@.description == opt_string_view(description),
            sorted_desc(r@.versions),
            no_dup_texts(r@.versions),
            forall|x: VersionView|
                r@.versions.contains(x) <==> parsed_versions(
                    version_texts@.map_values(|s: String| s@),
                ).contains(x),
    {
        let mut repository = "https://www.npmjs.com/package/".to_owned();
        repository.append(name.as_str());
        DepInfo::new(name, author, homepage, Some(repository), license, description, version_texts)
    }
}

/// What rewriting a `package.json` text for an install yields: the entry
/// for `name` under the object `group` set to the caret-prefixed version,
/// every other entry kept with its value; or nothing when the text is not a
/// JSON object or the group exists and is not one. The whole document is
/// re-rendered pretty-printed with sorted keys, so unrelated entries keep
/// their values but not necessarily their bytes; only the cargo backend's
/// editor preserves formatting.
pub uninterp spec fn npm_install_text(
    manifest: Seq<char>,
    group: Seq<char>,
    name: Seq<char>,
    version: Seq<char>,
) -> Option<Seq<char>>;

/// Relies on `serde_json`: `from_str`, the object entry update, and
/// `to_string_pretty` each depend only on their arguments, so the rewritten
/// text is a function of the four inputs. `to_string_pretty` re-renders
/// the whole document, so unrelated entries keep their values but not their
/// bytes, unlike the cargo backend's format-preserving editor.
#[verifier::external_body]
fn npm_install_edit(manifest: &str, group: &str, name: &str, version: &str) -> (r: Option<String>)
    ensures
        opt_string_view(r) == npm_install_text(manifest@, group@, name@, version@),
{
    let mut doc: serde_json::Value = serde_json::from_str(manifest).ok()?;
    let root = doc.as_object_mut()?;
    let entry = root.entry(group).or_insert(serde_json::Value::Object(serde_json::Map::new()));
    let gobj = entry.as_object_mut()?;
    gobj.insert(name.to_string(), serde_json::Value::String(format!("^{}", version)));
    serde_json::to_string_pretty(&doc).ok()
}

/// What rewriting a `package.json` text for a delete yields: the entry for
/// `name` removed from the object `group` when both exist, every other
/// entry kept with its value; or nothing when the text does not parse. As
/// with the install rewrite, the document is re-rendered pretty-printed, so
/// unrelated entries keep their values but not necessarily their bytes.
pub uninterp spec fn npm_delete_text(
    manifest: Seq<char>,
    group: Seq<char>,
    name: Seq<char>,
) -> Option<Seq<char>>;

/// Relies on `serde_json`: `from_str`, the object entry removal, and
/// `to_string_pretty` each depend only on their arguments, so the rewritten
/// text is a function of the three inputs. As with the install rewrite, the
/// document is re-rendered, so unrelated entries keep their values, not
/// their bytes.
#[verifier::external_body]
fn npm_delete_edit(manifest: &str, group: &str, name: &str) -> (r: Option<String>)
    ensures
        opt_string_view(r) == npm_delete_text(manifest@, group@, name@),
{
    let mut doc: serde_json::Value = serde_json::from_str(manifest).ok()?;
    if let Some(serde_json::Value::Object(gobj)) = doc.get_mut(group) {
        gobj.remove(name);
    }
    serde_json::to_string_pretty(&doc).ok()
}

impl JavascriptNpm {
    /// The manifest text after installing the candidate: its entry set to
    /// `^version` under its group. `None` reports a failed edit and means
    /// the file must stay untouched.
    pub fn install_dep(dep: &InstallCandidate, manifest: &str) -> (r: Option<String>)
        ensures
            opt_string_view(r) == npm_install_text(manifest@, dep.kind@, dep.name@, dep.version@),
    {
        npm_install_edit(manifest, dep.kind.as_str(), dep.name.as_str(), dep.version.as_str())
    }

    /// The manifest text after removing a dependency from a group. `None`
    /// reports a failed edit and means the file must stay untouched.
    pub fn delete_dep(manifest: &str, group: &str, name: &str) -> (r: Option<String>)
        ensures
            opt_string_view(r) == npm_delete_text(manifest@, group@, name@),
    {
        npm_delete_edit(manifest, group, name)
    }
}

} // verus!
