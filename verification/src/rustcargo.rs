//! The cargo backend: normalizes a `Cargo.toml` manifest and a `Cargo.lock`
//! lockfile handed over as plain values, shapes fetched registry metadata,
//! and rewrites the manifest text for install and delete.
//!
//! Reading and writing the files, and deserializing their TOML, stay with
//! the caller; the format-preserving manifest rewrites go through
//! `toml_edit` behind trusted wrappers here.

use vstd::prelude::*;
use vstd::string::StringExecFns;

use crate::parser::{
    build_deps, opt_string_view, parsed_versions, raw_entries_view, raw_pairs_view,
    spec_build_deps, spec_lock_entries, Config, DepInfo, Group, GroupView, Lockfile,
};
use crate::render::InstallCandidate;
use crate::version::{no_dup_texts, sorted_desc, spec_version_of, Version, VersionView};

verus! {

/// One table of the manifest as handed over: the group name it stands for
/// and its (dependency, declared range) entries. For a platform-specific
/// table the caller composes the full group name, e.g.
/// `target.cfg(unix).dependencies`.
pub struct RawSection {
    pub name: String,
    pub entries: Vec<(String, Option<String>)>,
}

impl View for RawSection {
    type V = (Seq<char>, Seq<(Seq<char>, Option<Seq<char>>)>);

    open spec fn view(&self) -> (Seq<char>, Seq<(Seq<char>, Option<Seq<char>>)>) {
        (self.name@, raw_entries_view(self.entries@))
    }
}

/// The views of raw sections.
pub open spec fn sections_view(ss: Seq<RawSection>) -> Seq<
    (Seq<char>, Seq<(Seq<char>, Option<Seq<char>>)>),
> {
    ss.map_values(|s: RawSection| s@)
}

/// Is this top-level table one of the dependency groups the backend reads?
pub open spec fn is_dep_section(n: Seq<char>) -> bool {
    n == "dependencies"@ || n == "dev-dependencies"@ || n == "build-dependencies"@
}

/// The groups the manifest's top-level tables yield: the dependency tables
/// among them, in the order handed over, each built into a group.
pub open spec fn spec_cargo_groups(
    ss: Seq<(Seq<char>, Seq<(Seq<char>, Option<Seq<char>>)>)>,
) -> Seq<GroupView>
    decreases ss.len(),
{
    if ss.len() == 0 {
        Seq::empty()
    } else {
        let rest = spec_cargo_groups(ss.drop_last());
        if is_dep_section(ss.last().0) {
            rest.push(GroupView { name: ss.last().0, deps: spec_build_deps(ss.last().1) })
        } else {
            rest
        }
    }
}

/// The group name a platform-specific table gets: the target expression
/// framed as `target.<expr>.dependencies`.
pub open spec fn target_group_name(target: Seq<char>) -> Seq<char> {
    "target."@ + target + ".dependencies"@
}

/// The groups of platform-specific tables: every one counts, under its
/// composed name.
pub open spec fn spec_target_groups(
    ss: Seq<(Seq<char>, Seq<(Seq<char>, Option<Seq<char>>)>)>,
) -> Seq<GroupView> {
    ss.map_values(
        |s: (Seq<char>, Seq<(Seq<char>, Option<Seq<char>>)>)|
            GroupView { name: target_group_name(s.0), deps: spec_build_deps(s.1) },
    )
}

/// The cargo backend.
pub struct RustCargo;

impl RustCargo {
    /// Normalizes a deserialized `Cargo.toml`: the package's name, its own
    /// version when it parses, the dependency tables among the top-level
    /// tables (in the order handed over), and the platform-specific tables
    /// after them, each named `target.<expr>.dependencies` for its target
    /// expression.
    pub fn parse_config(
        name: Option<String>,
        version_text: Option<String>,
        sections: Vec<RawSection>,
        target_sections: Vec<RawSection>,
    ) -> (r: Config)
        ensures
            r@.name == opt_string_view(name),
            r@.version == match version_text {
                Some(t) => spec_version_of(t@),
                None => None::<VersionView>,
            },
            r@.groups == spec_cargo_groups(sections_view(sections@)) + spec_target_groups(
                sections_view(target_sections@),
            ),
    {
        proof {
            reveal_strlit("dependencies");
            reveal_strlit("dev-dependencies");
            reveal_strlit("build-dependencies");
        }
        let version = match &version_text {
            Some(t) => Version::parse(t.as_str()),
            None => None,
        };
        let ghost sv = sections_view(sections@);
        let mut groups: Vec<Group> = Vec::new();
        let n = sections.len();
        let mut i: usize = 0;
        proof {
            assert(groups@.map_values(|g: Group| g@) =~= spec_cargo_groups(sv.take(0)));
        }
        while i < n
            invariant
                0 <= i <= n,
                n == sections@.len(),
                sv == sections_view(sections@),
                groups@.map_values(|g: Group| g@) == spec_cargo_groups(sv.take(i as int)),
            decreases n - i,
        {
            proof {
                assert(sv.take(i + 1).drop_last() =~= sv.take(i as int));
                assert(sv.take(i + 1).last() == sv[i as int]);
                assert(sv[i as int] == sections@[i as int]@);
            }
            let sname = &sections[i].name;
            let is_deps = sname.eq(&"dependencies".to_owned()) || sname.eq(
                &"dev-dependencies".to_owned(),
            ) || sname.eq(&"build-dependencies".to_owned());
            proof {
                assert(is_deps == is_dep_section(sv[i as int].0));
            }
            let ghost before = groups@.map_values(|g: Group| g@);
            if is_deps {
                let deps = build_deps(&sections[i].entries);
                groups.push(Group { name: sections[i].name.clone(), deps });
                proof {
                    assert(groups@.map_values(|g: Group| g@) =~= before.push(
                        GroupView { name: sv[i as int].0, deps: spec_build_deps(sv[i as int].1) },
                    ));
                }
            }
            i = i + 1;
        }
        proof {
            assert(sv.take(n as int) =~= sv);
        }

        // Platform-specific tables, after the main groups.
        let ghost tv = sections_view(target_sections@);
        let ghost main = groups@.map_values(|g: Group| g@);
        let m = target_sections.len();
        let mut t: usize = 0;
        proof {
            assert(main + spec_target_groups(tv).take(0) =~= main);
        }
        while t < m
            invariant
                0 <= t <= m,
                m == target_sections@.len(),
                tv == sections_view(target_sections@),
                groups@.map_values(|g: Group| g@) == main + spec_target_groups(tv).take(t as int),
            decreases m - t,
        {
            let ghost before = groups@.map_values(|g: Group| g@);
            let deps = build_deps(&target_sections[t].entries);
            let mut composed = "target.".to_owned();
            composed.append(target_sections[t].name.as_str());
            composed.append(".dependencies");
            groups.push(Group { name: composed, deps });
            proof {
                assert(tv[t as int] == target_sections@[t as int]@);
                assert(spec_target_groups(tv)[t as int] == GroupView {
                    name: target_group_name(tv[t as int].0),
                    deps: spec_build_deps(tv[t as int].1),
                });
                assert(spec_target_groups(tv).take(t + 1) =~= spec_target_groups(tv).take(
                    t as int,
                ).push(spec_target_groups(tv)[t as int]));
                assert(groups@.map_values(|g: Group| g@) =~= before.push(
                    spec_target_groups(tv)[t as int],
                ));
            }
            t = t + 1;
        }
        proof {
            assert(spec_target_groups(tv).take(m as int) =~= spec_target_groups(tv));
        }
        Config { name, version, groups }
    }

    /// Normalizes a deserialized `Cargo.lock`: each package's resolved
    /// version. A record whose version text does not parse is left out, and
    /// its dependency then reports an unknown current version; when one name
    /// occurs in several records (a crate present at two versions), the last
    /// record wins.
    pub fn parse_lockfile(entries: Vec<(String, String)>) -> (r: Lockfile)
        ensures
            r@ == spec_lock_entries(raw_pairs_view(entries@)),
    {
        Lockfile::from_resolved(entries)
    }

    /// Shapes one dependency's fetched registry metadata: the descriptive
    /// fields the registry reported (it names no author), the package's
    /// page on the crates site as its repository link, and the version list
    /// normalized.
    pub fn dep_info(
        name: String,
        homepage: Option<String>,
        license: Option<String>,
        description: Option<String>,
        version_texts: Vec<String>,
    ) -> (r: DepInfo)
        ensures
            r@.name == name@,
            r@.author is None,
            r@.homepage == opt_string_view(homepage),
            r@.repository == Some("https://crates.io/crates/"@ + name@),
            r@.license == opt_string_view(license),
            r@.description == opt_string_view(description),
            sorted_desc(r@.versions),
            no_dup_texts(r@.versions),
            forall|x: VersionView|
                r@.versions.contains(x) <==> parsed_versions(
                    version_texts@.map_values(|s: String| s@),
                ).contains(x),
    {
        let mut repository = "https://crates.io/crates/".to_owned();
        repository.append(name.as_str());
        DepInfo::new(name, None, homepage, Some(repository), license, description, version_texts)
    }
}

/// What rewriting a `Cargo.toml` text for an install yields: under the
/// table `group`, the entry for `name` set to the bare version when it was
/// a plain string (or absent), or its `version` key set when it was a table
/// carrying one; formatting, comments and every other entry kept; or
/// nothing when the text does not parse or the group exists and is no
/// table.
pub uninterp spec fn cargo_install_text(
    manifest: Seq<char>,
    group: Seq<char>,
    name: Seq<char>,
    version: Seq<char>,
) -> Option<Seq<char>>;

/// Relies on `toml_edit`: parsing to a `DocumentMut`, the table edit, and
/// rendering back to text each depend only on their arguments, so the
/// rewritten text is a function of the four inputs.
#[verifier::external_body]
fn cargo_install_edit(manifest: &str, group: &str, name: &str, version: &str) -> (r: Option<
    String,
>)
    ensures
        opt_string_view(r) == cargo_install_text(manifest@, group@, name@, version@),
{
    let mut doc: toml_edit::DocumentMut = manifest.parse().ok()?;
    let item = doc.as_table_mut().entry(group).or_insert(
        toml_edit::Item::Table(toml_edit::Table::new()),
    );
    let tbl = item.as_table_like_mut()?;
    let has_version = tbl.get(name).and_then(|e| e.as_table_like()).map_or(
        false,
        |sub| sub.contains_key("version"),
    );
    if has_version {
        tbl.get_mut(name)?.as_table_like_mut()?.insert("version", toml_edit::value(version));
    } else {
        tbl.insert(name, toml_edit::value(version));
    }
    Some(doc.to_string())
}

/// What rewriting a `Cargo.toml` text for a delete yields: the entry for
/// `name` removed from the table `group` when both exist, formatting and
/// every other entry kept; or nothing when the text does not parse.
pub uninterp spec fn cargo_delete_text(
    manifest: Seq<char>,
    group: Seq<char>,
    name: Seq<char>,
) -> Option<Seq<char>>;

/// Relies on `toml_edit`: parsing to a `DocumentMut`, the entry removal,
/// and rendering back to text each depend only on their arguments, so the
/// rewritten text is a function of the three inputs.
#[verifier::external_body]
fn cargo_delete_edit(manifest: &str, group: &str, name: &str) -> (r: Option<String>)
    ensures
        opt_string_view(r) == cargo_delete_text(manifest@, group@, name@),
{
    let mut doc: toml_edit::DocumentMut = manifest.parse().ok()?;
    if let Some(item) = doc.as_table_mut().get_mut(group) {
        if let Some(tbl) = item.as_table_like_mut() {
            tbl.remove(name);
        }
    }
    Some(doc.to_string())
}

impl RustCargo {
    /// The manifest text after installing the candidate, formatting
    /// preserved. `None` reports a failed edit and means the file must stay
    /// untouched.
    pub fn install_dep(dep: &InstallCandidate, manifest: &str) -> (r: Option<String>)
        ensures
            opt_string_view(r) == cargo_install_text(
                manifest@,
                dep.kind@,
                dep.name@,
                dep.version@,
            ),
    {
        cargo_install_edit(manifest, dep.kind.as_str(), dep.name.as_str(), dep.version.as_str())
    }

    /// The manifest text after removing a dependency from a group,
    /// formatting preserved. `None` reports a failed edit and means the
    /// file must stay untouched.
    pub fn delete_dep(manifest: &str, group: &str, name: &str) -> (r: Option<String>)
        ensures
            opt_string_view(r) == cargo_delete_text(manifest@, group@, name@),
    {
        cargo_delete_edit(manifest, group, name)
    }
}

} // verus!
