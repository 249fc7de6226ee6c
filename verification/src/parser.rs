//! The project model and its query API: the manifest normalized into a
//! `Config`, the lockfile into a `Lockfile`, fetched registry metadata into
//! `DepInfo` entries, and the `Project` aggregate that answers, per
//! dependency, its declared requirement, installed version, best reachable
//! compatible version, newest version, and upgrade classification.

use vstd::prelude::*;
use vstd::string::StringExecFns;

use crate::determinekind::ParserKind;
use crate::events::TabItem;
use crate::version::{
    lemma_skip_succ, lemma_version_le_connected, lemma_version_le_trans, no_dup_texts, req_matches,
    sorted_desc, spec_version_of, version_le, version_lt, views_of, Requirement, Version,
    VersionView,
};

verus! {

/// How far the installed version of a dependency trails what it could be
/// upgraded to.
#[derive(Clone, Copy, Debug, PartialEq, Eq, Structural)]
pub enum UpgradeType {
    UpToDate,
    Patch,
    Minor,
    Major,
    Breaking,
}

/// One row of a registry search result.
#[derive(Clone, Debug)]
pub struct SearchDep {
    pub name: String,
    pub version: String,
}

/// Mathematical model of a package author.
#[verifier::ext_equal]
pub ghost struct AuthorView {
    pub name: Seq<char>,
    pub url: Option<Seq<char>>,
    pub email: Option<Seq<char>>,
}

/// A package author as registry metadata reports it.
#[derive(Clone)]
pub struct Author {
    pub name: String,
    pub url: Option<String>,
    pub email: Option<String>,
}

/// The view of an optional owned string.
pub open spec fn opt_string_view(o: Option<String>) -> Option<Seq<char>> {
    match o {
        Some(s) => Some(s@),
        None => None,
    }
}

/// The view behind an optional reference.
pub open spec fn opt_view<T: View>(o: Option<&T>) -> Option<T::V> {
    match o {
        Some(x) => Some(x@),
        None => None,
    }
}

impl View for Author {
    type V = AuthorView;

    open spec fn view(&self) -> AuthorView {
        AuthorView {
            name: self.name@,
            url: opt_string_view(self.url),
            email: opt_string_view(self.email),
        }
    }
}

/// Mathematical model of one declared dependency: its name and, when the
/// declared range parsed, the range's text.
#[verifier::ext_equal]
pub ghost struct DepView {
    pub name: Seq<char>,
    pub req: Option<Seq<char>>,
}

/// One declared dependency of a group.
pub struct Dep {
    pub name: String,
    pub req: Option<Requirement>,
}

impl View for Dep {
    type V = DepView;

    open spec fn view(&self) -> DepView {
        DepView {
            name: self.name@,
            req: match self.req {
                Some(ref q) => Some(q@),
                None => None,
            },
        }
    }
}

/// Mathematical model of a dependency group.
#[verifier::ext_equal]
pub ghost struct GroupView {
    pub name: Seq<char>,
    pub deps: Seq<DepView>,
}

/// A named bucket of declared dependencies, e.g. `dependencies` or
/// `dev-dependencies`, in declaration order.
pub struct Group {
    pub name: String,
    pub deps: Vec<Dep>,
}

impl View for Group {
    type V = GroupView;

    open spec fn view(&self) -> GroupView {
        GroupView { name: self.name@, deps: self.deps@.map_values(|d: Dep| d@) }
    }
}

/// Mathematical model of a parsed manifest.
#[verifier::ext_equal]
pub ghost struct ConfigView {
    pub name: Option<Seq<char>>,
    pub version: Option<VersionView>,
    pub groups: Seq<GroupView>,
}

/// The manifest normalized for queries: the package's own name and version,
/// and its dependency groups in declaration order.
pub struct Config {
    pub name: Option<String>,
    pub version: Option<Version>,
    pub groups: Vec<Group>,
}

impl View for Config {
    type V = ConfigView;

    open spec fn view(&self) -> ConfigView {
        ConfigView {
            name: opt_string_view(self.name),
            version: match self.version {
                Some(ref v) => Some(v@),
                None => None,
            },
            groups: self.groups@.map_values(|g: Group| g@),
        }
    }
}

/// The lockfile normalized for queries: which exact version each dependency
/// resolved to the last time the package manager ran.
pub struct Lockfile {
    entries: Vec<(String, Version)>,
}

impl View for Lockfile {
    type V = Seq<(Seq<char>, VersionView)>;

    closed spec fn view(&self) -> Seq<(Seq<char>, VersionView)> {
        self.entries@.map_values(|e: (String, Version)| (e.0@, e.1@))
    }
}

impl Lockfile {
    /// An empty lockfile: every dependency then reports an unknown current
    /// version. Used when the lockfile is missing or unreadable.
    pub fn empty() -> (r: Lockfile)
        ensures
            r@ == Seq::<(Seq<char>, VersionView)>::empty(),
    {
        let r = Lockfile { entries: Vec::new() };
        proof {
            assert(r@ =~= Seq::<(Seq<char>, VersionView)>::empty());
        }
        r
    }

    /// A lockfile from resolved (name, version) pairs.
    pub fn new(entries: Vec<(String, Version)>) -> (r: Lockfile)
        ensures
            r@ == entries@.map_values(|e: (String, Version)| (e.0@, e.1@)),
    {
        Lockfile { entries }
    }

    /// A lockfile from raw (name, version text) records: records whose
    /// version text does not parse are left out, and the last record of a
    /// name shadows earlier ones.
    pub fn from_resolved(entries: Vec<(String, String)>) -> (r: Lockfile)
        ensures
            r@ == spec_lock_entries(raw_pairs_view(entries@)),
    {
        let ghost ev = raw_pairs_view(entries@);
        let n = entries.len();
        let mut out: Vec<(String, Version)> = Vec::new();
        let mut i: usize = n;
        proof {
            assert(ev.skip(n as int) =~= Seq::<(Seq<char>, Seq<char>)>::empty());
            assert(out@.map_values(|e: (String, Version)| (e.0@, e.1@)) =~= spec_lock_entries(
                ev.skip(n as int),
            ));
        }
        while i > 0
            invariant
                0 <= i <= n,
                n == entries@.len(),
                ev == raw_pairs_view(entries@),
                out@.map_values(|e: (String, Version)| (e.0@, e.1@)) == spec_lock_entries(
                    ev.skip(i as int),
                ),
            decreases i,
        {
            let j = i - 1;
            proof {
                lemma_skip_succ(ev, j as int);
                assert(ev.skip(j as int).first() == ev[j as int]);
                assert(ev[j as int] == (entries@[j as int].0@, entries@[j as int].1@));
            }
            let ghost before = out@.map_values(|e: (String, Version)| (e.0@, e.1@));
            match Version::parse(entries[j].1.as_str()) {
                Some(v) => {
                    out.push((entries[j].0.clone(), v));
                    proof {
                        assert(out@.map_values(|e: (String, Version)| (e.0@, e.1@)) =~= before.push(
                            (ev[j as int].0, spec_version_of(ev[j as int].1)->Some_0),
                        ));
                    }
                },
                None => {},
            }
            i = j;
        }
        proof {
            assert(ev.skip(0) =~= ev);
        }
        Lockfile::new(out)
    }
}

/// The view of raw (name, version text) pairs.
pub open spec fn raw_pairs_view(es: Seq<(String, String)>) -> Seq<(Seq<char>, Seq<char>)> {
    es.map_values(|e: (String, String)| (e.0@, e.1@))
}

/// The lockfile entries raw (name, version text) records yield: a record
/// whose version text does not parse is left out (its dependency then
/// reports an unknown current version), and when one name occurs in several
/// records the last one wins. The entries are kept newest-record-first, so
/// the first-match lookup answers the last record.
pub open spec fn spec_lock_entries(es: Seq<(Seq<char>, Seq<char>)>) -> Seq<
    (Seq<char>, VersionView),
>
    decreases es.len(),
{
    if es.len() == 0 {
        Seq::empty()
    } else {
        let rest = spec_lock_entries(es.drop_first());
        match spec_version_of(es.first().1) {
            Some(v) => rest.push((es.first().0, v)),
            None => rest,
        }
    }
}

/// Looks a name up among lockfile entries; the first match wins.
pub open spec fn lock_lookup(
    entries: Seq<(Seq<char>, VersionView)>,
    name: Seq<char>,
) -> Option<VersionView>
    decreases entries.len(),
{
    if entries.len() == 0 {
        None
    } else if entries[0].0 == name {
        Some(entries[0].1)
    } else {
        lock_lookup(entries.drop_first(), name)
    }
}

/// Mathematical model of one dependency's registry metadata.
#[verifier::ext_equal]
pub ghost struct DepInfoView {
    pub name: Seq<char>,
    pub author: Option<AuthorView>,
    pub homepage: Option<Seq<char>>,
    pub repository: Option<Seq<char>>,
    pub license: Option<Seq<char>>,
    pub description: Option<Seq<char>>,
    pub versions: Seq<VersionView>,
}

/// One dependency's registry metadata: descriptive fields and the known
/// versions, descending and without duplicates.
pub struct DepInfo {
    name: String,
    author: Option<Author>,
    homepage: Option<String>,
    repository: Option<String>,
    license: Option<String>,
    description: Option<String>,
    versions: Vec<Version>,
}

impl View for DepInfo {
    type V = DepInfoView;

    closed spec fn view(&self) -> DepInfoView {
        DepInfoView {
            name: self.name@,
            author: match self.author {
                Some(ref a) => Some(a@),
                None => None,
            },
            homepage: opt_string_view(self.homepage),
            repository: opt_string_view(self.repository),
            license: opt_string_view(self.license),
            description: opt_string_view(self.description),
            versions: views_of(self.versions@),
        }
    }
}

impl DepInfo {
    /// The versions list is kept descending by precedence and free of
    /// duplicate version texts.
    #[verifier::type_invariant]
    spec fn inv(&self) -> bool {
        sorted_desc(self@.versions) && no_dup_texts(self@.versions)
    }

    /// The dependency name this metadata belongs to.
    pub fn name(&self) -> (r: &String)
        ensures
            r@ == self@.name,
    {
        &self.name
    }
}

/// Looks a name up among metadata entries; the first match wins.
pub open spec fn lookup_info(md: Seq<DepInfoView>, name: Seq<char>) -> Option<DepInfoView>
    decreases md.len(),
{
    if md.len() == 0 {
        None
    } else if md[0].name == name {
        Some(md[0])
    } else {
        lookup_info(md.drop_first(), name)
    }
}

/// Looks a group up by name; the first match wins.
pub open spec fn lookup_group(groups: Seq<GroupView>, name: Seq<char>) -> Option<GroupView>
    decreases groups.len(),
{
    if groups.len() == 0 {
        None
    } else if groups[0].name == name {
        Some(groups[0])
    } else {
        lookup_group(groups.drop_first(), name)
    }
}

/// Looks a dependency up in a group by name; the first match wins.
pub open spec fn lookup_dep(deps: Seq<DepView>, name: Seq<char>) -> Option<DepView>
    decreases deps.len(),
{
    if deps.len() == 0 {
        None
    } else if deps[0].name == name {
        Some(deps[0])
    } else {
        lookup_dep(deps.drop_first(), name)
    }
}

/// Does any group declare a dependency of this name?
pub open spec fn config_has_dep(c: ConfigView, name: Seq<char>) -> bool {
    exists|g: int, d: int|
        0 <= g < c.groups.len() && 0 <= d < c.groups[g].deps.len() && c.groups[g].deps[d].name
            == name
}

/// Mathematical model of a project: the three data sources side by side.
#[verifier::ext_equal]
pub ghost struct ProjectView {
    pub config: ConfigView,
    pub lockfile: Seq<(Seq<char>, VersionView)>,
    pub metadata: Seq<DepInfoView>,
}

impl ProjectView {
    /// The cached metadata for a name, if its fetch succeeded.
    pub open spec fn metadata_of(self, name: Seq<char>) -> Option<DepInfoView> {
        lookup_info(self.metadata, name)
    }

    /// The version the lockfile resolved a name to.
    pub open spec fn lock_version(self, name: Seq<char>) -> Option<VersionView> {
        lock_lookup(self.lockfile, name)
    }

    /// The requirement text declared for a name in a group, if the group and
    /// the dependency exist and the declared range parsed.
    pub open spec fn req_of(self, group: Seq<char>, name: Seq<char>) -> Option<Seq<char>> {
        match lookup_group(self.config.groups, group) {
            Some(g) => match lookup_dep(g.deps, name) {
                Some(d) => d.req,
                None => None,
            },
            None => None,
        }
    }

    /// The known versions of a name, or the empty sequence without metadata.
    pub open spec fn versions_of(self, name: Seq<char>) -> Seq<VersionView> {
        match self.metadata_of(name) {
            Some(m) => m.versions,
            None => Seq::empty(),
        }
    }
}

/// A project ready for queries: one parsed manifest, one parsed lockfile,
/// and the registry metadata that could be fetched. The metadata is a cache:
/// it only ever holds entries for declared dependency names, at most one per
/// name, and may lack names whose fetch failed.
pub struct Project {
    config: Config,
    lockfile: Lockfile,
    metadata: Vec<DepInfo>,
}

impl View for Project {
    type V = ProjectView;

    closed spec fn view(&self) -> ProjectView {
        ProjectView {
            config: self.config@,
            lockfile: self.lockfile@,
            metadata: self.metadata@.map_values(|m: DepInfo| m@),
        }
    }
}

impl Project {
    /// Metadata entries are keyed by declared dependency names, one entry
    /// per name at most.
    #[verifier::type_invariant]
    spec fn inv(&self) -> bool {
        &&& forall|i: int|
            0 <= i < self@.metadata.len() ==> config_has_dep(
                self@.config,
                #[trigger] self@.metadata[i].name,
            )
        &&& forall|i: int, j: int|
            0 <= i < j < self@.metadata.len() ==> self@.metadata[i].name != self@.metadata[j].name
    }

    /// Finds the cached metadata entry for a name.
    fn find_info(&self, name: &String) -> (r: Option<&DepInfo>)
        ensures
            opt_view(r) == self@.metadata_of(name@),
    {
        let ghost md = self@.metadata;
        let n = self.metadata.len();
        let mut i: usize = 0;
        proof {
            assert(md.skip(0) =~= md);
        }
        while i < n
            invariant
                0 <= i <= n,
                n == self.metadata@.len(),
                md == self@.metadata,
                lookup_info(md, name@) == lookup_info(md.skip(i as int), name@),
            decreases n - i,
        {
            proof {
                lemma_skip_succ(md, i as int);
            }
            if self.metadata[i].name.eq(name) {
                return Some(&self.metadata[i]);
            }
            i = i + 1;
        }
        proof {
            assert(md.skip(n as int) =~= Seq::<DepInfoView>::empty());
        }
        None
    }

    /// The version the lockfile resolved this dependency to, or `None` for
    /// a dependency the lockfile does not mention.
    pub fn get_current_version(&self, name: &str) -> (r: Option<&Version>)
        ensures
            opt_view(r) == self@.lock_version(name@),
    {
        let key = name.to_owned();
        let ghost entries = self@.lockfile;
        let n = self.lockfile.entries.len();
        let mut i: usize = 0;
        proof {
            assert(entries.skip(0) =~= entries);
        }
        while i < n
            invariant
                0 <= i <= n,
                n == self.lockfile.entries@.len(),
                entries == self@.lockfile,
                key@ == name@,
                lock_lookup(entries, name@) == lock_lookup(entries.skip(i as int), name@),
            decreases n - i,
        {
            proof {
                lemma_skip_succ(entries, i as int);
            }
            if self.lockfile.entries[i].0.eq(&key) {
                return Some(&self.lockfile.entries[i].1);
            }
            i = i + 1;
        }
        proof {
            assert(entries.skip(n as int) =~= Seq::<(Seq<char>, VersionView)>::empty());
        }
        None
    }

    /// The requirement declared for this dependency in this group, or `None`
    /// when the group or dependency is not declared or its range text did
    /// not parse.
    pub fn get_specified_version(&self, group: &str, name: &str) -> (r: Option<&Requirement>)
        ensures
            opt_view(r) == self@.req_of(group@, name@),
    {
        let gkey = group.to_owned();
        let ghost groups = self@.config.groups;
        let n = self.config.groups.len();
        let mut i: usize = 0;
        proof {
            assert(groups.skip(0) =~= groups);
        }
        while i < n
            invariant
                0 <= i <= n,
                n == self.config.groups@.len(),
                groups == self@.config.groups,
                gkey@ == group@,
                lookup_group(groups, group@) == lookup_group(groups.skip(i as int), group@),
            decreases n - i,
        {
            proof {
                lemma_skip_succ(groups, i as int);
            }
            if self.config.groups[i].name.eq(&gkey) {
                return self.config.groups[i].find_req(name);
            }
            i = i + 1;
        }
        proof {
            assert(groups.skip(n as int) =~= Seq::<GroupView>::empty());
        }
        None
    }

    /// All known versions of this dependency, descending, or `None` when no
    /// metadata was fetched for it.
    pub fn get_dep_versions(&self, name: &str) -> (r: Option<&Vec<Version>>)
        ensures
            match r {
                Some(v) => self@.metadata_of(name@) is Some && views_of(v@) == self@.versions_of(
                    name@,
                ),
                None => self@.metadata_of(name@) is None,
            },
    {
        let key = name.to_owned();
        match self.find_info(&key) {
            Some(info) => Some(&info.versions),
            None => None,
        }
    }

    /// Is any version of this dependency known? True exactly when metadata
    /// was fetched for it and lists at least one version.
    pub fn is_versions_available(&self, name: &str) -> (r: bool)
        ensures
            r == match self@.metadata_of(name@) {
                Some(m) => m.versions.len() > 0,
                None => false,
            },
    {
        let key = name.to_owned();
        match self.find_info(&key) {
            Some(info) => info.versions.len() > 0,
            None => false,
        }
    }

    /// The homepage registry metadata reports, or `None` without metadata.
    pub fn get_homepage(&self, name: &str) -> (r: Option<String>)
        ensures
            opt_string_view(r) == match self@.metadata_of(name@) {
                Some(m) => m.homepage,
                None => None::<Seq<char>>,
            },
    {
        let key = name.to_owned();
        match self.find_info(&key) {
            Some(info) => match &info.homepage {
                Some(s) => Some(s.clone()),
                None => None,
            },
            None => None,
        }
    }

    /// The package-repository link, or `None` without metadata.
    pub fn get_repository(&self, name: &str) -> (r: Option<String>)
        ensures
            opt_string_view(r) == match self@.metadata_of(name@) {
                Some(m) => m.repository,
                None => None::<Seq<char>>,
            },
    {
        let key = name.to_owned();
        match self.find_info(&key) {
            Some(info) => match &info.repository {
                Some(s) => Some(s.clone()),
                None => None,
            },
            None => None,
        }
    }

    /// The license registry metadata reports, or `None` without metadata.
    pub fn get_license(&self, name: &str) -> (r: Option<String>)
        ensures
            opt_string_view(r) == match self@.metadata_of(name@) {
                Some(m) => m.license,
                None => None::<Seq<char>>,
            },
    {
        let key = name.to_owned();
        match self.find_info(&key) {
            Some(info) => match &info.license {
                Some(s) => Some(s.clone()),
                None => None,
            },
            None => None,
        }
    }

    /// The description registry metadata reports, or `None` without metadata.
    pub fn get_description(&self, name: &str) -> (r: Option<String>)
        ensures
            opt_string_view(r) == match self@.metadata_of(name@) {
                Some(m) => m.description,
                None => None::<Seq<char>>,
            },
    {
        let key = name.to_owned();
        match self.find_info(&key) {
            Some(info) => match &info.description {
                Some(s) => Some(s.clone()),
                None => None,
            },
            None => None,
        }
    }
}

impl Group {
    /// Finds a declared dependency's requirement in this group.
    fn find_req(&self, name: &str) -> (r: Option<&Requirement>)
        ensures
            opt_view(r) == match lookup_dep(self@.deps, name@) {
                Some(d) => d.req,
                None => None::<Seq<char>>,
            },
    {
        let key = name.to_owned();
        let ghost deps = self@.deps;
        let n = self.deps.len();
        let mut i: usize = 0;
        proof {
            assert(deps.skip(0) =~= deps);
        }
        while i < n
            invariant
                0 <= i <= n,
                n == self.deps@.len(),
                deps == self@.deps,
                key@ == name@,
                lookup_dep(deps, name@) == lookup_dep(deps.skip(i as int), name@),
            decreases n - i,
        {
            proof {
                lemma_skip_succ(deps, i as int);
            }
            if self.deps[i].name.eq(&key) {
                return match &self.deps[i].req {
                    Some(q) => Some(q),
                    None => None,
                };
            }
            i = i + 1;
        }
        proof {
            assert(deps.skip(n as int) =~= Seq::<DepView>::empty());
        }
        None
    }
}


// ---------------------------------------------------------------------------
// Normalizing fetched version lists
// ---------------------------------------------------------------------------
/// The version models of the texts that parse, in their original order.
pub open spec fn parsed_versions(ts: Seq<Seq<char>>) -> Seq<VersionView>
    decreases ts.len(),
{
    if ts.len() == 0 {
        Seq::empty()
    } else {
        let rest = parsed_versions(ts.drop_last());
        match spec_version_of(ts.last()) {
            Some(v) => rest.push(v),
            None => rest,
        }
    }
}

/// Every element of `parsed_versions` is what its own text parses to, so
/// elements with equal texts are equal.
proof fn lemma_parsed_versions_from_text(ts: Seq<Seq<char>>)
    ensures
        forall|k: int|
            0 <= k < parsed_versions(ts).len() ==> spec_version_of(
                (#[trigger] parsed_versions(ts)[k]).text,
            ) == Some(parsed_versions(ts)[k]),
    decreases ts.len(),
{
    if ts.len() > 0 {
        lemma_parsed_versions_from_text(ts.drop_last());
    }
}

/// Parses a list of version texts, keeping the ones that parse.
fn parse_versions(texts: &Vec<String>) -> (r: Vec<Version>)
    ensures
        views_of(r@) == parsed_versions(texts@.map_values(|s: String| s@)),
{
    let ghost tv = texts@.map_values(|s: String| s@);
    let n = texts.len();
    let mut out: Vec<Version> = Vec::new();
    let mut i: usize = 0;
    proof {
        assert(tv.take(0) =~= Seq::<Seq<char>>::empty());
        assert(views_of(out@) =~= parsed_versions(tv.take(0)));
    }
    while i < n
        invariant
            0 <= i <= n,
            n == texts@.len(),
            tv == texts@.map_values(|s: String| s@),
            views_of(out@) == parsed_versions(tv.take(i as int)),
        decreases n - i,
    {
        proof {
            assert(tv.take(i + 1).drop_last() =~= tv.take(i as int));
            assert(tv.take(i + 1).last() == tv[i as int]);
        }
        match Version::parse(texts[i].as_str()) {
            Some(v) => {
                out.push(v);
                proof {
                    assert(views_of(out@) =~= parsed_versions(tv.take(i + 1)));
                }
            },
            None => {
                proof {
                    assert(views_of(out@) =~= parsed_versions(tv.take(i + 1)));
                }
            },
        }
        i = i + 1;
    }
    proof {
        assert(tv.take(n as int) =~= tv);
    }
    out
}

/// Inserting an element anywhere adds exactly it to the multiset.
proof fn lemma_insert_to_multiset<A>(s: Seq<A>, k: int, v: A)
    requires
        0 <= k <= s.len(),
    ensures
        s.insert(k, v).to_multiset() == s.to_multiset().insert(v),
{
    broadcast use vstd::seq_lib::group_to_multiset_ensures;

    let left = s.subrange(0, k);
    let right = s.subrange(k, s.len() as int);
    assert(s =~= left + right);
    assert(s.insert(k, v) =~= left.push(v) + right);
    vstd::seq_lib::lemma_multiset_commutative(left, right);
    vstd::seq_lib::lemma_multiset_commutative(left.push(v), right);
    assert(left.push(v).to_multiset() == left.to_multiset().insert(v));
    assert(s.insert(k, v).to_multiset() =~= s.to_multiset().insert(v));
}

/// Maps views over an inserted sequence.
proof fn lemma_views_of_insert(s: Seq<Version>, k: int, v: Version)
    requires
        0 <= k <= s.len(),
    ensures
        views_of(s.insert(k, v)) == views_of(s).insert(k, v@),
{
    assert(views_of(s.insert(k, v)) =~= views_of(s).insert(k, v@));
}

/// Sorts versions descending by precedence. The result holds exactly the
/// versions given, as a multiset.
fn sort_versions(input: Vec<Version>) -> (r: Vec<Version>)
    ensures
        sorted_desc(views_of(r@)),
        views_of(r@).to_multiset() == views_of(input@).to_multiset(),
{
    broadcast use vstd::seq_lib::group_to_multiset_ensures;

    let ghost orig = views_of(input@);
    let mut rest = input;
    let mut out: Vec<Version> = Vec::new();
    proof {
        assert(views_of(out@) =~= Seq::<VersionView>::empty());
        assert(views_of(out@).to_multiset().add(views_of(rest@).to_multiset())
            =~= orig.to_multiset());
    }
    while rest.len() > 0
        invariant
            sorted_desc(views_of(out@)),
            views_of(out@).to_multiset().add(views_of(rest@).to_multiset()) == orig.to_multiset(),
        decreases rest@.len(),
    {
        let ghost pre_rest = views_of(rest@);
        let popped = rest.pop();
        let v = match popped {
            Some(v) => v,
            None => {
                proof {
                    assert(false);
                }
                unreached()
            },
        };
        proof {
            pre_rest.to_multiset_ensures();
            assert(views_of(rest@) =~= pre_rest.drop_last());
            assert(pre_rest.drop_last() =~= pre_rest.remove(pre_rest.len() - 1));
            assert(pre_rest.last() == v@);
            assert(pre_rest.remove(pre_rest.len() - 1).to_multiset() == pre_rest.to_multiset()
                .remove(pre_rest[pre_rest.len() - 1]));
            assert(views_of(rest@).to_multiset() == pre_rest.to_multiset().remove(v@));
            assert(pre_rest.contains(v@));
            assert(pre_rest.to_multiset().count(v@) > 0);
        }

        // Find the first position whose element is at or below `v`.
        let ghost vout = views_of(out@);
        let n = out.len();
        let mut k: usize = 0;
        while k < n && out[k].cmp_precedence(&v) == 1
            invariant
                0 <= k <= n,
                n == out@.len(),
                vout == views_of(out@),
                forall|a: int| 0 <= a < k ==> version_lt(v@, #[trigger] vout[a]),
            decreases n - k,
        {
            k = k + 1;
        }
        proof {
            if k < n {
                lemma_version_le_connected(vout[k as int], v@);
            }
        }
        let ghost before = out@;
        out.insert(k, v);
        proof {
            lemma_views_of_insert(before, k as int, v);
            let w = views_of(out@);
            assert(w == vout.insert(k as int, v@));
            // The insertion point keeps the list descending.
            assert forall|i: int, j: int| 0 <= i < j < w.len() implies version_le(
                #[trigger] w[j],
                #[trigger] w[i],
            ) by {
                if i < k && j == k {
                    assert(version_lt(v@, vout[i]));
                } else if i == k && j > k {
                    assert(version_le(vout[k as int], v@));
                    if j - 1 > k {
                        lemma_version_le_trans(w[j], vout[k as int], v@);
                    }
                }
            }
            // The moved element only moved between the two multisets.
            lemma_insert_to_multiset(vout, k as int, v@);
            assert(w.to_multiset().add(views_of(rest@).to_multiset()) =~= orig.to_multiset());
        }
    }
    out
}


/// Keeps only the first (hence highest-ranked) version of each text.
/// Equal-text elements must be equal, which holds of parsed versions: the
/// text determines every parsed part.
fn dedup_versions(input: Vec<Version>) -> (r: Vec<Version>)
    requires
        sorted_desc(views_of(input@)),
        forall|i: int, j: int|
            0 <= i < input@.len() && 0 <= j < input@.len() && (#[trigger] views_of(input@)[i]).text
                == (#[trigger] views_of(input@)[j]).text ==> views_of(input@)[i] == views_of(
                input@,
            )[j],
    ensures
        sorted_desc(views_of(r@)),
        no_dup_texts(views_of(r@)),
        forall|x: VersionView| views_of(r@).contains(x) <==> views_of(input@).contains(x),
{
    let ghost vin = views_of(input@);
    let mut rest = input;
    let mut out: Vec<Version> = Vec::new();
    let ghost mut i: int = 0;
    proof {
        assert(views_of(rest@) =~= vin.skip(0));
        assert(views_of(out@) =~= Seq::<VersionView>::empty());
    }
    while rest.len() > 0
        invariant
            0 <= i <= vin.len(),
            views_of(rest@) == vin.skip(i),
            sorted_desc(views_of(out@)),
            no_dup_texts(views_of(out@)),
            forall|x: VersionView| views_of(out@).contains(x) <==> vin.take(i).contains(x),
            forall|a: int|
                0 <= a < views_of(out@).len() ==> exists|j: int|
                    0 <= j < i && vin[j] == #[trigger] views_of(out@)[a],
            forall|p: int, q: int|
                0 <= p < vin.len() && 0 <= q < vin.len() && (#[trigger] vin[p]).text == (
                #[trigger] vin[q]).text ==> vin[p] == vin[q],
            sorted_desc(vin),
        decreases rest@.len(),
    {
        proof {
            assert(views_of(rest@).len() == rest@.len());
            assert(vin.skip(i).len() == vin.len() - i);
            lemma_skip_succ(vin, i);
            assert(views_of(rest@)[0] == vin[i]);
        }
        let v = rest.remove(0);
        proof {
            assert(v@ == vin[i]);
            assert(views_of(rest@) =~= vin.skip(i + 1));
        }

        let ghost vout = views_of(out@);
        let nout = out.len();
        let mut found = false;
        let mut t: usize = 0;
        while t < nout
            invariant
                0 <= t <= nout,
                nout == out@.len(),
                vout == views_of(out@),
                found <==> exists|s: int| 0 <= s < t && (#[trigger] vout[s]).text == v@.text,
            decreases nout - t,
        {
            proof {
                assert(vout[t as int] == out@[t as int]@);
            }
            if out[t].text().eq(v.text()) {
                found = true;
                proof {
                    assert(vout[t as int].text == v@.text);
                }
            }
            t = t + 1;
        }

        proof {
            assert(vin.take(i + 1) =~= vin.take(i).push(vin[i]));
        }
        if !found {
            let ghost before = views_of(out@);
            out.push(v);
            proof {
                assert(views_of(out@) =~= before.push(v@));
                assert forall|x: VersionView| views_of(out@).contains(x) <==> vin.take(i + 1)
                    .contains(x) by {
                    assert(views_of(out@).last() == v@);
                    assert(vin.take(i + 1).last() == vin[i]);
                    if before.contains(x) {
                        let s0 = choose|s0: int|
                            0 <= s0 < before.len() && (#[trigger] before[s0]) == x;
                        assert(views_of(out@)[s0] == x);
                    }
                    if vin.take(i).contains(x) {
                        let s = choose|s: int| 0 <= s < vin.take(i).len() && (#[trigger] vin.take(i)[s]) == x;
                        assert(vin.take(i + 1)[s] == x);
                    }
                    if views_of(out@).contains(x) {
                        let s = choose|s: int|
                            0 <= s < views_of(out@).len() && (#[trigger] views_of(out@)[s]) == x;
                        if s < before.len() {
                            assert(before[s] == x);
                        }
                    }
                    if vin.take(i + 1).contains(x) {
                        let s = choose|s: int|
                            0 <= s < vin.take(i + 1).len() && (#[trigger] vin.take(i + 1)[s]) == x;
                        if s < i {
                            assert(vin.take(i)[s] == x);
                        }
                    }
                }
            }
        } else {
            proof {
                // The text already occurred, and equal texts mean equal
                // elements, so the set of elements does not grow.
                let s = choose|s: int| 0 <= s < vout.len() && (#[trigger] vout[s]).text == v@.text;
                assert(vout.contains(vout[s]));
                assert(vin.take(i).contains(vout[s]));
                let j = choose|j: int| 0 <= j < i && (#[trigger] vin[j]) == vout[s];
                assert(vin[j].text == vin[i].text);
                assert(vin[i] == vout[s]);
                assert forall|x: VersionView| views_of(out@).contains(x) <==> vin.take(i + 1)
                    .contains(x) by {
                    if vin.take(i).contains(x) {
                        let s2 = choose|s2: int|
                            0 <= s2 < vin.take(i).len() && (#[trigger] vin.take(i)[s2]) == x;
                        assert(vin.take(i + 1)[s2] == x);
                    }
                    if vin.take(i + 1).contains(x) {
                        let s2 = choose|s2: int|
                            0 <= s2 < vin.take(i + 1).len() && (#[trigger] vin.take(i + 1)[s2])
                                == x;
                        if s2 < i {
                            assert(vin.take(i)[s2] == x);
                        } else {
                            assert(x == vin[i]);
                            assert(vin.take(i).contains(vout[s]));
                        }
                    }
                }
            }
        }
        proof {
            i = i + 1;
        }
    }
    proof {
        assert(vin.take(i) =~= vin);
    }
    out
}

/// The view of optional author metadata.
pub open spec fn opt_author_view(o: Option<Author>) -> Option<AuthorView> {
    match o {
        Some(a) => Some(a@),
        None => None,
    }
}

impl DepInfo {
    /// Builds one dependency's metadata from fetched fields. Of the version
    /// texts, the ones that parse are kept, ordered descending by
    /// precedence, one entry per distinct text.
    pub fn new(
        name: String,
        author: Option<Author>,
        homepage: Option<String>,
        repository: Option<String>,
        license: Option<String>,
        description: Option<String>,
        version_texts: Vec<String>,
    ) -> (r: DepInfo)
        ensures
            r@.name == name@,
            r@.author == opt_author_view(author),
            r@.homepage == opt_string_view(homepage),
            r@.repository == opt_string_view(repository),
            r@.license == opt_string_view(license),
            r@.description == opt_string_view(description),
            sorted_desc(r@.versions),
            no_dup_texts(r@.versions),
            forall|x: VersionView|
                r@.versions.contains(x) <==> parsed_versions(
                    version_texts@.map_values(|s: String| s@),
                ).contains(x),
    {
        let ghost tv = version_texts@.map_values(|s: String| s@);
        let parsed = parse_versions(&version_texts);
        let ghost pv = views_of(parsed@);
        let sorted = sort_versions(parsed);
        proof {
            pv.to_multiset_ensures();
            views_of(sorted@).to_multiset_ensures();
            assert(pv == parsed_versions(tv));
            assert forall|x: VersionView| views_of(sorted@).contains(x) <==> #[trigger] pv.contains(
                x,
            ) by {
                assert(views_of(sorted@).contains(x) <==> views_of(sorted@).to_multiset().count(x)
                    > 0);
                assert(pv.contains(x) <==> pv.to_multiset().count(x) > 0);
            }
            lemma_parsed_versions_from_text(tv);
            assert forall|i: int, j: int|
                0 <= i < sorted@.len() && 0 <= j < sorted@.len() && (#[trigger] views_of(
                    sorted@,
                )[i]).text == (#[trigger] views_of(sorted@)[j]).text implies views_of(sorted@)[i]
                == views_of(sorted@)[j] by {
                assert(views_of(sorted@).contains(views_of(sorted@)[i]));
                assert(views_of(sorted@).contains(views_of(sorted@)[j]));
                assert(pv.contains(views_of(sorted@)[i]));
                assert(pv.contains(views_of(sorted@)[j]));
                let a = choose|a: int|
                    0 <= a < pv.len() && (#[trigger] pv[a]) == views_of(sorted@)[i];
                let b = choose|b: int|
                    0 <= b < pv.len() && (#[trigger] pv[b]) == views_of(sorted@)[j];
                assert(spec_version_of(parsed_versions(tv)[a].text) == Some(parsed_versions(tv)[a]));
                assert(spec_version_of(parsed_versions(tv)[b].text) == Some(parsed_versions(tv)[b]));
            }
        }
        let versions = dedup_versions(sorted);
        let r = DepInfo { name, author, homepage, repository, license, description, versions };
        r
    }
}


// ---------------------------------------------------------------------------
// The resolution algorithm
// ---------------------------------------------------------------------------
/// Is some version in the list written exactly as `t`?
pub open spec fn has_text(vs: Seq<VersionView>, t: Seq<char>) -> bool {
    exists|i: int| 0 <= i < vs.len() && (#[trigger] vs[i]).text == t
}

/// The first index whose version is written exactly as `t`, or `vs.len()`
/// when there is none.
pub open spec fn find_text(vs: Seq<VersionView>, t: Seq<char>) -> nat
    decreases vs.len(),
{
    if vs.len() == 0 {
        0
    } else if vs[0].text == t {
        0
    } else {
        1 + find_text(vs.drop_first(), t)
    }
}

/// `find_text` is pinned down by its characteristic properties.
proof fn lemma_find_text_at(vs: Seq<VersionView>, t: Seq<char>, d: int)
    requires
        0 <= d <= vs.len(),
        forall|i: int| 0 <= i < d ==> (#[trigger] vs[i]).text != t,
        d < vs.len() ==> vs[d].text == t,
    ensures
        find_text(vs, t) == d,
    decreases d,
{
    if vs.len() == 0 || vs[0].text == t {
    } else {
        assert(d >= 1);
        assert(forall|i: int| 0 <= i < d - 1 ==> vs.drop_first()[i] == vs[i + 1]);
        lemma_find_text_at(vs.drop_first(), t, d - 1);
    }
}

/// The index the hop-by-hop climb from index `i` toward the front reaches:
/// while the requirement is present and admits the next newer version, move
/// one step; stop at the first version it rejects.
pub open spec fn climb(req: Option<Seq<char>>, vs: Seq<VersionView>, i: int) -> int
    decreases i,
{
    if i <= 0 {
        0
    } else if req is Some && req_matches(req->Some_0, vs[i - 1].text) {
        climb(req, vs, i - 1)
    } else {
        i
    }
}

/// The upgrade target the climb returns is the installed version's own
/// entry or one the declared requirement admits, it never sits below the
/// installed version's entry in the list, and on a descending list it is
/// never a downgrade.
pub proof fn lemma_climb_reaches_compatible(req: Option<Seq<char>>, vs: Seq<VersionView>, i: int)
    requires
        0 <= i < vs.len(),
    ensures
        0 <= climb(req, vs, i) <= i,
        climb(req, vs, i) == i || (req is Some && req_matches(
            req->Some_0,
            vs[climb(req, vs, i)].text,
        )),
        sorted_desc(vs) ==> version_le(vs[i], vs[climb(req, vs, i)]),
    decreases i,
{
    if i > 0 && req is Some && req_matches(req->Some_0, vs[i - 1].text) {
        lemma_climb_reaches_compatible(req, vs, i - 1);
        if sorted_desc(vs) {
            let k = climb(req, vs, i);
            if k < i - 1 {
                crate::version::lemma_version_le_trans(vs[i], vs[i - 1], vs[k]);
            }
        }
    } else {
        if sorted_desc(vs) {
            assert(version_le(vs[i], vs[i]));
        }
    }
}

/// The best version an upgrade may reach: absent unless the installed
/// version appears verbatim in the known list; otherwise the result of the
/// monotonic climb from it toward newer versions. This is deliberately not
/// the global best match of the requirement.
pub open spec fn spec_best_compatible(
    req: Option<Seq<char>>,
    cur: Option<VersionView>,
    vs: Seq<VersionView>,
) -> Option<VersionView> {
    match cur {
        Some(c) => if has_text(vs, c.text) {
            Some(vs[climb(req, vs, find_text(vs, c.text) as int)])
        } else {
            None
        },
        None => None,
    }
}

/// The newest known version: the head of the descending list.
pub open spec fn spec_latest(vs: Seq<VersionView>) -> Option<VersionView> {
    if vs.len() > 0 {
        Some(vs[0])
    } else {
        None
    }
}

/// The upgrade classification: the first differing component between the
/// installed version and the climb's result names the class; with no
/// difference, a strictly newer latest version (outside or unreachable from
/// the compatible chain) makes it `Breaking`, otherwise everything is up to
/// date. Without an installed version or a climb result there is nothing to
/// classify.
pub open spec fn spec_upgrade_type(
    cur: Option<VersionView>,
    best: Option<VersionView>,
    latest: Option<VersionView>,
) -> UpgradeType {
    match (cur, best) {
        (Some(c), Some(b)) => if c.major != b.major {
            UpgradeType::Major
        } else if c.minor != b.minor {
            UpgradeType::Minor
        } else if c.patch != b.patch {
            UpgradeType::Patch
        } else if latest is Some && version_lt(c, latest->Some_0) {
            UpgradeType::Breaking
        } else {
            UpgradeType::UpToDate
        },
        _ => UpgradeType::UpToDate,
    }
}

impl Project {
    /// The newest known version of this dependency, or `None` when no
    /// metadata was fetched or it lists no versions. The result is at or
    /// above every known version.
    pub fn get_latest_version(&self, name: &str) -> (r: Option<&Version>)
        ensures
            opt_view(r) == spec_latest(self@.versions_of(name@)),
            r matches Some(v) ==> forall|i: int|
                0 <= i < self@.versions_of(name@).len() ==> version_le(
                    #[trigger] self@.versions_of(name@)[i],
                    v@,
                ),
    {
        let key = name.to_owned();
        match self.find_info(&key) {
            Some(info) => {
                proof {
                    use_type_invariant(info);
                }
                if info.versions.len() > 0 {
                    Some(&info.versions[0])
                } else {
                    None
                }
            },
            None => None,
        }
    }

    /// The best version an upgrade from the installed version may reach:
    /// starting at the installed version's exact entry in the known list,
    /// climb hop by hop toward newer versions while the declared requirement
    /// admits them. `None` when the installed version is unknown or does not
    /// appear verbatim in the list.
    pub fn get_semver_version(&self, group: &str, name: &str) -> (r: Option<&Version>)
        ensures
            opt_view(r) == spec_best_compatible(
                self@.req_of(group@, name@),
                self@.lock_version(name@),
                self@.versions_of(name@),
            ),
    {
        let ghost reqv = self@.req_of(group@, name@);
        let ghost vs = self@.versions_of(name@);
        let req_opt = self.get_specified_version(group, name);
        let cur = match self.get_current_version(name) {
            Some(c) => c,
            None => {
                return None;
            },
        };
        let key = name.to_owned();
        let info = match self.find_info(&key) {
            Some(x) => x,
            None => {
                proof {
                    assert(!has_text(vs, cur@.text));
                }
                return None;
            },
        };
        let vers = &info.versions;
        proof {
            assert(views_of(vers@) == vs);
        }
        let n = vers.len();

        // Locate the installed version verbatim.
        let mut i: usize = 0;
        let mut found = false;
        while i < n && !found
            invariant
                0 <= i <= n,
                n == vers@.len(),
                views_of(vers@) == vs,
                !found ==> forall|k: int| 0 <= k < i ==> (#[trigger] vs[k]).text != cur@.text,
                found ==> i < n && vs[i as int].text == cur@.text && forall|k: int|
                    0 <= k < i ==> (#[trigger] vs[k]).text != cur@.text,
            decreases n - i, (if found { 0int } else { 1int }),
        {
            proof {
                assert(vs[i as int] == vers@[i as int]@);
            }
            if vers[i].text().eq(cur.text()) {
                found = true;
            } else {
                i = i + 1;
            }
        }
        if !found {
            proof {
                assert(!has_text(vs, cur@.text));
            }
            return None;
        }
        proof {
            lemma_find_text_at(vs, cur@.text, i as int);
            assert(has_text(vs, cur@.text));
        }

        // Climb toward newer versions while the requirement admits them.
        let req = match req_opt {
            Some(q) => q,
            None => {
                proof {
                    assert(climb(reqv, vs, i as int) == i as int);
                }
                return Some(&vers[i]);
            },
        };
        let mut k = i;
        let mut stop = false;
        while k > 0 && !stop
            invariant
                0 <= k <= i < n,
                n == vers@.len(),
                views_of(vers@) == vs,
                reqv == Some(req@),
                stop ==> climb(reqv, vs, i as int) == k as int,
                !stop ==> climb(reqv, vs, i as int) == climb(reqv, vs, k as int),
            decreases k, (if stop { 0int } else { 1int }),
        {
            proof {
                assert(vs[k - 1] == vers@[k - 1]@);
            }
            if req.matches(&vers[k - 1]) {
                k = k - 1;
            } else {
                stop = true;
            }
        }
        Some(&vers[k])
    }

    /// Classifies how far the installed version trails what the climb can
    /// reach, or how it relates to the newest version when the chain is
    /// exhausted.
    pub fn get_upgrade_type(&self, group: &str, name: &str) -> (r: UpgradeType)
        ensures
            r == spec_upgrade_type(
                self@.lock_version(name@),
                spec_best_compatible(
                    self@.req_of(group@, name@),
                    self@.lock_version(name@),
                    self@.versions_of(name@),
                ),
                spec_latest(self@.versions_of(name@)),
            ),
    {
        let cur = match self.get_current_version(name) {
            Some(c) => c,
            None => {
                return UpgradeType::UpToDate;
            },
        };
        let best = match self.get_semver_version(group, name) {
            Some(b) => b,
            None => {
                return UpgradeType::UpToDate;
            },
        };
        if cur.major() != best.major() {
            return UpgradeType::Major;
        }
        if cur.minor() != best.minor() {
            return UpgradeType::Minor;
        }
        if cur.patch() != best.patch() {
            return UpgradeType::Patch;
        }
        match self.get_latest_version(name) {
            Some(latest) => {
                if cur.lt(latest) {
                    UpgradeType::Breaking
                } else {
                    UpgradeType::UpToDate
                }
            },
            None => UpgradeType::UpToDate,
        }
    }
}

// ---------------------------------------------------------------------------
// Author rendering
// ---------------------------------------------------------------------------
/// The one-line form of an author: the name, then the email in angle
/// brackets, then the url in square brackets, each when present.
pub open spec fn author_text(a: AuthorView) -> Seq<char> {
    let with_email = if a.email is Some {
        a.name + " <"@ + a.email->Some_0 + ">"@
    } else {
        a.name
    };
    if a.url is Some {
        with_email + " ["@ + a.url->Some_0 + "]"@
    } else {
        with_email
    }
}

impl Author {
    /// Renders the author on one line.
    pub fn to_text(&self) -> (r: String)
        ensures
            r@ == author_text(self@),
    {
        let mut s = self.name.clone();
        match &self.email {
            Some(e) => {
                s.append(" <");
                s.append(e.as_str());
                s.append(">");
            },
            None => {},
        }
        match &self.url {
            Some(u) => {
                s.append(" [");
                s.append(u.as_str());
                s.append("]");
            },
            None => {},
        }
        s
    }
}

impl Project {
    /// The author line registry metadata yields, or `None` without metadata
    /// or an author in it.
    pub fn get_author(&self, name: &str) -> (r: Option<String>)
        ensures
            opt_string_view(r) == match self@.metadata_of(name@) {
                Some(m) => match m.author {
                    Some(a) => Some(author_text(a)),
                    None => None::<Seq<char>>,
                },
                None => None::<Seq<char>>,
            },
    {
        let key = name.to_owned();
        match self.find_info(&key) {
            Some(info) => match &info.author {
                Some(a) => Some(a.to_text()),
                None => None,
            },
            None => None,
        }
    }
}


// ---------------------------------------------------------------------------
// Fetch planning and project assembly
// ---------------------------------------------------------------------------
/// The dependency names of the groups in declaration order, one group after
/// the other, duplicates included.
pub open spec fn all_dep_names(groups: Seq<GroupView>) -> Seq<Seq<char>>
    decreases groups.len(),
{
    if groups.len() == 0 {
        Seq::empty()
    } else {
        all_dep_names(groups.drop_last()) + groups.last().deps.map_values(|d: DepView| d.name)
    }
}

/// Keeps the first occurrence of each name, in order.
pub open spec fn dedup_first(s: Seq<Seq<char>>) -> Seq<Seq<char>>
    decreases s.len(),
{
    if s.len() == 0 {
        s
    } else {
        let rest = dedup_first(s.drop_last());
        if s.drop_last().contains(s.last()) {
            rest
        } else {
            rest.push(s.last())
        }
    }
}

/// The distinct dependency names across all groups, in order of first
/// declaration: the fetch plan of a fresh parse.
pub open spec fn spec_dep_names(groups: Seq<GroupView>) -> Seq<Seq<char>> {
    dedup_first(all_dep_names(groups))
}

proof fn lemma_dedup_first(s: Seq<Seq<char>>)
    ensures
        forall|i: int, j: int|
            0 <= i < j < dedup_first(s).len() ==> #[trigger] dedup_first(s)[i]
                != #[trigger] dedup_first(s)[j],
        forall|x: Seq<char>| dedup_first(s).contains(x) <==> s.contains(x),
    decreases s.len(),
{
    if s.len() > 0 {
        lemma_dedup_first(s.drop_last());
        let rest = dedup_first(s.drop_last());
        let last = s.last();
        assert forall|x: Seq<char>| dedup_first(s).contains(x) <==> s.contains(x) by {
            if dedup_first(s).contains(x) {
                let w = choose|w: int|
                    0 <= w < dedup_first(s).len() && (#[trigger] dedup_first(s)[w]) == x;
                if w < rest.len() {
                    assert(rest[w] == x);
                    assert(rest.contains(x));
                    assert(s.drop_last().contains(x));
                    let w2 = choose|w2: int|
                        0 <= w2 < s.drop_last().len() && (#[trigger] s.drop_last()[w2]) == x;
                    assert(s[w2] == x);
                    assert(s.contains(x));
                } else {
                    assert(x == last);
                    assert(s[s.len() - 1] == x);
                    assert(s.contains(x));
                }
            }
            if s.contains(x) {
                let w = choose|w: int| 0 <= w < s.len() && (#[trigger] s[w]) == x;
                if w < s.len() - 1 {
                    assert(s.drop_last()[w] == x);
                    assert(s.drop_last().contains(x));
                    assert(rest.contains(x));
                    let w2 = choose|w2: int| 0 <= w2 < rest.len() && (#[trigger] rest[w2]) == x;
                    assert(dedup_first(s)[w2] == x);
                    assert(dedup_first(s).contains(x));
                } else {
                    assert(x == last);
                    if s.drop_last().contains(last) {
                        assert(rest.contains(x));
                        let w2 = choose|w2: int|
                            0 <= w2 < rest.len() && (#[trigger] rest[w2]) == x;
                        assert(dedup_first(s)[w2] == x);
                        assert(dedup_first(s).contains(x));
                    } else {
                        assert(dedup_first(s)[rest.len() as int] == x);
                        assert(dedup_first(s).contains(x));
                    }
                }
            }
        }
        if !s.drop_last().contains(last) {
            assert(!rest.contains(last));
            assert forall|i: int, j: int|
                0 <= i < j < dedup_first(s).len() implies #[trigger] dedup_first(s)[i]
                != #[trigger] dedup_first(s)[j] by {
                if j == rest.len() {
                    if dedup_first(s)[i] == last {
                        assert(rest[i] == last);
                        assert(rest.contains(last));
                    }
                }
            }
        }
    }
}

proof fn lemma_all_dep_names_iff(groups: Seq<GroupView>, n: Seq<char>)
    ensures
        all_dep_names(groups).contains(n) <==> exists|g: int, d: int|
            0 <= g < groups.len() && 0 <= d < groups[g].deps.len() && (#[trigger] groups[g].deps[d]).name
                == n,
    decreases groups.len(),
{
    if groups.len() > 0 {
        lemma_all_dep_names_iff(groups.drop_last(), n);
        let prefix = all_dep_names(groups.drop_last());
        let lastnames = groups.last().deps.map_values(|d: DepView| d.name);
        if all_dep_names(groups).contains(n) {
            let w = choose|w: int|
                0 <= w < all_dep_names(groups).len() && (#[trigger] all_dep_names(groups)[w]) == n;
            if w < prefix.len() {
                assert(prefix[w] == n);
                assert(prefix.contains(n));
                let (g, d) = choose|g: int, d: int|
                    0 <= g < groups.drop_last().len() && 0 <= d < groups.drop_last()[g].deps.len()
                        && (#[trigger] groups.drop_last()[g].deps[d]).name == n;
                assert(groups[g].deps[d].name == n);
            } else {
                assert(lastnames[w - prefix.len()] == n);
                assert(groups[groups.len() - 1].deps[w - prefix.len()].name == n);
            }
        }
        if exists|g: int, d: int|
            0 <= g < groups.len() && 0 <= d < groups[g].deps.len() && (#[trigger] groups[g].deps[d]).name
                == n {
            let (g, d) = choose|g: int, d: int|
                0 <= g < groups.len() && 0 <= d < groups[g].deps.len() && (#[trigger] groups[g].deps[d]).name
                    == n;
            if g < groups.len() - 1 {
                assert(groups.drop_last()[g].deps[d].name == n);
                assert(prefix.contains(n));
                let w = choose|w: int| 0 <= w < prefix.len() && (#[trigger] prefix[w]) == n;
                assert(all_dep_names(groups)[w] == n);
            } else {
                assert(lastnames[d] == n);
                assert(all_dep_names(groups)[prefix.len() + d] == n);
            }
        }
    }
}

/// A dependency name appearing in several groups is planned once: the fetch
/// plan has no duplicate names, and it has exactly the declared names.
pub proof fn lemma_fetch_dedup(c: ConfigView)
    ensures
        forall|i: int, j: int|
            0 <= i < j < spec_dep_names(c.groups).len() ==> #[trigger] spec_dep_names(c.groups)[i]
                != #[trigger] spec_dep_names(c.groups)[j],
        forall|n: Seq<char>| spec_dep_names(c.groups).contains(n) <==> config_has_dep(c, n),
{
    lemma_dedup_first(all_dep_names(c.groups));
    assert forall|n: Seq<char>| spec_dep_names(c.groups).contains(n) <==> config_has_dep(
        c,
        n,
    ) by {
        lemma_all_dep_names_iff(c.groups, n);
    }
}

/// Does any version-list of a vector of strings contain this string?
fn contains_string(v: &Vec<String>, x: &String) -> (r: bool)
    ensures
        r == v@.map_values(|s: String| s@).contains(x@),
{
    let ghost sv = v@.map_values(|s: String| s@);
    let n = v.len();
    let mut i: usize = 0;
    while i < n
        invariant
            0 <= i <= n,
            n == v@.len(),
            sv == v@.map_values(|s: String| s@),
            forall|k: int| 0 <= k < i ==> (#[trigger] sv[k]) != x@,
        decreases n - i,
    {
        proof {
            assert(sv[i as int] == v@[i as int]@);
        }
        if v[i].eq(x) {
            return true;
        }
        i = i + 1;
    }
    false
}

/// The distinct dependency names across all groups of a manifest, in order
/// of first declaration: one registry fetch is issued per entry.
pub fn dep_names(config: &Config) -> (r: Vec<String>)
    ensures
        r@.map_values(|s: String| s@) == spec_dep_names(config@.groups),
{
    let ghost groups = config@.groups;
    let mut out: Vec<String> = Vec::new();
    let ghost mut processed: Seq<Seq<char>> = Seq::empty();
    proof {
        assert(all_dep_names(groups.take(0)) =~= Seq::<Seq<char>>::empty());
        assert(out@.map_values(|s: String| s@) =~= dedup_first(processed));
    }
    let ngroups = config.groups.len();
    let mut g: usize = 0;
    while g < ngroups
        invariant
            0 <= g <= ngroups,
            ngroups == config.groups@.len(),
            groups == config@.groups,
            processed == all_dep_names(groups.take(g as int)),
            out@.map_values(|s: String| s@) == dedup_first(processed),
        decreases ngroups - g,
    {
        let ndeps = config.groups[g].deps.len();
        let ghost gdeps = groups[g as int].deps;
        let mut d: usize = 0;
        proof {
            assert(gdeps.map_values(|dp: DepView| dp.name).take(0) =~= Seq::<Seq<char>>::empty());
            assert(processed + gdeps.map_values(|dp: DepView| dp.name).take(0) =~= processed);
        }
        while d < ndeps
            invariant
                0 <= d <= ndeps,
                0 <= g < ngroups,
                ngroups == config.groups@.len(),
                ndeps == config.groups@[g as int].deps@.len(),
                groups == config@.groups,
                gdeps == groups[g as int].deps,
                processed == all_dep_names(groups.take(g as int)) + gdeps.map_values(
                    |dp: DepView| dp.name,
                ).take(d as int),
                out@.map_values(|s: String| s@) == dedup_first(processed),
            decreases ndeps - d,
        {
            let ghost names = gdeps.map_values(|dp: DepView| dp.name);
            let name = config.groups[g].deps[d].name.clone();
            proof {
                assert(names[d as int] == gdeps[d as int].name);
                assert(gdeps[d as int] == config.groups@[g as int]@.deps[d as int]);
                assert(name@ == names[d as int]);
                assert((processed.push(names[d as int])).drop_last() =~= processed);
                assert(names.take(d + 1) =~= names.take(d as int).push(names[d as int]));
                assert(processed.push(names[d as int]) =~= all_dep_names(groups.take(g as int))
                    + names.take(d + 1));
            }
            let present = contains_string(&out, &name);
            proof {
                lemma_dedup_first(processed);
                assert(present == processed.contains(name@));
            }
            let ghost before = out@.map_values(|s: String| s@);
            if !present {
                out.push(name);
                proof {
                    assert(out@.map_values(|s: String| s@) =~= before.push(names[d as int]));
                }
            }
            proof {
                processed = processed.push(names[d as int]);
            }
            d = d + 1;
        }
        proof {
            assert(groups.take(g + 1).drop_last() =~= groups.take(g as int));
            assert(groups.take(g + 1).last() == groups[g as int]);
            assert(gdeps.map_values(|dp: DepView| dp.name).take(ndeps as int) =~= gdeps.map_values(
                |dp: DepView| dp.name,
            ));
            assert(processed =~= all_dep_names(groups.take(g + 1)));
        }
        g = g + 1;
    }
    proof {
        assert(groups.take(ngroups as int) =~= groups);
    }
    out
}


/// Which fetched entries a project admits into its metadata cache: entries
/// in order, dropping one whose name is not declared in the manifest or was
/// already admitted.
pub open spec fn spec_admit(c: ConfigView, entries: Seq<DepInfoView>) -> Seq<DepInfoView>
    decreases entries.len(),
{
    if entries.len() == 0 {
        entries
    } else {
        let rest = spec_admit(c, entries.drop_last());
        let e = entries.last();
        if config_has_dep(c, e.name) && lookup_info(rest, e.name) is None {
            rest.push(e)
        } else {
            rest
        }
    }
}

/// A lookup misses exactly when no entry has the name.
proof fn lemma_lookup_none(md: Seq<DepInfoView>, n: Seq<char>)
    ensures
        (lookup_info(md, n) is None) <==> (forall|i: int|
            0 <= i < md.len() ==> (#[trigger] md[i]).name != n),
    decreases md.len(),
{
    if md.len() > 0 && md[0].name != n {
        lemma_lookup_none(md.drop_first(), n);
        assert(forall|i: int| 1 <= i < md.len() ==> md[i] == md.drop_first()[i - 1]);
    }
}

/// Appending an entry changes a lookup only where it missed before.
proof fn lemma_lookup_push(md: Seq<DepInfoView>, e: DepInfoView, n: Seq<char>)
    ensures
        lookup_info(md.push(e), n) == if lookup_info(md, n) is Some {
            lookup_info(md, n)
        } else if e.name == n {
            Some(e)
        } else {
            None::<DepInfoView>
        },
    decreases md.len(),
{
    if md.len() == 0 {
        assert(md.push(e)[0] == e);
        assert(md.push(e).len() == 1);
        assert(md.push(e).drop_first() =~= Seq::<DepInfoView>::empty());
        assert(lookup_info(Seq::<DepInfoView>::empty(), n) is None);
        assert(lookup_info(md.push(e), n) == if e.name == n {
            Some(e)
        } else {
            None::<DepInfoView>
        });
    } else {
        assert(md.push(e)[0] == md[0]);
        assert(md.push(e).drop_first() =~= md.drop_first().push(e));
        lemma_lookup_push(md.drop_first(), e, n);
        if md[0].name == n {
            assert(lookup_info(md.push(e), n) == Some(md[0]));
            assert(lookup_info(md, n) == Some(md[0]));
        } else {
            assert(lookup_info(md.push(e), n) == lookup_info(md.drop_first().push(e), n));
            assert(lookup_info(md, n) == lookup_info(md.drop_first(), n));
        }
    }
}

/// What the metadata cache answers after admitting fetched entries: for a
/// declared name, exactly the first fetched entry of that name; for a name
/// whose fetch failed (no entry) or that is not declared, nothing.
pub proof fn lemma_admit_lookup(c: ConfigView, entries: Seq<DepInfoView>, n: Seq<char>)
    ensures
        lookup_info(spec_admit(c, entries), n) == if config_has_dep(c, n) {
            lookup_info(entries, n)
        } else {
            None::<DepInfoView>
        },
    decreases entries.len(),
{
    if entries.len() > 0 {
        let rest = spec_admit(c, entries.drop_last());
        let e = entries.last();
        lemma_admit_lookup(c, entries.drop_last(), n);
        lemma_lookup_push(entries.drop_last(), e, n);
        assert(entries.drop_last().push(e) =~= entries);
        if config_has_dep(c, e.name) && lookup_info(rest, e.name) is None {
            lemma_lookup_push(rest, e, n);
        }
    }
}

/// Admitted metadata is well formed: every entry's name is declared, and no
/// name repeats.
proof fn lemma_admit_wf(c: ConfigView, entries: Seq<DepInfoView>)
    ensures
        forall|i: int|
            0 <= i < spec_admit(c, entries).len() ==> config_has_dep(
                c,
                (#[trigger] spec_admit(c, entries)[i]).name,
            ),
        forall|i: int, j: int|
            0 <= i < j < spec_admit(c, entries).len() ==> (#[trigger] spec_admit(c, entries)[i]).name
                != (#[trigger] spec_admit(c, entries)[j]).name,
    decreases entries.len(),
{
    if entries.len() > 0 {
        lemma_admit_wf(c, entries.drop_last());
        let rest = spec_admit(c, entries.drop_last());
        let e = entries.last();
        if config_has_dep(c, e.name) && lookup_info(rest, e.name) is None {
            lemma_lookup_none(rest, e.name);
            assert forall|i: int, j: int|
                0 <= i < j < spec_admit(c, entries).len() implies (#[trigger] spec_admit(
                c,
                entries,
            )[i]).name != (#[trigger] spec_admit(c, entries)[j]).name by {
                if j == rest.len() {
                    assert(rest[i].name != e.name);
                }
            }
        }
    }
}

/// Looks a name up in a vector of metadata entries.
fn has_info(v: &Vec<DepInfo>, name: &String) -> (r: bool)
    ensures
        r == (lookup_info(v@.map_values(|m: DepInfo| m@), name@) is Some),
{
    let ghost md = v@.map_values(|m: DepInfo| m@);
    let n = v.len();
    let mut i: usize = 0;
    proof {
        assert(md.skip(0) =~= md);
    }
    while i < n
        invariant
            0 <= i <= n,
            n == v@.len(),
            md == v@.map_values(|m: DepInfo| m@),
            lookup_info(md, name@) == lookup_info(md.skip(i as int), name@),
        decreases n - i,
    {
        proof {
            lemma_skip_succ(md, i as int);
        }
        if v[i].name.eq(name) {
            return true;
        }
        i = i + 1;
    }
    proof {
        assert(md.skip(n as int) =~= Seq::<DepInfoView>::empty());
    }
    false
}

/// Admits fetched entries in order, dropping undeclared names and repeats.
fn admit_entries(config: &Config, entries: Vec<DepInfo>) -> (r: Vec<DepInfo>)
    ensures
        r@.map_values(|m: DepInfo| m@) == spec_admit(
            config@,
            entries@.map_values(|m: DepInfo| m@),
        ),
{
    let ghost vin = entries@.map_values(|m: DepInfo| m@);
    let names = dep_names(config);
    proof {
        lemma_fetch_dedup(config@);
    }
    let mut rest = entries;
    let mut out: Vec<DepInfo> = Vec::new();
    let ghost mut i: int = 0;
    proof {
        assert(rest@.map_values(|m: DepInfo| m@) =~= vin.skip(0));
        assert(vin.take(0) =~= Seq::<DepInfoView>::empty());
        assert(out@.map_values(|m: DepInfo| m@) =~= spec_admit(config@, vin.take(0)));
    }
    while rest.len() > 0
        invariant
            0 <= i <= vin.len(),
            rest@.map_values(|m: DepInfo| m@) == vin.skip(i),
            out@.map_values(|m: DepInfo| m@) == spec_admit(config@, vin.take(i)),
            names@.map_values(|s: String| s@) == spec_dep_names(config@.groups),
            forall|n2: Seq<char>|
                spec_dep_names(config@.groups).contains(n2) <==> config_has_dep(config@, n2),
        decreases rest@.len(),
    {
        proof {
            assert(rest@.map_values(|m: DepInfo| m@).len() == rest@.len());
            assert(vin.skip(i).len() == vin.len() - i);
            lemma_skip_succ(vin, i);
            assert(rest@.map_values(|m: DepInfo| m@)[0] == rest@[0]@);
        }
        let v = rest.remove(0);
        proof {
            assert(v@ == vin[i]);
            assert(rest@.map_values(|m: DepInfo| m@) =~= vin.skip(i + 1));
            assert(vin.take(i + 1).drop_last() =~= vin.take(i));
            assert(vin.take(i + 1).last() == vin[i]);
        }
        let in_config = contains_string(&names, v.name());
        let present = has_info(&out, v.name());
        let ghost before = out@.map_values(|m: DepInfo| m@);
        if in_config && !present {
            out.push(v);
            proof {
                assert(out@.map_values(|m: DepInfo| m@) =~= before.push(vin[i]));
            }
        }
        proof {
            i = i + 1;
        }
    }
    proof {
        assert(vin.take(i) =~= vin);
    }
    out
}

impl Project {
    /// Builds a fresh project from a parsed manifest, a parsed lockfile and
    /// whatever metadata fetches succeeded. Fetched entries are admitted in
    /// order: per declared name, the first entry; entries for undeclared
    /// names are dropped. A name with no entry (its fetch failed) is simply
    /// absent, and every query about it answers unknown; nothing else is
    /// affected.
    pub fn assemble(config: Config, lockfile: Lockfile, fetched: Vec<DepInfo>) -> (r: Project)
        ensures
            r@.config == config@,
            r@.lockfile == lockfile@,
            r@.metadata == spec_admit(config@, fetched@.map_values(|m: DepInfo| m@)),
    {
        let metadata = admit_entries(&config, fetched);
        proof {
            lemma_admit_wf(config@, fetched@.map_values(|m: DepInfo| m@));
        }
        Project { config, lockfile, metadata }
    }

    /// The declared names that still lack cached metadata: what a refresh
    /// has to fetch, in order of first declaration.
    pub fn missing_dep_names(&self, config: &Config) -> (r: Vec<String>)
        ensures
            r@.map_values(|s: String| s@) == spec_missing(
                spec_dep_names(config@.groups),
                self@.metadata,
            ),
    {
        let all = dep_names(config);
        let ghost names = all@.map_values(|s: String| s@);
        let n = all.len();
        let mut out: Vec<String> = Vec::new();
        let mut i: usize = 0;
        proof {
            assert(names.take(0) =~= Seq::<Seq<char>>::empty());
            assert(out@.map_values(|s: String| s@) =~= spec_missing(
                names.take(0),
                self@.metadata,
            ));
        }
        while i < n
            invariant
                0 <= i <= n,
                n == all@.len(),
                names == all@.map_values(|s: String| s@),
                out@.map_values(|s: String| s@) == spec_missing(
                    names.take(i as int),
                    self@.metadata,
                ),
            decreases n - i,
        {
            proof {
                assert(names.take(i + 1).drop_last() =~= names.take(i as int));
                assert(names.take(i + 1).last() == names[i as int]);
                assert(names[i as int] == all@[i as int]@);
            }
            let nm = all[i].clone();
            let ghost before = out@.map_values(|s: String| s@);
            match self.find_info(&nm) {
                Some(_) => {},
                None => {
                    out.push(nm);
                    proof {
                        assert(out@.map_values(|s: String| s@) =~= before.push(names[i as int]));
                    }
                },
            }
            i = i + 1;
        }
        proof {
            assert(names.take(n as int) =~= names);
        }
        out
    }

    /// Builds the refreshed project a reparse yields: the freshly parsed
    /// manifest and lockfile, the old metadata cache carried over (entries
    /// for names no longer declared drop out), and the newly fetched entries
    /// admitted after it. Cached entries always win over fresh ones.
    pub fn reassemble(self, config: Config, lockfile: Lockfile, fetched: Vec<DepInfo>) -> (r:
        Project)
        ensures
            r@.config == config@,
            r@.lockfile == lockfile@,
            r@.metadata == spec_admit(
                config@,
                self@.metadata + fetched@.map_values(|m: DepInfo| m@),
            ),
    {
        let ghost olds = self@.metadata;
        let ghost news = fetched@.map_values(|m: DepInfo| m@);
        let Project { config: _, lockfile: _, metadata } = self;
        let mut entries = metadata;
        let mut incoming = fetched;
        entries.append(&mut incoming);
        proof {
            assert(entries@.map_values(|m: DepInfo| m@) =~= olds + news);
        }
        let metadata = admit_entries(&config, entries);
        proof {
            lemma_admit_wf(config@, olds + news);
        }
        Project { config, lockfile, metadata }
    }
}

/// The names of `names` that have no entry in `md`, in order.
pub open spec fn spec_missing(names: Seq<Seq<char>>, md: Seq<DepInfoView>) -> Seq<Seq<char>>
    decreases names.len(),
{
    if names.len() == 0 {
        names
    } else {
        let rest = spec_missing(names.drop_last(), md);
        if lookup_info(md, names.last()) is Some {
            rest
        } else {
            rest.push(names.last())
        }
    }
}

proof fn lemma_missing_all_cached(names: Seq<Seq<char>>, md: Seq<DepInfoView>)
    requires
        forall|k: int| 0 <= k < names.len() ==> lookup_info(md, #[trigger] names[k]) is Some,
    ensures
        spec_missing(names, md) == Seq::<Seq<char>>::empty(),
    decreases names.len(),
{
    if names.len() > 0 {
        assert(forall|k: int| 0 <= k < names.len() - 1 ==> names.drop_last()[k] == names[k]);
        lemma_missing_all_cached(names.drop_last(), md);
    }
}

/// With the manifest unchanged and every declared name already cached, a
/// reparse fetches nothing and carries the metadata over unchanged.
pub proof fn lemma_reparse_cached(c: ConfigView, olds: Seq<DepInfoView>)
    requires
        forall|i: int| 0 <= i < olds.len() ==> config_has_dep(c, (#[trigger] olds[i]).name),
        forall|i: int, j: int|
            0 <= i < j < olds.len() ==> (#[trigger] olds[i]).name != (#[trigger] olds[j]).name,
        forall|n: Seq<char>| config_has_dep(c, n) ==> lookup_info(olds, n) is Some,
    ensures
        spec_missing(spec_dep_names(c.groups), olds) == Seq::<Seq<char>>::empty(),
        spec_admit(c, olds) == olds,
    decreases olds.len(),
{
    lemma_fetch_dedup(c);
    assert forall|k: int|
        0 <= k < spec_dep_names(c.groups).len() implies lookup_info(
        olds,
        #[trigger] spec_dep_names(c.groups)[k],
    ) is Some by {
        assert(spec_dep_names(c.groups).contains(spec_dep_names(c.groups)[k]));
        assert(config_has_dep(c, spec_dep_names(c.groups)[k]));
    }
    lemma_missing_all_cached(spec_dep_names(c.groups), olds);
    if olds.len() > 0 {
        assert(forall|i: int| 0 <= i < olds.len() - 1 ==> olds.drop_last()[i] == olds[i]);
        assert forall|n: Seq<char>| config_has_dep(c, n) implies lookup_info(
            olds.drop_last(),
            n,
        ) is Some || n == olds.last().name by {
            if n != olds.last().name {
                assert(lookup_info(olds, n) is Some);
                lemma_lookup_push(olds.drop_last(), olds.last(), n);
                assert(olds.drop_last().push(olds.last()) =~= olds);
            }
        }
        lemma_reparse_cached_step(c, olds);
    }
}

/// The inductive step of `lemma_reparse_cached`'s second claim.
proof fn lemma_reparse_cached_step(c: ConfigView, olds: Seq<DepInfoView>)
    requires
        forall|i: int| 0 <= i < olds.len() ==> config_has_dep(c, (#[trigger] olds[i]).name),
        forall|i: int, j: int|
            0 <= i < j < olds.len() ==> (#[trigger] olds[i]).name != (#[trigger] olds[j]).name,
    ensures
        spec_admit(c, olds) == olds,
    decreases olds.len(),
{
    if olds.len() > 0 {
        assert(forall|i: int| 0 <= i < olds.len() - 1 ==> olds.drop_last()[i] == olds[i]);
        lemma_reparse_cached_step(c, olds.drop_last());
        let e = olds.last();
        lemma_lookup_none(olds.drop_last(), e.name);
        assert(lookup_info(spec_admit(c, olds.drop_last()), e.name) is None);
        assert(spec_admit(c, olds) =~= olds);
    }
}


// ---------------------------------------------------------------------------
// Group accessors
// ---------------------------------------------------------------------------
/// The character of one decimal digit.
pub open spec fn digit_char(d: int) -> char {
    if d == 0 {
        '0'
    } else if d == 1 {
        '1'
    } else if d == 2 {
        '2'
    } else if d == 3 {
        '3'
    } else if d == 4 {
        '4'
    } else if d == 5 {
        '5'
    } else if d == 6 {
        '6'
    } else if d == 7 {
        '7'
    } else if d == 8 {
        '8'
    } else {
        '9'
    }
}

/// The decimal digits of a non-negative number, most significant first.
pub open spec fn dec_digits(n: int) -> Seq<char>
    decreases n,
{
    if n < 10 {
        seq![digit_char(n)]
    } else {
        dec_digits(n / 10).push(digit_char(n % 10))
    }
}

/// Renders a number in decimal.
pub fn u64_to_string(n: u64) -> (r: String)
    ensures
        r@ == dec_digits(n as int),
    decreases n,
{
    proof {
        reveal_strlit("0");
        reveal_strlit("1");
        reveal_strlit("2");
        reveal_strlit("3");
        reveal_strlit("4");
        reveal_strlit("5");
        reveal_strlit("6");
        reveal_strlit("7");
        reveal_strlit("8");
        reveal_strlit("9");
    }
    let digit = n % 10;
    let ds: &str = if digit == 0 {
        "0"
    } else if digit == 1 {
        "1"
    } else if digit == 2 {
        "2"
    } else if digit == 3 {
        "3"
    } else if digit == 4 {
        "4"
    } else if digit == 5 {
        "5"
    } else if digit == 6 {
        "6"
    } else if digit == 7 {
        "7"
    } else if digit == 8 {
        "8"
    } else {
        "9"
    };
    proof {
        assert(ds@ =~= seq![digit_char((n % 10) as int)]);
    }
    if n < 10 {
        let r = ds.to_owned();
        proof {
            assert(r@ =~= dec_digits(n as int));
        }
        r
    } else {
        let mut s = u64_to_string(n / 10);
        s.append(ds);
        proof {
            assert(s@ =~= dec_digits(n as int));
        }
        s
    }
}

impl Project {
    /// One tab per dependency group, in declaration order; the label is the
    /// group's name with its dependency count in parentheses.
    pub fn get_groups(&self) -> (r: Vec<TabItem>)
        ensures
            r@.len() == self@.config.groups.len(),
            forall|i: int|
                0 <= i < r@.len() ==> (#[trigger] r@[i]).value@ == self@.config.groups[i].name
                    && r@[i].label@ == self@.config.groups[i].name + "("@ + dec_digits(
                    self@.config.groups[i].deps.len() as int,
                ) + ")"@,
    {
        proof {
            reveal_strlit("(");
            reveal_strlit(")");
        }
        let ghost groups = self@.config.groups;
        let n = self.config.groups.len();
        let mut out: Vec<TabItem> = Vec::new();
        let mut g: usize = 0;
        while g < n
            invariant
                0 <= g <= n,
                n == self.config.groups@.len(),
                groups == self@.config.groups,
                out@.len() == g,
                forall|i: int|
                    0 <= i < g ==> (#[trigger] out@[i]).value@ == groups[i].name && out@[i].label@
                        == groups[i].name + "("@ + dec_digits(groups[i].deps.len() as int) + ")"@,
            decreases n - g,
        {
            proof {
                reveal_strlit("(");
                reveal_strlit(")");
                assert(groups[g as int] == self.config.groups@[g as int]@);
                assert(groups[g as int].deps.len() == self.config.groups@[g as int].deps@.len());
            }
            let name = self.config.groups[g].name.clone();
            let count = self.config.groups[g].deps.len();
            let mut label = name.clone();
            label.append("(");
            let cs = u64_to_string(count as u64);
            label.append(cs.as_str());
            label.append(")");
            out.push(TabItem { value: name, label });
            g = g + 1;
        }
        out
    }

    /// The dependency names declared in a group, in declaration order, or
    /// nothing for an unknown group.
    pub fn get_deps_in_group(&self, group: &str) -> (r: Vec<String>)
        ensures
            r@.map_values(|s: String| s@) == match lookup_group(self@.config.groups, group@) {
                Some(g) => g.deps.map_values(|d: DepView| d.name),
                None => Seq::<Seq<char>>::empty(),
            },
    {
        let gkey = group.to_owned();
        let ghost groups = self@.config.groups;
        let n = self.config.groups.len();
        let mut i: usize = 0;
        proof {
            assert(groups.skip(0) =~= groups);
        }
        while i < n
            invariant
                0 <= i <= n,
                n == self.config.groups@.len(),
                groups == self@.config.groups,
                gkey@ == group@,
                lookup_group(groups, group@) == lookup_group(groups.skip(i as int), group@),
            decreases n - i,
        {
            proof {
                lemma_skip_succ(groups, i as int);
            }
            if self.config.groups[i].name.eq(&gkey) {
                let ghost gv = groups[i as int];
                let deps = &self.config.groups[i].deps;
                let m = deps.len();
                let mut out: Vec<String> = Vec::new();
                let mut d: usize = 0;
                proof {
                    assert(out@.map_values(|s: String| s@) =~= gv.deps.map_values(
                        |dp: DepView| dp.name,
                    ).take(0));
                }
                while d < m
                    invariant
                        0 <= d <= m,
                        m == deps@.len(),
                        gv == groups[i as int],
                        gv.deps == deps@.map_values(|dp: Dep| dp@),
                        out@.map_values(|s: String| s@) == gv.deps.map_values(
                            |dp: DepView| dp.name,
                        ).take(d as int),
                    decreases m - d,
                {
                    let ghost before = out@.map_values(|s: String| s@);
                    out.push(deps[d].name.clone());
                    proof {
                        assert(gv.deps[d as int] == deps@[d as int]@);
                        assert(out@.map_values(|s: String| s@) =~= before.push(
                            gv.deps[d as int].name,
                        ));
                        assert(gv.deps.map_values(|dp: DepView| dp.name).take(d + 1) =~= before.push(
                            gv.deps[d as int].name,
                        ));
                    }
                    d = d + 1;
                }
                proof {
                    assert(gv.deps.map_values(|dp: DepView| dp.name).take(m as int) =~= gv.deps
                        .map_values(|dp: DepView| dp.name));
                }
                return out;
            }
            i = i + 1;
        }
        proof {
            assert(groups.skip(n as int) =~= Seq::<GroupView>::empty());
        }
        let out: Vec<String> = Vec::new();
        proof {
            assert(out@.map_values(|s: String| s@) =~= Seq::<Seq<char>>::empty());
        }
        out
    }

    /// Picks the backend for a project root from the files present there,
    /// preferring the npm backend when both manifests exist.
    pub fn determine_kind(files: &crate::determinekind::RootFiles) -> (r: Option<ParserKind>)
        ensures
            r == if files.package_json {
                Some(ParserKind::JavascriptNpm)
            } else if files.cargo_toml {
                Some(ParserKind::RustCargo)
            } else {
                None::<ParserKind>
            },
    {
        if crate::determinekind::is_this_it(files, &ParserKind::JavascriptNpm) {
            Some(ParserKind::JavascriptNpm)
        } else if crate::determinekind::is_this_it(files, &ParserKind::RustCargo) {
            Some(ParserKind::RustCargo)
        } else {
            None
        }
    }
}


// ---------------------------------------------------------------------------
// Building groups from raw manifest entries
// ---------------------------------------------------------------------------
/// The dependency a raw manifest entry yields: the name, and the declared
/// range's text when it is present and parses.
pub open spec fn spec_dep_of(name: Seq<char>, req: Option<Seq<char>>) -> DepView {
    DepView {
        name,
        req: match req {
            Some(t) => if crate::version::req_parses(t) {
                Some(t)
            } else {
                None
            },
            None => None,
        },
    }
}

/// The views of a dependency vector's elements.
pub open spec fn dep_views_of(deps: Seq<Dep>) -> Seq<DepView> {
    deps.map_values(|d: Dep| d@)
}

/// The names of a dependency list.
pub open spec fn dep_names_of(deps: Seq<DepView>) -> Seq<Seq<char>> {
    deps.map_values(|d: DepView| d.name)
}

/// The names of raw entries.
pub open spec fn entry_names_of(es: Seq<(Seq<char>, Option<Seq<char>>)>) -> Seq<Seq<char>> {
    es.map_values(|e: (Seq<char>, Option<Seq<char>>)| e.0)
}

/// The dependencies raw entries yield, in order, the first entry of each
/// name kept.
pub open spec fn spec_build_deps(entries: Seq<(Seq<char>, Option<Seq<char>>)>) -> Seq<DepView>
    decreases entries.len(),
{
    if entries.len() == 0 {
        Seq::empty()
    } else {
        let rest = spec_build_deps(entries.drop_last());
        if entry_names_of(entries.drop_last()).contains(entries.last().0) {
            rest
        } else {
            rest.push(spec_dep_of(entries.last().0, entries.last().1))
        }
    }
}

/// The names of built dependencies are exactly the entry names.
proof fn lemma_build_deps_names(entries: Seq<(Seq<char>, Option<Seq<char>>)>)
    ensures
        forall|n: Seq<char>|
            #![trigger dep_names_of(spec_build_deps(entries)).contains(n)]
            dep_names_of(spec_build_deps(entries)).contains(n) <==> entry_names_of(
                entries,
            ).contains(n),
    decreases entries.len(),
{
    if entries.len() > 0 {
        lemma_build_deps_names(entries.drop_last());
        let rest = spec_build_deps(entries.drop_last());
        let restnames = dep_names_of(rest);
        let prevnames = entry_names_of(entries.drop_last());
        let allnames = entry_names_of(entries);
        let builtnames = dep_names_of(spec_build_deps(entries));
        assert(prevnames =~= allnames.drop_last());
        assert(allnames.last() == entries.last().0);
        assert forall|n: Seq<char>| builtnames.contains(n) <==> allnames.contains(n) by {
            if builtnames.contains(n) {
                let w = choose|w: int|
                    0 <= w < builtnames.len() && (#[trigger] builtnames[w]) == n;
                if w < restnames.len() {
                    assert(restnames[w] == n);
                    assert(restnames.contains(n));
                    assert(prevnames.contains(n));
                    let w2 = choose|w2: int|
                        0 <= w2 < prevnames.len() && (#[trigger] prevnames[w2]) == n;
                    assert(allnames[w2] == n);
                } else {
                    assert(n == entries.last().0);
                    assert(allnames[allnames.len() - 1] == n);
                }
                assert(allnames.contains(n));
            }
            if allnames.contains(n) {
                let w = choose|w: int| 0 <= w < allnames.len() && (#[trigger] allnames[w]) == n;
                if w < allnames.len() - 1 {
                    assert(prevnames[w] == n);
                    assert(prevnames.contains(n));
                    assert(restnames.contains(n));
                    let w2 = choose|w2: int|
                        0 <= w2 < restnames.len() && (#[trigger] restnames[w2]) == n;
                    assert(builtnames[w2] == n);
                } else {
                    assert(n == entries.last().0);
                    if prevnames.contains(n) {
                        assert(restnames.contains(n));
                        let w2 = choose|w2: int|
                            0 <= w2 < restnames.len() && (#[trigger] restnames[w2]) == n;
                        assert(builtnames[w2] == n);
                    } else {
                        assert(builtnames[builtnames.len() - 1] == n);
                    }
                }
                assert(builtnames.contains(n));
            }
        }
    }
}

/// The view of raw group entries.
pub open spec fn raw_entries_view(entries: Seq<(String, Option<String>)>) -> Seq<
    (Seq<char>, Option<Seq<char>>),
> {
    entries.map_values(|e: (String, Option<String>)| (e.0@, opt_string_view(e.1)))
}

/// Builds a group's dependencies from raw manifest entries: each name once
/// (the first entry wins), its range parsed, an unparsable range recorded
/// as absent.
pub fn build_deps(entries: &Vec<(String, Option<String>)>) -> (r: Vec<Dep>)
    ensures
        r@.map_values(|d: Dep| d@) == spec_build_deps(raw_entries_view(entries@)),
{
    let ghost ev = raw_entries_view(entries@);
    let n = entries.len();
    let mut out: Vec<Dep> = Vec::new();
    let mut i: usize = 0;
    proof {
        assert(ev.take(0) =~= Seq::<(Seq<char>, Option<Seq<char>>)>::empty());
        assert(dep_views_of(out@) =~= spec_build_deps(ev.take(0)));
        assert(dep_names_of(dep_views_of(out@)) =~= entry_names_of(ev.take(0)));
    }
    while i < n
        invariant
            0 <= i <= n,
            n == entries@.len(),
            ev == raw_entries_view(entries@),
            dep_views_of(out@) == spec_build_deps(ev.take(i as int)),
            forall|nm: Seq<char>|
                #![trigger dep_names_of(dep_views_of(out@)).contains(nm)]
                dep_names_of(dep_views_of(out@)).contains(nm) <==> entry_names_of(
                    ev.take(i as int),
                ).contains(nm),
        decreases n - i,
    {
        let ghost prefix = ev.take(i as int);
        proof {
            assert(ev.take(i + 1).drop_last() =~= prefix);
            assert(ev.take(i + 1).last() == ev[i as int]);
            assert(ev[i as int] == (entries@[i as int].0@, opt_string_view(entries@[i as int].1)));
        }
        let name = entries[i].0.clone();

        // Is the name already taken?
        let ghost vout = dep_views_of(out@);
        let m = out.len();
        let mut present = false;
        let mut t: usize = 0;
        while t < m
            invariant
                0 <= t <= m,
                m == out@.len(),
                vout == dep_views_of(out@),
                0 <= i < ev.len(),
                name@ == ev[i as int].0,
                present <==> exists|s: int| 0 <= s < t && (#[trigger] vout[s]).name == name@,
            decreases m - t,
        {
            proof {
                assert(vout[t as int] == out@[t as int]@);
            }
            if out[t].name.eq(&name) {
                present = true;
                proof {
                    assert(vout[t as int].name == name@);
                }
            }
            t = t + 1;
        }
        proof {
            let names = dep_names_of(vout);
            assert forall|s: int| 0 <= s < vout.len() implies (#[trigger] names[s]) == vout[s].name
                by {}
            if present {
                let s = choose|s: int| 0 <= s < m && (#[trigger] vout[s]).name == name@;
                assert(names[s] == name@);
                assert(names.contains(name@));
            } else {
                if names.contains(name@) {
                    let s = choose|s: int| 0 <= s < names.len() && (#[trigger] names[s]) == name@;
                    assert(vout[s].name == name@);
                }
            }
            assert(names.contains(name@) <==> entry_names_of(prefix).contains(name@));
            assert(present == entry_names_of(prefix).contains(name@));
        }

        let ghost before = dep_views_of(out@);
        if !present {
            let req = match &entries[i].1 {
                Some(text) => Requirement::parse(text.as_str()),
                None => None,
            };
            let dep = Dep { name, req };
            proof {
                assert(dep@ == spec_dep_of(ev[i as int].0, ev[i as int].1));
            }
            out.push(dep);
            proof {
                assert(dep_views_of(out@) =~= before.push(
                    spec_dep_of(ev[i as int].0, ev[i as int].1),
                ));
            }
        }
        proof {
            lemma_build_deps_names(ev.take(i + 1));
            assert(entry_names_of(ev.take(i + 1)) =~= entry_names_of(prefix).push(ev[i as int].0));
            assert forall|nm: Seq<char>|
                dep_names_of(dep_views_of(out@)).contains(nm) <==> entry_names_of(
                    ev.take(i + 1),
                ).contains(nm) by {
                assert(dep_views_of(out@) == spec_build_deps(ev.take(i + 1)));
            }
        }
        i = i + 1;
    }
    proof {
        assert(ev.take(n as int) =~= ev);
    }
    out
}


// ---------------------------------------------------------------------------
// Mutation dispatch
// ---------------------------------------------------------------------------
/// The manifest text after installing the candidate, by the active
/// backend's convention. `None` reports a failed edit; the caller writes
/// the file only on success, so a failure leaves it untouched.
pub fn install_dep(kind: &ParserKind, manifest: &str, dep: &crate::render::InstallCandidate) -> (r:
    Option<String>)
    ensures
        opt_string_view(r) == match kind {
            ParserKind::JavascriptNpm => crate::javascriptnpm::npm_install_text(
                manifest@,
                dep.kind@,
                dep.name@,
                dep.version@,
            ),
            ParserKind::RustCargo => crate::rustcargo::cargo_install_text(
                manifest@,
                dep.kind@,
                dep.name@,
                dep.version@,
            ),
        },
{
    match kind {
        ParserKind::JavascriptNpm => crate::javascriptnpm::JavascriptNpm::install_dep(
            dep,
            manifest,
        ),
        ParserKind::RustCargo => crate::rustcargo::RustCargo::install_dep(dep, manifest),
    }
}

/// The manifest text after removing a dependency from a group, by the
/// active backend's convention. `None` reports a failed edit; the caller
/// writes the file only on success, so a failure leaves it untouched.
pub fn delete_dep(kind: &ParserKind, manifest: &str, group: &str, name: &str) -> (r: Option<
    String,
>)
    ensures
        opt_string_view(r) == match kind {
            ParserKind::JavascriptNpm => crate::javascriptnpm::npm_delete_text(
                manifest@,
                group@,
                name@,
            ),
            ParserKind::RustCargo => crate::rustcargo::cargo_delete_text(manifest@, group@, name@),
        },
{
    match kind {
        ParserKind::JavascriptNpm => crate::javascriptnpm::JavascriptNpm::delete_dep(
            manifest,
            group,
            name,
        ),
        ParserKind::RustCargo => crate::rustcargo::RustCargo::delete_dep(manifest, group, name),
    }
}

impl Project {
    /// See the free function `install_dep`.
    pub fn install_dep(
        &self,
        kind: &ParserKind,
        manifest: &str,
        dep: &crate::render::InstallCandidate,
    ) -> (r: Option<String>)
        ensures
            opt_string_view(r) == match kind {
                ParserKind::JavascriptNpm => crate::javascriptnpm::npm_install_text(
                    manifest@,
                    dep.kind@,
                    dep.name@,
                    dep.version@,
                ),
                ParserKind::RustCargo => crate::rustcargo::cargo_install_text(
                    manifest@,
                    dep.kind@,
                    dep.name@,
                    dep.version@,
                ),
            },
    {
        install_dep(kind, manifest, dep)
    }

    /// See the free function `delete_dep`.
    pub fn delete_dep(&self, kind: &ParserKind, manifest: &str, group: &str, name: &str) -> (r:
        Option<String>)
        ensures
            opt_string_view(r) == match kind {
                ParserKind::JavascriptNpm => crate::javascriptnpm::npm_delete_text(
                    manifest@,
                    group@,
                    name@,
                ),
                ParserKind::RustCargo => crate::rustcargo::cargo_delete_text(
                    manifest@,
                    group@,
                    name@,
                ),
            },
    {
        delete_dep(kind, manifest, group, name)
    }
}

/// A dependency the lockfile does not mention always reads back as an
/// unknown current version; the query never fails on it.
pub proof fn lemma_absent_lock_version(entries: Seq<(Seq<char>, VersionView)>, n: Seq<char>)
    requires
        forall|i: int| 0 <= i < entries.len() ==> (#[trigger] entries[i]).0 != n,
    ensures
        lock_lookup(entries, n) is None,
    decreases entries.len(),
{
    if entries.len() > 0 {
        assert(forall|i: int| 1 <= i < entries.len() ==> entries[i] == entries.drop_first()[i - 1]);
        assert(forall|i: int|
            0 <= i < entries.drop_first().len() ==> (#[trigger] entries.drop_first()[i]) == entries[
                i + 1
            ]);
        lemma_absent_lock_version(entries.drop_first(), n);
    }
}

} // verus!
