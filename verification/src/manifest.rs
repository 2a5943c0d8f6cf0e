//! The typed model of package and workspace manifests, and how it is read
//! from a document.

use vstd::prelude::*;
use vstd::string::*;
use crate::error::Error;
use crate::text::{first_index, lemma_first_index, lemma_first_index_is};
use crate::value::{entry_value, lookup, Value, ValueEntry};
use crate::version::{fault_text, parse_spec, Version, VersionFault, VersionView};

verus! {

/// What stands under `version` in a dependency table.
#[derive(Debug)]
pub enum Pin {
    Text(String),
    /// Something that is no string.
    NotText,
}

/// A dependency written as a table.
#[derive(Debug)]
pub struct DependencyTable {
    pub version: Option<Pin>,
    /// Whether the table has a `workspace` key.
    pub workspace: bool,
    /// Whether the table has a `path` key.
    pub path: bool,
    /// Whether the table has a `git` key.
    pub git: bool,
}

/// How a manifest declares one dependency.
#[derive(Debug)]
pub enum Dependency {
    /// A bare version string.
    Pinned(String),
    Table(DependencyTable),
    /// Neither a string nor a table.
    Other,
}

/// A dependency under its name.
#[derive(Debug)]
pub struct Entry {
    pub name: String,
    pub dependency: Dependency,
}

/// The dependencies of one manifest; no name occurs twice.
pub type Dependencies = Vec<Entry>;

/// The version that a package declares for itself.
#[derive(Debug)]
pub enum PackageVersion {
    Text(String),
    /// The version is inherited from the workspace.
    Workspace,
    Other,
}

/// The `package` table of a package manifest.
#[derive(Debug)]
pub struct Package {
    pub name: String,
    pub version: PackageVersion,
    /// `Some(false)` keeps the package from being published.
    pub publish: Option<bool>,
}

/// The manifest of one package.
#[derive(Debug)]
pub struct Crate {
    pub file: String,
    pub folder: String,
    pub toml: String,
    pub package: Package,
    pub dependencies: Dependencies,
}

/// What the members of a workspace share: its version.
#[derive(Debug)]
pub struct WorkspacePackage {
    pub version: String,
}

/// The `workspace` table of a workspace manifest.
#[derive(Debug)]
pub struct Workspace {
    pub members: Vec<String>,
    pub package: WorkspacePackage,
    pub dependencies: Dependencies,
}

/// The manifest of a workspace.
#[derive(Debug)]
pub struct Manifest {
    pub file: String,
    pub toml: String,
    pub workspace: Workspace,
}

/// Where a package is built for the web.
#[derive(Debug, Clone, Copy, PartialEq, Eq, Structural)]
pub enum WasmTargetPlatform {
    Web,
    NodeJs,
}

/// One platform that a package is built for, and where the result goes.
#[derive(Debug)]
pub struct WasmTarget {
    pub target: WasmTargetPlatform,
    pub out_dir: String,
}

/// How a package is built for the web.
#[derive(Debug)]
pub struct WasmMetadata {
    pub targets: Vec<WasmTarget>,
    pub folder: Option<String>,
    pub docs: Option<String>,
}

/// How the binary of a package is built.
#[derive(Debug)]
pub struct BuildMetadata {
    pub folder: Option<String>,
}

/// What a package says of how it is built.
#[derive(Debug)]
pub struct Metadata {
    pub wasm: Option<WasmMetadata>,
    pub build: Option<BuildMetadata>,
}

/// Where the manifest is to be looked for.
#[derive(Debug)]
pub enum Location {
    /// In the current directory.
    Here,
    /// At this path below the home directory.
    Home(String),
    /// At this path, from the current directory where it is relative.
    Given(String),
}

impl WasmTargetPlatform {
    pub open spec fn name(self) -> Seq<char> {
        match self {
            WasmTargetPlatform::Web => "web"@,
            WasmTargetPlatform::NodeJs => "nodejs"@,
        }
    }

    /// The name of the platform as `wasm-pack` takes it.
    pub fn to_string(&self) -> (r: String)
        ensures
            r@ == self.name(),
    {
        match self {
            WasmTargetPlatform::Web => String::from_str("web"),
            WasmTargetPlatform::NodeJs => String::from_str("nodejs"),
        }
    }
}

/// The value under `package.metadata.emanate` of a manifest document.
pub open spec fn emanate_of(table: Value) -> Option<Value> {
    match table.field("package"@) {
        Some(Value::Table(package)) => match lookup(package@, "metadata"@) {
            Some(Value::Table(metadata)) => lookup(metadata@, "emanate"@),
            _ => None,
        },
        _ => None,
    }
}

/// Where the manifest is to be looked for, given what the command line
/// says: a path that begins with `~/` is below the home directory.
pub fn locate(location: Option<&str>) -> (r: Location)
    ensures
        match location {
            None => r is Here,
            Some(s) => if s@.len() >= 2 && s@[0] == '~' && s@[1] == '/' {
                r matches Location::Home(rest) && rest@ == s@.skip(2)
            } else {
                r matches Location::Given(path) && path@ == s@
            },
        },
{
    match location {
        None => Location::Here,
        Some(s) => {
            let n = s.unicode_len();
            if n >= 2 && s.get_char(0) == '~' && s.get_char(1) == '/' {
                let rest = s.substring_char(2, n);
                assert(s@.subrange(2, n as int) =~= s@.skip(2));
                Location::Home(String::from_str(rest))
            } else {
                Location::Given(String::from_str(s))
            }
        },
    }
}

/// The names of `deps`, in order.
pub open spec fn names(deps: Seq<Entry>) -> Seq<Seq<char>> {
    Seq::new(deps.len(), |i: int| deps[i].name@)
}

/// Whether no text occurs twice in `s`.
pub open spec fn distinct(s: Seq<Seq<char>>) -> bool {
    forall|i: int, j: int| 0 <= i < j < s.len() ==> s[i] != s[j]
}

/// The dependency that a document value declares.
pub open spec fn dependency_of(v: Value) -> Dependency {
    match v {
        Value::String(s) => Dependency::Pinned(s),
        Value::Table(t) => Dependency::Table(
            DependencyTable {
                version: match lookup(t@, "version"@) {
                    Some(Value::String(s)) => Some(Pin::Text(s)),
                    Some(_) => Some(Pin::NotText),
                    None => None,
                },
                workspace: lookup(t@, "workspace"@) is Some,
                path: lookup(t@, "path"@) is Some,
                git: lookup(t@, "git"@) is Some,
            },
        ),
        _ => Dependency::Other,
    }
}

/// The entries of a dependency table, each read as a dependency.
pub open spec fn dependencies_of(entries: Seq<ValueEntry>) -> Seq<Entry> {
    Seq::new(
        entries.len(),
        |i: int| Entry { name: entries[i].key, dependency: dependency_of(entries[i].value) },
    )
}

/// `deps` with `e` in the place of the entry of the same name, or at the end
/// where there is none.
pub open spec fn put(deps: Seq<Entry>, e: Entry) -> Seq<Entry> {
    let i = first_index(names(deps), e.name@);
    if 0 <= i < deps.len() {
        deps.update(i, e)
    } else {
        deps.push(e)
    }
}

/// `deps` after each entry of `extra` was put into it, in order.
pub open spec fn put_all(deps: Seq<Entry>, extra: Seq<Entry>) -> Seq<Entry>
    decreases extra.len(),
{
    if extra.len() == 0 {
        deps
    } else {
        put(put_all(deps, extra.drop_last()), extra.last())
    }
}

/// `deps` after the `dependencies` tables among `cfg` were put into it.
pub open spec fn with_cfg(deps: Seq<Entry>, cfg: Seq<ValueEntry>) -> Seq<Entry>
    decreases cfg.len(),
{
    if cfg.len() == 0 {
        deps
    } else {
        let before = with_cfg(deps, cfg.drop_last());
        match cfg.last().value {
            Value::Table(t) => if cfg.last().key@ == "dependencies"@ {
                put_all(before, dependencies_of(t@))
            } else {
                before
            },
            _ => before,
        }
    }
}

/// `deps` after the dependencies of every target in `targets` were put into
/// it.
pub open spec fn with_targets(deps: Seq<Entry>, targets: Seq<ValueEntry>) -> Seq<Entry>
    decreases targets.len(),
{
    if targets.len() == 0 {
        deps
    } else {
        let before = with_targets(deps, targets.drop_last());
        match targets.last().value {
            Value::Table(cfg) => with_cfg(before, cfg@),
            _ => before,
        }
    }
}

/// The message for a field that is required and missing.
pub open spec fn missing_field(key: Seq<char>) -> Seq<char> {
    "missing field `"@ + key + "`"@
}

/// The message for a field that holds a value of the wrong type.
pub open spec fn invalid_type(key: Seq<char>) -> Seq<char> {
    "invalid type for `"@ + key + "`"@
}

/// The table under `key`; the message of the fault where there is none.
pub open spec fn table_field(entries: Seq<ValueEntry>, key: Seq<char>) -> Result<
    Seq<ValueEntry>,
    Seq<char>,
> {
    match lookup(entries, key) {
        None => Err(missing_field(key)),
        Some(Value::Table(t)) => Ok(t@),
        Some(_) => Err(invalid_type(key)),
    }
}

/// The string under `key`; the message of the fault where there is none.
pub open spec fn string_field(entries: Seq<ValueEntry>, key: Seq<char>) -> Result<
    String,
    Seq<char>,
> {
    match lookup(entries, key) {
        None => Err(missing_field(key)),
        Some(Value::String(s)) => Ok(s),
        Some(_) => Err(invalid_type(key)),
    }
}

/// The truth value under `key`, if the key is there.
pub open spec fn bool_field(entries: Seq<ValueEntry>, key: Seq<char>) -> Result<
    Option<bool>,
    Seq<char>,
> {
    match lookup(entries, key) {
        None => Ok(None),
        Some(Value::Boolean(b)) => Ok(Some(b)),
        Some(_) => Err(invalid_type(key)),
    }
}

pub open spec fn is_string(v: Value) -> bool {
    v is String
}

pub open spec fn all_strings(items: Seq<Value>) -> bool {
    forall|i: int| 0 <= i < items.len() ==> is_string(#[trigger] items[i])
}

/// The strings of the array under `key`.
pub open spec fn strings_field(entries: Seq<ValueEntry>, key: Seq<char>) -> Result<
    Seq<String>,
    Seq<char>,
> {
    match lookup(entries, key) {
        None => Err(missing_field(key)),
        Some(Value::Array(items)) => if all_strings(items@) {
            Ok(Seq::new(items@.len(), |i: int| items@[i]->String_0))
        } else {
            Err(invalid_type(key))
        },
        Some(_) => Err(invalid_type(key)),
    }
}

/// The version that a package declares: a string, or a table whose
/// `workspace` entry is `true`.
pub open spec fn package_version_of(v: Value) -> PackageVersion {
    match v {
        Value::String(s) => PackageVersion::Text(s),
        Value::Table(t) => if lookup(t@, "workspace"@) == Some(Value::Boolean(true)) {
            PackageVersion::Workspace
        } else {
            PackageVersion::Other
        },
        _ => PackageVersion::Other,
    }
}

/// The `package` table of a package manifest, read.
pub open spec fn package_of(root: Seq<ValueEntry>) -> Result<Package, Seq<char>> {
    match table_field(root, "package"@) {
        Err(m) => Err(m),
        Ok(p) => match string_field(p, "name"@) {
            Err(m) => Err(m),
            Ok(name) => match lookup(p, "version"@) {
                None => Err(missing_field("version"@)),
                Some(v) => match bool_field(p, "publish"@) {
                    Err(m) => Err(m),
                    Ok(publish) => Ok(Package { name, version: package_version_of(v), publish }),
                },
            },
        },
    }
}

/// The dependencies of a package manifest: its `dependencies` table, then
/// those of each target, a later entry taking the place of an earlier one of
/// the same name.
pub open spec fn crate_dependencies(root: Seq<ValueEntry>) -> Result<Seq<Entry>, Seq<char>> {
    match table_field(root, "dependencies"@) {
        Err(m) => Err(m),
        Ok(d) => {
            let base = put_all(Seq::<Entry>::empty(), dependencies_of(d));
            match lookup(root, "target"@) {
                Some(Value::Table(targets)) => Ok(with_targets(base, targets@)),
                _ => Ok(base),
            }
        },
    }
}

/// What the `workspace` table of a workspace manifest holds.
pub struct WorkspaceView {
    pub members: Seq<String>,
    pub version: String,
    pub dependencies: Seq<Entry>,
}

impl View for Workspace {
    type V = WorkspaceView;

    open spec fn view(&self) -> WorkspaceView {
        WorkspaceView {
            members: self.members@,
            version: self.package.version,
            dependencies: self.dependencies@,
        }
    }
}

/// The `workspace` table of a workspace manifest, read.
pub open spec fn workspace_of(root: Seq<ValueEntry>) -> Result<WorkspaceView, Seq<char>> {
    match table_field(root, "workspace"@) {
        Err(m) => Err(m),
        Ok(w) => match strings_field(w, "members"@) {
            Err(m) => Err(m),
            Ok(members) => match table_field(w, "package"@) {
                Err(m) => Err(m),
                Ok(p) => match string_field(p, "version"@) {
                    Err(m) => Err(m),
                    Ok(version) => match table_field(w, "dependencies"@) {
                        Err(m) => Err(m),
                        Ok(d) => Ok(
                            WorkspaceView {
                                members,
                                version,
                                dependencies: put_all(Seq::<Entry>::empty(), dependencies_of(d)),
                            },
                        ),
                    },
                },
            },
        },
    }
}

/// The message of the first fault in a package manifest, if it has one.
pub open spec fn crate_fault(table: Value) -> Option<Seq<char>> {
    match table {
        Value::Table(root) => match package_of(root@) {
            Err(m) => Some(m),
            Ok(_) => match crate_dependencies(root@) {
                Err(m) => Some(m),
                Ok(_) => None,
            },
        },
        _ => Some(invalid_type("document"@)),
    }
}

/// The message of the first fault in a workspace manifest, if it has one.
pub open spec fn manifest_fault(table: Value) -> Option<Seq<char>> {
    match table {
        Value::Table(root) => match workspace_of(root@) {
            Err(m) => Some(m),
            Ok(_) => None,
        },
        _ => Some(invalid_type("document"@)),
    }
}

/// The version that a dependency pins, if its text is a version.
pub open spec fn pinned_text(d: Dependency) -> Option<Seq<char>> {
    match d {
        Dependency::Pinned(s) => Some(s@),
        Dependency::Table(t) => match t.version {
            Some(Pin::Text(s)) => Some(s@),
            _ => None,
        },
        Dependency::Other => None,
    }
}

/// What [`Dependency::version`] returns for `d`: the version that its text
/// denotes, or the error that says why it has none.
pub open spec fn version_outcome(d: Dependency, r: Result<Version, Error>) -> bool {
    match pinned_text(d) {
        Some(s) => match r {
            Ok(v) => parse_spec(s) == Ok::<VersionView, VersionFault>(v@),
            Err(e) => parse_spec(s) matches Err(f) && e matches Error::String(m) && m@
                == fault_text(f, s),
        },
        None => match d {
            Dependency::Table(t) => if t.version is Some {
                r matches Err(Error::String(m)) && m@ == "version is not a string"@
            } else if t.workspace {
                r matches Err(Error::WorkspaceCrate)
            } else if t.path {
                r matches Err(Error::RelativeCrate)
            } else {
                r matches Err(Error::String(m)) && m@ == "dependency is missing version property"@
            },
            _ => r matches Err(Error::String(m)) && m@ == "dependency is not a string or a table"@,
        },
    }
}

/// Putting an entry keeps the names distinct.
pub proof fn lemma_put_distinct(deps: Seq<Entry>, e: Entry)
    requires
        distinct(names(deps)),
    ensures
        distinct(names(put(deps, e))),
{
    lemma_first_index(names(deps), e.name@);
    let i = first_index(names(deps), e.name@);
    let after = put(deps, e);
    if 0 <= i < deps.len() {
        assert(names(after) =~= names(deps));
    } else {
        assert(names(after) =~= names(deps).push(e.name@));
    }
}

/// Putting entries keeps the names distinct.
pub proof fn lemma_put_all_distinct(deps: Seq<Entry>, extra: Seq<Entry>)
    requires
        distinct(names(deps)),
    ensures
        distinct(names(put_all(deps, extra))),
    decreases extra.len(),
{
    if extra.len() > 0 {
        lemma_put_all_distinct(deps, extra.drop_last());
        lemma_put_distinct(put_all(deps, extra.drop_last()), extra.last());
    }
}

/// Merging the dependencies of a target keeps the names distinct.
pub proof fn lemma_with_cfg_distinct(deps: Seq<Entry>, cfg: Seq<ValueEntry>)
    requires
        distinct(names(deps)),
    ensures
        distinct(names(with_cfg(deps, cfg))),
    decreases cfg.len(),
{
    if cfg.len() > 0 {
        lemma_with_cfg_distinct(deps, cfg.drop_last());
        let before = with_cfg(deps, cfg.drop_last());
        match cfg.last().value {
            Value::Table(t) => {
                lemma_put_all_distinct(before, dependencies_of(t@));
            },
            _ => {},
        }
    }
}

/// Merging the dependencies of all targets keeps the names distinct.
pub proof fn lemma_with_targets_distinct(deps: Seq<Entry>, targets: Seq<ValueEntry>)
    requires
        distinct(names(deps)),
    ensures
        distinct(names(with_targets(deps, targets))),
    decreases targets.len(),
{
    if targets.len() > 0 {
        lemma_with_targets_distinct(deps, targets.drop_last());
        let before = with_targets(deps, targets.drop_last());
        match targets.last().value {
            Value::Table(cfg) => {
                lemma_with_cfg_distinct(before, cfg@);
            },
            _ => {},
        }
    }
}

fn missing(key: &str) -> (e: Error)
    ensures
        e matches Error::Toml(m) && m@ == missing_field(key@),
{
    let mut m = String::from_str("missing field `");
    m.append(key);
    m.append("`");
    Error::Toml(m)
}

fn invalid(key: &str) -> (e: Error)
    ensures
        e matches Error::Toml(m) && m@ == invalid_type(key@),
{
    let mut m = String::from_str("invalid type for `");
    m.append(key);
    m.append("`");
    Error::Toml(m)
}

/// The table under `key`.
pub fn get_table<'a>(entries: &'a Vec<ValueEntry>, key: &str) -> (r: Result<
    &'a Vec<ValueEntry>,
    Error,
>)
    ensures
        match r {
            Ok(t) => table_field(entries@, key@) matches Ok(x) && x == t@,
            Err(e) => e matches Error::Toml(m) && table_field(entries@, key@) matches Err(x) && x
                == m@,
        },
{
    match entry_value(entries, key) {
        None => Err(missing(key)),
        Some(Value::Table(t)) => Ok(t),
        Some(_) => Err(invalid(key)),
    }
}

/// The string under `key`.
pub fn get_string(entries: &Vec<ValueEntry>, key: &str) -> (r: Result<String, Error>)
    ensures
        match r {
            Ok(s) => string_field(entries@, key@) matches Ok(x) && x == s,
            Err(e) => e matches Error::Toml(m) && string_field(entries@, key@) matches Err(x) && x
                == m@,
        },
{
    match entry_value(entries, key) {
        None => Err(missing(key)),
        Some(Value::String(s)) => Ok(s.clone()),
        Some(_) => Err(invalid(key)),
    }
}

/// The truth value under `key`, if the key is there.
pub fn get_bool(entries: &Vec<ValueEntry>, key: &str) -> (r: Result<Option<bool>, Error>)
    ensures
        match r {
            Ok(b) => bool_field(entries@, key@) matches Ok(x) && x == b,
            Err(e) => e matches Error::Toml(m) && bool_field(entries@, key@) matches Err(x) && x
                == m@,
        },
{
    match entry_value(entries, key) {
        None => Ok(None),
        Some(Value::Boolean(b)) => Ok(Some(*b)),
        Some(_) => Err(invalid(key)),
    }
}

/// The strings of the array under `key`.
pub fn get_strings(entries: &Vec<ValueEntry>, key: &str) -> (r: Result<Vec<String>, Error>)
    ensures
        match r {
            Ok(v) => strings_field(entries@, key@) matches Ok(x) && x == v@,
            Err(e) => e matches Error::Toml(m) && strings_field(entries@, key@) matches Err(x)
                && x == m@,
        },
{
    match entry_value(entries, key) {
        None => Err(missing(key)),
        Some(Value::Array(items)) => {
            let mut out: Vec<String> = Vec::new();
            let mut i: usize = 0;
            while i < items.len()
                invariant
                    i <= items.len(),
                    out@.len() == i,
                    lookup(entries@, key@) == Some(Value::Array(*items)),
                    forall|j: int| 0 <= j < i ==> is_string(#[trigger] items@[j]),
                    forall|j: int| 0 <= j < i ==> out@[j] == items@[j]->String_0,
                decreases items.len() - i,
            {
                match &items[i] {
                    Value::String(s) => {
                        out.push(s.clone());
                    },
                    _ => {
                        assert(!is_string(items@[i as int]));
                        return Err(invalid(key));
                    },
                }
                i = i + 1;
            }
            assert(out@ =~= Seq::new(items@.len(), |i: int| items@[i]->String_0));
            Ok(out)
        },
        Some(_) => Err(invalid(key)),
    }
}

/// Position of the first entry of `deps` under `name`.
pub fn find_dependency(deps: &Vec<Entry>, name: &String) -> (r: Option<usize>)
    ensures
        match r {
            Some(i) => i < deps.len() && first_index(names(deps@), name@) == i,
            None => first_index(names(deps@), name@) == deps.len(),
        },
{
    let mut i: usize = 0;
    while i < deps.len()
        invariant
            i <= deps.len(),
            forall|j: int| 0 <= j < i ==> names(deps@)[j] != name@,
        decreases deps.len() - i,
    {
        if deps[i].name == *name {
            proof {
                lemma_first_index_is(names(deps@), name@, i as int);
            }
            return Some(i);
        }
        i = i + 1;
    }
    proof {
        lemma_first_index_is(names(deps@), name@, i as int);
    }
    None
}

/// Puts `e` into `deps`: in the place of the entry of the same name, or at
/// the end where there is none.
pub fn put_entry(deps: &mut Vec<Entry>, e: Entry)
    ensures
        final(deps)@ == put(old(deps)@, e),
{
    let mut i: usize = 0;
    while i < deps.len()
        invariant
            i <= deps.len(),
            *deps == *old(deps),
            forall|j: int| 0 <= j < i ==> names(deps@)[j] != e.name@,
        decreases deps.len() - i,
    {
        if deps[i].name == e.name {
            proof {
                lemma_first_index_is(names(deps@), e.name@, i as int);
            }
            deps.set(i, e);
            return ;
        }
        i = i + 1;
    }
    proof {
        lemma_first_index_is(names(deps@), e.name@, i as int);
    }
    deps.push(e);
}

/// Puts every entry of a dependency table into `deps`, in order.
pub fn put_table(deps: &mut Vec<Entry>, table: &Vec<ValueEntry>)
    ensures
        final(deps)@ == put_all(old(deps)@, dependencies_of(table@)),
{
    let ghost all = dependencies_of(table@);
    let mut i: usize = 0;
    assert(all.take(0) =~= Seq::<Entry>::empty());
    while i < table.len()
        invariant
            i <= table.len(),
            all == dependencies_of(table@),
            deps@ == put_all(old(deps)@, all.take(i as int)),
        decreases table.len() - i,
    {
        let e = Entry { name: table[i].key.clone(), dependency: Dependency::read(&table[i].value) };
        proof {
            assert(all.take(i + 1).drop_last() =~= all.take(i as int));
            assert(all.take(i + 1).last() == e);
        }
        put_entry(deps, e);
        i = i + 1;
    }
    assert(all.take(table.len() as int) =~= all);
}

fn put_cfg(deps: &mut Vec<Entry>, cfg: &Vec<ValueEntry>)
    ensures
        final(deps)@ == with_cfg(old(deps)@, cfg@),
{
    let mut i: usize = 0;
    assert(cfg@.take(0) =~= Seq::<ValueEntry>::empty());
    while i < cfg.len()
        invariant
            i <= cfg.len(),
            deps@ == with_cfg(old(deps)@, cfg@.take(i as int)),
        decreases cfg.len() - i,
    {
        proof {
            assert(cfg@.take(i + 1).drop_last() =~= cfg@.take(i as int));
            assert(cfg@.take(i + 1).last() == cfg@[i as int]);
        }
        match &cfg[i].value {
            Value::Table(t) => {
                if crate::text::same_text(cfg[i].key.as_str(), "dependencies") {
                    put_table(deps, t);
                }
            },
            _ => {},
        }
        i = i + 1;
    }
    assert(cfg@.take(cfg.len() as int) =~= cfg@);
}

fn put_targets(deps: &mut Vec<Entry>, targets: &Vec<ValueEntry>)
    ensures
        final(deps)@ == with_targets(old(deps)@, targets@),
{
    let mut i: usize = 0;
    assert(targets@.take(0) =~= Seq::<ValueEntry>::empty());
    while i < targets.len()
        invariant
            i <= targets.len(),
            deps@ == with_targets(old(deps)@, targets@.take(i as int)),
        decreases targets.len() - i,
    {
        proof {
            assert(targets@.take(i + 1).drop_last() =~= targets@.take(i as int));
            assert(targets@.take(i + 1).last() == targets@[i as int]);
        }
        match &targets[i].value {
            Value::Table(cfg) => {
                put_cfg(deps, cfg);
            },
            _ => {},
        }
        i = i + 1;
    }
    assert(targets@.take(targets.len() as int) =~= targets@);
}

impl Dependency {
    /// Reads a dependency from the value that declares it.
    pub fn read(v: &Value) -> (d: Dependency)
        ensures
            d == dependency_of(*v),
    {
        match v {
            Value::String(s) => Dependency::Pinned(s.clone()),
            Value::Table(t) => {
                let version = match entry_value(t, "version") {
                    Some(Value::String(s)) => Some(Pin::Text(s.clone())),
                    Some(_) => Some(Pin::NotText),
                    None => None,
                };
                let workspace = entry_value(t, "workspace").is_some();
                let path = entry_value(t, "path").is_some();
                let git = entry_value(t, "git").is_some();
                Dependency::Table(DependencyTable { version, workspace, path, git })
            },
            _ => Dependency::Other,
        }
    }

    /// `Some` where the dependency is a table that names a git repository.
    pub fn git(&self) -> (r: Option<()>)
        ensures
            r is Some <==> (*self matches Dependency::Table(t) && t.git),
    {
        match self {
            Dependency::Table(t) => if t.git {
                Some(())
            } else {
                None
            },
            _ => None,
        }
    }

    /// The version that the dependency pins.
    pub fn version(&self) -> (r: Result<Version, Error>)
        ensures
            version_outcome(*self, r),
    {
        match self {
            Dependency::Pinned(s) => parse_pinned(s),
            Dependency::Table(t) => match &t.version {
                Some(Pin::Text(s)) => parse_pinned(s),
                Some(Pin::NotText) => Err(Error::String(String::from_str("version is not a string"))),
                None => if t.workspace {
                    Err(Error::WorkspaceCrate)
                } else if t.path {
                    Err(Error::RelativeCrate)
                } else {
                    Err(Error::String(String::from_str("dependency is missing version property")))
                },
            },
            Dependency::Other => Err(
                Error::String(String::from_str("dependency is not a string or a table")),
            ),
        }
    }
}

/// Reads the version that `s` pins; a fault is reported in words.
fn parse_pinned(s: &String) -> (r: Result<Version, Error>)
    ensures
        match r {
            Ok(v) => parse_spec(s@) == Ok::<VersionView, VersionFault>(v@),
            Err(e) => parse_spec(s@) matches Err(f) && e matches Error::String(m) && m@
                == fault_text(f, s@),
        },
{
    match Version::parse(s.as_str()) {
        Ok(v) => Ok(v),
        Err(e) => {
            proof {
                crate::version::lemma_fault_text(e, parse_spec(s@)->Err_0, s@);
            }
            Err(Error::String(e.message()))
        },
    }
}

impl Package {
    /// Whether the package may be published: it may unless it says `false`.
    pub open spec fn publishable_spec(self) -> bool {
        self.publish != Some(false)
    }

    /// Whether the package may be published.
    pub fn publishable(&self) -> (r: bool)
        ensures
            r == self.publishable_spec(),
    {
        match self.publish {
            Some(b) => b,
            None => true,
        }
    }

    fn read(root: &Vec<ValueEntry>) -> (r: Result<Package, Error>)
        ensures
            match r {
                Ok(p) => package_of(root@) matches Ok(x) && x == p,
                Err(e) => e matches Error::Toml(m) && package_of(root@) matches Err(x) && x == m@,
            },
    {
        let p = match get_table(root, "package") {
            Ok(p) => p,
            Err(e) => {
                return Err(e);
            },
        };
        let name = match get_string(p, "name") {
            Ok(s) => s,
            Err(e) => {
                return Err(e);
            },
        };
        let version = match entry_value(p, "version") {
            None => {
                return Err(missing("version"));
            },
            Some(Value::String(s)) => PackageVersion::Text(s.clone()),
            Some(Value::Table(t)) => match entry_value(t, "workspace") {
                Some(Value::Boolean(true)) => PackageVersion::Workspace,
                _ => PackageVersion::Other,
            },
            Some(_) => PackageVersion::Other,
        };
        let publish = match get_bool(p, "publish") {
            Ok(b) => b,
            Err(e) => {
                return Err(e);
            },
        };
        Ok(Package { name, version, publish })
    }
}

impl Crate {
    /// Reads the manifest of one package from its document.
    ///
    /// `file`, `folder` and `toml` are kept as they are given: the path of
    /// the manifest, the directory that holds it, and its text.
    pub fn load(file: String, folder: String, toml: String, table: &Value) -> (r: Result<
        Crate,
        Error,
    >)
        ensures
            match r {
                Ok(c) => {
                    &&& *table matches Value::Table(root)
                    &&& package_of(root@) matches Ok(p)
                    &&& crate_dependencies(root@) matches Ok(d)
                    &&& c.package == p
                    &&& c.dependencies@ == d
                    &&& c.file == file
                    &&& c.folder == folder
                    &&& c.toml == toml
                    &&& distinct(names(c.dependencies@))
                },
                Err(e) => e matches Error::Toml(m) && crate_fault(*table) == Some(m@),
            },
    {
        let root = match table {
            Value::Table(root) => root,
            _ => {
                return Err(invalid("document"));
            },
        };
        let package = match Package::read(root) {
            Ok(p) => p,
            Err(e) => {
                return Err(e);
            },
        };
        let d = match get_table(root, "dependencies") {
            Ok(d) => d,
            Err(e) => {
                return Err(e);
            },
        };
        let mut dependencies: Vec<Entry> = Vec::new();
        put_table(&mut dependencies, d);
        proof {
            lemma_put_all_distinct(Seq::<Entry>::empty(), dependencies_of(d@));
        }
        match entry_value(root, "target") {
            Some(Value::Table(targets)) => {
                proof {
                    lemma_with_targets_distinct(dependencies@, targets@);
                }
                put_targets(&mut dependencies, targets);
            },
            _ => {},
        }
        Ok(Crate { file, folder, toml, package, dependencies })
    }

    /// The document value that says how the package is built: what stands
    /// under `package.metadata.emanate`.
    pub fn metadata(table: &Value) -> (r: Option<&Value>)
        ensures
            match r {
                Some(v) => emanate_of(*table) == Some(*v),
                None => emanate_of(*table) is None,
            },
    {
        match table.get("package") {
            Some(Value::Table(package)) => match entry_value(package, "metadata") {
                Some(Value::Table(metadata)) => entry_value(metadata, "emanate"),
                _ => None,
            },
            _ => None,
        }
    }

    /// The name of the package.
    pub fn name(&self) -> (r: &str)
        ensures
            r@ == self.package.name@,
    {
        self.package.name.as_str()
    }
}

impl Manifest {
    /// Reads the manifest of a workspace from its document.
    pub fn load(file: String, toml: String, table: &Value) -> (r: Result<Manifest, Error>)
        ensures
            match r {
                Ok(m) => {
                    &&& *table matches Value::Table(root)
                    &&& workspace_of(root@) matches Ok(w)
                    &&& m.workspace@ == w
                    &&& m.file == file
                    &&& m.toml == toml
                    &&& distinct(names(m.workspace.dependencies@))
                },
                Err(e) => e matches Error::Toml(m) && manifest_fault(*table) == Some(m@),
            },
    {
        let root = match table {
            Value::Table(root) => root,
            _ => {
                return Err(invalid("document"));
            },
        };
        let w = match get_table(root, "workspace") {
            Ok(w) => w,
            Err(e) => {
                return Err(e);
            },
        };
        let members = match get_strings(w, "members") {
            Ok(v) => v,
            Err(e) => {
                return Err(e);
            },
        };
        let p = match get_table(w, "package") {
            Ok(p) => p,
            Err(e) => {
                return Err(e);
            },
        };
        let version = match get_string(p, "version") {
            Ok(s) => s,
            Err(e) => {
                return Err(e);
            },
        };
        let d = match get_table(w, "dependencies") {
            Ok(d) => d,
            Err(e) => {
                return Err(e);
            },
        };
        let mut dependencies: Vec<Entry> = Vec::new();
        put_table(&mut dependencies, d);
        proof {
            lemma_put_all_distinct(Seq::<Entry>::empty(), dependencies_of(d@));
        }
        Ok(
            Manifest {
                file,
                toml,
                workspace: Workspace { members, package: WorkspacePackage { version }, dependencies },
            },
        )
    }

    /// The canonical version of the workspace.
    pub fn version(&self) -> (r: Result<Version, Error>)
        ensures
            match r {
                Ok(v) => parse_spec(self.workspace.package.version@) == Ok::<
                    VersionView,
                    VersionFault,
                >(v@),
                Err(e) => parse_spec(self.workspace.package.version@) matches Err(f)
                    && crate::version::reports(e, f, self.workspace.package.version@),
            },
    {
        Version::parse(self.workspace.package.version.as_str())
    }
}

} // verus!
