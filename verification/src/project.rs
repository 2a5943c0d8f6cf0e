//! Versions as the manifests of single projects give them: up to three
//! numbers, any of which may be missing.

use vstd::prelude::*;
use vstd::string::*;
use crate::error::Error;
use crate::repository::Repository;
use crate::text::{decimal, decimal_text, parse_u32, parse_u32_spec, same_text, split, split_spec, texts};

verus! {

/// A version whose numbers may be missing; `*` is the wildcard.
#[derive(Debug)]
pub struct Version {
    pub wildcard: bool,
    pub major: Option<u32>,
    pub minor: Option<u32>,
    pub patch: Option<u32>,
    pub suffix: Option<String>,
}

/// The number that the piece at `i` denotes, if there is such a piece and it
/// is a number.
pub open spec fn number_at(parts: Seq<Seq<char>>, i: int) -> Option<u32> {
    if i < parts.len() {
        match parse_u32_spec(parts[i]) {
            Ok(n) => Some(n),
            Err(_) => None,
        }
    } else {
        None
    }
}

impl Version {
    /// The three numbers, zero for each that is missing.
    pub fn get(&self) -> (r: [u32; 3])
        ensures
            r[0] == (match self.major {
                Some(n) => n,
                None => 0,
            }),
            r[1] == (match self.minor {
                Some(n) => n,
                None => 0,
            }),
            r[2] == (match self.patch {
                Some(n) => n,
                None => 0,
            }),
    {
        let a = match self.major {
            Some(n) => n,
            None => 0,
        };
        let b = match self.minor {
            Some(n) => n,
            None => 0,
        };
        let c = match self.patch {
            Some(n) => n,
            None => 0,
        };
        [a, b, c]
    }

    /// Reads a version: `*`, or the pieces between dots, of which the first
    /// three are the numbers, where they are numbers, and the fourth is the
    /// suffix.
    pub fn parse(s: &str) -> (v: Version)
        ensures
            s@ == seq!['*'] ==> v.wildcard && v.major is None && v.minor is None && v.patch is None
                && v.suffix is None,
            s@ != seq!['*'] ==> {
                let parts = split_spec(s@, '.');
                &&& !v.wildcard
                &&& v.major == number_at(parts, 0)
                &&& v.minor == number_at(parts, 1)
                &&& v.patch == number_at(parts, 2)
                &&& match v.suffix {
                    Some(t) => parts.len() > 3 && t@ == parts[3],
                    None => parts.len() <= 3,
                }
            },
    {
        proof {
            reveal_strlit("*");
            assert("*"@ =~= seq!['*']);
        }
        if same_text(s, "*") {
            return Version { wildcard: true, major: None, minor: None, patch: None, suffix: None };
        }
        let parts = split(s, '.');
        proof {
            assert(texts(parts@).len() == parts@.len());
        }
        let major = number(&parts, 0);
        let minor = number(&parts, 1);
        let patch = number(&parts, 2);
        let suffix = if parts.len() > 3 {
            assert(texts(parts@)[3] == parts@[3]@);
            Some(parts[3].clone())
        } else {
            None
        };
        Version { wildcard: false, major, minor, patch, suffix }
    }

    /// The three numbers with dots between them.
    pub fn to_string(&self) -> (r: String)
        ensures
            r@ == decimal_text(self.get_spec().0 as nat) + seq!['.'] + decimal_text(
                self.get_spec().1 as nat,
            ) + seq!['.'] + decimal_text(self.get_spec().2 as nat),
    {
        let v = self.get();
        proof {
            reveal_strlit(".");
            assert("."@ =~= seq!['.']);
        }
        let mut r = decimal(v[0]);
        r.append(".");
        r.append(decimal(v[1]).as_str());
        r.append(".");
        r.append(decimal(v[2]).as_str());
        r
    }

    /// The three numbers, zero for each that is missing.
    pub open spec fn get_spec(self) -> (u32, u32, u32) {
        (
            match self.major {
                Some(n) => n,
                None => 0,
            },
            match self.minor {
                Some(n) => n,
                None => 0,
            },
            match self.patch {
                Some(n) => n,
                None => 0,
            },
        )
    }
}

fn number(parts: &Vec<String>, i: usize) -> (r: Option<u32>)
    ensures
        r == number_at(texts(parts@), i as int),
{
    if i < parts.len() {
        assert(texts(parts@)[i as int] == parts@[i as int]@);
        match parse_u32(parts[i].as_str()) {
            Ok(n) => Some(n),
            Err(_) => None,
        }
    } else {
        None
    }
}

/// A value of a manifest that may be inherited from a workspace.
#[derive(Debug)]
pub enum Inheritable {
    Value(String),
    Inherited,
}

/// A dependency as a project manifest declares it.
#[derive(Debug)]
pub enum CargoDependency {
    Simple(String),
    Detailed { version: Option<String>, path: Option<String> },
    Inherited,
}

/// A dependency of a project manifest under its name.
#[derive(Debug)]
pub struct CargoEntry {
    pub name: String,
    pub dependency: CargoDependency,
}

/// The `package` table of a project manifest.
#[derive(Debug)]
pub struct CargoPackage {
    pub name: String,
    pub version: Inheritable,
    pub repository: Option<Inheritable>,
}

/// What is read of a project manifest.
#[derive(Debug)]
pub struct CargoManifest {
    pub package: Option<CargoPackage>,
    pub dependencies: Vec<CargoEntry>,
}

/// A dependency of a project.
#[derive(Debug)]
pub struct Dependency {
    pub name: String,
    pub version: Option<Version>,
    pub path: Option<String>,
}

/// The manifest of a project, digested.
#[derive(Debug)]
pub struct Manifest {
    pub name: String,
    pub cargo_toml_file: String,
    pub version: Version,
    pub dependencies: Vec<Dependency>,
    pub url: Option<String>,
}

/// Whether `v` is what `Version::parse` makes of the text `s`.
pub open spec fn reads(v: Version, s: Seq<char>) -> bool {
    if s == seq!['*'] {
        v.wildcard && v.major is None && v.minor is None && v.patch is None && v.suffix is None
    } else {
        let parts = split_spec(s, '.');
        &&& !v.wildcard
        &&& v.major == number_at(parts, 0)
        &&& v.minor == number_at(parts, 1)
        &&& v.patch == number_at(parts, 2)
        &&& match v.suffix {
            Some(t) => parts.len() > 3 && t@ == parts[3],
            None => parts.len() <= 3,
        }
    }
}

/// Whether `d` is the dependency that the entry `e` declares.
pub open spec fn digests(d: Dependency, e: CargoEntry) -> bool {
    match e.dependency {
        CargoDependency::Simple(s) => d.name == e.name && d.path is None && (d.version matches Some(
            v,
        ) && reads(v, s@)),
        CargoDependency::Detailed { version, path } => d.name == e.name && d.path == path
            && match version {
            Some(s) => d.version matches Some(v) && reads(v, s@),
            None => d.version is None,
        },
        CargoDependency::Inherited => false,
    }
}

/// Whether one of the first `upto` entries is inherited from a workspace.
pub open spec fn any_inherited(deps: Seq<CargoEntry>, upto: int) -> bool {
    exists|i: int| 0 <= i < upto && i < deps.len() && (#[trigger] deps[i]).dependency is Inherited
}

/// The message for a field that is inherited from a workspace.
pub open spec fn inherited_text(name: Seq<char>) -> Seq<char> {
    "inherited values are not supported (`"@ + name + "`)"@
}

/// The value that is set; one that is inherited is an error that names the
/// field.
pub fn get_inheritable(v: &Inheritable, name: &str) -> (r: Result<String, Error>)
    ensures
        match *v {
            Inheritable::Value(s) => r == Ok::<String, Error>(s),
            Inheritable::Inherited => r matches Err(Error::String(m)) && m@ == inherited_text(
                name@,
            ),
        },
{
    match v {
        Inheritable::Value(s) => Ok(s.clone()),
        Inheritable::Inherited => {
            let mut m = String::from_str("inherited values are not supported (`");
            m.append(name);
            m.append("`)");
            Err(Error::String(m))
        },
    }
}

impl Manifest {
    /// Digests what was read of the manifest at `cargo_toml_file`.
    ///
    /// The manifest needs a package whose version is set, and whose
    /// repository, if it has one, is set; none of its dependencies may be
    /// inherited from a workspace.
    pub fn digest(cargo_toml_file: &str, manifest: &CargoManifest) -> (r: Result<Manifest, Error>)
        ensures
            match manifest.package {
                None => r matches Err(Error::String(m)) && m@ == "package section is missing"@,
                Some(p) => match p.version {
                    Inheritable::Inherited => r matches Err(Error::String(m)) && m@
                        == inherited_text("version"@),
                    Inheritable::Value(version) => if p.repository == Some(Inheritable::Inherited) {
                        r matches Err(Error::String(m)) && m@ == inherited_text("repository"@)
                    } else if any_inherited(manifest.dependencies@, manifest.dependencies@.len() as int) {
                        r matches Err(Error::String(m)) && m@
                            == "workspace-inherited dependencies are not currently supported"@
                    } else {
                        &&& r matches Ok(d)
                        &&& d.name == p.name
                        &&& d.cargo_toml_file@ == cargo_toml_file@
                        &&& reads(d.version, version@)
                        &&& match p.repository {
                            Some(Inheritable::Value(u)) => d.url == Some(u),
                            _ => d.url is None,
                        }
                        &&& d.dependencies@.len() == manifest.dependencies@.len()
                        &&& forall|i: int|
                            0 <= i < d.dependencies@.len() ==> digests(
                                #[trigger] d.dependencies@[i],
                                manifest.dependencies@[i],
                            )
                    },
                },
            },
    {
        let package = match &manifest.package {
            Some(p) => p,
            None => {
                return Err(Error::String(String::from_str("package section is missing")));
            },
        };
        let name = package.name.clone();
        let version = match get_inheritable(&package.version, "version") {
            Ok(s) => Version::parse(s.as_str()),
            Err(e) => {
                return Err(e);
            },
        };
        let url = match &package.repository {
            Some(repository) => match get_inheritable(repository, "repository") {
                Ok(u) => Some(u),
                Err(e) => {
                    return Err(e);
                },
            },
            None => None,
        };
        let mut dependencies: Vec<Dependency> = Vec::new();
        let mut i: usize = 0;
        while i < manifest.dependencies.len()
            invariant
                i <= manifest.dependencies.len(),
                manifest.package is Some,
                manifest.package->Some_0.version is Value,
                manifest.package->Some_0.repository != Some(Inheritable::Inherited),
                dependencies@.len() == i,
                !any_inherited(manifest.dependencies@, i as int),
                forall|j: int|
                    0 <= j < i ==> digests(#[trigger] dependencies@[j], manifest.dependencies@[j]),
            decreases manifest.dependencies.len() - i,
        {
            let e = &manifest.dependencies[i];
            let d = match &e.dependency {
                CargoDependency::Detailed { version, path } => Dependency {
                    name: e.name.clone(),
                    version: match version {
                        Some(s) => Some(Version::parse(s.as_str())),
                        None => None,
                    },
                    path: match path {
                        Some(p) => Some(p.clone()),
                        None => None,
                    },
                },
                CargoDependency::Simple(s) => Dependency {
                    name: e.name.clone(),
                    version: Some(Version::parse(s.as_str())),
                    path: None,
                },
                CargoDependency::Inherited => {
                    assert(manifest.dependencies@[i as int].dependency is Inherited);
                    return Err(
                        Error::String(
                            String::from_str(
                                "workspace-inherited dependencies are not currently supported",
                            ),
                        ),
                    );
                },
            };
            dependencies.push(d);
            i = i + 1;
        }
        Ok(
            Manifest {
                name,
                cargo_toml_file: String::from_str(cargo_toml_file),
                version,
                dependencies,
                url,
            },
        )
    }
}

/// A project: a manifest in a folder, which may be that of a repository.
#[derive(Debug)]
pub struct Project {
    pub name: String,
    pub folder: String,
    pub repository: Option<Repository>,
    pub version: Version,
    pub dependencies: Vec<Dependency>,
    pub url: Option<String>,
    pub cargo_toml_file: String,
}

/// The dependencies among the first `upto` of `deps` that are given by a
/// path, each as its name and that path.
pub open spec fn related_spec(deps: Seq<Dependency>, upto: nat) -> Seq<(String, String)>
    decreases upto,
{
    if upto == 0 {
        Seq::empty()
    } else {
        let before = related_spec(deps, (upto - 1) as nat);
        match deps[upto - 1].path {
            Some(p) => before.push((deps[upto - 1].name, p)),
            None => before,
        }
    }
}

impl Project {
    /// The project of the repository `repo`, whose manifest is `manifest`;
    /// the two must have one name.
    pub fn from_repository(repo: Repository, manifest: Manifest) -> (r: Result<Project, Error>)
        ensures
            match r {
                Ok(p) => {
                    &&& repo.name@ == manifest.name@
                    &&& p.name == repo.name
                    &&& p.folder == repo.folder
                    &&& p.repository == Some(repo)
                    &&& p.version == manifest.version
                    &&& p.dependencies == manifest.dependencies
                    &&& p.url == manifest.url
                    &&& p.cargo_toml_file == manifest.cargo_toml_file
                },
                Err(e) => {
                    &&& repo.name@ != manifest.name@
                    &&& e matches Error::String(m)
                    &&& m@ == "manifest and repository name mismatch: `"@ + repo.name@
                        + "` vs `"@ + manifest.name@ + "`"@
                },
            },
    {
        if repo.name != manifest.name {
            let mut m = String::from_str("manifest and repository name mismatch: `");
            m.append(repo.name.as_str());
            m.append("` vs `");
            m.append(manifest.name.as_str());
            m.append("`");
            return Err(Error::String(m));
        }
        Ok(
            Project {
                name: repo.name.clone(),
                folder: repo.folder.clone(),
                repository: Some(repo),
                version: manifest.version,
                dependencies: manifest.dependencies,
                url: manifest.url,
                cargo_toml_file: manifest.cargo_toml_file,
            },
        )
    }

    /// The project in `folder`, whose manifest is `manifest`.
    pub fn from_folder(folder: String, manifest: Manifest) -> (p: Project)
        ensures
            p.name == manifest.name,
            p.folder == folder,
            p.repository is None,
            p.version == manifest.version,
            p.dependencies == manifest.dependencies,
            p.url == manifest.url,
            p.cargo_toml_file == manifest.cargo_toml_file,
    {
        Project {
            name: manifest.name.clone(),
            folder,
            repository: None,
            version: manifest.version,
            dependencies: manifest.dependencies,
            url: manifest.url,
            cargo_toml_file: manifest.cargo_toml_file,
        }
    }

    /// The dependencies that are given by a path, each as its name and that
    /// path, which is relative to the folder of the project.
    pub fn get_related(&self) -> (r: Vec<(String, String)>)
        ensures
            r@ == related_spec(self.dependencies@, self.dependencies@.len()),
    {
        let mut list: Vec<(String, String)> = Vec::new();
        let mut i: usize = 0;
        while i < self.dependencies.len()
            invariant
                i <= self.dependencies.len(),
                list@ == related_spec(self.dependencies@, i as nat),
            decreases self.dependencies.len() - i,
        {
            match &self.dependencies[i].path {
                Some(p) => {
                    list.push((self.dependencies[i].name.clone(), p.clone()));
                },
                None => {},
            }
            i = i + 1;
        }
        list
    }
}

} // verus!
