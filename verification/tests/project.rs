use emanate::builder::Builder;
use emanate::manifest::WasmTargetPlatform;
use emanate::archive::{archive_kind, Algorithm, Archive, ArchiveKind};
use emanate::config::{Config, ProjectConfig, PublishConfig, RepositoryConfig};
use emanate::error::Error;
use emanate::owner::Action;
use emanate::project::{
    get_inheritable, CargoDependency, CargoEntry, CargoManifest, CargoPackage, Inheritable,
    Manifest, Project, Version,
};
use emanate::repository::{repository_name, Repository};
use emanate::run::Run;

#[test]
fn algorithm_names_and_default() {
    assert_eq!(Algorithm::Store.to_string(), "STORE");
    assert_eq!(Algorithm::BZip2.to_string(), "BZIP2");
    assert_eq!(Algorithm::Deflate.to_string(), "DEFLATE");
    assert_eq!(Algorithm::ZStd.to_string(), "ZSTD");
    assert_eq!(Algorithm::default(), Algorithm::Deflate);
}

#[test]
fn archive_defaults() {
    let a = Archive::default();
    assert!(a.algorithm.is_none() && a.subfolder.is_none());
    assert_eq!(a.method(), Algorithm::Deflate);
    assert!(a.keeps_folder());
    let a = Archive { algorithm: Some(Algorithm::ZStd), subfolder: Some(false) };
    assert_eq!(a.method(), Algorithm::ZStd);
    assert!(!a.keeps_folder());
}

#[test]
fn archive_kind_is_told_by_the_name() {
    assert_eq!(archive_kind("x/pack.tar.gz").unwrap(), ArchiveKind::TarGz);
    assert_eq!(archive_kind("pack.tgz").unwrap(), ArchiveKind::TarGz);
    assert_eq!(archive_kind("pack.zip").unwrap(), ArchiveKind::Zip);
    match archive_kind("pack.rar") {
        Err(Error::String(m)) => assert_eq!(m, "extract(): unsupported file type: pack.rar"),
        other => panic!("{:?}", other),
    }
}

#[test]
fn owner_actions() {
    assert_eq!(Action::default(), Action::Add);
    assert_eq!(Action::Add.flag(), "--add");
    assert_eq!(Action::Remove.flag(), "--remove");
    assert_eq!(Action::Add.description(), "adding");
    assert_eq!(Action::Remove.description(), "removing");
}

#[test]
fn run_command_is_cut_at_spaces() {
    let run = Run { cmd: "cargo build --release".to_string(), folder: "x".to_string() };
    assert_eq!(run.argv(), vec!["cargo", "build", "--release"]);
    let run = Run { cmd: String::new(), folder: "x".to_string() };
    assert_eq!(run.argv(), vec![""]);
    let run = Run { cmd: "a  b".to_string(), folder: "x".to_string() };
    assert_eq!(run.argv(), vec!["a", "", "b"]);
}

#[test]
fn loose_version_get_fills_in_zeros() {
    let v = Version::parse("1.2");
    assert_eq!(v.get(), [1, 2, 0]);
    assert!(!v.wildcard);
    assert_eq!((v.major, v.minor, v.patch), (Some(1), Some(2), None));
    assert_eq!(v.to_string(), "1.2.0");
    let v = Version::parse("*");
    assert!(v.wildcard);
    assert_eq!(v.get(), [0, 0, 0]);
    let v = Version::parse("1.x.3.beta.more");
    assert_eq!((v.major, v.minor, v.patch), (Some(1), None, Some(3)));
    assert_eq!(v.suffix.as_deref(), Some("beta"));
    assert_eq!(v.get(), [1, 0, 3]);
    let v = Version::parse("");
    assert_eq!(v.get(), [0, 0, 0]);
    assert!(v.suffix.is_none());
}

fn config(url: &str, external: Option<bool>, publish: Option<bool>) -> RepositoryConfig {
    RepositoryConfig {
        url: url.to_string(),
        branch: Some("dev".to_string()),
        settings: None,
        external,
        publish,
    }
}

#[test]
fn config_holds_the_repositories() {
    let c = Config {
        project: ProjectConfig {
            root: Some("..".to_string()),
            repositories: vec![config("https://example.org/one", None, None)],
            run: None,
        },
        publish: PublishConfig { delay: None },
    };
    assert_eq!(c.project.repositories.len(), 1);
    assert!(c.publish.delay.is_none());
}

#[test]
fn repository_name_is_the_last_piece_of_the_url() {
    assert_eq!(repository_name("https://github.com/org/repo").as_deref(), Some("repo"));
    assert_eq!(repository_name("https://github.com/org/repo/").as_deref(), Some("repo"));
    assert_eq!(repository_name("a/b/.").as_deref(), Some("b"));
    assert_eq!(repository_name("repo").as_deref(), Some("repo"));
    assert!(repository_name("a/..").is_none());
    assert!(repository_name("/").is_none());
    assert!(repository_name("").is_none());
    assert!(repository_name(".").is_none());
}

#[test]
fn repository_name_agrees_with_paths() {
    for url in ["https://github.com/org/repo", "a/b/", "a//b", "x", "a/b/.", "a/..", "...", "a/.../"] {
        let expected = std::path::Path::new(url)
            .file_name()
            .map(|n| n.to_string_lossy().to_string());
        assert_eq!(repository_name(url), expected, "{}", url);
    }
}

#[test]
fn repository_defaults() {
    let r = Repository::new("repo".to_string(), "root/repo".to_string(), config("u", None, None));
    assert!(!r.is_external());
    assert!(r.is_published());
    assert_eq!(r.url, "u");
    assert_eq!(r.branch.as_deref(), Some("dev"));
    assert_eq!(r.name, "repo");
    assert_eq!(r.folder, "root/repo");
    let r = Repository::new("r".to_string(), "f".to_string(), config("u", Some(true), None));
    assert!(r.is_external());
    assert!(!r.is_published());
    let r = Repository::new("r".to_string(), "f".to_string(), config("u", Some(true), Some(true)));
    assert!(r.is_external() && r.is_published());
    let r = Repository::new("r".to_string(), "f".to_string(), config("u", None, Some(false)));
    assert!(!r.is_external() && !r.is_published());
}

#[test]
fn repository_sync_arguments() {
    let r = Repository::new("r".to_string(), "f".to_string(), config("u", None, None));
    assert_eq!(r.sync(false), vec!["clone", "-b", "dev", "u"]);
    assert_eq!(r.sync(true), vec!["pull"]);
    let mut c = config("u", None, None);
    c.branch = None;
    let r = Repository::new("r".to_string(), "f".to_string(), c);
    assert_eq!(r.sync(false), vec!["clone", "u"]);
}

fn cargo(package: Option<CargoPackage>, dependencies: Vec<CargoEntry>) -> CargoManifest {
    CargoManifest { package, dependencies }
}

fn cargo_package(version: Inheritable, repository: Option<Inheritable>) -> CargoPackage {
    CargoPackage { name: "proj".to_string(), version, repository }
}

#[test]
fn get_inheritable_refuses_what_is_inherited() {
    assert_eq!(get_inheritable(&Inheritable::Value("x".to_string()), "version").unwrap(), "x");
    match get_inheritable(&Inheritable::Inherited, "version") {
        Err(Error::String(m)) => assert_eq!(m, "inherited values are not supported (`version`)"),
        other => panic!("{:?}", other),
    }
}

#[test]
fn project_manifest_is_digested() {
    let m = cargo(
        Some(cargo_package(
            Inheritable::Value("0.3.1".to_string()),
            Some(Inheritable::Value("https://example.org/proj".to_string())),
        )),
        vec![
            CargoEntry { name: "serde".to_string(), dependency: CargoDependency::Simple("1.0".to_string()) },
            CargoEntry {
                name: "near".to_string(),
                dependency: CargoDependency::Detailed { version: None, path: Some("../near".to_string()) },
            },
            CargoEntry {
                name: "both".to_string(),
                dependency: CargoDependency::Detailed {
                    version: Some("2.1.0".to_string()),
                    path: Some("../both".to_string()),
                },
            },
        ],
    );
    let d = Manifest::digest("proj/Cargo.toml", &m).unwrap();
    assert_eq!(d.name, "proj");
    assert_eq!(d.cargo_toml_file, "proj/Cargo.toml");
    assert_eq!(d.version.get(), [0, 3, 1]);
    assert_eq!(d.url.as_deref(), Some("https://example.org/proj"));
    assert_eq!(d.dependencies.len(), 3);
    assert_eq!(d.dependencies[0].name, "serde");
    assert_eq!(d.dependencies[0].version.as_ref().unwrap().get(), [1, 0, 0]);
    assert!(d.dependencies[0].path.is_none());
    assert!(d.dependencies[1].version.is_none());
    assert_eq!(d.dependencies[1].path.as_deref(), Some("../near"));
    assert_eq!(d.dependencies[2].version.as_ref().unwrap().get(), [2, 1, 0]);

    let project = Project::from_folder("proj".to_string(), d);
    assert_eq!(project.name, "proj");
    assert!(project.repository.is_none());
    assert_eq!(
        project.get_related(),
        vec![
            ("near".to_string(), "../near".to_string()),
            ("both".to_string(), "../both".to_string()),
        ]
    );
}

#[test]
fn project_manifest_with_a_fault_is_refused() {
    let message = |m: &CargoManifest| match Manifest::digest("f", m) {
        Err(Error::String(m)) => m,
        other => panic!("{:?}", other),
    };
    assert_eq!(message(&cargo(None, Vec::new())), "package section is missing");
    assert_eq!(
        message(&cargo(Some(cargo_package(Inheritable::Inherited, None)), Vec::new())),
        "inherited values are not supported (`version`)"
    );
    assert_eq!(
        message(&cargo(
            Some(cargo_package(Inheritable::Value("1.0.0".to_string()), Some(Inheritable::Inherited))),
            Vec::new()
        )),
        "inherited values are not supported (`repository`)"
    );
    assert_eq!(
        message(&cargo(
            Some(cargo_package(Inheritable::Value("1.0.0".to_string()), None)),
            vec![CargoEntry { name: "x".to_string(), dependency: CargoDependency::Inherited }]
        )),
        "workspace-inherited dependencies are not currently supported"
    );
}

#[test]
fn project_of_a_repository_must_have_its_name() {
    let digest = |name: &str| Manifest {
        name: name.to_string(),
        cargo_toml_file: "f".to_string(),
        version: Version::parse("1.0.0"),
        dependencies: Vec::new(),
        url: None,
    };
    let repo = || Repository::new("repo".to_string(), "root/repo".to_string(), config("u", None, None));
    let p = Project::from_repository(repo(), digest("repo")).unwrap();
    assert_eq!(p.name, "repo");
    assert_eq!(p.folder, "root/repo");
    assert!(p.repository.is_some());
    match Project::from_repository(repo(), digest("other")) {
        Err(Error::String(m)) => {
            assert_eq!(m, "manifest and repository name mismatch: `repo` vs `other`")
        }
        other => panic!("{:?}", other.map(|p| p.name)),
    }
}

#[test]
fn builder_selects_the_packages_that_are_named() {
    let a = "a".to_string();
    assert!(Builder::selects(&None, &a));
    assert!(Builder::selects(&Some(vec!["b".to_string(), "a".to_string()]), &a));
    assert!(!Builder::selects(&Some(vec!["b".to_string()]), &a));
    assert!(!Builder::selects(&Some(Vec::new()), &a));
}

#[test]
fn builder_names_what_is_built() {
    let v = emanate::version::Version::parse("1.2.3").unwrap();
    assert_eq!(Builder::release_name("my-tool", &v, "linux", "x64"), "my-tool-1.2.3-linux-x64");
    assert_eq!(Builder::wasm_name("my-tool", &v, WasmTargetPlatform::NodeJs), "my-tool-1.2.3-nodejs");
    assert_eq!(Builder::main_file("my-tool"), "my_tool.js");
    assert_eq!(Builder::main_file("MyTool"), "my_tool.js");
}
