use emanate::context::{Context, CrateContext, WorkspaceContext};
use emanate::error::Error;
use emanate::manifest::{
    Crate, Dependency, DependencyTable, Entry, Manifest, Package, PackageVersion, Pin, Workspace,
    WorkspacePackage,
};
use emanate::version::{Change, Version};
use emanate::versioner::{rewrite, Versioner};

fn table_entry(name: &str, version: &str) -> Entry {
    Entry {
        name: name.to_string(),
        dependency: Dependency::Table(DependencyTable {
            version: Some(Pin::Text(version.to_string())),
            workspace: false,
            path: true,
            git: false,
        }),
    }
}

fn inherited(name: &str) -> Entry {
    Entry {
        name: name.to_string(),
        dependency: Dependency::Table(DependencyTable {
            version: None,
            workspace: true,
            path: false,
            git: false,
        }),
    }
}

const MANIFEST: &str = "# the workspace\n[workspace]\nmembers = [\"a\", \"b\"] # two members\n\n[workspace.package]\nversion = \"1.2.0\"\nauthors = [\"someone\"]\n\n[workspace.dependencies]\nb = { version = \"1.2.0\", path = \"b\" }\nserde = \"1\"\n";

fn package(name: &str, dependencies: Vec<Entry>) -> Crate {
    Crate {
        file: format!("ws/{}/Cargo.toml", name),
        folder: format!("ws/{}", name),
        toml: String::new(),
        package: Package { name: name.to_string(), version: PackageVersion::Workspace, publish: None },
        dependencies,
    }
}

fn workspace(toml: &str, version: &str) -> Context {
    let manifest = Manifest {
        file: "ws/Cargo.toml".to_string(),
        toml: toml.to_string(),
        workspace: Workspace {
            members: vec!["a".to_string(), "b".to_string()],
            package: WorkspacePackage { version: version.to_string() },
            dependencies: vec![
                table_entry("b", version),
                Entry { name: "serde".to_string(), dependency: Dependency::Pinned("1".to_string()) },
            ],
        },
    };
    let crates = vec![package("a", vec![inherited("b")]), package("b", Vec::new())];
    Context::Workspace(
        WorkspaceContext::load("ws/Cargo.toml".to_string(), "ws".to_string(), manifest, crates)
            .unwrap(),
    )
}

#[test]
fn rewrite_sets_workspace_and_member_versions() {
    let deps = vec![table_entry("b", "1.2.0")];
    let out = rewrite(MANIFEST, &deps, "1.2.1").unwrap();
    let expected = MANIFEST
        .replace("version = \"1.2.0\"\nauthors", "version = \"1.2.1\"\nauthors")
        .replace("b = { version = \"1.2.0\"", "b = { version = \"1.2.1\"");
    assert_eq!(out, expected);
}

#[test]
fn rewrite_keeps_comments_and_other_entries() {
    let deps = vec![table_entry("b", "1.2.0")];
    let out = rewrite(MANIFEST, &deps, "2.0.0").unwrap();
    assert!(out.contains("# the workspace"));
    assert!(out.contains("# two members"));
    assert!(out.contains("authors = [\"someone\"]"));
    assert!(out.contains("serde = \"1\""));
    assert_ne!(out, MANIFEST);
    let before: Vec<&str> = MANIFEST.lines().collect();
    let after: Vec<&str> = out.lines().collect();
    assert_eq!(before.len(), after.len());
    for (i, (x, y)) in before.iter().zip(after.iter()).enumerate() {
        if i == 5 || i == 9 {
            assert_ne!(x, y);
        } else {
            assert_eq!(x, y);
        }
    }
}

#[test]
fn rewrite_twice_with_one_version_is_stable() {
    let deps = vec![table_entry("b", "1.2.0")];
    let once = rewrite(MANIFEST, &deps, "2.0.0").unwrap();
    let twice = rewrite(&once, &deps, "2.0.0").unwrap();
    assert_eq!(once, twice);
}

#[test]
fn rewrite_with_the_version_that_is_there_changes_nothing() {
    let deps = vec![table_entry("b", "1.2.0")];
    assert_eq!(rewrite(MANIFEST, &deps, "1.2.0").unwrap(), MANIFEST);
}

#[test]
fn rewrite_refuses_text_that_is_no_toml() {
    let deps: Vec<Entry> = Vec::new();
    match rewrite("[workspace", &deps, "1.0.0") {
        Err(Error::Toml(m)) => assert_eq!(m, "unable to write the version of `package`"),
        other => panic!("{:?}", other),
    }
}

#[test]
fn rewrite_of_a_pinned_string_replaces_the_string() {
    let deps =
        vec![Entry { name: "b".to_string(), dependency: Dependency::Pinned("1.0.0".to_string()) }];
    let text = "[workspace.package]\nversion = \"1.0.0\"\n\n[workspace.dependencies]\nb = \"1.0.0\"\n";
    let out = rewrite(text, &deps, "1.1.0").unwrap();
    assert_eq!(
        out,
        "[workspace.package]\nversion = \"1.1.0\"\n\n[workspace.dependencies]\nb = \"1.1.0\"\n"
    );
}

#[test]
fn rewrite_adds_the_version_to_a_table_that_has_none() {
    let deps = vec![Entry {
        name: "b".to_string(),
        dependency: Dependency::Table(DependencyTable {
            version: None,
            workspace: false,
            path: true,
            git: false,
        }),
    }];
    let text = "[workspace.package]\nversion = \"1.0.0\"\n\n[workspace.dependencies]\nb = { path = \"b\" }\n";
    let out = rewrite(text, &deps, "1.1.0").unwrap();
    assert_eq!(out.matches("version = \"1.1.0\"").count(), 2, "{}", out);
    assert!(out.contains("path = \"b\""));
    assert!(out.starts_with("[workspace.package]\nversion = \"1.1.0\"\n\n[workspace.dependencies]\nb = {"));
}

#[test]
fn rewrite_stops_at_a_dependency_that_is_no_table() {
    let deps = vec![table_entry("b", "1.0.0")];
    let text = "[workspace.package]\nversion = \"1.0.0\"\n\n[workspace.dependencies]\nb = \"1.0.0\"\n";
    match rewrite(text, &deps, "1.1.0") {
        Err(Error::Toml(m)) => assert_eq!(m, "unable to write the version of `b`"),
        other => panic!("{:?}", other),
    }
    let deps = vec![Entry { name: "b".to_string(), dependency: Dependency::Other }];
    match rewrite(text, &deps, "1.1.0") {
        Err(Error::MissingVersion(name)) => assert_eq!(name, "b"),
        other => panic!("{:?}", other),
    }
}

#[test]
fn patch_of_a_workspace_reaches_its_members() {
    let versioner = Versioner::new(workspace(MANIFEST, "1.2.0"));
    let out = versioner.change(Change::Patch).unwrap();
    assert_eq!(out.version.to_string(), "1.2.1");
    assert!(out.toml.contains("[workspace.package]\nversion = \"1.2.1\""));
    assert!(out.toml.contains("b = { version = \"1.2.1\", path = \"b\" }"));
    assert!(out.toml.contains("serde = \"1\""));
    if let Context::Workspace(ctx) = &versioner.ctx {
        for member in &ctx.crates {
            assert_eq!(member.version(&out.version).unwrap().to_string(), "1.2.1");
        }
    } else {
        unreachable!();
    }
}

#[test]
fn major_and_minor_of_a_workspace() {
    let out = Versioner::new(workspace(MANIFEST, "1.2.0")).change(Change::Major).unwrap();
    assert_eq!(out.version.to_string(), "2.0.0");
    let out = Versioner::new(workspace(MANIFEST, "1.2.0")).change(Change::Minor).unwrap();
    assert_eq!(out.version.to_string(), "1.3.0");
    assert!(out.toml.contains("version = \"1.3.0\""));
}

#[test]
fn explicit_version_applied_twice_gives_the_same_document() {
    let target = || Change::Custom(Version::parse("2.0.0").unwrap());
    let first = Versioner::new(workspace(MANIFEST, "1.2.0")).change(target()).unwrap();
    let second =
        Versioner::new(workspace(&first.toml, &first.version.to_string())).change(target()).unwrap();
    assert_eq!(first.toml, second.toml);
    assert!(first.version == second.version);
}

#[test]
fn workspace_version_that_cannot_grow_is_reported() {
    let versioner = Versioner::new(workspace(MANIFEST, "4294967295.0.0"));
    match versioner.change(Change::Major) {
        Err(Error::InvalidVersion(s)) => assert_eq!(s, "4294967295.0.0"),
        other => panic!("{:?}", other.map(|r| r.toml)),
    }
}

#[test]
fn workspace_version_that_is_no_version_is_reported_by_the_versioner() {
    let versioner = Versioner::new(workspace(MANIFEST, "1.2"));
    assert!(matches!(versioner.change(Change::Patch), Err(Error::NonFixedVersion(_))));
}

#[test]
fn single_package_has_no_workspace_version() {
    let ctx = Context::Crate(CrateContext {
        file: "a/Cargo.toml".to_string(),
        package: Package {
            name: "a".to_string(),
            version: PackageVersion::Text("1.0.0".to_string()),
            publish: None,
        },
        dependencies: Vec::new(),
    });
    match Versioner::new(ctx).change(Change::Patch) {
        Err(Error::String(m)) => {
            assert_eq!(m, "not currently supported in a single crate context")
        }
        other => panic!("{:?}", other.map(|r| r.toml)),
    }
}
