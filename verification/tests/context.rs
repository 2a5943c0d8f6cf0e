use emanate::context::{Context, CrateContext, WorkspaceContext};
use emanate::error::Error;
use emanate::manifest::{
    Crate, Dependency, DependencyTable, Entry, Manifest, Package, PackageVersion, Pin, Workspace,
    WorkspacePackage,
};
use emanate::value::{Value, ValueEntry};

fn pinned(name: &str, version: &str) -> Entry {
    Entry { name: name.to_string(), dependency: Dependency::Pinned(version.to_string()) }
}

fn inherited(name: &str) -> Entry {
    Entry {
        name: name.to_string(),
        dependency: Dependency::Table(DependencyTable {
            version: None,
            workspace: true,
            path: false,
            git: false,
        }),
    }
}

fn detailed(name: &str, version: &str) -> Entry {
    Entry {
        name: name.to_string(),
        dependency: Dependency::Table(DependencyTable {
            version: Some(Pin::Text(version.to_string())),
            workspace: false,
            path: true,
            git: false,
        }),
    }
}

fn package(name: &str, publish: Option<bool>, dependencies: Vec<Entry>) -> Crate {
    Crate {
        file: format!("ws/{}/Cargo.toml", name),
        folder: format!("ws/{}", name),
        toml: String::new(),
        package: Package { name: name.to_string(), version: PackageVersion::Workspace, publish },
        dependencies,
    }
}

fn manifest(dependencies: Vec<Entry>) -> Manifest {
    Manifest {
        file: "ws/Cargo.toml".to_string(),
        toml: "text".to_string(),
        workspace: Workspace {
            members: vec!["a".to_string(), "b".to_string(), "c".to_string()],
            package: WorkspacePackage { version: "1.2.0".to_string() },
            dependencies,
        },
    }
}

fn names(deps: &Vec<Entry>) -> Vec<&str> {
    deps.iter().map(|e| e.name.as_str()).collect()
}

fn sample() -> WorkspaceContext {
    let crates = vec![
        package("a", None, vec![inherited("b"), pinned("serde", "1.0.0"), pinned("rand", "0.8.5")]),
        package("b", Some(true), vec![pinned("serde", "1.0.1"), inherited("c")]),
        package("c", Some(false), vec![pinned("libc", "0.2.0")]),
    ];
    let ws = manifest(vec![
        detailed("b", "1.2.0"),
        pinned("serde", "1.0.100"),
        detailed("tokio", "1.0.0"),
    ]);
    WorkspaceContext::load("ws/Cargo.toml".to_string(), "ws".to_string(), ws, crates).unwrap()
}

#[test]
fn members_that_may_not_be_published_are_set_aside() {
    let ctx = sample();
    let eligible: Vec<&str> = ctx.crates.iter().map(|c| c.name()).collect();
    assert_eq!(eligible, vec!["a", "b"]);
    let excluded: Vec<&str> = ctx.excluded.iter().map(|c| c.name()).collect();
    assert_eq!(excluded, vec!["c"]);
    assert_eq!(ctx.projects, vec!["a", "b"]);
    assert_eq!(names(&ctx.excluded[0].dependencies), vec!["libc"]);
}

#[test]
fn dependencies_are_sorted_into_internal_and_external() {
    let ctx = sample();
    assert_eq!(names(&ctx.manifest.workspace.dependencies), vec!["b"]);
    assert_eq!(names(&ctx.crates[0].dependencies), vec!["b"]);
    assert_eq!(names(&ctx.crates[1].dependencies), vec!["c"]);
    assert_eq!(names(&ctx.external), vec!["serde", "tokio", "rand"]);
    assert!(matches!(&ctx.external[0].dependency, Dependency::Pinned(v) if v == "1.0.100"));
}

#[test]
fn workspace_keeps_what_it_was_given() {
    let ctx = sample();
    assert_eq!(ctx.file, "ws/Cargo.toml");
    assert_eq!(ctx.folder, "ws");
    assert_eq!(ctx.manifest.file, "ws/Cargo.toml");
    assert_eq!(ctx.manifest.toml, "text");
    assert_eq!(ctx.manifest.workspace.members, vec!["a", "b", "c"]);
    assert_eq!(ctx.manifest.workspace.package.version, "1.2.0");
    assert_eq!(ctx.crates[0].file, "ws/a/Cargo.toml");
    assert_eq!(ctx.crates[0].folder, "ws/a");
}

#[test]
fn members_are_ordered_for_publishing() {
    let ctx = sample();
    assert_eq!(ctx.order, vec![1, 0]);
    assert!(ctx.is_wf());
    assert_eq!(ctx.packages(), vec!["b", "a"]);
}

#[test]
fn workspace_with_a_cycle_is_refused() {
    let crates = vec![
        package("x", None, vec![inherited("y")]),
        package("y", None, vec![inherited("z")]),
        package("z", None, vec![inherited("x")]),
    ];
    let r = WorkspaceContext::load("f".to_string(), "d".to_string(), manifest(vec![]), crates);
    match r {
        Err(Error::CycleDetected(name)) => assert_eq!(name, "x"),
        other => panic!("{:?}", other),
    }
}

#[test]
fn cycle_through_a_member_that_is_not_published_does_not_count() {
    let crates = vec![
        package("x", None, vec![inherited("y")]),
        package("y", Some(false), vec![inherited("x")]),
    ];
    let ctx = WorkspaceContext::load("f".to_string(), "d".to_string(), manifest(vec![]), crates)
        .unwrap();
    assert_eq!(ctx.packages(), vec!["x"]);
    assert_eq!(names(&ctx.crates[0].dependencies), vec!["y"]);
    assert!(ctx.external.is_empty());
}

#[test]
fn workspace_without_members_is_empty() {
    let ctx =
        WorkspaceContext::load("f".to_string(), "d".to_string(), manifest(vec![]), Vec::new())
            .unwrap();
    assert!(ctx.crates.is_empty());
    assert!(ctx.order.is_empty());
    assert!(ctx.packages().is_empty());
}

#[test]
fn context_that_does_not_fit_is_told() {
    let mut ctx = sample();
    ctx.order = vec![0, 7];
    assert!(!ctx.is_wf());
    ctx.order = vec![0];
    assert!(!ctx.is_wf());
}

fn table(entries: Vec<(&str, Value)>) -> Value {
    Value::Table(
        entries
            .into_iter()
            .map(|(key, value)| ValueEntry { key: key.to_string(), value })
            .collect(),
    )
}

#[test]
fn context_kind_is_told_by_the_workspace_entry() {
    assert!(Context::is_workspace(&table(vec![("workspace", table(vec![]))])));
    assert!(!Context::is_workspace(&table(vec![("package", table(vec![]))])));
    assert!(!Context::is_workspace(&Value::Integer(0)));
}

#[test]
fn context_hands_out_the_dependencies_to_check() {
    let ctx = Context::Workspace(sample());
    assert_eq!(names(ctx.dependencies()), vec!["serde", "tokio", "rand"]);
    assert_eq!(ctx.file(), "ws/Cargo.toml");
    let root = table(vec![
        (
            "package",
            table(vec![
                ("name", Value::String("solo".to_string())),
                ("version", Value::String("0.1.0".to_string())),
            ]),
        ),
        ("dependencies", table(vec![("serde", Value::String("1.0.0".to_string()))])),
    ]);
    let solo = CrateContext::load(
        "solo/Cargo.toml".to_string(),
        "solo".to_string(),
        String::new(),
        &root,
    )
    .unwrap();
    assert_eq!(solo.package.name, "solo");
    let ctx = Context::Crate(solo);
    assert_eq!(names(ctx.dependencies()), vec!["serde"]);
    assert_eq!(ctx.file(), "solo/Cargo.toml");
}

#[test]
fn members_are_gathered_or_the_first_failure_is_told() {
    let all = emanate::context::gather(vec![
        Ok(package("a", None, Vec::new())),
        Ok(package("b", None, Vec::new())),
    ])
    .unwrap();
    let names: Vec<&str> = all.iter().map(|c| c.name()).collect();
    assert_eq!(names, vec!["a", "b"]);
    let failed = emanate::context::gather(vec![
        Ok(package("a", None, Vec::new())),
        Err(Error::Toml("first".to_string())),
        Ok(package("c", None, Vec::new())),
        Err(Error::Toml("second".to_string())),
    ]);
    match failed {
        Err((at, Error::Toml(m))) => {
            assert_eq!(at, 1);
            assert_eq!(m, "first");
        }
        other => panic!("{:?}", other),
    }
    assert!(emanate::context::gather(Vec::new()).unwrap().is_empty());
}
