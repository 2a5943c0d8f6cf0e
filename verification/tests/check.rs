use emanate::check::{name_order, Checker, Status, Stop};
use emanate::context::{Context, CrateContext};
use emanate::manifest::{Dependency, DependencyTable, Entry, Package, PackageVersion, Pin};
use emanate::version::Version;

fn pinned(name: &str, v: &str) -> Entry {
    Entry { name: name.to_string(), dependency: Dependency::Pinned(v.to_string()) }
}

fn table(name: &str, v: Option<Pin>, workspace: bool, path: bool) -> Entry {
    Entry {
        name: name.to_string(),
        dependency: Dependency::Table(DependencyTable { version: v, workspace, path, git: false }),
    }
}

fn checker(dependencies: Vec<Entry>) -> Checker {
    Checker::new(Context::Crate(CrateContext {
        file: "a/Cargo.toml".to_string(),
        package: Package {
            name: "a".to_string(),
            version: PackageVersion::Text("1.0.0".to_string()),
            publish: None,
        },
        dependencies,
    }))
}

#[test]
fn dependencies_are_taken_by_name() {
    let deps = vec![pinned("tokio", "1"), pinned("serde", "1"), pinned("anyhow", "1"), pinned("serde", "2")];
    assert_eq!(name_order(&deps), vec![2, 1, 3, 0]);
    assert!(name_order(&Vec::new()).is_empty());
}

#[test]
fn check_compares_what_has_a_version() {
    let plan = checker(vec![
        pinned("tokio", "1.28.0"),
        table("local", None, false, true),
        pinned("serde", "1.0.160"),
        table("anyhow", Some(Pin::Text("1.0.70".to_string())), false, false),
    ])
    .check();
    assert!(plan.stop.is_none());
    assert_eq!(plan.width, 8);
    assert_eq!(plan.ignored, vec!["local"]);
    let items: Vec<(String, String)> =
        plan.items.iter().map(|i| (i.name.clone(), i.version.to_string())).collect();
    assert_eq!(
        items,
        vec![
            ("anyhow".to_string(), "1.0.70".to_string()),
            ("serde".to_string(), "1.0.160".to_string()),
            ("tokio".to_string(), "1.28.0".to_string()),
        ]
    );
}

#[test]
fn check_stops_at_a_dependency_of_a_workspace() {
    let plan = checker(vec![
        pinned("zeta", "1.0.0"),
        table("beta", None, true, false),
        pinned("alpha", "1.0.0"),
    ])
    .check();
    assert!(matches!(plan.stop, Some(Stop::WorkspaceCrate)));
    assert_eq!(plan.items.len(), 1);
    assert_eq!(plan.items[0].name, "alpha");
}

#[test]
fn check_stops_at_a_version_that_cannot_be_read() {
    let plan = checker(vec![
        pinned("zeta", "1.0.0"),
        pinned("gamma", "1.0"),
        table("beta", None, false, true),
    ])
    .check();
    match &plan.stop {
        Some(Stop::Abort(name, reason)) => {
            assert_eq!(name, "gamma");
            assert_eq!(reason, "detected partial version `1.0`");
        }
        other => panic!("{:?}", other),
    }
    assert_eq!(plan.ignored, vec!["beta"]);
    assert!(plan.items.is_empty());
    let plan = checker(vec![table("x", Some(Pin::NotText), false, false)]).check();
    assert!(matches!(&plan.stop, Some(Stop::Abort(_, reason)) if reason == "version is not a string"));
    let plan = checker(vec![Entry { name: "x".to_string(), dependency: Dependency::Other }]).check();
    assert!(matches!(
        &plan.stop,
        Some(Stop::Abort(_, reason)) if reason == "dependency is not a string or a table"
    ));
    let plan = checker(vec![table("x", None, false, false)]).check();
    assert!(matches!(
        &plan.stop,
        Some(Stop::Abort(_, reason)) if reason == "dependency is missing version property"
    ));
}

#[test]
fn check_of_nothing_compares_nothing() {
    let plan = checker(Vec::new()).check();
    assert!(plan.stop.is_none());
    assert!(plan.items.is_empty());
    assert!(plan.ignored.is_empty());
    assert_eq!(plan.width, 2);
}

#[test]
fn line_reports_a_dependency_that_is_current() {
    let v = Version::parse("1.0.160").unwrap();
    let (status, text) = Checker::line("serde", 8, &v, &v);
    assert_eq!(status, Status::Current);
    assert_eq!(text, "   serde 1.0.160 -- 1.0.160 - ok");
}

#[test]
fn line_reports_a_dependency_that_is_behind() {
    let v = Version::parse("1.27.0").unwrap();
    let latest = Version::parse("1.28.0").unwrap();
    let (status, text) = Checker::line("tokio", 8, &v, &latest);
    assert_eq!(status, Status::Update);
    assert_eq!(text, "   tokio 1.27.0 -> 1.28.0 - update");
}

#[test]
fn line_column_is_at_least_four_wide() {
    let v = Version::parse("1.0.0").unwrap();
    let (_, text) = Checker::line("a", 3, &v, &v);
    assert_eq!(text, "   a 1.0.0 -- 1.0.0 - ok");
    let (_, text) = Checker::line("longname", 3, &v, &v);
    assert_eq!(text, "longname 1.0.0 -- 1.0.0 - ok");
}
