use emanate::graph::DependencyGraph;
use emanate::manifest::{Crate, Dependency, Entry, Package, PackageVersion};

fn package(name: &str, deps: &[&str]) -> Crate {
    Crate {
        file: format!("{}/Cargo.toml", name),
        folder: name.to_string(),
        toml: String::new(),
        package: Package {
            name: name.to_string(),
            version: PackageVersion::Workspace,
            publish: None,
        },
        dependencies: deps
            .iter()
            .map(|d| Entry { name: d.to_string(), dependency: Dependency::Pinned("1.0.0".to_string()) })
            .collect(),
    }
}

fn order_of(crates: &Vec<Crate>) -> Result<Vec<String>, String> {
    let graph = DependencyGraph::build(crates);
    match graph.publish_order() {
        Ok(order) => Ok(order.iter().map(|&i| graph.names[i].clone()).collect()),
        Err(k) => Err(graph.names[k].clone()),
    }
}

#[test]
fn graph_has_an_edge_for_each_dependency_on_another_member() {
    let crates = vec![package("a", &["b", "serde", "a"]), package("b", &[]), package("c", &["b", "a"])];
    let graph = DependencyGraph::build(&crates);
    assert_eq!(graph.names, vec!["a", "b", "c"]);
    assert_eq!(graph.edges, vec![vec![1], vec![], vec![0, 1]]);
}

#[test]
fn empty_graph_has_an_empty_order() {
    assert_eq!(order_of(&Vec::new()), Ok(Vec::new()));
}

#[test]
fn packages_without_dependencies_keep_their_order() {
    let crates = vec![package("c", &[]), package("a", &[]), package("b", &[])];
    assert_eq!(order_of(&crates).unwrap(), vec!["c", "a", "b"]);
}

#[test]
fn dependencies_come_before_their_dependents() {
    let crates = vec![
        package("app", &["core", "util"]),
        package("util", &["core"]),
        package("core", &[]),
        package("extra", &["app"]),
        package("lone", &[]),
    ];
    let order = order_of(&crates).unwrap();
    assert_eq!(order, vec!["core", "lone", "util", "app", "extra"]);
    let at = |name: &str| order.iter().position(|n| n == name).unwrap();
    for c in &crates {
        for d in &c.dependencies {
            assert!(at(&d.name) < at(&c.package.name));
        }
    }
}

#[test]
fn nodes_that_become_ready_in_one_pass_are_placed_in_declaration_order() {
    let crates = vec![
        package("d", &["b"]),
        package("c", &["a"]),
        package("b", &[]),
        package("a", &[]),
    ];
    assert_eq!(order_of(&crates).unwrap(), vec!["b", "a", "d", "c"]);
}

#[test]
fn cycle_of_three_is_an_error() {
    let crates = vec![package("x", &["y"]), package("y", &["z"]), package("z", &["x"])];
    assert_eq!(order_of(&crates), Err("x".to_string()));
}

#[test]
fn cycle_is_reported_with_the_first_package_that_cannot_be_placed() {
    let crates = vec![
        package("free", &[]),
        package("above", &["p"]),
        package("p", &["q"]),
        package("q", &["p"]),
    ];
    assert_eq!(order_of(&crates), Err("above".to_string()));
}

#[test]
fn dependency_on_itself_is_no_edge() {
    let crates = vec![package("a", &["a"])];
    assert_eq!(order_of(&crates).unwrap(), vec!["a"]);
}

#[test]
fn dependencies_outside_the_packages_do_not_count() {
    let crates = vec![package("a", &["serde", "tokio"]), package("b", &["a", "rand"])];
    assert_eq!(order_of(&crates).unwrap(), vec!["a", "b"]);
}
