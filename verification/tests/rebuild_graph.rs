use cargo_frequent::rebuild_graph::{
    extract_package_name, normalize_crate_name, PackageTarget, RebuildGraph, RebuildNode,
};
use cargo_frequent::rebuild_reason::RebuildReason;

fn dependency(package_id: &str, name: &str) -> RebuildNode {
    RebuildNode::new(
        PackageTarget::new(package_id, None),
        RebuildReason::UnitDependencyInfoChanged {
            name: name.to_string(),
            old_fingerprint: "1".to_string(),
            new_fingerprint: "2".to_string(),
            context: None,
        },
    )
}

fn file(package_id: &str, path: &str) -> RebuildNode {
    RebuildNode::new(
        PackageTarget::new(package_id, None),
        RebuildReason::FileChanged { path: path.to_string() },
    )
}

fn affected(graph: &RebuildGraph, root: usize) -> Vec<String> {
    graph
        .find_affected_packages(root)
        .iter()
        .map(|n| n.package.package_id.clone())
        .collect()
}

#[test]
fn indices_count_up() {
    let mut graph = RebuildGraph::new();
    assert_eq!(graph.add_node(file("a v1.0.0", "x.rs")), Some(0));
    assert_eq!(graph.add_node(file("b v1.0.0", "x.rs")), Some(1));
    assert_eq!(graph.nodes().len(), 2);
    assert_eq!(graph.nodes()[1].package.package_id, "b v1.0.0");
}

#[test]
fn repeated_rebuild_is_refused() {
    let mut graph = RebuildGraph::default();
    assert_eq!(graph.add_node(file("a v1.0.0", "x.rs")), Some(0));
    assert_eq!(graph.add_node(file("a v1.0.0", "x.rs")), None);
    assert_eq!(graph.nodes().len(), 1);
}

#[test]
fn version_and_target_do_not_make_a_rebuild_new() {
    let mut graph = RebuildGraph::new();
    graph.add_node(file("a v1.0.0", "x.rs"));
    graph.add_node(file("b v1.0.0", "x.rs"));
    let mut again = file("a v2.0.0", "x.rs");
    again.package.target = Some("build-script-build".to_string());
    assert_eq!(graph.add_node(again), None);
    assert_eq!(graph.add_node(file("a v1.0.0", "y.rs")), Some(2));
}

#[test]
fn package_name_is_the_first_word() {
    assert_eq!(extract_package_name("libz-sys v1.1.23"), "libz-sys");
    assert_eq!(extract_package_name("  serde\tv1.0.0"), "serde");
    assert_eq!(extract_package_name("serde"), "serde");
    assert_eq!(extract_package_name(""), "");
    assert_eq!(extract_package_name("  "), "  ");
}

#[test]
fn hyphens_count_as_underscores() {
    assert_eq!(normalize_crate_name("libz-sys_x"), "libz_sys_x");
    assert_eq!(normalize_crate_name("libz_sys-x"), "libz_sys_x");
    assert_eq!(normalize_crate_name(&normalize_crate_name("a-b")), normalize_crate_name("a-b"));
    assert_ne!(normalize_crate_name("ab"), normalize_crate_name("a-b"));
    assert_eq!(normalize_crate_name("größe-x"), "größe_x");
}

#[test]
fn unit_is_described_by_name_and_target() {
    let unit = PackageTarget::new("libz-sys v1.1.23", Some("build-script-build".to_string()));
    assert_eq!(unit.describe(), "libz-sys [build-script-build]");
    assert_eq!(PackageTarget::new("serde v1.0.0", None).describe(), "serde");
}

#[test]
fn chain_of_dependencies_is_followed() {
    let mut graph = RebuildGraph::new();
    graph.add_node(file("lib-a v0.1.0", "src/lib.rs"));
    graph.add_node(dependency("app v0.1.0", "lib_b"));
    graph.add_node(dependency("lib-b v0.1.0", "lib_a"));
    graph.add_node(dependency("other v0.1.0", "elsewhere"));
    assert_eq!(affected(&graph, 0), vec!["app v0.1.0", "lib-b v0.1.0"]);
    assert_eq!(affected(&graph, 2), vec!["app v0.1.0"]);
    assert!(affected(&graph, 1).is_empty());
    assert!(affected(&graph, 3).is_empty());
}

#[test]
fn root_causes_are_affected_by_nothing() {
    let mut graph = RebuildGraph::new();
    graph.add_node(file("a v1.0.0", "x.rs"));
    graph.add_node(file("b v1.0.0", "x.rs"));
    graph.add_node(dependency("c v1.0.0", "a"));
    assert!(graph.nodes()[0].is_root_cause());
    assert!(!graph.nodes()[2].is_root_cause());
    assert_eq!(affected(&graph, 0), vec!["c v1.0.0"]);
    assert!(affected(&graph, 1).is_empty());
}

#[test]
fn circular_dependencies_come_to_an_end() {
    let mut graph = RebuildGraph::new();
    graph.add_node(file("root v1.0.0", "x.rs"));
    graph.add_node(dependency("a v1.0.0", "b"));
    graph.add_node(dependency("b v1.0.0", "a"));
    assert!(affected(&graph, 0).is_empty());
    graph.add_node(dependency("b v1.0.0", "root"));
    assert_eq!(affected(&graph, 0), vec!["a v1.0.0", "b v1.0.0", "b v1.0.0"]);
}

#[test]
fn rebuilds_are_compared_by_all_they_hold() {
    let a = file("a v1.0.0", "x.rs");
    assert!(a == a.clone());
    assert!(a != file("a v1.0.1", "x.rs"));
    assert!(a != file("a v1.0.0", "y.rs"));
    assert!(a.package != PackageTarget::new("a v1.0.0", Some("t".to_string())));
    assert!(dependency("a", "b").reason != dependency("a", "c").reason);
}
