use cargo_frequent::build_script_watches::{BuildScriptWatches, WatchMap};
use cargo_frequent::rebuild_graph::{PackageTarget, RebuildGraph, RebuildNode};
use cargo_frequent::rebuild_reason::RebuildReason;
use cargo_frequent::root_cause_cluster::{cluster, ClusterTrigger};

#[test]
fn collapses_same_env_var_into_one_cluster() {
    let mut graph = RebuildGraph::new();

    graph.add_node(RebuildNode::new(
        PackageTarget::new(
            "pyo3-build-config v0.21.0",
            Some("build-script-build".to_string()),
        ),
        RebuildReason::EnvVarChanged {
            name: "PATH".to_string(),
            old_value: Some("/a".to_string()),
            new_value: Some("/b".to_string()),
        },
    ));
    graph.add_node(RebuildNode::new(
        PackageTarget::new("numpy v0.21.0", None),
        RebuildReason::EnvVarChanged {
            name: "PATH".to_string(),
            old_value: Some("/a".to_string()),
            new_value: Some("/b".to_string()),
        },
    ));
    graph.add_node(RebuildNode::new(
        PackageTarget::new("python_utils v0.1.0", None),
        RebuildReason::UnitDependencyInfoChanged {
            name: "numpy".to_string(),
            old_fingerprint: "1".to_string(),
            new_fingerprint: "2".to_string(),
            context: None,
        },
    ));

    let mut directives = WatchMap::new();
    directives.insert(
        "pyo3-build-config".to_string(),
        BuildScriptWatches {
            env_vars: vec!["PATH".to_string()],
            paths: vec![],
        },
    );

    let clusters = cluster(&graph, &directives);
    assert_eq!(clusters.len(), 1, "two PATH events should collapse");
    let c = &clusters[0];
    assert!(matches!(&c.trigger, ClusterTrigger::EnvVar(name) if name == "PATH"));
    assert!(c.volatile, "PATH must be flagged volatile");
    assert_eq!(c.watched_by, vec!["pyo3-build-config".to_string()]);
    assert_eq!(c.source_packages.len(), 2);
    assert_eq!(c.affected_packages.len(), 1);
}

#[test]
fn separate_triggers_remain_separate_clusters() {
    let mut graph = RebuildGraph::new();
    graph.add_node(RebuildNode::new(
        PackageTarget::new("a v1.0.0", None),
        RebuildReason::EnvVarChanged {
            name: "PATH".to_string(),
            old_value: None,
            new_value: Some("x".to_string()),
        },
    ));
    graph.add_node(RebuildNode::new(
        PackageTarget::new("b v1.0.0", None),
        RebuildReason::FileChanged {
            path: "src/lib.rs".to_string(),
        },
    ));

    let clusters = cluster(&graph, &WatchMap::new());
    assert_eq!(clusters.len(), 2);
}

#[test]
fn builds_and_analyzes_rebuild_graph() {
    let mut graph = RebuildGraph::new();

    graph.add_node(RebuildNode::new(
        PackageTarget::new("libz-sys v1.1.23", None),
        RebuildReason::EnvVarChanged {
            name: "CC".to_string(),
            old_value: Some("gcc".to_string()),
            new_value: None,
        },
    ));

    graph.add_node(RebuildNode::new(
        PackageTarget::new("rusqlite v0.31.0", None),
        RebuildReason::UnitDependencyInfoChanged {
            name: "libz-sys".to_string(),
            old_fingerprint: "123".to_string(),
            new_fingerprint: "456".to_string(),
            context: None,
        },
    ));

    let clusters = cluster(&graph, &WatchMap::new());
    assert_eq!(clusters.len(), 1);
    assert!(matches!(&clusters[0].trigger, ClusterTrigger::EnvVar(name) if name == "CC"));
    assert_eq!(clusters[0].source_packages.len(), 1);
    assert_eq!(clusters[0].affected_packages.len(), 1);
}

fn unit(package_id: &str, reason: RebuildReason) -> RebuildNode {
    RebuildNode::new(PackageTarget::new(package_id, None), reason)
}

fn env(name: &str) -> RebuildReason {
    RebuildReason::EnvVarChanged { name: name.to_string(), old_value: None, new_value: None }
}

fn dependency(name: &str) -> RebuildReason {
    RebuildReason::UnitDependencyInfoChanged {
        name: name.to_string(),
        old_fingerprint: String::new(),
        new_fingerprint: String::new(),
        context: None,
    }
}

fn ids(packages: &[PackageTarget]) -> Vec<String> {
    packages.iter().map(|p| p.package_id.clone()).collect()
}

#[test]
fn every_reason_has_its_trigger() {
    let trigger = |reason: RebuildReason| ClusterTrigger::from_reason(&reason);
    let text = |t: &str| t.to_string();
    assert_eq!(trigger(env("CC")), ClusterTrigger::EnvVar(text("CC")));
    assert_eq!(
        trigger(RebuildReason::FileChanged { path: text("a/b/c.rs") }),
        ClusterTrigger::File(text("a/b/c.rs"))
    );
    assert_eq!(
        trigger(RebuildReason::RustflagsChanged { old: vec![], new: vec![text("-C")] }),
        ClusterTrigger::Rustflags
    );
    assert_eq!(
        trigger(RebuildReason::FeaturesChanged { old: text(""), new: text("x") }),
        ClusterTrigger::Features
    );
    assert_eq!(trigger(RebuildReason::ProfileConfigurationChanged), ClusterTrigger::Profile);
    assert_eq!(trigger(RebuildReason::TargetConfigurationChanged), ClusterTrigger::TargetConfig);
    assert_eq!(trigger(RebuildReason::Unknown(text("x"))), ClusterTrigger::Unknown(text("x")));
    assert_eq!(trigger(dependency("x")), ClusterTrigger::Unknown(text("dependency change")));
}

#[test]
fn triggers_are_described() {
    let text = |t: &str| t.to_string();
    assert_eq!(ClusterTrigger::EnvVar(text("PATH")).describe(), "env:PATH");
    assert_eq!(ClusterTrigger::File(text("/p/src/main.rs")).describe(), "file:src/main.rs");
    assert_eq!(ClusterTrigger::File(text("main.rs")).describe(), "file:main.rs");
    assert_eq!(ClusterTrigger::Rustflags.describe(), "rustflags");
    assert_eq!(ClusterTrigger::Features.describe(), "features");
    assert_eq!(ClusterTrigger::Profile.describe(), "profile");
    assert_eq!(ClusterTrigger::TargetConfig.describe(), "target config");
    assert_eq!(ClusterTrigger::Unknown(text("what?")).describe(), "what?");
}

#[test]
fn empty_graph_has_no_cluster() {
    assert!(cluster(&RebuildGraph::new(), &WatchMap::new()).is_empty());
}

#[test]
fn dependency_changes_alone_make_no_cluster() {
    let mut graph = RebuildGraph::new();
    graph.add_node(unit("a v1.0.0", dependency("")));
    graph.add_node(unit("b v1.0.0", dependency("a")));
    assert!(cluster(&graph, &WatchMap::new()).is_empty());
}

#[test]
fn clusters_come_in_order_and_share_no_source() {
    let mut graph = RebuildGraph::new();
    graph.add_node(unit("a v1.0.0", env("CC")));
    graph.add_node(unit("b v1.0.0", RebuildReason::ProfileConfigurationChanged));
    graph.add_node(unit("c v1.0.0", env("CC")));
    graph.add_node(unit("d v1.0.0", env("CXX")));
    graph.add_node(unit("a v1.0.0", RebuildReason::ProfileConfigurationChanged));
    let clusters = cluster(&graph, &WatchMap::new());
    assert_eq!(clusters.len(), 3);
    assert_eq!(clusters[0].trigger, ClusterTrigger::EnvVar("CC".to_string()));
    assert_eq!(ids(&clusters[0].source_packages), vec!["a v1.0.0", "c v1.0.0"]);
    assert_eq!(clusters[1].trigger, ClusterTrigger::Profile);
    assert_eq!(ids(&clusters[1].source_packages), vec!["b v1.0.0", "a v1.0.0"]);
    assert_eq!(clusters[2].trigger, ClusterTrigger::EnvVar("CXX".to_string()));
    assert_eq!(ids(&clusters[2].source_packages), vec!["d v1.0.0"]);
    assert!(clusters.iter().all(|c| c.affected_packages.is_empty()));
}

#[test]
fn package_affected_by_two_sources_is_listed_once() {
    let mut graph = RebuildGraph::new();
    graph.add_node(unit("a v1.0.0", env("CC")));
    graph.add_node(unit("b v1.0.0", env("CC")));
    graph.add_node(unit("c v1.0.0", dependency("a")));
    graph.add_node(unit("c v1.0.0", dependency("b")));
    graph.add_node(unit("d v1.0.0", dependency("c")));
    let clusters = cluster(&graph, &WatchMap::new());
    assert_eq!(clusters.len(), 1);
    let affected = &clusters[0].affected_packages;
    assert_eq!(affected.len(), 3);
    assert!(affected[0] == unit("c v1.0.0", dependency("a")));
    assert!(affected[1] == unit("d v1.0.0", dependency("c")));
    assert!(affected[2] == unit("c v1.0.0", dependency("b")));
    assert!(affected.iter().all(|n| !n.is_root_cause()));
}

#[test]
fn only_environment_variables_are_watched_or_volatile() {
    let mut graph = RebuildGraph::new();
    graph.add_node(unit("a v1.0.0", env("CC")));
    graph.add_node(unit("a v1.0.0", RebuildReason::FileChanged { path: "PATH".to_string() }));
    graph.add_node(unit("a v1.0.0", env("HOME")));
    let mut watches = WatchMap::new();
    for name in ["z", "m", "b"] {
        watches.insert(
            name.to_string(),
            BuildScriptWatches {
                env_vars: vec!["CC".to_string(), "PATH".to_string()],
                paths: vec!["HOME".to_string()],
            },
        );
    }
    let clusters = cluster(&graph, &watches);
    assert_eq!(clusters[0].watched_by, vec!["b", "m", "z"]);
    assert!(!clusters[0].volatile);
    assert!(clusters[1].watched_by.is_empty());
    assert!(!clusters[1].volatile);
    assert!(clusters[2].watched_by.is_empty());
    assert!(clusters[2].volatile);
}

#[test]
fn copy_of_a_cluster_holds_the_same() {
    let mut graph = RebuildGraph::new();
    graph.add_node(unit("a v1.0.0", env("PATH")));
    graph.add_node(unit("b v1.0.0", dependency("a")));
    let clusters = cluster(&graph, &WatchMap::new());
    let copy = clusters[0].clone();
    assert_eq!(copy.trigger, clusters[0].trigger);
    assert!(copy.source_packages == clusters[0].source_packages);
    assert!(copy.affected_packages == clusters[0].affected_packages);
    assert_eq!(copy.watched_by, clusters[0].watched_by);
    assert_eq!(copy.volatile, clusters[0].volatile);
}

#[test]
fn clustering_again_gives_the_same() {
    let mut graph = RebuildGraph::new();
    for (package_id, var) in [("a v1", "HOME"), ("b v1", "CC"), ("c v1", "HOME"), ("d v1", "AR")] {
        graph.add_node(unit(package_id, env(var)));
    }
    graph.add_node(unit("e v1", dependency("a")));
    let mut watches = WatchMap::new();
    watches.insert(
        "w".to_string(),
        BuildScriptWatches { env_vars: vec!["CC".to_string()], paths: vec![] },
    );
    let one = cluster(&graph, &watches);
    let other = cluster(&graph, &watches);
    assert_eq!(one.len(), 3);
    assert_eq!(format!("{one:?}"), format!("{other:?}"));
}
