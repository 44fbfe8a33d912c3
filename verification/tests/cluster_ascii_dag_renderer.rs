use ascii_dag::graph::{Graph, RenderMode};
use cargo_frequent::cluster_ascii_dag_renderer::{
    build_labels, cause_indices_within_cluster, find_edges, render, render_cluster,
    short_package_label, trigger_node_label, write_drawing, write_report,
};
use cargo_frequent::rebuild_graph::{PackageTarget, RebuildNode};
use cargo_frequent::rebuild_reason::RebuildReason;
use cargo_frequent::root_cause_cluster::{ClusterTrigger, RootCauseCluster};

fn sample_cluster() -> RootCauseCluster {
    RootCauseCluster {
        trigger: ClusterTrigger::EnvVar("PATH".to_string()),
        source_packages: vec![PackageTarget::new(
            "pyo3-build-config v0.21.0",
            Some("build-script-build".to_string()),
        )],
        affected_packages: vec![
            RebuildNode::new(
                PackageTarget::new("numpy v0.21.0", None),
                RebuildReason::EnvVarChanged {
                    name: "PATH".to_string(),
                    old_value: None,
                    new_value: Some("x".to_string()),
                },
            ),
            RebuildNode::new(
                PackageTarget::new("python_utils v0.1.0", None),
                RebuildReason::UnitDependencyInfoChanged {
                    name: "numpy".to_string(),
                    old_fingerprint: "1".to_string(),
                    new_fingerprint: "2".to_string(),
                    context: None,
                },
            ),
        ],
        watched_by: vec!["pyo3-build-config".to_string()],
        volatile: true,
    }
}

#[test]
fn trigger_label_includes_volatile_and_watched_by() {
    let cluster = sample_cluster();
    let label = trigger_node_label(&cluster);
    assert!(label.contains("env:PATH"));
    assert!(label.contains("[volatile]"));
    assert!(label.contains("watched-by:pyo3-build-config"));
}

#[test]
fn render_emits_header_and_dag_nodes() {
    let mut out = String::new();
    render(&[sample_cluster()], &mut out);
    assert!(out.contains("env:PATH"));
    assert!(out.contains("numpy"));
    assert!(out.contains("python_utils"));
}

#[test]
fn empty_clusters_message() {
    let mut out = String::new();
    render(&[], &mut out);
    assert!(out.contains("No rebuild triggers detected"));
}

#[test]
fn dependency_chain_renders_trigger_above_leaves() {
    let cluster = sample_cluster();
    let mut out = String::new();
    render_cluster(&cluster, &mut out);
    let path_pos = out.find("env:PATH").expect("PATH node");
    let utils_pos = out.find("[python_utils]").expect("python_utils node");
    assert!(
        path_pos < utils_pos,
        "trigger should appear above downstream package: {out}"
    );
}

#[test]
fn labels_are_short() {
    let mut cluster = sample_cluster();
    assert_eq!(trigger_node_label(&cluster), "env:PATH [volatile] watched-by:pyo3-build-config");
    let labels = build_labels(&cluster);
    assert_eq!(labels.trigger, trigger_node_label(&cluster));
    assert_eq!(labels.nodes, vec!["numpy", "python_utils"]);
    assert_eq!(short_package_label("libz-sys v1.1.23"), "libz-sys");
    cluster.volatile = false;
    cluster.watched_by.push("z".to_string());
    assert_eq!(trigger_node_label(&cluster), "env:PATH watched-by:pyo3-build-config,z");
    cluster.watched_by.clear();
    for (trigger, label) in [
        (ClusterTrigger::File("/p/src/main.rs".to_string()), "file:src/main.rs"),
        (ClusterTrigger::Rustflags, "rustflags"),
        (ClusterTrigger::Features, "features"),
        (ClusterTrigger::Profile, "profile"),
        (ClusterTrigger::TargetConfig, "target-config"),
        (ClusterTrigger::Unknown("what?".to_string()), "what?"),
    ] {
        cluster.trigger = trigger;
        assert_eq!(trigger_node_label(&cluster), label);
    }
}

#[test]
fn edges_lead_from_causes_or_from_the_trigger() {
    let mut cluster = sample_cluster();
    assert_eq!(find_edges(&cluster), vec![(0, 1), (1, 2)]);
    let causes = cause_indices_within_cluster(&cluster, &cluster.affected_packages[1]);
    assert_eq!(causes, vec![0]);
    assert!(cause_indices_within_cluster(&cluster, &cluster.affected_packages[0]).is_empty());
    let first = cluster.affected_packages[0].clone();
    cluster.affected_packages.push(first);
    assert_eq!(find_edges(&cluster), vec![(0, 1), (1, 2), (3, 2), (0, 3)]);
    cluster.affected_packages.clear();
    assert!(find_edges(&cluster).is_empty());
}

#[test]
fn cluster_is_drawn_as_its_graph() {
    let cluster = sample_cluster();
    let mut dag = Graph::with_mode(RenderMode::Vertical);
    dag.add_node(0, "env:PATH [volatile] watched-by:pyo3-build-config");
    dag.add_node(1, "numpy");
    dag.add_node(2, "python_utils");
    dag.add_edge(0, 1, None);
    dag.add_edge(1, 2, None);
    let mut out = "before\n".to_string();
    render_cluster(&cluster, &mut out);
    assert_eq!(out, format!("before\n{}\n", dag.render()));
}

#[test]
fn clusters_stand_apart() {
    let cluster = sample_cluster();
    let mut one = String::new();
    render_cluster(&cluster, &mut one);
    let mut two = "x".to_string();
    render(&[cluster.clone(), cluster], &mut two);
    assert_eq!(two, format!("x{one}\n{one}"));
}

#[test]
fn drawings_are_written_one_after_the_other() {
    let mut out = String::new();
    write_drawing("a", &mut out);
    assert_eq!(out, "a\n");
    write_report(&vec!["b\n".to_string(), "c\n".to_string()], &mut out);
    assert_eq!(out, "a\nb\n\nc\n");
    write_report(&Vec::new(), &mut out);
    assert_eq!(out, "a\nb\n\nc\nNo rebuild triggers detected.\n");
}

#[test]
fn package_that_causes_itself_is_drawn() {
    let mut cluster = sample_cluster();
    if let RebuildReason::UnitDependencyInfoChanged { name, .. } =
        &mut cluster.affected_packages[1].reason
    {
        *name = "python-utils".to_string();
    }
    assert_eq!(find_edges(&cluster), vec![(0, 1), (2, 2)]);
    let mut out = String::new();
    render_cluster(&cluster, &mut out);
    assert!(out.ends_with('\n'));
    assert!(out.len() > 1);
}

#[test]
fn odd_labels_are_drawn() {
    for text in ["", " ", "größe €\u{1f600}", "a\nb", "x".repeat(300).as_str()] {
        let mut cluster = sample_cluster();
        cluster.trigger = ClusterTrigger::Unknown(text.to_string());
        cluster.volatile = false;
        cluster.watched_by.clear();
        cluster.affected_packages[0].package.package_id = text.to_string();
        let mut out = String::new();
        render_cluster(&cluster, &mut out);
        assert!(out.ends_with('\n'));
    }
}

#[test]
fn large_clusters_are_drawn() {
    let mut cluster = sample_cluster();
    cluster.affected_packages.clear();
    for i in 0..60u32 {
        for cause in [i / 2, i / 3] {
            cluster.affected_packages.push(RebuildNode::new(
                PackageTarget::new(&format!("p{i} v1.0.0"), None),
                RebuildReason::UnitDependencyInfoChanged {
                    name: if i == 0 { "root".to_string() } else { format!("p{cause}") },
                    old_fingerprint: "1".to_string(),
                    new_fingerprint: "2".to_string(),
                    context: None,
                },
            ));
        }
    }
    let mut out = String::new();
    render_cluster(&cluster, &mut out);
    assert!(out.contains("[p59]"));
    let mut again = String::new();
    render_cluster(&cluster, &mut again);
    assert_eq!(out, again);
}
