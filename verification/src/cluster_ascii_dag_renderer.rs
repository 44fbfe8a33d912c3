//! Draws clusters for people to read.
//!
//! A cluster is drawn as a layered graph with the trigger at the top: an edge
//! leads to every package that was rebuilt, from the package whose rebuild
//! caused it, or from the trigger where no package of the cluster did.

use ascii_dag::graph::Graph;
use vstd::prelude::*;

use crate::dag::{
    add_dag_edge, add_dag_node, dag_edges, dag_nodes, drawing, has_id, is_plain_vertical,
    render_dag, vertical_dag,
};
use crate::rebuild_graph::{
    crate_key, extract_package_name, normalize_crate_name, package_name, RebuildNode,
    RebuildNodeView,
};
use crate::rebuild_reason::{RebuildReason, RebuildReasonView};
use crate::root_cause_cluster::{
    as_ints, ClusterTrigger, ClusterTriggerView, RootCauseCluster, RootCauseClusterView,
};
use crate::text::{
    chars_of, first_word, first_word_of, join, joined, last_components, prefixed, short_path,
    string_of,
};

verus! {

/// The label of a trigger.
pub open spec fn trigger_text(trigger: ClusterTriggerView) -> Seq<char> {
    match trigger {
        ClusterTriggerView::EnvVar(name) => "env:"@ + name,
        ClusterTriggerView::File(path) => "file:"@ + last_components(path),
        ClusterTriggerView::Rustflags => "rustflags"@,
        ClusterTriggerView::Features => "features"@,
        ClusterTriggerView::Profile => "profile"@,
        ClusterTriggerView::TargetConfig => "target-config"@,
        ClusterTriggerView::Unknown(text) => text,
    }
}

/// The label of a cluster: its trigger, whether that is volatile, and who
/// watches it.
pub open spec fn cluster_label(cluster: RootCauseClusterView) -> Seq<char> {
    trigger_text(cluster.trigger) + (if cluster.volatile {
        " [volatile]"@
    } else {
        Seq::empty()
    }) + (if cluster.watched_by.len() > 0 {
        " watched-by:"@ + joined(cluster.watched_by, ","@)
    } else {
        Seq::empty()
    })
}

/// Writes the label of a cluster.
pub fn trigger_node_label(cluster: &RootCauseCluster) -> (label: String)
    ensures
        label@ == cluster_label(cluster@),
{
    let mut label: String = match &cluster.trigger {
        ClusterTrigger::EnvVar(name) => prefixed("env:", name.as_str()),
        ClusterTrigger::File(path) => prefixed("file:", short_path(path.as_str()).as_str()),
        ClusterTrigger::Rustflags => "rustflags".to_owned(),
        ClusterTrigger::Features => "features".to_owned(),
        ClusterTrigger::Profile => "profile".to_owned(),
        ClusterTrigger::TargetConfig => "target-config".to_owned(),
        ClusterTrigger::Unknown(text) => text.clone(),
    };
    if cluster.volatile {
        label.append(" [volatile]");
    }
    if cluster.watched_by.len() > 0 {
        label.append(" watched-by:");
        label.append(join(&cluster.watched_by, ",").as_str());
    }
    assert(label@ =~= cluster_label(cluster@));
    label
}

/// Shortens a package id to the package's name.
pub fn short_package_label(package_id: &str) -> (label: String)
    ensures
        label@ == package_name(package_id@),
{
    extract_package_name(package_id)
}

/// The labels of a drawing.
pub struct Labels {
    pub trigger: String,
    pub nodes: Vec<String>,
}

/// The labels of the packages that were rebuilt.
pub open spec fn package_labels(affected: Seq<RebuildNodeView>) -> Seq<Seq<char>> {
    affected.map_values(|n: RebuildNodeView| n.name())
}

/// Writes the labels of a drawing.
pub fn build_labels(cluster: &RootCauseCluster) -> (labels: Labels)
    ensures
        labels.trigger@ == cluster_label(cluster@),
        labels.nodes.deep_view() == package_labels(cluster@.affected_packages),
{
    let mut nodes: Vec<String> = Vec::new();
    let mut i: usize = 0;
    while i < cluster.affected_packages.len()
        invariant
            i <= cluster.affected_packages@.len(),
            nodes.deep_view() == package_labels(cluster@.affected_packages).take(i as int),
        decreases cluster.affected_packages@.len() - i,
    {
        let ghost before = nodes.deep_view();
        let label: String = short_package_label(
            cluster.affected_packages[i].package.package_id.as_str(),
        );
        let ghost l = label@;
        nodes.push(label);
        assert(nodes.deep_view() =~= before.push(l));
        i = i + 1;
        assert(cluster@.affected_packages[i - 1] == cluster.affected_packages@[i - 1]@);
        assert(nodes.deep_view() =~= package_labels(cluster@.affected_packages).take(i as int));
    }
    assert(nodes.deep_view() =~= package_labels(cluster@.affected_packages));
    Labels { trigger: trigger_node_label(cluster), nodes }
}

/// Whether `node` is a rebuild of the crate whose change `reason` reports.
pub open spec fn is_cause(node: RebuildNodeView, reason: RebuildReasonView) -> bool {
    match reason {
        RebuildReasonView::UnitDependencyInfoChanged { name, .. } => crate_key(
            first_word(node.package.package_id),
        ) == crate_key(name),
        _ => false,
    }
}

/// The indices below `n` of the rebuilds that caused one with this reason.
pub open spec fn causes_among(
    affected: Seq<RebuildNodeView>,
    reason: RebuildReasonView,
    n: int,
) -> Seq<int>
    decreases n,
{
    if n <= 0 {
        Seq::empty()
    } else if is_cause(affected[n - 1], reason) {
        causes_among(affected, reason, n - 1).push(n - 1)
    } else {
        causes_among(affected, reason, n - 1)
    }
}

/// The indices of the rebuilds that caused one with this reason.
pub open spec fn causes(affected: Seq<RebuildNodeView>, reason: RebuildReasonView) -> Seq<int> {
    causes_among(affected, reason, affected.len() as int)
}

/// Finds the packages of a cluster whose rebuild caused that of `affected`.
pub fn cause_indices_within_cluster(
    cluster: &RootCauseCluster,
    affected: &RebuildNode,
) -> (indices: Vec<usize>)
    ensures
        as_ints(indices@) == causes(cluster@.affected_packages, affected.reason@),
{
    let ghost all = cluster@.affected_packages;
    let mut indices: Vec<usize> = Vec::new();
    if let RebuildReason::UnitDependencyInfoChanged { name, .. } = &affected.reason {
        let cause: String = normalize_crate_name(name.as_str());
        let mut i: usize = 0;
        while i < cluster.affected_packages.len()
            invariant
                all == cluster@.affected_packages,
                i <= all.len(),
                affected.reason@ matches RebuildReasonView::UnitDependencyInfoChanged {
                    name: n,
                    ..
                } && n == name@,
                cause@ == crate_key(name@),
                as_ints(indices@) == causes_among(all, affected.reason@, i as int),
            decreases all.len() - i,
        {
            let id: Vec<char> = chars_of(cluster.affected_packages[i].package.package_id.as_str());
            let word: String = string_of(first_word_of(id.as_slice()));
            assert(all[i as int] == cluster.affected_packages@[i as int]@);
            if normalize_crate_name(word.as_str()) == cause {
                let ghost before = as_ints(indices@);
                indices.push(i);
                assert(as_ints(indices@) =~= before.push(i as int));
            }
            i = i + 1;
        }
    } else {
        proof {
            lemma_no_causes(all, affected.reason@, all.len() as int);
        }
    }
    indices
}

proof fn lemma_no_causes(affected: Seq<RebuildNodeView>, reason: RebuildReasonView, n: int)
    requires
        !(reason is UnitDependencyInfoChanged),
    ensures
        causes_among(affected, reason, n) == Seq::<int>::empty(),
    decreases n,
{
    if n > 0 {
        lemma_no_causes(affected, reason, n - 1);
    }
}

/// The edges that lead to the `i`th package: from those that caused its rebuild,
/// or from the trigger where there are none. The trigger is node zero, the
/// packages follow it.
pub open spec fn edges_to(affected: Seq<RebuildNodeView>, i: int) -> Seq<(usize, usize)> {
    let found = causes(affected, affected[i].reason);
    if found.len() == 0 {
        seq![(0usize, (i + 1) as usize)]
    } else {
        found.map_values(|c: int| ((c + 1) as usize, (i + 1) as usize))
    }
}

/// The edges that lead to the first `n` packages.
pub open spec fn edges_among(affected: Seq<RebuildNodeView>, n: int) -> Seq<(usize, usize)>
    decreases n,
{
    if n <= 0 {
        Seq::empty()
    } else {
        edges_among(affected, n - 1) + edges_to(affected, n - 1)
    }
}

/// The edges of the drawing of a cluster.
pub open spec fn edges(cluster: RootCauseClusterView) -> Seq<(usize, usize)> {
    edges_among(cluster.affected_packages, cluster.affected_packages.len() as int)
}

proof fn lemma_causes_in_range(affected: Seq<RebuildNodeView>, reason: RebuildReasonView, n: int)
    ensures
        forall|k: int|
            0 <= k < causes_among(affected, reason, n).len() ==> 0 <= #[trigger] causes_among(
                affected,
                reason,
                n,
            )[k] < n,
    decreases n,
{
    if n > 0 {
        lemma_causes_in_range(affected, reason, n - 1);
        let shorter = causes_among(affected, reason, n - 1);
        assert forall|k: int| 0 <= k < causes_among(affected, reason, n).len() implies 0
            <= #[trigger] causes_among(affected, reason, n)[k] < n by {
            if k < shorter.len() {
                assert(causes_among(affected, reason, n)[k] == shorter[k]);
            }
        }
    }
}

/// Whether every edge leads from and to one of the nodes up to `last`.
pub open spec fn edges_within(list: Seq<(usize, usize)>, last: int) -> bool {
    forall|k: int| 0 <= k < list.len() ==> (#[trigger] list[k]).0 <= last && list[k].1 <= last
}

/// Computes the edges of the drawing of a cluster.
pub fn find_edges(cluster: &RootCauseCluster) -> (list: Vec<(usize, usize)>)
    ensures
        list@ == edges(cluster@),
        edges_within(list@, cluster@.affected_packages.len() as int),
{
    let ghost all = cluster@.affected_packages;
    let mut list: Vec<(usize, usize)> = Vec::new();
    let mut i: usize = 0;
    while i < cluster.affected_packages.len()
        invariant
            all == cluster@.affected_packages,
            i <= all.len(),
            list@ == edges_among(all, i as int),
            edges_within(list@, all.len() as int),
        decreases all.len() - i,
    {
        let found: Vec<usize> = cause_indices_within_cluster(
            cluster,
            &cluster.affected_packages[i],
        );
        let ghost reason = all[i as int].reason;
        let ghost before = list@;
        assert(all[i as int] == cluster.affected_packages@[i as int]@);
        if found.len() == 0 {
            list.push((0, i + 1));
            assert(list@ =~= before + edges_to(all, i as int));
        } else {
            proof {
                lemma_causes_in_range(all, reason, all.len() as int);
            }
            let mut k: usize = 0;
            while k < found.len()
                invariant
                    i < cluster.affected_packages.len(),
                    all.len() == cluster.affected_packages.len(),
                    k <= found@.len(),
                    found@.len() > 0,
                    as_ints(found@) == causes(all, reason),
                    forall|m: int|
                        0 <= m < causes(all, reason).len() ==> 0 <= #[trigger] causes(
                            all,
                            reason,
                        )[m] < all.len(),
                    reason == all[i as int].reason,
                    list@ == before + edges_to(all, i as int).take(k as int),
                    edges_within(list@, all.len() as int),
                decreases found@.len() - k,
            {
                assert(causes(all, reason)[k as int] == found@[k as int]);
                assert(found@[k as int] < cluster.affected_packages.len());
                list.push((found[k] + 1, i + 1));
                k = k + 1;
                assert(list@ =~= before + edges_to(all, i as int).take(k as int));
            }
            assert(edges_to(all, i as int).take(k as int) =~= edges_to(all, i as int));
        }
        i = i + 1;
    }
    list
}

/// The nodes of the drawing of a cluster.
pub open spec fn nodes(cluster: RootCauseClusterView) -> Seq<(usize, Seq<char>)> {
    seq![(0usize, cluster_label(cluster))] + numbered(package_labels(cluster.affected_packages))
}

/// Labels with the ids that follow that of the trigger.
pub open spec fn numbered(labels: Seq<Seq<char>>) -> Seq<(usize, Seq<char>)> {
    Seq::new(labels.len(), |i: int| ((i + 1) as usize, labels[i]))
}

/// Builds the graph of a cluster.
fn build_dag<'a>(cluster: &RootCauseCluster, labels: &'a Labels) -> (dag: Graph<'a>)
    requires
        labels.trigger@ == cluster_label(cluster@),
        labels.nodes.deep_view() == package_labels(cluster@.affected_packages),
    ensures
        is_plain_vertical(dag),
        dag_nodes(dag) == nodes(cluster@),
        dag_edges(dag) == edges(cluster@),
{
    let ghost texts = labels.nodes.deep_view();
    let mut dag = vertical_dag();
    add_dag_node(&mut dag, 0, labels.trigger.as_str());
    let mut i: usize = 0;
    while i < labels.nodes.len()
        invariant
            texts == labels.nodes.deep_view(),
            i <= texts.len(),
            is_plain_vertical(dag),
            dag_nodes(dag) == seq![(0usize, labels.trigger@)] + numbered(texts.take(i as int)),
            dag_edges(dag) == Seq::<(usize, usize)>::empty(),
        decreases texts.len() - i,
    {
        assert(!has_id(dag_nodes(dag), (i + 1) as usize));
        add_dag_node(&mut dag, i + 1, labels.nodes[i].as_str());
        i = i + 1;
        assert(dag_nodes(dag) =~= seq![(0usize, labels.trigger@)] + numbered(
            texts.take(i as int),
        ));
    }
    assert(dag_nodes(dag) =~= nodes(cluster@)) by {
        assert(texts.take(i as int) =~= texts);
    }
    let list: Vec<(usize, usize)> = find_edges(cluster);
    let mut k: usize = 0;
    while k < list.len()
        invariant
            k <= list@.len(),
            list@ == edges(cluster@),
            edges_within(list@, cluster@.affected_packages.len() as int),
            is_plain_vertical(dag),
            dag_nodes(dag) == nodes(cluster@),
            dag_edges(dag) == list@.take(k as int),
            cluster@.affected_packages.len() <= usize::MAX,
        decreases list@.len() - k,
    {
        proof {
            lemma_has_id(cluster@, list@[k as int].0);
            lemma_has_id(cluster@, list@[k as int].1);
        }
        add_dag_edge(&mut dag, list[k].0, list[k].1);
        k = k + 1;
        assert(dag_edges(dag) =~= list@.take(k as int));
    }
    assert(list@.take(k as int) =~= list@);
    dag
}

proof fn lemma_has_id(cluster: RootCauseClusterView, id: usize)
    requires
        id <= cluster.affected_packages.len() <= usize::MAX,
    ensures
        has_id(nodes(cluster), id),
{
    assert(nodes(cluster)[id as int].0 == id);
}

/// What is drawn of a cluster.
pub open spec fn cluster_text(cluster: RootCauseClusterView) -> Seq<char> {
    drawing(nodes(cluster), edges(cluster)) + "\n"@
}

/// Writes a drawing and ends its last line.
pub fn write_drawing(text: &str, out: &mut String)
    ensures
        final(out)@ == old(out)@ + (text@ + "\n"@),
{
    out.append(text);
    out.append("\n");
    assert(out@ =~= old(out)@ + (text@ + "\n"@));
}

/// Draws a cluster.
pub fn render_cluster(cluster: &RootCauseCluster, out: &mut String)
    ensures
        final(out)@ == old(out)@ + cluster_text(cluster@),
{
    let labels: Labels = build_labels(cluster);
    let dag = build_dag(cluster, &labels);
    write_drawing(render_dag(&dag).as_str(), out);
}

/// A list of drawn clusters, with a blank line between them, or a message in
/// the place of an empty list.
pub open spec fn report(texts: Seq<Seq<char>>) -> Seq<char> {
    if texts.len() == 0 {
        "No rebuild triggers detected.\n"@
    } else {
        joined(texts, "\n"@)
    }
}

/// Writes a list of drawn clusters.
pub fn write_report(texts: &Vec<String>, out: &mut String)
    ensures
        final(out)@ == old(out)@ + report(texts.deep_view()),
{
    if texts.len() == 0 {
        out.append("No rebuild triggers detected.\n");
    } else {
        out.append(join(texts, "\n").as_str());
    }
}

/// Draws every cluster, with a blank line between them.
pub fn render(clusters: &[RootCauseCluster], out: &mut String)
    ensures
        final(out)@ == old(out)@ + report(
            clusters@.map_values(|c: RootCauseCluster| cluster_text(c@)),
        ),
{
    let ghost all = clusters@.map_values(|c: RootCauseCluster| cluster_text(c@));
    let mut texts: Vec<String> = Vec::new();
    let mut i: usize = 0;
    while i < clusters.len()
        invariant
            all == clusters@.map_values(|c: RootCauseCluster| cluster_text(c@)),
            i <= clusters@.len(),
            texts.deep_view() == all.take(i as int),
        decreases clusters@.len() - i,
    {
        let ghost before = texts.deep_view();
        let mut text: String = String::new();
        render_cluster(&clusters[i], &mut text);
        assert(text@ =~= all[i as int]);
        texts.push(text);
        assert(texts.deep_view() =~= before.push(text@));
        i = i + 1;
        assert(texts.deep_view() =~= all.take(i as int));
    }
    assert(all.take(i as int) =~= all);
    write_report(&texts, out);
}

} // verus!
