//! Laws of the drawings of clusters.

use vstd::prelude::*;

use crate::build_script_watches::{is_volatile_name, is_watching, BuildScriptWatchesView};
use crate::cluster_ascii_dag_renderer::{
    causes, causes_among, cluster_label, cluster_text, edges, edges_among, edges_to, is_cause,
    nodes, package_labels, report, trigger_text,
};
use crate::dag::drawing;
use crate::rebuild_graph::{crate_key, package_name, RebuildNodeView};
use crate::rebuild_reason::RebuildReasonView;
use crate::root_cause_cluster::{is_cluster_of, ClusterTriggerView, RootCauseClusterView};
use crate::text::{first_word, joined, last_components};

verus! {

/// The nodes are numbered from zero on, without a gap: the trigger, then the
/// affected packages in their order.
pub proof fn law_nodes_are_numbered(cluster: RootCauseClusterView, id: int)
    requires
        cluster.affected_packages.len() < usize::MAX,
        0 <= id <= cluster.affected_packages.len(),
    ensures
        nodes(cluster).len() == cluster.affected_packages.len() + 1,
        nodes(cluster)[id].0 == id,
        id > 0 ==> nodes(cluster)[id].1 == cluster.affected_packages[id - 1].name(),
{
}

/// There is an edge between two packages exactly if the first is the cause of
/// the second one's rebuild, and one from the trigger to a package exactly if
/// the cluster holds no cause of its rebuild. No edge leads to the trigger.
pub proof fn law_edges_lead_from_causes(cluster: RootCauseClusterView, from: int, to: int)
    requires
        cluster.affected_packages.len() < usize::MAX,
        0 <= from <= cluster.affected_packages.len(),
        0 <= to <= cluster.affected_packages.len(),
    ensures
        edges(cluster).contains((from as usize, to as usize)) <==> {
            let affected = cluster.affected_packages;
            if to == 0 {
                false
            } else if from == 0 {
                forall|j: int|
                    0 <= j < affected.len() ==> !is_cause(
                        #[trigger] affected[j],
                        affected[to - 1].reason,
                    )
            } else {
                is_cause(affected[from - 1], affected[to - 1].reason)
            }
        },
{
    let affected = cluster.affected_packages;
    let n = affected.len() as int;
    lemma_edges_among(affected, n, from as usize, to as usize);
    if to > 0 {
        let reason = affected[to - 1].reason;
        let here = edges_to(affected, to - 1);
        let found = causes(affected, reason);
        if from > 0 {
            lemma_causes_among(affected, reason, n, from - 1);
        }
        if found.len() == 0 {
            assert(here =~= seq![(0usize, to as usize)]);
            assert(here[0] == (0usize, to as usize));
            assert(!found.contains(from - 1));
            assert forall|j: int| 0 <= j < n implies !is_cause(#[trigger] affected[j], reason) by {
                lemma_causes_among(affected, reason, n, j);
            }
        } else {
            lemma_causes_among(affected, reason, n, found[0]);
            assert(found.contains(found[0]));
            assert(is_cause(affected[found[0]], reason));
            assert forall|k: int| 0 <= k < here.len() implies (#[trigger] here[k]).0 == found[k] + 1
                && here[k].1 == to && found[k] >= 0 by {
                lemma_causes_among(affected, reason, n, found[k]);
                assert(found.contains(found[k]));
            }
            if from > 0 && found.contains(from - 1) {
                let k = choose|k: int| 0 <= k < found.len() && found[k] == from - 1;
                assert(here[k] == (from as usize, to as usize));
            }
            if here.contains((from as usize, to as usize)) {
                let k = choose|k: int|
                    0 <= k < here.len() && here[k] == (from as usize, to as usize);
                assert(found[k] == from - 1);
                assert(found.contains(from - 1));
            }
        }
    }
}

proof fn lemma_causes_among(
    affected: Seq<RebuildNodeView>,
    reason: RebuildReasonView,
    n: int,
    j: int,
)
    ensures
        causes_among(affected, reason, n).contains(j) <==> 0 <= j < n && is_cause(
            affected[j],
            reason,
        ),
    decreases n,
{
    if n > 0 {
        lemma_causes_among(affected, reason, n - 1, j);
        let shorter = causes_among(affected, reason, n - 1);
        let now = causes_among(affected, reason, n);
        if shorter.contains(j) {
            let k = choose|k: int| 0 <= k < shorter.len() && shorter[k] == j;
            assert(now[k] == j);
        }
        if is_cause(affected[n - 1], reason) {
            assert(now[shorter.len() as int] == n - 1);
            if now.contains(j) && j != n - 1 {
                let k = choose|k: int| 0 <= k < now.len() && now[k] == j;
                assert(shorter[k] == j);
            }
        }
    }
}

/// The edges to one package are listed among all edges, and no others that lead
/// there.
proof fn lemma_edges_among(affected: Seq<RebuildNodeView>, n: int, from: usize, to: usize)
    requires
        n <= affected.len() < usize::MAX,
    ensures
        edges_among(affected, n).contains((from, to)) <==> 0 < to <= n && edges_to(
            affected,
            to - 1,
        ).contains((from, to)),
    decreases n,
{
    if n > 0 {
        lemma_edges_among(affected, n - 1, from, to);
        let earlier = edges_among(affected, n - 1);
        let here = edges_to(affected, n - 1);
        let now = edges_among(affected, n);
        assert forall|k: int| 0 <= k < here.len() implies (#[trigger] here[k]).1 == n by {}
        if earlier.contains((from, to)) {
            let k = choose|k: int| 0 <= k < earlier.len() && earlier[k] == (from, to);
            assert(now[k] == (from, to));
        }
        if here.contains((from, to)) {
            let k = choose|k: int| 0 <= k < here.len() && here[k] == (from, to);
            assert(now[earlier.len() + k] == (from, to));
        }
        if now.contains((from, to)) {
            let k = choose|k: int| 0 <= k < now.len() && now[k] == (from, to);
            if k < earlier.len() {
                assert(earlier[k] == (from, to));
            } else {
                assert(here[k - earlier.len()] == (from, to));
            }
        }
    }
}

/// Every affected package is reached by an edge.
pub proof fn law_every_package_is_reached(cluster: RootCauseClusterView, to: int)
    requires
        cluster.affected_packages.len() < usize::MAX,
        0 < to <= cluster.affected_packages.len(),
    ensures
        exists|k: int| 0 <= k < edges(cluster).len() && (#[trigger] edges(cluster)[k]).1 == to,
{
    let affected = cluster.affected_packages;
    let here = edges_to(affected, to - 1);
    assert(here.len() > 0);
    assert(here[0].1 == to);
    lemma_edges_among(affected, affected.len() as int, here[0].0, to as usize);
    assert(here[0] == (here[0].0, to as usize));
    assert(edges(cluster).contains(here[0]));
}

/// One more cluster stands behind the others, with a blank line before it.
pub proof fn law_reports_grow(texts: Seq<Seq<char>>, text: Seq<char>)
    requires
        texts.len() > 0,
    ensures
        report(texts.push(text)) == report(texts) + "\n"@ + text,
{
    assert(texts.push(text).drop_last() =~= texts);
}

/// The label of an environment variable's cluster names the variable, marks it
/// exactly if it is volatile, and lists who watches it.
pub proof fn law_label_of_variable(
    cluster: RootCauseClusterView,
    nodes: Seq<RebuildNodeView>,
    watches: Map<Seq<char>, BuildScriptWatchesView>,
    name: Seq<char>,
)
    requires
        is_cluster_of(cluster, nodes, watches, ClusterTriggerView::EnvVar(name)),
    ensures
        cluster_label(cluster) == "env:"@ + name + (if is_volatile_name(name) {
            " [volatile]"@
        } else {
            Seq::empty()
        }) + (if exists|watcher: Seq<char>|
            #![trigger watches.dom().contains(watcher)]
            watches.dom().contains(watcher) && watches[watcher].env_vars.contains(name) {
            " watched-by:"@ + joined(cluster.watched_by, ","@)
        } else {
            Seq::empty()
        }),
{
    let list = cluster.watched_by;
    assert(is_watching(list, watches, name));
    if list.len() > 0 {
        assert(list.contains(list[0]));
        assert(watches.dom().contains(list[0]));
    } else {
        assert forall|watcher: Seq<char>| #[trigger] watches.dom().contains(watcher) implies
            !watches[watcher].env_vars.contains(name) by {
            assert(!list.contains(watcher));
        }
    }
}

/// The label of a cluster: what its trigger names, the mark of a volatile one,
/// and who watches it.
pub proof fn law_labels_of_clusters(cluster: RootCauseClusterView)
    ensures
        ({
            let trigger = match cluster.trigger {
                ClusterTriggerView::EnvVar(name) => "env:"@ + name,
                ClusterTriggerView::File(path) => "file:"@ + last_components(path),
                ClusterTriggerView::Rustflags => "rustflags"@,
                ClusterTriggerView::Features => "features"@,
                ClusterTriggerView::Profile => "profile"@,
                ClusterTriggerView::TargetConfig => "target-config"@,
                ClusterTriggerView::Unknown(text) => text,
            };
            let marked = if cluster.volatile {
                trigger + " [volatile]"@
            } else {
                trigger
            };
            cluster_label(cluster) == if cluster.watched_by.len() > 0 {
                marked + " watched-by:"@ + joined(cluster.watched_by, ","@)
            } else {
                marked
            }
        }),
{
    let label = cluster_label(cluster);
    let trigger = trigger_text(cluster.trigger);
    if cluster.watched_by.len() > 0 {
        let marked = if cluster.volatile {
            trigger + " [volatile]"@
        } else {
            trigger
        };
        assert(label =~= marked + " watched-by:"@ + joined(cluster.watched_by, ","@));
    } else if cluster.volatile {
        assert(label =~= trigger + " [volatile]"@);
    } else {
        assert(label =~= trigger);
    }
}

/// The trigger's node has the cluster's label, and that of a package the name
/// in its package id.
pub proof fn law_labels_of_nodes(cluster: RootCauseClusterView, id: int)
    requires
        0 < id <= cluster.affected_packages.len(),
    ensures
        nodes(cluster).len() == cluster.affected_packages.len() + 1,
        nodes(cluster)[0] == (0usize, cluster_label(cluster)),
        nodes(cluster)[id].1 == package_name(
            cluster.affected_packages[id - 1].package.package_id,
        ),
        package_labels(cluster.affected_packages).len() == cluster.affected_packages.len(),
        package_labels(cluster.affected_packages)[id - 1] == package_name(
            cluster.affected_packages[id - 1].package.package_id,
        ),
{
}

/// A package is a cause exactly if the reason is a changed dependency of its
/// name, up to hyphens and underscores on either side.
pub proof fn law_causes_by_name(node: RebuildNodeView, other: RebuildNodeView)
    ensures
        is_cause(node, other.reason) <==> match other.reason {
            RebuildReasonView::UnitDependencyInfoChanged { name, .. } => crate_key(
                first_word(node.package.package_id),
            ) == crate_key(name),
            _ => false,
        },
        first_word(node.package.package_id).len() > 0 ==> (is_cause(node, other.reason)
            <==> other.cause() == Some(node.key())),
{
}

/// In a drawing there is an edge from one package to another exactly if the
/// second one's reason is a changed dependency whose name is, up to hyphens and
/// underscores on either side, the first word of the first one's package id.
pub proof fn law_edges_follow_names(cluster: RootCauseClusterView, i: int, j: int)
    requires
        cluster.affected_packages.len() < usize::MAX,
        0 <= i < cluster.affected_packages.len(),
        0 <= j < cluster.affected_packages.len(),
    ensures
        edges(cluster).contains(((i + 1) as usize, (j + 1) as usize))
            <==> match cluster.affected_packages[j].reason {
            RebuildReasonView::UnitDependencyInfoChanged { name, .. } => crate_key(name)
                == crate_key(first_word(cluster.affected_packages[i].package.package_id)),
            _ => false,
        },
{
    law_edges_lead_from_causes(cluster, i + 1, j + 1);
}

/// The drawing agrees with the graph: between packages whose ids hold a name,
/// there is an edge exactly where the graph has the one as the cause of the
/// other.
pub proof fn law_edges_agree_with_the_graph(cluster: RootCauseClusterView, i: int, j: int)
    requires
        cluster.affected_packages.len() < usize::MAX,
        0 <= i < cluster.affected_packages.len(),
        0 <= j < cluster.affected_packages.len(),
        first_word(cluster.affected_packages[i].package.package_id).len() > 0,
    ensures
        edges(cluster).contains(((i + 1) as usize, (j + 1) as usize))
            <==> cluster.affected_packages[j].cause() == Some(cluster.affected_packages[i].key()),
{
    law_edges_follow_names(cluster, i, j);
}

/// An edge leads from the trigger to a package exactly if the package's reason
/// names none of the cluster's packages.
pub proof fn law_edges_from_the_trigger(cluster: RootCauseClusterView, j: int)
    requires
        cluster.affected_packages.len() < usize::MAX,
        0 <= j < cluster.affected_packages.len(),
    ensures
        edges(cluster).contains((0usize, (j + 1) as usize))
            <==> match cluster.affected_packages[j].reason {
            RebuildReasonView::UnitDependencyInfoChanged { name, .. } => forall|i: int|
                0 <= i < cluster.affected_packages.len() ==> crate_key(
                    first_word((#[trigger] cluster.affected_packages[i]).package.package_id),
                ) != crate_key(name),
            _ => true,
        },
{
    law_edges_lead_from_causes(cluster, 0, j + 1);
    let affected = cluster.affected_packages;
    let reason = affected[j].reason;
    if let RebuildReasonView::UnitDependencyInfoChanged { name, .. } = reason {
        assert forall|i: int| 0 <= i < affected.len() implies (is_cause(
            #[trigger] affected[i],
            reason,
        ) <==> crate_key(first_word(affected[i].package.package_id)) == crate_key(name)) by {}
    }
}

/// Edges are listed package by package, and for one package in the order of its
/// causes, each once and between nodes that are there.
pub proof fn law_edges_in_order(cluster: RootCauseClusterView, j: int, k: int)
    requires
        cluster.affected_packages.len() < usize::MAX,
        0 <= j < k < edges(cluster).len(),
    ensures
        edges(cluster)[j].1 < edges(cluster)[k].1 || (edges(cluster)[j].1 == edges(cluster)[k].1
            && edges(cluster)[j].0 < edges(cluster)[k].0),
        0 < edges(cluster)[k].1 <= cluster.affected_packages.len(),
        edges(cluster)[k].0 <= cluster.affected_packages.len(),
{
    lemma_edges_in_order(
        cluster.affected_packages,
        cluster.affected_packages.len() as int,
        j,
        k,
    );
}

proof fn lemma_causes_in_order(
    affected: Seq<RebuildNodeView>,
    reason: RebuildReasonView,
    n: int,
)
    ensures
        forall|k: int|
            0 <= k < causes_among(affected, reason, n).len() ==> 0 <= #[trigger] causes_among(
                affected,
                reason,
                n,
            )[k] < n,
        forall|j: int, k: int|
            0 <= j < k < causes_among(affected, reason, n).len() ==> #[trigger] causes_among(
                affected,
                reason,
                n,
            )[j] < #[trigger] causes_among(affected, reason, n)[k],
    decreases n,
{
    if n > 0 {
        lemma_causes_in_order(affected, reason, n - 1);
        let shorter = causes_among(affected, reason, n - 1);
        let now = causes_among(affected, reason, n);
        assert forall|k: int| 0 <= k < now.len() implies 0 <= #[trigger] now[k] < n by {
            if k < shorter.len() {
                assert(now[k] == shorter[k]);
            }
        }
        assert forall|j: int, k: int| 0 <= j < k < now.len() implies #[trigger] now[j]
            < #[trigger] now[k] by {
            assert(now[j] == shorter[j]);
            if k < shorter.len() {
                assert(now[k] == shorter[k]);
            }
        }
    }
}

proof fn lemma_edges_in_order(affected: Seq<RebuildNodeView>, n: int, j: int, k: int)
    requires
        n <= affected.len() < usize::MAX,
        0 <= j <= k < edges_among(affected, n).len(),
    ensures
        j < k ==> edges_among(affected, n)[j].1 < edges_among(affected, n)[k].1 || (edges_among(
            affected,
            n,
        )[j].1 == edges_among(affected, n)[k].1 && edges_among(affected, n)[j].0 < edges_among(
            affected,
            n,
        )[k].0),
        0 < edges_among(affected, n)[k].1 <= n,
        edges_among(affected, n)[k].0 <= affected.len(),
    decreases n,
{
    let earlier = edges_among(affected, n - 1);
    let here = edges_to(affected, n - 1);
    let now = edges_among(affected, n);
    let found = causes(affected, affected[n - 1].reason);
    lemma_causes_in_order(affected, affected[n - 1].reason, affected.len() as int);
    if k < earlier.len() {
        lemma_edges_in_order(affected, n - 1, j, k);
        assert(now[k] == earlier[k] && now[j] == earlier[j]);
    } else {
        assert(now[k] == here[k - earlier.len()]);
        assert(now[k].1 == n);
        if j < earlier.len() {
            lemma_edges_in_order(affected, n - 1, j, j);
            assert(now[j] == earlier[j]);
        } else {
            assert(now[j] == here[j - earlier.len()]);
        }
    }
}

/// The causes that are found for a package are those of its cluster that its
/// reason names, from first to last.
pub proof fn law_causes_in_a_cluster(
    affected: Seq<RebuildNodeView>,
    reason: RebuildReasonView,
    j: int,
    k: int,
)
    ensures
        causes(affected, reason).contains(j) <==> 0 <= j < affected.len() && match reason {
            RebuildReasonView::UnitDependencyInfoChanged { name, .. } => crate_key(name)
                == crate_key(first_word(affected[j].package.package_id)),
            _ => false,
        },
        0 <= j < k < causes(affected, reason).len() ==> causes(affected, reason)[j] < causes(
            affected,
            reason,
        )[k],
{
    lemma_causes_among(affected, reason, affected.len() as int, j);
    lemma_causes_in_order(affected, reason, affected.len() as int);
}

/// A report of one cluster is its text, and one of none is a message. A
/// cluster's text is its drawing with the end of the line behind it.
pub proof fn law_reports_start(text: Seq<char>, cluster: RootCauseClusterView)
    ensures
        report(Seq::empty()) == "No rebuild triggers detected.\n"@,
        report(seq![text]) == text,
        cluster_text(cluster) == drawing(nodes(cluster), edges(cluster)) + "\n"@,
{
}

} // verus!
