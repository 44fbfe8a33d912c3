//! Laws of clusters.

use vstd::prelude::*;

use crate::build_script_watches::{is_volatile_name, is_watching, BuildScriptWatchesView};
use crate::laws::graph::{
    law_affected_goes_on, law_affected_packages, law_affected_packages_are_distinct,
    law_named_cause_affects,
};
use crate::rebuild_graph::{
    affected_packages, all_distinct, crate_key, is_affected, package_name, RebuildNodeView,
};
use crate::rebuild_reason::RebuildReasonView;
use crate::root_cause_cluster::{
    all_affected, is_cluster_of, lemma_sources, lemma_triggers_distinct, packages_at, sources,
    sources_among, trigger_of, triggers, triggers_among, with_new, ClusterTriggerView,
    RootCauseClusterView,
};
use crate::text_order::{before, lemma_sorted_lists_agree};

verus! {

/// Root causes with the same trigger are one cluster: no trigger has two.
pub proof fn law_one_cluster_for_a_trigger(nodes: Seq<RebuildNodeView>)
    ensures
        triggers(nodes).no_duplicates(),
{
    lemma_triggers_distinct(nodes, nodes.len() as int);
}

/// Every root cause is a source of the cluster of its own trigger, which is
/// there, and of no other; what is no root cause is a source of none.
pub proof fn law_root_cause_is_in_one_cluster(
    nodes: Seq<RebuildNodeView>,
    i: int,
    trigger: ClusterTriggerView,
)
    requires
        0 <= i < nodes.len(),
    ensures
        nodes[i].is_root_cause() ==> triggers(nodes).contains(trigger_of(nodes[i].reason)),
        sources(nodes, trigger).contains(i) <==> nodes[i].is_root_cause() && trigger_of(
            nodes[i].reason,
        ) == trigger,
{
    lemma_triggers_among(nodes, nodes.len() as int, trigger_of(nodes[i].reason));
    lemma_sources(nodes, trigger, nodes.len() as int);
    if nodes[i].is_root_cause() && trigger_of(nodes[i].reason) == trigger {
        lemma_is_source(nodes, trigger, nodes.len() as int, i);
    }
}

/// The sources of a cluster come in the order of the graph, each once.
pub proof fn law_sources_in_order(
    nodes: Seq<RebuildNodeView>,
    trigger: ClusterTriggerView,
    j: int,
    k: int,
)
    requires
        0 <= j < k < sources(nodes, trigger).len(),
    ensures
        sources(nodes, trigger)[j] < sources(nodes, trigger)[k],
{
    lemma_sources_in_order(nodes, trigger, nodes.len() as int, j, k);
}

proof fn lemma_sources_in_order(
    nodes: Seq<RebuildNodeView>,
    trigger: ClusterTriggerView,
    n: int,
    j: int,
    k: int,
)
    requires
        0 <= j < k < sources_among(nodes, trigger, n).len(),
    ensures
        sources_among(nodes, trigger, n)[j] < sources_among(nodes, trigger, n)[k],
    decreases n,
{
    let earlier = sources_among(nodes, trigger, n - 1);
    if k < earlier.len() {
        lemma_sources_in_order(nodes, trigger, n - 1, j, k);
    } else {
        lemma_sources(nodes, trigger, n - 1);
        assert(earlier[j] < n - 1);
    }
}

proof fn lemma_triggers_among(nodes: Seq<RebuildNodeView>, n: int, trigger: ClusterTriggerView)
    requires
        n <= nodes.len(),
    ensures
        triggers_among(nodes, n).contains(trigger) <==> exists|i: int|
            0 <= i < n && (#[trigger] nodes[i]).is_root_cause() && trigger_of(nodes[i].reason)
                == trigger,
    decreases n,
{
    if n > 0 {
        lemma_triggers_among(nodes, n - 1, trigger);
        let earlier = triggers_among(nodes, n - 1);
        let now = triggers_among(nodes, n);
        if earlier.contains(trigger) {
            let k = choose|k: int| 0 <= k < earlier.len() && earlier[k] == trigger;
            assert(now[k] == trigger);
        }
        if nodes[n - 1].is_root_cause() {
            let t = trigger_of(nodes[n - 1].reason);
            if !earlier.contains(t) {
                assert(now[earlier.len() as int] == t);
            }
        }
        if now.contains(trigger) && !earlier.contains(trigger) {
            let k = choose|k: int| 0 <= k < now.len() && now[k] == trigger;
            if k < earlier.len() {
                assert(earlier[k] == trigger);
            }
            assert(nodes[n - 1].is_root_cause());
        }
    }
}

proof fn lemma_is_source(
    nodes: Seq<RebuildNodeView>,
    trigger: ClusterTriggerView,
    n: int,
    i: int,
)
    requires
        0 <= i < n,
        nodes[i].is_root_cause(),
        trigger_of(nodes[i].reason) == trigger,
    ensures
        sources_among(nodes, trigger, n).contains(i),
    decreases n,
{
    let now = sources_among(nodes, trigger, n);
    let earlier = sources_among(nodes, trigger, n - 1);
    if i == n - 1 {
        assert(now[earlier.len() as int] == i);
    } else {
        lemma_is_source(nodes, trigger, n - 1, i);
        let k = choose|k: int| 0 <= k < earlier.len() && earlier[k] == i;
        assert(now[k] == i);
    }
}

/// No cluster is without a source.
pub proof fn law_clusters_have_sources(
    cluster: RootCauseClusterView,
    nodes: Seq<RebuildNodeView>,
    watches: Map<Seq<char>, BuildScriptWatchesView>,
    trigger: ClusterTriggerView,
)
    requires
        is_cluster_of(cluster, nodes, watches, trigger),
        triggers(nodes).contains(trigger),
    ensures
        cluster.source_packages.len() > 0,
{
    lemma_triggers_among(nodes, nodes.len() as int, trigger);
    let i = choose|i: int|
        0 <= i < nodes.len() && (#[trigger] nodes[i]).is_root_cause() && trigger_of(
            nodes[i].reason,
        ) == trigger;
    lemma_is_source(nodes, trigger, nodes.len() as int, i);
    assert(packages_at(nodes, sources(nodes, trigger)).len() == sources(nodes, trigger).len());
}

/// There is no cluster exactly if there is no root cause: rebuilds that were
/// caused by others make none.
pub proof fn law_no_root_cause_no_cluster(nodes: Seq<RebuildNodeView>)
    ensures
        triggers(nodes).len() == 0 <==> forall|i: int|
            0 <= i < nodes.len() ==> !(#[trigger] nodes[i]).is_root_cause(),
{
    if triggers(nodes).len() > 0 {
        let t = triggers(nodes)[0];
        assert(triggers(nodes).contains(t));
        lemma_triggers_among(nodes, nodes.len() as int, t);
    } else {
        assert forall|i: int| 0 <= i < nodes.len() implies !(
        #[trigger] nodes[i]).is_root_cause() by {
            lemma_triggers_among(nodes, nodes.len() as int, trigger_of(nodes[i].reason));
        }
    }
}

/// The affected packages of a cluster are those of its sources, put together:
/// each is there once, none is a root cause.
pub proof fn law_cluster_unites_its_sources(
    cluster: RootCauseClusterView,
    nodes: Seq<RebuildNodeView>,
    watches: Map<Seq<char>, BuildScriptWatchesView>,
    trigger: ClusterTriggerView,
    node: RebuildNodeView,
)
    requires
        is_cluster_of(cluster, nodes, watches, trigger),
    ensures
        cluster.affected_packages.no_duplicates(),
        cluster.affected_packages.contains(node) <==> exists|k: int|
            0 <= k < sources(nodes, trigger).len() && affected_packages(
                nodes,
                #[trigger] sources(nodes, trigger)[k],
            ).contains(node),
        cluster.affected_packages.contains(node) ==> !node.is_root_cause(),
{
    let indices = sources(nodes, trigger);
    lemma_all_affected(nodes, indices, node);
    lemma_all_affected_distinct(nodes, indices);
    if cluster.affected_packages.contains(node) {
        let k = choose|k: int|
            0 <= k < indices.len() && affected_packages(nodes, #[trigger] indices[k]).contains(
                node,
            );
        law_affected_packages(nodes, indices[k], node);
    }
}

proof fn lemma_with_new(
    list: Seq<RebuildNodeView>,
    more: Seq<RebuildNodeView>,
    node: RebuildNodeView,
)
    ensures
        with_new(list, more).contains(node) <==> list.contains(node) || more.contains(node),
    decreases more.len(),
{
    if more.len() > 0 {
        let fewer = more.drop_last();
        lemma_with_new(list, fewer, node);
        let earlier = with_new(list, fewer);
        let now = with_new(list, more);
        assert(more.contains(node) <==> fewer.contains(node) || node == more.last()) by {
            if fewer.contains(node) {
                let k = choose|k: int| 0 <= k < fewer.len() && fewer[k] == node;
                assert(more[k] == node);
            }
            if more.contains(node) && node != more.last() {
                let k = choose|k: int| 0 <= k < more.len() && more[k] == node;
                assert(fewer[k] == node);
            }
            assert(more[more.len() - 1] == more.last());
        }
        if earlier.contains(node) {
            let k = choose|k: int| 0 <= k < earlier.len() && earlier[k] == node;
            assert(now[k] == node);
        }
        if !earlier.contains(more.last()) {
            assert(now[earlier.len() as int] == more.last());
            if now.contains(node) && node != more.last() {
                let k = choose|k: int| 0 <= k < now.len() && now[k] == node;
                assert(earlier[k] == node);
            }
        }
    }
}

proof fn lemma_with_new_distinct(list: Seq<RebuildNodeView>, more: Seq<RebuildNodeView>)
    requires
        list.no_duplicates(),
    ensures
        with_new(list, more).no_duplicates(),
    decreases more.len(),
{
    if more.len() > 0 {
        lemma_with_new_distinct(list, more.drop_last());
        let earlier = with_new(list, more.drop_last());
        let now = with_new(list, more);
        assert forall|i: int, j: int|
            0 <= i < now.len() && 0 <= j < now.len() && i != j implies now[i] != now[j] by {
            if now.len() > earlier.len() {
                if i < earlier.len() {
                    assert(earlier.contains(earlier[i]));
                }
                if j < earlier.len() {
                    assert(earlier.contains(earlier[j]));
                }
            }
        }
    }
}

proof fn lemma_all_affected(nodes: Seq<RebuildNodeView>, indices: Seq<int>, node: RebuildNodeView)
    ensures
        all_affected(nodes, indices).contains(node) <==> exists|k: int|
            0 <= k < indices.len() && affected_packages(nodes, #[trigger] indices[k]).contains(
                node,
            ),
    decreases indices.len(),
{
    if indices.len() > 0 {
        let fewer = indices.drop_last();
        lemma_all_affected(nodes, fewer, node);
        lemma_with_new(
            all_affected(nodes, fewer),
            affected_packages(nodes, indices.last()),
            node,
        );
        if all_affected(nodes, fewer).contains(node) {
            let k = choose|k: int|
                0 <= k < fewer.len() && affected_packages(nodes, #[trigger] fewer[k]).contains(
                    node,
                );
            assert(indices[k] == fewer[k]);
        }
        assert(indices[indices.len() - 1] == indices.last());
        if exists|k: int|
            0 <= k < indices.len() && affected_packages(nodes, #[trigger] indices[k]).contains(
                node,
            ) {
            let k = choose|k: int|
                0 <= k < indices.len() && affected_packages(
                    nodes,
                    #[trigger] indices[k],
                ).contains(node);
            if k < fewer.len() {
                assert(fewer[k] == indices[k]);
            }
        }
    }
}

proof fn lemma_all_affected_distinct(nodes: Seq<RebuildNodeView>, indices: Seq<int>)
    ensures
        all_affected(nodes, indices).no_duplicates(),
    decreases indices.len(),
{
    if indices.len() > 0 {
        lemma_all_affected_distinct(nodes, indices.drop_last());
        lemma_with_new_distinct(
            all_affected(nodes, indices.drop_last()),
            affected_packages(nodes, indices.last()),
        );
    }
}

/// The graph, the watches and the trigger leave no choice: there is one cluster
/// that fits them.
pub proof fn law_cluster_is_determined(
    a: RootCauseClusterView,
    b: RootCauseClusterView,
    nodes: Seq<RebuildNodeView>,
    watches: Map<Seq<char>, BuildScriptWatchesView>,
    trigger: ClusterTriggerView,
)
    requires
        is_cluster_of(a, nodes, watches, trigger),
        is_cluster_of(b, nodes, watches, trigger),
    ensures
        a == b,
{
    if let ClusterTriggerView::EnvVar(name) = trigger {
        assert(is_watching(a.watched_by, watches, name));
        assert(is_watching(b.watched_by, watches, name));
        lemma_sorted_lists_agree(a.watched_by, b.watched_by);
    }
}

/// The trigger of a reason is what the reason names, whole and unchanged.
pub proof fn law_triggers_of_reasons(reason: RebuildReasonView)
    ensures
        match reason {
            RebuildReasonView::EnvVarChanged { name, old_value, new_value } => trigger_of(reason)
                == ClusterTriggerView::EnvVar(name),
            RebuildReasonView::FileChanged { path } => trigger_of(reason)
                == ClusterTriggerView::File(path),
            RebuildReasonView::RustflagsChanged { .. } => trigger_of(reason)
                == ClusterTriggerView::Rustflags,
            RebuildReasonView::FeaturesChanged { .. } => trigger_of(reason)
                == ClusterTriggerView::Features,
            RebuildReasonView::ProfileConfigurationChanged => trigger_of(reason)
                == ClusterTriggerView::Profile,
            RebuildReasonView::TargetConfigurationChanged => trigger_of(reason)
                == ClusterTriggerView::TargetConfig,
            RebuildReasonView::Unknown(text) => trigger_of(reason) == ClusterTriggerView::Unknown(
                text,
            ),
            RebuildReasonView::UnitDependencyInfoChanged { .. } => trigger_of(reason)
                == ClusterTriggerView::Unknown("dependency change"@),
        },
{
}

/// Two changed files have the same trigger exactly if their whole paths are
/// equal, two changed variables exactly if their names are, whatever their
/// values, and two reasons of unknown form exactly if their texts are. Reasons
/// of different kinds that are root causes have different triggers.
pub proof fn law_same_trigger(a: RebuildReasonView, b: RebuildReasonView)
    requires
        !(a is UnitDependencyInfoChanged),
        !(b is UnitDependencyInfoChanged),
    ensures
        trigger_of(a) == trigger_of(b) <==> match (a, b) {
            (
                RebuildReasonView::EnvVarChanged { name: x, .. },
                RebuildReasonView::EnvVarChanged { name: y, .. },
            ) => x == y,
            (
                RebuildReasonView::FileChanged { path: x },
                RebuildReasonView::FileChanged { path: y },
            ) => x == y,
            (RebuildReasonView::Unknown(x), RebuildReasonView::Unknown(y)) => x == y,
            _ => (a is RustflagsChanged && b is RustflagsChanged) || (a is FeaturesChanged
                && b is FeaturesChanged) || (a is ProfileConfigurationChanged
                && b is ProfileConfigurationChanged) || (a is TargetConfigurationChanged
                && b is TargetConfigurationChanged),
        },
{
}

/// A trigger has a cluster exactly if a rebuild has a reason with that trigger
/// that is none of a changed dependency. So each such reason is reported.
pub proof fn law_reasons_reach_clusters(nodes: Seq<RebuildNodeView>, trigger: ClusterTriggerView)
    ensures
        triggers(nodes).contains(trigger) <==> exists|i: int|
            0 <= i < nodes.len() && match (#[trigger] nodes[i]).reason {
                RebuildReasonView::EnvVarChanged { name, .. } => trigger
                    == ClusterTriggerView::EnvVar(name),
                RebuildReasonView::FileChanged { path } => trigger == ClusterTriggerView::File(
                    path,
                ),
                RebuildReasonView::RustflagsChanged { .. } => trigger
                    == ClusterTriggerView::Rustflags,
                RebuildReasonView::FeaturesChanged { .. } => trigger
                    == ClusterTriggerView::Features,
                RebuildReasonView::ProfileConfigurationChanged => trigger
                    == ClusterTriggerView::Profile,
                RebuildReasonView::TargetConfigurationChanged => trigger
                    == ClusterTriggerView::TargetConfig,
                RebuildReasonView::Unknown(text) => trigger == ClusterTriggerView::Unknown(text),
                RebuildReasonView::UnitDependencyInfoChanged { .. } => false,
            },
{
    lemma_triggers_among(nodes, nodes.len() as int, trigger);
}

/// Clusters come in the order in which their triggers first occur: where one
/// cluster stands before another, the first one's trigger occurs before any
/// root cause with the second one's.
pub proof fn law_clusters_in_order(nodes: Seq<RebuildNodeView>, j: int, k: int)
    requires
        0 <= j < k < triggers(nodes).len(),
    ensures
        exists|i: int|
            {
                &&& 0 <= i < nodes.len()
                &&& !((#[trigger] nodes[i]).reason is UnitDependencyInfoChanged)
                &&& trigger_of(nodes[i].reason) == triggers(nodes)[j]
                &&& forall|m: int|
                    0 <= m <= i && !((#[trigger] nodes[m]).reason is UnitDependencyInfoChanged)
                        ==> trigger_of(nodes[m].reason) != triggers(nodes)[k]
            },
{
    lemma_triggers_in_order(nodes, nodes.len() as int, j, k);
}

proof fn lemma_triggers_in_order(nodes: Seq<RebuildNodeView>, n: int, j: int, k: int)
    requires
        n <= nodes.len(),
        0 <= j < k < triggers_among(nodes, n).len(),
    ensures
        exists|i: int|
            {
                &&& 0 <= i < n
                &&& !((#[trigger] nodes[i]).reason is UnitDependencyInfoChanged)
                &&& trigger_of(nodes[i].reason) == triggers_among(nodes, n)[j]
                &&& forall|m: int|
                    0 <= m <= i && !((#[trigger] nodes[m]).reason is UnitDependencyInfoChanged)
                        ==> trigger_of(nodes[m].reason) != triggers_among(nodes, n)[k]
            },
    decreases n,
{
    let earlier = triggers_among(nodes, n - 1);
    let now = triggers_among(nodes, n);
    assert(now[j] == earlier[j]);
    if k < earlier.len() {
        lemma_triggers_in_order(nodes, n - 1, j, k);
        assert(now[k] == earlier[k]);
    } else {
        assert(earlier.contains(earlier[j]));
        lemma_triggers_among(nodes, n - 1, earlier[j]);
        lemma_triggers_among(nodes, n - 1, now[k]);
        let i = choose|i: int|
            0 <= i < n - 1 && (#[trigger] nodes[i]).is_root_cause() && trigger_of(nodes[i].reason)
                == earlier[j];
        assert forall|m: int|
            0 <= m <= i && !((#[trigger] nodes[m]).reason is UnitDependencyInfoChanged) implies
            trigger_of(nodes[m].reason) != now[k] by {
            assert(nodes[m].is_root_cause());
        }
    }
}

/// A cluster lists, for each of its sources in turn, the unit that was rebuilt.
pub proof fn law_clusters_list_their_sources(
    cluster: RootCauseClusterView,
    nodes: Seq<RebuildNodeView>,
    watches: Map<Seq<char>, BuildScriptWatchesView>,
    trigger: ClusterTriggerView,
    k: int,
)
    requires
        is_cluster_of(cluster, nodes, watches, trigger),
    ensures
        cluster.trigger == trigger,
        cluster.source_packages.len() == sources(nodes, trigger).len(),
        0 <= k < cluster.source_packages.len() ==> cluster.source_packages[k] == nodes[sources(
            nodes,
            trigger,
        )[k]].package,
{
}

/// The sources of a cluster are the rebuilds whose reason has its trigger and
/// is none of a changed dependency.
pub proof fn law_sources_have_the_trigger(
    nodes: Seq<RebuildNodeView>,
    trigger: ClusterTriggerView,
    i: int,
)
    requires
        0 <= i < nodes.len(),
    ensures
        sources(nodes, trigger).contains(i) <==> !(nodes[i].reason is UnitDependencyInfoChanged)
            && trigger_of(nodes[i].reason) == trigger,
{
    law_root_cause_is_in_one_cluster(nodes, i, trigger);
}

/// An environment variable's cluster lists, sorted, the crates that watch the
/// variable, and is volatile exactly if the variable is. No other cluster lists
/// a crate or is volatile.
pub proof fn law_watchers_of_a_cluster(
    cluster: RootCauseClusterView,
    nodes: Seq<RebuildNodeView>,
    watches: Map<Seq<char>, BuildScriptWatchesView>,
    trigger: ClusterTriggerView,
    watcher: Seq<char>,
)
    requires
        is_cluster_of(cluster, nodes, watches, trigger),
    ensures
        match trigger {
            ClusterTriggerView::EnvVar(name) => {
                &&& cluster.watched_by.contains(watcher) <==> watches.dom().contains(watcher)
                    && watches[watcher].env_vars.contains(name)
                &&& forall|i: int, j: int|
                    0 <= i < j < cluster.watched_by.len() ==> before(
                        #[trigger] cluster.watched_by[i],
                        #[trigger] cluster.watched_by[j],
                    )
                &&& cluster.volatile <==> is_volatile_name(name)
            },
            _ => cluster.watched_by.len() == 0 && !cluster.volatile,
        },
{
    if let ClusterTriggerView::EnvVar(name) = trigger {
        assert(is_watching(cluster.watched_by, watches, name));
        assert(cluster.watched_by.contains(watcher) <==> watches.dom().contains(watcher)
            && watches[watcher].env_vars.contains(name));
    }
}

/// What a cluster says is affected is, source by source, what was found for the
/// source and is not listed yet, in the order in which it was found.
pub proof fn law_affected_source_by_source(
    nodes: Seq<RebuildNodeView>,
    indices: Seq<int>,
    index: int,
)
    requires
        all_distinct(nodes),
    ensures
        all_affected(nodes, Seq::empty()) == Seq::<RebuildNodeView>::empty(),
        all_affected(nodes, indices.push(index)) == all_affected(nodes, indices)
            + affected_packages(nodes, index).filter(
            |n: RebuildNodeView| !all_affected(nodes, indices).contains(n),
        ),
{
    let list = all_affected(nodes, indices);
    let more = affected_packages(nodes, index);
    assert(indices.push(index).drop_last() =~= indices);
    law_affected_packages_are_distinct(nodes, index);
    lemma_with_new_is_filter(list, more);
}

proof fn lemma_with_new_is_filter(list: Seq<RebuildNodeView>, more: Seq<RebuildNodeView>)
    requires
        more.no_duplicates(),
    ensures
        with_new(list, more) == list + more.filter(|n: RebuildNodeView| !list.contains(n)),
    decreases more.len(),
{
    reveal(Seq::filter);
    let fresh = |n: RebuildNodeView| !list.contains(n);
    if more.len() > 0 {
        let fewer = more.drop_last();
        lemma_with_new_is_filter(list, fewer);
        lemma_with_new(list, fewer, more.last());
        if fewer.contains(more.last()) {
            let k = choose|k: int| 0 <= k < fewer.len() && fewer[k] == more.last();
            assert(more[k] == more[more.len() - 1]);
        }
        if !list.contains(more.last()) {
            assert(list + fewer.filter(fresh).push(more.last()) =~= (list + fewer.filter(
                fresh,
            )).push(more.last()));
        }
    } else {
        assert(list + more.filter(fresh) =~= list);
    }
}

/// The affected packages of a cluster are those of all of its sources.
pub proof fn law_clusters_hold_what_is_affected(
    cluster: RootCauseClusterView,
    nodes: Seq<RebuildNodeView>,
    watches: Map<Seq<char>, BuildScriptWatchesView>,
    trigger: ClusterTriggerView,
)
    requires
        is_cluster_of(cluster, nodes, watches, trigger),
    ensures
        cluster.affected_packages == all_affected(nodes, sources(nodes, trigger)),
{
}

/// A rebuild whose reason names the package of a root cause is among the
/// affected packages of the root cause's cluster, and so is one whose reason
/// names an affected package.
pub proof fn law_clusters_miss_nothing(
    cluster: RootCauseClusterView,
    nodes: Seq<RebuildNodeView>,
    watches: Map<Seq<char>, BuildScriptWatchesView>,
    root: int,
    i: int,
    name: Seq<char>,
)
    requires
        0 <= root < nodes.len(),
        0 <= i < nodes.len(),
        !(nodes[root].reason is UnitDependencyInfoChanged),
        is_cluster_of(cluster, nodes, watches, trigger_of(nodes[root].reason)),
        nodes[i].reason matches RebuildReasonView::UnitDependencyInfoChanged { name: n, .. } && n
            == name,
        crate_key(name) == crate_key(package_name(nodes[root].package.package_id)) || exists|j: int|
            0 <= j < nodes.len() && affected_packages(nodes, root).contains(#[trigger] nodes[j])
                && crate_key(name) == crate_key(package_name(nodes[j].package.package_id)),
    ensures
        cluster.affected_packages.contains(nodes[i]),
{
    let trigger = trigger_of(nodes[root].reason);
    law_root_cause_is_in_one_cluster(nodes, root, trigger);
    if crate_key(name) == crate_key(package_name(nodes[root].package.package_id)) {
        law_named_cause_affects(nodes, root, i, name);
    } else {
        let j = choose|j: int|
            0 <= j < nodes.len() && affected_packages(nodes, root).contains(#[trigger] nodes[j])
                && crate_key(name) == crate_key(package_name(nodes[j].package.package_id));
        law_affected_packages(nodes, root, nodes[j]);
        let m = choose|m: int|
            0 <= m < nodes.len() && #[trigger] nodes[m] == nodes[j] && is_affected(nodes, root, m);
        law_affected_goes_on(nodes, root, m, i);
        law_affected_packages(nodes, root, nodes[i]);
    }
    let k = choose|k: int|
        0 <= k < sources(nodes, trigger).len() && sources(nodes, trigger)[k] == root;
    law_cluster_unites_its_sources(cluster, nodes, watches, trigger, nodes[i]);
    assert(affected_packages(nodes, sources(nodes, trigger)[k]).contains(nodes[i]));
}

} // verus!
