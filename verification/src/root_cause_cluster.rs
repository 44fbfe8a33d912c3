//! Groups the root causes of a [`RebuildGraph`] by what triggered them, and
//! tells for an environment variable which build scripts watch it.

use vstd::prelude::*;

use crate::build_script_watches::{
    crates_watching_env, is_volatile, is_volatile_name, is_watching, BuildScriptWatchesView,
    WatchMap,
};
use crate::rebuild_graph::{
    affected_packages, PackageTarget, PackageTargetView, RebuildGraph, RebuildNode,
    RebuildNodeView,
};
use crate::rebuild_reason::{copy_list, RebuildReason, RebuildReasonView};
use crate::text::{last_components, prefixed, short_path};

verus! {

/// What was at the bottom of a group of rebuilds. Root causes with the same
/// trigger are one group.
#[derive(Debug, Eq, Hash)]
pub enum ClusterTrigger {
    EnvVar(String),
    File(String),
    Rustflags,
    Features,
    Profile,
    TargetConfig,
    Unknown(String),
}

/// The model of a [`ClusterTrigger`].
#[verifier::ext_equal]
pub enum ClusterTriggerView {
    EnvVar(Seq<char>),
    File(Seq<char>),
    Rustflags,
    Features,
    Profile,
    TargetConfig,
    Unknown(Seq<char>),
}

impl View for ClusterTrigger {
    type V = ClusterTriggerView;

    open spec fn view(&self) -> ClusterTriggerView {
        match self {
            ClusterTrigger::EnvVar(name) => ClusterTriggerView::EnvVar(name@),
            ClusterTrigger::File(path) => ClusterTriggerView::File(path@),
            ClusterTrigger::Rustflags => ClusterTriggerView::Rustflags,
            ClusterTrigger::Features => ClusterTriggerView::Features,
            ClusterTrigger::Profile => ClusterTriggerView::Profile,
            ClusterTrigger::TargetConfig => ClusterTriggerView::TargetConfig,
            ClusterTrigger::Unknown(text) => ClusterTriggerView::Unknown(text@),
        }
    }
}

impl PartialEq for ClusterTrigger {
    fn eq(&self, other: &Self) -> (same: bool) {
        match (self, other) {
            (ClusterTrigger::EnvVar(a), ClusterTrigger::EnvVar(b)) => *a == *b,
            (ClusterTrigger::File(a), ClusterTrigger::File(b)) => *a == *b,
            (ClusterTrigger::Rustflags, ClusterTrigger::Rustflags) => true,
            (ClusterTrigger::Features, ClusterTrigger::Features) => true,
            (ClusterTrigger::Profile, ClusterTrigger::Profile) => true,
            (ClusterTrigger::TargetConfig, ClusterTrigger::TargetConfig) => true,
            (ClusterTrigger::Unknown(a), ClusterTrigger::Unknown(b)) => *a == *b,
            _ => false,
        }
    }
}

impl vstd::std_specs::cmp::PartialEqSpecImpl for ClusterTrigger {
    open spec fn obeys_eq_spec() -> bool {
        true
    }

    open spec fn eq_spec(&self, other: &Self) -> bool {
        self@ == other@
    }
}

impl Clone for ClusterTrigger {
    fn clone(&self) -> (copy: Self)
        ensures
            copy@ == self@,
    {
        match self {
            ClusterTrigger::EnvVar(name) => ClusterTrigger::EnvVar(name.clone()),
            ClusterTrigger::File(path) => ClusterTrigger::File(path.clone()),
            ClusterTrigger::Rustflags => ClusterTrigger::Rustflags,
            ClusterTrigger::Features => ClusterTrigger::Features,
            ClusterTrigger::Profile => ClusterTrigger::Profile,
            ClusterTrigger::TargetConfig => ClusterTrigger::TargetConfig,
            ClusterTrigger::Unknown(text) => ClusterTrigger::Unknown(text.clone()),
        }
    }
}

/// The trigger behind a reason.
pub open spec fn trigger_of(reason: RebuildReasonView) -> ClusterTriggerView {
    match reason {
        RebuildReasonView::EnvVarChanged { name, .. } => ClusterTriggerView::EnvVar(name),
        RebuildReasonView::FileChanged { path } => ClusterTriggerView::File(path),
        RebuildReasonView::RustflagsChanged { .. } => ClusterTriggerView::Rustflags,
        RebuildReasonView::FeaturesChanged { .. } => ClusterTriggerView::Features,
        RebuildReasonView::ProfileConfigurationChanged => ClusterTriggerView::Profile,
        RebuildReasonView::TargetConfigurationChanged => ClusterTriggerView::TargetConfig,
        RebuildReasonView::Unknown(text) => ClusterTriggerView::Unknown(text),
        RebuildReasonView::UnitDependencyInfoChanged { .. } => ClusterTriggerView::Unknown(
            "dependency change"@,
        ),
    }
}

impl ClusterTrigger {
    /// Finds the trigger behind a reason.
    pub fn from_reason(reason: &RebuildReason) -> (trigger: Self)
        ensures
            trigger@ == trigger_of(reason@),
    {
        match reason {
            RebuildReason::EnvVarChanged { name, .. } => ClusterTrigger::EnvVar(name.clone()),
            RebuildReason::FileChanged { path } => ClusterTrigger::File(path.clone()),
            RebuildReason::RustflagsChanged { .. } => ClusterTrigger::Rustflags,
            RebuildReason::FeaturesChanged { .. } => ClusterTrigger::Features,
            RebuildReason::ProfileConfigurationChanged => ClusterTrigger::Profile,
            RebuildReason::TargetConfigurationChanged => ClusterTrigger::TargetConfig,
            RebuildReason::Unknown(text) => ClusterTrigger::Unknown(text.clone()),
            RebuildReason::UnitDependencyInfoChanged { .. } => ClusterTrigger::Unknown(
                "dependency change".to_owned(),
            ),
        }
    }

    /// The trigger as people read it.
    pub fn describe(&self) -> (text: String)
        ensures
            text@ == match self@ {
                ClusterTriggerView::EnvVar(name) => "env:"@ + name,
                ClusterTriggerView::File(path) => "file:"@ + last_components(path),
                ClusterTriggerView::Rustflags => "rustflags"@,
                ClusterTriggerView::Features => "features"@,
                ClusterTriggerView::Profile => "profile"@,
                ClusterTriggerView::TargetConfig => "target config"@,
                ClusterTriggerView::Unknown(text) => text,
            },
    {
        match self {
            ClusterTrigger::EnvVar(name) => prefixed("env:", name.as_str()),
            ClusterTrigger::File(path) => prefixed("file:", short_path(path.as_str()).as_str()),
            ClusterTrigger::Rustflags => "rustflags".to_owned(),
            ClusterTrigger::Features => "features".to_owned(),
            ClusterTrigger::Profile => "profile".to_owned(),
            ClusterTrigger::TargetConfig => "target config".to_owned(),
            ClusterTrigger::Unknown(text) => text.clone(),
        }
    }
}

/// One group of the report: a trigger, the units that it made dirty, and every
/// package that was rebuilt as a result.
#[derive(Debug)]
pub struct RootCauseCluster {
    pub trigger: ClusterTrigger,
    pub source_packages: Vec<PackageTarget>,
    pub affected_packages: Vec<RebuildNode>,
    /// The crates whose build script watches the environment variable. Empty
    /// for any other trigger.
    pub watched_by: Vec<String>,
    /// Whether the trigger is a volatile environment variable.
    pub volatile: bool,
}

/// The model of a [`RootCauseCluster`].
#[verifier::ext_equal]
pub struct RootCauseClusterView {
    pub trigger: ClusterTriggerView,
    pub source_packages: Seq<PackageTargetView>,
    pub affected_packages: Seq<RebuildNodeView>,
    pub watched_by: Seq<Seq<char>>,
    pub volatile: bool,
}

impl View for RootCauseCluster {
    type V = RootCauseClusterView;

    open spec fn view(&self) -> RootCauseClusterView {
        RootCauseClusterView {
            trigger: self.trigger@,
            source_packages: self.source_packages.deep_view(),
            affected_packages: self.affected_packages.deep_view(),
            watched_by: self.watched_by.deep_view(),
            volatile: self.volatile,
        }
    }
}

impl DeepView for RootCauseCluster {
    type V = RootCauseClusterView;

    open spec fn deep_view(&self) -> RootCauseClusterView {
        self@
    }
}

impl Clone for RootCauseCluster {
    fn clone(&self) -> (copy: Self)
        ensures
            copy@ == self@,
    {
        let mut source_packages: Vec<PackageTarget> = Vec::new();
        let mut i: usize = 0;
        while i < self.source_packages.len()
            invariant
                i <= self.source_packages@.len(),
                source_packages.deep_view() == self@.source_packages.take(i as int),
            decreases self.source_packages@.len() - i,
        {
            let ghost before = source_packages.deep_view();
            assert(self@.source_packages[i as int] == self.source_packages@[i as int]@);
            source_packages.push(self.source_packages[i].clone());
            i = i + 1;
            assert(source_packages.deep_view() =~= before.push(self@.source_packages[i - 1]));
            assert(source_packages.deep_view() =~= self@.source_packages.take(i as int));
        }
        let mut affected_packages: Vec<RebuildNode> = Vec::new();
        let mut k: usize = 0;
        while k < self.affected_packages.len()
            invariant
                k <= self.affected_packages@.len(),
                affected_packages.deep_view() == self@.affected_packages.take(k as int),
            decreases self.affected_packages@.len() - k,
        {
            let ghost before = affected_packages.deep_view();
            assert(self@.affected_packages[k as int] == self.affected_packages@[k as int]@);
            affected_packages.push(self.affected_packages[k].clone());
            k = k + 1;
            assert(affected_packages.deep_view() =~= before.push(self@.affected_packages[k - 1]));
            assert(affected_packages.deep_view() =~= self@.affected_packages.take(k as int));
        }
        assert(source_packages.deep_view() =~= self@.source_packages);
        assert(affected_packages.deep_view() =~= self@.affected_packages);
        RootCauseCluster {
            trigger: self.trigger.clone(),
            source_packages,
            affected_packages,
            watched_by: copy_list(&self.watched_by),
            volatile: self.volatile,
        }
    }
}

/// The triggers of the root causes among the first `n` rebuilds, each once, in
/// the order in which they first occur.
pub open spec fn triggers_among(nodes: Seq<RebuildNodeView>, n: int) -> Seq<ClusterTriggerView>
    decreases n,
{
    if n <= 0 {
        Seq::empty()
    } else {
        let earlier = triggers_among(nodes, n - 1);
        let trigger = trigger_of(nodes[n - 1].reason);
        if nodes[n - 1].is_root_cause() && !earlier.contains(trigger) {
            earlier.push(trigger)
        } else {
            earlier
        }
    }
}

/// The triggers of all root causes.
pub open spec fn triggers(nodes: Seq<RebuildNodeView>) -> Seq<ClusterTriggerView> {
    triggers_among(nodes, nodes.len() as int)
}

/// The indices of the root causes with this trigger among the first `n`
/// rebuilds.
pub open spec fn sources_among(
    nodes: Seq<RebuildNodeView>,
    trigger: ClusterTriggerView,
    n: int,
) -> Seq<int>
    decreases n,
{
    if n <= 0 {
        Seq::empty()
    } else {
        let earlier = sources_among(nodes, trigger, n - 1);
        if nodes[n - 1].is_root_cause() && trigger_of(nodes[n - 1].reason) == trigger {
            earlier.push(n - 1)
        } else {
            earlier
        }
    }
}

/// The indices of all root causes with this trigger.
pub open spec fn sources(nodes: Seq<RebuildNodeView>, trigger: ClusterTriggerView) -> Seq<int> {
    sources_among(nodes, trigger, nodes.len() as int)
}

/// The units of the rebuilds at `indices`.
pub open spec fn packages_at(nodes: Seq<RebuildNodeView>, indices: Seq<int>) -> Seq<
    PackageTargetView,
> {
    indices.map_values(|i: int| nodes[i].package)
}

/// `list` with those of `more` behind it that it does not hold yet.
pub open spec fn with_new(list: Seq<RebuildNodeView>, more: Seq<RebuildNodeView>) -> Seq<
    RebuildNodeView,
>
    decreases more.len(),
{
    if more.len() == 0 {
        list
    } else {
        let earlier = with_new(list, more.drop_last());
        if earlier.contains(more.last()) {
            earlier
        } else {
            earlier.push(more.last())
        }
    }
}

/// The rebuilds that were caused by one of those at `indices`, each once.
pub open spec fn all_affected(nodes: Seq<RebuildNodeView>, indices: Seq<int>) -> Seq<
    RebuildNodeView,
>
    decreases indices.len(),
{
    if indices.len() == 0 {
        Seq::empty()
    } else {
        with_new(
            all_affected(nodes, indices.drop_last()),
            affected_packages(nodes, indices.last()),
        )
    }
}

/// Whether `cluster` is the group of the root causes with this trigger.
pub open spec fn is_cluster_of(
    cluster: RootCauseClusterView,
    nodes: Seq<RebuildNodeView>,
    watches: Map<Seq<char>, BuildScriptWatchesView>,
    trigger: ClusterTriggerView,
) -> bool {
    &&& cluster.trigger == trigger
    &&& cluster.source_packages == packages_at(nodes, sources(nodes, trigger))
    &&& cluster.affected_packages == all_affected(nodes, sources(nodes, trigger))
    &&& match trigger {
        ClusterTriggerView::EnvVar(name) => {
            &&& is_watching(cluster.watched_by, watches, name)
            &&& cluster.volatile == is_volatile_name(name)
        },
        _ => cluster.watched_by == Seq::<Seq<char>>::empty() && !cluster.volatile,
    }
}

/// The indices as integers.
pub open spec fn as_ints(indices: Seq<usize>) -> Seq<int> {
    indices.map_values(|i: usize| i as int)
}

/// Whether `node` is in `list`.
fn holds(list: &Vec<RebuildNode>, node: &RebuildNode) -> (yes: bool)
    ensures
        yes == list.deep_view().contains(node@),
{
    let mut i: usize = 0;
    while i < list.len()
        invariant
            i <= list@.len(),
            forall|j: int| 0 <= j < i ==> #[trigger] list.deep_view()[j] != node@,
        decreases list@.len() - i,
    {
        assert(list.deep_view()[i as int] == list@[i as int]@);
        if list[i] == *node {
            return true;
        }
        i = i + 1;
    }
    false
}

/// Puts together what was caused by the rebuilds at `source_indices`.
pub fn union_affected(graph: &RebuildGraph, source_indices: &[usize]) -> (affected: Vec<
    RebuildNode,
>)
    requires
        forall|k: int| 0 <= k < source_indices@.len() ==> #[trigger] source_indices@[k]
            < graph@.len(),
    ensures
        affected.deep_view() == all_affected(graph@, as_ints(source_indices@)),
{
    let ghost indices = as_ints(source_indices@);
    let mut affected: Vec<RebuildNode> = Vec::new();
    let mut k: usize = 0;
    assert(affected.deep_view() =~= all_affected(graph@, indices.take(0)));
    while k < source_indices.len()
        invariant
            indices == as_ints(source_indices@),
            k <= source_indices@.len(),
            forall|k: int| 0 <= k < source_indices@.len() ==> #[trigger] source_indices@[k]
                < graph@.len(),
            affected.deep_view() == all_affected(graph@, indices.take(k as int)),
        decreases source_indices@.len() - k,
    {
        let more: Vec<RebuildNode> = graph.find_affected_packages(source_indices[k]);
        let ghost list = affected.deep_view();
        let ghost new = more.deep_view();
        let mut i: usize = 0;
        assert(with_new(list, new.take(0)) =~= list);
        while i < more.len()
            invariant
                i <= more@.len(),
                new == more.deep_view(),
                affected.deep_view() == with_new(list, new.take(i as int)),
            decreases more@.len() - i,
        {
            let ghost so_far = affected.deep_view();
            assert(new[i as int] == more@[i as int]@);
            if !holds(&affected, &more[i]) {
                affected.push(more[i].clone());
                assert(affected.deep_view() =~= so_far.push(new[i as int]));
            }
            i = i + 1;
            assert(new.take(i as int).drop_last() =~= new.take(i - 1));
            assert(new.take(i as int).last() == new[i - 1]);
        }
        assert(new.take(i as int) =~= new);
        k = k + 1;
        assert(indices.take(k as int).drop_last() =~= indices.take(k - 1));
        assert(indices.take(k as int).last() == source_indices@[k - 1]);
    }
    assert(indices.take(k as int) =~= indices);
    affected
}

/// No trigger is listed twice.
pub proof fn lemma_triggers_distinct(nodes: Seq<RebuildNodeView>, n: int)
    ensures
        triggers_among(nodes, n).no_duplicates(),
    decreases n,
{
    if n > 0 {
        lemma_triggers_distinct(nodes, n - 1);
        let earlier = triggers_among(nodes, n - 1);
        let now = triggers_among(nodes, n);
        assert forall|i: int, j: int|
            0 <= i < now.len() && 0 <= j < now.len() && i != j implies now[i] != now[j] by {
            if now.len() > earlier.len() {
                if i < earlier.len() {
                    assert(earlier.contains(earlier[i]));
                }
                if j < earlier.len() {
                    assert(earlier.contains(earlier[j]));
                }
            }
        }
    }
}

/// A trigger that is not listed has no root cause.
proof fn lemma_no_sources(nodes: Seq<RebuildNodeView>, trigger: ClusterTriggerView, n: int)
    requires
        !triggers_among(nodes, n).contains(trigger),
    ensures
        sources_among(nodes, trigger, n) == Seq::<int>::empty(),
    decreases n,
{
    if n > 0 {
        let earlier = triggers_among(nodes, n - 1);
        let now = triggers_among(nodes, n);
        if earlier.contains(trigger) {
            let k = choose|k: int| 0 <= k < earlier.len() && earlier[k] == trigger;
            assert(now[k] == trigger);
        }
        lemma_no_sources(nodes, trigger, n - 1);
        if nodes[n - 1].is_root_cause() && trigger_of(nodes[n - 1].reason) == trigger {
            assert(now[earlier.len() as int] == trigger);
        }
    }
}

/// The sources of a trigger are root causes that have it.
pub proof fn lemma_sources(nodes: Seq<RebuildNodeView>, trigger: ClusterTriggerView, n: int)
    ensures
        forall|k: int|
            0 <= k < sources_among(nodes, trigger, n).len() ==> {
                let i = #[trigger] sources_among(nodes, trigger, n)[k];
                &&& 0 <= i < n
                &&& nodes[i].is_root_cause()
                &&& trigger_of(nodes[i].reason) == trigger
            },
    decreases n,
{
    if n > 0 {
        lemma_sources(nodes, trigger, n - 1);
    }
}

/// The root causes that were found for one trigger.
struct ClusterAccumulator {
    trigger: ClusterTrigger,
    source_packages: Vec<PackageTarget>,
    source_indices: Vec<usize>,
}

impl ClusterAccumulator {
    /// Whether this holds all root causes with its trigger among the first `n`
    /// rebuilds.
    spec fn is_complete(&self, nodes: Seq<RebuildNodeView>, n: int) -> bool {
        &&& as_ints(self.source_indices@) == sources_among(nodes, self.trigger@, n)
        &&& self.source_packages.deep_view() == packages_at(
            nodes,
            sources_among(nodes, self.trigger@, n),
        )
    }

    /// Notes the root cause at `index`.
    fn note(&mut self, package: PackageTarget, index: usize)
        ensures
            final(self).trigger == old(self).trigger,
            final(self).source_indices@ == old(self).source_indices@.push(index),
            final(self).source_packages@ == old(self).source_packages@.push(package),
    {
        self.source_packages.push(package);
        self.source_indices.push(index);
    }
}

/// Whether there is one accumulator for every trigger among the first `n`
/// rebuilds.
spec fn is_grouping(
    groups: Seq<ClusterAccumulator>,
    nodes: Seq<RebuildNodeView>,
    n: int,
) -> bool {
    &&& groups.len() == triggers_among(nodes, n).len()
    &&& forall|k: int|
        0 <= k < groups.len() ==> {
            &&& (#[trigger] groups[k]).trigger@ == triggers_among(nodes, n)[k]
            &&& groups[k].is_complete(nodes, n)
        }
}

/// Finds the accumulator of a trigger.
fn find_group(groups: &Vec<ClusterAccumulator>, trigger: &ClusterTrigger) -> (found: Option<usize>)
    ensures
        match found {
            Some(k) => k < groups@.len() && groups@[k as int].trigger@ == trigger@,
            None => forall|k: int|
                0 <= k < groups@.len() ==> (#[trigger] groups@[k]).trigger@ != trigger@,
        },
{
    let mut k: usize = 0;
    while k < groups.len()
        invariant
            k <= groups@.len(),
            forall|j: int| 0 <= j < k ==> (#[trigger] groups@[j]).trigger@ != trigger@,
        decreases groups@.len() - k,
    {
        if groups[k].trigger == *trigger {
            return Some(k);
        }
        k = k + 1;
    }
    None
}

/// Groups the root causes of `graph` by their trigger.
fn group_root_causes(graph: &RebuildGraph) -> (groups: Vec<ClusterAccumulator>)
    ensures
        is_grouping(groups@, graph@, graph@.len() as int),
{
    let ghost nodes = graph@;
    let all: &[RebuildNode] = graph.nodes();
    let mut groups: Vec<ClusterAccumulator> = Vec::new();
    let mut i: usize = 0;
    while i < all.len()
        invariant
            nodes == all.deep_view(),
            i <= nodes.len(),
            is_grouping(groups@, nodes, i as int),
        decreases nodes.len() - i,
    {
        let node = &all[i];
        assert(node@ == nodes[i as int]);
        let ghost before = groups@;
        let ghost earlier = triggers_among(nodes, i as int);
        let ghost now = triggers_among(nodes, i + 1);
        if node.is_root_cause() {
            let trigger: ClusterTrigger = ClusterTrigger::from_reason(&node.reason);
            let ghost t = trigger@;
            proof {
                lemma_triggers_distinct(nodes, i as int);
            }
            match find_group(&groups, &trigger) {
                Some(k) => {
                    assert(earlier[k as int] == t);
                    let ghost old_group = groups@[k as int];
                    groups[k].note(node.package.clone(), i);
                    proof {
                        let group = groups@[k as int];
                        let indices = sources_among(nodes, t, i as int);
                        assert(as_ints(group.source_indices@) =~= as_ints(
                            old_group.source_indices@,
                        ).push(i as int));
                        let packages = old_group.source_packages.deep_view();
                        assert(packages == packages_at(nodes, indices));
                        assert(group.source_packages.deep_view() =~= packages.push(
                            nodes[i as int].package,
                        ));
                        assert(packages.push(nodes[i as int].package) =~= packages_at(
                            nodes,
                            indices.push(i as int),
                        ));
                        assert forall|j: int| 0 <= j < groups@.len() implies {
                            &&& (#[trigger] groups@[j]).trigger@ == now[j]
                            &&& groups@[j].is_complete(nodes, i + 1)
                        } by {
                            if j != k {
                                assert(groups@[j] == before[j]);
                                assert(earlier[j] != earlier[k as int]);
                            }
                        }
                    }
                },
                None => {
                    let mut group = ClusterAccumulator {
                        trigger,
                        source_packages: Vec::new(),
                        source_indices: Vec::new(),
                    };
                    group.note(node.package.clone(), i);
                    let ghost g = group;
                    groups.push(group);
                    proof {
                        assert forall|j: int| 0 <= j < earlier.len() implies earlier[j] != t by {
                            assert(before[j].trigger@ == earlier[j]);
                        }
                        lemma_no_sources(nodes, t, i as int);
                        let indices = sources_among(nodes, t, i + 1);
                        assert(indices =~= seq![i as int]);
                        assert(as_ints(g.source_indices@) =~= indices);
                        assert(g.source_packages.deep_view() =~= packages_at(nodes, indices));
                        assert forall|j: int| 0 <= j < groups@.len() implies {
                            &&& (#[trigger] groups@[j]).trigger@ == now[j]
                            &&& groups@[j].is_complete(nodes, i + 1)
                        } by {
                            if j < before.len() {
                                assert(groups@[j] == before[j]);
                                assert(earlier[j] != t);
                            }
                        }
                    }
                },
            }
        } else {
            assert forall|j: int| 0 <= j < groups@.len() implies (
            #[trigger] groups@[j]).is_complete(nodes, i + 1) by {
                assert(before[j].is_complete(nodes, i as int));
            }
        }
        i = i + 1;
    }
    groups
}

/// Makes the cluster of one group.
fn make_cluster(
    graph: &RebuildGraph,
    directives: &WatchMap,
    group: ClusterAccumulator,
) -> (cluster: RootCauseCluster)
    requires
        group.is_complete(graph@, graph@.len() as int),
    ensures
        is_cluster_of(cluster@, graph@, directives@, group.trigger@),
{
    proof {
        let indices = sources(graph@, group.trigger@);
        lemma_sources(graph@, group.trigger@, graph@.len() as int);
        assert forall|k: int| 0 <= k < group.source_indices@.len() implies (
        #[trigger] group.source_indices@[k]) < graph@.len() by {
            assert(indices[k] == group.source_indices@[k]);
        }
    }
    let affected: Vec<RebuildNode> = union_affected(graph, group.source_indices.as_slice());
    let ClusterAccumulator { trigger, source_packages, source_indices: _ } = group;
    let mut watched_by: Vec<String> = Vec::new();
    let mut volatile: bool = false;
    assert(watched_by.deep_view() =~= Seq::empty());
    if let ClusterTrigger::EnvVar(name) = &trigger {
        watched_by = crates_watching_env(directives, name.as_str());
        volatile = is_volatile(name.as_str());
    }
    RootCauseCluster { trigger, source_packages, affected_packages: affected, watched_by, volatile }
}

/// Groups the root causes that share a trigger. The clusters come in the order
/// in which their triggers first occur in the graph.
#[must_use]
pub fn cluster(graph: &RebuildGraph, directives: &WatchMap) -> (clusters: Vec<RootCauseCluster>)
    ensures
        clusters@.len() == triggers(graph@).len(),
        forall|k: int|
            0 <= k < clusters@.len() ==> is_cluster_of(
                (#[trigger] clusters@[k])@,
                graph@,
                directives@,
                triggers(graph@)[k],
            ),
{
    let mut groups: Vec<ClusterAccumulator> = group_root_causes(graph);
    let ghost all = groups@;
    let mut clusters: Vec<RootCauseCluster> = Vec::new();
    while groups.len() > 0
        invariant
            is_grouping(all, graph@, graph@.len() as int),
            clusters@.len() + groups@.len() == all.len(),
            groups@ == all.skip(clusters@.len() as int),
            forall|k: int|
                0 <= k < clusters@.len() ==> is_cluster_of(
                    (#[trigger] clusters@[k])@,
                    graph@,
                    directives@,
                    triggers(graph@)[k],
                ),
        decreases groups@.len(),
    {
        let ghost k = clusters@.len() as int;
        let group: ClusterAccumulator = groups.remove(0);
        assert(group == all[k]);
        clusters.push(make_cluster(graph, directives, group));
        assert(groups@ =~= all.skip(k + 1));
    }
    clusters
}

} // verus!
