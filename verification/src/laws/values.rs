//! Laws of values: what the models hold of them, and when two are equal.

use vstd::prelude::*;
use vstd::std_specs::cmp::PartialEqSpec;

use crate::build_script_watches::{BuildOutput, BuildScriptWatches};
use crate::fingerprint_parser::{cursor, option_reason, reason_match};
use crate::rebuild_graph::{PackageTarget, RebuildNode};
use crate::rebuild_reason::{RebuildReason, RebuildReasonView};
use crate::root_cause_cluster::{as_ints, ClusterTrigger, ClusterTriggerView, RootCauseCluster};

verus! {

/// The model of a reason is of the same kind and holds every field, as it is.
pub proof fn law_model_of_a_reason(reason: RebuildReason)
    ensures
        match reason {
            RebuildReason::EnvVarChanged { name, old_value, new_value } => reason@ == (
            RebuildReasonView::EnvVarChanged {
                name: name@,
                old_value: match old_value {
                    Some(v) => Some(v@),
                    None => None,
                },
                new_value: match new_value {
                    Some(v) => Some(v@),
                    None => None,
                },
            }),
            RebuildReason::UnitDependencyInfoChanged {
                name,
                old_fingerprint,
                new_fingerprint,
                context,
            } => reason@ == (RebuildReasonView::UnitDependencyInfoChanged {
                name: name@,
                old_fingerprint: old_fingerprint@,
                new_fingerprint: new_fingerprint@,
                context: match context {
                    Some(c) => Some(c@),
                    None => None,
                },
            }),
            RebuildReason::TargetConfigurationChanged => reason@
                == RebuildReasonView::TargetConfigurationChanged,
            RebuildReason::ProfileConfigurationChanged => reason@
                == RebuildReasonView::ProfileConfigurationChanged,
            RebuildReason::RustflagsChanged { old: before, new: after } => reason@ == (
            RebuildReasonView::RustflagsChanged {
                old: before@.map_values(|t: String| t@),
                new: after@.map_values(|t: String| t@),
            }),
            RebuildReason::FeaturesChanged { old: before, new: after } => reason@ == (
            RebuildReasonView::FeaturesChanged { old: before@, new: after@ }),
            RebuildReason::FileChanged { path } => reason@ == (RebuildReasonView::FileChanged {
                path: path@,
            }),
            RebuildReason::Unknown(text) => reason@ == RebuildReasonView::Unknown(text@),
        },
{
    if let RebuildReason::RustflagsChanged { old: before, new: after } = reason {
        assert(before.deep_view() =~= before@.map_values(|t: String| t@));
        assert(after.deep_view() =~= after@.map_values(|t: String| t@));
    }
}

/// The model of a trigger is of the same kind and holds what it names.
pub proof fn law_model_of_a_trigger(trigger: ClusterTrigger)
    ensures
        match trigger {
            ClusterTrigger::EnvVar(name) => trigger@ == ClusterTriggerView::EnvVar(name@),
            ClusterTrigger::File(path) => trigger@ == ClusterTriggerView::File(path@),
            ClusterTrigger::Rustflags => trigger@ == ClusterTriggerView::Rustflags,
            ClusterTrigger::Features => trigger@ == ClusterTriggerView::Features,
            ClusterTrigger::Profile => trigger@ == ClusterTriggerView::Profile,
            ClusterTrigger::TargetConfig => trigger@ == ClusterTriggerView::TargetConfig,
            ClusterTrigger::Unknown(text) => trigger@ == ClusterTriggerView::Unknown(text@),
        },
{
}

/// The models of a unit, of a rebuild and of what a build script left hold
/// every field.
pub proof fn law_models_of_rebuilds(unit: PackageTarget, node: RebuildNode, output: BuildOutput)
    ensures
        unit@.package_id == unit.package_id@,
        unit@.target == (match unit.target {
            Some(target) => Some(target@),
            None => None,
        }),
        node@.package == node.package@,
        node@.reason == node.reason@,
        output@.dir_name == output.dir_name@,
        output@.contents == output.contents@,
        unit.deep_view() == unit@,
        node.deep_view() == node@,
        output.deep_view() == output@,
{
}

/// The models of a cluster and of what a build script watches hold every field,
/// and of a list every item at its place.
pub proof fn law_models_of_lists(cluster: RootCauseCluster, watches: BuildScriptWatches)
    ensures
        cluster@.trigger == cluster.trigger@,
        cluster@.source_packages == cluster.source_packages@.map_values(|p: PackageTarget| p@),
        cluster@.affected_packages == cluster.affected_packages@.map_values(|n: RebuildNode| n@),
        cluster@.watched_by == cluster.watched_by@.map_values(|t: String| t@),
        cluster@.volatile == cluster.volatile,
        watches@.env_vars == watches.env_vars@.map_values(|t: String| t@),
        watches@.paths == watches.paths@.map_values(|t: String| t@),
{
    assert(cluster@.source_packages =~= cluster.source_packages@.map_values(
        |p: PackageTarget| p@,
    ));
    assert(cluster@.affected_packages =~= cluster.affected_packages@.map_values(
        |n: RebuildNode| n@,
    ));
    assert(cluster@.watched_by =~= cluster.watched_by@.map_values(|t: String| t@));
    assert(watches@.env_vars =~= watches.env_vars@.map_values(|t: String| t@));
    assert(watches@.paths =~= watches.paths@.map_values(|t: String| t@));
}

/// Two reasons are equal exactly if their models are.
pub proof fn law_equal_reasons(a: RebuildReason, b: RebuildReason)
    ensures
        a.eq_spec(&b) <==> a@ == b@,
{
}

/// Two units are equal exactly if their package ids and their targets are.
pub proof fn law_equal_units(a: PackageTarget, b: PackageTarget)
    ensures
        a.eq_spec(&b) <==> a.package_id@ == b.package_id@ && a@.target == b@.target,
{
}

/// Two rebuilds are equal exactly if their units and their reasons are.
pub proof fn law_equal_rebuilds(a: RebuildNode, b: RebuildNode)
    ensures
        a.eq_spec(&b) <==> a.package.eq_spec(&b.package) && a.reason.eq_spec(&b.reason),
{
}

/// Two triggers are equal exactly if their models are.
pub proof fn law_equal_triggers(a: ClusterTrigger, b: ClusterTrigger)
    ensures
        a.eq_spec(&b) <==> a@ == b@,
{
}

/// The models of optional results hold what the results hold, and the model of
/// a list of indices every index at its place.
pub proof fn law_models_of_results(
    reason: Option<RebuildReason>,
    parsed: Option<(&[char], RebuildReason)>,
    rest: Option<&[char]>,
    indices: Seq<usize>,
    i: int,
)
    ensures
        option_reason(reason) == (match reason {
            Some(r) => Some(r@),
            None => None,
        }),
        reason_match(parsed) == (match parsed {
            Some((left, r)) => Some((left@, r@)),
            None => None,
        }),
        cursor(rest) == (match rest {
            Some(left) => Some(left@),
            None => None,
        }),
        as_ints(indices).len() == indices.len(),
        0 <= i < indices.len() ==> as_ints(indices)[i] == indices[i],
{
}

} // verus!
