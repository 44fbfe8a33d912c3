//! Laws of the rebuild graph.

use vstd::prelude::*;

use crate::rebuild_graph::{
    affected_among, affected_packages, all_distinct, caused_by, crate_key, is_affected, is_chain,
    is_known, is_link, package_name, transitively_affected, RebuildNodeView,
};
use crate::rebuild_reason::RebuildReasonView;
use crate::text::{first_word, is_white_space, lemma_run_is, trim_start, CharClass};

verus! {

/// A rebuild that was added is known from then on: adding it, or one that
/// repeats it, once more is refused.
pub proof fn law_added_is_known(
    nodes: Seq<RebuildNodeView>,
    node: RebuildNodeView,
    again: RebuildNodeView,
)
    requires
        again.repeats(node),
    ensures
        is_known(nodes.push(node), again),
{
    assert(nodes.push(node)[nodes.len() as int] == node);
}

/// What is known stays known, whatever is added.
pub proof fn law_known_stays_known(
    nodes: Seq<RebuildNodeView>,
    node: RebuildNodeView,
    known: RebuildNodeView,
)
    requires
        is_known(nodes, known),
    ensures
        is_known(nodes.push(node), known),
{
    let i = choose|i: int| 0 <= i < nodes.len() && known.repeats(#[trigger] nodes[i]);
    assert(nodes.push(node)[i] == nodes[i]);
}

/// The name of a package id is its first word: the version behind it does not
/// tell two rebuilds apart, and nor does the target.
pub proof fn law_version_is_not_in_the_name(name: Seq<char>, version: Seq<char>)
    requires
        name.len() > 0,
        forall|i: int| 0 <= i < name.len() ==> !is_white_space(#[trigger] name[i]),
        version.len() > 0 ==> is_white_space(version[0]),
    ensures
        package_name(name + version) == name,
        forall|a: RebuildNodeView, b: RebuildNodeView|
            #![trigger a.repeats(b)]
            a.package.package_id == name + version && b.package.package_id == name && a.reason
                == b.reason ==> a.repeats(b),
{
    let id = name + version;
    lemma_run_is(id, CharClass::Whitespace, 0);
    assert(trim_start(id) =~= id);
    lemma_run_is(id, CharClass::NonWhitespace, name.len() as int);
    assert(first_word(id) =~= name);
    lemma_run_is(name, CharClass::Whitespace, 0);
    assert(trim_start(name) =~= name);
    lemma_run_is(name, CharClass::NonWhitespace, name.len() as int);
    assert(first_word(name) =~= name);
}

/// In crate names hyphens and underscores are equivalent, and nothing else is.
pub proof fn law_hyphen_is_underscore(a: Seq<char>, b: Seq<char>)
    ensures
        crate_key(a) == crate_key(b) <==> {
            &&& a.len() == b.len()
            &&& forall|i: int|
                0 <= i < a.len() ==> {
                    ||| #[trigger] a[i] == b[i]
                    ||| a[i] == '-' && b[i] == '_'
                    ||| a[i] == '_' && b[i] == '-'
                }
        },
{
    let key_a = crate_key(a);
    let key_b = crate_key(b);
    if key_a == key_b {
        assert(key_a.len() == key_b.len());
        assert forall|i: int| 0 <= i < a.len() implies {
            ||| #[trigger] a[i] == b[i]
            ||| a[i] == '-' && b[i] == '_'
            ||| a[i] == '_' && b[i] == '-'
        } by {
            assert(key_a[i] == key_b[i]);
        }
    }
    if a.len() == b.len() && (forall|i: int|
        0 <= i < a.len() ==> {
            ||| #[trigger] a[i] == b[i]
            ||| a[i] == '-' && b[i] == '_'
            ||| a[i] == '_' && b[i] == '-'
        }) {
        assert(key_a =~= key_b);
    }
}

/// A name that was normalized once is left alone.
pub proof fn law_key_of_key(name: Seq<char>)
    ensures
        crate_key(crate_key(name)) == crate_key(name),
{
    assert(crate_key(crate_key(name)) =~= crate_key(name));
}

/// A chain leads from a dependency to a root exactly if a rebuild of the
/// dependency was caused by the root or by something from which a chain leads
/// to the root.
pub proof fn law_chains_step_by_step(
    nodes: Seq<RebuildNodeView>,
    dep: Seq<char>,
    root: Seq<char>,
)
    ensures
        transitively_affected(nodes, dep, root) <==> exists|i: int|
            0 <= i < nodes.len() && (#[trigger] nodes[i]).key() == dep && nodes[i].cause() is Some
                && (nodes[i].cause() == Some(root) || transitively_affected(
                nodes,
                nodes[i].cause().unwrap(),
                root,
            )),
{
    if transitively_affected(nodes, dep, root) {
        let chain = choose|chain: Seq<Seq<char>>|
            {
                &&& #[trigger] is_chain(nodes, chain)
                &&& chain.len() >= 2
                &&& chain[0] == dep
                &&& chain.last() == root
            };
        assert(is_link(nodes, chain, 0));
        let i = choose|i: int|
            0 <= i < nodes.len() && (#[trigger] nodes[i]).key() == chain[0] && nodes[i].cause()
                == Some(chain[1]);
        if chain.len() > 2 {
            let tail = chain.skip(1);
            assert forall|k: int| 0 <= k < tail.len() - 1 implies #[trigger] is_link(
                nodes,
                tail,
                k,
            ) by {
                assert(is_link(nodes, chain, k + 1));
            }
            assert(is_chain(nodes, tail));
            assert(transitively_affected(nodes, chain[1], root));
        }
        assert(nodes[i].key() == dep);
    }
    if exists|i: int|
        0 <= i < nodes.len() && (#[trigger] nodes[i]).key() == dep && nodes[i].cause() is Some && (
        nodes[i].cause() == Some(root) || transitively_affected(
            nodes,
            nodes[i].cause().unwrap(),
            root,
        )) {
        let i = choose|i: int|
            0 <= i < nodes.len() && (#[trigger] nodes[i]).key() == dep && nodes[i].cause() is Some
                && (nodes[i].cause() == Some(root) || transitively_affected(
                nodes,
                nodes[i].cause().unwrap(),
                root,
            ));
        let next = nodes[i].cause().unwrap();
        assert(caused_by(nodes, dep, next));
        if next == root {
            let chain = seq![dep, root];
            assert(is_link(nodes, chain, 0));
            assert(is_chain(nodes, chain));
        } else {
            let tail = choose|tail: Seq<Seq<char>>|
                {
                    &&& #[trigger] is_chain(nodes, tail)
                    &&& tail.len() >= 2
                    &&& tail[0] == next
                    &&& tail.last() == root
                };
            let chain = seq![dep] + tail;
            assert forall|k: int| 0 <= k < chain.len() - 1 implies #[trigger] is_link(
                nodes,
                chain,
                k,
            ) by {
                if k > 0 {
                    assert(is_link(nodes, tail, k - 1));
                }
            }
            assert(is_chain(nodes, chain));
            assert(chain.last() == root);
        }
    }
}

/// A root cause is affected by no other rebuild, and no rebuild by itself.
pub proof fn law_root_causes_are_unaffected(nodes: Seq<RebuildNodeView>, root: int, i: int)
    requires
        nodes[i].is_root_cause() || i == root,
    ensures
        !is_affected(nodes, root, i),
{
}

/// What was rebuilt because of an affected package is affected too, unless it
/// is the root itself.
pub proof fn law_affected_goes_on(nodes: Seq<RebuildNodeView>, root: int, i: int, j: int)
    requires
        0 <= i < nodes.len(),
        0 <= j < nodes.len(),
        j != root,
        is_affected(nodes, root, i),
        nodes[j].cause() == Some(nodes[i].key()),
    ensures
        is_affected(nodes, root, j),
{
    law_chains_step_by_step(nodes, nodes[i].key(), nodes[root].key());
}

/// What is found for a root is every affected rebuild and nothing else, and
/// none of it is a root cause.
pub proof fn law_affected_packages(
    nodes: Seq<RebuildNodeView>,
    root: int,
    node: RebuildNodeView,
)
    ensures
        affected_packages(nodes, root).contains(node) <==> exists|i: int|
            0 <= i < nodes.len() && #[trigger] nodes[i] == node && is_affected(nodes, root, i),
        affected_packages(nodes, root).contains(node) ==> !node.is_root_cause(),
{
    lemma_affected_among(nodes, root, nodes.len() as int, node);
}

proof fn lemma_affected_among(
    nodes: Seq<RebuildNodeView>,
    root: int,
    n: int,
    node: RebuildNodeView,
)
    requires
        n <= nodes.len(),
    ensures
        affected_among(nodes, root, n).contains(node) <==> exists|i: int|
            0 <= i < n && #[trigger] nodes[i] == node && is_affected(nodes, root, i),
    decreases n,
{
    if n > 0 {
        lemma_affected_among(nodes, root, n - 1, node);
        let shorter = affected_among(nodes, root, n - 1);
        let now = affected_among(nodes, root, n);
        if shorter.contains(node) {
            let k = choose|k: int| 0 <= k < shorter.len() && shorter[k] == node;
            assert(now[k] == node);
        }
        if is_affected(nodes, root, n - 1) {
            assert(now[shorter.len() as int] == nodes[n - 1]);
            if now.contains(node) && node != nodes[n - 1] {
                let k = choose|k: int| 0 <= k < now.len() && now[k] == node;
                assert(shorter[k] == node);
            }
        }
        if exists|i: int|
            0 <= i < n && #[trigger] nodes[i] == node && is_affected(nodes, root, i) {
            let i = choose|i: int|
                0 <= i < n && #[trigger] nodes[i] == node && is_affected(nodes, root, i);
            if i < n - 1 {
                assert(shorter.contains(node));
            }
        }
    }
}

/// In a graph without repetitions nothing is found twice for one root.
pub proof fn law_affected_packages_are_distinct(nodes: Seq<RebuildNodeView>, root: int)
    requires
        all_distinct(nodes),
    ensures
        affected_packages(nodes, root).no_duplicates(),
        all_distinct(affected_packages(nodes, root)),
{
    lemma_affected_among_distinct(nodes, root, nodes.len() as int);
    let found = affected_packages(nodes, root);
    assert forall|i: int, j: int|
        0 <= i < found.len() && 0 <= j < found.len() && i != j implies found[i] != found[j] by {
        if i < j {
            assert(!found[i].repeats(found[j]));
        } else {
            assert(!found[j].repeats(found[i]));
        }
    }
}

proof fn lemma_affected_among_distinct(nodes: Seq<RebuildNodeView>, root: int, n: int)
    requires
        all_distinct(nodes),
        n <= nodes.len(),
    ensures
        all_distinct(affected_among(nodes, root, n)),
    decreases n,
{
    if n > 0 {
        lemma_affected_among_distinct(nodes, root, n - 1);
        let shorter = affected_among(nodes, root, n - 1);
        let now = affected_among(nodes, root, n);
        assert forall|i: int, j: int| 0 <= i < j < now.len() implies !(
        #[trigger] now[i]).repeats(#[trigger] now[j]) by {
            assert(now[i] == shorter[i]);
            if j < shorter.len() {
                assert(now[j] == shorter[j]);
            } else {
                assert(shorter.contains(shorter[i]));
                lemma_affected_among(nodes, root, n - 1, shorter[i]);
                let k = choose|k: int|
                    0 <= k < n - 1 && #[trigger] nodes[k] == shorter[i] && is_affected(
                        nodes,
                        root,
                        k,
                    );
                assert(!nodes[k].repeats(nodes[n - 1]));
            }
        }
    }
}

/// A rebuild is a root cause exactly if its reason is none of a changed
/// dependency: an environment variable, a file, flags, features, the profile,
/// the target and a reason of unknown form are root causes.
pub proof fn law_only_dependency_changes_are_caused(node: RebuildNodeView)
    ensures
        node.is_root_cause() <==> match node.reason {
            RebuildReasonView::EnvVarChanged { .. } => true,
            RebuildReasonView::UnitDependencyInfoChanged { .. } => false,
            RebuildReasonView::TargetConfigurationChanged => true,
            RebuildReasonView::ProfileConfigurationChanged => true,
            RebuildReasonView::RustflagsChanged { .. } => true,
            RebuildReasonView::FeaturesChanged { .. } => true,
            RebuildReasonView::FileChanged { .. } => true,
            RebuildReasonView::Unknown(_) => true,
        },
{
}

/// What a rebuild is known by depends on the package id alone, and what caused
/// it on the name in its reason alone.
pub proof fn law_keys_of_rebuilds(node: RebuildNodeView, name: Seq<char>)
    ensures
        node.name() == package_name(node.package.package_id),
        node.key() == crate_key(package_name(node.package.package_id)),
        node.cause() is None <==> !(node.reason is UnitDependencyInfoChanged),
        node.reason matches RebuildReasonView::UnitDependencyInfoChanged { name: n, .. } && n
            == name ==> node.cause() == Some(crate_key(name)),
{
}

/// Two rebuilds repeat each other exactly if the names in their package ids and
/// their whole reasons are the same.
pub proof fn law_repeating(a: RebuildNodeView, b: RebuildNodeView)
    ensures
        a.repeats(b) <==> package_name(a.package.package_id) == package_name(
            b.package.package_id,
        ) && a.reason == b.reason,
{
}

/// A rebuild is known exactly if one of those that were added repeats it, and
/// rebuilds are distinct exactly if none repeats an earlier one.
pub proof fn law_known_rebuilds(nodes: Seq<RebuildNodeView>, node: RebuildNodeView)
    ensures
        is_known(nodes, node) <==> exists|i: int|
            0 <= i < nodes.len() && package_name(
                (#[trigger] nodes[i]).package.package_id,
            ) == package_name(node.package.package_id) && nodes[i].reason == node.reason,
        all_distinct(nodes) ==> (all_distinct(nodes.push(node)) <==> !is_known(nodes, node)),
        all_distinct(Seq::<RebuildNodeView>::empty()),
{
    let more = nodes.push(node);
    if is_known(nodes, node) {
        let i = choose|i: int| 0 <= i < nodes.len() && node.repeats(#[trigger] nodes[i]);
        assert(more[i].repeats(more[nodes.len() as int]));
    }
    if exists|i: int|
        0 <= i < nodes.len() && package_name((#[trigger] nodes[i]).package.package_id)
            == package_name(node.package.package_id) && nodes[i].reason == node.reason {
        let i = choose|i: int|
            0 <= i < nodes.len() && package_name((#[trigger] nodes[i]).package.package_id)
                == package_name(node.package.package_id) && nodes[i].reason == node.reason;
        assert(node.repeats(nodes[i]));
    }
    if all_distinct(nodes) && !is_known(nodes, node) {
        assert forall|i: int, j: int| 0 <= i < j < more.len() implies !(
        #[trigger] more[i]).repeats(#[trigger] more[j]) by {
            assert(more[i] == nodes[i]);
            if j < nodes.len() {
                assert(more[j] == nodes[j]);
            } else {
                assert(!node.repeats(nodes[i]));
            }
        }
    }
}

/// A name is normalized character by character: a hyphen becomes an underscore,
/// and nothing else changes.
pub proof fn law_normalized_names(name: Seq<char>, i: int)
    requires
        0 <= i < name.len(),
    ensures
        crate_key(name).len() == name.len(),
        name[i] == '-' ==> crate_key(name)[i] == '_',
        name[i] != '-' ==> crate_key(name)[i] == name[i],
{
}

/// The name in a package id is its first word, wherever that stands, and the
/// whole id where it holds no word.
pub proof fn law_package_names(white: Seq<char>, name: Seq<char>, rest: Seq<char>)
    requires
        forall|i: int| 0 <= i < white.len() ==> is_white_space(#[trigger] white[i]),
        forall|i: int| 0 <= i < name.len() ==> !is_white_space(#[trigger] name[i]),
        rest.len() > 0 ==> is_white_space(rest[0]),
    ensures
        name.len() > 0 ==> package_name(white + name + rest) == name,
        package_name(white) == white,
{
    lemma_run_is(white, CharClass::Whitespace, white.len() as int);
    assert(trim_start(white) =~= Seq::empty());
    assert(first_word(white) =~= Seq::empty());
    if name.len() > 0 {
        let id = white + name + rest;
        assert(id[white.len() as int] == name[0]);
        lemma_run_is(id, CharClass::Whitespace, white.len() as int);
        let t = name + rest;
        assert(trim_start(id) =~= t);
        assert forall|i: int| 0 <= i < name.len() implies !is_white_space(#[trigger] t[i]) by {
            assert(t[i] == name[i]);
        }
        if rest.len() > 0 {
            assert(t[name.len() as int] == rest[0]);
        }
        lemma_run_is(t, CharClass::NonWhitespace, name.len() as int);
        assert(first_word(id) =~= name);
    }
}

/// A rebuild whose reason names the root's package, up to hyphens and
/// underscores, is affected by that root, whatever the versions and the targets
/// of both.
pub proof fn law_named_cause_affects(
    nodes: Seq<RebuildNodeView>,
    root: int,
    i: int,
    name: Seq<char>,
)
    requires
        0 <= root < nodes.len(),
        0 <= i < nodes.len(),
        i != root,
        nodes[i].reason matches RebuildReasonView::UnitDependencyInfoChanged { name: n, .. } && n
            == name,
        crate_key(name) == crate_key(package_name(nodes[root].package.package_id)),
    ensures
        is_affected(nodes, root, i),
        affected_packages(nodes, root).contains(nodes[i]),
{
    law_affected_packages(nodes, root, nodes[i]);
}

/// A rebuild is affected by a root exactly if it is another one and its reason
/// names the root's package, or a dependency from which a chain leads there.
/// Nothing else of the two counts.
pub proof fn law_affected_exactly(nodes: Seq<RebuildNodeView>, root: int, i: int)
    ensures
        is_affected(nodes, root, i) <==> i != root && match nodes[i].reason {
            RebuildReasonView::UnitDependencyInfoChanged { name, .. } => {
                let key = crate_key(package_name(nodes[root].package.package_id));
                crate_key(name) == key || transitively_affected(nodes, crate_key(name), key)
            },
            _ => false,
        },
{
}

/// Whether `keys` holds every crate of which a rebuild was caused by `root` or
/// by a crate in it.
pub open spec fn holds_what_is_caused(
    nodes: Seq<RebuildNodeView>,
    keys: Set<Seq<char>>,
    root: Seq<char>,
) -> bool {
    forall|i: int|
        0 <= i < nodes.len() && (#[trigger] nodes[i]).reason is UnitDependencyInfoChanged && (
        crate_key(nodes[i].reason->UnitDependencyInfoChanged_name) == root || keys.contains(
            crate_key(nodes[i].reason->UnitDependencyInfoChanged_name),
        )) ==> keys.contains(crate_key(package_name(nodes[i].package.package_id)))
}

/// A chain leads only from crates that have to be reached: from those that are
/// in every set that holds what the root causes.
pub proof fn law_chains_reach_no_more(
    nodes: Seq<RebuildNodeView>,
    dep: Seq<char>,
    root: Seq<char>,
    keys: Set<Seq<char>>,
)
    requires
        holds_what_is_caused(nodes, keys, root),
        transitively_affected(nodes, dep, root),
    ensures
        keys.contains(dep),
{
    let chain = choose|chain: Seq<Seq<char>>|
        {
            &&& #[trigger] is_chain(nodes, chain)
            &&& chain.len() >= 2
            &&& chain[0] == dep
            &&& chain.last() == root
        };
    lemma_chain_is_held(nodes, keys, root, chain, 0);
}

proof fn lemma_chain_is_held(
    nodes: Seq<RebuildNodeView>,
    keys: Set<Seq<char>>,
    root: Seq<char>,
    chain: Seq<Seq<char>>,
    k: int,
)
    requires
        holds_what_is_caused(nodes, keys, root),
        is_chain(nodes, chain),
        chain.len() >= 2,
        chain.last() == root,
        0 <= k < chain.len() - 1,
    ensures
        keys.contains(chain[k]),
    decreases chain.len() - k,
{
    if k + 1 < chain.len() - 1 {
        lemma_chain_is_held(nodes, keys, root, chain, k + 1);
    }
    assert(is_link(nodes, chain, k));
    let i = choose|i: int|
        0 <= i < nodes.len() && (#[trigger] nodes[i]).key() == chain[k] && nodes[i].cause() == Some(
            chain[k + 1],
        );
    assert(nodes[i].reason is UnitDependencyInfoChanged);
}

/// Nothing is affected that does not have to be: whatever set of rebuilds holds
/// those that the root causes itself, and with every rebuild those that it
/// causes, holds all that is affected.
pub proof fn law_affected_is_no_more(
    nodes: Seq<RebuildNodeView>,
    root: int,
    set: Set<int>,
    j: int,
)
    requires
        0 <= root < nodes.len(),
        0 <= j < nodes.len(),
        forall|i: int|
            0 <= i < nodes.len() && i != root && (#[trigger] nodes[i]).cause() == Some(
                nodes[root].key(),
            ) ==> set.contains(i),
        forall|i: int, k: int|
            0 <= i < nodes.len() && 0 <= k < nodes.len() && k != root && set.contains(i)
                && (#[trigger] nodes[k]).cause() == Some((#[trigger] nodes[i]).key())
                ==> set.contains(k),
        is_affected(nodes, root, j),
    ensures
        set.contains(j),
{
    let top = nodes[root].key();
    let keys = Set::new(
        |c: Seq<char>|
            c == top || exists|i: int|
                0 <= i < nodes.len() && set.contains(i) && (#[trigger] nodes[i]).key() == c,
    );
    assert forall|i: int|
        0 <= i < nodes.len() && (#[trigger] nodes[i]).reason is UnitDependencyInfoChanged && (
        crate_key(nodes[i].reason->UnitDependencyInfoChanged_name) == top || keys.contains(
            crate_key(nodes[i].reason->UnitDependencyInfoChanged_name),
        )) implies keys.contains(crate_key(package_name(nodes[i].package.package_id))) by {
        let cause = crate_key(nodes[i].reason->UnitDependencyInfoChanged_name);
        assert(nodes[i].cause() == Some(cause));
        if i != root {
            if cause != top {
                let m = choose|m: int|
                    0 <= m < nodes.len() && set.contains(m) && (#[trigger] nodes[m]).key()
                        == cause;
                assert(nodes[i].cause() == Some(nodes[m].key()));
            }
            assert(set.contains(i));
            assert(nodes[i].key() == crate_key(package_name(nodes[i].package.package_id)));
        }
    }
    let dep = nodes[j].cause().unwrap();
    if dep != top {
        law_chains_reach_no_more(nodes, dep, top, keys);
        let m = choose|m: int|
            0 <= m < nodes.len() && set.contains(m) && (#[trigger] nodes[m]).key() == dep;
        assert(nodes[j].cause() == Some(nodes[m].key()));
    }
}

/// What is found for a root is made of the affected rebuilds in the order of
/// the graph, each at its own index once.
pub proof fn law_affected_packages_in_order(nodes: Seq<RebuildNodeView>, root: int)
    ensures
        exists|indices: Seq<int>|
            {
                &&& #[trigger] are_ascending(indices, nodes.len() as int)
                &&& indices.len() == affected_packages(nodes, root).len()
                &&& forall|k: int|
                    0 <= k < indices.len() ==> affected_packages(nodes, root)[k]
                        == nodes[#[trigger] indices[k]]
                &&& forall|i: int|
                    0 <= i < nodes.len() ==> (#[trigger] is_affected(nodes, root, i)
                        <==> indices.contains(i))
            },
{
    let indices = affected_indices(nodes, root, nodes.len() as int);
    lemma_affected_indices(nodes, root, nodes.len() as int);
    assert(are_ascending(indices, nodes.len() as int));
}

/// Whether these are indices below `n`, from low to high.
pub open spec fn are_ascending(indices: Seq<int>, n: int) -> bool {
    &&& forall|k: int| 0 <= k < indices.len() ==> 0 <= #[trigger] indices[k] < n
    &&& forall|j: int, k: int|
        0 <= j < k < indices.len() ==> #[trigger] indices[j] < #[trigger] indices[k]
}

spec fn affected_indices(nodes: Seq<RebuildNodeView>, root: int, n: int) -> Seq<int>
    decreases n,
{
    if n <= 0 {
        Seq::empty()
    } else if is_affected(nodes, root, n - 1) {
        affected_indices(nodes, root, n - 1).push(n - 1)
    } else {
        affected_indices(nodes, root, n - 1)
    }
}

proof fn lemma_affected_indices(nodes: Seq<RebuildNodeView>, root: int, n: int)
    requires
        n <= nodes.len(),
    ensures
        are_ascending(affected_indices(nodes, root, n), n),
        affected_indices(nodes, root, n).len() == affected_among(nodes, root, n).len(),
        forall|k: int|
            0 <= k < affected_indices(nodes, root, n).len() ==> affected_among(nodes, root, n)[k]
                == nodes[#[trigger] affected_indices(nodes, root, n)[k]],
        forall|i: int|
            0 <= i < n ==> (#[trigger] is_affected(nodes, root, i) <==> affected_indices(
                nodes,
                root,
                n,
            ).contains(i)),
    decreases n,
{
    if n > 0 {
        lemma_affected_indices(nodes, root, n - 1);
        let shorter = affected_indices(nodes, root, n - 1);
        let now = affected_indices(nodes, root, n);
        assert forall|i: int| 0 <= i < n implies (#[trigger] is_affected(nodes, root, i)
            <==> now.contains(i)) by {
            if i < n - 1 {
                if shorter.contains(i) {
                    let k = choose|k: int| 0 <= k < shorter.len() && shorter[k] == i;
                    assert(now[k] == i);
                }
                if now.contains(i) {
                    let k = choose|k: int| 0 <= k < now.len() && now[k] == i;
                    assert(shorter[k] == i);
                    assert(shorter.contains(i));
                }
            } else if is_affected(nodes, root, i) {
                assert(now[shorter.len() as int] == i);
            }
        }
    }
}

} // verus!
