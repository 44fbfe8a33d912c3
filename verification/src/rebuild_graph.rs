//! Which rebuilds were caused by which others.
//!
//! The rebuilds of one cargo run form a directed graph. A rebuild whose reason
//! is `UnitDependencyInfoChanged` was caused by the rebuild of the dependency
//! that the reason names; every other rebuild is a root cause.

use vstd::prelude::*;

use crate::rebuild_reason::{copy_option, same_option, RebuildReason, RebuildReasonView};
use crate::text::{chars_of, first_word, first_word_of, string_of};

verus! {

/// A compilation unit.
#[derive(Debug, Eq, Hash)]
pub struct PackageTarget {
    pub package_id: String,
    pub target: Option<String>,
}

/// The model of a [`PackageTarget`].
#[verifier::ext_equal]
pub struct PackageTargetView {
    pub package_id: Seq<char>,
    pub target: Option<Seq<char>>,
}

impl View for PackageTarget {
    type V = PackageTargetView;

    open spec fn view(&self) -> PackageTargetView {
        PackageTargetView { package_id: self.package_id@, target: self.target.deep_view() }
    }
}

impl DeepView for PackageTarget {
    type V = PackageTargetView;

    open spec fn deep_view(&self) -> PackageTargetView {
        self@
    }
}

impl PartialEq for PackageTarget {
    fn eq(&self, other: &Self) -> (same: bool) {
        self.package_id == other.package_id && same_option(&self.target, &other.target)
    }
}

impl vstd::std_specs::cmp::PartialEqSpecImpl for PackageTarget {
    open spec fn obeys_eq_spec() -> bool {
        true
    }

    open spec fn eq_spec(&self, other: &Self) -> bool {
        self@ == other@
    }
}

impl Clone for PackageTarget {
    fn clone(&self) -> (copy: Self)
        ensures
            copy@ == self@,
    {
        PackageTarget { package_id: self.package_id.clone(), target: copy_option(&self.target) }
    }
}

/// The name in a package id such as `libz-sys v1.1.23`: its first word, or the
/// whole id where it holds no word.
pub open spec fn package_name(package_id: Seq<char>) -> Seq<char> {
    if first_word(package_id).len() == 0 {
        package_id
    } else {
        first_word(package_id)
    }
}

/// Finds the name in a package id.
pub fn extract_package_name(package_id: &str) -> (name: String)
    ensures
        name@ == package_name(package_id@),
{
    let id: Vec<char> = chars_of(package_id);
    let word = first_word_of(id.as_slice());
    if word.len() == 0 {
        package_id.to_owned()
    } else {
        string_of(word)
    }
}

/// What a crate's name is known by: hyphens count as underscores.
pub open spec fn crate_key(name: Seq<char>) -> Seq<char> {
    name.map_values(
        |c: char|
            if c == '-' {
                '_'
            } else {
                c
            },
    )
}

/// Replaces hyphens by underscores, so that names can be compared.
pub fn normalize_crate_name(name: &str) -> (key: String)
    ensures
        key@ == crate_key(name@),
{
    let chars: Vec<char> = chars_of(name);
    let mut key: String = String::new();
    let mut i: usize = 0;
    while i < chars.len()
        invariant
            i <= chars@.len(),
            key@ =~= crate_key(chars@.take(i as int)),
        decreases chars@.len() - i,
    {
        if chars[i] == '-' {
            key.push('_');
        } else {
            key.push(chars[i]);
        }
        i = i + 1;
    }
    assert(chars@.take(i as int) == chars@);
    key
}

impl PackageTarget {
    /// Makes a compilation unit.
    pub fn new(package_id: &str, target: Option<String>) -> (unit: Self)
        ensures
            unit@ == (PackageTargetView {
                package_id: package_id@,
                target: target.deep_view(),
            }),
    {
        PackageTarget { package_id: package_id.to_owned(), target }
    }

    /// The unit as people read it: `libz-sys [build-script-build]`, or the
    /// package's name alone where there is no target.
    pub fn describe(&self) -> (text: String)
        ensures
            text@ == match self@.target {
                Some(target) => package_name(self@.package_id) + " ["@ + target + "]"@,
                None => package_name(self@.package_id),
            },
    {
        let mut text: String = extract_package_name(self.package_id.as_str());
        if let Some(target) = &self.target {
            text.append(" [");
            text.append(target.as_str());
            text.append("]");
        }
        text
    }
}

/// A rebuild: a compilation unit and the reason why it was rebuilt.
#[derive(Debug)]
pub struct RebuildNode {
    pub package: PackageTarget,
    pub reason: RebuildReason,
}

/// The model of a [`RebuildNode`].
#[verifier::ext_equal]
pub struct RebuildNodeView {
    pub package: PackageTargetView,
    pub reason: RebuildReasonView,
}

impl View for RebuildNode {
    type V = RebuildNodeView;

    open spec fn view(&self) -> RebuildNodeView {
        RebuildNodeView { package: self.package@, reason: self.reason@ }
    }
}

impl DeepView for RebuildNode {
    type V = RebuildNodeView;

    open spec fn deep_view(&self) -> RebuildNodeView {
        self@
    }
}

impl PartialEq for RebuildNode {
    fn eq(&self, other: &Self) -> (same: bool) {
        self.package == other.package && self.reason == other.reason
    }
}

impl vstd::std_specs::cmp::PartialEqSpecImpl for RebuildNode {
    open spec fn obeys_eq_spec() -> bool {
        true
    }

    open spec fn eq_spec(&self, other: &Self) -> bool {
        self@ == other@
    }
}

impl Clone for RebuildNode {
    fn clone(&self) -> (copy: Self)
        ensures
            copy@ == self@,
    {
        RebuildNode { package: self.package.clone(), reason: self.reason.clone() }
    }
}

impl RebuildNodeView {
    /// Whether the rebuild was not caused by that of another package.
    pub open spec fn is_root_cause(self) -> bool {
        !(self.reason is UnitDependencyInfoChanged)
    }

    /// The name of the package that was rebuilt.
    pub open spec fn name(self) -> Seq<char> {
        package_name(self.package.package_id)
    }

    /// What the package that was rebuilt is known by.
    pub open spec fn key(self) -> Seq<char> {
        crate_key(self.name())
    }

    /// What the dependency that caused the rebuild is known by.
    pub open spec fn cause(self) -> Option<Seq<char>> {
        match self.reason {
            RebuildReasonView::UnitDependencyInfoChanged { name, .. } => Some(crate_key(name)),
            _ => None,
        }
    }

    /// Whether two rebuilds say the same: the same package name, whatever the
    /// version and the target, and the same reason.
    pub open spec fn repeats(self, other: RebuildNodeView) -> bool {
        self.name() == other.name() && self.reason == other.reason
    }
}

impl RebuildNode {
    /// Makes a rebuild.
    #[must_use]
    pub fn new(package: PackageTarget, reason: RebuildReason) -> (node: Self)
        ensures
            node.package == package,
            node.reason == reason,
    {
        RebuildNode { package, reason }
    }

    /// Whether this is a root cause: not caused by another package's rebuild.
    #[must_use]
    pub fn is_root_cause(&self) -> (root: bool)
        ensures
            root == self@.is_root_cause(),
    {
        match &self.reason {
            RebuildReason::UnitDependencyInfoChanged { .. } => false,
            _ => true,
        }
    }

    /// What the package that was rebuilt is known by.
    fn crate_key(&self) -> (key: String)
        ensures
            key@ == self@.key(),
    {
        normalize_crate_name(extract_package_name(self.package.package_id.as_str()).as_str())
    }

    /// What the dependency that caused the rebuild is known by.
    fn cause_key(&self) -> (key: Option<String>)
        ensures
            key.deep_view() == self@.cause(),
    {
        match &self.reason {
            RebuildReason::UnitDependencyInfoChanged { name, .. } => Some(
                normalize_crate_name(name.as_str()),
            ),
            _ => None,
        }
    }
}

/// The directed graph of what caused what.
///
/// There is an edge from one rebuild to another where the second one's reason
/// is a change of the dependency that the first one rebuilt.
#[derive(Debug)]
pub struct RebuildGraph {
    nodes: Vec<RebuildNode>,
}

impl View for RebuildGraph {
    type V = Seq<RebuildNodeView>;

    /// The rebuilds, in the order in which they were added.
    closed spec fn view(&self) -> Seq<RebuildNodeView> {
        self.nodes.deep_view()
    }
}

/// Whether `node` repeats one of `nodes`.
pub open spec fn is_known(nodes: Seq<RebuildNodeView>, node: RebuildNodeView) -> bool {
    exists|i: int| 0 <= i < nodes.len() && node.repeats(#[trigger] nodes[i])
}

/// Whether no rebuild repeats another.
pub open spec fn all_distinct(nodes: Seq<RebuildNodeView>) -> bool {
    forall|i: int, j: int|
        0 <= i < j < nodes.len() ==> !(#[trigger] nodes[i]).repeats(#[trigger] nodes[j])
}

impl Default for RebuildGraph {
    fn default() -> (graph: Self)
        ensures
            graph@ == Seq::<RebuildNodeView>::empty(),
    {
        RebuildGraph::new()
    }
}

impl RebuildGraph {
    #[verifier::type_invariant]
    spec fn distinct(&self) -> bool {
        all_distinct(self.nodes.deep_view())
    }

    /// Makes a graph without any rebuild.
    #[must_use]
    pub fn new() -> (graph: Self)
        ensures
            graph@ == Seq::<RebuildNodeView>::empty(),
    {
        let nodes: Vec<RebuildNode> = Vec::new();
        assert(nodes.deep_view() =~= Seq::empty());
        RebuildGraph { nodes }
    }

    /// Adds a rebuild and gives its index, unless it repeats one that is there
    /// already: the same package name and the same reason.
    pub fn add_node(&mut self, node: RebuildNode) -> (index: Option<usize>)
        ensures
            match index {
                Some(i) => {
                    &&& !is_known(old(self)@, node@)
                    &&& i == old(self)@.len()
                    &&& final(self)@ == old(self)@.push(node@)
                },
                None => is_known(old(self)@, node@) && final(self)@ == old(self)@,
            },
            all_distinct(final(self)@),
    {
        let name: String = extract_package_name(node.package.package_id.as_str());
        let mut i: usize = 0;
        while i < self.nodes.len()
            invariant
                i <= self.nodes@.len(),
                name@ == node@.name(),
                *self == *old(self),
                forall|j: int| 0 <= j < i ==> !node@.repeats(#[trigger] self.nodes@[j]@),
            decreases self.nodes@.len() - i,
        {
            let known = &self.nodes[i];
            if extract_package_name(known.package.package_id.as_str()) == name && known.reason
                == node.reason {
                proof {
                    use_type_invariant(&*self);
                    assert(node@.repeats(self@[i as int]));
                }
                return None;
            }
            i = i + 1;
        }
        proof {
            use_type_invariant(&*self);
        }
        let ghost before = self@;
        let mut taken = RebuildGraph::new();
        std::mem::swap(&mut taken, self);
        let mut nodes = taken.nodes;
        nodes.push(node);
        assert(nodes.deep_view() =~= before.push(node@));
        *self = RebuildGraph { nodes };
        Some(i)
    }

    /// The rebuilds, in the order in which they were added. None repeats
    /// another.
    pub fn nodes(&self) -> (nodes: &[RebuildNode])
        ensures
            nodes.deep_view() == self@,
            all_distinct(nodes.deep_view()),
    {
        proof {
            use_type_invariant(self);
        }
        self.nodes.as_slice()
    }
}

/// Whether a rebuild of the crate known by `a` was caused by one of the crate
/// known by `b`.
pub open spec fn caused_by(nodes: Seq<RebuildNodeView>, a: Seq<char>, b: Seq<char>) -> bool {
    exists|i: int|
        0 <= i < nodes.len() && (#[trigger] nodes[i]).key() == a && nodes[i].cause() == Some(b)
}

/// Whether the `k`th crate of `chain` was rebuilt because of the one behind it.
pub open spec fn is_link(nodes: Seq<RebuildNodeView>, chain: Seq<Seq<char>>, k: int) -> bool {
    caused_by(nodes, chain[k], chain[k + 1])
}

/// Whether every crate of `chain` was rebuilt because of the one behind it.
pub open spec fn is_chain(nodes: Seq<RebuildNodeView>, chain: Seq<Seq<char>>) -> bool {
    forall|k: int| 0 <= k < chain.len() - 1 ==> #[trigger] is_link(nodes, chain, k)
}

/// Whether a chain of two or more crates leads from `dep` to `root`.
pub open spec fn transitively_affected(
    nodes: Seq<RebuildNodeView>,
    dep: Seq<char>,
    root: Seq<char>,
) -> bool {
    exists|chain: Seq<Seq<char>>|
        {
            &&& #[trigger] is_chain(nodes, chain)
            &&& chain.len() >= 2
            &&& chain[0] == dep
            &&& chain.last() == root
        }
}

/// Whether the rebuild at `i` was caused, directly or through others, by a
/// rebuild of the package at `root`.
pub open spec fn is_affected(nodes: Seq<RebuildNodeView>, root: int, i: int) -> bool {
    &&& i != root
    &&& nodes[i].cause() matches Some(dep) && {
        ||| dep == nodes[root].key()
        ||| transitively_affected(nodes, dep, nodes[root].key())
    }
}

/// Those of the first `n` rebuilds that were caused by the one at `root`, in
/// order.
pub open spec fn affected_among(nodes: Seq<RebuildNodeView>, root: int, n: int) -> Seq<
    RebuildNodeView,
>
    decreases n,
{
    if n <= 0 {
        Seq::empty()
    } else if is_affected(nodes, root, n - 1) {
        affected_among(nodes, root, n - 1).push(nodes[n - 1])
    } else {
        affected_among(nodes, root, n - 1)
    }
}

/// The rebuilds that were caused by the one at `root`, in order.
pub open spec fn affected_packages(nodes: Seq<RebuildNodeView>, root: int) -> Seq<
    RebuildNodeView,
> {
    affected_among(nodes, root, nodes.len() as int)
}

/// One more step behind a chain, or behind its first crate alone.
proof fn lemma_chain_grows(
    nodes: Seq<RebuildNodeView>,
    dep: Seq<char>,
    a: Seq<char>,
    b: Seq<char>,
)
    requires
        dep == a || transitively_affected(nodes, dep, a),
        caused_by(nodes, a, b),
    ensures
        transitively_affected(nodes, dep, b),
{
    let start = if dep == a {
        seq![dep]
    } else {
        choose|chain: Seq<Seq<char>>|
            {
                &&& #[trigger] is_chain(nodes, chain)
                &&& chain.len() >= 2
                &&& chain[0] == dep
                &&& chain.last() == a
            }
    };
    let chain = start.push(b);
    assert forall|k: int| 0 <= k < chain.len() - 1 implies #[trigger] is_link(nodes, chain, k) by {
        if k < start.len() - 1 {
            assert(is_link(nodes, start, k));
        }
    }
    assert(is_chain(nodes, chain));
}

/// Whether `keys` holds, with every crate, also those that caused its rebuild,
/// of which none is `root`.
spec fn is_closed_without(
    nodes: Seq<RebuildNodeView>,
    keys: Seq<Seq<char>>,
    root: Seq<char>,
) -> bool {
    forall|i: int|
        0 <= i < nodes.len() && keys.contains((#[trigger] nodes[i]).key())
            && nodes[i].cause() is Some ==> keys.contains(nodes[i].cause().unwrap())
            && nodes[i].cause().unwrap() != root
}

/// A chain that starts in such a set of crates stays in it.
proof fn lemma_chain_stays(
    nodes: Seq<RebuildNodeView>,
    keys: Seq<Seq<char>>,
    root: Seq<char>,
    chain: Seq<Seq<char>>,
    k: int,
)
    requires
        is_closed_without(nodes, keys, root),
        is_chain(nodes, chain),
        0 <= k < chain.len(),
        keys.contains(chain[0]),
    ensures
        keys.contains(chain[k]),
        k > 0 ==> chain[k] != root,
    decreases k,
{
    if k > 0 {
        lemma_chain_stays(nodes, keys, root, chain, k - 1);
        assert(is_link(nodes, chain, k - 1));
    }
}

/// The number of marks that are not set.
spec fn unmarked(marks: Seq<bool>) -> nat
    decreases marks.len(),
{
    if marks.len() == 0 {
        0
    } else {
        unmarked(marks.drop_last()) + if marks.last() {
            0nat
        } else {
            1nat
        }
    }
}

proof fn lemma_all_unmarked(marks: Seq<bool>)
    requires
        forall|i: int| 0 <= i < marks.len() ==> !#[trigger] marks[i],
    ensures
        unmarked(marks) == marks.len(),
    decreases marks.len(),
{
    if marks.len() > 0 {
        lemma_all_unmarked(marks.drop_last());
    }
}

proof fn lemma_mark(marks: Seq<bool>, i: int)
    requires
        0 <= i < marks.len(),
        !marks[i],
    ensures
        unmarked(marks) == unmarked(marks.update(i, true)) + 1,
    decreases marks.len(),
{
    let after = marks.update(i, true);
    if i == marks.len() - 1 {
        assert(after.drop_last() =~= marks.drop_last());
    } else {
        lemma_mark(marks.drop_last(), i);
        assert(after.drop_last() =~= marks.drop_last().update(i, true));
    }
}

/// The state of a breadth-first walk: `keys` are the crates that were reached
/// from `dep`, the first `head` of them were dealt with, and `marks` says which
/// rebuilds led to the crates behind the first one. None led to `root`.
spec fn is_walk(
    nodes: Seq<RebuildNodeView>,
    dep: Seq<char>,
    root: Seq<char>,
    keys: Seq<Seq<char>>,
    marks: Seq<bool>,
    head: int,
) -> bool {
    &&& marks.len() == nodes.len()
    &&& keys.len() + unmarked(marks) == nodes.len() + 1
    &&& keys.len() > 0
    &&& keys[0] == dep
    &&& forall|q: int|
        0 <= q < keys.len() ==> dep == #[trigger] keys[q] || transitively_affected(
            nodes,
            dep,
            keys[q],
        )
    &&& forall|i: int|
        0 <= i < nodes.len() && #[trigger] marks[i] ==> nodes[i].cause() is Some
            && nodes[i].cause().unwrap() != root && keys.contains(nodes[i].cause().unwrap())
    &&& forall|q: int, i: int|
        0 <= q < head && 0 <= i < nodes.len() && #[trigger] keys[q] == (
        #[trigger] nodes[i]).key() && nodes[i].cause() is Some ==> marks[i]
}

/// A walk goes on over one more rebuild of the crate it is at.
proof fn lemma_walk_step(
    nodes: Seq<RebuildNodeView>,
    dep: Seq<char>,
    root: Seq<char>,
    keys: Seq<Seq<char>>,
    marks: Seq<bool>,
    head: int,
    i: int,
)
    requires
        is_walk(nodes, dep, root, keys, marks, head),
        0 <= head < keys.len(),
        0 <= i < nodes.len(),
        !marks[i],
        nodes[i].key() == keys[head],
        nodes[i].cause() is Some,
        nodes[i].cause().unwrap() != root,
    ensures
        is_walk(
            nodes,
            dep,
            root,
            keys.push(nodes[i].cause().unwrap()),
            marks.update(i, true),
            head,
        ),
{
    let cause = nodes[i].cause().unwrap();
    let more = keys.push(cause);
    lemma_mark(marks, i);
    assert(caused_by(nodes, keys[head], cause));
    lemma_chain_grows(nodes, dep, keys[head], cause);
    assert(more[keys.len() as int] == cause);
    assert forall|j: int|
        0 <= j < nodes.len() && #[trigger] marks.update(i, true)[j] implies more.contains(
        nodes[j].cause().unwrap(),
    ) by {
        if j != i {
            let q = choose|q: int|
                0 <= q < keys.len() && keys[q] == nodes[j].cause().unwrap();
            assert(more[q] == keys[q]);
        }
    }
}

impl RebuildGraph {
    /// Whether a chain of rebuilds leads from the dependency `dep_name` to
    /// `root_name`. This walks the graph breadth first and visits every
    /// rebuild at most once, so it ends on circular dependencies too.
    fn is_transitively_affected(&self, dep_name: &str, root_name: &str) -> (affected: bool)
        ensures
            affected == transitively_affected(
                self@,
                crate_key(dep_name@),
                crate_key(root_name@),
            ),
    {
        let ghost nodes = self@;
        let ghost dep = crate_key(dep_name@);
        let root: String = normalize_crate_name(root_name);
        let mut queue: Vec<String> = Vec::new();
        queue.push(normalize_crate_name(dep_name));
        let mut visited: Vec<bool> = Vec::new();
        while visited.len() < self.nodes.len()
            invariant
                visited@.len() <= self.nodes@.len(),
                forall|i: int| 0 <= i < visited@.len() ==> !#[trigger] visited@[i],
            decreases self.nodes@.len() - visited@.len(),
        {
            visited.push(false);
        }
        proof {
            lemma_all_unmarked(visited@);
        }
        let mut head: usize = 0;
        while head < queue.len()
            invariant
                nodes == self@,
                root@ == crate_key(root_name@),
                dep == crate_key(dep_name@),
                head <= queue@.len(),
                is_walk(nodes, dep, root@, queue.deep_view(), visited@, head as int),
            decreases nodes.len() + 1 - head,
        {
            let mut i: usize = 0;
            while i < self.nodes.len()
                invariant
                    nodes == self@,
                    root@ == crate_key(root_name@),
                    dep == crate_key(dep_name@),
                    head < queue@.len(),
                    i <= nodes.len(),
                    is_walk(nodes, dep, root@, queue.deep_view(), visited@, head as int),
                    forall|j: int|
                        0 <= j < i && queue.deep_view()[head as int] == (#[trigger] nodes[j]).key()
                            && nodes[j].cause() is Some ==> visited@[j],
                decreases nodes.len() - i,
            {
                let node = &self.nodes[i];
                assert(node@ == nodes[i as int]);
                if !visited[i] && node.crate_key() == queue[head] {
                    if let Some(cause) = node.cause_key() {
                        let ghost keys = queue.deep_view();
                        let ghost marks = visited@;
                        if cause == root {
                            proof {
                                assert(caused_by(nodes, keys[head as int], root@));
                                lemma_chain_grows(nodes, dep, keys[head as int], root@);
                            }
                            return true;
                        }
                        queue.push(cause);
                        visited.set(i, true);
                        proof {
                            assert(queue.deep_view() =~= keys.push(cause@));
                            lemma_walk_step(
                                nodes,
                                dep,
                                root@,
                                keys,
                                marks,
                                head as int,
                                i as int,
                            );
                        }
                    }
                }
                i = i + 1;
            }
            head = head + 1;
        }
        proof {
            let keys = queue.deep_view();
            assert(is_closed_without(nodes, keys, root@));
            assert(keys[0] == dep);
            if transitively_affected(nodes, dep, root@) {
                let chain = choose|chain: Seq<Seq<char>>|
                    {
                        &&& #[trigger] is_chain(nodes, chain)
                        &&& chain.len() >= 2
                        &&& chain[0] == dep
                        &&& chain.last() == root@
                    };
                lemma_chain_stays(nodes, keys, root@, chain, chain.len() - 1);
            }
        }
        false
    }

    /// Finds every rebuild that was caused, directly or through others, by the
    /// one at `root_idx`.
    pub fn find_affected_packages(&self, root_idx: usize) -> (affected: Vec<RebuildNode>)
        requires
            root_idx < self@.len(),
        ensures
            affected.deep_view() == affected_packages(self@, root_idx as int),
    {
        let ghost nodes = self@;
        let root_name: String = extract_package_name(
            self.nodes[root_idx].package.package_id.as_str(),
        );
        let root_key: String = normalize_crate_name(root_name.as_str());
        assert(self.nodes@[root_idx as int]@ == nodes[root_idx as int]);
        let mut affected: Vec<RebuildNode> = Vec::new();
        let mut i: usize = 0;
        assert(affected.deep_view() =~= affected_among(nodes, root_idx as int, 0));
        while i < self.nodes.len()
            invariant
                nodes == self@,
                root_idx < nodes.len(),
                i <= nodes.len(),
                root_name@ == nodes[root_idx as int].name(),
                root_key@ == nodes[root_idx as int].key(),
                affected.deep_view() == affected_among(nodes, root_idx as int, i as int),
            decreases nodes.len() - i,
        {
            let node = &self.nodes[i];
            assert(node@ == nodes[i as int]);
            if i != root_idx {
                if let RebuildReason::UnitDependencyInfoChanged { name, .. } = &node.reason {
                    if normalize_crate_name(name.as_str()) == root_key
                        || self.is_transitively_affected(name.as_str(), root_name.as_str()) {
                        let ghost before = affected.deep_view();
                        affected.push(node.clone());
                        assert(affected.deep_view() =~= before.push(nodes[i as int]));
                    }
                }
            }
            i = i + 1;
        }
        affected
    }
}

} // verus!
