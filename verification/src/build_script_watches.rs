//! What build scripts asked cargo to watch.
//!
//! A build script prints directives such as `cargo:rerun-if-env-changed=PATH`,
//! and cargo keeps what it printed in `target/<profile>/build/<crate>-<hash>/output`.
//! This module reads such output, and knows which environment variables are
//! volatile: those vary between shells and sessions (`PATH`, `HOME`, `XDG_*`),
//! so a build script that watches one is bound to run again.

use vstd::prelude::*;

use crate::rebuild_reason::copy_list;
use crate::text::{
    chars_of, run, run_back, run_back_len, run_len, same_text, skip_chars, starts_with, string_of,
    take_chars, trim, trim_chars, CharClass,
};
use crate::text_order::{
    before, is_sorted, is_sorted_set_of, lemma_before_irreflexive, lemma_insert_sorted, position,
    sorted_set,
};

verus! {

/// The names that are volatile.
pub open spec fn volatile_names() -> Seq<Seq<char>> {
    seq![
        "PATH"@,
        "PWD"@,
        "OLDPWD"@,
        "SHLVL"@,
        "SHELL"@,
        "TERM"@,
        "TERM_PROGRAM"@,
        "TERM_PROGRAM_VERSION"@,
        "TERM_SESSION_ID"@,
        "HOME"@,
        "USER"@,
        "LOGNAME"@,
        "TMPDIR"@,
        "VIRTUAL_ENV"@,
        "VIRTUAL_ENV_PROMPT"@,
        "_"@,
        "OLDOLDPWD"@,
    ]
}

/// The prefixes of volatile names.
pub open spec fn volatile_prefixes() -> Seq<Seq<char>> {
    seq![
        "XDG_"@,
        "CONDA_"@,
        "DIRENV_"@,
        "SSH_"@,
        "ITERM_"@,
        "VSCODE_"@,
        "TERMINFO_"@,
    ]
}

/// Whether an environment variable is volatile.
pub open spec fn is_volatile_name(name: Seq<char>) -> bool {
    ||| volatile_names().contains(name)
    ||| exists|i: int|
        0 <= i < volatile_prefixes().len() && (#[trigger] volatile_prefixes()[i]).is_prefix_of(name)
}

/// Whether the environment variable `var_name` is on the list of volatile
/// ones.
#[must_use]
pub fn is_volatile(var_name: &str) -> (volatile: bool)
    ensures
        volatile == is_volatile_name(var_name@),
{
    let names: Vec<&str> = vec![
        "PATH",
        "PWD",
        "OLDPWD",
        "SHLVL",
        "SHELL",
        "TERM",
        "TERM_PROGRAM",
        "TERM_PROGRAM_VERSION",
        "TERM_SESSION_ID",
        "HOME",
        "USER",
        "LOGNAME",
        "TMPDIR",
        "VIRTUAL_ENV",
        "VIRTUAL_ENV_PROMPT",
        "_",
        "OLDOLDPWD",
    ];
    let prefixes: Vec<&str> = vec![
        "XDG_",
        "CONDA_",
        "DIRENV_",
        "SSH_",
        "ITERM_",
        "VSCODE_",
        "TERMINFO_",
    ];
    assert(names.deep_view() =~= volatile_names());
    assert(prefixes.deep_view() =~= volatile_prefixes());
    let mut i: usize = 0;
    while i < names.len()
        invariant
            i <= names@.len(),
            names.deep_view() == volatile_names(),
            forall|j: int| 0 <= j < i ==> #[trigger] volatile_names()[j] != var_name@,
        decreases names@.len() - i,
    {
        assert(names.deep_view()[i as int] == names@[i as int]@);
        if same_text(names[i], var_name) {
            return true;
        }
        i = i + 1;
    }
    let name: Vec<char> = chars_of(var_name);
    let mut k: usize = 0;
    while k < prefixes.len()
        invariant
            k <= prefixes@.len(),
            name@ == var_name@,
            prefixes.deep_view() == volatile_prefixes(),
            forall|j: int|
                0 <= j < k ==> !(#[trigger] volatile_prefixes()[j]).is_prefix_of(var_name@),
        decreases prefixes@.len() - k,
    {
        assert(prefixes.deep_view()[k as int] == prefixes@[k as int]@);
        if starts_with(name.as_slice(), prefixes[k]) {
            return true;
        }
        k = k + 1;
    }
    assert(!volatile_names().contains(var_name@));
    false
}

/// What one crate's build script asked cargo to watch.
#[derive(Debug)]
pub struct BuildScriptWatches {
    pub env_vars: Vec<String>,
    pub paths: Vec<String>,
}

/// The model of [`BuildScriptWatches`].
#[verifier::ext_equal]
pub struct BuildScriptWatchesView {
    pub env_vars: Seq<Seq<char>>,
    pub paths: Seq<Seq<char>>,
}

impl View for BuildScriptWatches {
    type V = BuildScriptWatchesView;

    open spec fn view(&self) -> BuildScriptWatchesView {
        BuildScriptWatchesView { env_vars: self.env_vars.deep_view(), paths: self.paths.deep_view() }
    }
}

impl DeepView for BuildScriptWatches {
    type V = BuildScriptWatchesView;

    open spec fn deep_view(&self) -> BuildScriptWatchesView {
        self@
    }
}

impl Default for BuildScriptWatches {
    fn default() -> (watches: Self)
        ensures
            watches@ == (BuildScriptWatchesView { env_vars: Seq::empty(), paths: Seq::empty() }),
    {
        let watches = BuildScriptWatches { env_vars: Vec::new(), paths: Vec::new() };
        assert(watches@ =~= BuildScriptWatchesView { env_vars: Seq::empty(), paths: Seq::empty() });
        watches
    }
}

/// The values of the directives with the given prefix in what a build script
/// printed, in order. A directive fills a line, and the white space round its
/// value does not count.
pub open spec fn directives(contents: Seq<char>, prefix: Seq<char>) -> Seq<Seq<char>>
    decreases contents.len(),
{
    let n = run(contents, CharClass::Except('\n')) as int;
    let line = contents.take(n);
    let here = if prefix.is_prefix_of(line) {
        seq![trim(line.skip(prefix.len() as int))]
    } else {
        Seq::empty()
    };
    if n < contents.len() {
        here + directives(contents.skip(n + 1), prefix)
    } else {
        here
    }
}

/// The directives that name an environment variable.
pub open spec fn env_directives(contents: Seq<char>) -> Seq<Seq<char>> {
    directives(contents, "cargo:rerun-if-env-changed="@)
}

/// The directives that name a path.
pub open spec fn path_directives(contents: Seq<char>) -> Seq<Seq<char>> {
    directives(contents, "cargo:rerun-if-changed="@)
}

/// No line is a directive of both kinds.
proof fn lemma_one_kind(line: Seq<char>)
    ensures
        !("cargo:rerun-if-env-changed="@.is_prefix_of(line)
            && "cargo:rerun-if-changed="@.is_prefix_of(line)),
{
    let env = "cargo:rerun-if-env-changed="@;
    let path = "cargo:rerun-if-changed="@;
    reveal_strlit("cargo:rerun-if-env-changed=");
    reveal_strlit("cargo:rerun-if-changed=");
    if env.is_prefix_of(line) && path.is_prefix_of(line) {
        assert(env[15] == line[15] && path[15] == line[15]);
        assert(env[15] == 'e' && path[15] == 'c');
    }
}

/// Reads the value of a directive, if `line` is one with this prefix.
fn directive_value(line: &[char], prefix: &str) -> (value: Option<String>)
    ensures
        value.deep_view() == (if prefix@.is_prefix_of(line@) {
            Some(trim(line@.skip(prefix@.len() as int)))
        } else {
            None
        }),
{
    if starts_with(line, prefix) {
        Some(string_of(trim_chars(skip_chars(line, chars_of(prefix).len()))))
    } else {
        None
    }
}

/// Adds the directives in `contents` to those that are known already.
pub fn extend_from_output(watches: &mut BuildScriptWatches, contents: &str)
    ensures
        final(watches)@.env_vars == old(watches)@.env_vars + env_directives(contents@),
        final(watches)@.paths == old(watches)@.paths + path_directives(contents@),
{
    let chars: Vec<char> = chars_of(contents);
    let mut at: &[char] = chars.as_slice();
    loop
        invariant
            old(watches)@.env_vars + env_directives(contents@) == watches@.env_vars
                + env_directives(at@),
            old(watches)@.paths + path_directives(contents@) == watches@.paths + path_directives(
                at@,
            ),
        decreases at@.len(),
    {
        let n: usize = run_len(at, CharClass::Except('\n'));
        let line = take_chars(at, n);
        proof {
            lemma_one_kind(line@);
        }
        let ghost env_before = watches@.env_vars;
        let ghost paths_before = watches@.paths;
        if let Some(var) = directive_value(line, "cargo:rerun-if-env-changed=") {
            let ghost v = var@;
            watches.env_vars.push(var);
            assert(watches@.env_vars =~= env_before + seq![v]);
        } else if let Some(path) = directive_value(line, "cargo:rerun-if-changed=") {
            let ghost v = path@;
            watches.paths.push(path);
            assert(watches@.paths =~= paths_before + seq![v]);
        }
        if n == at.len() {
            assert(old(watches)@.env_vars + env_directives(contents@) =~= watches@.env_vars);
            assert(old(watches)@.paths + path_directives(contents@) =~= watches@.paths);
            return;
        }
        let ghost whole = at@;
        at = skip_chars(at, n + 1);
        proof {
            assert(env_before + env_directives(whole) =~= watches@.env_vars + env_directives(at@));
            assert(paths_before + path_directives(whole) =~= watches@.paths + path_directives(at@));
        }
    }
}

/// The crate that a build script's directory belongs to. Cargo names the
/// directory after the crate and puts a hash of sixteen hexadecimal digits
/// behind it: `pyo3-build-config-0123456789abcdef`. A name with a hyphen but
/// without such a hash is taken whole; one without a hyphen is not taken.
pub open spec fn without_hash(dir_name: Seq<char>) -> Option<Seq<char>> {
    let n = run_back(dir_name, CharClass::Except('-')) as int;
    let hash = dir_name.skip(dir_name.len() - n);
    if n == dir_name.len() {
        None
    } else if n == 16 && run(hash, CharClass::HexDigit) == 16 {
        Some(dir_name.take(dir_name.len() - n - 1))
    } else {
        Some(dir_name)
    }
}

/// Takes the hash off the name of a build script's directory.
pub fn strip_hash_suffix(dir_name: &str) -> (name: Option<String>)
    ensures
        name.deep_view() == without_hash(dir_name@),
{
    let chars: Vec<char> = chars_of(dir_name);
    let dir = chars.as_slice();
    let n: usize = run_back_len(dir, CharClass::Except('-'));
    if n == dir.len() {
        return None;
    }
    let hash = skip_chars(dir, dir.len() - n);
    if n == 16 && run_len(hash, CharClass::HexDigit) == 16 {
        Some(string_of(take_chars(dir, dir.len() - n - 1)))
    } else {
        Some(dir_name.to_owned())
    }
}

/// The name of the crate that a build script's directory belongs to, if the
/// directory's name tells one.
pub open spec fn crate_of_dir(dir_name: Seq<char>) -> Option<Seq<char>> {
    match without_hash(dir_name) {
        Some(name) => if name.len() > 0 {
            Some(name)
        } else {
            None
        },
        None => None,
    }
}

/// Finds the name of the crate that a build script's directory belongs to.
pub fn crate_name_of_dir(dir_name: &str) -> (name: Option<String>)
    ensures
        name.deep_view() == crate_of_dir(dir_name@),
{
    let name: String = strip_hash_suffix(dir_name)?;
    if name.as_str().is_empty() {
        None
    } else {
        Some(name)
    }
}

impl Clone for BuildScriptWatches {
    fn clone(&self) -> (copy: Self)
        ensures
            copy@ == self@,
    {
        let copy = BuildScriptWatches {
            env_vars: copy_list(&self.env_vars),
            paths: copy_list(&self.paths),
        };
        assert(copy@ =~~= self@);
        copy
    }
}

/// What the build scripts of several crates asked cargo to watch, by the
/// crate's name. The names are kept sorted.
#[derive(Debug)]
pub struct WatchMap {
    names: Vec<String>,
    watches: Vec<BuildScriptWatches>,
}

/// The map that leads from every name to what stands at the same place.
spec fn map_of(
    names: Seq<Seq<char>>,
    watches: Seq<BuildScriptWatchesView>,
) -> Map<Seq<char>, BuildScriptWatchesView> {
    Map::new(|name: Seq<char>| names.contains(name), |name: Seq<char>| watches[names.index_of(name)])
}

proof fn lemma_map_at(names: Seq<Seq<char>>, watches: Seq<BuildScriptWatchesView>, i: int)
    requires
        is_sorted(names),
        0 <= i < names.len(),
    ensures
        map_of(names, watches).dom().contains(names[i]),
        map_of(names, watches)[names[i]] == watches[i],
{
    assert(names.contains(names[i]));
    let k = names.index_of(names[i]);
    assert(0 <= k < names.len() && names[k] == names[i]);
    lemma_before_irreflexive(names[i]);
    if k < i {
        assert(before(names[k], names[i]));
    }
    if i < k {
        assert(before(names[i], names[k]));
    }
}

proof fn lemma_map_insert(
    names: Seq<Seq<char>>,
    watches: Seq<BuildScriptWatchesView>,
    i: int,
    name: Seq<char>,
    w: BuildScriptWatchesView,
)
    requires
        is_sorted(names),
        is_sorted(names.insert(i, name)),
        names.len() == watches.len(),
        0 <= i <= names.len(),
        forall|t: Seq<char>| #[trigger]
            names.insert(i, name).contains(t) <==> names.contains(t) || t == name,
        !names.contains(name),
    ensures
        map_of(names.insert(i, name), watches.insert(i, w)) == map_of(names, watches).insert(
            name,
            w,
        ),
{
    let more = names.insert(i, name);
    let more_watches = watches.insert(i, w);
    let after = map_of(more, more_watches);
    let expected = map_of(names, watches).insert(name, w);
    assert forall|t: Seq<char>| #[trigger] after.dom().contains(t) implies after[t]
        == expected[t] by {
        let k = more.index_of(t);
        assert(0 <= k < more.len() && more[k] == t);
        lemma_map_at(more, more_watches, k);
        if k < i {
            lemma_map_at(names, watches, k);
        } else if k > i {
            lemma_map_at(names, watches, k - 1);
        }
    }
    assert(after =~= expected);
}

proof fn lemma_map_update(
    names: Seq<Seq<char>>,
    watches: Seq<BuildScriptWatchesView>,
    i: int,
    w: BuildScriptWatchesView,
)
    requires
        is_sorted(names),
        names.len() == watches.len(),
        0 <= i < names.len(),
    ensures
        map_of(names, watches.update(i, w)) == map_of(names, watches).insert(names[i], w),
{
    let after = map_of(names, watches.update(i, w));
    let expected = map_of(names, watches).insert(names[i], w);
    assert forall|t: Seq<char>| #[trigger] after.dom().contains(t) implies after[t]
        == expected[t] by {
        let k = names.index_of(t);
        assert(0 <= k < names.len() && names[k] == t);
        lemma_map_at(names, watches.update(i, w), k);
        lemma_map_at(names, watches, k);
        lemma_map_at(names, watches.update(i, w), i);
    }
    assert(names.contains(names[i]));
    assert(after =~= expected);
}

impl View for WatchMap {
    type V = Map<Seq<char>, BuildScriptWatchesView>;

    closed spec fn view(&self) -> Map<Seq<char>, BuildScriptWatchesView> {
        map_of(self.names.deep_view(), self.watches.deep_view())
    }
}

impl Default for WatchMap {
    fn default() -> (map: Self)
        ensures
            map@ == Map::<Seq<char>, BuildScriptWatchesView>::empty(),
    {
        WatchMap::new()
    }
}

impl WatchMap {
    #[verifier::type_invariant]
    spec fn is_ordered(&self) -> bool {
        &&& self.names@.len() == self.watches@.len()
        &&& is_sorted(self.names.deep_view())
    }

    /// Makes a map without any crate.
    #[must_use]
    pub fn new() -> (map: Self)
        ensures
            map@ == Map::<Seq<char>, BuildScriptWatchesView>::empty(),
    {
        let map = WatchMap { names: Vec::new(), watches: Vec::new() };
        assert(map@ =~= Map::empty());
        map
    }

    /// Whether there is no crate in the map.
    #[must_use]
    pub fn is_empty(&self) -> (empty: bool)
        ensures
            empty == (self@ == Map::<Seq<char>, BuildScriptWatchesView>::empty()),
    {
        proof {
            let names = self.names.deep_view();
            if names.len() > 0 {
                assert(names.contains(names[0]));
                assert(self@.dom().contains(names[0]));
            } else {
                assert(self@ =~= Map::empty());
            }
        }
        self.names.len() == 0
    }

    /// What the build script of the crate `name` watches.
    pub fn get(&self, name: &str) -> (watches: Option<&BuildScriptWatches>)
        ensures
            match watches {
                Some(w) => self@.dom().contains(name@) && w@ == self@[name@],
                None => !self@.dom().contains(name@),
            },
    {
        proof {
            use_type_invariant(self);
        }
        let (i, known) = position(&self.names, name);
        if known {
            proof {
                lemma_map_at(self.names.deep_view(), self.watches.deep_view(), i as int);
            }
            Some(&self.watches[i])
        } else {
            None
        }
    }

    /// Sets what the build script of the crate `name` watches.
    pub fn insert(&mut self, name: String, watches: BuildScriptWatches)
        ensures
            final(self)@ == old(self)@.insert(name@, watches@),
    {
        proof {
            use_type_invariant(&*self);
        }
        let mut taken = WatchMap::new();
        std::mem::swap(&mut taken, self);
        let WatchMap { names: mut all_names, watches: mut all_watches } = taken;
        let ghost names_before = all_names.deep_view();
        let ghost watches_before = all_watches.deep_view();
        let (i, known) = position(&all_names, name.as_str());
        let ghost n = name@;
        let ghost w = watches@;
        if known {
            all_watches.set(i, watches);
            proof {
                assert(all_watches.deep_view() =~= watches_before.update(i as int, w));
                lemma_map_update(names_before, watches_before, i as int, w);
            }
        } else {
            all_names.insert(i, name);
            all_watches.insert(i, watches);
            proof {
                lemma_insert_sorted(names_before, i as int, n);
                assert(all_names.deep_view() =~= names_before.insert(i as int, n));
                assert(all_watches.deep_view() =~= watches_before.insert(i as int, w));
                lemma_map_insert(names_before, watches_before, i as int, n, w);
            }
        }
        *self = WatchMap { names: all_names, watches: all_watches };
    }
}

/// Whether `list` holds the crates whose build script watches the environment
/// variable `var_name`, sorted.
pub open spec fn is_watching(
    list: Seq<Seq<char>>,
    map: Map<Seq<char>, BuildScriptWatchesView>,
    var_name: Seq<char>,
) -> bool {
    &&& is_sorted(list)
    &&& forall|name: Seq<char>| #[trigger]
        list.contains(name) <==> map.dom().contains(name) && map[name].env_vars.contains(var_name)
}

impl BuildScriptWatches {
    /// Whether the build script watches the environment variable `var_name`.
    fn watches_env(&self, var_name: &str) -> (yes: bool)
        ensures
            yes == self@.env_vars.contains(var_name@),
    {
        let mut i: usize = 0;
        while i < self.env_vars.len()
            invariant
                i <= self.env_vars@.len(),
                forall|j: int| 0 <= j < i ==> #[trigger] self@.env_vars[j] != var_name@,
            decreases self.env_vars@.len() - i,
        {
            assert(self@.env_vars[i as int] == self.env_vars@[i as int]@);
            if same_text(self.env_vars[i].as_str(), var_name) {
                return true;
            }
            i = i + 1;
        }
        false
    }
}

/// Finds the crates whose build script watches `var_name`, in the order of
/// their names.
pub fn crates_watching_env(directives: &WatchMap, var_name: &str) -> (crates: Vec<String>)
    ensures
        is_watching(crates.deep_view(), directives@, var_name@),
{
    proof {
        use_type_invariant(directives);
    }
    let ghost names = directives.names.deep_view();
    let ghost watches = directives.watches.deep_view();
    let mut crates: Vec<String> = Vec::new();
    let mut i: usize = 0;
    while i < directives.names.len()
        invariant
            names == directives.names.deep_view(),
            watches == directives.watches.deep_view(),
            names.len() == watches.len(),
            is_sorted(names),
            i <= names.len(),
            is_sorted(crates.deep_view()),
            forall|c: Seq<char>| #[trigger]
                crates.deep_view().contains(c) <==> exists|k: int|
                    0 <= k < i && #[trigger] names[k] == c && watches[k].env_vars.contains(
                        var_name@,
                    ),
        decreases names.len() - i,
    {
        let ghost old_crates = crates.deep_view();
        assert(watches[i as int] == directives.watches@[i as int]@);
        assert(names[i as int] == directives.names@[i as int]@);
        if directives.watches[i].watches_env(var_name) {
            crates.push(directives.names[i].clone());
            proof {
                let now = crates.deep_view();
                assert(now =~= old_crates.push(names[i as int]));
                assert forall|q: int| 0 <= q < old_crates.len() implies before(
                    #[trigger] now[q],
                    names[i as int],
                ) by {
                    assert(old_crates.contains(old_crates[q]));
                    let k = choose|k: int|
                        0 <= k < i && #[trigger] names[k] == old_crates[q]
                            && watches[k].env_vars.contains(var_name@);
                    assert(before(names[k], names[i as int]));
                }
                assert forall|c: Seq<char>| #[trigger]
                    now.contains(c) <==> (exists|k: int|
                        0 <= k < i + 1 && #[trigger] names[k] == c && watches[k].env_vars.contains(
                            var_name@,
                        )) by {
                    if now.contains(c) {
                        let q = choose|q: int| 0 <= q < now.len() && now[q] == c;
                        if q < old_crates.len() {
                            assert(old_crates[q] == c);
                            assert(old_crates.contains(c));
                        } else {
                            assert(names[i as int] == c);
                        }
                    }
                    if old_crates.contains(c) {
                        let q = choose|q: int| 0 <= q < old_crates.len() && old_crates[q] == c;
                        assert(now[q] == c);
                    }
                    assert(now[old_crates.len() as int] == names[i as int]);
                }
            }
        }
        i = i + 1;
    }
    proof {
        assert forall|c: Seq<char>| #[trigger]
            crates.deep_view().contains(c) <==> directives@.dom().contains(c)
                && directives@[c].env_vars.contains(var_name@) by {
            if crates.deep_view().contains(c) {
                let k = choose|k: int|
                    0 <= k < names.len() && #[trigger] names[k] == c
                        && watches[k].env_vars.contains(var_name@);
                lemma_map_at(names, watches, k);
            }
            if directives@.dom().contains(c) {
                let k = names.index_of(c);
                assert(names[k] == c);
                lemma_map_at(names, watches, k);
            }
        }
    }
    crates
}

/// What one run of a build script left: the name of its directory and what it
/// printed.
#[derive(Debug, Clone)]
pub struct BuildOutput {
    pub dir_name: String,
    pub contents: String,
}

/// The model of a [`BuildOutput`].
#[verifier::ext_equal]
pub struct BuildOutputView {
    pub dir_name: Seq<char>,
    pub contents: Seq<char>,
}

impl View for BuildOutput {
    type V = BuildOutputView;

    open spec fn view(&self) -> BuildOutputView {
        BuildOutputView { dir_name: self.dir_name@, contents: self.contents@ }
    }
}

impl DeepView for BuildOutput {
    type V = BuildOutputView;

    open spec fn deep_view(&self) -> BuildOutputView {
        self@
    }
}

impl BuildOutputView {
    /// The crate that the build script belongs to, if its directory tells.
    pub open spec fn crate_name(self) -> Option<Seq<char>> {
        crate_of_dir(self.dir_name)
    }
}

/// Everything that the build scripts of the crate `name` printed to be watched,
/// in order.
pub open spec fn gathered(
    outputs: Seq<BuildOutputView>,
    name: Seq<char>,
) -> BuildScriptWatchesView
    decreases outputs.len(),
{
    if outputs.len() == 0 {
        BuildScriptWatchesView { env_vars: Seq::empty(), paths: Seq::empty() }
    } else {
        let earlier = gathered(outputs.drop_last(), name);
        if outputs.last().crate_name() == Some(name) {
            BuildScriptWatchesView {
                env_vars: earlier.env_vars + env_directives(outputs.last().contents),
                paths: earlier.paths + path_directives(outputs.last().contents),
            }
        } else {
            earlier
        }
    }
}

/// Whether one of `outputs` is that of a build script of the crate `name`.
pub open spec fn has_output(outputs: Seq<BuildOutputView>, name: Seq<char>) -> bool {
    exists|i: int| 0 <= i < outputs.len() && (#[trigger] outputs[i]).crate_name() == Some(name)
}

/// Whether `map` holds exactly the crates that have an output, each with what
/// its outputs ask to watch, sorted and without repetitions.
pub open spec fn is_scan_of(
    map: Map<Seq<char>, BuildScriptWatchesView>,
    outputs: Seq<BuildOutputView>,
) -> bool {
    &&& forall|name: Seq<char>| #[trigger] map.dom().contains(name) <==> has_output(outputs, name)
    &&& forall|name: Seq<char>| #[trigger]
        map.dom().contains(name) ==> {
            &&& is_sorted_set_of(map[name].env_vars, gathered(outputs, name).env_vars)
            &&& is_sorted_set_of(map[name].paths, gathered(outputs, name).paths)
        }
}

proof fn lemma_nothing_gathered(outputs: Seq<BuildOutputView>, name: Seq<char>)
    requires
        !has_output(outputs, name),
    ensures
        gathered(outputs, name) == (BuildScriptWatchesView {
            env_vars: Seq::empty(),
            paths: Seq::empty(),
        }),
    decreases outputs.len(),
{
    if outputs.len() > 0 {
        assert(outputs[outputs.len() - 1].crate_name() != Some(name));
        assert forall|i: int| 0 <= i < outputs.drop_last().len() implies (
        #[trigger] outputs.drop_last()[i]).crate_name() != Some(name) by {
            assert(outputs[i].crate_name() != Some(name));
        }
        lemma_nothing_gathered(outputs.drop_last(), name);
    }
}

/// Whether the crates in `names` are those that have an output, and `watches`
/// holds for each of them what was gathered.
spec fn is_gathering(
    names: Seq<Seq<char>>,
    watches: Seq<BuildScriptWatchesView>,
    outputs: Seq<BuildOutputView>,
) -> bool {
    &&& is_sorted(names)
    &&& names.len() == watches.len()
    &&& forall|name: Seq<char>| #[trigger] names.contains(name) <==> has_output(outputs, name)
    &&& forall|i: int|
        0 <= i < names.len() ==> #[trigger] watches[i] == gathered(outputs, names[i])
}

proof fn lemma_has_output_grows(
    outputs: Seq<BuildOutputView>,
    output: BuildOutputView,
    name: Seq<char>,
)
    ensures
        has_output(outputs.push(output), name) <==> has_output(outputs, name)
            || output.crate_name() == Some(name),
{
    let more = outputs.push(output);
    if has_output(outputs, name) {
        let i = choose|i: int|
            0 <= i < outputs.len() && (#[trigger] outputs[i]).crate_name() == Some(name);
        assert(more[i].crate_name() == Some(name));
    }
    if output.crate_name() == Some(name) {
        assert(more[outputs.len() as int].crate_name() == Some(name));
    }
    if has_output(more, name) {
        let i = choose|i: int|
            0 <= i < more.len() && (#[trigger] more[i]).crate_name() == Some(name);
        if i < outputs.len() {
            assert(outputs[i].crate_name() == Some(name));
        }
    }
}

/// Finds the place of the crate `name` in the sorted list, and makes one where
/// there is none.
fn place_of(
    names: &mut Vec<String>,
    watches: &mut Vec<BuildScriptWatches>,
    name: String,
) -> (place: usize)
    requires
        is_sorted(old(names).deep_view()),
        old(names)@.len() == old(watches)@.len(),
    ensures
        is_sorted(final(names).deep_view()),
        final(names)@.len() == final(watches)@.len(),
        place < final(names)@.len(),
        final(names).deep_view()[place as int] == name@,
        forall|t: Seq<char>| #[trigger]
            final(names).deep_view().contains(t) <==> old(names).deep_view().contains(t) || t
                == name@,
        if old(names).deep_view().contains(name@) {
            &&& final(names).deep_view() == old(names).deep_view()
            &&& final(watches).deep_view() == old(watches).deep_view()
        } else {
            &&& place <= old(names)@.len()
            &&& final(names).deep_view() == old(names).deep_view().insert(place as int, name@)
            &&& final(watches).deep_view() == old(watches).deep_view().insert(
                place as int,
                BuildScriptWatchesView { env_vars: Seq::empty(), paths: Seq::empty() },
            )
        },
{
    let ghost old_names = names.deep_view();
    let ghost old_watches = watches.deep_view();
    let ghost n = name@;
    let (i, known) = position(names, name.as_str());
    if !known {
        names.insert(i, name);
        watches.insert(i, BuildScriptWatches::default());
        proof {
            lemma_insert_sorted(old_names, i as int, n);
            assert(names.deep_view() =~= old_names.insert(i as int, n));
            assert(watches.deep_view() =~= old_watches.insert(
                i as int,
                BuildScriptWatchesView { env_vars: Seq::empty(), paths: Seq::empty() },
            ));
        }
    }
    i
}

/// Reads what the build scripts left, one output after the other, and groups
/// the directives by crate. An output whose directory names no crate is passed
/// over.
pub fn scan(outputs: &[BuildOutput]) -> (map: WatchMap)
    ensures
        is_scan_of(map@, outputs.deep_view()),
{
    let ghost all = outputs.deep_view();
    let mut names: Vec<String> = Vec::new();
    let mut watches: Vec<BuildScriptWatches> = Vec::new();
    let mut i: usize = 0;
    assert(is_gathering(names.deep_view(), watches.deep_view(), all.take(0)));
    while i < outputs.len()
        invariant
            all == outputs.deep_view(),
            i <= outputs@.len(),
            is_gathering(names.deep_view(), watches.deep_view(), all.take(i as int)),
        decreases outputs@.len() - i,
    {
        let ghost seen = all.take(i as int);
        let ghost output = all[i as int];
        let ghost more = all.take(i + 1);
        let ghost old_names = names.deep_view();
        let ghost old_watches = watches.deep_view();
        assert(output == outputs@[i as int]@);
        assert(more =~= seen.push(output));
        assert(more.drop_last() =~= seen);
        if let Some(crate_name) = crate_name_of_dir(outputs[i].dir_name.as_str()) {
            let ghost c = crate_name@;
            let k: usize = place_of(&mut names, &mut watches, crate_name);
            let ghost placed = watches.deep_view();
            extend_from_output(&mut watches[k], outputs[i].contents.as_str());
            proof {
                let now = watches.deep_view();
                assert(now =~= placed.update(k as int, now[k as int]));
                assert(old_names.len() == old_watches.len());
                assert forall|name: Seq<char>| #[trigger]
                    names.deep_view().contains(name) <==> has_output(more, name) by {
                    lemma_has_output_grows(seen, output, name);
                }
                assert forall|j: int| 0 <= j < now.len() implies #[trigger] now[j] == gathered(
                    more,
                    names.deep_view()[j],
                ) by {
                    let placed_names = names.deep_view();
                    let name = placed_names[j];
                    lemma_before_irreflexive(c);
                    if j < k {
                        assert(before(placed_names[j], placed_names[k as int]));
                    } else if j > k {
                        assert(before(placed_names[k as int], placed_names[j]));
                    }
                    if !old_names.contains(c) {
                        lemma_nothing_gathered(seen, c);
                        if j < k {
                            assert(placed[j] == old_watches[j] && name == old_names[j]);
                        } else if j > k {
                            assert(placed[j] == old_watches[j - 1] && name == old_names[j - 1]);
                        }
                    } else {
                        assert(placed[j] == old_watches[j] && name == old_names[j]);
                    }
                    assert(placed[j] == gathered(seen, name));
                    assert(output.crate_name() == Some(c));
                    if j == k {
                        assert(now[j].env_vars == placed[j].env_vars + env_directives(
                            output.contents,
                        ));
                        assert(now[j] =~= gathered(more, name));
                    } else {
                        assert(name != c);
                        assert(now[j] == placed[j]);
                    }
                }
            }
        } else {
            proof {
                assert forall|name: Seq<char>| #[trigger]
                    names.deep_view().contains(name) <==> has_output(more, name) by {
                    lemma_has_output_grows(seen, output, name);
                }
            }
        }
        i = i + 1;
    }
    assert(all.take(i as int) =~= all);
    let mut k: usize = 0;
    let ghost lists = watches.deep_view();
    while k < watches.len()
        invariant
            k <= watches@.len(),
            watches@.len() == lists.len(),
            forall|j: int|
                k <= j < lists.len() ==> watches.deep_view()[j] == #[trigger] lists[j],
            forall|j: int|
                0 <= j < k ==> {
                    &&& is_sorted_set_of(
                        watches.deep_view()[j].env_vars,
                        (#[trigger] lists[j]).env_vars,
                    )
                    &&& is_sorted_set_of(watches.deep_view()[j].paths, lists[j].paths)
                },
        decreases watches@.len() - k,
    {
        let ghost before_sorting = watches.deep_view();
        assert(before_sorting[k as int] == watches@[k as int]@);
        let sorted = BuildScriptWatches {
            env_vars: sorted_set(&watches[k].env_vars),
            paths: sorted_set(&watches[k].paths),
        };
        let ghost s = sorted@;
        watches.set(k, sorted);
        assert(watches.deep_view() =~= before_sorting.update(k as int, s));
        k = k + 1;
    }
    let map = WatchMap { names, watches };
    proof {
        let keys = map.names.deep_view();
        let values = map.watches.deep_view();
        assert forall|name: Seq<char>| #[trigger] map@.dom().contains(name) implies {
            &&& is_sorted_set_of(map@[name].env_vars, gathered(all, name).env_vars)
            &&& is_sorted_set_of(map@[name].paths, gathered(all, name).paths)
        } by {
            let j = keys.index_of(name);
            assert(0 <= j < keys.len() && keys[j] == name);
            lemma_map_at(keys, values, j);
            assert(lists[j] == gathered(all, name));
        }
        assert forall|name: Seq<char>| #[trigger]
            map@.dom().contains(name) <==> has_output(all, name) by {
            assert(keys.contains(name) <==> has_output(all, name));
        }
    }
    map
}

} // verus!
