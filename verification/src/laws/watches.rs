//! Laws of what build scripts watch.

use vstd::prelude::*;

use crate::build_script_watches::{
    crate_of_dir, directives, env_directives, gathered, has_output, is_scan_of, is_volatile_name,
    is_watching, path_directives, volatile_names, volatile_prefixes, without_hash, BuildOutputView,
    BuildScriptWatchesView,
};
use crate::text::{
    lemma_run, lemma_run_back, lemma_run_back_is, lemma_run_is, run, run_back, trim, CharClass,
};
use crate::text_order::{before, is_sorted_set_of, lemma_sorted_lists_agree};

verus! {

/// The hash that cargo puts behind a crate's name is taken off, whatever the
/// crate is called.
pub proof fn law_hash_is_stripped(name: Seq<char>, hash: Seq<char>)
    requires
        hash.len() == 16,
        forall|i: int| 0 <= i < hash.len() ==> CharClass::HexDigit.has(#[trigger] hash[i]),
    ensures
        without_hash(name + seq!['-'] + hash) == Some(name),
{
    let dir_name = name + seq!['-'] + hash;
    assert forall|i: int| dir_name.len() - 16 <= i < dir_name.len() implies CharClass::Except(
        '-',
    ).has(#[trigger] dir_name[i]) by {
        assert(dir_name[i] == hash[i - name.len() - 1]);
    }
    lemma_run_back_is(dir_name, CharClass::Except('-'), 16);
    assert(dir_name.skip(dir_name.len() - 16) =~= hash);
    lemma_run_is(hash, CharClass::HexDigit, 16);
    assert(dir_name.take(dir_name.len() - 17) =~= name);
}

/// A directory name that is taken gives a crate whose name it starts with.
pub proof fn law_crate_name_starts_directory_name(dir_name: Seq<char>)
    ensures
        without_hash(dir_name) matches Some(name) ==> name.is_prefix_of(dir_name),
        without_hash(dir_name) is Some <==> dir_name.contains('-'),
{
    let n = run_back(dir_name, CharClass::Except('-')) as int;
    lemma_run_back(dir_name, CharClass::Except('-'));
    if n < dir_name.len() {
        assert(dir_name[dir_name.len() - n - 1] == '-');
        assert(dir_name.take(dir_name.len() - n - 1).is_prefix_of(dir_name));
        assert(dir_name.is_prefix_of(dir_name));
    } else {
        assert forall|i: int| 0 <= i < dir_name.len() implies dir_name[i] != '-' by {
            assert(CharClass::Except('-').has(dir_name[i]));
        }
    }
}

/// A line with a directive gives its value, without the white space round it.
pub proof fn law_directive_is_read(prefix: Seq<char>, value: Seq<char>)
    requires
        !prefix.contains('\n'),
        !value.contains('\n'),
    ensures
        directives(prefix + value, prefix) == seq![trim(value)],
{
    let line = prefix + value;
    assert forall|i: int| 0 <= i < line.len() implies CharClass::Except('\n').has(
        #[trigger] line[i],
    ) by {
        if i < prefix.len() {
            assert(prefix.contains(prefix[i]));
        } else {
            assert(line[i] == value[i - prefix.len()]);
            assert(value.contains(value[i - prefix.len()]));
        }
    }
    lemma_run_is(line, CharClass::Except('\n'), line.len() as int);
    assert(line.take(line.len() as int) =~= line);
    assert(prefix.is_prefix_of(line));
    assert(line.skip(prefix.len() as int) =~= value);
}

/// What is printed later is read later, and the lines do not touch each other.
pub proof fn law_directives_line_by_line(a: Seq<char>, b: Seq<char>, prefix: Seq<char>)
    ensures
        directives(a + seq!['\n'] + b, prefix) == directives(a, prefix) + directives(b, prefix),
    decreases a.len(),
{
    let whole = a + seq!['\n'] + b;
    let n = run(a, CharClass::Except('\n')) as int;
    lemma_run(a, CharClass::Except('\n'));
    assert forall|i: int| 0 <= i < n implies CharClass::Except('\n').has(#[trigger] whole[i]) by {
        assert(whole[i] == a[i]);
    }
    if n < a.len() {
        assert(whole[n] == a[n]);
        lemma_run_is(whole, CharClass::Except('\n'), n);
        assert(whole.take(n) =~= a.take(n));
        let tail = a.skip(n + 1);
        law_directives_line_by_line(tail, b, prefix);
        assert(whole.skip(n + 1) =~= tail + seq!['\n'] + b);
        let here = if prefix.is_prefix_of(a.take(n)) {
            seq![trim(a.take(n).skip(prefix.len() as int))]
        } else {
            Seq::empty()
        };
        assert(here + (directives(tail, prefix) + directives(b, prefix)) =~= here + directives(
            tail,
            prefix,
        ) + directives(b, prefix));
    } else {
        assert(whole[n] == '\n');
        lemma_run_is(whole, CharClass::Except('\n'), n);
        assert(whole.take(n) =~= a.take(n));
        assert(whole.skip(n + 1) =~= b);
    }
}

/// What a crate is found to watch is what one of its outputs asks for,
/// whichever of them it is.
pub proof fn law_outputs_are_merged(
    outputs: Seq<BuildOutputView>,
    name: Seq<char>,
    value: Seq<char>,
)
    ensures
        gathered(outputs, name).env_vars.contains(value) <==> exists|i: int|
            0 <= i < outputs.len() && (#[trigger] outputs[i]).crate_name() == Some(name)
                && env_directives(outputs[i].contents).contains(value),
        gathered(outputs, name).paths.contains(value) <==> exists|i: int|
            0 <= i < outputs.len() && (#[trigger] outputs[i]).crate_name() == Some(name)
                && path_directives(outputs[i].contents).contains(value),
    decreases outputs.len(),
{
    if outputs.len() > 0 {
        let fewer = outputs.drop_last();
        let last = outputs.last();
        law_outputs_are_merged(fewer, name, value);
        let earlier = gathered(fewer, name);
        assert(outputs[outputs.len() - 1] == last);
        assert forall|i: int| 0 <= i < fewer.len() implies fewer[i] == outputs[i] by {}
        if last.crate_name() == Some(name) {
            lemma_contains_sum(earlier.env_vars, env_directives(last.contents), value);
            lemma_contains_sum(earlier.paths, path_directives(last.contents), value);
        }
        if earlier.env_vars.contains(value) {
            let i = choose|i: int|
                0 <= i < fewer.len() && (#[trigger] fewer[i]).crate_name() == Some(name)
                    && env_directives(fewer[i].contents).contains(value);
            assert(outputs[i] == fewer[i]);
        }
        if earlier.paths.contains(value) {
            let i = choose|i: int|
                0 <= i < fewer.len() && (#[trigger] fewer[i]).crate_name() == Some(name)
                    && path_directives(fewer[i].contents).contains(value);
            assert(outputs[i] == fewer[i]);
        }
        if exists|i: int|
            0 <= i < outputs.len() && (#[trigger] outputs[i]).crate_name() == Some(name)
                && env_directives(outputs[i].contents).contains(value) {
            let i = choose|i: int|
                0 <= i < outputs.len() && (#[trigger] outputs[i]).crate_name() == Some(name)
                    && env_directives(outputs[i].contents).contains(value);
            if i < fewer.len() {
                assert(fewer[i] == outputs[i]);
            }
        }
        if exists|i: int|
            0 <= i < outputs.len() && (#[trigger] outputs[i]).crate_name() == Some(name)
                && path_directives(outputs[i].contents).contains(value) {
            let i = choose|i: int|
                0 <= i < outputs.len() && (#[trigger] outputs[i]).crate_name() == Some(name)
                    && path_directives(outputs[i].contents).contains(value);
            if i < fewer.len() {
                assert(fewer[i] == outputs[i]);
            }
        }
    }
}

proof fn lemma_contains_sum(a: Seq<Seq<char>>, b: Seq<Seq<char>>, t: Seq<char>)
    ensures
        (a + b).contains(t) <==> a.contains(t) || b.contains(t),
{
    let sum = a + b;
    if a.contains(t) {
        let k = choose|k: int| 0 <= k < a.len() && a[k] == t;
        assert(sum[k] == t);
    }
    if b.contains(t) {
        let k = choose|k: int| 0 <= k < b.len() && b[k] == t;
        assert(sum[a.len() + k] == t);
    }
    if sum.contains(t) {
        let k = choose|k: int| 0 <= k < sum.len() && sum[k] == t;
        if k < a.len() {
            assert(a[k] == t);
        } else {
            assert(b[k - a.len()] == t);
        }
    }
}

/// A scan depends on which outputs there are, but neither on the order in which
/// they are read nor on how often.
pub proof fn law_scan_ignores_order(
    a: Map<Seq<char>, BuildScriptWatchesView>,
    b: Map<Seq<char>, BuildScriptWatchesView>,
    outputs: Seq<BuildOutputView>,
    others: Seq<BuildOutputView>,
)
    requires
        is_scan_of(a, outputs),
        is_scan_of(b, others),
        forall|o: BuildOutputView| #[trigger] outputs.contains(o) <==> others.contains(o),
    ensures
        a == b,
{
    assert forall|name: Seq<char>| #[trigger] a.dom().contains(name) <==> b.dom().contains(
        name,
    ) by {
        lemma_same_outputs(outputs, others, name);
    }
    assert forall|name: Seq<char>| #[trigger] a.dom().contains(name) implies a[name]
        == b[name] by {
        assert(b.dom().contains(name));
        assert forall|t: Seq<char>| #[trigger]
            a[name].env_vars.contains(t) <==> b[name].env_vars.contains(t) by {
            lemma_same_gathered(outputs, others, name, t);
            assert(a[name].env_vars.contains(t) <==> gathered(outputs, name).env_vars.contains(t));
            assert(b[name].env_vars.contains(t) <==> gathered(others, name).env_vars.contains(t));
        }
        assert forall|t: Seq<char>| #[trigger]
            a[name].paths.contains(t) <==> b[name].paths.contains(t) by {
            lemma_same_gathered(outputs, others, name, t);
            assert(a[name].paths.contains(t) <==> gathered(outputs, name).paths.contains(t));
            assert(b[name].paths.contains(t) <==> gathered(others, name).paths.contains(t));
        }
        lemma_sorted_lists_agree(a[name].env_vars, b[name].env_vars);
        lemma_sorted_lists_agree(a[name].paths, b[name].paths);
    }
    assert(a =~= b);
}

proof fn lemma_same_outputs(
    outputs: Seq<BuildOutputView>,
    others: Seq<BuildOutputView>,
    name: Seq<char>,
)
    requires
        forall|o: BuildOutputView| #[trigger] outputs.contains(o) <==> others.contains(o),
    ensures
        has_output(outputs, name) <==> has_output(others, name),
{
    if has_output(outputs, name) {
        let i = choose|i: int|
            0 <= i < outputs.len() && (#[trigger] outputs[i]).crate_name() == Some(name);
        assert(outputs.contains(outputs[i]));
        let k = choose|k: int| 0 <= k < others.len() && others[k] == outputs[i];
        assert(others[k].crate_name() == Some(name));
    }
    if has_output(others, name) {
        let i = choose|i: int|
            0 <= i < others.len() && (#[trigger] others[i]).crate_name() == Some(name);
        assert(others.contains(others[i]));
        assert(outputs.contains(others[i]));
        let k = choose|k: int| 0 <= k < outputs.len() && outputs[k] == others[i];
        assert(outputs[k].crate_name() == Some(name));
    }
}

/// What one list of outputs gathers, another that holds them all gathers too.
proof fn lemma_gathered_by_more(
    outputs: Seq<BuildOutputView>,
    others: Seq<BuildOutputView>,
    name: Seq<char>,
    t: Seq<char>,
)
    requires
        forall|o: BuildOutputView| #[trigger] outputs.contains(o) ==> others.contains(o),
    ensures
        gathered(outputs, name).env_vars.contains(t) ==> gathered(others, name).env_vars.contains(
            t,
        ),
        gathered(outputs, name).paths.contains(t) ==> gathered(others, name).paths.contains(t),
{
    law_outputs_are_merged(outputs, name, t);
    law_outputs_are_merged(others, name, t);
    if gathered(outputs, name).env_vars.contains(t) {
        let i = choose|i: int|
            0 <= i < outputs.len() && (#[trigger] outputs[i]).crate_name() == Some(name)
                && env_directives(outputs[i].contents).contains(t);
        assert(outputs.contains(outputs[i]));
        let k = choose|k: int| 0 <= k < others.len() && others[k] == outputs[i];
        assert(others[k].crate_name() == Some(name));
    }
    if gathered(outputs, name).paths.contains(t) {
        let i = choose|i: int|
            0 <= i < outputs.len() && (#[trigger] outputs[i]).crate_name() == Some(name)
                && path_directives(outputs[i].contents).contains(t);
        assert(outputs.contains(outputs[i]));
        let k = choose|k: int| 0 <= k < others.len() && others[k] == outputs[i];
        assert(others[k].crate_name() == Some(name));
    }
}

proof fn lemma_same_gathered(
    outputs: Seq<BuildOutputView>,
    others: Seq<BuildOutputView>,
    name: Seq<char>,
    t: Seq<char>,
)
    requires
        forall|o: BuildOutputView| #[trigger] outputs.contains(o) <==> others.contains(o),
    ensures
        gathered(outputs, name).env_vars.contains(t) <==> gathered(others, name).env_vars.contains(
            t,
        ),
        gathered(outputs, name).paths.contains(t) <==> gathered(others, name).paths.contains(t),
{
    assert forall|o: BuildOutputView| #[trigger] others.contains(o) implies outputs.contains(
        o,
    ) by {
        assert(outputs.contains(o) <==> others.contains(o));
    }
    lemma_gathered_by_more(outputs, others, name, t);
    lemma_gathered_by_more(others, outputs, name, t);
}

/// A crate is said to watch a variable exactly if one of its outputs holds the
/// directive.
pub proof fn law_watchers_asked_for_it(
    list: Seq<Seq<char>>,
    map: Map<Seq<char>, BuildScriptWatchesView>,
    outputs: Seq<BuildOutputView>,
    var_name: Seq<char>,
    name: Seq<char>,
)
    requires
        is_scan_of(map, outputs),
        is_watching(list, map, var_name),
    ensures
        list.contains(name) <==> exists|i: int|
            0 <= i < outputs.len() && (#[trigger] outputs[i]).crate_name() == Some(name)
                && env_directives(outputs[i].contents).contains(var_name),
{
    law_outputs_are_merged(outputs, name, var_name);
    assert(list.contains(name) <==> map.dom().contains(name) && map[name].env_vars.contains(
        var_name,
    ));
    if map.dom().contains(name) {
        assert(map[name].env_vars.contains(var_name) <==> gathered(
            outputs,
            name,
        ).env_vars.contains(var_name));
    } else {
        assert(!has_output(outputs, name));
    }
}

/// Whatever stands behind a volatile prefix, the variable is volatile.
pub proof fn law_prefixes_are_volatile(prefix: Seq<char>, rest: Seq<char>)
    requires
        volatile_prefixes().contains(prefix),
    ensures
        is_volatile_name(prefix + rest),
{
    let i = choose|i: int| 0 <= i < volatile_prefixes().len() && volatile_prefixes()[i] == prefix;
    assert(volatile_prefixes()[i].is_prefix_of(prefix + rest));
}

/// A variable is volatile exactly if it is one of these names or starts with
/// one of these prefixes.
pub proof fn law_volatile_variables(name: Seq<char>)
    ensures
        is_volatile_name(name) <==> {
            ||| name == "PATH"@
            ||| name == "PWD"@
            ||| name == "OLDPWD"@
            ||| name == "SHLVL"@
            ||| name == "SHELL"@
            ||| name == "TERM"@
            ||| name == "TERM_PROGRAM"@
            ||| name == "TERM_PROGRAM_VERSION"@
            ||| name == "TERM_SESSION_ID"@
            ||| name == "HOME"@
            ||| name == "USER"@
            ||| name == "LOGNAME"@
            ||| name == "TMPDIR"@
            ||| name == "VIRTUAL_ENV"@
            ||| name == "VIRTUAL_ENV_PROMPT"@
            ||| name == "_"@
            ||| name == "OLDOLDPWD"@
            ||| "XDG_"@.is_prefix_of(name)
            ||| "CONDA_"@.is_prefix_of(name)
            ||| "DIRENV_"@.is_prefix_of(name)
            ||| "SSH_"@.is_prefix_of(name)
            ||| "ITERM_"@.is_prefix_of(name)
            ||| "VSCODE_"@.is_prefix_of(name)
            ||| "TERMINFO_"@.is_prefix_of(name)
        },
{
    let names = volatile_names();
    let prefixes = volatile_prefixes();
    assert(names[0] == "PATH"@ && names[1] == "PWD"@ && names[2] == "OLDPWD"@);
    assert(names[3] == "SHLVL"@ && names[4] == "SHELL"@ && names[5] == "TERM"@);
    assert(names[6] == "TERM_PROGRAM"@ && names[7] == "TERM_PROGRAM_VERSION"@);
    assert(names[8] == "TERM_SESSION_ID"@ && names[9] == "HOME"@ && names[10] == "USER"@);
    assert(names[11] == "LOGNAME"@ && names[12] == "TMPDIR"@ && names[13] == "VIRTUAL_ENV"@);
    assert(names[14] == "VIRTUAL_ENV_PROMPT"@ && names[15] == "_"@ && names[16] == "OLDOLDPWD"@);
    assert(prefixes[0] == "XDG_"@ && prefixes[1] == "CONDA_"@ && prefixes[2] == "DIRENV_"@);
    assert(prefixes[3] == "SSH_"@ && prefixes[4] == "ITERM_"@ && prefixes[5] == "VSCODE_"@);
    assert(prefixes[6] == "TERMINFO_"@);
}

/// The directives of an output are those of its lines, one after the other,
/// however long it is.
pub proof fn law_outputs_line_by_line(a: Seq<char>, b: Seq<char>)
    ensures
        env_directives(a + seq!['\n'] + b) == env_directives(a) + env_directives(b),
        path_directives(a + seq!['\n'] + b) == path_directives(a) + path_directives(b),
{
    law_directives_line_by_line(a, b, "cargo:rerun-if-env-changed="@);
    law_directives_line_by_line(a, b, "cargo:rerun-if-changed="@);
}

proof fn lemma_other_line(line: Seq<char>, prefix: Seq<char>)
    requires
        !line.contains('\n'),
        !prefix.is_prefix_of(line),
    ensures
        directives(line, prefix) == Seq::<Seq<char>>::empty(),
{
    assert forall|i: int| 0 <= i < line.len() implies CharClass::Except('\n').has(
        #[trigger] line[i],
    ) by {
        assert(line.contains(line[i]));
    }
    lemma_run_is(line, CharClass::Except('\n'), line.len() as int);
    assert(line.take(line.len() as int) =~= line);
}

/// A line that asks for a variable to be watched gives that variable, without
/// the white space round it, and no path.
pub proof fn law_variable_directive(value: Seq<char>)
    requires
        !value.contains('\n'),
    ensures
        env_directives("cargo:rerun-if-env-changed="@ + value) == seq![trim(value)],
        path_directives("cargo:rerun-if-env-changed="@ + value) == Seq::<Seq<char>>::empty(),
{
    let prefix = "cargo:rerun-if-env-changed="@;
    let other = "cargo:rerun-if-changed="@;
    let line = prefix + value;
    reveal_strlit("cargo:rerun-if-env-changed=");
    reveal_strlit("cargo:rerun-if-changed=");
    assert(!prefix.contains('\n'));
    law_directive_is_read(prefix, value);
    if other.is_prefix_of(line) {
        assert(other[15] == line[15]);
    }
    assert(!line.contains('\n')) by {
        assert forall|i: int| 0 <= i < line.len() implies line[i] != '\n' by {
            if i >= prefix.len() {
                assert(line[i] == value[i - prefix.len()]);
                assert(value.contains(value[i - prefix.len()]));
            }
        }
    }
    lemma_other_line(line, other);
}

/// A line that asks for a path to be watched gives that path, without the white
/// space round it, and no variable.
pub proof fn law_path_directive(value: Seq<char>)
    requires
        !value.contains('\n'),
    ensures
        path_directives("cargo:rerun-if-changed="@ + value) == seq![trim(value)],
        env_directives("cargo:rerun-if-changed="@ + value) == Seq::<Seq<char>>::empty(),
{
    let prefix = "cargo:rerun-if-changed="@;
    let other = "cargo:rerun-if-env-changed="@;
    let line = prefix + value;
    reveal_strlit("cargo:rerun-if-env-changed=");
    reveal_strlit("cargo:rerun-if-changed=");
    assert(!prefix.contains('\n'));
    law_directive_is_read(prefix, value);
    if other.is_prefix_of(line) {
        assert(other[15] == line[15]);
    }
    assert(!line.contains('\n')) by {
        assert forall|i: int| 0 <= i < line.len() implies line[i] != '\n' by {
            if i >= prefix.len() {
                assert(line[i] == value[i - prefix.len()]);
                assert(value.contains(value[i - prefix.len()]));
            }
        }
    }
    lemma_other_line(line, other);
}

/// Any other line gives neither.
pub proof fn law_other_lines(line: Seq<char>)
    requires
        !line.contains('\n'),
        !"cargo:rerun-if-env-changed="@.is_prefix_of(line),
        !"cargo:rerun-if-changed="@.is_prefix_of(line),
    ensures
        env_directives(line) == Seq::<Seq<char>>::empty(),
        path_directives(line) == Seq::<Seq<char>>::empty(),
{
    lemma_other_line(line, "cargo:rerun-if-env-changed="@);
    lemma_other_line(line, "cargo:rerun-if-changed="@);
}

/// Nothing but a hyphen and sixteen hexadecimal digits is taken off the end of
/// a directory's name: any other name with a hyphen is taken whole.
pub proof fn law_nothing_but_a_hash_is_stripped(dir_name: Seq<char>)
    ensures
        without_hash(dir_name) matches Some(name) ==> name == dir_name || {
            &&& dir_name.len() == name.len() + 17
            &&& name == dir_name.take(name.len() as int)
            &&& dir_name[name.len() as int] == '-'
            &&& forall|i: int|
                name.len() < i < dir_name.len() ==> {
                    ||| '0' <= #[trigger] dir_name[i] <= '9'
                    ||| 'a' <= dir_name[i] <= 'f'
                    ||| 'A' <= dir_name[i] <= 'F'
                }
        },
        !dir_name.contains('-') ==> without_hash(dir_name) is None,
        dir_name.contains('-') ==> without_hash(dir_name) is Some,
{
    law_crate_name_starts_directory_name(dir_name);
    let n = run_back(dir_name, CharClass::Except('-')) as int;
    lemma_run_back(dir_name, CharClass::Except('-'));
    let hash = dir_name.skip(dir_name.len() - n);
    if n < dir_name.len() && n == 16 && run(hash, CharClass::HexDigit) == 16 {
        lemma_run(hash, CharClass::HexDigit);
        assert forall|i: int| dir_name.len() - 17 < i < dir_name.len() implies {
            ||| '0' <= #[trigger] dir_name[i] <= '9'
            ||| 'a' <= dir_name[i] <= 'f'
            ||| 'A' <= dir_name[i] <= 'F'
        } by {
            assert(CharClass::HexDigit.has(hash[i - (dir_name.len() - 16)]));
        }
    }
}

/// Sixteen hexadecimal digits behind a hyphen are taken off, and the crate is
/// known where something is left.
pub proof fn law_crates_of_directories(name: Seq<char>, hash: Seq<char>)
    requires
        hash.len() == 16,
        forall|i: int|
            0 <= i < hash.len() ==> {
                ||| '0' <= #[trigger] hash[i] <= '9'
                ||| 'a' <= hash[i] <= 'f'
                ||| 'A' <= hash[i] <= 'F'
            },
    ensures
        without_hash(name + seq!['-'] + hash) == Some(name),
        name.len() > 0 ==> crate_of_dir(name + seq!['-'] + hash) == Some(name),
        name.len() == 0 ==> crate_of_dir(name + seq!['-'] + hash) is None,
{
    assert forall|i: int| 0 <= i < hash.len() implies CharClass::HexDigit.has(
        #[trigger] hash[i],
    ) by {}
    law_hash_is_stripped(name, hash);
}

/// A directory tells a crate exactly if something is left of its name.
pub proof fn law_crate_is_what_is_left(dir_name: Seq<char>, output: BuildOutputView)
    requires
        output.dir_name == dir_name,
    ensures
        output.crate_name() == crate_of_dir(dir_name),
        crate_of_dir(dir_name) is Some <==> without_hash(dir_name) is Some && without_hash(
            dir_name,
        ).unwrap().len() > 0,
        crate_of_dir(dir_name) is Some ==> crate_of_dir(dir_name) == without_hash(dir_name),
{
}

/// A scan knows a crate exactly if an output's directory tells it, directives
/// or not, and lists for it, sorted, exactly the variables and the paths that
/// its outputs ask for.
pub proof fn law_scan_finds_everything(
    map: Map<Seq<char>, BuildScriptWatchesView>,
    outputs: Seq<BuildOutputView>,
    name: Seq<char>,
    value: Seq<char>,
)
    requires
        is_scan_of(map, outputs),
    ensures
        map.dom().contains(name) <==> exists|i: int|
            0 <= i < outputs.len() && crate_of_dir((#[trigger] outputs[i]).dir_name) == Some(name),
        map.dom().contains(name) ==> {
            &&& map[name].env_vars.contains(value) <==> exists|i: int|
                0 <= i < outputs.len() && crate_of_dir((#[trigger] outputs[i]).dir_name) == Some(
                    name,
                ) && env_directives(outputs[i].contents).contains(value)
            &&& map[name].paths.contains(value) <==> exists|i: int|
                0 <= i < outputs.len() && crate_of_dir((#[trigger] outputs[i]).dir_name) == Some(
                    name,
                ) && path_directives(outputs[i].contents).contains(value)
            &&& forall|i: int, j: int|
                0 <= i < j < map[name].env_vars.len() ==> before(
                    #[trigger] map[name].env_vars[i],
                    #[trigger] map[name].env_vars[j],
                )
            &&& forall|i: int, j: int|
                0 <= i < j < map[name].paths.len() ==> before(
                    #[trigger] map[name].paths[i],
                    #[trigger] map[name].paths[j],
                )
        },
{
    law_outputs_are_merged(outputs, name, value);
    assert(map.dom().contains(name) <==> has_output(outputs, name));
    if has_output(outputs, name) {
        let i = choose|i: int|
            0 <= i < outputs.len() && (#[trigger] outputs[i]).crate_name() == Some(name);
        assert(crate_of_dir(outputs[i].dir_name) == Some(name));
    }
    if exists|i: int|
        0 <= i < outputs.len() && crate_of_dir((#[trigger] outputs[i]).dir_name) == Some(name) {
        let i = choose|i: int|
            0 <= i < outputs.len() && crate_of_dir((#[trigger] outputs[i]).dir_name) == Some(name);
        assert(outputs[i].crate_name() == Some(name));
    }
    if map.dom().contains(name) {
        let env = gathered(outputs, name).env_vars;
        let paths = gathered(outputs, name).paths;
        assert(is_sorted_set_of(map[name].env_vars, env));
        assert(map[name].env_vars.contains(value) <==> env.contains(value));
        assert(map[name].paths.contains(value) <==> paths.contains(value));
        assert forall|i: int| 0 <= i < outputs.len() implies (#[trigger] outputs[i]).crate_name()
            == crate_of_dir(outputs[i].dir_name) by {}
    }
}

/// A directive on a line of its own, anywhere in an output, makes the output's
/// crate a watcher of the variable that it names.
pub proof fn law_directive_makes_a_watcher(
    list: Seq<Seq<char>>,
    map: Map<Seq<char>, BuildScriptWatchesView>,
    outputs: Seq<BuildOutputView>,
    i: int,
    above: Seq<char>,
    value: Seq<char>,
    below: Seq<char>,
    name: Seq<char>,
)
    requires
        is_scan_of(map, outputs),
        is_watching(list, map, trim(value)),
        0 <= i < outputs.len(),
        crate_of_dir(outputs[i].dir_name) == Some(name),
        !value.contains('\n'),
        outputs[i].contents == above + seq!['\n'] + ("cargo:rerun-if-env-changed="@ + value
            + seq!['\n'] + below),
    ensures
        list.contains(name),
        map.dom().contains(name),
        map[name].env_vars.contains(trim(value)),
{
    let line = "cargo:rerun-if-env-changed="@ + value;
    law_outputs_line_by_line(above, line + seq!['\n'] + below);
    law_outputs_line_by_line(line, below);
    law_variable_directive(value);
    let here = env_directives(line);
    assert(here[0] == trim(value));
    assert(here.contains(trim(value)));
    lemma_contains_sum(here, env_directives(below), trim(value));
    lemma_contains_sum(env_directives(above), here + env_directives(below), trim(value));
    assert(outputs[i].crate_name() == Some(name));
    law_watchers_asked_for_it(list, map, outputs, trim(value), name);
    law_scan_finds_everything(map, outputs, name, trim(value));
}

/// A crate is listed as a watcher exactly if the map holds it and the variable
/// is among those that it watches.
pub proof fn law_watchers_are_in_the_map(
    list: Seq<Seq<char>>,
    map: Map<Seq<char>, BuildScriptWatchesView>,
    var_name: Seq<char>,
    name: Seq<char>,
)
    requires
        is_watching(list, map, var_name),
    ensures
        list.contains(name) <==> map.dom().contains(name) && map[name].env_vars.contains(var_name),
        forall|i: int, j: int|
            0 <= i < j < list.len() ==> before(#[trigger] list[i], #[trigger] list[j]),
{
}

} // verus!
