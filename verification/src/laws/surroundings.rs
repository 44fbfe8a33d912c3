//! Laws of what stands round a reason in a line of cargo's log.
//!
//! A parser stops at the end of what it reads, so a reason that was recognised
//! does not change with the text behind it. Nor does it with the text before
//! the marker.

use vstd::prelude::*;

use crate::fingerprint_parser::{
    after_changed_file, after_file_time, after_list, after_number, after_option, after_quoted,
    changed_file_stale, close_brace, comma, dirty_reason, env_var_changed, features_changed,
    field, file_time_nanos, file_time_seconds, fs_status_outdated_changed_file,
    fs_status_outdated_stale_dep, known_reason, lemma_item_is_shorter, line_reason, list_items,
    list_texts, number_text, open_brace, option_text, profile_configuration_changed, quoted_text,
    rustflags_changed, spaces, tag, target_configuration_changed, unit_dependency_info_changed,
    unit_dependency_info_changed_unit_index, Cursor, ReasonMatch,
};
use crate::laws::reading::{is_first_mark, lemma_first_mark};
use crate::rebuild_reason::RebuildReasonView;
use crate::text::{
    find, lemma_find, lemma_find_is, lemma_run, lemma_run_is, run, trim_start, CharClass,
};

verus! {

/// What is left to read where `t` stands behind the text.
pub open spec fn with_more(at: Cursor, t: Seq<char>) -> Cursor {
    match at {
        Some(s) => Some(s + t),
        None => None,
    }
}

/// What a parser of reasons gives where `t` stands behind the text.
pub open spec fn match_with_more(found: ReasonMatch, t: Seq<char>) -> ReasonMatch {
    match found {
        Some((rest, reason)) => Some((rest + t, reason)),
        None => None,
    }
}

/// Whether the text fitted so far, and something is left.
spec fn has_text(at: Cursor) -> bool {
    at is Some && at.unwrap().len() > 0
}

proof fn lemma_tag_with_more(at: Cursor, w: Seq<char>, t: Seq<char>)
    requires
        tag(at, w) is Some,
    ensures
        tag(with_more(at, t), w) == with_more(tag(at, w), t),
        w.len() > 0 ==> has_text(at),
{
    let s = at.unwrap();
    assert((s + t).subrange(0, w.len() as int) =~= s.subrange(0, w.len() as int));
    assert((s + t).skip(w.len() as int) =~= s.skip(w.len() as int) + t);
}

/// A text that starts with `a` does not start with `b`, whatever stands behind
/// it, if these two differ somewhere.
proof fn lemma_one_tag(s: Seq<char>, a: Seq<char>, b: Seq<char>, i: int, t: Seq<char>)
    requires
        tag(Some(s), a) is Some,
        0 <= i < a.len(),
        i < b.len(),
        a[i] != b[i],
    ensures
        tag(Some(s + t), b) is None,
{
    assert(s[i] == a[i]);
    if b.is_prefix_of(s + t) {
        assert((s + t)[i] == b[i]);
    }
}

proof fn lemma_spaces_with_more(at: Cursor, t: Seq<char>)
    requires
        has_text(spaces(at)),
    ensures
        spaces(with_more(at, t)) == with_more(spaces(at), t),
        has_text(at),
{
    let s = at.unwrap();
    let n = run(s, CharClass::Blank) as int;
    lemma_run(s, CharClass::Blank);
    assert forall|i: int| 0 <= i < n implies CharClass::Blank.has(#[trigger] (s + t)[i]) by {
        assert((s + t)[i] == s[i]);
    }
    assert((s + t)[n] == s[n]);
    lemma_run_is(s + t, CharClass::Blank, n);
    assert((s + t).skip(n) =~= s.skip(n) + t);
}

proof fn lemma_quoted_with_more(at: Cursor, t: Seq<char>)
    requires
        after_quoted(at) is Some,
    ensures
        after_quoted(with_more(at, t)) == with_more(after_quoted(at), t),
        quoted_text(with_more(at, t)) == quoted_text(at),
        has_text(at),
{
    let s = at.unwrap();
    let body = s.skip(1);
    let n = run(body, CharClass::Except('"')) as int;
    lemma_run(body, CharClass::Except('"'));
    assert((s + t).skip(1) =~= body + t);
    assert forall|i: int| 0 <= i < n implies CharClass::Except('"').has(
        #[trigger] (body + t)[i],
    ) by {
        assert((body + t)[i] == body[i]);
    }
    assert((body + t)[n] == body[n]);
    lemma_run_is(body + t, CharClass::Except('"'), n);
    assert((body + t).take(n) =~= body.take(n));
    assert((s + t).skip(n + 2) =~= s.skip(n + 2) + t);
}

proof fn lemma_number_with_more(at: Cursor, t: Seq<char>)
    requires
        has_text(after_number(at)),
    ensures
        after_number(with_more(at, t)) == with_more(after_number(at), t),
        number_text(with_more(at, t)) == number_text(at),
        has_text(at),
{
    let s = at.unwrap();
    let n = run(s, CharClass::Digit) as int;
    lemma_run(s, CharClass::Digit);
    assert forall|i: int| 0 <= i < n implies CharClass::Digit.has(#[trigger] (s + t)[i]) by {
        assert((s + t)[i] == s[i]);
    }
    assert((s + t)[n] == s[n]);
    lemma_run_is(s + t, CharClass::Digit, n);
    assert((s + t).take(n) =~= s.take(n));
    assert((s + t).skip(n) =~= s.skip(n) + t);
}

proof fn lemma_option_with_more(at: Cursor, t: Seq<char>)
    requires
        after_option(at) is Some,
    ensures
        after_option(with_more(at, t)) == with_more(after_option(at), t),
        option_text(with_more(at, t)) == option_text(at),
        has_text(at),
{
    reveal_strlit("None");
    reveal_strlit("Some(");
    if tag(at, "None"@) is Some {
        lemma_tag_with_more(at, "None"@, t);
    } else {
        let quoted = tag(at, "Some("@);
        lemma_tag_with_more(after_quoted(quoted), ")"@, t);
        lemma_quoted_with_more(quoted, t);
        lemma_tag_with_more(at, "Some("@, t);
        lemma_one_tag(at.unwrap(), "Some("@, "None"@, 0, t);
    }
}

proof fn lemma_comma_with_more(at: Cursor, t: Seq<char>)
    requires
        has_text(comma(at)),
    ensures
        comma(with_more(at, t)) == with_more(comma(at), t),
        has_text(at),
{
    reveal_strlit(",");
    lemma_spaces_with_more(tag(spaces(at), ","@), t);
    lemma_tag_with_more(spaces(at), ","@, t);
    lemma_spaces_with_more(at, t);
}

proof fn lemma_open_with_more(at: Cursor, t: Seq<char>)
    requires
        has_text(open_brace(at)),
    ensures
        open_brace(with_more(at, t)) == with_more(open_brace(at), t),
        has_text(at),
{
    reveal_strlit("{");
    lemma_spaces_with_more(tag(spaces(at), "{"@), t);
    lemma_tag_with_more(spaces(at), "{"@, t);
    lemma_spaces_with_more(at, t);
}

proof fn lemma_close_with_more(at: Cursor, t: Seq<char>)
    requires
        close_brace(at) is Some,
    ensures
        close_brace(with_more(at, t)) == with_more(close_brace(at), t),
        has_text(at),
{
    reveal_strlit("}");
    lemma_tag_with_more(spaces(at), "}"@, t);
    lemma_spaces_with_more(at, t);
}

proof fn lemma_field_with_more(at: Cursor, name: Seq<char>, t: Seq<char>)
    requires
        has_text(field(at, name)),
        name.len() > 0,
    ensures
        field(with_more(at, t), name) == with_more(field(at, name), t),
        has_text(at),
{
    reveal_strlit(":");
    let named = tag(at, name);
    lemma_spaces_with_more(tag(spaces(named), ":"@), t);
    lemma_tag_with_more(spaces(named), ":"@, t);
    lemma_spaces_with_more(named, t);
    lemma_tag_with_more(at, name, t);
}

proof fn lemma_items_with_more(s: Seq<char>, t: Seq<char>)
    requires
        list_items(s) is Some,
    ensures
        list_items(s + t) == Some((list_items(s).unwrap().0 + t, list_items(s).unwrap().1)),
    decreases s.len(),
{
    reveal_strlit("]");
    reveal_strlit(",");
    let at = spaces(Some(s));
    let next = spaces(after_quoted(at));
    if tag(at, "]"@) is Some {
        lemma_tag_with_more(at, "]"@, t);
        lemma_spaces_with_more(Some(s), t);
    } else {
        if tag(next, "]"@) is Some {
            lemma_tag_with_more(next, "]"@, t);
        } else {
            lemma_tag_with_more(next, ","@, t);
            lemma_one_tag(next.unwrap(), ","@, "]"@, 0, t);
            lemma_item_is_shorter(s);
            lemma_items_with_more(tag(next, ","@).unwrap(), t);
        }
        lemma_spaces_with_more(after_quoted(at), t);
        lemma_quoted_with_more(at, t);
        lemma_spaces_with_more(Some(s), t);
        assert((at.unwrap() + t)[0] == '"');
        if "]"@.is_prefix_of(at.unwrap() + t) {
            assert("]"@[0] == (at.unwrap() + t)[0]);
        }
    }
}

proof fn lemma_list_with_more(at: Cursor, t: Seq<char>)
    requires
        after_list(at) is Some,
    ensures
        after_list(with_more(at, t)) == with_more(after_list(at), t),
        list_texts(with_more(at, t)) == list_texts(at),
        has_text(at),
{
    reveal_strlit("[");
    lemma_tag_with_more(at, "["@, t);
    lemma_items_with_more(tag(at, "["@).unwrap(), t);
}

proof fn lemma_file_time_with_more(at: Cursor, t: Seq<char>)
    requires
        after_file_time(at) is Some,
    ensures
        after_file_time(with_more(at, t)) == with_more(after_file_time(at), t),
        has_text(at),
{
    reveal_strlit("FileTime");
    reveal_strlit("seconds");
    reveal_strlit("nanos");
    let seconds = file_time_seconds(at);
    let nanos = file_time_nanos(at);
    lemma_close_with_more(after_number(nanos), t);
    lemma_number_with_more(nanos, t);
    lemma_field_with_more(comma(after_number(seconds)), "nanos"@, t);
    lemma_comma_with_more(after_number(seconds), t);
    lemma_number_with_more(seconds, t);
    lemma_field_with_more(open_brace(tag(at, "FileTime"@)), "seconds"@, t);
    lemma_open_with_more(tag(at, "FileTime"@), t);
    lemma_tag_with_more(at, "FileTime"@, t);
}

proof fn lemma_changed_file_with_more(at: Cursor, t: Seq<char>)
    requires
        after_changed_file(at) is Some,
    ensures
        after_changed_file(with_more(at, t)) == with_more(after_changed_file(at), t),
        quoted_text(changed_file_stale(with_more(at, t))) == quoted_text(changed_file_stale(at)),
{
    reveal_strlit("ChangedFile");
    reveal_strlit("reference");
    reveal_strlit("reference_mtime");
    reveal_strlit("stale");
    reveal_strlit("stale_mtime");
    let file = tag(at, "ChangedFile"@);
    let reference = field(open_brace(file), "reference"@);
    let reference_mtime = field(comma(after_quoted(reference)), "reference_mtime"@);
    let stale = changed_file_stale(at);
    let stale_mtime = field(comma(after_quoted(stale)), "stale_mtime"@);
    lemma_close_with_more(after_file_time(stale_mtime), t);
    lemma_file_time_with_more(stale_mtime, t);
    lemma_field_with_more(comma(after_quoted(stale)), "stale_mtime"@, t);
    lemma_comma_with_more(after_quoted(stale), t);
    lemma_quoted_with_more(stale, t);
    lemma_field_with_more(comma(after_file_time(reference_mtime)), "stale"@, t);
    lemma_comma_with_more(after_file_time(reference_mtime), t);
    lemma_file_time_with_more(reference_mtime, t);
    lemma_field_with_more(comma(after_quoted(reference)), "reference_mtime"@, t);
    lemma_comma_with_more(after_quoted(reference), t);
    lemma_quoted_with_more(reference, t);
    lemma_field_with_more(open_brace(file), "reference"@, t);
    lemma_open_with_more(file, t);
    lemma_tag_with_more(at, "ChangedFile"@, t);
}

proof fn lemma_env_var_with_more(s: Seq<char>, t: Seq<char>)
    requires
        env_var_changed(s) is Some,
    ensures
        env_var_changed(s + t) == match_with_more(env_var_changed(s), t),
{
    reveal_strlit("name");
    reveal_strlit("old_value");
    reveal_strlit("new_value");
    let head = tag(Some(s), "EnvVarChanged"@);
    let name = field(open_brace(head), "name"@);
    let old_value = field(comma(after_quoted(name)), "old_value"@);
    let new_value = field(comma(after_option(old_value)), "new_value"@);
    lemma_close_with_more(after_option(new_value), t);
    lemma_option_with_more(new_value, t);
    lemma_field_with_more(comma(after_option(old_value)), "new_value"@, t);
    lemma_comma_with_more(after_option(old_value), t);
    lemma_option_with_more(old_value, t);
    lemma_field_with_more(comma(after_quoted(name)), "old_value"@, t);
    lemma_comma_with_more(after_quoted(name), t);
    lemma_quoted_with_more(name, t);
    lemma_field_with_more(open_brace(head), "name"@, t);
    lemma_open_with_more(head, t);
    lemma_tag_with_more(Some(s), "EnvVarChanged"@, t);
}

proof fn lemma_dependency_with_more(s: Seq<char>, t: Seq<char>)
    requires
        unit_dependency_info_changed(s) is Some,
    ensures
        unit_dependency_info_changed(s + t) == match_with_more(
            unit_dependency_info_changed(s),
            t,
        ),
{
    reveal_strlit("old_name");
    reveal_strlit("old_fingerprint");
    reveal_strlit("new_name");
    reveal_strlit("new_fingerprint");
    let head = tag(Some(s), "UnitDependencyInfoChanged"@);
    let old_name = field(open_brace(head), "old_name"@);
    let old_fingerprint = field(comma(after_quoted(old_name)), "old_fingerprint"@);
    let new_name = field(comma(after_number(old_fingerprint)), "new_name"@);
    let new_fingerprint = field(comma(after_quoted(new_name)), "new_fingerprint"@);
    lemma_close_with_more(after_number(new_fingerprint), t);
    lemma_number_with_more(new_fingerprint, t);
    lemma_field_with_more(comma(after_quoted(new_name)), "new_fingerprint"@, t);
    lemma_comma_with_more(after_quoted(new_name), t);
    lemma_quoted_with_more(new_name, t);
    lemma_field_with_more(comma(after_number(old_fingerprint)), "new_name"@, t);
    lemma_comma_with_more(after_number(old_fingerprint), t);
    lemma_number_with_more(old_fingerprint, t);
    lemma_field_with_more(comma(after_quoted(old_name)), "old_fingerprint"@, t);
    lemma_comma_with_more(after_quoted(old_name), t);
    lemma_quoted_with_more(old_name, t);
    lemma_field_with_more(open_brace(head), "old_name"@, t);
    lemma_open_with_more(head, t);
    lemma_tag_with_more(Some(s), "UnitDependencyInfoChanged"@, t);
}

/// A dependency that is given by its index is not read as one that is named.
pub proof fn lemma_unit_index_with_more(s: Seq<char>, t: Seq<char>)
    requires
        unit_dependency_info_changed_unit_index(s) is Some,
    ensures
        unit_dependency_info_changed_unit_index(s + t) == match_with_more(
            unit_dependency_info_changed_unit_index(s),
            t,
        ),
        unit_dependency_info_changed(s + t) is None,
{
    reveal_strlit("old_name");
    reveal_strlit("unit");
    reveal_strlit("UnitIndex");
    reveal_strlit("(");
    reveal_strlit(")");
    let head = tag(Some(s), "UnitDependencyInfoChanged"@);
    let fields = open_brace(head);
    let unit = field(fields, "unit"@);
    let index = tag(tag(unit, "UnitIndex"@), "("@);
    lemma_close_with_more(tag(after_number(index), ")"@), t);
    lemma_tag_with_more(after_number(index), ")"@, t);
    lemma_number_with_more(index, t);
    lemma_tag_with_more(tag(unit, "UnitIndex"@), "("@, t);
    lemma_tag_with_more(unit, "UnitIndex"@, t);
    lemma_field_with_more(fields, "unit"@, t);
    lemma_open_with_more(head, t);
    lemma_tag_with_more(Some(s), "UnitDependencyInfoChanged"@, t);
    lemma_one_tag(fields.unwrap(), "unit"@, "old_name"@, 0, t);
}

proof fn lemma_rustflags_with_more(s: Seq<char>, t: Seq<char>)
    requires
        rustflags_changed(s) is Some,
    ensures
        rustflags_changed(s + t) == match_with_more(rustflags_changed(s), t),
{
    reveal_strlit("old");
    reveal_strlit("new");
    let head = tag(Some(s), "RustflagsChanged"@);
    let before = field(open_brace(head), "old"@);
    let after = field(comma(after_list(before)), "new"@);
    lemma_close_with_more(after_list(after), t);
    lemma_list_with_more(after, t);
    lemma_field_with_more(comma(after_list(before)), "new"@, t);
    lemma_comma_with_more(after_list(before), t);
    lemma_list_with_more(before, t);
    lemma_field_with_more(open_brace(head), "old"@, t);
    lemma_open_with_more(head, t);
    lemma_tag_with_more(Some(s), "RustflagsChanged"@, t);
}

proof fn lemma_features_with_more(s: Seq<char>, t: Seq<char>)
    requires
        features_changed(s) is Some,
    ensures
        features_changed(s + t) == match_with_more(features_changed(s), t),
{
    reveal_strlit("old");
    reveal_strlit("new");
    let head = tag(Some(s), "FeaturesChanged"@);
    let before = field(open_brace(head), "old"@);
    let after = field(comma(after_quoted(before)), "new"@);
    lemma_close_with_more(after_quoted(after), t);
    lemma_quoted_with_more(after, t);
    lemma_field_with_more(comma(after_quoted(before)), "new"@, t);
    lemma_comma_with_more(after_quoted(before), t);
    lemma_quoted_with_more(before, t);
    lemma_field_with_more(open_brace(head), "old"@, t);
    lemma_open_with_more(head, t);
    lemma_tag_with_more(Some(s), "FeaturesChanged"@, t);
}

proof fn lemma_stale_dep_with_more(s: Seq<char>, t: Seq<char>)
    requires
        fs_status_outdated_stale_dep(s) is Some,
    ensures
        fs_status_outdated_stale_dep(s + t) == match_with_more(
            fs_status_outdated_stale_dep(s),
            t,
        ),
{
    reveal_strlit("name");
    let head = tag(Some(s), "FsStatusOutdated"@);
    let dep = tag(tag(head, "("@), "StaleDepFingerprint"@);
    let name = field(open_brace(dep), "name"@);
    lemma_tag_with_more(close_brace(after_quoted(name)), ")"@, t);
    lemma_close_with_more(after_quoted(name), t);
    lemma_quoted_with_more(name, t);
    lemma_field_with_more(open_brace(dep), "name"@, t);
    lemma_open_with_more(dep, t);
    lemma_tag_with_more(tag(head, "("@), "StaleDepFingerprint"@, t);
    lemma_tag_with_more(head, "("@, t);
    lemma_tag_with_more(Some(s), "FsStatusOutdated"@, t);
}

/// A changed file is not read as a stale dependency.
pub proof fn lemma_file_with_more(s: Seq<char>, t: Seq<char>)
    requires
        fs_status_outdated_changed_file(s) is Some,
    ensures
        fs_status_outdated_changed_file(s + t) == match_with_more(
            fs_status_outdated_changed_file(s),
            t,
        ),
        fs_status_outdated_stale_dep(s + t) is None,
{
    reveal_strlit("StaleItem");
    reveal_strlit("StaleDepFingerprint");
    let head = tag(Some(s), "FsStatusOutdated"@);
    let inner = tag(head, "("@);
    let item = tag(inner, "StaleItem"@);
    let file = tag(item, "("@);
    lemma_tag_with_more(tag(after_changed_file(file), ")"@), ")"@, t);
    lemma_tag_with_more(after_changed_file(file), ")"@, t);
    lemma_changed_file_with_more(file, t);
    lemma_tag_with_more(item, "("@, t);
    lemma_tag_with_more(inner, "StaleItem"@, t);
    lemma_tag_with_more(head, "("@, t);
    lemma_tag_with_more(Some(s), "FsStatusOutdated"@, t);
    lemma_one_tag(inner.unwrap(), "StaleItem"@, "StaleDepFingerprint"@, 5, t);
}

/// A text that starts with the name of one reason starts with that of no other,
/// whatever stands behind it.
pub proof fn lemma_one_name(s: Seq<char>, t: Seq<char>)
    ensures
        tag(Some(s), "UnitDependencyInfoChanged"@) is Some || tag(
            Some(s),
            "TargetConfigurationChanged"@,
        ) is Some || tag(Some(s), "ProfileConfigurationChanged"@) is Some || tag(
            Some(s),
            "RustflagsChanged"@,
        ) is Some || tag(Some(s), "FeaturesChanged"@) is Some || tag(
            Some(s),
            "FsStatusOutdated"@,
        ) is Some ==> tag(Some(s + t), "EnvVarChanged"@) is None,
        tag(Some(s), "TargetConfigurationChanged"@) is Some || tag(
            Some(s),
            "ProfileConfigurationChanged"@,
        ) is Some || tag(Some(s), "RustflagsChanged"@) is Some || tag(
            Some(s),
            "FeaturesChanged"@,
        ) is Some || tag(Some(s), "FsStatusOutdated"@) is Some ==> tag(
            Some(s + t),
            "UnitDependencyInfoChanged"@,
        ) is None,
        tag(Some(s), "ProfileConfigurationChanged"@) is Some || tag(
            Some(s),
            "RustflagsChanged"@,
        ) is Some || tag(Some(s), "FeaturesChanged"@) is Some || tag(
            Some(s),
            "FsStatusOutdated"@,
        ) is Some ==> tag(Some(s + t), "TargetConfigurationChanged"@) is None,
        tag(Some(s), "RustflagsChanged"@) is Some || tag(Some(s), "FeaturesChanged"@) is Some
            || tag(Some(s), "FsStatusOutdated"@) is Some ==> tag(
            Some(s + t),
            "ProfileConfigurationChanged"@,
        ) is None,
        tag(Some(s), "FeaturesChanged"@) is Some || tag(Some(s), "FsStatusOutdated"@) is Some
            ==> tag(Some(s + t), "RustflagsChanged"@) is None,
        tag(Some(s), "FsStatusOutdated"@) is Some ==> tag(Some(s + t), "FeaturesChanged"@) is None,
{
    let env = "EnvVarChanged"@;
    let unit = "UnitDependencyInfoChanged"@;
    let target = "TargetConfigurationChanged"@;
    let profile = "ProfileConfigurationChanged"@;
    let flags = "RustflagsChanged"@;
    let features = "FeaturesChanged"@;
    let status = "FsStatusOutdated"@;
    reveal_strlit("EnvVarChanged");
    reveal_strlit("UnitDependencyInfoChanged");
    reveal_strlit("TargetConfigurationChanged");
    reveal_strlit("ProfileConfigurationChanged");
    reveal_strlit("RustflagsChanged");
    reveal_strlit("FeaturesChanged");
    reveal_strlit("FsStatusOutdated");
    if tag(Some(s), unit) is Some {
        lemma_one_tag(s, unit, env, 0, t);
    }
    if tag(Some(s), target) is Some {
        lemma_one_tag(s, target, env, 0, t);
        lemma_one_tag(s, target, unit, 0, t);
    }
    if tag(Some(s), profile) is Some {
        lemma_one_tag(s, profile, env, 0, t);
        lemma_one_tag(s, profile, unit, 0, t);
        lemma_one_tag(s, profile, target, 0, t);
    }
    if tag(Some(s), flags) is Some {
        lemma_one_tag(s, flags, env, 0, t);
        lemma_one_tag(s, flags, unit, 0, t);
        lemma_one_tag(s, flags, target, 0, t);
        lemma_one_tag(s, flags, profile, 0, t);
    }
    if tag(Some(s), features) is Some {
        lemma_one_tag(s, features, env, 0, t);
        lemma_one_tag(s, features, unit, 0, t);
        lemma_one_tag(s, features, target, 0, t);
        lemma_one_tag(s, features, profile, 0, t);
        lemma_one_tag(s, features, flags, 0, t);
    }
    if tag(Some(s), status) is Some {
        lemma_one_tag(s, status, env, 0, t);
        lemma_one_tag(s, status, unit, 0, t);
        lemma_one_tag(s, status, target, 0, t);
        lemma_one_tag(s, status, profile, 0, t);
        lemma_one_tag(s, status, flags, 0, t);
        lemma_one_tag(s, status, features, 1, t);
    }
}

/// A reason that is recognised stays the same whatever is put behind the text,
/// and what was left of the text is left with that behind it.
pub proof fn law_what_follows_a_reason_does_not_matter(s: Seq<char>, t: Seq<char>)
    ensures
        known_reason(s) matches Some((rest, reason)) ==> known_reason(s + t) == Some(
            (rest + t, reason),
        ),
{
    lemma_one_name(s, t);
    if env_var_changed(s) is Some {
        lemma_env_var_with_more(s, t);
    } else if unit_dependency_info_changed(s) is Some {
        lemma_dependency_with_more(s, t);
    } else if unit_dependency_info_changed_unit_index(s) is Some {
        lemma_unit_index_with_more(s, t);
    } else if target_configuration_changed(s) is Some {
        lemma_tag_with_more(Some(s), "TargetConfigurationChanged"@, t);
    } else if profile_configuration_changed(s) is Some {
        lemma_tag_with_more(Some(s), "ProfileConfigurationChanged"@, t);
    } else if rustflags_changed(s) is Some {
        lemma_rustflags_with_more(s, t);
    } else if features_changed(s) is Some {
        lemma_features_with_more(s, t);
    } else if fs_status_outdated_stale_dep(s) is Some {
        lemma_stale_dep_with_more(s, t);
    } else if fs_status_outdated_changed_file(s) is Some {
        lemma_file_with_more(s, t);
    }
}

/// The marker cannot overlap with itself: where it occurs in a text with the
/// marker behind it, but for the end, it occurs in the text.
proof fn lemma_no_overlap(head: Seq<char>, j: int)
    requires
        0 <= j < head.len(),
        "dirty:"@.is_prefix_of((head + "dirty:"@).skip(j)),
    ensures
        j + 6 <= head.len(),
        "dirty:"@.is_prefix_of(head.skip(j)),
{
    reveal_strlit("dirty:");
    let needle = "dirty:"@;
    let rest = (head + needle).skip(j);
    let n = head.len() - j;
    assert(forall|k: int| 0 <= k < 6 ==> rest[k] == needle[k]);
    if n < 6 {
        assert(rest[n] == needle[0]);
        assert(rest[n] == needle[n]);
    }
    assert(head.skip(j).subrange(0, 6) =~= rest.subrange(0, 6));
}

/// Behind a text without the marker, the marker first occurs at the end of that
/// text.
proof fn lemma_marker_is_first(head: Seq<char>)
    requires
        find(head, "dirty:"@) is None,
    ensures
        is_first_mark(head, "dirty:"@),
{
    let needle = "dirty:"@;
    let whole = head + needle;
    let n = head.len() as int;
    assert forall|j: int| 0 <= j < n implies !needle.is_prefix_of(#[trigger] whole.skip(j)) by {
        if needle.is_prefix_of(whole.skip(j)) {
            lemma_no_overlap(head, j);
            lemma_find(head, needle);
        }
    }
    assert(whole.skip(n) =~= needle);
    assert(needle.is_prefix_of(needle));
    lemma_find_is(whole, needle, n);
}

/// The reason that `s` gives behind the marker.
#[verifier::opaque]
spec fn marked_reason(s: Seq<char>) -> RebuildReasonView {
    dirty_reason(trim_start(s)).1
}

/// The reason of a line is what stands behind its marker, without the white
/// space before it.
proof fn lemma_reason_behind_marker(head: Seq<char>, s: Seq<char>)
    requires
        find(head, "dirty:"@) is None,
    ensures
        line_reason(head + "dirty:"@ + s) == Some(marked_reason(s)),
{
    reveal(marked_reason);
    lemma_marker_is_first(head);
    lemma_first_mark(head, "dirty:"@, s);
}

/// What stands before the first marker of a line does not matter.
pub proof fn law_what_precedes_the_marker_does_not_matter(head: Seq<char>, s: Seq<char>)
    requires
        find(head, "dirty:"@) is None,
    ensures
        line_reason(head + "dirty:"@ + s) == line_reason("dirty:"@ + s),
{
    let empty = Seq::<char>::empty();
    lemma_find(empty, "dirty:"@);
    assert(find(empty, "dirty:"@) is None) by {
        reveal_strlit("dirty:");
    }
    lemma_reason_behind_marker(head, s);
    lemma_reason_behind_marker(empty, s);
    assert(empty + "dirty:"@ + s =~= "dirty:"@ + s);
}

proof fn lemma_known_is_not_empty(s: Seq<char>)
    requires
        known_reason(s) is Some,
    ensures
        s.len() > 0,
{
    reveal_strlit("EnvVarChanged");
    reveal_strlit("UnitDependencyInfoChanged");
    reveal_strlit("TargetConfigurationChanged");
    reveal_strlit("ProfileConfigurationChanged");
    reveal_strlit("RustflagsChanged");
    reveal_strlit("FeaturesChanged");
    reveal_strlit("FsStatusOutdated");
}

proof fn lemma_dirty_reason_with_more(s: Seq<char>, t: Seq<char>)
    requires
        !(dirty_reason(s).1 is Unknown),
    ensures
        s.len() > 0,
        dirty_reason(s + t).1 == dirty_reason(s).1,
{
    assert(known_reason(s) is Some);
    lemma_known_is_not_empty(s);
    law_what_follows_a_reason_does_not_matter(s, t);
}

proof fn lemma_trim_with_more(s: Seq<char>, t: Seq<char>)
    requires
        trim_start(s).len() > 0,
    ensures
        trim_start(s + t) == trim_start(s) + t,
{
    let n = run(s, CharClass::Whitespace) as int;
    lemma_run(s, CharClass::Whitespace);
    assert forall|i: int| 0 <= i < n implies CharClass::Whitespace.has(#[trigger] (s + t)[i]) by {
        assert((s + t)[i] == s[i]);
    }
    assert((s + t)[n] == s[n]);
    lemma_run_is(s + t, CharClass::Whitespace, n);
    assert(trim_start(s + t) =~= trim_start(s) + t);
}

proof fn lemma_marked_reason_with_more(s: Seq<char>, t: Seq<char>)
    requires
        !(marked_reason(s) is Unknown),
    ensures
        marked_reason(s + t) == marked_reason(s),
{
    reveal(marked_reason);
    lemma_dirty_reason_with_more(trim_start(s), t);
    lemma_trim_with_more(s, t);
}

/// Where a line gives a reason of a known form, neither what stands before its
/// marker nor what stands behind the reason matters.
pub proof fn law_recognised_reason_stands_alone(head: Seq<char>, s: Seq<char>, t: Seq<char>)
    requires
        find(head, "dirty:"@) is None,
        line_reason("dirty:"@ + s) matches Some(reason) && !(reason is Unknown),
    ensures
        line_reason(head + "dirty:"@ + s + t) == line_reason("dirty:"@ + s),
{
    assert(line_reason("dirty:"@ + s) == Some(marked_reason(s))) by {
        law_what_precedes_the_marker_does_not_matter(head, s);
        lemma_reason_behind_marker(head, s);
    }
    lemma_marked_reason_with_more(s, t);
    assert(head + "dirty:"@ + s + t =~= head + "dirty:"@ + (s + t));
    lemma_reason_behind_marker(head, s + t);
}

} // verus!
