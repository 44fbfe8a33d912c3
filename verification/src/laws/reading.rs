//! Laws of reading cargo's log.
//!
//! Cargo prints a reason in the form that Rust gives to values for debugging.
//! The `shown_*` functions are that form, and the laws say that what was shown
//! is read back, as long as no text holds a double quote.

use vstd::prelude::*;

use crate::fingerprint_parser::{
    after_changed_file, after_file_time, after_list, after_number, after_option, after_quoted,
    bare_dependency_change, changed_file_stale, close_brace, comma, dirty_reason, field,
    file_time_nanos, file_time_seconds, known_reason, line_package, line_package_id, line_reason,
    line_target, list_items, list_texts, number_text, open_brace, option_text, quoted_text, spaces,
    tag,
};
use crate::rebuild_graph::PackageTargetView;
use crate::rebuild_reason::RebuildReasonView;
use crate::text::{
    find, is_white_space, lemma_find, lemma_find_is, lemma_run_back_is, lemma_run_is, trim,
    trim_start, CharClass,
};

verus! {

/// Whether a text can stand between quotes.
pub open spec fn is_quotable(text: Seq<char>) -> bool {
    !text.contains('"')
}

/// Whether an optional text can stand between quotes.
pub open spec fn is_quotable_option(text: Option<Seq<char>>) -> bool {
    match text {
        Some(t) => is_quotable(t),
        None => true,
    }
}

/// Whether a text is a number.
pub open spec fn is_number(text: Seq<char>) -> bool {
    &&& text.len() > 0
    &&& forall|i: int| 0 <= i < text.len() ==> CharClass::Digit.has(#[trigger] text[i])
}

/// ` { ` before `rest`.
pub open spec fn shown_open(rest: Seq<char>) -> Seq<char> {
    " "@ + ("{"@ + (" "@ + rest))
}

/// ` }` before `rest`.
pub open spec fn shown_close(rest: Seq<char>) -> Seq<char> {
    " "@ + ("}"@ + rest)
}

/// `, ` before `rest`.
pub open spec fn shown_comma(rest: Seq<char>) -> Seq<char> {
    ","@ + (" "@ + rest)
}

/// `name: ` before `rest`.
pub open spec fn shown_field(name: Seq<char>, rest: Seq<char>) -> Seq<char> {
    name + (":"@ + (" "@ + rest))
}

/// `"text"` before `rest`.
pub open spec fn shown_quoted(text: Seq<char>, rest: Seq<char>) -> Seq<char> {
    "\""@ + (text + ("\""@ + rest))
}

/// `None` or `Some("text")` before `rest`.
pub open spec fn shown_option(text: Option<Seq<char>>, rest: Seq<char>) -> Seq<char> {
    match text {
        Some(t) => "Some("@ + shown_quoted(t, ")"@ + rest),
        None => "None"@ + rest,
    }
}

/// Whether a text starts with something else than a blank.
pub open spec fn starts_plain(s: Seq<char>) -> bool {
    s.len() > 0 && !CharClass::Blank.has(s[0])
}

/// A literal text is read, and what stands behind it is left.
pub proof fn lemma_tag(t: Seq<char>, rest: Seq<char>)
    ensures
        tag(Some(t + rest), t) == Some(rest),
{
    assert(t.is_prefix_of(t + rest));
    assert((t + rest).skip(t.len() as int) =~= rest);
}

proof fn lemma_wrong_tag(t: Seq<char>, s: Seq<char>, i: int)
    requires
        0 <= i < t.len(),
        i < s.len(),
        t[i] != s[i],
    ensures
        tag(Some(s), t) is None,
{
    if t.is_prefix_of(s) {
        assert(t[i] == s[i]);
    }
}

proof fn lemma_no_space(s: Seq<char>)
    requires
        starts_plain(s),
    ensures
        spaces(Some(s)) == Some(s),
{
    assert(s.skip(0) =~= s);
}

proof fn lemma_one_space(s: Seq<char>)
    requires
        starts_plain(s),
    ensures
        spaces(Some(" "@ + s)) == Some(s),
{
    reveal_strlit(" ");
    lemma_run_is(" "@ + s, CharClass::Blank, 1);
    assert((" "@ + s).skip(1) =~= s);
}

proof fn lemma_open(rest: Seq<char>)
    requires
        starts_plain(rest),
    ensures
        open_brace(Some(shown_open(rest))) == Some(rest),
{
    reveal_strlit("{");
    lemma_one_space("{"@ + (" "@ + rest));
    lemma_tag("{"@, " "@ + rest);
    lemma_one_space(rest);
}

proof fn lemma_close(rest: Seq<char>)
    ensures
        close_brace(Some(shown_close(rest))) == Some(rest),
{
    reveal_strlit("}");
    lemma_one_space("}"@ + rest);
    lemma_tag("}"@, rest);
}

proof fn lemma_comma(rest: Seq<char>)
    requires
        starts_plain(rest),
    ensures
        comma(Some(shown_comma(rest))) == Some(rest),
{
    reveal_strlit(",");
    lemma_no_space(","@ + (" "@ + rest));
    lemma_tag(","@, " "@ + rest);
    lemma_one_space(rest);
}

proof fn lemma_field(name: Seq<char>, rest: Seq<char>)
    requires
        starts_plain(rest),
    ensures
        field(Some(shown_field(name, rest)), name) == Some(rest),
{
    reveal_strlit(":");
    lemma_tag(name, ":"@ + (" "@ + rest));
    lemma_no_space(":"@ + (" "@ + rest));
    lemma_tag(":"@, " "@ + rest);
    lemma_one_space(rest);
}

/// A quoted text is read.
pub proof fn lemma_quoted(text: Seq<char>, rest: Seq<char>)
    requires
        is_quotable(text),
    ensures
        after_quoted(Some(shown_quoted(text, rest))) == Some(rest),
        quoted_text(Some(shown_quoted(text, rest))) == text,
        starts_plain(shown_quoted(text, rest)),
{
    reveal_strlit("\"");
    let s = shown_quoted(text, rest);
    let body = text + ("\""@ + rest);
    assert(s.skip(1) =~= body);
    assert forall|i: int| 0 <= i < text.len() implies CharClass::Except('"').has(
        #[trigger] body[i],
    ) by {
        assert(text.contains(text[i]));
    }
    assert(body[text.len() as int] == '"');
    lemma_run_is(body, CharClass::Except('"'), text.len() as int);
    assert(body.take(text.len() as int) =~= text);
    assert(s.skip(text.len() as int + 2) =~= rest);
}

/// An optional text is read.
pub proof fn lemma_option(text: Option<Seq<char>>, rest: Seq<char>)
    requires
        is_quotable_option(text),
    ensures
        after_option(Some(shown_option(text, rest))) == Some(rest),
        option_text(Some(shown_option(text, rest))) == text,
        starts_plain(shown_option(text, rest)),
{
    reveal_strlit("None");
    reveal_strlit("Some(");
    let s = shown_option(text, rest);
    match text {
        Some(t) => {
            lemma_wrong_tag("None"@, s, 0);
            lemma_tag("Some("@, shown_quoted(t, ")"@ + rest));
            lemma_quoted(t, ")"@ + rest);
            lemma_tag(")"@, rest);
        },
        None => {
            lemma_tag("None"@, rest);
        },
    }
}

/// A number is read up to its last digit.
pub proof fn lemma_number(digits: Seq<char>, rest: Seq<char>)
    requires
        is_number(digits),
        rest.len() > 0,
        !CharClass::Digit.has(rest[0]),
    ensures
        after_number(Some(digits + rest)) == Some(rest),
        number_text(Some(digits + rest)) == digits,
        starts_plain(digits + rest),
{
    let s = digits + rest;
    assert forall|i: int| 0 <= i < digits.len() implies CharClass::Digit.has(#[trigger] s[i]) by {
        assert(s[i] == digits[i]);
    }
    lemma_run_is(s, CharClass::Digit, digits.len() as int);
    assert(s.take(digits.len() as int) =~= digits);
    assert(s.skip(digits.len() as int) =~= rest);
    assert(CharClass::Digit.has(digits[0]));
}

/// `EnvVarChanged { name: "..", old_value: .., new_value: .. }` before `rest`.
pub open spec fn shown_env_var_changed(
    name: Seq<char>,
    old_value: Option<Seq<char>>,
    new_value: Option<Seq<char>>,
    rest: Seq<char>,
) -> Seq<char> {
    "EnvVarChanged"@ + shown_open(
        shown_field(
            "name"@,
            shown_quoted(
                name,
                shown_comma(
                    shown_field(
                        "old_value"@,
                        shown_option(
                            old_value,
                            shown_comma(
                                shown_field(
                                    "new_value"@,
                                    shown_option(new_value, shown_close(rest)),
                                ),
                            ),
                        ),
                    ),
                ),
            ),
        ),
    )
}

/// A changed environment variable is read as it was shown.
pub proof fn law_env_var_changed_is_read_back(
    name: Seq<char>,
    old_value: Option<Seq<char>>,
    new_value: Option<Seq<char>>,
    rest: Seq<char>,
)
    requires
        is_quotable(name),
        is_quotable_option(old_value),
        is_quotable_option(new_value),
    ensures
        known_reason(shown_env_var_changed(name, old_value, new_value, rest)) == Some(
            (rest, RebuildReasonView::EnvVarChanged { name, old_value, new_value }),
        ),
{
    reveal_strlit("name");
    reveal_strlit("old_value");
    reveal_strlit("new_value");
    let end = shown_close(rest);
    let value = shown_option(new_value, end);
    let field3 = shown_field("new_value"@, value);
    let old_option = shown_option(old_value, shown_comma(field3));
    let field2 = shown_field("old_value"@, old_option);
    let quoted = shown_quoted(name, shown_comma(field2));
    let field1 = shown_field("name"@, quoted);
    lemma_close(rest);
    lemma_option(new_value, end);
    lemma_field("new_value"@, value);
    lemma_comma(field3);
    lemma_option(old_value, shown_comma(field3));
    lemma_field("old_value"@, old_option);
    lemma_comma(field2);
    lemma_quoted(name, shown_comma(field2));
    lemma_field("name"@, quoted);
    lemma_open(field1);
    lemma_tag("EnvVarChanged"@, shown_open(field1));
}

/// `UnitDependencyInfoChanged { old_name: "..", old_fingerprint: ..,
/// new_name: "..", new_fingerprint: .. }` before `rest`.
pub open spec fn shown_unit_dependency_info_changed(
    old_name: Seq<char>,
    old_fingerprint: Seq<char>,
    new_name: Seq<char>,
    new_fingerprint: Seq<char>,
    rest: Seq<char>,
) -> Seq<char> {
    "UnitDependencyInfoChanged"@ + shown_open(
        shown_field(
            "old_name"@,
            shown_quoted(
                old_name,
                shown_comma(
                    shown_field(
                        "old_fingerprint"@,
                        old_fingerprint + shown_comma(
                            shown_field(
                                "new_name"@,
                                shown_quoted(
                                    new_name,
                                    shown_comma(
                                        shown_field(
                                            "new_fingerprint"@,
                                            new_fingerprint + shown_close(rest),
                                        ),
                                    ),
                                ),
                            ),
                        ),
                    ),
                ),
            ),
        ),
    )
}

/// A changed dependency is read as it was shown, with its old name.
pub proof fn law_unit_dependency_info_changed_is_read_back(
    old_name: Seq<char>,
    old_fingerprint: Seq<char>,
    new_name: Seq<char>,
    new_fingerprint: Seq<char>,
    rest: Seq<char>,
)
    requires
        is_quotable(old_name),
        is_number(old_fingerprint),
        is_quotable(new_name),
        is_number(new_fingerprint),
    ensures
        known_reason(
            shown_unit_dependency_info_changed(
                old_name,
                old_fingerprint,
                new_name,
                new_fingerprint,
                rest,
            ),
        ) == Some(
            (
                rest,
                RebuildReasonView::UnitDependencyInfoChanged {
                    name: old_name,
                    old_fingerprint,
                    new_fingerprint,
                    context: None,
                },
            ),
        ),
{
    reveal_strlit("EnvVarChanged");
    reveal_strlit("UnitDependencyInfoChanged");
    reveal_strlit("old_name");
    reveal_strlit("old_fingerprint");
    reveal_strlit("new_name");
    reveal_strlit("new_fingerprint");
    reveal_strlit(" ");
    reveal_strlit(",");
    let end = shown_close(rest);
    let field4 = shown_field("new_fingerprint"@, new_fingerprint + end);
    let quoted2 = shown_quoted(new_name, shown_comma(field4));
    let field3 = shown_field("new_name"@, quoted2);
    let field2 = shown_field("old_fingerprint"@, old_fingerprint + shown_comma(field3));
    let quoted1 = shown_quoted(old_name, shown_comma(field2));
    let field1 = shown_field("old_name"@, quoted1);
    let s = "UnitDependencyInfoChanged"@ + shown_open(field1);
    lemma_close(rest);
    lemma_number(new_fingerprint, end);
    lemma_field("new_fingerprint"@, new_fingerprint + end);
    lemma_comma(field4);
    lemma_quoted(new_name, shown_comma(field4));
    lemma_field("new_name"@, quoted2);
    lemma_comma(field3);
    lemma_number(old_fingerprint, shown_comma(field3));
    lemma_field("old_fingerprint"@, old_fingerprint + shown_comma(field3));
    lemma_comma(field2);
    lemma_quoted(old_name, shown_comma(field2));
    lemma_field("old_name"@, quoted1);
    lemma_open(field1);
    lemma_tag("UnitDependencyInfoChanged"@, shown_open(field1));
    lemma_wrong_tag("EnvVarChanged"@, s, 0);
}

/// `UnitDependencyInfoChanged { unit: UnitIndex(..) }` before `rest`.
pub open spec fn shown_unit_index(index: Seq<char>, rest: Seq<char>) -> Seq<char> {
    "UnitDependencyInfoChanged"@ + shown_open(
        shown_field("unit"@, "UnitIndex"@ + ("("@ + (index + (")"@ + shown_close(rest))))),
    )
}

/// A changed dependency that is known by its index alone is read as one
/// without a name. It is no root cause.
pub proof fn law_unit_index_is_read_back(index: Seq<char>, rest: Seq<char>)
    requires
        is_number(index),
    ensures
        known_reason(shown_unit_index(index, rest)) == Some(
            (rest, bare_dependency_change(Seq::empty())),
        ),
        bare_dependency_change(Seq::empty()) is UnitDependencyInfoChanged,
{
    reveal_strlit("EnvVarChanged");
    reveal_strlit("UnitDependencyInfoChanged");
    reveal_strlit("old_name");
    reveal_strlit("unit");
    reveal_strlit("UnitIndex");
    reveal_strlit(")");
    let end = ")"@ + shown_close(rest);
    let value = "UnitIndex"@ + ("("@ + (index + end));
    let field1 = shown_field("unit"@, value);
    let s = "UnitDependencyInfoChanged"@ + shown_open(field1);
    lemma_close(rest);
    lemma_tag(")"@, shown_close(rest));
    lemma_number(index, end);
    lemma_tag("("@, index + end);
    lemma_tag("UnitIndex"@, "("@ + (index + end));
    lemma_field("unit"@, value);
    lemma_open(field1);
    lemma_tag("UnitDependencyInfoChanged"@, shown_open(field1));
    lemma_wrong_tag("EnvVarChanged"@, s, 0);
    lemma_wrong_tag("old_name"@, field1, 0);
}

/// A changed target configuration is read as it was shown.
pub proof fn law_target_configuration_changed_is_read_back(rest: Seq<char>)
    ensures
        known_reason("TargetConfigurationChanged"@ + rest) == Some(
            (rest, RebuildReasonView::TargetConfigurationChanged),
        ),
{
    reveal_strlit("EnvVarChanged");
    reveal_strlit("UnitDependencyInfoChanged");
    reveal_strlit("TargetConfigurationChanged");
    let s = "TargetConfigurationChanged"@ + rest;
    lemma_tag("TargetConfigurationChanged"@, rest);
    lemma_wrong_tag("EnvVarChanged"@, s, 0);
    lemma_wrong_tag("UnitDependencyInfoChanged"@, s, 0);
}

/// A changed profile configuration is read as it was shown.
pub proof fn law_profile_configuration_changed_is_read_back(rest: Seq<char>)
    ensures
        known_reason("ProfileConfigurationChanged"@ + rest) == Some(
            (rest, RebuildReasonView::ProfileConfigurationChanged),
        ),
{
    reveal_strlit("EnvVarChanged");
    reveal_strlit("UnitDependencyInfoChanged");
    reveal_strlit("TargetConfigurationChanged");
    reveal_strlit("ProfileConfigurationChanged");
    let s = "ProfileConfigurationChanged"@ + rest;
    lemma_tag("ProfileConfigurationChanged"@, rest);
    lemma_wrong_tag("EnvVarChanged"@, s, 0);
    lemma_wrong_tag("UnitDependencyInfoChanged"@, s, 0);
    lemma_wrong_tag("TargetConfigurationChanged"@, s, 0);
}

/// The texts of a list with commas between them, and `]` before `rest`.
pub open spec fn shown_items(texts: Seq<Seq<char>>, rest: Seq<char>) -> Seq<char>
    decreases texts.len(),
{
    if texts.len() == 0 {
        "]"@ + rest
    } else if texts.len() == 1 {
        shown_quoted(texts[0], "]"@ + rest)
    } else {
        shown_quoted(texts[0], shown_comma(shown_items(texts.skip(1), rest)))
    }
}

/// `["..", ".."]` before `rest`.
pub open spec fn shown_list(texts: Seq<Seq<char>>, rest: Seq<char>) -> Seq<char> {
    "["@ + shown_items(texts, rest)
}

proof fn lemma_items_start_plain(texts: Seq<Seq<char>>, rest: Seq<char>)
    ensures
        starts_plain(shown_items(texts, rest)),
{
    reveal_strlit("]");
    reveal_strlit("\"");
}

proof fn lemma_items(texts: Seq<Seq<char>>, rest: Seq<char>, s: Seq<char>)
    requires
        forall|i: int| 0 <= i < texts.len() ==> is_quotable(#[trigger] texts[i]),
        spaces(Some(s)) == Some(shown_items(texts, rest)),
    ensures
        list_items(s) == Some((rest, texts)),
    decreases texts.len(),
{
    reveal_strlit("]");
    reveal_strlit("\"");
    reveal_strlit(",");
    let shown = shown_items(texts, rest);
    if texts.len() == 0 {
        lemma_tag("]"@, rest);
        assert(texts =~= Seq::empty());
    } else if texts.len() == 1 {
        lemma_wrong_tag("]"@, shown, 0);
        lemma_quoted(texts[0], "]"@ + rest);
        lemma_no_space("]"@ + rest);
        lemma_tag("]"@, rest);
        assert(texts =~= seq![texts[0]]);
    } else {
        let tail = texts.skip(1);
        let more = shown_items(tail, rest);
        lemma_wrong_tag("]"@, shown, 0);
        lemma_quoted(texts[0], shown_comma(more));
        lemma_no_space(shown_comma(more));
        lemma_wrong_tag("]"@, shown_comma(more), 0);
        lemma_tag(","@, " "@ + more);
        lemma_items_start_plain(tail, rest);
        lemma_one_space(more);
        assert forall|i: int| 0 <= i < tail.len() implies is_quotable(#[trigger] tail[i]) by {
            assert(tail[i] == texts[i + 1]);
        }
        lemma_items(tail, rest, " "@ + more);
        assert(texts =~= seq![texts[0]] + tail);
    }
}

proof fn lemma_list(texts: Seq<Seq<char>>, rest: Seq<char>)
    requires
        forall|i: int| 0 <= i < texts.len() ==> is_quotable(#[trigger] texts[i]),
    ensures
        after_list(Some(shown_list(texts, rest))) == Some(rest),
        list_texts(Some(shown_list(texts, rest))) == texts,
        starts_plain(shown_list(texts, rest)),
{
    reveal_strlit("[");
    lemma_tag("["@, shown_items(texts, rest));
    lemma_items_start_plain(texts, rest);
    lemma_no_space(shown_items(texts, rest));
    lemma_items(texts, rest, shown_items(texts, rest));
}

/// `RustflagsChanged { old: [..], new: [..] }` before `rest`.
pub open spec fn shown_rustflags_changed(
    before: Seq<Seq<char>>,
    after: Seq<Seq<char>>,
    rest: Seq<char>,
) -> Seq<char> {
    "RustflagsChanged"@ + shown_open(
        shown_field(
            "old"@,
            shown_list(
                before,
                shown_comma(shown_field("new"@, shown_list(after, shown_close(rest)))),
            ),
        ),
    )
}

/// Changed compiler flags are read as they were shown.
pub proof fn law_rustflags_changed_is_read_back(
    before: Seq<Seq<char>>,
    after: Seq<Seq<char>>,
    rest: Seq<char>,
)
    requires
        forall|i: int| 0 <= i < before.len() ==> is_quotable(#[trigger] before[i]),
        forall|i: int| 0 <= i < after.len() ==> is_quotable(#[trigger] after[i]),
    ensures
        known_reason(shown_rustflags_changed(before, after, rest)) == Some(
            (rest, RebuildReasonView::RustflagsChanged { old: before, new: after }),
        ),
{
    reveal_strlit("EnvVarChanged");
    reveal_strlit("UnitDependencyInfoChanged");
    reveal_strlit("TargetConfigurationChanged");
    reveal_strlit("ProfileConfigurationChanged");
    reveal_strlit("RustflagsChanged");
    reveal_strlit("old");
    reveal_strlit("new");
    let end = shown_close(rest);
    let field2 = shown_field("new"@, shown_list(after, end));
    let list1 = shown_list(before, shown_comma(field2));
    let field1 = shown_field("old"@, list1);
    let s = "RustflagsChanged"@ + shown_open(field1);
    lemma_close(rest);
    lemma_list(after, end);
    lemma_field("new"@, shown_list(after, end));
    lemma_comma(field2);
    lemma_list(before, shown_comma(field2));
    lemma_field("old"@, list1);
    lemma_open(field1);
    lemma_tag("RustflagsChanged"@, shown_open(field1));
    lemma_wrong_tag("EnvVarChanged"@, s, 0);
    lemma_wrong_tag("UnitDependencyInfoChanged"@, s, 0);
    lemma_wrong_tag("TargetConfigurationChanged"@, s, 0);
    lemma_wrong_tag("ProfileConfigurationChanged"@, s, 0);
}

/// `FeaturesChanged { old: "..", new: ".." }` before `rest`.
pub open spec fn shown_features_changed(
    before: Seq<char>,
    after: Seq<char>,
    rest: Seq<char>,
) -> Seq<char> {
    "FeaturesChanged"@ + shown_open(
        shown_field(
            "old"@,
            shown_quoted(
                before,
                shown_comma(shown_field("new"@, shown_quoted(after, shown_close(rest)))),
            ),
        ),
    )
}

/// A text that starts with an `F` has none of the forms that come first.
proof fn lemma_starts_with_f(s: Seq<char>)
    requires
        s.len() > 0,
        s[0] == 'F',
    ensures
        tag(Some(s), "EnvVarChanged"@) is None,
        tag(Some(s), "UnitDependencyInfoChanged"@) is None,
        tag(Some(s), "TargetConfigurationChanged"@) is None,
        tag(Some(s), "ProfileConfigurationChanged"@) is None,
        tag(Some(s), "RustflagsChanged"@) is None,
{
    reveal_strlit("EnvVarChanged");
    reveal_strlit("UnitDependencyInfoChanged");
    reveal_strlit("TargetConfigurationChanged");
    reveal_strlit("ProfileConfigurationChanged");
    reveal_strlit("RustflagsChanged");
    lemma_wrong_tag("EnvVarChanged"@, s, 0);
    lemma_wrong_tag("UnitDependencyInfoChanged"@, s, 0);
    lemma_wrong_tag("TargetConfigurationChanged"@, s, 0);
    lemma_wrong_tag("ProfileConfigurationChanged"@, s, 0);
    lemma_wrong_tag("RustflagsChanged"@, s, 0);
}

/// Changed features are read as they were shown.
pub proof fn law_features_changed_is_read_back(
    before: Seq<char>,
    after: Seq<char>,
    rest: Seq<char>,
)
    requires
        is_quotable(before),
        is_quotable(after),
    ensures
        known_reason(shown_features_changed(before, after, rest)) == Some(
            (rest, RebuildReasonView::FeaturesChanged { old: before, new: after }),
        ),
{
    reveal_strlit("FeaturesChanged");
    reveal_strlit("old");
    reveal_strlit("new");
    let end = shown_close(rest);
    let field2 = shown_field("new"@, shown_quoted(after, end));
    let quoted1 = shown_quoted(before, shown_comma(field2));
    let field1 = shown_field("old"@, quoted1);
    let s = "FeaturesChanged"@ + shown_open(field1);
    lemma_close(rest);
    lemma_quoted(after, end);
    lemma_field("new"@, shown_quoted(after, end));
    lemma_comma(field2);
    lemma_quoted(before, shown_comma(field2));
    lemma_field("old"@, quoted1);
    lemma_open(field1);
    lemma_tag("FeaturesChanged"@, shown_open(field1));
    lemma_starts_with_f(s);
}

/// `FsStatusOutdated(StaleDepFingerprint { name: ".." })` before `rest`.
pub open spec fn shown_stale_dep(name: Seq<char>, rest: Seq<char>) -> Seq<char> {
    "FsStatusOutdated"@ + ("("@ + ("StaleDepFingerprint"@ + shown_open(
        shown_field("name"@, shown_quoted(name, shown_close(")"@ + rest))),
    )))
}

/// A stale dependency is read as a changed dependency of this name.
pub proof fn law_stale_dep_is_read_back(name: Seq<char>, rest: Seq<char>)
    requires
        is_quotable(name),
    ensures
        known_reason(shown_stale_dep(name, rest)) == Some((rest, bare_dependency_change(name))),
{
    reveal_strlit("FeaturesChanged");
    reveal_strlit("FsStatusOutdated");
    reveal_strlit("name");
    let end = shown_close(")"@ + rest);
    let field1 = shown_field("name"@, shown_quoted(name, end));
    let dep = "StaleDepFingerprint"@ + shown_open(field1);
    let s = "FsStatusOutdated"@ + ("("@ + dep);
    lemma_tag(")"@, rest);
    lemma_close(")"@ + rest);
    lemma_quoted(name, end);
    lemma_field("name"@, shown_quoted(name, end));
    lemma_open(field1);
    lemma_tag("StaleDepFingerprint"@, shown_open(field1));
    lemma_tag("("@, dep);
    lemma_tag("FsStatusOutdated"@, "("@ + dep);
    lemma_starts_with_f(s);
    lemma_wrong_tag("FeaturesChanged"@, s, 1);
}

/// `FileTime { seconds: .., nanos: .. }` before `rest`.
pub open spec fn shown_file_time(
    seconds: Seq<char>,
    nanos: Seq<char>,
    rest: Seq<char>,
) -> Seq<char> {
    "FileTime"@ + shown_open(
        shown_field(
            "seconds"@,
            seconds + shown_comma(shown_field("nanos"@, nanos + shown_close(rest))),
        ),
    )
}

proof fn lemma_file_time(seconds: Seq<char>, nanos: Seq<char>, rest: Seq<char>)
    requires
        is_number(seconds),
        is_number(nanos),
    ensures
        after_file_time(Some(shown_file_time(seconds, nanos, rest))) == Some(rest),
        number_text(file_time_seconds(Some(shown_file_time(seconds, nanos, rest)))) == seconds,
        number_text(file_time_nanos(Some(shown_file_time(seconds, nanos, rest)))) == nanos,
        starts_plain(shown_file_time(seconds, nanos, rest)),
{
    reveal_strlit("FileTime");
    reveal_strlit("seconds");
    reveal_strlit("nanos");
    reveal_strlit(" ");
    reveal_strlit(",");
    let end = shown_close(rest);
    let field2 = shown_field("nanos"@, nanos + end);
    let field1 = shown_field("seconds"@, seconds + shown_comma(field2));
    lemma_close(rest);
    lemma_number(nanos, end);
    lemma_field("nanos"@, nanos + end);
    lemma_comma(field2);
    lemma_number(seconds, shown_comma(field2));
    lemma_field("seconds"@, seconds + shown_comma(field2));
    lemma_open(field1);
    lemma_tag("FileTime"@, shown_open(field1));
}

/// A time that cargo shows: its seconds and nanoseconds.
pub struct ShownTime {
    pub seconds: Seq<char>,
    pub nanos: Seq<char>,
}

impl ShownTime {
    /// Whether both are numbers.
    pub open spec fn is_valid(self) -> bool {
        is_number(self.seconds) && is_number(self.nanos)
    }
}

/// `FsStatusOutdated(StaleItem(ChangedFile { reference: "..", reference_mtime:
/// .., stale: "..", stale_mtime: .. }))` before `rest`.
pub open spec fn shown_changed_file(
    reference: Seq<char>,
    reference_mtime: ShownTime,
    stale: Seq<char>,
    stale_mtime: ShownTime,
    rest: Seq<char>,
) -> Seq<char> {
    "FsStatusOutdated"@ + ("("@ + ("StaleItem"@ + ("("@ + ("ChangedFile"@ + shown_open(
        shown_field(
            "reference"@,
            shown_quoted(
                reference,
                shown_comma(
                    shown_field(
                        "reference_mtime"@,
                        shown_file_time(
                            reference_mtime.seconds,
                            reference_mtime.nanos,
                            shown_comma(
                                shown_field(
                                    "stale"@,
                                    shown_quoted(
                                        stale,
                                        shown_comma(
                                            shown_field(
                                                "stale_mtime"@,
                                                shown_file_time(
                                                    stale_mtime.seconds,
                                                    stale_mtime.nanos,
                                                    shown_close(")"@ + (")"@ + rest)),
                                                ),
                                            ),
                                        ),
                                    ),
                                ),
                            ),
                        ),
                    ),
                ),
            ),
        ),
    )))))
}

/// A changed file is read as the path of the stale file.
pub proof fn law_changed_file_is_read_back(
    reference: Seq<char>,
    reference_mtime: ShownTime,
    stale: Seq<char>,
    stale_mtime: ShownTime,
    rest: Seq<char>,
)
    requires
        is_quotable(reference),
        reference_mtime.is_valid(),
        is_quotable(stale),
        stale_mtime.is_valid(),
    ensures
        known_reason(
            shown_changed_file(reference, reference_mtime, stale, stale_mtime, rest),
        ) == Some((rest, RebuildReasonView::FileChanged { path: stale })),
{
    reveal_strlit("FeaturesChanged");
    reveal_strlit("FsStatusOutdated");
    reveal_strlit("StaleItem");
    reveal_strlit("StaleDepFingerprint");
    reveal_strlit("reference");
    reveal_strlit("reference_mtime");
    reveal_strlit("stale");
    reveal_strlit("stale_mtime");
    let end = shown_close(")"@ + (")"@ + rest));
    let time2 = shown_file_time(stale_mtime.seconds, stale_mtime.nanos, end);
    let field4 = shown_field("stale_mtime"@, time2);
    let quoted2 = shown_quoted(stale, shown_comma(field4));
    let field3 = shown_field("stale"@, quoted2);
    let time1 = shown_file_time(
        reference_mtime.seconds,
        reference_mtime.nanos,
        shown_comma(field3),
    );
    let field2 = shown_field("reference_mtime"@, time1);
    let quoted1 = shown_quoted(reference, shown_comma(field2));
    let field1 = shown_field("reference"@, quoted1);
    let file = "ChangedFile"@ + shown_open(field1);
    let item = "StaleItem"@ + ("("@ + file);
    let s = "FsStatusOutdated"@ + ("("@ + item);
    lemma_tag(")"@, rest);
    lemma_tag(")"@, ")"@ + rest);
    lemma_close(")"@ + (")"@ + rest));
    lemma_file_time(stale_mtime.seconds, stale_mtime.nanos, end);
    lemma_field("stale_mtime"@, time2);
    lemma_comma(field4);
    lemma_quoted(stale, shown_comma(field4));
    lemma_field("stale"@, quoted2);
    lemma_comma(field3);
    lemma_file_time(reference_mtime.seconds, reference_mtime.nanos, shown_comma(field3));
    lemma_field("reference_mtime"@, time1);
    lemma_comma(field2);
    lemma_quoted(reference, shown_comma(field2));
    lemma_field("reference"@, quoted1);
    lemma_open(field1);
    lemma_tag("ChangedFile"@, shown_open(field1));
    assert(changed_file_stale(Some(file)) == Some(quoted2));
    assert(after_changed_file(Some(file)) == Some(")"@ + (")"@ + rest)));
    lemma_tag("("@, file);
    lemma_tag("StaleItem"@, "("@ + file);
    lemma_tag("("@, item);
    lemma_tag("FsStatusOutdated"@, "("@ + item);
    lemma_starts_with_f(s);
    lemma_wrong_tag("FeaturesChanged"@, s, 1);
    lemma_wrong_tag("StaleDepFingerprint"@, item, 5);
}

/// A line gives a reason exactly if it holds `dirty:` somewhere. So no line
/// with that marker is lost, however malformed it is.
pub proof fn law_marked_lines_give_a_reason(line: Seq<char>)
    ensures
        line_reason(line) is Some <==> exists|i: int|
            0 <= i <= line.len() && "dirty:"@.is_prefix_of(#[trigger] line.skip(i)),
{
    lemma_find(line, "dirty:"@);
}

/// Whether the first place at which `needle` occurs in `head` with `needle`
/// behind it is the end.
pub open spec fn is_first_mark(head: Seq<char>, needle: Seq<char>) -> bool {
    find(head + needle, needle) == Some(head.len() as int)
}

/// What stands behind such a mark does not move it.
pub proof fn lemma_first_mark(head: Seq<char>, needle: Seq<char>, tail: Seq<char>)
    requires
        is_first_mark(head, needle),
    ensures
        find(head + needle + tail, needle) == Some(head.len() as int),
        (head + needle + tail).skip((head.len() + needle.len()) as int) == tail,
{
    let short = head + needle;
    let whole = head + needle + tail;
    let n = head.len() as int;
    lemma_find(short, needle);
    assert(needle.is_prefix_of(whole.skip(n))) by {
        assert(whole.skip(n) =~= needle + tail);
    }
    assert forall|j: int| 0 <= j < n implies !needle.is_prefix_of(#[trigger] whole.skip(j)) by {
        if needle.is_prefix_of(whole.skip(j)) {
            assert(short.skip(j).subrange(0, needle.len() as int) =~= whole.skip(j).subrange(
                0,
                needle.len() as int,
            ));
            assert(needle.is_prefix_of(short.skip(j)));
        }
    }
    lemma_find_is(whole, needle, n);
    assert(whole.skip((head.len() + needle.len()) as int) =~= tail);
}

/// The reason of a line is what stands behind its first `dirty:`, whatever
/// stands before that and however much white space behind it.
pub proof fn law_reason_stands_behind_the_marker(
    head: Seq<char>,
    white: Seq<char>,
    reason: Seq<char>,
)
    requires
        is_first_mark(head, "dirty:"@),
        forall|i: int| 0 <= i < white.len() ==> is_white_space(#[trigger] white[i]),
        reason.len() > 0 ==> !is_white_space(reason[0]),
    ensures
        line_reason(head + "dirty:"@ + (white + reason)) == Some(dirty_reason(reason).1),
        known_reason(reason) is None ==> line_reason(head + "dirty:"@ + (white + reason)) == Some(
            RebuildReasonView::Unknown(trim(reason)),
        ),
{
    lemma_first_mark(head, "dirty:"@, white + reason);
    let s = white + reason;
    lemma_run_is(s, CharClass::Whitespace, white.len() as int);
    assert(trim_start(s) =~= reason);
}

proof fn lemma_trimmed(s: Seq<char>)
    requires
        s.len() > 0 ==> !is_white_space(s[0]) && !is_white_space(s.last()),
    ensures
        trim(s) == s,
{
    lemma_run_is(s, CharClass::Whitespace, 0);
    assert(trim_start(s) =~= s);
    lemma_run_back_is(s, CharClass::Whitespace, 0);
    assert(s.take(s.len() as int) =~= s);
}

proof fn lemma_package_id(head: Seq<char>, package_id: Seq<char>, value: Seq<char>)
    requires
        is_first_mark(head, "package_id="@),
        is_first_mark(package_id, " target="@),
        package_id.len() > 0 ==> !is_white_space(package_id[0]) && !is_white_space(
            package_id.last(),
        ),
    ensures
        line_package_id(head + "package_id="@ + (package_id + " target="@ + value)) == package_id,
{
    let after_id = package_id + " target="@ + value;
    lemma_first_mark(head, "package_id="@, after_id);
    lemma_first_mark(package_id, " target="@, value);
    assert(after_id.take(package_id.len() as int) =~= package_id);
    lemma_trimmed(package_id);
}

proof fn lemma_target(head: Seq<char>, target: Seq<char>, tail: Seq<char>)
    requires
        is_first_mark(head, "target="@),
        is_quotable(target),
    ensures
        line_target(head + "target="@ + shown_quoted(target, tail)) == Some(target),
{
    let value = shown_quoted(target, tail);
    lemma_first_mark(head, "target="@, value);
    lemma_quoted(target, tail);
    assert(value[0] == '"') by {
        reveal_strlit("\"");
    }
}

/// The unit of a line is found in `package_id=.. target=".."`, whatever stands
/// before and behind these.
pub proof fn law_unit_is_read_back(
    head: Seq<char>,
    package_id: Seq<char>,
    target: Seq<char>,
    tail: Seq<char>,
)
    requires
        is_first_mark(head, "package_id="@),
        is_first_mark(package_id, " target="@),
        is_first_mark(head + "package_id="@ + package_id + " "@, "target="@),
        package_id.len() > 0 ==> !is_white_space(package_id[0]) && !is_white_space(
            package_id.last(),
        ),
        is_quotable(target),
    ensures
        line_package(
            head + "package_id="@ + package_id + " target="@ + shown_quoted(target, tail),
        ) == (PackageTargetView { package_id, target: Some(target) }),
{
    let value = shown_quoted(target, tail);
    let line = head + "package_id="@ + package_id + " target="@ + value;
    assert(line_package_id(line) == package_id) by {
        assert(line =~= head + "package_id="@ + (package_id + " target="@ + value));
        lemma_package_id(head, package_id, value);
    }
    assert(line_target(line) == Some(target)) by {
        let before_target = head + "package_id="@ + package_id + " "@;
        assert(" target="@ =~= " "@ + "target="@) by {
            reveal_strlit(" target=");
            reveal_strlit(" ");
            reveal_strlit("target=");
        }
        assert(line =~= before_target + "target="@ + value);
        lemma_target(before_target, target, tail);
    }
}

/// A line that names no package is about the package `unknown`.
pub proof fn law_missing_unit_is_unknown(line: Seq<char>)
    requires
        find(line, "package_id="@) is None,
        find(line, "target="@) is None,
    ensures
        line_package(line) == (PackageTargetView { package_id: "unknown"@, target: None }),
{
}

} // verus!
