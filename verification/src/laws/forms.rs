//! Laws of the forms of reasons.
//!
//! A reason is recognised exactly if the text starts with one of the forms that
//! are written out here: the words and signs of the form, the values, and any
//! number of blanks where blanks may stand. Whatever else a text holds, it is
//! not recognised.

use vstd::prelude::*;

use crate::fingerprint_parser::{
    after_changed_file, after_file_time, after_list, after_number, after_option, after_quoted,
    changed_file_stale, close_brace, comma, dirty_reason, env_var_changed, features_changed, field,
    file_time_nanos, file_time_seconds, fs_status_outdated_changed_file,
    fs_status_outdated_stale_dep, known_reason, lemma_item_is_shorter, list_items, list_texts,
    number_text, open_brace, option_text, profile_configuration_changed, quoted_text,
    rustflags_changed, spaces, tag, target_configuration_changed, unit_dependency_info_changed,
    unit_dependency_info_changed_unit_index, Cursor,
};
use crate::laws::reading::{
    is_number, is_quotable, is_quotable_option, lemma_number, lemma_option, lemma_quoted,
    lemma_tag, shown_option, shown_quoted,
};
use crate::laws::surroundings::{
    lemma_file_with_more, lemma_one_name, lemma_unit_index_with_more,
};
use crate::rebuild_reason::RebuildReasonView;
use crate::text::{lemma_run, lemma_run_is, run, trim, CharClass};

verus! {

/// Whether a text is made of spaces and tabs.
pub open spec fn is_blank(s: Seq<char>) -> bool {
    forall|i: int| 0 <= i < s.len() ==> #[trigger] s[i] == ' ' || s[i] == '\t'
}

/// Whether these are `n` texts of spaces and tabs.
pub open spec fn are_gaps(g: Seq<Seq<char>>, n: int) -> bool {
    &&& g.len() == n
    &&& forall|i: int| 0 <= i < n ==> is_blank(#[trigger] g[i])
}

/// An opening brace before `rest`, with two gaps round it.
pub open spec fn spaced_open(g: Seq<Seq<char>>, k: int, rest: Seq<char>) -> Seq<char> {
    g[k] + ("{"@ + (g[k + 1] + rest))
}

/// A closing brace before `rest`, with a gap before it.
pub open spec fn spaced_close(g: Seq<Seq<char>>, k: int, rest: Seq<char>) -> Seq<char> {
    g[k] + ("}"@ + rest)
}

/// A comma before `rest`, with two gaps round it.
pub open spec fn spaced_comma(g: Seq<Seq<char>>, k: int, rest: Seq<char>) -> Seq<char> {
    g[k] + (","@ + (g[k + 1] + rest))
}

/// The name of a field and a colon before `rest`, with two gaps round the colon.
pub open spec fn spaced_field(
    name: Seq<char>,
    g: Seq<Seq<char>>,
    k: int,
    rest: Seq<char>,
) -> Seq<char> {
    name + (g[k] + (":"@ + (g[k + 1] + rest)))
}

/// Whether `s` is a quoted text with `sign` behind it and then `more`, where
/// blanks may stand before the text and before the sign.
pub open spec fn is_item(
    s: Seq<char>,
    text: Seq<char>,
    sign: Seq<char>,
    more: Seq<char>,
) -> bool {
    &&& is_quotable(text)
    &&& exists|a: Seq<char>, b: Seq<char>|
        #![trigger is_blank(a), is_blank(b)]
        is_blank(a) && is_blank(b) && s == a + shown_quoted(text, b + (sign + more))
}

/// Whether `s` is a list from behind its opening bracket on, with these texts
/// and `rest` behind it. Blanks may stand between the parts, and a comma behind
/// the last text.
pub open spec fn is_list_body(s: Seq<char>, texts: Seq<Seq<char>>, rest: Seq<char>) -> bool
    decreases texts.len(),
{
    if texts.len() == 0 {
        exists|a: Seq<char>| #[trigger] is_blank(a) && s == a + ("]"@ + rest)
    } else {
        ||| texts.len() == 1 && is_item(s, texts[0], "]"@, rest)
        ||| exists|more: Seq<char>|
            #[trigger] is_item(s, texts[0], ","@, more) && is_list_body(more, texts.skip(1), rest)
    }
}

/// Whether `s` is a list with these texts and `rest` behind it.
pub open spec fn is_list(s: Seq<char>, texts: Seq<Seq<char>>, rest: Seq<char>) -> bool {
    exists|body: Seq<char>| #[trigger] is_list_body(body, texts, rest) && s == "["@ + body
}

/// A changed variable before `rest`.
pub open spec fn spaced_env_var(
    g: Seq<Seq<char>>,
    name: Seq<char>,
    old_value: Option<Seq<char>>,
    new_value: Option<Seq<char>>,
    rest: Seq<char>,
) -> Seq<char> {
    "EnvVarChanged"@ + spaced_open(
        g,
        0,
        spaced_field(
            "name"@,
            g,
            2,
            shown_quoted(
                name,
                spaced_comma(
                    g,
                    4,
                    spaced_field(
                        "old_value"@,
                        g,
                        6,
                        shown_option(
                            old_value,
                            spaced_comma(
                                g,
                                8,
                                spaced_field(
                                    "new_value"@,
                                    g,
                                    10,
                                    shown_option(new_value, spaced_close(g, 12, rest)),
                                ),
                            ),
                        ),
                    ),
                ),
            ),
        ),
    )
}

/// A changed dependency that is named, before `rest`.
pub open spec fn spaced_dependency(
    g: Seq<Seq<char>>,
    old_name: Seq<char>,
    old_fingerprint: Seq<char>,
    new_name: Seq<char>,
    new_fingerprint: Seq<char>,
    rest: Seq<char>,
) -> Seq<char> {
    "UnitDependencyInfoChanged"@ + spaced_open(
        g,
        0,
        spaced_field(
            "old_name"@,
            g,
            2,
            shown_quoted(
                old_name,
                spaced_comma(
                    g,
                    4,
                    spaced_field(
                        "old_fingerprint"@,
                        g,
                        6,
                        old_fingerprint + spaced_comma(
                            g,
                            8,
                            spaced_field(
                                "new_name"@,
                                g,
                                10,
                                shown_quoted(
                                    new_name,
                                    spaced_comma(
                                        g,
                                        12,
                                        spaced_field(
                                            "new_fingerprint"@,
                                            g,
                                            14,
                                            new_fingerprint + spaced_close(g, 16, rest),
                                        ),
                                    ),
                                ),
                            ),
                        ),
                    ),
                ),
            ),
        ),
    )
}

/// A changed dependency that is given by its index, before `rest`.
pub open spec fn spaced_unit_index(
    g: Seq<Seq<char>>,
    index: Seq<char>,
    rest: Seq<char>,
) -> Seq<char> {
    "UnitDependencyInfoChanged"@ + spaced_open(
        g,
        0,
        spaced_field(
            "unit"@,
            g,
            2,
            "UnitIndex"@ + ("("@ + (index + (")"@ + spaced_close(g, 4, rest)))),
        ),
    )
}

/// Changed features before `rest`.
pub open spec fn spaced_features(
    g: Seq<Seq<char>>,
    before: Seq<char>,
    after: Seq<char>,
    rest: Seq<char>,
) -> Seq<char> {
    "FeaturesChanged"@ + spaced_open(
        g,
        0,
        spaced_field(
            "old"@,
            g,
            2,
            shown_quoted(
                before,
                spaced_comma(
                    g,
                    4,
                    spaced_field("new"@, g, 6, shown_quoted(after, spaced_close(g, 8, rest))),
                ),
            ),
        ),
    )
}

/// A stale dependency before `rest`.
pub open spec fn spaced_stale_dep(g: Seq<Seq<char>>, name: Seq<char>, rest: Seq<char>) -> Seq<
    char,
> {
    "FsStatusOutdated"@ + ("("@ + ("StaleDepFingerprint"@ + spaced_open(
        g,
        0,
        spaced_field("name"@, g, 2, shown_quoted(name, spaced_close(g, 4, ")"@ + rest))),
    )))
}

/// A time before `rest`.
pub open spec fn spaced_time(
    g: Seq<Seq<char>>,
    seconds: Seq<char>,
    nanos: Seq<char>,
    rest: Seq<char>,
) -> Seq<char> {
    "FileTime"@ + spaced_open(
        g,
        0,
        spaced_field(
            "seconds"@,
            g,
            2,
            seconds + spaced_comma(
                g,
                4,
                spaced_field("nanos"@, g, 6, nanos + spaced_close(g, 8, rest)),
            ),
        ),
    )
}

/// Whether `s` is a time with `rest` behind it.
#[verifier::opaque]
pub open spec fn is_time(s: Seq<char>, rest: Seq<char>) -> bool {
    exists|g: Seq<Seq<char>>, seconds: Seq<char>, nanos: Seq<char>|
        #![trigger are_gaps(g, 9), is_number(seconds), is_number(nanos)]
        are_gaps(g, 9) && is_number(seconds) && is_number(nanos) && s == spaced_time(
            g,
            seconds,
            nanos,
            rest,
        )
}

/// Whether `s` is the end of a changed file with this path, and `rest` stands
/// behind it.
pub open spec fn is_stale_part(s: Seq<char>, path: Seq<char>, rest: Seq<char>) -> bool {
    &&& is_quotable(path)
    &&& exists|g: Seq<Seq<char>>, time: Seq<char>|
        #![trigger are_gaps(g, 9), is_time(time, spaced_close(g, 8, rest))]
        are_gaps(g, 9) && is_time(time, spaced_close(g, 8, rest)) && s == spaced_comma(
            g,
            0,
            spaced_field(
                "stale"@,
                g,
                2,
                shown_quoted(path, spaced_comma(g, 4, spaced_field("stale_mtime"@, g, 6, time))),
            ),
        )
}

/// Whether `s` is a changed file with this path and `rest` behind it.
pub open spec fn is_changed_file(s: Seq<char>, path: Seq<char>, rest: Seq<char>) -> bool {
    exists|g: Seq<Seq<char>>, reference: Seq<char>, time: Seq<char>, behind: Seq<char>|
        {
            &&& #[trigger] are_gaps(g, 8)
            &&& #[trigger] is_quotable(reference)
            &&& #[trigger] is_time(time, behind)
            &&& is_stale_part(behind, path, rest)
            &&& s == "ChangedFile"@ + spaced_open(
                g,
                0,
                spaced_field(
                    "reference"@,
                    g,
                    2,
                    shown_quoted(
                        reference,
                        spaced_comma(g, 4, spaced_field("reference_mtime"@, g, 6, time)),
                    ),
                ),
            )
        }
}

/// Whether `s` is a changed variable with these values and `rest` behind it.
pub open spec fn is_env_var_form(
    s: Seq<char>,
    name: Seq<char>,
    old_value: Option<Seq<char>>,
    new_value: Option<Seq<char>>,
    rest: Seq<char>,
) -> bool {
    &&& is_quotable(name)
    &&& is_quotable_option(old_value)
    &&& is_quotable_option(new_value)
    &&& exists|g: Seq<Seq<char>>| #[trigger]
        are_gaps(g, 13) && s == spaced_env_var(g, name, old_value, new_value, rest)
}

/// Whether `s` is a changed dependency with these values and `rest` behind it.
/// Any new name may stand there.
pub open spec fn is_dependency_form(
    s: Seq<char>,
    name: Seq<char>,
    old_fingerprint: Seq<char>,
    new_fingerprint: Seq<char>,
    rest: Seq<char>,
) -> bool {
    &&& is_quotable(name)
    &&& is_number(old_fingerprint)
    &&& is_number(new_fingerprint)
    &&& exists|g: Seq<Seq<char>>, new_name: Seq<char>|
        #![trigger are_gaps(g, 17), is_quotable(new_name)]
        are_gaps(g, 17) && is_quotable(new_name) && s == spaced_dependency(
            g,
            name,
            old_fingerprint,
            new_name,
            new_fingerprint,
            rest,
        )
}

/// Whether `s` is a changed dependency that is given by an index, with `rest`
/// behind it.
pub open spec fn is_unit_index_form(s: Seq<char>, rest: Seq<char>) -> bool {
    exists|g: Seq<Seq<char>>, index: Seq<char>|
        #![trigger are_gaps(g, 5), is_number(index)]
        are_gaps(g, 5) && is_number(index) && s == spaced_unit_index(g, index, rest)
}

/// Whether `s` is the end of changed flags, from behind the old ones on.
pub open spec fn is_new_flags_part(s: Seq<char>, after: Seq<Seq<char>>, rest: Seq<char>) -> bool {
    exists|g: Seq<Seq<char>>, list: Seq<char>|
        #![trigger are_gaps(g, 5), is_list(list, after, spaced_close(g, 4, rest))]
        are_gaps(g, 5) && is_list(list, after, spaced_close(g, 4, rest)) && s == spaced_comma(
            g,
            0,
            spaced_field("new"@, g, 2, list),
        )
}

/// Whether `s` are changed flags with these values and `rest` behind them.
pub open spec fn is_rustflags_form(
    s: Seq<char>,
    before: Seq<Seq<char>>,
    after: Seq<Seq<char>>,
    rest: Seq<char>,
) -> bool {
    exists|g: Seq<Seq<char>>, list: Seq<char>, behind: Seq<char>|
        #![trigger are_gaps(g, 4), is_list(list, before, behind)]
        are_gaps(g, 4) && is_list(list, before, behind) && is_new_flags_part(behind, after, rest)
            && s == "RustflagsChanged"@ + spaced_open(g, 0, spaced_field("old"@, g, 2, list))
}

/// Whether `s` are changed features with these values and `rest` behind them.
pub open spec fn is_features_form(
    s: Seq<char>,
    before: Seq<char>,
    after: Seq<char>,
    rest: Seq<char>,
) -> bool {
    &&& is_quotable(before)
    &&& is_quotable(after)
    &&& exists|g: Seq<Seq<char>>| #[trigger]
        are_gaps(g, 9) && s == spaced_features(g, before, after, rest)
}

/// Whether `s` is a stale dependency of this name with `rest` behind it.
pub open spec fn is_stale_dep_form(s: Seq<char>, name: Seq<char>, rest: Seq<char>) -> bool {
    &&& is_quotable(name)
    &&& exists|g: Seq<Seq<char>>| #[trigger]
        are_gaps(g, 5) && s == spaced_stale_dep(g, name, rest)
}

/// Whether `s` is a changed file of this path as a reason, with `rest` behind
/// it.
pub open spec fn is_file_form(s: Seq<char>, path: Seq<char>, rest: Seq<char>) -> bool {
    exists|file: Seq<char>| #[trigger]
        is_changed_file(file, path, ")"@ + (")"@ + rest)) && s == "FsStatusOutdated"@ + ("("@ + (
        "StaleItem"@ + ("("@ + file)))
}

/// Whether `s` is this reason, in one of its forms, with `rest` behind it.
pub open spec fn is_form_of(
    s: Seq<char>,
    reason: RebuildReasonView,
    rest: Seq<char>,
) -> bool {
    match reason {
        RebuildReasonView::EnvVarChanged { name, old_value, new_value } => is_env_var_form(
            s,
            name,
            old_value,
            new_value,
            rest,
        ),
        RebuildReasonView::UnitDependencyInfoChanged {
            name,
            old_fingerprint,
            new_fingerprint,
            context,
        } => context is None && {
            ||| is_dependency_form(s, name, old_fingerprint, new_fingerprint, rest)
            ||| old_fingerprint.len() == 0 && new_fingerprint.len() == 0 && name.len() == 0
                && is_unit_index_form(s, rest)
            ||| old_fingerprint.len() == 0 && new_fingerprint.len() == 0 && is_stale_dep_form(
                s,
                name,
                rest,
            )
        },
        RebuildReasonView::TargetConfigurationChanged => s == "TargetConfigurationChanged"@ + rest,
        RebuildReasonView::ProfileConfigurationChanged => s == "ProfileConfigurationChanged"@
            + rest,
        RebuildReasonView::RustflagsChanged { old: before, new: after } => is_rustflags_form(
            s,
            before,
            after,
            rest,
        ),
        RebuildReasonView::FeaturesChanged { old: before, new: after } => is_features_form(
            s,
            before,
            after,
            rest,
        ),
        RebuildReasonView::FileChanged { path } => is_file_form(s, path, rest),
        RebuildReasonView::Unknown(_) => false,
    }
}

/// The blanks that stand there.
spec fn gap(at: Cursor) -> Seq<char> {
    at.unwrap().take(run(at.unwrap(), CharClass::Blank) as int)
}

/// The blanks behind the sign `w` and the blanks before it.
spec fn inner_gap(at: Cursor, w: Seq<char>) -> Seq<char> {
    gap(tag(spaces(at), w))
}

/// Whether a text starts with something else than a blank.
spec fn is_plain(s: Seq<char>) -> bool {
    s.len() > 0 && s[0] != ' ' && s[0] != '\t'
}

proof fn lemma_skip_gap(a: Seq<char>, s: Seq<char>)
    requires
        is_blank(a),
        is_plain(s),
    ensures
        spaces(Some(a + s)) == Some(s),
{
    let whole = a + s;
    assert forall|i: int| 0 <= i < a.len() implies CharClass::Blank.has(#[trigger] whole[i]) by {
        assert(whole[i] == a[i]);
    }
    assert(whole[a.len() as int] == s[0]);
    lemma_run_is(whole, CharClass::Blank, a.len() as int);
    assert(whole.skip(a.len() as int) =~= s);
}

proof fn lemma_has_gap(at: Cursor)
    requires
        at is Some,
    ensures
        is_blank(gap(at)),
        at.unwrap() == gap(at) + spaces(at).unwrap(),
{
    let s = at.unwrap();
    lemma_run(s, CharClass::Blank);
    assert forall|i: int| 0 <= i < gap(at).len() implies #[trigger] gap(at)[i] == ' ' || gap(at)[i]
        == '\t' by {
        assert(CharClass::Blank.has(s[i]));
    }
    assert(s =~= gap(at) + spaces(at).unwrap());
}

proof fn lemma_has_tag(at: Cursor, w: Seq<char>)
    requires
        tag(at, w) is Some,
    ensures
        at.unwrap() == w + tag(at, w).unwrap(),
{
    let s = at.unwrap();
    assert(s.subrange(0, w.len() as int) =~= w);
    assert(s =~= w + s.skip(w.len() as int));
}

/// A sign with two gaps round it is read.
proof fn lemma_sign(a: Seq<char>, w: Seq<char>, b: Seq<char>, rest: Seq<char>)
    requires
        is_blank(a),
        is_blank(b),
        is_plain(w),
        is_plain(rest),
    ensures
        spaces(tag(spaces(Some(a + (w + (b + rest)))), w)) == Some(rest),
{
    lemma_skip_gap(a, w + (b + rest));
    lemma_tag(w, b + rest);
    lemma_skip_gap(b, rest);
}

proof fn lemma_has_sign(at: Cursor, w: Seq<char>)
    requires
        spaces(tag(spaces(at), w)) is Some,
    ensures
        is_blank(gap(at)),
        is_blank(inner_gap(at, w)),
        at.unwrap() == gap(at) + (w + (inner_gap(at, w) + spaces(tag(spaces(at), w)).unwrap())),
{
    lemma_has_gap(at);
    lemma_has_tag(spaces(at), w);
    lemma_has_gap(tag(spaces(at), w));
}

proof fn lemma_open(g: Seq<Seq<char>>, k: int, n: int, rest: Seq<char>)
    requires
        are_gaps(g, n),
        0 <= k < n - 1,
        is_plain(rest),
    ensures
        open_brace(Some(spaced_open(g, k, rest))) == Some(rest),
{
    reveal_strlit("{");
    lemma_sign(g[k], "{"@, g[k + 1], rest);
}

proof fn lemma_comma(g: Seq<Seq<char>>, k: int, n: int, rest: Seq<char>)
    requires
        are_gaps(g, n),
        0 <= k < n - 1,
        is_plain(rest),
    ensures
        comma(Some(spaced_comma(g, k, rest))) == Some(rest),
        spaced_comma(g, k, rest).len() > 0,
        !CharClass::Digit.has(spaced_comma(g, k, rest)[0]),
{
    reveal_strlit(",");
    lemma_sign(g[k], ","@, g[k + 1], rest);
    let s = spaced_comma(g, k, rest);
    if g[k].len() > 0 {
        assert(s[0] == g[k][0]);
    } else {
        assert(s[0] == ',');
    }
}

proof fn lemma_close(g: Seq<Seq<char>>, k: int, n: int, rest: Seq<char>)
    requires
        are_gaps(g, n),
        0 <= k < n,
    ensures
        close_brace(Some(spaced_close(g, k, rest))) == Some(rest),
        spaced_close(g, k, rest).len() > 0,
        !CharClass::Digit.has(spaced_close(g, k, rest)[0]),
{
    reveal_strlit("}");
    lemma_skip_gap(g[k], "}"@ + rest);
    lemma_tag("}"@, rest);
    let s = spaced_close(g, k, rest);
    if g[k].len() > 0 {
        assert(s[0] == g[k][0]);
    } else {
        assert(s[0] == '}');
    }
}

proof fn lemma_field(name: Seq<char>, g: Seq<Seq<char>>, k: int, n: int, rest: Seq<char>)
    requires
        are_gaps(g, n),
        0 <= k < n - 1,
        is_plain(rest),
        is_plain(name),
    ensures
        field(Some(spaced_field(name, g, k, rest)), name) == Some(rest),
        is_plain(spaced_field(name, g, k, rest)),
{
    reveal_strlit(":");
    lemma_tag(name, g[k] + (":"@ + (g[k + 1] + rest)));
    lemma_sign(g[k], ":"@, g[k + 1], rest);
}

proof fn lemma_has_field(at: Cursor, name: Seq<char>)
    requires
        field(at, name) is Some,
    ensures
        is_blank(gap(tag(at, name))),
        is_blank(inner_gap(tag(at, name), ":"@)),
        at.unwrap() == name + (gap(tag(at, name)) + (":"@ + (inner_gap(tag(at, name), ":"@)
            + field(at, name).unwrap()))),
{
    lemma_has_tag(at, name);
    lemma_has_sign(tag(at, name), ":"@);
}

proof fn lemma_has_close(at: Cursor)
    requires
        close_brace(at) is Some,
    ensures
        is_blank(gap(at)),
        at.unwrap() == gap(at) + ("}"@ + close_brace(at).unwrap()),
{
    lemma_has_gap(at);
    lemma_has_tag(spaces(at), "}"@);
}

proof fn lemma_has_quoted(at: Cursor)
    requires
        after_quoted(at) is Some,
    ensures
        is_quotable(quoted_text(at)),
        at.unwrap() == shown_quoted(quoted_text(at), after_quoted(at).unwrap()),
{
    reveal_strlit("\"");
    let s = at.unwrap();
    let body = s.skip(1);
    let n = run(body, CharClass::Except('"')) as int;
    lemma_run(body, CharClass::Except('"'));
    let text = quoted_text(at);
    if text.contains('"') {
        let i = choose|i: int| 0 <= i < text.len() && text[i] == '"';
        assert(CharClass::Except('"').has(body[i]));
    }
    assert(body[n] == '"');
    assert(s =~= shown_quoted(text, after_quoted(at).unwrap()));
}

proof fn lemma_has_option(at: Cursor)
    requires
        after_option(at) is Some,
    ensures
        is_quotable_option(option_text(at)),
        at.unwrap() == shown_option(option_text(at), after_option(at).unwrap()),
{
    if tag(at, "None"@) is Some {
        lemma_has_tag(at, "None"@);
    } else {
        let quoted = tag(at, "Some("@);
        lemma_has_tag(at, "Some("@);
        lemma_has_quoted(quoted);
        lemma_has_tag(after_quoted(quoted), ")"@);
    }
}

proof fn lemma_has_number(at: Cursor)
    requires
        after_number(at) is Some,
    ensures
        is_number(number_text(at)),
        at.unwrap() == number_text(at) + after_number(at).unwrap(),
{
    let s = at.unwrap();
    lemma_run(s, CharClass::Digit);
    let digits = number_text(at);
    assert forall|i: int| 0 <= i < digits.len() implies CharClass::Digit.has(
        #[trigger] digits[i],
    ) by {
        assert(CharClass::Digit.has(s[i]));
    }
    assert(s =~= digits + after_number(at).unwrap());
}

/// A list is read exactly if it has this form, and to these texts.
pub proof fn law_lists(s: Seq<char>, texts: Seq<Seq<char>>, rest: Seq<char>)
    ensures
        list_items(s) == Some((rest, texts)) <==> is_list_body(s, texts, rest),
{
    if is_list_body(s, texts, rest) {
        lemma_list_body(s, texts, rest);
    }
    if list_items(s) == Some((rest, texts)) {
        lemma_has_list_body(s);
    }
}

proof fn lemma_item(s: Seq<char>, text: Seq<char>, sign: Seq<char>, more: Seq<char>)
    requires
        is_item(s, text, sign, more),
        is_plain(sign),
    ensures
        ({
            let at = spaces(Some(s));
            &&& tag(at, "]"@) is None
            &&& quoted_text(at) == text
            &&& spaces(after_quoted(at)) == Some(sign + more)
        }),
{
    let (a, b) = choose|a: Seq<char>, b: Seq<char>|
        #![trigger is_blank(a), is_blank(b)]
        is_blank(a) && is_blank(b) && s == a + shown_quoted(text, b + (sign + more));
    let quoted = shown_quoted(text, b + (sign + more));
    lemma_quoted(text, b + (sign + more));
    lemma_skip_gap(a, quoted);
    assert(quoted[0] == '"') by {
        reveal_strlit("\"");
    }
    lemma_not_bracket(quoted);
    lemma_skip_gap(b, sign + more);
}

proof fn lemma_list_body(s: Seq<char>, texts: Seq<Seq<char>>, rest: Seq<char>)
    requires
        is_list_body(s, texts, rest),
    ensures
        list_items(s) == Some((rest, texts)),
    decreases texts.len(),
{
    reveal_strlit("]");
    reveal_strlit(",");
    if texts.len() == 0 {
        let a = choose|a: Seq<char>| #[trigger] is_blank(a) && s == a + ("]"@ + rest);
        lemma_skip_gap(a, "]"@ + rest);
        lemma_tag("]"@, rest);
        assert(texts =~= Seq::empty());
    } else if texts.len() == 1 && is_item(s, texts[0], "]"@, rest) {
        lemma_item(s, texts[0], "]"@, rest);
        lemma_tag("]"@, rest);
        assert(texts =~= seq![texts[0]]);
    } else {
        let more = choose|more: Seq<char>|
            #[trigger] is_item(s, texts[0], ","@, more) && is_list_body(
                more,
                texts.skip(1),
                rest,
            );
        lemma_item(s, texts[0], ","@, more);
        lemma_not_bracket(","@ + more);
        lemma_tag(","@, more);
        lemma_list_body(more, texts.skip(1), rest);
        assert(texts =~= seq![texts[0]] + texts.skip(1));
    }
}

proof fn lemma_not_bracket(s: Seq<char>)
    requires
        s.len() > 0,
        s[0] != ']',
    ensures
        tag(Some(s), "]"@) is None,
{
    reveal_strlit("]");
    if "]"@.is_prefix_of(s) {
        assert("]"@[0] == s[0]);
    }
}

proof fn lemma_has_item(s: Seq<char>, sign: Seq<char>)
    requires
        tag(spaces(after_quoted(spaces(Some(s)))), sign) is Some,
    ensures
        is_item(
            s,
            quoted_text(spaces(Some(s))),
            sign,
            tag(spaces(after_quoted(spaces(Some(s)))), sign).unwrap(),
        ),
{
    let at = spaces(Some(s));
    let quoted = after_quoted(at);
    lemma_has_gap(Some(s));
    lemma_has_quoted(at);
    lemma_has_gap(quoted);
    lemma_has_tag(spaces(quoted), sign);
    assert(is_blank(gap(Some(s))) && is_blank(gap(quoted)));
}

proof fn lemma_has_list_body(s: Seq<char>)
    requires
        list_items(s) is Some,
    ensures
        is_list_body(s, list_items(s).unwrap().1, list_items(s).unwrap().0),
    decreases s.len(),
{
    let (rest, texts) = list_items(s).unwrap();
    let at = spaces(Some(s));
    let next = spaces(after_quoted(at));
    if tag(at, "]"@) is Some {
        lemma_has_gap(Some(s));
        lemma_has_tag(at, "]"@);
        assert(is_blank(gap(Some(s))));
    } else if tag(next, "]"@) is Some {
        lemma_has_item(s, "]"@);
    } else {
        lemma_has_item(s, ","@);
        lemma_item_is_shorter(s);
        let more = tag(next, ","@).unwrap();
        lemma_has_list_body(more);
        let others = list_items(more).unwrap().1;
        assert(texts == seq![quoted_text(at)] + others);
        assert(texts.skip(1) =~= others);
        assert(texts[0] == quoted_text(at));
        assert(is_item(s, texts[0], ","@, more) && is_list_body(more, texts.skip(1), rest));
    }
}

proof fn lemma_list(s: Seq<char>, texts: Seq<Seq<char>>, rest: Seq<char>)
    requires
        is_list(s, texts, rest),
    ensures
        after_list(Some(s)) == Some(rest),
        list_texts(Some(s)) == texts,
        is_plain(s),
{
    reveal_strlit("[");
    let body = choose|body: Seq<char>|
        #[trigger] is_list_body(body, texts, rest) && s == "["@ + body;
    lemma_tag("["@, body);
    lemma_list_body(body, texts, rest);
}

proof fn lemma_has_list(at: Cursor)
    requires
        after_list(at) is Some,
    ensures
        is_list(at.unwrap(), list_texts(at), after_list(at).unwrap()),
{
    lemma_has_tag(at, "["@);
    lemma_has_list_body(tag(at, "["@).unwrap());
}

proof fn lemma_time(s: Seq<char>, rest: Seq<char>)
    requires
        is_time(s, rest),
    ensures
        after_file_time(Some(s)) == Some(rest),
        is_plain(s),
{
    reveal(is_time);
    reveal_strlit("FileTime");
    reveal_strlit("seconds");
    reveal_strlit("nanos");
    let (g, seconds, nanos) = choose|g: Seq<Seq<char>>, seconds: Seq<char>, nanos: Seq<char>|
        #![trigger are_gaps(g, 9), is_number(seconds), is_number(nanos)]
        are_gaps(g, 9) && is_number(seconds) && is_number(nanos) && s == spaced_time(
            g,
            seconds,
            nanos,
            rest,
        );
    let end = spaced_close(g, 8, rest);
    let field2 = spaced_field("nanos"@, g, 6, nanos + end);
    let next = spaced_comma(g, 4, field2);
    let field1 = spaced_field("seconds"@, g, 2, seconds + next);
    lemma_close(g, 8, 9, rest);
    lemma_number(nanos, end);
    lemma_field("nanos"@, g, 6, 9, nanos + end);
    lemma_comma(g, 4, 9, field2);
    lemma_number(seconds, next);
    lemma_field("seconds"@, g, 2, 9, seconds + next);
    lemma_open(g, 0, 9, field1);
    lemma_tag("FileTime"@, spaced_open(g, 0, field1));
}

proof fn lemma_has_time(at: Cursor)
    requires
        after_file_time(at) is Some,
    ensures
        is_time(at.unwrap(), after_file_time(at).unwrap()),
{
    reveal(is_time);
    let head = tag(at, "FileTime"@);
    let fields = open_brace(head);
    let seconds = file_time_seconds(at);
    let end1 = after_number(seconds);
    let fields2 = comma(end1);
    let nanos = file_time_nanos(at);
    let end2 = after_number(nanos);
    lemma_has_tag(at, "FileTime"@);
    lemma_has_sign(head, "{"@);
    lemma_has_field(fields, "seconds"@);
    lemma_has_number(seconds);
    lemma_has_sign(end1, ","@);
    lemma_has_field(fields2, "nanos"@);
    lemma_has_number(nanos);
    lemma_has_close(end2);
    let g = seq![
        gap(head),
        inner_gap(head, "{"@),
        gap(tag(fields, "seconds"@)),
        inner_gap(tag(fields, "seconds"@), ":"@),
        gap(end1),
        inner_gap(end1, ","@),
        gap(tag(fields2, "nanos"@)),
        inner_gap(tag(fields2, "nanos"@), ":"@),
        gap(end2),
    ];
    assert(are_gaps(g, 9));
    assert(is_number(number_text(seconds)) && is_number(number_text(nanos)));
    assert(at.unwrap() == spaced_time(
        g,
        number_text(seconds),
        number_text(nanos),
        after_file_time(at).unwrap(),
    ));
}

proof fn lemma_stale_part(s: Seq<char>, path: Seq<char>, rest: Seq<char>)
    requires
        is_stale_part(s, path, rest),
    ensures
        ({
            let stale = field(comma(Some(s)), "stale"@);
            let time = field(comma(after_quoted(stale)), "stale_mtime"@);
            &&& quoted_text(stale) == path
            &&& close_brace(after_file_time(time)) == Some(rest)
        }),
{
    reveal_strlit("stale");
    reveal_strlit("stale_mtime");
    let (g, time) = choose|g: Seq<Seq<char>>, time: Seq<char>|
        #![trigger are_gaps(g, 9), is_time(time, spaced_close(g, 8, rest))]
        are_gaps(g, 9) && is_time(time, spaced_close(g, 8, rest)) && s == spaced_comma(
            g,
            0,
            spaced_field(
                "stale"@,
                g,
                2,
                shown_quoted(path, spaced_comma(g, 4, spaced_field("stale_mtime"@, g, 6, time))),
            ),
        );
    let field2 = spaced_field("stale_mtime"@, g, 6, time);
    let quoted = shown_quoted(path, spaced_comma(g, 4, field2));
    let field1 = spaced_field("stale"@, g, 2, quoted);
    lemma_close(g, 8, 9, rest);
    lemma_time(time, spaced_close(g, 8, rest));
    lemma_field("stale_mtime"@, g, 6, 9, time);
    lemma_comma(g, 4, 9, field2);
    lemma_quoted(path, spaced_comma(g, 4, field2));
    lemma_field("stale"@, g, 2, 9, quoted);
    lemma_comma(g, 0, 9, field1);
}

proof fn lemma_make_stale_part(
    g: Seq<Seq<char>>,
    s: Seq<char>,
    fields1: Seq<char>,
    path: Seq<char>,
    end1: Seq<char>,
    fields2: Seq<char>,
    time: Seq<char>,
    end2: Seq<char>,
    rest: Seq<char>,
)
    requires
        are_gaps(g, 9),
        is_quotable(path),
        s == g[0] + (","@ + (g[1] + fields1)),
        fields1 == "stale"@ + (g[2] + (":"@ + (g[3] + shown_quoted(path, end1)))),
        end1 == g[4] + (","@ + (g[5] + fields2)),
        fields2 == "stale_mtime"@ + (g[6] + (":"@ + (g[7] + time))),
        is_time(time, end2),
        end2 == g[8] + ("}"@ + rest),
    ensures
        is_stale_part(s, path, rest),
{
    assert(is_time(time, spaced_close(g, 8, rest)));
}

#[verifier::spinoff_prover]
proof fn lemma_has_stale_part(at: Cursor)
    requires
        close_brace(
            after_file_time(
                field(comma(after_quoted(field(comma(at), "stale"@))), "stale_mtime"@),
            ),
        ) is Some,
    ensures
        is_stale_part(
            at.unwrap(),
            quoted_text(field(comma(at), "stale"@)),
            close_brace(
                after_file_time(
                    field(comma(after_quoted(field(comma(at), "stale"@))), "stale_mtime"@),
                ),
            ).unwrap(),
        ),
{
    let fields1 = comma(at);
    let stale = field(fields1, "stale"@);
    let end1 = after_quoted(stale);
    let fields2 = comma(end1);
    let time = field(fields2, "stale_mtime"@);
    let end2 = after_file_time(time);
    lemma_has_close(end2);
    lemma_has_time(time);
    lemma_has_field(fields2, "stale_mtime"@);
    lemma_has_sign(end1, ","@);
    lemma_has_quoted(stale);
    lemma_has_field(fields1, "stale"@);
    lemma_has_sign(at, ","@);
    let named1 = tag(fields1, "stale"@);
    let named2 = tag(fields2, "stale_mtime"@);
    let g = seq![
        gap(at),
        inner_gap(at, ","@),
        gap(named1),
        inner_gap(named1, ":"@),
        gap(end1),
        inner_gap(end1, ","@),
        gap(named2),
        inner_gap(named2, ":"@),
        gap(end2),
    ];
    lemma_make_stale_part(
        g,
        at.unwrap(),
        fields1.unwrap(),
        quoted_text(stale),
        end1.unwrap(),
        fields2.unwrap(),
        time.unwrap(),
        end2.unwrap(),
        close_brace(end2).unwrap(),
    );
}

proof fn lemma_changed_file(s: Seq<char>, path: Seq<char>, rest: Seq<char>)
    requires
        is_changed_file(s, path, rest),
    ensures
        after_changed_file(Some(s)) == Some(rest),
        quoted_text(changed_file_stale(Some(s))) == path,
{
    reveal_strlit("reference");
    reveal_strlit("reference_mtime");
    let (g, reference, time, behind) = choose|
        g: Seq<Seq<char>>,
        reference: Seq<char>,
        time: Seq<char>,
        behind: Seq<char>,
    |
        {
            &&& #[trigger] are_gaps(g, 8)
            &&& #[trigger] is_quotable(reference)
            &&& #[trigger] is_time(time, behind)
            &&& is_stale_part(behind, path, rest)
            &&& s == "ChangedFile"@ + spaced_open(
                g,
                0,
                spaced_field(
                    "reference"@,
                    g,
                    2,
                    shown_quoted(
                        reference,
                        spaced_comma(g, 4, spaced_field("reference_mtime"@, g, 6, time)),
                    ),
                ),
            )
        };
    let field2 = spaced_field("reference_mtime"@, g, 6, time);
    let quoted1 = shown_quoted(reference, spaced_comma(g, 4, field2));
    let field1 = spaced_field("reference"@, g, 2, quoted1);
    lemma_stale_part(behind, path, rest);
    lemma_time(time, behind);
    lemma_field("reference_mtime"@, g, 6, 8, time);
    lemma_comma(g, 4, 8, field2);
    lemma_quoted(reference, spaced_comma(g, 4, field2));
    lemma_field("reference"@, g, 2, 8, quoted1);
    lemma_open(g, 0, 8, field1);
    lemma_tag("ChangedFile"@, spaced_open(g, 0, field1));
}

proof fn lemma_make_changed_file(
    g: Seq<Seq<char>>,
    s: Seq<char>,
    head: Seq<char>,
    fields1: Seq<char>,
    reference: Seq<char>,
    end1: Seq<char>,
    fields2: Seq<char>,
    time: Seq<char>,
    behind: Seq<char>,
    path: Seq<char>,
    rest: Seq<char>,
)
    requires
        are_gaps(g, 8),
        s == "ChangedFile"@ + head,
        head == g[0] + ("{"@ + (g[1] + fields1)),
        fields1 == "reference"@ + (g[2] + (":"@ + (g[3] + shown_quoted(reference, end1)))),
        is_quotable(reference),
        end1 == g[4] + (","@ + (g[5] + fields2)),
        fields2 == "reference_mtime"@ + (g[6] + (":"@ + (g[7] + time))),
        is_time(time, behind),
        is_stale_part(behind, path, rest),
    ensures
        is_changed_file(s, path, rest),
{
}

#[verifier::spinoff_prover]
proof fn lemma_has_changed_file(at: Cursor)
    requires
        after_changed_file(at) is Some,
    ensures
        is_changed_file(
            at.unwrap(),
            quoted_text(changed_file_stale(at)),
            after_changed_file(at).unwrap(),
        ),
{
    let head = tag(at, "ChangedFile"@);
    let fields1 = open_brace(head);
    let reference = field(fields1, "reference"@);
    let end1 = after_quoted(reference);
    let fields2 = comma(end1);
    let time = field(fields2, "reference_mtime"@);
    let end2 = after_file_time(time);
    lemma_has_stale_part(end2);
    lemma_has_time(time);
    lemma_has_field(fields2, "reference_mtime"@);
    lemma_has_sign(end1, ","@);
    lemma_has_quoted(reference);
    lemma_has_field(fields1, "reference"@);
    lemma_has_sign(head, "{"@);
    lemma_has_tag(at, "ChangedFile"@);
    let named1 = tag(fields1, "reference"@);
    let named2 = tag(fields2, "reference_mtime"@);
    let g = seq![
        gap(head),
        inner_gap(head, "{"@),
        gap(named1),
        inner_gap(named1, ":"@),
        gap(end1),
        inner_gap(end1, ","@),
        gap(named2),
        inner_gap(named2, ":"@),
    ];
    lemma_make_changed_file(
        g,
        at.unwrap(),
        head.unwrap(),
        fields1.unwrap(),
        quoted_text(reference),
        end1.unwrap(),
        fields2.unwrap(),
        time.unwrap(),
        end2.unwrap(),
        quoted_text(changed_file_stale(at)),
        after_changed_file(at).unwrap(),
    );
}

proof fn lemma_env_var(
    s: Seq<char>,
    name: Seq<char>,
    old_value: Option<Seq<char>>,
    new_value: Option<Seq<char>>,
    rest: Seq<char>,
)
    requires
        is_env_var_form(s, name, old_value, new_value, rest),
    ensures
        env_var_changed(s) == Some(
            (rest, RebuildReasonView::EnvVarChanged { name, old_value, new_value }),
        ),
{
    reveal_strlit("name");
    reveal_strlit("old_value");
    reveal_strlit("new_value");
    let g = choose|g: Seq<Seq<char>>| #[trigger]
        are_gaps(g, 13) && s == spaced_env_var(g, name, old_value, new_value, rest);
    let end = spaced_close(g, 12, rest);
    let option2 = shown_option(new_value, end);
    let field3 = spaced_field("new_value"@, g, 10, option2);
    let next2 = spaced_comma(g, 8, field3);
    let option1 = shown_option(old_value, next2);
    let field2 = spaced_field("old_value"@, g, 6, option1);
    let next1 = spaced_comma(g, 4, field2);
    let quoted = shown_quoted(name, next1);
    let field1 = spaced_field("name"@, g, 2, quoted);
    lemma_close(g, 12, 13, rest);
    lemma_option(new_value, end);
    lemma_field("new_value"@, g, 10, 13, option2);
    lemma_comma(g, 8, 13, field3);
    lemma_option(old_value, next2);
    lemma_field("old_value"@, g, 6, 13, option1);
    lemma_comma(g, 4, 13, field2);
    lemma_quoted(name, next1);
    lemma_field("name"@, g, 2, 13, quoted);
    lemma_open(g, 0, 13, field1);
    lemma_tag("EnvVarChanged"@, spaced_open(g, 0, field1));
}

#[verifier::spinoff_prover]
#[verifier::rlimit(40)]
proof fn lemma_has_env_var(s: Seq<char>)
    requires
        env_var_changed(s) is Some,
    ensures
        env_var_changed(s).unwrap().1 matches RebuildReasonView::EnvVarChanged {
            name,
            old_value,
            new_value,
        } && is_env_var_form(s, name, old_value, new_value, env_var_changed(s).unwrap().0),
{
    let head = tag(Some(s), "EnvVarChanged"@);
    let fields1 = open_brace(head);
    let name = field(fields1, "name"@);
    let end1 = after_quoted(name);
    let fields2 = comma(end1);
    let old_value = field(fields2, "old_value"@);
    let end2 = after_option(old_value);
    let fields3 = comma(end2);
    let new_value = field(fields3, "new_value"@);
    let end3 = after_option(new_value);
    lemma_has_close(end3);
    lemma_has_option(new_value);
    lemma_has_field(fields3, "new_value"@);
    lemma_has_sign(end2, ","@);
    lemma_has_option(old_value);
    lemma_has_field(fields2, "old_value"@);
    lemma_has_sign(end1, ","@);
    lemma_has_quoted(name);
    lemma_has_field(fields1, "name"@);
    lemma_has_sign(head, "{"@);
    lemma_has_tag(Some(s), "EnvVarChanged"@);
    let named1 = tag(fields1, "name"@);
    let named2 = tag(fields2, "old_value"@);
    let named3 = tag(fields3, "new_value"@);
    let g = seq![
        gap(head),
        inner_gap(head, "{"@),
        gap(named1),
        inner_gap(named1, ":"@),
        gap(end1),
        inner_gap(end1, ","@),
        gap(named2),
        inner_gap(named2, ":"@),
        gap(end2),
        inner_gap(end2, ","@),
        gap(named3),
        inner_gap(named3, ":"@),
        gap(end3),
    ];
    lemma_make_env_var(
        g,
        s,
        head.unwrap(),
        fields1.unwrap(),
        quoted_text(name),
        end1.unwrap(),
        fields2.unwrap(),
        option_text(old_value),
        end2.unwrap(),
        fields3.unwrap(),
        option_text(new_value),
        end3.unwrap(),
        close_brace(end3).unwrap(),
    );
}

proof fn lemma_make_env_var(
    g: Seq<Seq<char>>,
    s: Seq<char>,
    head: Seq<char>,
    fields1: Seq<char>,
    name: Seq<char>,
    end1: Seq<char>,
    fields2: Seq<char>,
    old_value: Option<Seq<char>>,
    end2: Seq<char>,
    fields3: Seq<char>,
    new_value: Option<Seq<char>>,
    end3: Seq<char>,
    rest: Seq<char>,
)
    requires
        are_gaps(g, 13),
        s == "EnvVarChanged"@ + head,
        head == g[0] + ("{"@ + (g[1] + fields1)),
        fields1 == "name"@ + (g[2] + (":"@ + (g[3] + shown_quoted(name, end1)))),
        is_quotable(name),
        end1 == g[4] + (","@ + (g[5] + fields2)),
        fields2 == "old_value"@ + (g[6] + (":"@ + (g[7] + shown_option(old_value, end2)))),
        is_quotable_option(old_value),
        end2 == g[8] + (","@ + (g[9] + fields3)),
        fields3 == "new_value"@ + (g[10] + (":"@ + (g[11] + shown_option(new_value, end3)))),
        is_quotable_option(new_value),
        end3 == g[12] + ("}"@ + rest),
    ensures
        is_env_var_form(s, name, old_value, new_value, rest),
{
}

proof fn lemma_dependency(
    s: Seq<char>,
    name: Seq<char>,
    old_fingerprint: Seq<char>,
    new_fingerprint: Seq<char>,
    rest: Seq<char>,
)
    requires
        is_dependency_form(s, name, old_fingerprint, new_fingerprint, rest),
    ensures
        unit_dependency_info_changed(s) == Some(
            (
                rest,
                RebuildReasonView::UnitDependencyInfoChanged {
                    name,
                    old_fingerprint,
                    new_fingerprint,
                    context: None,
                },
            ),
        ),
{
    reveal_strlit("old_name");
    reveal_strlit("old_fingerprint");
    reveal_strlit("new_name");
    reveal_strlit("new_fingerprint");
    let (g, new_name) = choose|g: Seq<Seq<char>>, new_name: Seq<char>|
        #![trigger are_gaps(g, 17), is_quotable(new_name)]
        are_gaps(g, 17) && is_quotable(new_name) && s == spaced_dependency(
            g,
            name,
            old_fingerprint,
            new_name,
            new_fingerprint,
            rest,
        );
    let end = spaced_close(g, 16, rest);
    let field4 = spaced_field("new_fingerprint"@, g, 14, new_fingerprint + end);
    let next3 = spaced_comma(g, 12, field4);
    let quoted2 = shown_quoted(new_name, next3);
    let field3 = spaced_field("new_name"@, g, 10, quoted2);
    let next2 = spaced_comma(g, 8, field3);
    let field2 = spaced_field("old_fingerprint"@, g, 6, old_fingerprint + next2);
    let next1 = spaced_comma(g, 4, field2);
    let quoted1 = shown_quoted(name, next1);
    let field1 = spaced_field("old_name"@, g, 2, quoted1);
    lemma_close(g, 16, 17, rest);
    lemma_number(new_fingerprint, end);
    lemma_field("new_fingerprint"@, g, 14, 17, new_fingerprint + end);
    lemma_comma(g, 12, 17, field4);
    lemma_quoted(new_name, next3);
    lemma_field("new_name"@, g, 10, 17, quoted2);
    lemma_comma(g, 8, 17, field3);
    lemma_number(old_fingerprint, next2);
    lemma_field("old_fingerprint"@, g, 6, 17, old_fingerprint + next2);
    lemma_comma(g, 4, 17, field2);
    lemma_quoted(name, next1);
    lemma_field("old_name"@, g, 2, 17, quoted1);
    lemma_open(g, 0, 17, field1);
    lemma_tag("UnitDependencyInfoChanged"@, spaced_open(g, 0, field1));
}

proof fn lemma_make_dependency(
    g: Seq<Seq<char>>,
    s: Seq<char>,
    head: Seq<char>,
    fields1: Seq<char>,
    name: Seq<char>,
    end1: Seq<char>,
    fields2: Seq<char>,
    old_fingerprint: Seq<char>,
    end2: Seq<char>,
    fields3: Seq<char>,
    new_name: Seq<char>,
    end3: Seq<char>,
    fields4: Seq<char>,
    new_fingerprint: Seq<char>,
    end4: Seq<char>,
    rest: Seq<char>,
)
    requires
        are_gaps(g, 17),
        s == "UnitDependencyInfoChanged"@ + head,
        head == g[0] + ("{"@ + (g[1] + fields1)),
        fields1 == "old_name"@ + (g[2] + (":"@ + (g[3] + shown_quoted(name, end1)))),
        is_quotable(name),
        end1 == g[4] + (","@ + (g[5] + fields2)),
        fields2 == "old_fingerprint"@ + (g[6] + (":"@ + (g[7] + (old_fingerprint + end2)))),
        is_number(old_fingerprint),
        end2 == g[8] + (","@ + (g[9] + fields3)),
        fields3 == "new_name"@ + (g[10] + (":"@ + (g[11] + shown_quoted(new_name, end3)))),
        is_quotable(new_name),
        end3 == g[12] + (","@ + (g[13] + fields4)),
        fields4 == "new_fingerprint"@ + (g[14] + (":"@ + (g[15] + (new_fingerprint + end4)))),
        is_number(new_fingerprint),
        end4 == g[16] + ("}"@ + rest),
    ensures
        is_dependency_form(s, name, old_fingerprint, new_fingerprint, rest),
{
}

#[verifier::spinoff_prover]
proof fn lemma_has_dependency(s: Seq<char>)
    requires
        unit_dependency_info_changed(s) is Some,
    ensures
        is_form_of(
            s,
            unit_dependency_info_changed(s).unwrap().1,
            unit_dependency_info_changed(s).unwrap().0,
        ),
{
    let head = tag(Some(s), "UnitDependencyInfoChanged"@);
    let fields1 = open_brace(head);
    let old_name = field(fields1, "old_name"@);
    let end1 = after_quoted(old_name);
    let fields2 = comma(end1);
    let old_fingerprint = field(fields2, "old_fingerprint"@);
    let end2 = after_number(old_fingerprint);
    let fields3 = comma(end2);
    let new_name = field(fields3, "new_name"@);
    let end3 = after_quoted(new_name);
    let fields4 = comma(end3);
    let new_fingerprint = field(fields4, "new_fingerprint"@);
    let end4 = after_number(new_fingerprint);
    lemma_has_close(end4);
    lemma_has_number(new_fingerprint);
    lemma_has_field(fields4, "new_fingerprint"@);
    lemma_has_sign(end3, ","@);
    lemma_has_quoted(new_name);
    lemma_has_field(fields3, "new_name"@);
    lemma_has_sign(end2, ","@);
    lemma_has_number(old_fingerprint);
    lemma_has_field(fields2, "old_fingerprint"@);
    lemma_has_sign(end1, ","@);
    lemma_has_quoted(old_name);
    lemma_has_field(fields1, "old_name"@);
    lemma_has_sign(head, "{"@);
    lemma_has_tag(Some(s), "UnitDependencyInfoChanged"@);
    let named1 = tag(fields1, "old_name"@);
    let named2 = tag(fields2, "old_fingerprint"@);
    let named3 = tag(fields3, "new_name"@);
    let named4 = tag(fields4, "new_fingerprint"@);
    let g = seq![
        gap(head),
        inner_gap(head, "{"@),
        gap(named1),
        inner_gap(named1, ":"@),
        gap(end1),
        inner_gap(end1, ","@),
        gap(named2),
        inner_gap(named2, ":"@),
        gap(end2),
        inner_gap(end2, ","@),
        gap(named3),
        inner_gap(named3, ":"@),
        gap(end3),
        inner_gap(end3, ","@),
        gap(named4),
        inner_gap(named4, ":"@),
        gap(end4),
    ];
    lemma_make_dependency(
        g,
        s,
        head.unwrap(),
        fields1.unwrap(),
        quoted_text(old_name),
        end1.unwrap(),
        fields2.unwrap(),
        number_text(old_fingerprint),
        end2.unwrap(),
        fields3.unwrap(),
        quoted_text(new_name),
        end3.unwrap(),
        fields4.unwrap(),
        number_text(new_fingerprint),
        end4.unwrap(),
        close_brace(end4).unwrap(),
    );
}

proof fn lemma_unit_index(s: Seq<char>, rest: Seq<char>)
    requires
        is_unit_index_form(s, rest),
    ensures
        unit_dependency_info_changed_unit_index(s) == Some(
            (
                rest,
                RebuildReasonView::UnitDependencyInfoChanged {
                    name: Seq::empty(),
                    old_fingerprint: Seq::empty(),
                    new_fingerprint: Seq::empty(),
                    context: None,
                },
            ),
        ),
{
    reveal_strlit("unit");
    reveal_strlit("UnitIndex");
    reveal_strlit(")");
    let (g, index) = choose|g: Seq<Seq<char>>, index: Seq<char>|
        #![trigger are_gaps(g, 5), is_number(index)]
        are_gaps(g, 5) && is_number(index) && s == spaced_unit_index(g, index, rest);
    let end = ")"@ + spaced_close(g, 4, rest);
    let value = "UnitIndex"@ + ("("@ + (index + end));
    let field1 = spaced_field("unit"@, g, 2, value);
    lemma_close(g, 4, 5, rest);
    lemma_tag(")"@, spaced_close(g, 4, rest));
    lemma_number(index, end);
    lemma_tag("("@, index + end);
    lemma_tag("UnitIndex"@, "("@ + (index + end));
    lemma_field("unit"@, g, 2, 5, value);
    lemma_open(g, 0, 5, field1);
    lemma_tag("UnitDependencyInfoChanged"@, spaced_open(g, 0, field1));
}

#[verifier::spinoff_prover]
proof fn lemma_has_unit_index(s: Seq<char>)
    requires
        unit_dependency_info_changed_unit_index(s) is Some,
    ensures
        is_unit_index_form(s, unit_dependency_info_changed_unit_index(s).unwrap().0),
{
    let head = tag(Some(s), "UnitDependencyInfoChanged"@);
    let fields = open_brace(head);
    let unit = field(fields, "unit"@);
    let bracket = tag(unit, "UnitIndex"@);
    let index = tag(bracket, "("@);
    let end = after_number(index);
    let last = tag(end, ")"@);
    lemma_has_close(last);
    lemma_has_tag(end, ")"@);
    lemma_has_number(index);
    lemma_has_tag(bracket, "("@);
    lemma_has_tag(unit, "UnitIndex"@);
    lemma_has_field(fields, "unit"@);
    lemma_has_sign(head, "{"@);
    lemma_has_tag(Some(s), "UnitDependencyInfoChanged"@);
    let named = tag(fields, "unit"@);
    let g = seq![
        gap(head),
        inner_gap(head, "{"@),
        gap(named),
        inner_gap(named, ":"@),
        gap(last),
    ];
    assert(are_gaps(g, 5));
    assert(is_number(number_text(index)));
    assert(s == spaced_unit_index(g, number_text(index), close_brace(last).unwrap()));
}

proof fn lemma_new_flags_part(s: Seq<char>, after: Seq<Seq<char>>, rest: Seq<char>)
    requires
        is_new_flags_part(s, after, rest),
    ensures
        list_texts(field(comma(Some(s)), "new"@)) == after,
        close_brace(after_list(field(comma(Some(s)), "new"@))) == Some(rest),
{
    reveal_strlit("new");
    let (g, list) = choose|g: Seq<Seq<char>>, list: Seq<char>|
        #![trigger are_gaps(g, 5), is_list(list, after, spaced_close(g, 4, rest))]
        are_gaps(g, 5) && is_list(list, after, spaced_close(g, 4, rest)) && s == spaced_comma(
            g,
            0,
            spaced_field("new"@, g, 2, list),
        );
    lemma_close(g, 4, 5, rest);
    lemma_list(list, after, spaced_close(g, 4, rest));
    lemma_field("new"@, g, 2, 5, list);
    lemma_comma(g, 0, 5, spaced_field("new"@, g, 2, list));
}

proof fn lemma_has_new_flags_part(at: Cursor)
    requires
        close_brace(after_list(field(comma(at), "new"@))) is Some,
    ensures
        is_new_flags_part(
            at.unwrap(),
            list_texts(field(comma(at), "new"@)),
            close_brace(after_list(field(comma(at), "new"@))).unwrap(),
        ),
{
    let fields = comma(at);
    let list = field(fields, "new"@);
    let end = after_list(list);
    lemma_has_close(end);
    lemma_has_list(list);
    lemma_has_field(fields, "new"@);
    lemma_has_sign(at, ","@);
    let named = tag(fields, "new"@);
    let g = seq![
        gap(at),
        inner_gap(at, ","@),
        gap(named),
        inner_gap(named, ":"@),
        gap(end),
    ];
    let rest = close_brace(end).unwrap();
    assert(are_gaps(g, 5));
    assert(end.unwrap() == spaced_close(g, 4, rest));
    assert(is_list(list.unwrap(), list_texts(list), spaced_close(g, 4, rest)));
}

proof fn lemma_rustflags(
    s: Seq<char>,
    before: Seq<Seq<char>>,
    after: Seq<Seq<char>>,
    rest: Seq<char>,
)
    requires
        is_rustflags_form(s, before, after, rest),
    ensures
        rustflags_changed(s) == Some(
            (rest, RebuildReasonView::RustflagsChanged { old: before, new: after }),
        ),
{
    reveal_strlit("old");
    let (g, list, behind) = choose|g: Seq<Seq<char>>, list: Seq<char>, behind: Seq<char>|
        #![trigger are_gaps(g, 4), is_list(list, before, behind)]
        are_gaps(g, 4) && is_list(list, before, behind) && is_new_flags_part(behind, after, rest)
            && s == "RustflagsChanged"@ + spaced_open(g, 0, spaced_field("old"@, g, 2, list));
    let field1 = spaced_field("old"@, g, 2, list);
    lemma_new_flags_part(behind, after, rest);
    lemma_list(list, before, behind);
    lemma_field("old"@, g, 2, 4, list);
    lemma_open(g, 0, 4, field1);
    lemma_tag("RustflagsChanged"@, spaced_open(g, 0, field1));
}

#[verifier::spinoff_prover]
proof fn lemma_has_rustflags(s: Seq<char>)
    requires
        rustflags_changed(s) is Some,
    ensures
        is_form_of(s, rustflags_changed(s).unwrap().1, rustflags_changed(s).unwrap().0),
{
    let head = tag(Some(s), "RustflagsChanged"@);
    let fields = open_brace(head);
    let list = field(fields, "old"@);
    let end = after_list(list);
    lemma_has_new_flags_part(end);
    lemma_has_list(list);
    lemma_has_field(fields, "old"@);
    lemma_has_sign(head, "{"@);
    lemma_has_tag(Some(s), "RustflagsChanged"@);
    let named = tag(fields, "old"@);
    let g = seq![gap(head), inner_gap(head, "{"@), gap(named), inner_gap(named, ":"@)];
    assert(are_gaps(g, 4));
    assert(is_list(list.unwrap(), list_texts(list), end.unwrap()));
    assert(s == "RustflagsChanged"@ + spaced_open(
        g,
        0,
        spaced_field("old"@, g, 2, list.unwrap()),
    ));
}

proof fn lemma_features(s: Seq<char>, before: Seq<char>, after: Seq<char>, rest: Seq<char>)
    requires
        is_features_form(s, before, after, rest),
    ensures
        features_changed(s) == Some(
            (rest, RebuildReasonView::FeaturesChanged { old: before, new: after }),
        ),
{
    reveal_strlit("old");
    reveal_strlit("new");
    let g = choose|g: Seq<Seq<char>>| #[trigger]
        are_gaps(g, 9) && s == spaced_features(g, before, after, rest);
    let end = spaced_close(g, 8, rest);
    let quoted2 = shown_quoted(after, end);
    let field2 = spaced_field("new"@, g, 6, quoted2);
    let next = spaced_comma(g, 4, field2);
    let quoted1 = shown_quoted(before, next);
    let field1 = spaced_field("old"@, g, 2, quoted1);
    lemma_close(g, 8, 9, rest);
    lemma_quoted(after, end);
    lemma_field("new"@, g, 6, 9, quoted2);
    lemma_comma(g, 4, 9, field2);
    lemma_quoted(before, next);
    lemma_field("old"@, g, 2, 9, quoted1);
    lemma_open(g, 0, 9, field1);
    lemma_tag("FeaturesChanged"@, spaced_open(g, 0, field1));
}

proof fn lemma_make_features(
    g: Seq<Seq<char>>,
    s: Seq<char>,
    head: Seq<char>,
    fields1: Seq<char>,
    before: Seq<char>,
    end1: Seq<char>,
    fields2: Seq<char>,
    after: Seq<char>,
    end2: Seq<char>,
    rest: Seq<char>,
)
    requires
        are_gaps(g, 9),
        s == "FeaturesChanged"@ + head,
        head == g[0] + ("{"@ + (g[1] + fields1)),
        fields1 == "old"@ + (g[2] + (":"@ + (g[3] + shown_quoted(before, end1)))),
        is_quotable(before),
        end1 == g[4] + (","@ + (g[5] + fields2)),
        fields2 == "new"@ + (g[6] + (":"@ + (g[7] + shown_quoted(after, end2)))),
        is_quotable(after),
        end2 == g[8] + ("}"@ + rest),
    ensures
        is_features_form(s, before, after, rest),
{
}

#[verifier::spinoff_prover]
proof fn lemma_has_features(s: Seq<char>)
    requires
        features_changed(s) is Some,
    ensures
        is_form_of(s, features_changed(s).unwrap().1, features_changed(s).unwrap().0),
{
    let head = tag(Some(s), "FeaturesChanged"@);
    let fields1 = open_brace(head);
    let before = field(fields1, "old"@);
    let end1 = after_quoted(before);
    let fields2 = comma(end1);
    let after = field(fields2, "new"@);
    let end2 = after_quoted(after);
    lemma_has_close(end2);
    lemma_has_quoted(after);
    lemma_has_field(fields2, "new"@);
    lemma_has_sign(end1, ","@);
    lemma_has_quoted(before);
    lemma_has_field(fields1, "old"@);
    lemma_has_sign(head, "{"@);
    lemma_has_tag(Some(s), "FeaturesChanged"@);
    let named1 = tag(fields1, "old"@);
    let named2 = tag(fields2, "new"@);
    let g = seq![
        gap(head),
        inner_gap(head, "{"@),
        gap(named1),
        inner_gap(named1, ":"@),
        gap(end1),
        inner_gap(end1, ","@),
        gap(named2),
        inner_gap(named2, ":"@),
        gap(end2),
    ];
    lemma_make_features(
        g,
        s,
        head.unwrap(),
        fields1.unwrap(),
        quoted_text(before),
        end1.unwrap(),
        fields2.unwrap(),
        quoted_text(after),
        end2.unwrap(),
        close_brace(end2).unwrap(),
    );
}

proof fn lemma_stale_dep(s: Seq<char>, name: Seq<char>, rest: Seq<char>)
    requires
        is_stale_dep_form(s, name, rest),
    ensures
        fs_status_outdated_stale_dep(s) == Some(
            (
                rest,
                RebuildReasonView::UnitDependencyInfoChanged {
                    name,
                    old_fingerprint: Seq::empty(),
                    new_fingerprint: Seq::empty(),
                    context: None,
                },
            ),
        ),
{
    reveal_strlit("name");
    let g = choose|g: Seq<Seq<char>>| #[trigger]
        are_gaps(g, 5) && s == spaced_stale_dep(g, name, rest);
    let end = spaced_close(g, 4, ")"@ + rest);
    let quoted = shown_quoted(name, end);
    let field1 = spaced_field("name"@, g, 2, quoted);
    let dep = "StaleDepFingerprint"@ + spaced_open(g, 0, field1);
    lemma_tag(")"@, rest);
    lemma_close(g, 4, 5, ")"@ + rest);
    lemma_quoted(name, end);
    lemma_field("name"@, g, 2, 5, quoted);
    lemma_open(g, 0, 5, field1);
    lemma_tag("StaleDepFingerprint"@, spaced_open(g, 0, field1));
    lemma_tag("("@, dep);
    lemma_tag("FsStatusOutdated"@, "("@ + dep);
}

#[verifier::spinoff_prover]
#[verifier::rlimit(40)]
proof fn lemma_has_stale_dep(s: Seq<char>)
    requires
        fs_status_outdated_stale_dep(s) is Some,
    ensures
        fs_status_outdated_stale_dep(s).unwrap().1
            matches RebuildReasonView::UnitDependencyInfoChanged {
            name,
            old_fingerprint,
            new_fingerprint,
            context,
        } && old_fingerprint.len() == 0 && new_fingerprint.len() == 0 && context is None
            && is_stale_dep_form(s, name, fs_status_outdated_stale_dep(s).unwrap().0),
{
    let head = tag(Some(s), "FsStatusOutdated"@);
    let inner = tag(head, "("@);
    let dep = tag(inner, "StaleDepFingerprint"@);
    let fields = open_brace(dep);
    let name = field(fields, "name"@);
    let end = after_quoted(name);
    let last = close_brace(end);
    lemma_has_tag(last, ")"@);
    lemma_has_close(end);
    lemma_has_quoted(name);
    lemma_has_field(fields, "name"@);
    lemma_has_sign(dep, "{"@);
    lemma_has_tag(inner, "StaleDepFingerprint"@);
    lemma_has_tag(head, "("@);
    lemma_has_tag(Some(s), "FsStatusOutdated"@);
    let named = tag(fields, "name"@);
    let g = seq![
        gap(dep),
        inner_gap(dep, "{"@),
        gap(named),
        inner_gap(named, ":"@),
        gap(end),
    ];
    lemma_make_stale_dep(
        g,
        s,
        head.unwrap(),
        inner.unwrap(),
        dep.unwrap(),
        fields.unwrap(),
        quoted_text(name),
        end.unwrap(),
        last.unwrap(),
        tag(last, ")"@).unwrap(),
    );
}

proof fn lemma_make_stale_dep(
    g: Seq<Seq<char>>,
    s: Seq<char>,
    head: Seq<char>,
    inner: Seq<char>,
    dep: Seq<char>,
    fields: Seq<char>,
    name: Seq<char>,
    end: Seq<char>,
    last: Seq<char>,
    rest: Seq<char>,
)
    requires
        are_gaps(g, 5),
        s == "FsStatusOutdated"@ + head,
        head == "("@ + inner,
        inner == "StaleDepFingerprint"@ + dep,
        dep == g[0] + ("{"@ + (g[1] + fields)),
        fields == "name"@ + (g[2] + (":"@ + (g[3] + shown_quoted(name, end)))),
        is_quotable(name),
        end == g[4] + ("}"@ + last),
        last == ")"@ + rest,
    ensures
        is_stale_dep_form(s, name, rest),
{
}

proof fn lemma_file(s: Seq<char>, path: Seq<char>, rest: Seq<char>)
    requires
        is_file_form(s, path, rest),
    ensures
        fs_status_outdated_changed_file(s) == Some(
            (rest, RebuildReasonView::FileChanged { path }),
        ),
{
    let file = choose|file: Seq<char>| #[trigger]
        is_changed_file(file, path, ")"@ + (")"@ + rest)) && s == "FsStatusOutdated"@ + ("("@ + (
        "StaleItem"@ + ("("@ + file)));
    lemma_changed_file(file, path, ")"@ + (")"@ + rest));
    lemma_tag(")"@, rest);
    lemma_tag(")"@, ")"@ + rest);
    lemma_tag("("@, file);
    lemma_tag("StaleItem"@, "("@ + file);
    lemma_tag("("@, "StaleItem"@ + ("("@ + file));
    lemma_tag("FsStatusOutdated"@, "("@ + ("StaleItem"@ + ("("@ + file)));
}

#[verifier::spinoff_prover]
#[verifier::rlimit(40)]
proof fn lemma_has_file(s: Seq<char>)
    requires
        fs_status_outdated_changed_file(s) is Some,
    ensures
        fs_status_outdated_changed_file(s).unwrap().1 matches RebuildReasonView::FileChanged {
            path,
        } && is_file_form(s, path, fs_status_outdated_changed_file(s).unwrap().0),
{
    let head = tag(Some(s), "FsStatusOutdated"@);
    let inner = tag(head, "("@);
    let item = tag(inner, "StaleItem"@);
    let file = tag(item, "("@);
    let end = after_changed_file(file);
    let last = tag(end, ")"@);
    lemma_has_tag(last, ")"@);
    lemma_has_tag(end, ")"@);
    lemma_has_changed_file(file);
    lemma_has_tag(item, "("@);
    lemma_has_tag(inner, "StaleItem"@);
    lemma_has_tag(head, "("@);
    lemma_has_tag(Some(s), "FsStatusOutdated"@);
    lemma_make_file(
        s,
        file.unwrap(),
        quoted_text(changed_file_stale(file)),
        end.unwrap(),
        tag(last, ")"@).unwrap(),
    );
}

proof fn lemma_make_file(
    s: Seq<char>,
    file: Seq<char>,
    path: Seq<char>,
    end: Seq<char>,
    rest: Seq<char>,
)
    requires
        is_changed_file(file, path, end),
        end == ")"@ + (")"@ + rest),
        s == "FsStatusOutdated"@ + ("("@ + ("StaleItem"@ + ("("@ + file))),
    ensures
        is_file_form(s, path, rest),
{
}

/// No text is taken by a form that comes before its own.
proof fn lemma_first_form(s: Seq<char>)
    ensures
        unit_dependency_info_changed(s) is Some ==> known_reason(s)
            == unit_dependency_info_changed(s),
        unit_dependency_info_changed_unit_index(s) is Some ==> known_reason(s)
            == unit_dependency_info_changed_unit_index(s),
        target_configuration_changed(s) is Some ==> known_reason(s)
            == target_configuration_changed(s),
        profile_configuration_changed(s) is Some ==> known_reason(s)
            == profile_configuration_changed(s),
        rustflags_changed(s) is Some ==> known_reason(s) == rustflags_changed(s),
        features_changed(s) is Some ==> known_reason(s) == features_changed(s),
        fs_status_outdated_stale_dep(s) is Some ==> known_reason(s)
            == fs_status_outdated_stale_dep(s),
        fs_status_outdated_changed_file(s) is Some ==> known_reason(s)
            == fs_status_outdated_changed_file(s),
{
    let empty = Seq::<char>::empty();
    assert(s + empty =~= s);
    lemma_one_name(s, empty);
    if unit_dependency_info_changed_unit_index(s) is Some {
        lemma_unit_index_with_more(s, empty);
    }
    if fs_status_outdated_changed_file(s) is Some {
        lemma_file_with_more(s, empty);
    }
}

proof fn lemma_form_is_known(s: Seq<char>, reason: RebuildReasonView, rest: Seq<char>)
    requires
        is_form_of(s, reason, rest),
    ensures
        known_reason(s) == Some((rest, reason)),
{
    lemma_first_form(s);
    match reason {
        RebuildReasonView::EnvVarChanged { name, old_value, new_value } => {
            lemma_env_var(s, name, old_value, new_value, rest);
        },
        RebuildReasonView::UnitDependencyInfoChanged {
            name,
            old_fingerprint,
            new_fingerprint,
            context,
        } => {
            if is_dependency_form(s, name, old_fingerprint, new_fingerprint, rest) {
                lemma_dependency(s, name, old_fingerprint, new_fingerprint, rest);
            } else {
                assert(old_fingerprint =~= Seq::empty());
                assert(new_fingerprint =~= Seq::empty());
                if is_stale_dep_form(s, name, rest) {
                    lemma_stale_dep(s, name, rest);
                } else {
                    assert(name =~= Seq::empty());
                    lemma_unit_index(s, rest);
                }
            }
        },
        RebuildReasonView::TargetConfigurationChanged => {
            lemma_tag("TargetConfigurationChanged"@, rest);
        },
        RebuildReasonView::ProfileConfigurationChanged => {
            lemma_tag("ProfileConfigurationChanged"@, rest);
        },
        RebuildReasonView::RustflagsChanged { old: before, new: after } => {
            lemma_rustflags(s, before, after, rest);
        },
        RebuildReasonView::FeaturesChanged { old: before, new: after } => {
            lemma_features(s, before, after, rest);
        },
        RebuildReasonView::FileChanged { path } => {
            lemma_file(s, path, rest);
        },
        RebuildReasonView::Unknown(_) => {},
    }
}

proof fn lemma_known_has_form(s: Seq<char>)
    requires
        known_reason(s) is Some,
    ensures
        is_form_of(s, known_reason(s).unwrap().1, known_reason(s).unwrap().0),
{
    if env_var_changed(s) is Some {
        lemma_has_env_var(s);
    } else if unit_dependency_info_changed(s) is Some {
        lemma_has_dependency(s);
    } else if unit_dependency_info_changed_unit_index(s) is Some {
        lemma_has_unit_index(s);
    } else if target_configuration_changed(s) is Some {
        lemma_has_tag(Some(s), "TargetConfigurationChanged"@);
    } else if profile_configuration_changed(s) is Some {
        lemma_has_tag(Some(s), "ProfileConfigurationChanged"@);
    } else if rustflags_changed(s) is Some {
        lemma_has_rustflags(s);
    } else if features_changed(s) is Some {
        lemma_has_features(s);
    } else if fs_status_outdated_stale_dep(s) is Some {
        lemma_has_stale_dep(s);
    } else {
        lemma_has_file(s);
    }
}

/// A text is recognised as a reason exactly if it is that reason in one of its
/// forms, with something behind it.
pub proof fn law_reasons_have_forms(s: Seq<char>, reason: RebuildReasonView, rest: Seq<char>)
    ensures
        known_reason(s) == Some((rest, reason)) <==> is_form_of(s, reason, rest),
{
    if is_form_of(s, reason, rest) {
        lemma_form_is_known(s, reason, rest);
    }
    if known_reason(s) == Some((rest, reason)) {
        lemma_known_has_form(s);
    }
}

/// What is read of a dirty unit is the reason whose form the text has, and
/// where it has none, the text itself without the white space round it.
pub proof fn law_reasons_of_dirty_units(s: Seq<char>, reason: RebuildReasonView, rest: Seq<char>)
    ensures
        is_form_of(s, reason, rest) ==> dirty_reason(s) == (rest, reason),
        (forall|r: RebuildReasonView, t: Seq<char>| !#[trigger] is_form_of(s, r, t))
            ==> dirty_reason(s) == (Seq::<char>::empty(), RebuildReasonView::Unknown(trim(s))),
{
    law_reasons_have_forms(s, reason, rest);
    if known_reason(s) is Some {
        lemma_known_has_form(s);
    }
}

} // verus!
