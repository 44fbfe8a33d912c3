//! Parser for the lines that cargo logs about fingerprints.
//!
//! The grammar is stated first, over sequences of characters. The parsers
//! behind it read a slice of characters and give back what is left of it.

use vstd::prelude::*;

use crate::rebuild_graph::{PackageTarget, PackageTargetView};
use crate::rebuild_reason::{RebuildReason, RebuildReasonView};
use crate::text::{
    after_first, chars_of, find, find_after, find_text, run, run_len, skip_chars,
    starts_with_chars, string_of, take_chars, trim, trim_chars, trim_start, trim_start_chars,
    CharClass,
};

verus! {

/// What is left to read, or `None` from where the text did not fit on.
pub type Cursor = Option<Seq<char>>;

/// Behind the literal text `t`.
pub open spec fn tag(at: Cursor, t: Seq<char>) -> Cursor {
    match at {
        Some(s) => if t.is_prefix_of(s) {
            Some(s.skip(t.len() as int))
        } else {
            None
        },
        None => None,
    }
}

/// Behind any number of spaces and tabs.
pub open spec fn spaces(at: Cursor) -> Cursor {
    match at {
        Some(s) => Some(s.skip(run(s, CharClass::Blank) as int)),
        None => None,
    }
}

/// What stands between two double quotes. There is no way to escape a quote.
pub open spec fn quoted_text(at: Cursor) -> Seq<char> {
    let body = at.unwrap().skip(1);
    body.take(run(body, CharClass::Except('"')) as int)
}

/// Behind a text in double quotes.
pub open spec fn after_quoted(at: Cursor) -> Cursor {
    match at {
        Some(s) => if s.len() > 0 && s[0] == '"' && quoted_text(at).len() + 2 <= s.len() {
            Some(s.skip(quoted_text(at).len() as int + 2))
        } else {
            None
        },
        None => None,
    }
}

/// The decimal digits that stand there.
pub open spec fn number_text(at: Cursor) -> Seq<char> {
    at.unwrap().take(run(at.unwrap(), CharClass::Digit) as int)
}

/// Behind one or more decimal digits.
pub open spec fn after_number(at: Cursor) -> Cursor {
    match at {
        Some(s) => if number_text(at).len() > 0 {
            Some(s.skip(number_text(at).len() as int))
        } else {
            None
        },
        None => None,
    }
}

/// The text of `Some("...")`, or none for `None`.
pub open spec fn option_text(at: Cursor) -> Option<Seq<char>> {
    if tag(at, "None"@) is Some {
        None
    } else {
        Some(quoted_text(tag(at, "Some("@)))
    }
}

/// Behind `None` or `Some("...")`.
pub open spec fn after_option(at: Cursor) -> Cursor {
    if tag(at, "None"@) is Some {
        tag(at, "None"@)
    } else {
        tag(after_quoted(tag(at, "Some("@)), ")"@)
    }
}

/// Behind a comma, with blanks round it.
pub open spec fn comma(at: Cursor) -> Cursor {
    spaces(tag(spaces(at), ","@))
}

/// Behind an opening brace, with blanks round it.
pub open spec fn open_brace(at: Cursor) -> Cursor {
    spaces(tag(spaces(at), "{"@))
}

/// Behind a closing brace, with blanks before it.
pub open spec fn close_brace(at: Cursor) -> Cursor {
    tag(spaces(at), "}"@)
}

/// Behind the name of a field and its colon: where the field's value starts.
pub open spec fn field(at: Cursor, name: Seq<char>) -> Cursor {
    spaces(tag(spaces(tag(at, name)), ":"@))
}

/// The texts of a list from behind its opening bracket on, and what stands
/// behind the list. A comma may follow the last text.
pub open spec fn list_items(s: Seq<char>) -> Option<(Seq<char>, Seq<Seq<char>>)>
    decreases s.len(),
{
    let at = spaces(Some(s));
    let next = spaces(after_quoted(at));
    if tag(at, "]"@) is Some {
        Some((tag(at, "]"@).unwrap(), Seq::empty()))
    } else if tag(next, "]"@) is Some {
        Some((tag(next, "]"@).unwrap(), seq![quoted_text(at)]))
    } else {
        match tag(next, ","@) {
            Some(rest) => {
                proof {
                    lemma_item_is_shorter(s);
                }
                match list_items(rest) {
                    Some((end, texts)) => Some((end, seq![quoted_text(at)] + texts)),
                    None => None,
                }
            },
            None => None,
        }
    }
}

/// Behind a list of quoted texts in square brackets.
pub open spec fn after_list(at: Cursor) -> Cursor {
    match tag(at, "["@) {
        Some(s) => match list_items(s) {
            Some((end, _)) => Some(end),
            None => None,
        },
        None => None,
    }
}

/// The texts of such a list.
pub open spec fn list_texts(at: Cursor) -> Seq<Seq<char>> {
    list_items(tag(at, "["@).unwrap()).unwrap().1
}

/// A list gets shorter by every text that is read from it.
pub proof fn lemma_item_is_shorter(s: Seq<char>)
    ensures
        tag(spaces(after_quoted(spaces(Some(s)))), ","@) matches Some(rest) ==> rest.len() < s.len(),
{
    let t = spaces(Some(s)).unwrap();
    crate::text::lemma_run(s, CharClass::Blank);
    if let Some(u) = after_quoted(Some(t)) {
        crate::text::lemma_run(t.skip(1), CharClass::Except('"'));
        crate::text::lemma_run(u, CharClass::Blank);
    }
}

/// The model of what a parser left.
pub open spec fn cursor(rest: Option<&[char]>) -> Cursor {
    match rest {
        Some(s) => Some(s@),
        None => None,
    }
}

/// Reads a literal text.
fn parse_tag<'a>(input: &'a [char], t: &str) -> (rest: Option<&'a [char]>)
    ensures
        cursor(rest) == tag(Some(input@), t@),
{
    let literal: Vec<char> = chars_of(t);
    if starts_with_chars(input, literal.as_slice()) {
        Some(skip_chars(input, literal.len()))
    } else {
        None
    }
}

/// Reads spaces and tabs.
fn parse_spaces(input: &[char]) -> (rest: &[char])
    ensures
        Some(rest@) == spaces(Some(input@)),
{
    skip_chars(input, run_len(input, CharClass::Blank))
}

/// Reads a quoted string: `"hello world"`.
pub fn parse_quoted_string(input: &[char]) -> (parsed: Option<(&[char], String)>)
    ensures
        match parsed {
            Some((rest, text)) => {
                &&& after_quoted(Some(input@)) == Some(rest@)
                &&& text@ == quoted_text(Some(input@))
            },
            None => after_quoted(Some(input@)) is None,
        },
{
    if input.len() == 0 || input[0] != '"' {
        return None;
    }
    let body = skip_chars(input, 1);
    let n: usize = run_len(body, CharClass::Except('"'));
    if n == body.len() {
        return None;
    }
    Some((skip_chars(body, n + 1), string_of(take_chars(body, n))))
}

/// Reads a number, as its digits. Fingerprints and times are numbers.
pub fn parse_number(input: &[char]) -> (parsed: Option<(&[char], String)>)
    ensures
        match parsed {
            Some((rest, digits)) => {
                &&& after_number(Some(input@)) == Some(rest@)
                &&& digits@ == number_text(Some(input@))
            },
            None => after_number(Some(input@)) is None,
        },
{
    let n: usize = run_len(input, CharClass::Digit);
    if n == 0 {
        return None;
    }
    Some((skip_chars(input, n), string_of(take_chars(input, n))))
}

/// Reads an optional string: `Some("value")` or `None`.
pub fn parse_option_string(input: &[char]) -> (parsed: Option<(&[char], Option<String>)>)
    ensures
        match parsed {
            Some((rest, text)) => {
                &&& after_option(Some(input@)) == Some(rest@)
                &&& text.deep_view() == option_text(Some(input@))
            },
            None => after_option(Some(input@)) is None,
        },
{
    if let Some(rest) = parse_tag(input, "None") {
        return Some((rest, None));
    }
    let rest = parse_tag(input, "Some(")?;
    let (rest, text) = parse_quoted_string(rest)?;
    let rest = parse_tag(rest, ")")?;
    Some((rest, Some(text)))
}

/// Reads a comma with optional blanks round it.
pub fn parse_comma(input: &[char]) -> (rest: Option<&[char]>)
    ensures
        cursor(rest) == comma(Some(input@)),
{
    let rest = parse_tag(parse_spaces(input), ",")?;
    Some(parse_spaces(rest))
}

/// Reads an opening brace with optional blanks round it.
fn parse_open_brace(input: &[char]) -> (rest: Option<&[char]>)
    ensures
        cursor(rest) == open_brace(Some(input@)),
{
    let rest = parse_tag(parse_spaces(input), "{")?;
    Some(parse_spaces(rest))
}

/// Reads a closing brace with optional blanks before it.
fn parse_close_brace(input: &[char]) -> (rest: Option<&[char]>)
    ensures
        cursor(rest) == close_brace(Some(input@)),
{
    parse_tag(parse_spaces(input), "}")
}

/// Reads the name of a field and its colon.
fn parse_field<'a>(input: &'a [char], name: &str) -> (rest: Option<&'a [char]>)
    ensures
        cursor(rest) == field(Some(input@), name@),
{
    let rest = parse_tag(input, name)?;
    let rest = parse_tag(parse_spaces(rest), ":")?;
    Some(parse_spaces(rest))
}

/// `r` with `texts` put before its texts.
spec fn prepend(
    texts: Seq<Seq<char>>,
    r: Option<(Seq<char>, Seq<Seq<char>>)>,
) -> Option<(Seq<char>, Seq<Seq<char>>)> {
    match r {
        Some((end, more)) => Some((end, texts + more)),
        None => None,
    }
}

/// Reads a list of strings: `["--cfg", "test"]`.
pub fn parse_string_vec(input: &[char]) -> (parsed: Option<(&[char], Vec<String>)>)
    ensures
        match parsed {
            Some((rest, texts)) => {
                &&& after_list(Some(input@)) == Some(rest@)
                &&& texts.deep_view() == list_texts(Some(input@))
            },
            None => after_list(Some(input@)) is None,
        },
{
    let mut at: &[char] = parse_tag(input, "[")?;
    let ghost items = at@;
    let mut texts: Vec<String> = Vec::new();
    assert(texts.deep_view() =~= Seq::empty());
    assert(list_items(items) =~~= prepend(texts.deep_view(), list_items(at@)));
    loop
        invariant
            tag(Some(input@), "["@) == Some(items),
            list_items(items) == prepend(texts.deep_view(), list_items(at@)),
        decreases at@.len(),
    {
        proof {
            lemma_item_is_shorter(at@);
        }
        let ghost before = at@;
        let ghost old_texts = texts.deep_view();
        let item = parse_spaces(at);
        if let Some(rest) = parse_tag(item, "]") {
            assert(texts.deep_view() + Seq::<Seq<char>>::empty() =~= texts.deep_view());
            return Some((rest, texts));
        }
        let (rest, text) = parse_quoted_string(item)?;
        let ghost text_view = text@;
        texts.push(text);
        assert(texts.deep_view() =~= old_texts + seq![text_view]);
        let next = parse_spaces(rest);
        if let Some(rest) = parse_tag(next, "]") {
            return Some((rest, texts));
        }
        at = parse_tag(next, ",")?;
        proof {
            if let Some((end, more)) = list_items(at@) {
                assert(old_texts + (seq![text_view] + more) =~= old_texts + seq![text_view] + more);
            }
        }
    }
}

/// A reason together with what stands behind it, or `None` where the text has
/// another form.
pub type ReasonMatch = Option<(Seq<char>, RebuildReasonView)>;

/// The model of what a parser of reasons gives.
pub open spec fn reason_match(parsed: Option<(&[char], RebuildReason)>) -> ReasonMatch {
    match parsed {
        Some((rest, reason)) => Some((rest@, reason@)),
        None => None,
    }
}

/// `reason`, where the text fitted up to `end`.
pub open spec fn reason_up_to(end: Cursor, reason: RebuildReasonView) -> ReasonMatch {
    match end {
        Some(rest) => Some((rest, reason)),
        None => None,
    }
}

/// `EnvVarChanged { name: "CC", old_value: Some("gcc"), new_value: None }`
pub open spec fn env_var_changed(s: Seq<char>) -> ReasonMatch {
    let name = field(open_brace(tag(Some(s), "EnvVarChanged"@)), "name"@);
    let old_value = field(comma(after_quoted(name)), "old_value"@);
    let new_value = field(comma(after_option(old_value)), "new_value"@);
    reason_up_to(
        close_brace(after_option(new_value)),
        RebuildReasonView::EnvVarChanged {
            name: quoted_text(name),
            old_value: option_text(old_value),
            new_value: option_text(new_value),
        },
    )
}

/// Reads an `EnvVarChanged` reason.
pub fn parse_env_var_changed(input: &[char]) -> (parsed: Option<(&[char], RebuildReason)>)
    ensures
        reason_match(parsed) == env_var_changed(input@),
{
    let rest = parse_tag(input, "EnvVarChanged")?;
    let rest = parse_open_brace(rest)?;
    let rest = parse_field(rest, "name")?;
    let (rest, name) = parse_quoted_string(rest)?;
    let rest = parse_comma(rest)?;
    let rest = parse_field(rest, "old_value")?;
    let (rest, old_value) = parse_option_string(rest)?;
    let rest = parse_comma(rest)?;
    let rest = parse_field(rest, "new_value")?;
    let (rest, new_value) = parse_option_string(rest)?;
    let rest = parse_close_brace(rest)?;
    Some((rest, RebuildReason::EnvVarChanged { name, old_value, new_value }))
}

/// `UnitDependencyInfoChanged { old_name: "rusqlite", old_fingerprint: 123,
/// new_name: "rusqlite", new_fingerprint: 456 }`. The new name is not kept.
pub open spec fn unit_dependency_info_changed(s: Seq<char>) -> ReasonMatch {
    let old_name = field(open_brace(tag(Some(s), "UnitDependencyInfoChanged"@)), "old_name"@);
    let old_fingerprint = field(comma(after_quoted(old_name)), "old_fingerprint"@);
    let new_name = field(comma(after_number(old_fingerprint)), "new_name"@);
    let new_fingerprint = field(comma(after_quoted(new_name)), "new_fingerprint"@);
    reason_up_to(
        close_brace(after_number(new_fingerprint)),
        RebuildReasonView::UnitDependencyInfoChanged {
            name: quoted_text(old_name),
            old_fingerprint: number_text(old_fingerprint),
            new_fingerprint: number_text(new_fingerprint),
            context: None,
        },
    )
}

/// Reads a `UnitDependencyInfoChanged` reason that names the dependency.
pub fn parse_unit_dependency_info_changed(input: &[char]) -> (parsed: Option<
    (&[char], RebuildReason),
>)
    ensures
        reason_match(parsed) == unit_dependency_info_changed(input@),
{
    let rest = parse_tag(input, "UnitDependencyInfoChanged")?;
    let rest = parse_open_brace(rest)?;
    let rest = parse_field(rest, "old_name")?;
    let (rest, old_name) = parse_quoted_string(rest)?;
    let rest = parse_comma(rest)?;
    let rest = parse_field(rest, "old_fingerprint")?;
    let (rest, old_fingerprint) = parse_number(rest)?;
    let rest = parse_comma(rest)?;
    let rest = parse_field(rest, "new_name")?;
    let (rest, _new_name) = parse_quoted_string(rest)?;
    let rest = parse_comma(rest)?;
    let rest = parse_field(rest, "new_fingerprint")?;
    let (rest, new_fingerprint) = parse_number(rest)?;
    let rest = parse_close_brace(rest)?;
    Some(
        (
            rest,
            RebuildReason::UnitDependencyInfoChanged {
                name: old_name,
                old_fingerprint,
                new_fingerprint,
                context: None,
            },
        ),
    )
}

/// A dependency change of which nothing but the name is known.
pub open spec fn bare_dependency_change(name: Seq<char>) -> RebuildReasonView {
    RebuildReasonView::UnitDependencyInfoChanged {
        name,
        old_fingerprint: Seq::empty(),
        new_fingerprint: Seq::empty(),
        context: None,
    }
}

/// Such a dependency change.
fn dependency_change(name: String) -> (reason: RebuildReason)
    ensures
        reason@ == bare_dependency_change(name@),
{
    RebuildReason::UnitDependencyInfoChanged {
        name,
        old_fingerprint: String::new(),
        new_fingerprint: String::new(),
        context: None,
    }
}

/// `UnitDependencyInfoChanged { unit: UnitIndex(7) }`, the form of newer
/// cargos. The index says nothing without cargo's table of units, so the name
/// is left empty. The reason is still a dependency change and no root cause.
pub open spec fn unit_dependency_info_changed_unit_index(s: Seq<char>) -> ReasonMatch {
    let unit = field(open_brace(tag(Some(s), "UnitDependencyInfoChanged"@)), "unit"@);
    let index = tag(tag(unit, "UnitIndex"@), "("@);
    reason_up_to(
        close_brace(tag(after_number(index), ")"@)),
        bare_dependency_change(Seq::empty()),
    )
}

/// Reads a `UnitDependencyInfoChanged` reason that gives an index.
pub fn parse_unit_dependency_info_changed_unit_index(input: &[char]) -> (parsed: Option<
    (&[char], RebuildReason),
>)
    ensures
        reason_match(parsed) == unit_dependency_info_changed_unit_index(input@),
{
    let rest = parse_tag(input, "UnitDependencyInfoChanged")?;
    let rest = parse_open_brace(rest)?;
    let rest = parse_field(rest, "unit")?;
    let rest = parse_tag(rest, "UnitIndex")?;
    let rest = parse_tag(rest, "(")?;
    let (rest, _index) = parse_number(rest)?;
    let rest = parse_tag(rest, ")")?;
    let rest = parse_close_brace(rest)?;
    Some((rest, dependency_change(String::new())))
}

/// `TargetConfigurationChanged`
pub open spec fn target_configuration_changed(s: Seq<char>) -> ReasonMatch {
    reason_up_to(
        tag(Some(s), "TargetConfigurationChanged"@),
        RebuildReasonView::TargetConfigurationChanged,
    )
}

/// Reads a `TargetConfigurationChanged` reason.
pub fn parse_target_configuration_changed(input: &[char]) -> (parsed: Option<
    (&[char], RebuildReason),
>)
    ensures
        reason_match(parsed) == target_configuration_changed(input@),
{
    let rest = parse_tag(input, "TargetConfigurationChanged")?;
    Some((rest, RebuildReason::TargetConfigurationChanged))
}

/// `ProfileConfigurationChanged`
pub open spec fn profile_configuration_changed(s: Seq<char>) -> ReasonMatch {
    reason_up_to(
        tag(Some(s), "ProfileConfigurationChanged"@),
        RebuildReasonView::ProfileConfigurationChanged,
    )
}

/// Reads a `ProfileConfigurationChanged` reason.
pub fn parse_profile_configuration_changed(input: &[char]) -> (parsed: Option<
    (&[char], RebuildReason),
>)
    ensures
        reason_match(parsed) == profile_configuration_changed(input@),
{
    let rest = parse_tag(input, "ProfileConfigurationChanged")?;
    Some((rest, RebuildReason::ProfileConfigurationChanged))
}

/// `RustflagsChanged { old: [], new: ["-C", "opt-level=3"] }`
pub open spec fn rustflags_changed(s: Seq<char>) -> ReasonMatch {
    let old = field(open_brace(tag(Some(s), "RustflagsChanged"@)), "old"@);
    let new = field(comma(after_list(old)), "new"@);
    reason_up_to(
        close_brace(after_list(new)),
        RebuildReasonView::RustflagsChanged { old: list_texts(old), new: list_texts(new) },
    )
}

/// Reads a `RustflagsChanged` reason.
pub fn parse_rustflags_changed(input: &[char]) -> (parsed: Option<(&[char], RebuildReason)>)
    ensures
        reason_match(parsed) == rustflags_changed(input@),
{
    let rest = parse_tag(input, "RustflagsChanged")?;
    let rest = parse_open_brace(rest)?;
    let rest = parse_field(rest, "old")?;
    let (rest, old_flags) = parse_string_vec(rest)?;
    let rest = parse_comma(rest)?;
    let rest = parse_field(rest, "new")?;
    let (rest, new_flags) = parse_string_vec(rest)?;
    let rest = parse_close_brace(rest)?;
    Some((rest, RebuildReason::RustflagsChanged { old: old_flags, new: new_flags }))
}

/// `FeaturesChanged { old: "default", new: "default,serde" }`
pub open spec fn features_changed(s: Seq<char>) -> ReasonMatch {
    let old = field(open_brace(tag(Some(s), "FeaturesChanged"@)), "old"@);
    let new = field(comma(after_quoted(old)), "new"@);
    reason_up_to(
        close_brace(after_quoted(new)),
        RebuildReasonView::FeaturesChanged { old: quoted_text(old), new: quoted_text(new) },
    )
}

/// Reads a `FeaturesChanged` reason.
pub fn parse_features_changed(input: &[char]) -> (parsed: Option<(&[char], RebuildReason)>)
    ensures
        reason_match(parsed) == features_changed(input@),
{
    let rest = parse_tag(input, "FeaturesChanged")?;
    let rest = parse_open_brace(rest)?;
    let rest = parse_field(rest, "old")?;
    let (rest, old_features) = parse_quoted_string(rest)?;
    let rest = parse_comma(rest)?;
    let rest = parse_field(rest, "new")?;
    let (rest, new_features) = parse_quoted_string(rest)?;
    let rest = parse_close_brace(rest)?;
    Some((rest, RebuildReason::FeaturesChanged { old: old_features, new: new_features }))
}

/// The value of `seconds` in `FileTime { seconds: 123, nanos: 456 }`.
pub open spec fn file_time_seconds(at: Cursor) -> Cursor {
    field(open_brace(tag(at, "FileTime"@)), "seconds"@)
}

/// The value of `nanos` there.
pub open spec fn file_time_nanos(at: Cursor) -> Cursor {
    field(comma(after_number(file_time_seconds(at))), "nanos"@)
}

/// Behind `FileTime { seconds: 123, nanos: 456 }`.
pub open spec fn after_file_time(at: Cursor) -> Cursor {
    close_brace(after_number(file_time_nanos(at)))
}

/// Reads a time: its seconds and its nanoseconds.
pub fn parse_file_time(input: &[char]) -> (parsed: Option<(&[char], (String, String))>)
    ensures
        match parsed {
            Some((rest, (seconds, nanos))) => {
                &&& after_file_time(Some(input@)) == Some(rest@)
                &&& seconds@ == number_text(file_time_seconds(Some(input@)))
                &&& nanos@ == number_text(file_time_nanos(Some(input@)))
            },
            None => after_file_time(Some(input@)) is None,
        },
{
    let rest = parse_tag(input, "FileTime")?;
    let rest = parse_open_brace(rest)?;
    let rest = parse_field(rest, "seconds")?;
    let (rest, seconds) = parse_number(rest)?;
    let rest = parse_comma(rest)?;
    let rest = parse_field(rest, "nanos")?;
    let (rest, nanos) = parse_number(rest)?;
    let rest = parse_close_brace(rest)?;
    Some((rest, (seconds, nanos)))
}

/// The value of `stale` in `ChangedFile { reference: "...", reference_mtime:
/// FileTime { ... }, stale: "...", stale_mtime: FileTime { ... } }`.
pub open spec fn changed_file_stale(at: Cursor) -> Cursor {
    let reference = field(open_brace(tag(at, "ChangedFile"@)), "reference"@);
    let reference_mtime = field(comma(after_quoted(reference)), "reference_mtime"@);
    field(comma(after_file_time(reference_mtime)), "stale"@)
}

/// Behind such a `ChangedFile`.
pub open spec fn after_changed_file(at: Cursor) -> Cursor {
    let stale_mtime = field(comma(after_quoted(changed_file_stale(at))), "stale_mtime"@);
    close_brace(after_file_time(stale_mtime))
}

/// Reads a changed file: the path of the stale file.
pub fn parse_changed_file(input: &[char]) -> (parsed: Option<(&[char], String)>)
    ensures
        match parsed {
            Some((rest, path)) => {
                &&& after_changed_file(Some(input@)) == Some(rest@)
                &&& path@ == quoted_text(changed_file_stale(Some(input@)))
            },
            None => after_changed_file(Some(input@)) is None,
        },
{
    let rest = parse_tag(input, "ChangedFile")?;
    let rest = parse_open_brace(rest)?;
    let rest = parse_field(rest, "reference")?;
    let (rest, _reference) = parse_quoted_string(rest)?;
    let rest = parse_comma(rest)?;
    let rest = parse_field(rest, "reference_mtime")?;
    let (rest, _reference_mtime) = parse_file_time(rest)?;
    let rest = parse_comma(rest)?;
    let rest = parse_field(rest, "stale")?;
    let (rest, stale_path) = parse_quoted_string(rest)?;
    let rest = parse_comma(rest)?;
    let rest = parse_field(rest, "stale_mtime")?;
    let (rest, _stale_mtime) = parse_file_time(rest)?;
    let rest = parse_close_brace(rest)?;
    Some((rest, stale_path))
}

/// `FsStatusOutdated(StaleItem(ChangedFile { ... }))`
pub open spec fn fs_status_outdated_changed_file(s: Seq<char>) -> ReasonMatch {
    let file = tag(tag(tag(tag(Some(s), "FsStatusOutdated"@), "("@), "StaleItem"@), "("@);
    reason_up_to(
        tag(tag(after_changed_file(file), ")"@), ")"@),
        RebuildReasonView::FileChanged { path: quoted_text(changed_file_stale(file)) },
    )
}

/// Reads an `FsStatusOutdated` reason about a changed file.
pub fn parse_fs_status_outdated_changed_file(input: &[char]) -> (parsed: Option<
    (&[char], RebuildReason),
>)
    ensures
        reason_match(parsed) == fs_status_outdated_changed_file(input@),
{
    let rest = parse_tag(input, "FsStatusOutdated")?;
    let rest = parse_tag(rest, "(")?;
    let rest = parse_tag(rest, "StaleItem")?;
    let rest = parse_tag(rest, "(")?;
    let (rest, path) = parse_changed_file(rest)?;
    let rest = parse_tag(rest, ")")?;
    let rest = parse_tag(rest, ")")?;
    Some((rest, RebuildReason::FileChanged { path }))
}

/// `FsStatusOutdated(StaleDepFingerprint { name: "..." })`
pub open spec fn fs_status_outdated_stale_dep(s: Seq<char>) -> ReasonMatch {
    let dep = tag(tag(tag(Some(s), "FsStatusOutdated"@), "("@), "StaleDepFingerprint"@);
    let name = field(open_brace(dep), "name"@);
    reason_up_to(
        tag(close_brace(after_quoted(name)), ")"@),
        bare_dependency_change(quoted_text(name)),
    )
}

/// Reads an `FsStatusOutdated` reason about a dependency.
pub fn parse_fs_status_outdated_stale_dep(input: &[char]) -> (parsed: Option<
    (&[char], RebuildReason),
>)
    ensures
        reason_match(parsed) == fs_status_outdated_stale_dep(input@),
{
    let rest = parse_tag(input, "FsStatusOutdated")?;
    let rest = parse_tag(rest, "(")?;
    let rest = parse_tag(rest, "StaleDepFingerprint")?;
    let rest = parse_open_brace(rest)?;
    let rest = parse_field(rest, "name")?;
    let (rest, name) = parse_quoted_string(rest)?;
    let rest = parse_close_brace(rest)?;
    let rest = parse_tag(rest, ")")?;
    Some((rest, dependency_change(name)))
}

/// The first of two forms that fits.
pub open spec fn or_else(first: ReasonMatch, second: ReasonMatch) -> ReasonMatch {
    if first is Some {
        first
    } else {
        second
    }
}

/// The first of the known forms that `s` starts with.
pub open spec fn known_reason(s: Seq<char>) -> ReasonMatch {
    or_else(
        env_var_changed(s),
        or_else(
            unit_dependency_info_changed(s),
            or_else(
                unit_dependency_info_changed_unit_index(s),
                or_else(
                    target_configuration_changed(s),
                    or_else(
                        profile_configuration_changed(s),
                        or_else(
                            rustflags_changed(s),
                            or_else(
                                features_changed(s),
                                or_else(
                                    fs_status_outdated_stale_dep(s),
                                    fs_status_outdated_changed_file(s),
                                ),
                            ),
                        ),
                    ),
                ),
            ),
        ),
    )
}

/// The reason that `s` starts with, and what stands behind it. A text of no
/// known form is kept whole, without the white space round it.
pub open spec fn dirty_reason(s: Seq<char>) -> (Seq<char>, RebuildReasonView) {
    match known_reason(s) {
        Some(found) => found,
        None => (Seq::empty(), RebuildReasonView::Unknown(trim(s))),
    }
}

/// Keeps a text of no known form.
pub fn parse_unknown_reason(input: &[char]) -> (parsed: (&[char], RebuildReason))
    ensures
        parsed.0@ == Seq::<char>::empty(),
        parsed.1@ == RebuildReasonView::Unknown(trim(input@)),
{
    (take_chars(input, 0), RebuildReason::Unknown(string_of(trim_chars(input))))
}

/// Reads a reason of any form.
pub fn parse_dirty_reason_content(input: &[char]) -> (parsed: (&[char], RebuildReason))
    ensures
        (parsed.0@, parsed.1@) == dirty_reason(input@),
{
    if let Some(found) = parse_env_var_changed(input) {
        return found;
    }
    if let Some(found) = parse_unit_dependency_info_changed(input) {
        return found;
    }
    if let Some(found) = parse_unit_dependency_info_changed_unit_index(input) {
        return found;
    }
    if let Some(found) = parse_target_configuration_changed(input) {
        return found;
    }
    if let Some(found) = parse_profile_configuration_changed(input) {
        return found;
    }
    if let Some(found) = parse_rustflags_changed(input) {
        return found;
    }
    if let Some(found) = parse_features_changed(input) {
        return found;
    }
    if let Some(found) = parse_fs_status_outdated_stale_dep(input) {
        return found;
    }
    if let Some(found) = parse_fs_status_outdated_changed_file(input) {
        return found;
    }
    parse_unknown_reason(input)
}

/// The reason that a log line gives: what is said behind its first `dirty:`.
/// A line without that marker gives none.
pub open spec fn line_reason(line: Seq<char>) -> Option<RebuildReasonView> {
    match after_first(line, "dirty:"@) {
        Some(s) => Some(dirty_reason(trim_start(s)).1),
        None => None,
    }
}

/// The model of an optional reason.
pub open spec fn option_reason(reason: Option<RebuildReason>) -> Option<RebuildReasonView> {
    match reason {
        Some(r) => Some(r@),
        None => None,
    }
}

/// Reads the reason in a line of cargo's log. Lines without `dirty:` are
/// passed over, the `stale: changed` lines among them: what these say, a
/// `dirty: FsStatusOutdated` line says again and with the right package.
#[must_use]
pub fn parse_rebuild_reason(input: &str) -> (reason: Option<RebuildReason>)
    ensures
        option_reason(reason) == line_reason(input@),
{
    let line: Vec<char> = chars_of(input);
    let content = find_after(line.as_slice(), "dirty:")?;
    Some(parse_dirty_reason_content(trim_start_chars(content)).1)
}

/// A rebuild that a log line reports: the unit and the reason.
#[derive(Debug)]
pub struct ParsedRebuildEntry {
    pub package: PackageTarget,
    pub reason: RebuildReason,
}

impl ParsedRebuildEntry {
    /// Makes an entry.
    #[must_use]
    pub fn new(package: PackageTarget, reason: RebuildReason) -> (entry: Self)
        ensures
            entry.package == package,
            entry.reason == reason,
    {
        ParsedRebuildEntry { package, reason }
    }
}

impl Clone for ParsedRebuildEntry {
    fn clone(&self) -> (copy: Self)
        ensures
            copy.package@ == self.package@,
            copy.reason@ == self.reason@,
    {
        ParsedRebuildEntry { package: self.package.clone(), reason: self.reason.clone() }
    }
}

/// The package id in a log line: what stands behind the first `package_id=`,
/// up to ` target=` or else to a closing brace or else to the end, without the
/// white space round it. It is `unknown` where there is no such field.
pub open spec fn line_package_id(line: Seq<char>) -> Seq<char> {
    match after_first(line, "package_id="@) {
        Some(s) => {
            let end = match find(s, " target="@) {
                Some(i) => i,
                None => run(s, CharClass::Except('}')) as int,
            };
            trim(s.take(end))
        },
        None => "unknown"@,
    }
}

/// The target in a log line: what stands behind the first `target=`. In quotes
/// it reaches to the closing quote, and there is none without that quote. Else
/// it reaches to a space, a closing brace, a colon or the end, and there is
/// none where nothing but white space is left.
pub open spec fn line_target(line: Seq<char>) -> Option<Seq<char>> {
    match after_first(line, "target="@) {
        Some(s) => if s.len() > 0 && s[0] == '"' {
            if after_quoted(Some(s)) is Some {
                Some(quoted_text(Some(s)))
            } else {
                None
            }
        } else {
            let value = trim(s.take(run(s, CharClass::Bare) as int));
            if value.len() == 0 {
                None
            } else {
                Some(value)
            }
        },
        None => None,
    }
}

/// The compilation unit that a log line is about.
pub open spec fn line_package(line: Seq<char>) -> PackageTargetView {
    PackageTargetView { package_id: line_package_id(line), target: line_target(line) }
}

fn package_id_of_line(line: &[char]) -> (package_id: String)
    ensures
        package_id@ == line_package_id(line@),
{
    match find_after(line, "package_id=") {
        Some(s) => {
            let end: usize = match find_text(s, " target=") {
                Some(i) => i,
                None => run_len(s, CharClass::Except('}')),
            };
            string_of(trim_chars(take_chars(s, end)))
        },
        None => "unknown".to_owned(),
    }
}

fn target_of_line(line: &[char]) -> (target: Option<String>)
    ensures
        target.deep_view() == line_target(line@),
{
    let s = find_after(line, "target=")?;
    if s.len() > 0 && s[0] == '"' {
        return match parse_quoted_string(s) {
            Some((_, text)) => Some(text),
            None => None,
        };
    }
    let value = trim_chars(take_chars(s, run_len(s, CharClass::Bare)));
    if value.len() == 0 {
        None
    } else {
        Some(string_of(value))
    }
}

/// Finds the compilation unit in a log line such as `prepare_target{force=false
/// package_id=libz-sys v1.1.23 target="build-script-build"}`.
pub fn extract_package_context(line: &str) -> (package: PackageTarget)
    ensures
        package@ == line_package(line@),
{
    let chars: Vec<char> = chars_of(line);
    let package_id: String = package_id_of_line(chars.as_slice());
    PackageTarget::new(package_id.as_str(), target_of_line(chars.as_slice()))
}

/// Reads a line of cargo's log: the reason and the unit that it is about.
#[must_use]
pub fn parse_rebuild_entry(input: &str) -> (entry: Option<ParsedRebuildEntry>)
    ensures
        match entry {
            Some(e) => {
                &&& line_reason(input@) == Some(e.reason@)
                &&& line_package(input@) == e.package@
            },
            None => line_reason(input@) is None,
        },
{
    let reason = parse_rebuild_reason(input)?;
    let package = extract_package_context(input);
    Some(ParsedRebuildEntry::new(package, reason))
}

} // verus!
