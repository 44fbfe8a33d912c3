//! Laws of the unit that a line of cargo's log is about.

use vstd::prelude::*;

use crate::fingerprint_parser::{line_package, line_package_id, line_target};
use crate::laws::reading::{
    is_first_mark, is_quotable, lemma_first_mark, lemma_quoted, shown_quoted,
};
use crate::text::{find, lemma_run_is, trim, CharClass};

verus! {

/// A unit is made of the package id and of the target, which are found apart.
pub proof fn law_unit_has_id_and_target(line: Seq<char>)
    ensures
        line_package(line).package_id == line_package_id(line),
        line_package(line).target == line_target(line),
{
}

/// A package id reaches up to the first ` target=` behind it, whatever it holds
/// before that, and the white space round it does not count.
pub proof fn law_id_up_to_the_target(head: Seq<char>, id: Seq<char>, tail: Seq<char>)
    requires
        is_first_mark(head, "package_id="@),
        is_first_mark(id, " target="@),
    ensures
        line_package_id(head + "package_id="@ + (id + " target="@ + tail)) == trim(id),
{
    let after_id = id + " target="@ + tail;
    lemma_first_mark(head, "package_id="@, after_id);
    lemma_first_mark(id, " target="@, tail);
    assert(after_id.take(id.len() as int) =~= id);
}

/// Where no ` target=` follows, a package id reaches up to the first closing
/// brace, or else to the end of the line.
pub proof fn law_id_up_to_the_brace(head: Seq<char>, id: Seq<char>, tail: Seq<char>)
    requires
        is_first_mark(head, "package_id="@),
        find(id + tail, " target="@) is None,
        !id.contains('}'),
        tail.len() > 0 ==> tail[0] == '}',
    ensures
        line_package_id(head + "package_id="@ + (id + tail)) == trim(id),
{
    let s = id + tail;
    lemma_first_mark(head, "package_id="@, s);
    assert forall|i: int| 0 <= i < id.len() implies CharClass::Except('}').has(
        #[trigger] s[i],
    ) by {
        assert(s[i] == id[i]);
        assert(id.contains(id[i]));
    }
    if tail.len() > 0 {
        assert(s[id.len() as int] == tail[0]);
    }
    lemma_run_is(s, CharClass::Except('}'), id.len() as int);
    assert(s.take(id.len() as int) =~= id);
}

/// A line without `package_id=` is about the package `unknown`, and one without
/// `target=` about no target.
pub proof fn law_missing_parts(line: Seq<char>)
    ensures
        find(line, "package_id="@) is None ==> line_package_id(line) == "unknown"@,
        find(line, "target="@) is None ==> line_target(line) is None,
{
}

/// A target in quotes reaches up to the closing quote. Without that there is no
/// target.
pub proof fn law_quoted_target(head: Seq<char>, target: Seq<char>, tail: Seq<char>)
    requires
        is_first_mark(head, "target="@),
        is_quotable(target),
    ensures
        line_target(head + "target="@ + shown_quoted(target, tail)) == Some(target),
        line_target(head + "target="@ + ("\""@ + target)) is None,
{
    let value = shown_quoted(target, tail);
    lemma_first_mark(head, "target="@, value);
    lemma_quoted(target, tail);
    let open = "\""@ + target;
    lemma_first_mark(head, "target="@, open);
    assert(value[0] == '"' && open[0] == '"') by {
        reveal_strlit("\"");
    }
    assert(open.skip(1) =~= target) by {
        reveal_strlit("\"");
    }
    assert(open.len() == target.len() + 1) by {
        reveal_strlit("\"");
    }
    assert forall|i: int| 0 <= i < target.len() implies CharClass::Except('"').has(
        #[trigger] target[i],
    ) by {
        assert(target.contains(target[i]));
    }
    lemma_run_is(target, CharClass::Except('"'), target.len() as int);
}

/// A target without quotes reaches up to a space, a closing brace, a colon or
/// the end of the line. There is none where nothing but white space is left.
pub proof fn law_bare_target(head: Seq<char>, value: Seq<char>, tail: Seq<char>)
    requires
        is_first_mark(head, "target="@),
        value.len() > 0 ==> value[0] != '"',
        forall|i: int|
            0 <= i < value.len() ==> #[trigger] value[i] != ' ' && value[i] != '}' && value[i]
                != ':',
        tail.len() > 0 ==> tail[0] == ' ' || tail[0] == '}' || tail[0] == ':',
    ensures
        trim(value).len() > 0 ==> line_target(head + "target="@ + (value + tail)) == Some(
            trim(value),
        ),
        trim(value).len() == 0 ==> line_target(head + "target="@ + (value + tail)) is None,
{
    let s = value + tail;
    lemma_first_mark(head, "target="@, s);
    assert forall|i: int| 0 <= i < value.len() implies CharClass::Bare.has(#[trigger] s[i]) by {
        assert(s[i] == value[i]);
    }
    if tail.len() > 0 {
        assert(s[value.len() as int] == tail[0]);
    }
    lemma_run_is(s, CharClass::Bare, value.len() as int);
    assert(s.take(value.len() as int) =~= value);
    if value.len() > 0 {
        assert(s[0] == value[0]);
    }
}

} // verus!
