//! Laws of texts: of their parts, and of their order.

use vstd::prelude::*;

use crate::analyzer_error::AnalyzerError;
use crate::text::{
    after_first, find, first_word, is_white_space, joined, last_components, lemma_find,
    lemma_run_back, lemma_run_back_is, lemma_run_is, run_back, trim, trim_start, CharClass,
};
use crate::text_order::{before, is_sorted_set_of, lemma_before_irreflexive};

verus! {

/// A shortened path is the end of the path. A path with less than two slashes
/// is not shortened; any other is shortened to what stands behind a slash and
/// holds one slash itself.
pub proof fn law_last_two_components(path: Seq<char>)
    ensures
        ({
            let short = last_components(path);
            let cut = path.len() - short.len();
            &&& cut >= 0
            &&& short == path.skip(cut)
            &&& forall|i: int, j: int|
                0 <= i < j < short.len() && short[i] == '/' ==> short[j] != '/'
            &&& cut > 0 ==> path[cut - 1] == '/' && short.contains('/')
        }),
{
    let class = CharClass::Except('/');
    let last = run_back(path, class) as int;
    lemma_run_back(path, class);
    let short = last_components(path);
    if last == path.len() {
        assert(short =~= path.skip(0));
        assert forall|i: int| 0 <= i < short.len() implies short[i] != '/' by {
            assert(class.has(path[i]));
        }
    } else {
        let dir = path.take(path.len() - last - 1);
        let n = run_back(dir, class) as int;
        lemma_run_back(dir, class);
        let cut = dir.len() - n;
        assert(path[path.len() - last - 1] == '/');
        assert(short == path.skip(cut));
        assert(short[n] == '/');
        assert forall|i: int| 0 <= i < short.len() && i != n implies short[i] != '/' by {
            if i < n {
                assert(short[i] == dir[cut + i]);
                assert(class.has(dir[cut + i]));
            } else {
                assert(short[i] == path[cut + i]);
                assert(class.has(path[cut + i]));
            }
        }
        if cut > 0 {
            assert(dir[cut - 1] == path[cut - 1]);
        }
    }
}

/// What belongs to each class of characters.
pub proof fn law_character_classes(c: char, x: char)
    ensures
        CharClass::Blank.has(c) <==> c == ' ' || c == '\t',
        CharClass::Digit.has(c) <==> '0' <= c <= '9',
        CharClass::HexDigit.has(c) <==> '0' <= c <= '9' || 'a' <= c <= 'f' || 'A' <= c <= 'F',
        CharClass::Whitespace.has(c) <==> is_white_space(c),
        CharClass::NonWhitespace.has(c) <==> !is_white_space(c),
        CharClass::Except(x).has(c) <==> c != x,
        CharClass::Bare.has(c) <==> c != ' ' && c != '}' && c != ':',
{
}

/// White space is what Unicode calls so.
pub proof fn law_white_space(c: char)
    ensures
        is_white_space(c) <==> {
            ||| c == '\t' || c == '\n' || c == '\u{b}' || c == '\u{c}' || c == '\r' || c == ' '
            ||| c == '\u{85}' || c == '\u{a0}' || c == '\u{1680}'
            ||| '\u{2000}' <= c <= '\u{200a}'
            ||| c == '\u{2028}' || c == '\u{2029}' || c == '\u{202f}' || c == '\u{205f}'
            ||| c == '\u{3000}'
        },
{
}

/// Whether a text is made of white space alone.
pub open spec fn is_white(s: Seq<char>) -> bool {
    forall|i: int| 0 <= i < s.len() ==> is_white_space(#[trigger] s[i])
}

/// A text with white space round it is trimmed to that text, whatever it holds
/// inside, and nothing is left of white space alone.
pub proof fn law_trimming(before: Seq<char>, text: Seq<char>, after: Seq<char>)
    requires
        is_white(before),
        is_white(after),
        text.len() > 0 ==> !is_white_space(text[0]) && !is_white_space(text.last()),
    ensures
        trim(before + text + after) == text,
        text.len() > 0 ==> trim_start(before + text + after) == text + after,
        trim_start(before) == Seq::<char>::empty(),
{
    let s = before + text + after;
    lemma_run_is(before, CharClass::Whitespace, before.len() as int);
    assert(trim_start(before) =~= Seq::empty());
    if text.len() > 0 {
        assert(s[before.len() as int] == text[0]);
        lemma_run_is(s, CharClass::Whitespace, before.len() as int);
        let t = text + after;
        assert(trim_start(s) =~= t);
        assert forall|i: int| t.len() - after.len() <= i < t.len() implies is_white_space(
            #[trigger] t[i],
        ) by {
            assert(t[i] == after[i - text.len()]);
        }
        assert(t[text.len() - 1] == text.last());
        lemma_run_back_is(t, CharClass::Whitespace, after.len() as int);
        assert(trim(s) =~= text);
    } else {
        assert forall|i: int| 0 <= i < s.len() implies is_white_space(#[trigger] s[i]) by {
            if i < before.len() {
                assert(s[i] == before[i]);
            } else {
                assert(s[i] == after[i - before.len()]);
            }
        }
        lemma_run_is(s, CharClass::Whitespace, s.len() as int);
        assert(trim_start(s) =~= Seq::empty());
        assert(trim(s) =~= Seq::empty());
    }
}

/// The first word of a text is what stands between white space, and there is
/// none in white space alone.
pub proof fn law_first_words(white: Seq<char>, word: Seq<char>, rest: Seq<char>)
    requires
        is_white(white),
        word.len() > 0,
        forall|i: int| 0 <= i < word.len() ==> !is_white_space(#[trigger] word[i]),
        rest.len() > 0 ==> is_white_space(rest[0]),
    ensures
        first_word(white + word + rest) == word,
        first_word(white) == Seq::<char>::empty(),
{
    let s = white + word + rest;
    let t = word + rest;
    lemma_run_is(white, CharClass::Whitespace, white.len() as int);
    assert(trim_start(white) =~= Seq::empty());
    assert(first_word(white) =~= Seq::empty());
    assert(s[white.len() as int] == word[0]);
    lemma_run_is(s, CharClass::Whitespace, white.len() as int);
    assert(trim_start(s) =~= t);
    assert forall|i: int| 0 <= i < word.len() implies !is_white_space(#[trigger] t[i]) by {
        assert(t[i] == word[i]);
    }
    if rest.len() > 0 {
        assert(t[word.len() as int] == rest[0]);
    }
    lemma_run_is(t, CharClass::NonWhitespace, word.len() as int);
    assert(first_word(s) =~= word);
}

/// A text is found at the least place at which it occurs, and not found exactly
/// where it occurs nowhere.
pub proof fn law_finding(hay: Seq<char>, needle: Seq<char>, i: int)
    ensures
        find(hay, needle) == Some(i) <==> {
            &&& 0 <= i
            &&& i + needle.len() <= hay.len()
            &&& hay.subrange(i, i + needle.len()) == needle
            &&& forall|j: int|
                0 <= j < i && j + needle.len() <= hay.len() ==> #[trigger] hay.subrange(
                    j,
                    j + needle.len(),
                ) != needle
        },
        find(hay, needle) is None <==> forall|j: int|
            0 <= j && j + needle.len() <= hay.len() ==> #[trigger] hay.subrange(
                j,
                j + needle.len(),
            ) != needle,
        after_first(hay, needle) == (match find(hay, needle) {
            Some(k) => Some(hay.skip(k + needle.len())),
            None => None,
        }),
{
    lemma_find(hay, needle);
    assert forall|j: int| 0 <= j <= hay.len() implies (needle.is_prefix_of(#[trigger] hay.skip(j))
        <==> j + needle.len() <= hay.len() && hay.subrange(j, j + needle.len()) == needle) by {
        if j + needle.len() <= hay.len() {
            assert(hay.skip(j).subrange(0, needle.len() as int) =~= hay.subrange(
                j,
                j + needle.len(),
            ));
        }
    }
    match find(hay, needle) {
        Some(k) => {
            assert(hay.skip(k).len() >= 0);
            assert forall|j: int| 0 <= j < k && j + needle.len() <= hay.len() implies
                #[trigger] hay.subrange(j, j + needle.len()) != needle by {
                assert(!needle.is_prefix_of(hay.skip(j)));
            }
            assert(hay.subrange(k, k + needle.len()) == needle);
        },
        None => {
            assert forall|j: int| 0 <= j && j + needle.len() <= hay.len() implies
                #[trigger] hay.subrange(j, j + needle.len()) != needle by {
                assert(!needle.is_prefix_of(hay.skip(j)));
            }
        },
    }
}

/// Texts are put together one after the other, with the separator between two.
pub proof fn law_joining(texts: Seq<Seq<char>>, text: Seq<char>, separator: Seq<char>)
    ensures
        joined(Seq::empty(), separator) == Seq::<char>::empty(),
        joined(seq![text], separator) == text,
        texts.len() > 0 ==> joined(texts.push(text), separator) == joined(texts, separator)
            + separator + text,
{
    assert(texts.push(text).drop_last() =~= texts);
}

/// One text comes before another exactly if, where they first differ, its
/// character is the lesser, or if it is the start of the other.
pub proof fn law_order_of_texts(a: Seq<char>, b: Seq<char>)
    ensures
        before(a, b) <==> exists|n: int|
            {
                &&& 0 <= n <= a.len()
                &&& n < b.len()
                &&& a.take(n) == #[trigger] b.take(n)
                &&& n == a.len() || a[n] < b[n]
            },
    decreases b.len(),
{
    if b.len() > 0 && a.len() > 0 && a[0] == b[0] {
        let x = a.skip(1);
        let y = b.skip(1);
        law_order_of_texts(x, y);
        if before(x, y) {
            let n = choose|n: int|
                {
                    &&& 0 <= n <= x.len()
                    &&& n < y.len()
                    &&& x.take(n) == #[trigger] y.take(n)
                    &&& n == x.len() || x[n] < y[n]
                };
            assert(a.take(n + 1) =~= seq![a[0]] + x.take(n));
            assert(b.take(n + 1) =~= seq![b[0]] + y.take(n));
            assert(a.take(n + 1) == b.take(n + 1));
        }
        if exists|n: int|
            {
                &&& 0 <= n <= a.len()
                &&& n < b.len()
                &&& a.take(n) == #[trigger] b.take(n)
                &&& n == a.len() || a[n] < b[n]
            } {
            let n = choose|n: int|
                {
                    &&& 0 <= n <= a.len()
                    &&& n < b.len()
                    &&& a.take(n) == #[trigger] b.take(n)
                    &&& n == a.len() || a[n] < b[n]
                };
            assert(n > 0);
            assert(x.take(n - 1) =~= a.take(n).skip(1));
            assert(y.take(n - 1) =~= b.take(n).skip(1));
            assert(x.take(n - 1) == y.take(n - 1));
        }
    } else if b.len() > 0 {
        assert(a.take(0) =~= b.take(0));
        if exists|n: int|
            {
                &&& 0 <= n <= a.len()
                &&& n < b.len()
                &&& a.take(n) == #[trigger] b.take(n)
                &&& n == a.len() || a[n] < b[n]
            } {
            let n = choose|n: int|
                {
                    &&& 0 <= n <= a.len()
                    &&& n < b.len()
                    &&& a.take(n) == #[trigger] b.take(n)
                    &&& n == a.len() || a[n] < b[n]
                };
            if n > 0 {
                assert(a.take(n)[0] == b.take(n)[0]);
            }
        }
    }
}

/// A sorted list holds what was given, and nothing twice.
pub proof fn law_sorted_sets(list: Seq<Seq<char>>, texts: Seq<Seq<char>>, text: Seq<char>)
    requires
        is_sorted_set_of(list, texts),
    ensures
        list.contains(text) <==> texts.contains(text),
        list.no_duplicates(),
        forall|i: int, j: int|
            0 <= i < j < list.len() ==> before(#[trigger] list[i], #[trigger] list[j]),
{
    assert forall|i: int, j: int|
        0 <= i < list.len() && 0 <= j < list.len() && i != j implies list[i] != list[j] by {
        lemma_before_irreflexive(list[i]);
        if i < j {
            assert(before(list[i], list[j]));
        } else {
            assert(before(list[j], list[i]));
        }
    }
}

/// What is said of each error.
pub proof fn law_messages_of_errors(error: AnalyzerError)
    ensures
        match error {
            AnalyzerError::CargoTomlNotFound(path) => error.text() == "Cargo.toml not found at "@
                + path@,
            AnalyzerError::EmptyCommand => error.text() == "empty cargo command"@,
            AnalyzerError::Io(e) => error.text() == "IO error: "@ + e@,
            AnalyzerError::Json(e) => error.text() == "JSON error: "@ + e@,
            AnalyzerError::BuildScriptOutputUnreadable(path, e) => error.text()
                == "could not read build-script output at "@ + path@ + ": "@ + e@,
            AnalyzerError::CargoMetadataFailed(m) => error.text() == "cargo metadata failed: "@
                + m@,
        },
{
}

} // verus!
