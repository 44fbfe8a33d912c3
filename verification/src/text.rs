//! Text primitives shared by the parsers and the renderer.
//!
//! A piece of text is modelled as the sequence of its characters. Most of
//! what the other modules need is the length of the run of characters of one
//! class at the start (or at the end) of a text.

use vstd::prelude::*;
use vstd::slice::slice_subrange;

verus! {

/// A class of characters.
#[derive(Clone, Copy)]
pub enum CharClass {
    /// A space or a tab.
    Blank,
    /// An ASCII decimal digit.
    Digit,
    /// An ASCII hexadecimal digit, in either case.
    HexDigit,
    /// A character with the Unicode property `White_Space`.
    Whitespace,
    /// A character without the Unicode property `White_Space`.
    NonWhitespace,
    /// Any character but this one.
    Except(char),
    /// What an unquoted field value is made of: anything but a space, a
    /// closing brace or a colon.
    Bare,
}

/// The Unicode property `White_Space`.
pub open spec fn is_white_space(c: char) -> bool {
    ||| '\u{9}' <= c <= '\u{d}'
    ||| c == '\u{20}'
    ||| c == '\u{85}'
    ||| c == '\u{a0}'
    ||| c == '\u{1680}'
    ||| '\u{2000}' <= c <= '\u{200a}'
    ||| c == '\u{2028}'
    ||| c == '\u{2029}'
    ||| c == '\u{202f}'
    ||| c == '\u{205f}'
    ||| c == '\u{3000}'
}

impl CharClass {
    /// Whether `c` belongs to the class.
    pub open spec fn has(self, c: char) -> bool {
        match self {
            CharClass::Blank => c == ' ' || c == '\t',
            CharClass::Digit => '0' <= c <= '9',
            CharClass::HexDigit => '0' <= c <= '9' || 'a' <= c <= 'f' || 'A' <= c <= 'F',
            CharClass::Whitespace => is_white_space(c),
            CharClass::NonWhitespace => !is_white_space(c),
            CharClass::Except(x) => c != x,
            CharClass::Bare => c != ' ' && c != '}' && c != ':',
        }
    }

    /// Decides membership in the class.
    pub fn contains(self, c: char) -> (member: bool)
        ensures
            member == self.has(c),
    {
        match self {
            CharClass::Blank => c == ' ' || c == '\t',
            CharClass::Digit => '0' <= c && c <= '9',
            CharClass::HexDigit => ('0' <= c && c <= '9') || ('a' <= c && c <= 'f') || ('A' <= c
                && c <= 'F'),
            CharClass::Whitespace => white_space(c),
            CharClass::NonWhitespace => !white_space(c),
            CharClass::Except(x) => c != x,
            CharClass::Bare => c != ' ' && c != '}' && c != ':',
        }
    }
}

fn white_space(c: char) -> (r: bool)
    ensures
        r == is_white_space(c),
{
    ('\u{9}' <= c && c <= '\u{d}') || c == '\u{20}' || c == '\u{85}' || c == '\u{a0}' || c
        == '\u{1680}' || ('\u{2000}' <= c && c <= '\u{200a}') || c == '\u{2028}' || c == '\u{2029}'
        || c == '\u{202f}' || c == '\u{205f}' || c == '\u{3000}'
}

/// The number of characters of `class` that `s` starts with.
pub open spec fn run(s: Seq<char>, class: CharClass) -> nat
    decreases s.len(),
{
    if s.len() > 0 && class.has(s[0]) {
        1 + run(s.skip(1), class)
    } else {
        0
    }
}

/// The number of characters of `class` that `s` ends with.
pub open spec fn run_back(s: Seq<char>, class: CharClass) -> nat
    decreases s.len(),
{
    if s.len() > 0 && class.has(s.last()) {
        1 + run_back(s.drop_last(), class)
    } else {
        0
    }
}

/// A run is as long as it can be: it holds only characters of the class, and
/// the character behind it, if there is one, is not of the class.
pub proof fn lemma_run(s: Seq<char>, class: CharClass)
    ensures
        run(s, class) <= s.len(),
        forall|i: int| 0 <= i < run(s, class) ==> class.has(#[trigger] s[i]),
        run(s, class) < s.len() ==> !class.has(s[run(s, class) as int]),
    decreases s.len(),
{
    if s.len() > 0 && class.has(s[0]) {
        lemma_run(s.skip(1), class);
        assert forall|i: int| 0 <= i < run(s, class) implies class.has(#[trigger] s[i]) by {
            if i > 0 {
                assert(s[i] == s.skip(1)[i - 1]);
            }
        }
    }
}

/// The only length with the two properties of `lemma_run` is that of the run.
pub proof fn lemma_run_is(s: Seq<char>, class: CharClass, n: int)
    requires
        0 <= n <= s.len(),
        forall|i: int| 0 <= i < n ==> class.has(#[trigger] s[i]),
        n < s.len() ==> !class.has(s[n]),
    ensures
        run(s, class) == n,
{
    lemma_run(s, class);
    let r = run(s, class) as int;
    if r < n {
        assert(class.has(s[r]));
    }
    if n < r {
        assert(class.has(s[n]));
    }
}

/// What `lemma_run` says, seen from the end of the text.
pub proof fn lemma_run_back(s: Seq<char>, class: CharClass)
    ensures
        run_back(s, class) <= s.len(),
        forall|i: int|
            s.len() - run_back(s, class) <= i < s.len() ==> class.has(#[trigger] s[i]),
        run_back(s, class) < s.len() ==> !class.has(s[s.len() - run_back(s, class) - 1]),
    decreases s.len(),
{
    if s.len() > 0 && class.has(s.last()) {
        let t = s.drop_last();
        lemma_run_back(t, class);
        assert forall|i: int|
            s.len() - run_back(s, class) <= i < s.len() implies class.has(#[trigger] s[i]) by {
            if i < s.len() - 1 {
                assert(s[i] == t[i]);
            }
        }
    }
}

/// What `lemma_run_is` says, seen from the end of the text.
pub proof fn lemma_run_back_is(s: Seq<char>, class: CharClass, n: int)
    requires
        0 <= n <= s.len(),
        forall|i: int| s.len() - n <= i < s.len() ==> class.has(#[trigger] s[i]),
        n < s.len() ==> !class.has(s[s.len() - n - 1]),
    ensures
        run_back(s, class) == n,
{
    lemma_run_back(s, class);
    let r = run_back(s, class) as int;
    if r < n {
        assert(class.has(s[s.len() - r - 1]));
    }
    if n < r {
        assert(class.has(s[s.len() - n - 1]));
    }
}

/// Measures the run of characters of `class` at the start of `s`.
pub fn run_len(s: &[char], class: CharClass) -> (n: usize)
    ensures
        n == run(s@, class),
        n <= s@.len(),
{
    let mut n: usize = 0;
    while n < s.len() && class.contains(s[n])
        invariant
            n <= s@.len(),
            forall|i: int| 0 <= i < n ==> class.has(#[trigger] s@[i]),
        decreases s@.len() - n,
    {
        n = n + 1;
    }
    proof {
        lemma_run_is(s@, class, n as int);
    }
    n
}

/// Measures the run of characters of `class` at the end of `s`.
pub fn run_back_len(s: &[char], class: CharClass) -> (n: usize)
    ensures
        n == run_back(s@, class),
        n <= s@.len(),
{
    let mut n: usize = 0;
    while n < s.len() && class.contains(s[s.len() - n - 1])
        invariant
            n <= s@.len(),
            forall|i: int| s@.len() - n <= i < s@.len() ==> class.has(#[trigger] s@[i]),
        decreases s@.len() - n,
    {
        n = n + 1;
    }
    proof {
        lemma_run_back_is(s@, class, n as int);
    }
    n
}

/// Appends one character: what `String::push` is documented to do.
pub assume_specification[ String::push ](s: &mut String, c: char)
    ensures
        final(s)@ == old(s)@.push(c),
;

/// The characters of `s`.
pub fn chars_of(s: &str) -> (chars: Vec<char>)
    ensures
        chars@ == s@,
{
    let mut chars: Vec<char> = Vec::new();
    for c in it: s.chars()
        invariant
            chars@.len() == it.index(),
            it.seq() == s@,
            forall|i: int| 0 <= i < chars@.len() ==> chars@[i] == s@[i],
    {
        chars.push(c);
    }
    chars
}

/// The text that `chars` spells.
pub fn string_of(chars: &[char]) -> (s: String)
    ensures
        s@ == chars@,
{
    let mut s: String = String::new();
    let mut i: usize = 0;
    while i < chars.len()
        invariant
            i <= chars@.len(),
            s@ == chars@.take(i as int),
        decreases chars@.len() - i,
    {
        s.push(chars[i]);
        i = i + 1;
        assert(s@ == chars@.take(i as int));
    }
    assert(chars@.take(i as int) == chars@);
    s
}

/// Whether two texts are the same.
pub fn same_text(a: &str, b: &str) -> (same: bool)
    ensures
        same == (a@ == b@),
{
    a.to_owned() == b.to_owned()
}

/// `s` without its first `n` characters.
pub fn skip_chars(s: &[char], n: usize) -> (rest: &[char])
    requires
        n <= s@.len(),
    ensures
        rest@ == s@.skip(n as int),
{
    slice_subrange(s, n, s.len())
}

/// The first `n` characters of `s`.
pub fn take_chars(s: &[char], n: usize) -> (first: &[char])
    requires
        n <= s@.len(),
    ensures
        first@ == s@.take(n as int),
{
    slice_subrange(s, 0, n)
}

/// `s` without the white space at its start.
pub open spec fn trim_start(s: Seq<char>) -> Seq<char> {
    s.skip(run(s, CharClass::Whitespace) as int)
}

/// `s` without the white space at its start and at its end.
pub open spec fn trim(s: Seq<char>) -> Seq<char> {
    let t = trim_start(s);
    t.take(t.len() - run_back(t, CharClass::Whitespace))
}

/// The first word of `s`, where words are separated by white space. It is
/// empty where `s` holds no word.
pub open spec fn first_word(s: Seq<char>) -> Seq<char> {
    let t = trim_start(s);
    t.take(run(t, CharClass::NonWhitespace) as int)
}

/// Drops leading white space.
pub fn trim_start_chars(s: &[char]) -> (t: &[char])
    ensures
        t@ == trim_start(s@),
{
    skip_chars(s, run_len(s, CharClass::Whitespace))
}

/// Drops leading and trailing white space.
pub fn trim_chars(s: &[char]) -> (t: &[char])
    ensures
        t@ == trim(s@),
{
    let t = trim_start_chars(s);
    take_chars(t, t.len() - run_back_len(t, CharClass::Whitespace))
}

/// Finds the first word.
pub fn first_word_of(s: &[char]) -> (word: &[char])
    ensures
        word@ == first_word(s@),
{
    let t = trim_start_chars(s);
    take_chars(t, run_len(t, CharClass::NonWhitespace))
}

/// The position of the first occurrence of `needle` in `hay`, if any.
pub open spec fn find(hay: Seq<char>, needle: Seq<char>) -> Option<int>
    decreases hay.len(),
{
    if needle.is_prefix_of(hay) {
        Some(0)
    } else if hay.len() == 0 {
        None
    } else {
        match find(hay.skip(1), needle) {
            Some(i) => Some(i + 1),
            None => None,
        }
    }
}

/// `find` gives the least position at which `needle` occurs, and none exactly
/// where it occurs nowhere.
pub proof fn lemma_find(hay: Seq<char>, needle: Seq<char>)
    ensures
        match find(hay, needle) {
            Some(i) => {
                &&& 0 <= i
                &&& i + needle.len() <= hay.len()
                &&& needle.is_prefix_of(hay.skip(i))
                &&& forall|j: int| 0 <= j < i ==> !needle.is_prefix_of(#[trigger] hay.skip(j))
            },
            None => forall|j: int|
                0 <= j <= hay.len() ==> !needle.is_prefix_of(#[trigger] hay.skip(j)),
        },
    decreases hay.len(),
{
    assert(hay.skip(0) == hay);
    if !needle.is_prefix_of(hay) && hay.len() > 0 {
        let tail = hay.skip(1);
        lemma_find(tail, needle);
        assert forall|j: int| 1 <= j <= hay.len() implies #[trigger] hay.skip(j) == tail.skip(
            j - 1,
        ) by {}
        if find(tail, needle) is None {
            assert forall|j: int| 0 <= j <= hay.len() implies !needle.is_prefix_of(
                #[trigger] hay.skip(j),
            ) by {
                if j > 0 {
                    assert(hay.skip(j) == tail.skip(j - 1));
                }
            }
        } else {
            let i = find(tail, needle).unwrap();
            assert(hay.skip(i + 1) == tail.skip(i));
            assert forall|j: int| 0 <= j < i + 1 implies !needle.is_prefix_of(
                #[trigger] hay.skip(j),
            ) by {
                if j > 0 {
                    assert(hay.skip(j) == tail.skip(j - 1));
                }
            }
        }
    }
}

/// The least position at which `needle` occurs is the one that `find` gives.
pub proof fn lemma_find_is(hay: Seq<char>, needle: Seq<char>, i: int)
    requires
        0 <= i <= hay.len(),
        needle.is_prefix_of(hay.skip(i)),
        forall|j: int| 0 <= j < i ==> !needle.is_prefix_of(#[trigger] hay.skip(j)),
    ensures
        find(hay, needle) == Some(i),
{
    lemma_find(hay, needle);
    let found = find(hay, needle);
    if found is None {
        assert(!needle.is_prefix_of(hay.skip(i)));
    } else if found.unwrap() < i {
        assert(!needle.is_prefix_of(hay.skip(found.unwrap())));
    }
}

/// Decides whether `s` starts with the characters of `prefix`.
pub fn starts_with_chars(s: &[char], prefix: &[char]) -> (yes: bool)
    ensures
        yes == prefix@.is_prefix_of(s@),
{
    if prefix.len() > s.len() {
        return false;
    }
    let mut i: usize = 0;
    while i < prefix.len()
        invariant
            i <= prefix@.len() <= s@.len(),
            forall|j: int| 0 <= j < i ==> prefix@[j] == s@[j],
        decreases prefix@.len() - i,
    {
        if prefix[i] != s[i] {
            assert(prefix@[i as int] != s@.subrange(0, prefix@.len() as int)[i as int]);
            return false;
        }
        i = i + 1;
    }
    true
}

/// Decides whether `s` starts with `prefix`.
pub fn starts_with(s: &[char], prefix: &str) -> (yes: bool)
    ensures
        yes == prefix@.is_prefix_of(s@),
{
    let p: Vec<char> = chars_of(prefix);
    starts_with_chars(s, p.as_slice())
}

/// Finds the first occurrence of `needle` in `hay`.
pub fn find_text(hay: &[char], needle: &str) -> (found: Option<usize>)
    ensures
        match found {
            Some(i) => find(hay@, needle@) == Some(i as int) && i + needle@.len() <= hay@.len(),
            None => find(hay@, needle@) is None,
        },
{
    let p: Vec<char> = chars_of(needle);
    let mut i: usize = 0;
    while p.len() <= hay.len() - i
        invariant
            p@ == needle@,
            i <= hay@.len(),
            forall|j: int| 0 <= j < i ==> !needle@.is_prefix_of(#[trigger] hay@.skip(j)),
        decreases hay@.len() - i,
    {
        if starts_with_chars(skip_chars(hay, i), p.as_slice()) {
            proof {
                lemma_find_is(hay@, needle@, i as int);
            }
            return Some(i);
        }
        if i == hay.len() {
            proof {
                lemma_find(hay@, needle@);
            }
            return None;
        }
        i = i + 1;
    }
    proof {
        lemma_find(hay@, needle@);
        if find(hay@, needle@) is Some {
            assert(!needle@.is_prefix_of(hay@.skip(find(hay@, needle@).unwrap())));
        }
    }
    None
}

/// What stands behind the first occurrence of `needle` in `hay`, if any.
pub open spec fn after_first(hay: Seq<char>, needle: Seq<char>) -> Option<Seq<char>> {
    match find(hay, needle) {
        Some(i) => Some(hay.skip(i + needle.len())),
        None => None,
    }
}

/// Finds what stands behind the first occurrence of `needle` in `hay`.
pub fn find_after<'a>(hay: &'a [char], needle: &str) -> (rest: Option<&'a [char]>)
    ensures
        match rest {
            Some(s) => after_first(hay@, needle@) == Some(s@),
            None => after_first(hay@, needle@) is None,
        },
{
    match find_text(hay, needle) {
        Some(i) => {
            let n: usize = chars_of(needle).len();
            assert(i + n <= hay.len());
            Some(skip_chars(hay, i + n))
        },
        None => None,
    }
}

/// The last two components of a path: what stands behind the last slash but
/// one, or the whole path where there is no such slash.
pub open spec fn last_components(path: Seq<char>) -> Seq<char> {
    let last = run_back(path, CharClass::Except('/')) as int;
    if last == path.len() {
        path
    } else {
        let dir = path.take(path.len() - last - 1);
        path.skip(dir.len() - run_back(dir, CharClass::Except('/')))
    }
}

/// Shortens a path to its last two components.
pub fn short_path(path: &str) -> (short: String)
    ensures
        short@ == last_components(path@),
{
    let chars: Vec<char> = chars_of(path);
    let whole = chars.as_slice();
    let last: usize = run_back_len(whole, CharClass::Except('/'));
    if last == whole.len() {
        return path.to_owned();
    }
    let dir = take_chars(whole, whole.len() - last - 1);
    string_of(skip_chars(whole, dir.len() - run_back_len(dir, CharClass::Except('/'))))
}

/// `texts` with `separator` between them.
pub open spec fn joined(texts: Seq<Seq<char>>, separator: Seq<char>) -> Seq<char>
    decreases texts.len(),
{
    if texts.len() == 0 {
        Seq::empty()
    } else if texts.len() == 1 {
        texts[0]
    } else {
        joined(texts.drop_last(), separator) + separator + texts.last()
    }
}

/// Puts texts together.
pub fn join(texts: &Vec<String>, separator: &str) -> (text: String)
    ensures
        text@ == joined(texts.deep_view(), separator@),
{
    let ghost all = texts.deep_view();
    let mut text: String = String::new();
    let mut i: usize = 0;
    while i < texts.len()
        invariant
            all == texts.deep_view(),
            i <= texts@.len(),
            text@ == joined(all.take(i as int), separator@),
        decreases texts@.len() - i,
    {
        if i > 0 {
            text.append(separator);
        }
        text.append(texts[i].as_str());
        i = i + 1;
        assert(all.take(i as int).drop_last() =~= all.take(i - 1));
        assert(all.take(i as int).last() == texts@[i - 1]@);
        assert(text@ =~= joined(all.take(i as int), separator@));
    }
    assert(all.take(i as int) =~= all);
    text
}

/// A text with a prefix before it.
pub fn prefixed(prefix: &str, text: &str) -> (whole: String)
    ensures
        whole@ == prefix@ + text@,
{
    let mut whole: String = prefix.to_owned();
    whole.append(text);
    whole
}

} // verus!
