//! The order of texts, and sorted lists of texts.

use vstd::prelude::*;

use crate::text::chars_of;

verus! {

/// Whether `a` comes before `b`: the order of their characters, from the first
/// one that differs, where the end of a text comes before any character. This
/// is also the order of their bytes in UTF-8, by which `String` is ordered.
pub open spec fn before(a: Seq<char>, b: Seq<char>) -> bool
    decreases b.len(),
{
    if b.len() == 0 {
        false
    } else if a.len() == 0 {
        true
    } else if a[0] != b[0] {
        a[0] < b[0]
    } else {
        before(a.skip(1), b.skip(1))
    }
}

/// No text comes before itself.
pub proof fn lemma_before_irreflexive(a: Seq<char>)
    ensures
        !before(a, a),
    decreases a.len(),
{
    if a.len() > 0 {
        lemma_before_irreflexive(a.skip(1));
    }
}

/// What comes before a text comes before all that comes behind it.
pub proof fn lemma_before_transitive(a: Seq<char>, b: Seq<char>, c: Seq<char>)
    requires
        before(a, b),
        before(b, c),
    ensures
        before(a, c),
    decreases c.len(),
{
    if a.len() > 0 && a[0] == b[0] && b[0] == c[0] {
        lemma_before_transitive(a.skip(1), b.skip(1), c.skip(1));
    }
}

/// Of two different texts one comes before the other.
pub proof fn lemma_before_total(a: Seq<char>, b: Seq<char>)
    ensures
        a == b || before(a, b) || before(b, a),
    decreases a.len(),
{
    if a.len() > 0 && b.len() > 0 {
        if a[0] == b[0] {
            lemma_before_total(a.skip(1), b.skip(1));
            if a.skip(1) == b.skip(1) {
                assert(a =~= seq![a[0]] + a.skip(1));
                assert(b =~= seq![b[0]] + b.skip(1));
            }
        }
    } else if a.len() == 0 && b.len() == 0 {
        assert(a =~= b);
    }
}

/// Decides which of two texts comes first.
pub fn comes_before(a: &str, b: &str) -> (yes: bool)
    ensures
        yes == before(a@, b@),
{
    let x: Vec<char> = chars_of(a);
    let y: Vec<char> = chars_of(b);
    let mut i: usize = 0;
    assert(x@.skip(0) == x@ && y@.skip(0) == y@);
    while i < x.len() && i < y.len() && x[i] == y[i]
        invariant
            i <= x@.len(),
            i <= y@.len(),
            before(x@, y@) == before(x@.skip(i as int), y@.skip(i as int)),
        decreases x@.len() - i,
    {
        assert(x@.skip(i as int).skip(1) == x@.skip(i + 1));
        assert(y@.skip(i as int).skip(1) == y@.skip(i + 1));
        i = i + 1;
    }
    if i == y.len() {
        false
    } else if i == x.len() {
        true
    } else {
        x[i] < y[i]
    }
}

/// Whether every text comes before those behind it. So none occurs twice.
pub open spec fn is_sorted(texts: Seq<Seq<char>>) -> bool {
    forall|i: int, j: int|
        0 <= i < j < texts.len() ==> before(#[trigger] texts[i], #[trigger] texts[j])
}

/// Whether `list` holds what `texts` holds, sorted and each text once. There
/// is only one such list.
pub open spec fn is_sorted_set_of(list: Seq<Seq<char>>, texts: Seq<Seq<char>>) -> bool {
    &&& is_sorted(list)
    &&& forall|t: Seq<char>| #[trigger] list.contains(t) <==> texts.contains(t)
}

/// A sorted list without its first text holds all the others and no more.
proof fn lemma_sorted_tail(list: Seq<Seq<char>>, t: Seq<char>)
    requires
        is_sorted(list),
        list.len() > 0,
    ensures
        list.skip(1).contains(t) <==> list.contains(t) && t != list[0],
{
    let tail = list.skip(1);
    if tail.contains(t) {
        let k = choose|k: int| 0 <= k < tail.len() && tail[k] == t;
        assert(list[k + 1] == t);
        assert(before(list[0], list[k + 1]));
        lemma_before_irreflexive(t);
    }
    if list.contains(t) && t != list[0] {
        let k = choose|k: int| 0 <= k < list.len() && list[k] == t;
        assert(tail[k - 1] == t);
    }
}

/// Two sorted lists that hold the same texts are the same list.
pub proof fn lemma_sorted_lists_agree(a: Seq<Seq<char>>, b: Seq<Seq<char>>)
    requires
        is_sorted(a),
        is_sorted(b),
        forall|t: Seq<char>| #[trigger] a.contains(t) <==> b.contains(t),
    ensures
        a == b,
    decreases a.len(),
{
    if a.len() == 0 {
        if b.len() > 0 {
            assert(b.contains(b[0]));
            assert(a.contains(b[0]));
        }
        assert(a =~= b);
    } else {
        assert(a.contains(a[0]));
        let k = choose|k: int| 0 <= k < b.len() && b[k] == a[0];
        assert(b.contains(b[0]));
        assert(a.contains(b[0]));
        let m = choose|m: int| 0 <= m < a.len() && a[m] == b[0];
        if k > 0 && m > 0 {
            assert(before(b[0], b[k]) && before(a[0], a[m]));
            lemma_before_transitive(a[0], b[0], a[0]);
            lemma_before_irreflexive(a[0]);
        }
        assert(a[0] == b[0]);
        assert forall|t: Seq<char>| #[trigger]
            a.skip(1).contains(t) <==> b.skip(1).contains(t) by {
            lemma_sorted_tail(a, t);
            lemma_sorted_tail(b, t);
        }
        lemma_sorted_lists_agree(a.skip(1), b.skip(1));
        assert(a =~= seq![a[0]] + a.skip(1));
        assert(b =~= seq![b[0]] + b.skip(1));
    }
}

/// Finds where `text` stands in a sorted list, or where it would have to be
/// inserted.
pub fn position(list: &Vec<String>, text: &str) -> (found: (usize, bool))
    requires
        is_sorted(list.deep_view()),
    ensures
        found.0 <= list@.len(),
        found.1 ==> found.0 < list@.len() && list.deep_view()[found.0 as int] == text@,
        found.1 == list.deep_view().contains(text@),
        forall|i: int| 0 <= i < found.0 ==> before(#[trigger] list.deep_view()[i], text@),
        !found.1 ==> forall|i: int|
            found.0 <= i < list@.len() ==> before(text@, #[trigger] list.deep_view()[i]),
{
    let ghost texts = list.deep_view();
    let mut i: usize = 0;
    while i < list.len() && comes_before(list[i].as_str(), text)
        invariant
            texts == list.deep_view(),
            i <= list@.len(),
            forall|j: int| 0 <= j < i ==> before(#[trigger] texts[j], text@),
        decreases list@.len() - i,
    {
        assert(texts[i as int] == list@[i as int]@);
        i = i + 1;
    }
    let same: bool = i < list.len() && crate::text::same_text(list[i].as_str(), text);
    proof {
        if i < list@.len() {
            assert(texts[i as int] == list@[i as int]@);
            lemma_before_total(texts[i as int], text@);
        }
        if !same {
            assert forall|j: int| i <= j < list@.len() implies before(
                text@,
                #[trigger] texts[j],
            ) by {
                if j > i {
                    lemma_before_transitive(text@, texts[i as int], texts[j]);
                }
            }
            lemma_before_irreflexive(text@);
        }
    }
    (i, same)
}

/// Inserting a text where it belongs keeps a list sorted.
pub proof fn lemma_insert_sorted(texts: Seq<Seq<char>>, i: int, text: Seq<char>)
    requires
        is_sorted(texts),
        0 <= i <= texts.len(),
        forall|j: int| 0 <= j < i ==> before(#[trigger] texts[j], text),
        forall|j: int| i <= j < texts.len() ==> before(text, #[trigger] texts[j]),
    ensures
        is_sorted(texts.insert(i, text)),
        forall|t: Seq<char>| #[trigger]
            texts.insert(i, text).contains(t) <==> texts.contains(t) || t == text,
{
    let more = texts.insert(i, text);
    assert forall|t: Seq<char>| #[trigger] more.contains(t) <==> texts.contains(t) || t == text by {
        if texts.contains(t) {
            let k = choose|k: int| 0 <= k < texts.len() && texts[k] == t;
            if k < i {
                assert(more[k] == t);
            } else {
                assert(more[k + 1] == t);
            }
        }
        if t == text {
            assert(more[i] == t);
        }
        if more.contains(t) && t != text {
            let k = choose|k: int| 0 <= k < more.len() && more[k] == t;
            if k < i {
                assert(texts[k] == t);
            } else {
                assert(texts[k - 1] == t);
            }
        }
    }
}

/// Sorts texts and drops those that occur again.
pub fn sorted_set(texts: &Vec<String>) -> (list: Vec<String>)
    ensures
        is_sorted_set_of(list.deep_view(), texts.deep_view()),
{
    let ghost all = texts.deep_view();
    let mut list: Vec<String> = Vec::new();
    let mut i: usize = 0;
    while i < texts.len()
        invariant
            all == texts.deep_view(),
            i <= texts@.len(),
            is_sorted_set_of(list.deep_view(), all.take(i as int)),
        decreases texts@.len() - i,
    {
        let ghost old_list = list.deep_view();
        let text: String = texts[i].clone();
        let ghost t = text@;
        let (k, known) = position(&list, text.as_str());
        if !known {
            list.insert(k, text);
            proof {
                lemma_insert_sorted(old_list, k as int, t);
                assert(list.deep_view() =~= old_list.insert(k as int, t));
            }
        }
        proof {
            let now = all.take(i + 1);
            assert(now =~= all.take(i as int).push(t));
            assert forall|u: Seq<char>| #[trigger]
                list.deep_view().contains(u) <==> now.contains(u) by {
                assert(now[i as int] == t);
                if all.take(i as int).contains(u) {
                    let q = choose|q: int| 0 <= q < i && all.take(i as int)[q] == u;
                    assert(now[q] == u);
                }
                if now.contains(u) && u != t {
                    let q = choose|q: int| 0 <= q < now.len() && now[q] == u;
                    assert(all.take(i as int)[q] == u);
                }
            }
        }
        i = i + 1;
    }
    assert(all.take(i as int) =~= all);
    list
}

} // verus!
