//! Lists of pairs in the strict lexicographic order of their keys, read as
//! finite maps from text to values.

use crate::text::{lemma_lex_irreflexive, lemma_lex_total, lemma_lex_transitive, lex_less};
use vstd::prelude::*;

verus! {

/// Whether the keys of `e` rise strictly, so that none occurs twice.
pub open spec fn sorted_keys<V>(e: Seq<(Seq<char>, V)>) -> bool {
    forall|i: int, j: int| 0 <= i < j < e.len() ==> lex_less(#[trigger] e[i].0, #[trigger] e[j].0)
}

/// Whether `e` lists `key`.
pub open spec fn lists<V>(e: Seq<(Seq<char>, V)>, key: Seq<char>) -> bool {
    exists|i: int| 0 <= i < e.len() && #[trigger] e[i].0 == key
}

/// The value that `e` gives to `key`, if it lists it.
pub open spec fn lookup<V>(e: Seq<(Seq<char>, V)>, key: Seq<char>) -> Option<V> {
    if lists(e, key) {
        Some(e[choose|i: int| 0 <= i < e.len() && #[trigger] e[i].0 == key].1)
    } else {
        None
    }
}

/// In a sorted list each key is listed once, with the value beside it.
pub proof fn lemma_lookup_at<V>(e: Seq<(Seq<char>, V)>, i: int)
    requires
        sorted_keys(e),
        0 <= i < e.len(),
    ensures
        lookup(e, e[i].0) == Some(e[i].1),
{
    let p = e[i].0;
    assert(lists(e, p));
    let j = choose|j: int| 0 <= j < e.len() && #[trigger] e[j].0 == p;
    lemma_lex_irreflexive(p);
    if j < i {
        assert(lex_less(e[j].0, e[i].0));
    } else if i < j {
        assert(lex_less(e[i].0, e[j].0));
    }
}

/// Giving a listed key a new value changes the value of that key alone.
pub proof fn lemma_update<V>(e: Seq<(Seq<char>, V)>, pos: int, value: V)
    requires
        sorted_keys(e),
        0 <= pos < e.len(),
    ensures
        sorted_keys(e.update(pos, (e[pos].0, value))),
        forall|q: Seq<char>| #[trigger]
            lookup(e.update(pos, (e[pos].0, value)), q) == if q == e[pos].0 {
                Some(value)
            } else {
                lookup(e, q)
            },
{
    let after = e.update(pos, (e[pos].0, value));
    assert forall|i: int, j: int| 0 <= i < j < after.len() implies lex_less(
        #[trigger] after[i].0,
        #[trigger] after[j].0,
    ) by {
        assert(after[i].0 == e[i].0);
        assert(after[j].0 == e[j].0);
    }
    assert forall|q: Seq<char>| #[trigger]
        lookup(after, q) == if q == e[pos].0 {
            Some(value)
        } else {
            lookup(e, q)
        } by {
        if q == e[pos].0 {
            lemma_lookup_at(after, pos);
        } else if lists(e, q) {
            let i = choose|i: int| 0 <= i < e.len() && #[trigger] e[i].0 == q;
            assert(after[i] == e[i]);
            lemma_lookup_at(e, i);
            lemma_lookup_at(after, i);
        } else if lists(after, q) {
            let i = choose|i: int| 0 <= i < after.len() && #[trigger] after[i].0 == q;
            assert(e[i].0 == q);
        }
    }
}

/// Entering a new key at its place in the order adds that key alone.
pub proof fn lemma_insert<V>(e: Seq<(Seq<char>, V)>, pos: int, key: Seq<char>, value: V)
    requires
        sorted_keys(e),
        0 <= pos <= e.len(),
        forall|k: int| 0 <= k < pos ==> lex_less(#[trigger] e[k].0, key),
        pos < e.len() ==> !lex_less(e[pos].0, key) && e[pos].0 != key,
    ensures
        sorted_keys(e.insert(pos, (key, value))),
        forall|q: Seq<char>| #[trigger]
            lookup(e.insert(pos, (key, value)), q) == if q == key {
                Some(value)
            } else {
                lookup(e, q)
            },
{
    let after = e.insert(pos, (key, value));
    if pos < e.len() {
        lemma_lex_total(e[pos].0, key);
    }
    assert forall|i: int, j: int| 0 <= i < j < after.len() implies lex_less(
        #[trigger] after[i].0,
        #[trigger] after[j].0,
    ) by {
        if j < pos {
            assert(after[i].0 == e[i].0 && after[j].0 == e[j].0);
        } else if j == pos {
            assert(after[i].0 == e[i].0);
        } else if i == pos {
            assert(after[j].0 == e[j - 1].0);
            if j - 1 > pos {
                assert(lex_less(e[pos].0, e[j - 1].0));
                lemma_lex_transitive(key, e[pos].0, e[j - 1].0);
            }
        } else if i < pos {
            assert(after[i].0 == e[i].0 && after[j].0 == e[j - 1].0);
        } else {
            assert(after[i].0 == e[i - 1].0 && after[j].0 == e[j - 1].0);
        }
    }
    assert forall|q: Seq<char>| #[trigger]
        lookup(after, q) == if q == key {
            Some(value)
        } else {
            lookup(e, q)
        } by {
        if q == key {
            assert(after[pos] == (key, value));
            lemma_lookup_at(after, pos);
        } else if lists(e, q) {
            let i = choose|i: int| 0 <= i < e.len() && #[trigger] e[i].0 == q;
            let i2 = if i < pos {
                i
            } else {
                i + 1
            };
            assert(after[i2] == e[i]);
            lemma_lookup_at(e, i);
            lemma_lookup_at(after, i2);
        } else if lists(after, q) {
            let i = choose|i: int| 0 <= i < after.len() && #[trigger] after[i].0 == q;
            if i < pos {
                assert(e[i].0 == q);
            } else {
                assert(e[i - 1].0 == q);
            }
        }
    }
}

/// Taking a pair out removes its key alone.
pub proof fn lemma_remove<V>(e: Seq<(Seq<char>, V)>, pos: int)
    requires
        sorted_keys(e),
        0 <= pos < e.len(),
    ensures
        sorted_keys(e.remove(pos)),
        forall|q: Seq<char>| #[trigger]
            lookup(e.remove(pos), q) == if q == e[pos].0 {
                None
            } else {
                lookup(e, q)
            },
{
    let after = e.remove(pos);
    let at = |i: int| if i < pos { i } else { i + 1 };
    assert forall|i: int| 0 <= i < after.len() implies #[trigger] after[i] == e[at(i)] by {}
    assert forall|i: int, j: int| 0 <= i < j < after.len() implies lex_less(
        #[trigger] after[i].0,
        #[trigger] after[j].0,
    ) by {
        assert(after[i] == e[at(i)] && after[j] == e[at(j)]);
    }
    assert forall|q: Seq<char>| #[trigger]
        lookup(after, q) == if q == e[pos].0 {
            None
        } else {
            lookup(e, q)
        } by {
        if lists(after, q) {
            let i = choose|i: int| 0 <= i < after.len() && #[trigger] after[i].0 == q;
            assert(after[i] == e[at(i)]);
            lemma_lookup_at(after, i);
            lemma_lookup_at(e, at(i));
            lemma_lex_irreflexive(q);
            if q == e[pos].0 {
                if at(i) < pos {
                    assert(lex_less(e[at(i)].0, e[pos].0));
                } else {
                    assert(lex_less(e[pos].0, e[at(i)].0));
                }
            }
        } else if q != e[pos].0 && lists(e, q) {
            let i = choose|i: int| 0 <= i < e.len() && #[trigger] e[i].0 == q;
            let i2 = if i < pos {
                i
            } else {
                i - 1
            };
            assert(after[i2] == e[i]);
            assert(after[i2].0 == q);
        }
    }
}

} // verus!
