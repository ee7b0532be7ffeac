//! What holds of the message tree: of its leaves, and of the conversation
//! that ends at a message.

use crate::db::{
    by_age, chain_up, has_child, history_ids, is_leaf, leaf_ids, leaves_newest_first, older,
    parent_of, place, tree, StoredMessage,
};
use crate::text::{lemma_lex_irreflexive, lemma_lex_total, lemma_lex_transitive, lex_less};
use vstd::prelude::*;

verus! {

/// The order of creation is strict: no message comes before itself, and of
/// two messages at most one comes before the other.
pub proof fn lemma_older_strict(messages: Seq<StoredMessage>, a: i64, b: i64)
    ensures
        !older(messages, a, a),
        older(messages, a, b) ==> !older(messages, b, a),
{
    let at = messages[a - 1].created_at@;
    let bt = messages[b - 1].created_at@;
    lemma_lex_irreflexive(at);
    if lex_less(at, bt) && lex_less(bt, at) {
        lemma_lex_transitive(at, bt, at);
    }
}

/// The order of creation is transitive.
pub proof fn lemma_older_transitive(messages: Seq<StoredMessage>, a: i64, b: i64, c: i64)
    requires
        older(messages, a, b),
        older(messages, b, c),
    ensures
        older(messages, a, c),
{
    let at = messages[a - 1].created_at@;
    let bt = messages[b - 1].created_at@;
    let ct = messages[c - 1].created_at@;
    if lex_less(at, bt) && lex_less(bt, ct) {
        lemma_lex_transitive(at, bt, ct);
    }
}

/// Of two different messages one comes before the other.
pub proof fn lemma_older_total(messages: Seq<StoredMessage>, a: i64, b: i64)
    ensures
        a == b || older(messages, a, b) || older(messages, b, a),
{
    lemma_lex_total(messages[a - 1].created_at@, messages[b - 1].created_at@);
}

proof fn lemma_place_bounds(messages: Seq<StoredMessage>, sorted: Seq<i64>, id: i64)
    ensures
        0 <= place(messages, sorted, id) <= sorted.len(),
        forall|k: int|
            0 <= k < place(messages, sorted, id) ==> older(messages, #[trigger] sorted[k], id),
        place(messages, sorted, id) < sorted.len() ==> !older(
            messages,
            sorted[place(messages, sorted, id)],
            id,
        ),
    decreases sorted.len(),
{
    if sorted.len() > 0 && older(messages, sorted[0], id) {
        let rest = sorted.drop_first();
        lemma_place_bounds(messages, rest, id);
        assert forall|k: int| 0 <= k < place(messages, sorted, id) implies older(
            messages,
            #[trigger] sorted[k],
            id,
        ) by {
            if k > 0 {
                assert(sorted[k] == rest[k - 1]);
            }
        }
        if place(messages, sorted, id) < sorted.len() {
            assert(sorted[place(messages, sorted, id)] == rest[place(messages, rest, id)]);
        }
    }
}

/// Whether the ids of `s` rise strictly in the order of creation.
pub open spec fn rising(messages: Seq<StoredMessage>, s: Seq<i64>) -> bool {
    forall|i: int, j: int| 0 <= i < j < s.len() ==> older(messages, #[trigger] s[i], #[trigger] s[j])
}

/// Ordering by age keeps every id, each once, and leaves them rising in the
/// order of creation.
pub proof fn lemma_by_age(messages: Seq<StoredMessage>, ids: Seq<i64>)
    requires
        ids.no_duplicates(),
    ensures
        by_age(messages, ids).len() == ids.len(),
        forall|x: i64| #[trigger] by_age(messages, ids).contains(x) <==> ids.contains(x),
        rising(messages, by_age(messages, ids)),
        by_age(messages, ids).no_duplicates(),
    decreases ids.len(),
{
    if ids.len() > 0 {
        let front = ids.drop_last();
        let x = ids.last();
        let rest = by_age(messages, front);
        lemma_by_age(messages, front);
        lemma_place_bounds(messages, rest, x);
        let pos = place(messages, rest, x);
        let after = rest.insert(pos, x);
        assert(ids == front.push(x));
        assert(!front.contains(x)) by {
            if front.contains(x) {
                let i = choose|i: int| 0 <= i < front.len() && front[i] == x;
                assert(ids[i] == ids[ids.len() - 1]);
            }
        }
        assert forall|y: i64| #[trigger] after.contains(y) <==> ids.contains(y) by {
            vstd::seq_lib::lemma_seq_contains_after_push(front, x, y);
            assert(rest.contains(y) <==> front.contains(y));
            if after.contains(y) {
                let i = choose|i: int| 0 <= i < after.len() && after[i] == y;
                if i < pos {
                    assert(rest[i] == y);
                } else if i > pos {
                    assert(rest[i - 1] == y);
                }
            }
            if rest.contains(y) {
                let i = choose|i: int| 0 <= i < rest.len() && rest[i] == y;
                if i < pos {
                    assert(after[i] == y);
                } else {
                    assert(after[i + 1] == y);
                }
            }
            assert(after[pos] == x);
        }
        if pos < rest.len() {
            assert(rest.contains(rest[pos]));
            lemma_older_total(messages, x, rest[pos]);
        }
        assert forall|i: int, j: int| 0 <= i < j < after.len() implies older(
            messages,
            #[trigger] after[i],
            #[trigger] after[j],
        ) by {
            if j < pos {
                assert(after[i] == rest[i] && after[j] == rest[j]);
            } else if j == pos {
                assert(after[i] == rest[i]);
            } else if i == pos {
                assert(after[j] == rest[j - 1]);
                if j - 1 > pos {
                    assert(older(messages, rest[pos], rest[j - 1]));
                    lemma_older_transitive(messages, x, rest[pos], rest[j - 1]);
                }
            } else if i < pos {
                assert(after[i] == rest[i] && after[j] == rest[j - 1]);
            } else {
                assert(after[i] == rest[i - 1] && after[j] == rest[j - 1]);
            }
        }
        assert forall|i: int, j: int| 0 <= i < after.len() && 0 <= j < after.len() && i
            != j implies after[i] != after[j] by {
            lemma_older_strict(messages, after[i], after[j]);
            if i < j {
                assert(older(messages, after[i], after[j]));
            } else {
                assert(older(messages, after[j], after[i]));
            }
        }
    }
}

/// The leaves among the first `n` messages are listed each once, and
/// nothing else is.
pub proof fn lemma_leaf_ids(messages: Seq<StoredMessage>, n: int)
    requires
        n <= messages.len() < i64::MAX,
    ensures
        forall|x: i64| #[trigger]
            leaf_ids(messages, n).contains(x) <==> 1 <= x <= n && is_leaf(messages, x),
        leaf_ids(messages, n).no_duplicates(),
    decreases n,
{
    if n > 0 {
        let front = leaf_ids(messages, n - 1);
        lemma_leaf_ids(messages, n - 1);
        assert forall|x: i64| #[trigger]
            leaf_ids(messages, n).contains(x) <==> 1 <= x <= n && is_leaf(messages, x) by {
            assert(front.contains(x) <==> 1 <= x <= n - 1 && is_leaf(messages, x));
            vstd::seq_lib::lemma_seq_contains_after_push(front, n as i64, x);
        }
        if is_leaf(messages, n as i64) {
            let all = front.push(n as i64);
            assert forall|i: int, j: int| 0 <= i < all.len() && 0 <= j < all.len() && i
                != j implies all[i] != all[j] by {
                if i < front.len() {
                    assert(front.contains(front[i]));
                }
                if j < front.len() {
                    assert(front.contains(front[j]));
                }
            }
        }
    }
}

/// The leaves that are listed are exactly the messages without children,
/// each once, and the newest comes first.
pub proof fn lemma_leaves(messages: Seq<StoredMessage>)
    requires
        messages.len() < i64::MAX,
    ensures
        forall|x: i64| #[trigger]
            leaves_newest_first(messages).contains(x) <==> is_leaf(messages, x),
        leaves_newest_first(messages).no_duplicates(),
        forall|i: int, j: int|
            0 <= i < j < leaves_newest_first(messages).len() ==> older(
                messages,
                #[trigger] leaves_newest_first(messages)[j],
                #[trigger] leaves_newest_first(messages)[i],
            ),
{
    let ids = leaf_ids(messages, messages.len() as int);
    let up = by_age(messages, ids);
    let down = leaves_newest_first(messages);
    lemma_leaf_ids(messages, messages.len() as int);
    lemma_by_age(messages, ids);
    assert(down.len() == up.len());
    assert forall|k: int| 0 <= k < down.len() implies #[trigger] down[k] == up[up.len() - 1
        - k] by {}
    assert forall|x: i64| #[trigger] down.contains(x) <==> is_leaf(messages, x) by {
        assert(ids.contains(x) <==> 1 <= x <= messages.len() && is_leaf(messages, x));
        assert(up.contains(x) <==> ids.contains(x));
        if down.contains(x) {
            let k = choose|k: int| 0 <= k < down.len() && down[k] == x;
            assert(up[up.len() - 1 - k] == x);
            assert(up.contains(x));
        }
        if up.contains(x) {
            let k = choose|k: int| 0 <= k < up.len() && up[k] == x;
            assert(down[up.len() - 1 - k] == x);
        }
    }
    assert forall|i: int, j: int| 0 <= i < j < down.len() implies older(
        messages,
        #[trigger] down[j],
        #[trigger] down[i],
    ) by {
        assert(older(messages, up[up.len() - 1 - j], up[up.len() - 1 - i]));
    }
    assert forall|i: int, j: int| 0 <= i < down.len() && 0 <= j < down.len() && i
        != j implies down[i] != down[j] by {
        assert(up[up.len() - 1 - i] != up[up.len() - 1 - j]);
    }
}

/// A message that is added below `parent` becomes a leaf, its parent is a
/// leaf no longer, and every other message is a leaf exactly if it was one.
pub proof fn lemma_child_replaces_leaf(messages: Seq<StoredMessage>, child: StoredMessage)
    requires
        tree(messages),
        messages.len() + 1 < i64::MAX,
        child.id == messages.len() + 1,
        0 <= parent_of(child) <= messages.len(),
    ensures
        tree(messages.push(child)),
        forall|id: i64|
            is_leaf(messages.push(child), id) <==> id == child.id || (is_leaf(messages, id) && id
                != parent_of(child)),
{
    let grown = messages.push(child);
    assert forall|id: i64|
        is_leaf(grown, id) <==> id == child.id || (is_leaf(messages, id) && id != parent_of(
            child,
        )) by {
        if has_child(grown, id) {
            let j = choose|j: int| 0 <= j < grown.len() && parent_of(#[trigger] grown[j]) == id;
            if j < messages.len() {
                assert(grown[j] == messages[j]);
                assert(has_child(messages, id));
            }
        }
        if has_child(messages, id) {
            let j = choose|j: int|
                0 <= j < messages.len() && parent_of(#[trigger] messages[j]) == id;
            assert(grown[j] == messages[j]);
            assert(has_child(grown, id));
        }
        if id == parent_of(child) {
            assert(parent_of(grown[messages.len() as int]) == id);
        }
        if id == child.id {
            assert forall|j: int| 0 <= j < grown.len() implies parent_of(#[trigger] grown[j])
                != id by {
                if j < messages.len() {
                    assert(grown[j] == messages[j]);
                }
            }
        }
    }
    assert forall|i: int| 0 <= i < grown.len() implies (#[trigger] grown[i]).id == i + 1 by {
        if i < messages.len() {
            assert(grown[i] == messages[i]);
        }
    }
    assert forall|i: int| 0 <= i < grown.len() implies 0 <= parent_of(#[trigger] grown[i])
        <= i by {
        if i < messages.len() {
            assert(grown[i] == messages[i]);
        }
    }
}

/// The chain from a message up to the root: it starts at the message, ends
/// at a root, each of its messages is followed by its parent, and the ids
/// fall strictly.
pub proof fn lemma_chain_up(messages: Seq<StoredMessage>, id: i64)
    requires
        tree(messages),
        1 <= id <= messages.len(),
    ensures
        chain_up(messages, id).len() > 0,
        chain_up(messages, id)[0] == id,
        parent_of(messages[chain_up(messages, id).last() - 1]) == 0,
        forall|k: int|
            0 <= k < chain_up(messages, id).len() ==> 1 <= #[trigger] chain_up(messages, id)[k]
                <= id,
        forall|k: int|
            0 <= k < chain_up(messages, id).len() - 1 ==> parent_of(
                messages[#[trigger] chain_up(messages, id)[k] - 1],
            ) == chain_up(messages, id)[k + 1],
        forall|i: int, j: int|
            0 <= i < j < chain_up(messages, id).len() ==> #[trigger] chain_up(messages, id)[i]
                > #[trigger] chain_up(messages, id)[j],
        chain_up(messages, id).no_duplicates(),
    decreases id,
{
    let c = chain_up(messages, id);
    let p = parent_of(messages[id - 1]);
    assert(0 <= p <= id - 1);
    if 1 <= p {
        let up = chain_up(messages, p as i64);
        lemma_chain_up(messages, p as i64);
        assert(c == seq![id] + up);
        assert(c.last() == up.last());
        assert forall|k: int| 0 <= k < c.len() implies 1 <= #[trigger] c[k] <= id by {
            if k > 0 {
                assert(c[k] == up[k - 1]);
            }
        }
        assert forall|k: int| 0 <= k < c.len() - 1 implies parent_of(
            messages[#[trigger] c[k] - 1],
        ) == c[k + 1] by {
            if k > 0 {
                assert(c[k] == up[k - 1]);
                assert(c[k + 1] == up[k]);
            } else {
                assert(c[1] == up[0]);
            }
        }
        assert forall|i: int, j: int| 0 <= i < j < c.len() implies #[trigger] c[i]
            > #[trigger] c[j] by {
            assert(c[j] == up[j - 1]);
            if i > 0 {
                assert(c[i] == up[i - 1]);
            }
        }
    }
}

/// The conversation that ends at a message is not empty, holds the message
/// and its ancestors and nothing else, each once, and rises strictly in the
/// order of creation.
pub proof fn lemma_history(messages: Seq<StoredMessage>, leaf_id: i64)
    requires
        tree(messages),
        1 <= leaf_id <= messages.len(),
    ensures
        history_ids(messages, leaf_id).len() == chain_up(messages, leaf_id).len(),
        history_ids(messages, leaf_id).len() > 0,
        history_ids(messages, leaf_id).contains(leaf_id),
        forall|x: i64| #[trigger]
            history_ids(messages, leaf_id).contains(x) <==> chain_up(messages, leaf_id).contains(
                x,
            ),
        rising(messages, history_ids(messages, leaf_id)),
        history_ids(messages, leaf_id).no_duplicates(),
{
    lemma_chain_up(messages, leaf_id);
    lemma_by_age(messages, chain_up(messages, leaf_id));
    assert(chain_up(messages, leaf_id)[0] == leaf_id);
    assert(chain_up(messages, leaf_id).contains(leaf_id));
}

/// Whether no message of the conversation that ends at `leaf_id` bears an
/// earlier time than its parent.
pub open spec fn chronological(messages: Seq<StoredMessage>, leaf_id: i64) -> bool {
    forall|k: int|
        0 <= k < chain_up(messages, leaf_id).len() - 1 ==> !lex_less(
            messages[#[trigger] chain_up(messages, leaf_id)[k] - 1].created_at@,
            messages[chain_up(messages, leaf_id)[k + 1] - 1].created_at@,
        )
}

proof fn lemma_by_age_of_chain(messages: Seq<StoredMessage>, leaf_id: i64, m: int)
    requires
        tree(messages),
        1 <= leaf_id <= messages.len(),
        chronological(messages, leaf_id),
        0 <= m <= chain_up(messages, leaf_id).len(),
    ensures
        by_age(messages, chain_up(messages, leaf_id).take(m)) == chain_up(messages, leaf_id).take(
            m,
        ).reverse(),
    decreases m,
{
    let c = chain_up(messages, leaf_id);
    lemma_chain_up(messages, leaf_id);
    if m > 0 {
        lemma_by_age_of_chain(messages, leaf_id, m - 1);
        let front = c.take(m - 1);
        let rest = by_age(messages, front);
        let x = c[m - 1];
        assert(c.take(m).drop_last() == front);
        assert(c.take(m).last() == x);
        if m > 1 {
            let child = c[m - 2];
            assert(rest[0] == front[m - 2]);
            assert(rest[0] == child);
            assert(x < child);
            lemma_lex_total(messages[x - 1].created_at@, messages[child - 1].created_at@);
            assert(older(messages, x, child));
            lemma_older_strict(messages, x, child);
        }
        assert(place(messages, rest, x) == 0);
        assert(rest.insert(0, x) =~= c.take(m).reverse());
    } else {
        assert(c.take(0).reverse() =~= Seq::<i64>::empty());
    }
}

/// Where no message bears an earlier time than its parent, the
/// conversation that ends at a message starts at a root, ends at that
/// message, and each of its messages is the parent of the next.
pub proof fn lemma_history_runs_from_root(messages: Seq<StoredMessage>, leaf_id: i64)
    requires
        tree(messages),
        1 <= leaf_id <= messages.len(),
        chronological(messages, leaf_id),
    ensures
        history_ids(messages, leaf_id) == chain_up(messages, leaf_id).reverse(),
        parent_of(messages[history_ids(messages, leaf_id)[0] - 1]) == 0,
        history_ids(messages, leaf_id).last() == leaf_id,
        forall|k: int|
            0 < k < history_ids(messages, leaf_id).len() ==> parent_of(
                messages[#[trigger] history_ids(messages, leaf_id)[k] - 1],
            ) == history_ids(messages, leaf_id)[k - 1],
{
    let c = chain_up(messages, leaf_id);
    lemma_chain_up(messages, leaf_id);
    lemma_by_age_of_chain(messages, leaf_id, c.len() as int);
    assert(c.take(c.len() as int) == c);
    let h = history_ids(messages, leaf_id);
    assert forall|k: int| 0 < k < h.len() implies parent_of(messages[#[trigger] h[k] - 1])
        == h[k - 1] by {
        assert(h[k] == c[c.len() - 1 - k]);
        assert(h[k - 1] == c[c.len() - 1 - k + 1]);
    }
}

} // verus!
