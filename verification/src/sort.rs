//! A stable sort by keys, as `slice::sort_by_key` performs it.

use vstd::prelude::*;

use crate::text::{lemma_text_le_total, lemma_text_le_transitive, text_le, text_le_exec};

verus! {

/// Keys with a total preorder.
pub trait SortKey: Sized {
    /// `self` comes before or equals `other`.
    spec fn key_le(self, other: Self) -> bool;

    proof fn lemma_key_total(a: Self, b: Self)
        ensures
            a.key_le(b) || b.key_le(a),
    ;

    proof fn lemma_key_transitive(a: Self, b: Self, c: Self)
        requires
            a.key_le(b),
            b.key_le(c),
        ensures
            a.key_le(c),
    ;

    fn le(&self, other: &Self) -> (le: bool)
        ensures
            le == self.key_le(*other),
    ;
}

impl SortKey for usize {
    open spec fn key_le(self, other: Self) -> bool {
        self <= other
    }

    proof fn lemma_key_total(a: Self, b: Self) {
    }

    proof fn lemma_key_transitive(a: Self, b: Self, c: Self) {
    }

    fn le(&self, other: &Self) -> (le: bool) {
        *self <= *other
    }
}

impl SortKey for Vec<char> {
    open spec fn key_le(self, other: Self) -> bool {
        text_le(self@, other@)
    }

    proof fn lemma_key_total(a: Self, b: Self) {
        lemma_text_le_total(a@, b@);
    }

    proof fn lemma_key_transitive(a: Self, b: Self, c: Self) {
        lemma_text_le_transitive(a@, b@, c@);
    }

    fn le(&self, other: &Self) -> (le: bool) {
        text_le_exec(self, other)
    }
}

/// `order` lists each index below `n` exactly once.
pub open spec fn is_permutation(order: Seq<int>, n: nat) -> bool {
    &&& order.len() == n
    &&& forall|i: int| 0 <= i < order.len() ==> 0 <= #[trigger] order[i] < n
    &&& forall|i: int, j: int|
        0 <= i < order.len() && 0 <= j < order.len() && i != j ==> order[i] != order[j]
}

/// Taking the indices in `order` lists the keys in order, and indices with
/// equal keys keep their relative order: `order` is the stable sort of `keys`.
pub open spec fn stably_sorted<K: SortKey>(keys: Seq<K>, order: Seq<int>) -> bool {
    forall|i: int, j: int|
        #![trigger order[i], order[j]]
        0 <= i < j < order.len() ==> keys[order[i]].key_le(keys[order[j]]) && (keys[order[
            j]].key_le(keys[order[i]]) ==> order[i] < order[j])
}

/// `sorted` is `items` sorted stably by `keys`.
pub open spec fn sorted_by_keys<T, K: SortKey>(items: Seq<T>, keys: Seq<K>, sorted: Seq<T>) -> bool {
    exists|order: Seq<int>|
        #![trigger is_permutation(order, items.len())]
        is_permutation(order, items.len()) && stably_sorted(keys, order) && sorted.len()
            == items.len() && forall|i: int| 0 <= i < sorted.len() ==> #[trigger] sorted[i]
            == items[order[i]]
}

/// Sorts `items` stably by `keys`, one key per item.
pub fn stable_sort_by_keys<T, K: SortKey>(items: Vec<T>, keys: Vec<K>) -> (sorted: Vec<T>)
    requires
        items.len() == keys.len(),
    ensures
        sorted_by_keys(items@, keys@, sorted@),
{
    let ghost all_items = items@;
    let ghost all_keys = keys@;
    let n = items.len();
    let mut items = items;
    let mut keys = keys;
    let mut sorted: Vec<T> = Vec::new();
    let mut sorted_keys: Vec<K> = Vec::new();
    let ghost mut order: Seq<int> = Seq::empty();
    while items.len() > 0
        invariant
            items.len() == keys.len() <= n,
            n == all_items.len() == all_keys.len(),
            items@ == all_items.take(items.len() as int),
            keys@ == all_keys.take(keys.len() as int),
            sorted.len() == sorted_keys.len() == order.len() == n - items.len(),
            forall|i: int| 0 <= i < order.len() ==> items.len() <= #[trigger] order[i] < n,
            forall|i: int, j: int|
                0 <= i < order.len() && 0 <= j < order.len() && i != j ==> order[i] != order[j],
            forall|i: int| 0 <= i < order.len() ==> #[trigger] sorted@[i] == all_items[order[i]],
            forall|i: int| 0 <= i < order.len() ==> #[trigger] sorted_keys@[i] == all_keys[order[i]],
            stably_sorted(all_keys, order),
        decreases items.len(),
    {
        let ghost m = (items.len() - 1) as int;
        let item = items.pop().unwrap();
        let key = keys.pop().unwrap();
        assert(item == all_items[m]);
        assert(key == all_keys[m]);
        assert(items@ == all_items.take(m));
        assert(keys@ == all_keys.take(m));
        let mut pos: usize = 0;
        while pos < sorted_keys.len() && !key.le(&sorted_keys[pos])
            invariant
                pos <= sorted_keys.len(),
                forall|t: int| 0 <= t < pos ==> !key.key_le(#[trigger] sorted_keys@[t]),
            decreases sorted_keys.len() - pos,
        {
            pos = pos + 1;
        }
        let ghost old_order = order;
        let ghost old_keys = sorted_keys@;
        let ghost old_sorted = sorted@;
        proof {
            if pos < sorted_keys.len() {
                assert(key.key_le(sorted_keys@[pos as int]));
            }
            order = order.insert(pos as int, m);
            assert forall|i: int, j: int|
                #![trigger order[i], order[j]]
                0 <= i < j < order.len() implies all_keys[order[i]].key_le(all_keys[order[j]])
                && (all_keys[order[j]].key_le(all_keys[order[i]]) ==> order[i] < order[j]) by {
                if i < pos && j == pos {
                    K::lemma_key_total(key, old_keys[i]);
                    assert(old_keys[i] == all_keys[old_order[i]]);
                } else if i == pos {
                    assert(order[j] == old_order[j - 1]);
                    assert(old_keys[pos as int] == all_keys[old_order[pos as int]]);
                    if j - 1 > pos {
                        assert(all_keys[old_order[pos as int]].key_le(all_keys[old_order[j - 1]]));
                        K::lemma_key_transitive(
                            key,
                            all_keys[old_order[pos as int]],
                            all_keys[old_order[j - 1]],
                        );
                    }
                } else if i < pos && j < pos {
                    assert(order[i] == old_order[i] && order[j] == old_order[j]);
                } else if i < pos {
                    assert(order[i] == old_order[i] && order[j] == old_order[j - 1]);
                } else {
                    assert(order[i] == old_order[i - 1] && order[j] == old_order[j - 1]);
                }
            }
        }
        sorted.insert(pos, item);
        sorted_keys.insert(pos, key);
        proof {
            assert forall|i: int| 0 <= i < order.len() implies #[trigger] sorted@[i] == all_items[order[i]] by {
                if i > pos {
                    assert(order[i] == old_order[i - 1]);
                    assert(sorted@[i] == old_sorted[i - 1]);
                } else if i < pos {
                    assert(order[i] == old_order[i]);
                    assert(sorted@[i] == old_sorted[i]);
                }
            }
            assert forall|i: int| 0 <= i < order.len() implies #[trigger] sorted_keys@[i] == all_keys[order[i]] by {
                if i > pos {
                    assert(order[i] == old_order[i - 1]);
                    assert(sorted_keys@[i] == old_keys[i - 1]);
                } else if i < pos {
                    assert(order[i] == old_order[i]);
                    assert(sorted_keys@[i] == old_keys[i]);
                }
            }
            assert forall|i: int, j: int|
                0 <= i < order.len() && 0 <= j < order.len() && i != j implies order[i]
                != order[j] by {
                if i != pos && j != pos {
                    let oi = if i < pos { i } else { i - 1 };
                    let oj = if j < pos { j } else { j - 1 };
                    assert(order[i] == old_order[oi] && order[j] == old_order[oj]);
                } else if i != pos {
                    let oi = if i < pos { i } else { i - 1 };
                    assert(order[i] == old_order[oi]);
                } else if j != pos {
                    let oj = if j < pos { j } else { j - 1 };
                    assert(order[j] == old_order[oj]);
                }
            }
            assert forall|i: int| 0 <= i < order.len() implies m <= #[trigger] order[i] < n by {
                if i > pos {
                    assert(order[i] == old_order[i - 1]);
                } else if i < pos {
                    assert(order[i] == old_order[i]);
                }
            }
        }
    }
    assert(sorted_by_keys(all_items, all_keys, sorted@)) by {
        assert(is_permutation(order, all_items.len()));
    }
    sorted
}

} // verus!
