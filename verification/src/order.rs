//! Stable alphabetical order by a key.

use vstd::prelude::*;

use crate::text;

verus! {

/// Whether the items stand in the order of their keys.
pub open spec fn ordered<T>(items: Seq<T>, key: spec_fn(T) -> Seq<char>) -> bool {
    forall|i: int, j: int|
        #![trigger items[i], items[j]]
        0 <= i < j < items.len() ==> !text::before(key(items[j]), key(items[i]))
}

/// Ordered items, with one more put behind all that do not follow it.
pub open spec fn placed<T>(items: Seq<T>, item: T, key: spec_fn(T) -> Seq<char>) -> Seq<T>
    decreases items.len(),
{
    if items.len() == 0 || !text::before(key(item), key(items.last())) {
        items.push(item)
    } else {
        placed(items.drop_last(), item, key).push(items.last())
    }
}

/// The items in the order of their keys; those with the same key stay in the
/// order in which they came.
pub open spec fn arranged<T>(items: Seq<T>, key: spec_fn(T) -> Seq<char>) -> Seq<T>
    decreases items.len(),
{
    if items.len() == 0 {
        Seq::empty()
    } else {
        placed(arranged(items.drop_last(), key), items.last(), key)
    }
}

/// One more item adds itself and nothing else.
pub proof fn lemma_placed_holds<T>(items: Seq<T>, item: T, key: spec_fn(T) -> Seq<char>)
    ensures
        placed(items, item, key).len() == items.len() + 1,
        placed(items, item, key).to_multiset() == items.to_multiset().insert(item),
        forall|i: int|
            0 <= i < items.len() + 1 ==> #[trigger] placed(items, item, key)[i] == item
                || items.contains(placed(items, item, key)[i]),
    decreases items.len(),
{
    broadcast use vstd::seq_lib::group_to_multiset_ensures;

    let all = placed(items, item, key);
    if items.len() == 0 || !text::before(key(item), key(items.last())) {
        assert forall|i: int| 0 <= i < items.len() + 1 implies #[trigger] all[i] == item
            || items.contains(all[i]) by {
            if i < items.len() {
                assert(all[i] == items[i]);
            }
        }
    } else {
        let init = items.drop_last();
        lemma_placed_holds(init, item, key);
        assert(items =~= init.push(items.last()));
        assert(init.to_multiset().insert(item).insert(items.last())
            =~= init.to_multiset().insert(items.last()).insert(item));
        assert forall|i: int| 0 <= i < items.len() + 1 implies #[trigger] all[i] == item
            || items.contains(all[i]) by {
            if i < init.len() + 1 {
                assert(all[i] == placed(init, item, key)[i]);
                if all[i] != item {
                    let k = choose|k: int| 0 <= k < init.len() && init[k] == all[i];
                    assert(items[k] == all[i]);
                }
            } else {
                assert(all[i] == items[items.len() - 1]);
            }
        }
    }
}

/// Putting an item in its place keeps the order.
pub proof fn lemma_placed_ordered<T>(items: Seq<T>, item: T, key: spec_fn(T) -> Seq<char>)
    requires
        ordered(items, key),
    ensures
        ordered(placed(items, item, key), key),
    decreases items.len(),
{
    let all = placed(items, item, key);
    if items.len() == 0 || !text::before(key(item), key(items.last())) {
        assert forall|i: int, j: int|
            #![trigger all[i], all[j]]
            0 <= i < j < all.len() implies !text::before(key(all[j]), key(all[i])) by {
            if j < items.len() {
                assert(all[i] == items[i] && all[j] == items[j]);
            } else if i < items.len() - 1 {
                let last = items[items.len() - 1];
                assert(all[i] == items[i]);
                if text::before(key(item), key(items[i])) {
                    assert(!text::before(key(last), key(items[i])));
                    text::before_is_total(key(last), key(items[i]));
                    if key(last) != key(items[i]) {
                        text::before_is_transitive(key(item), key(items[i]), key(last));
                    }
                }
            }
        }
    } else {
        let init = items.drop_last();
        let last = items[items.len() - 1];
        assert forall|i: int, j: int|
            #![trigger init[i], init[j]]
            0 <= i < j < init.len() implies !text::before(key(init[j]), key(init[i])) by {
            assert(init[i] == items[i] && init[j] == items[j]);
        }
        lemma_placed_ordered(init, item, key);
        lemma_placed_holds(init, item, key);
        let some = placed(init, item, key);
        assert forall|i: int, j: int|
            #![trigger all[i], all[j]]
            0 <= i < j < all.len() implies !text::before(key(all[j]), key(all[i])) by {
            if j < some.len() {
                assert(all[i] == some[i] && all[j] == some[j]);
            } else {
                assert(all[i] == some[i]);
                if some[i] == item {
                    if text::before(key(last), key(item)) {
                        text::before_is_transitive(key(item), key(last), key(item));
                        text::before_is_irreflexive(key(item));
                    }
                } else {
                    let k = choose|k: int| 0 <= k < init.len() && init[k] == some[i];
                    assert(items[k] == some[i]);
                    assert(!text::before(key(last), key(items[k])));
                }
            }
        }
    }
}

/// Arranging puts the items in order and neither adds nor drops any.
pub proof fn arranging_orders_and_keeps<T>(items: Seq<T>, key: spec_fn(T) -> Seq<char>)
    ensures
        ordered(arranged(items, key), key),
        arranged(items, key).to_multiset() == items.to_multiset(),
        arranged(items, key).len() == items.len(),
    decreases items.len(),
{
    broadcast use vstd::seq_lib::group_to_multiset_ensures;

    if items.len() > 0 {
        let init = items.drop_last();
        arranging_orders_and_keeps(init, key);
        lemma_placed_ordered(arranged(init, key), items.last(), key);
        lemma_placed_holds(arranged(init, key), items.last(), key);
        assert(items =~= init.push(items.last()));
    } else {
        assert(items =~= Seq::empty());
    }
}

/// Those of the items that have the key, in order.
pub open spec fn with_key<T>(items: Seq<T>, key: spec_fn(T) -> Seq<char>, k: Seq<char>) -> Seq<T>
    decreases items.len(),
{
    if items.len() == 0 {
        Seq::empty()
    } else if key(items.last()) == k {
        with_key(items.drop_last(), key, k).push(items.last())
    } else {
        with_key(items.drop_last(), key, k)
    }
}

/// A placed item stands behind those with the same key.
proof fn lemma_placed_behind_equals<T>(
    items: Seq<T>,
    item: T,
    key: spec_fn(T) -> Seq<char>,
    k: Seq<char>,
)
    ensures
        with_key(placed(items, item, key), key, k) == (if key(item) == k {
            with_key(items, key, k).push(item)
        } else {
            with_key(items, key, k)
        }),
    decreases items.len(),
{
    if items.len() == 0 || !text::before(key(item), key(items.last())) {
        assert(items.push(item).drop_last() =~= items);
    } else {
        let init = items.drop_last();
        lemma_placed_behind_equals(init, item, key, k);
        let some = placed(init, item, key);
        assert(some.push(items.last()).drop_last() =~= some);
        if key(item) == k {
            text::before_is_irreflexive(k);
        }
    }
}

/// Arranging keeps items with the same key in the order in which they came.
pub proof fn arranging_is_stable<T>(items: Seq<T>, key: spec_fn(T) -> Seq<char>, k: Seq<char>)
    ensures
        with_key(arranged(items, key), key, k) == with_key(items, key, k),
    decreases items.len(),
{
    if items.len() > 0 {
        arranging_is_stable(items.drop_last(), key, k);
        lemma_placed_behind_equals(arranged(items.drop_last(), key), items.last(), key, k);
    }
}

} // verus!
