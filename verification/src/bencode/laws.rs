//! What holds of the order in which a dictionary's entries are encoded.
use crate::bencode::encoder::{insert_position, key_le, sorted_order};
use vstd::prelude::*;

verus! {

/// Of two byte strings, one comes no later than the other.
pub proof fn lemma_key_le_total(left: Seq<u8>, right: Seq<u8>)
    ensures
        key_le(left, right) || key_le(right, left),
    decreases left.len(),
{
    if left.len() > 0 && right.len() > 0 && left[0] == right[0] {
        lemma_key_le_total(left.drop_first(), right.drop_first());
    }
}

/// Two byte strings of which each comes no later than the other are the
/// same.
pub proof fn lemma_key_le_antisymmetric(left: Seq<u8>, right: Seq<u8>)
    requires
        key_le(left, right),
        key_le(right, left),
    ensures
        left == right,
    decreases left.len(),
{
    if left.len() > 0 && right.len() > 0 {
        lemma_key_le_antisymmetric(left.drop_first(), right.drop_first());
        assert(left =~= seq![left[0]] + left.drop_first());
        assert(right =~= seq![right[0]] + right.drop_first());
    } else {
        assert(left =~= right);
    }
}

/// What comes no later than something that comes no later than a third
/// comes no later than the third.
pub proof fn lemma_key_le_transitive(first: Seq<u8>, second: Seq<u8>, third: Seq<u8>)
    requires
        key_le(first, second),
        key_le(second, third),
    ensures
        key_le(first, third),
    decreases first.len(),
{
    if first.len() > 0 && second.len() > 0 && third.len() > 0 {
        if first[0] == second[0] && second[0] == third[0] {
            lemma_key_le_transitive(
                first.drop_first(),
                second.drop_first(),
                third.drop_first(),
            );
        }
    }
}

/// Whether `order` names entries in the order of their keys, those with the
/// same key in the order of their places.
pub open spec fn is_ordered(order: Seq<int>, keys: Seq<Seq<u8>>) -> bool {
    forall|earlier: int, later: int|
        0 <= earlier < later < order.len() ==> key_le(
            keys[#[trigger] order[earlier]],
            keys[#[trigger] order[later]],
        ) && (key_le(keys[order[later]], keys[order[earlier]]) ==> order[earlier] < order[later])
}

/// Where an entry goes into an order: everything before that place comes no
/// later than the entry, and everything from that place on comes later.
proof fn lemma_insert_position_splits(order: Seq<int>, keys: Seq<Seq<u8>>, entry: int)
    requires
        is_ordered(order, keys),
    ensures
        0 <= insert_position(order, keys, entry) <= order.len(),
        forall|place: int|
            0 <= place < insert_position(order, keys, entry) ==> key_le(
                keys[#[trigger] order[place]],
                keys[entry],
            ),
        forall|place: int|
            insert_position(order, keys, entry) <= place < order.len() ==> !key_le(
                keys[#[trigger] order[place]],
                keys[entry],
            ),
    decreases order.len(),
{
    if order.len() > 0 {
        if key_le(keys[order.last()], keys[entry]) {
            assert forall|place: int| 0 <= place < order.len() implies key_le(
                keys[#[trigger] order[place]],
                keys[entry],
            ) by {
                if place < order.len() - 1 {
                    assert(key_le(keys[order[place]], keys[order[order.len() - 1]]));
                    lemma_key_le_transitive(keys[order[place]], keys[order.last()], keys[entry]);
                }
            }
        } else {
            let front = order.drop_last();
            assert(is_ordered(front, keys)) by {
                assert forall|earlier: int, later: int|
                    0 <= earlier < later < front.len() implies key_le(
                    keys[#[trigger] front[earlier]],
                    keys[#[trigger] front[later]],
                ) && (key_le(keys[front[later]], keys[front[earlier]]) ==> front[earlier]
                    < front[later]) by {
                    assert(front[earlier] == order[earlier] && front[later] == order[later]);
                }
            }
            lemma_insert_position_splits(front, keys, entry);
            assert forall|place: int|
                0 <= place < insert_position(order, keys, entry) implies key_le(
                keys[#[trigger] order[place]],
                keys[entry],
            ) by {
                assert(order[place] == front[place]);
            }
            assert forall|place: int|
                insert_position(order, keys, entry) <= place < order.len() implies !key_le(
                keys[#[trigger] order[place]],
                keys[entry],
            ) by {
                if place < order.len() - 1 {
                    assert(order[place] == front[place]);
                }
            }
        }
    }
}

/// The order in which a dictionary's entries are encoded is the order of
/// their keys, and entries with the same key keep the order of their places.
/// It names every entry exactly once.
pub proof fn lemma_sorted_order_is_ordered(keys: Seq<Seq<u8>>, count: nat)
    ensures
        sorted_order(keys, count).len() == count,
        is_ordered(sorted_order(keys, count), keys),
        sorted_order(keys, count).no_duplicates(),
        forall|place: int|
            0 <= place < count ==> 0 <= #[trigger] sorted_order(keys, count)[place] < count,
        forall|entry: int| 0 <= entry < count ==> sorted_order(keys, count).contains(entry),
    decreases count,
{
    if count > 0 {
        let before = sorted_order(keys, (count - 1) as nat);
        let entry = count - 1;
        lemma_sorted_order_is_ordered(keys, (count - 1) as nat);
        lemma_insert_position_splits(before, keys, entry);
        let position = insert_position(before, keys, entry);
        let order = before.insert(position, entry);
        assert(order == sorted_order(keys, count));
        assert forall|earlier: int, later: int| 0 <= earlier < later < order.len() implies key_le(
            keys[#[trigger] order[earlier]],
            keys[#[trigger] order[later]],
        ) && (key_le(keys[order[later]], keys[order[earlier]]) ==> order[earlier]
            < order[later]) by {
            if later == position {
                assert(order[earlier] == before[earlier]);
            } else if earlier == position {
                assert(order[later] == before[later - 1]);
                lemma_key_le_total(keys[before[later - 1]], keys[entry]);
            } else {
                let from_earlier = if earlier < position { earlier } else { earlier - 1 };
                let from_later = if later < position { later } else { later - 1 };
                assert(order[earlier] == before[from_earlier]);
                assert(order[later] == before[from_later]);
            }
        }
        assert forall|first: int, second: int|
            0 <= first < order.len() && 0 <= second < order.len()
                && first != second implies order[first] != order[second] by {
            let from_first = if first < position { first } else { first - 1 };
            let from_second = if second < position { second } else { second - 1 };
            if first != position {
                assert(order[first] == before[from_first]);
            }
            if second != position {
                assert(order[second] == before[from_second]);
            }
        }
        assert forall|place: int| 0 <= place < count implies 0 <= #[trigger] order[place]
            < count by {
            let from = if place < position { place } else { place - 1 };
            if place != position {
                assert(order[place] == before[from]);
            }
        }
        assert forall|wanted: int| 0 <= wanted < count implies order.contains(wanted) by {
            if wanted == entry {
                assert(order[position] == entry);
            } else {
                assert(before.contains(wanted));
                let from = choose|from: int| 0 <= from < before.len() && before[from] == wanted;
                let to = if from < position { from } else { from + 1 };
                assert(order[to] == wanted);
            }
        }
    }
}

} // verus!
