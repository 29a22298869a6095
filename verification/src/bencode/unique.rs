//! An encoding tells its value: two values with the same encoding are the
//! same, so decoding an encoding gives the value that was encoded.
use super::decoder::{
    MAX_DEPTH, in_key_order, in_order, is_digit, lemma_ascending_keys_keep_their_order, value_end,
};
use super::encoder::{
    keys_of, sorted_order, spec_encode, spec_encode_entries, spec_encode_items,
    spec_encode_string,
};
use super::inverse::{
    is_plain, lemma_entries_are_front, lemma_integer_reads, lemma_items_are_front,
    lemma_string_reads, lemma_value_reads,
};
use super::types::BencodeDecodedValue;
use vstd::prelude::*;

verus! {

/// Whether two values are the same: of the same kind, with the same number
/// or the same bytes, or with the same items or entries in the same order.
pub open spec fn same_value(left: BencodeDecodedValue, right: BencodeDecodedValue) -> bool
    decreases left,
{
    match (left, right) {
        (BencodeDecodedValue::Integer(a), BencodeDecodedValue::Integer(b)) => a == b,
        (BencodeDecodedValue::String(a), BencodeDecodedValue::String(b)) => a@ == b@,
        (BencodeDecodedValue::List(a), BencodeDecodedValue::List(b)) => a@.len() == b@.len()
            && forall|i: int| 0 <= i < a@.len() ==> same_value(#[trigger] a@[i], b@[i]),
        (BencodeDecodedValue::Dictionary(a), BencodeDecodedValue::Dictionary(b)) => a@.len()
            == b@.len() && forall|i: int|
            0 <= i < a@.len() ==> (#[trigger] a@[i]).0@ == b@[i].0@ && same_value(
                a@[i].1,
                b@[i].1,
            ),
        (BencodeDecodedValue::End, BencodeDecodedValue::End) => true,
        _ => false,
    }
}

/// The first byte of an encoding tells the kind of the value: `i` for an
/// integer, a digit for a string, `l` for a list, `d` for a dictionary.
pub proof fn lemma_first_byte(value: BencodeDecodedValue, depth: nat)
    requires
        is_plain(value, depth),
    ensures
        spec_encode(value).len() > 0,
        match value {
            BencodeDecodedValue::Integer(_) => spec_encode(value)[0] == 105,
            BencodeDecodedValue::String(_) => is_digit(spec_encode(value)[0]),
            BencodeDecodedValue::List(_) => spec_encode(value)[0] == 108,
            BencodeDecodedValue::Dictionary(_) => spec_encode(value)[0] == 100,
            BencodeDecodedValue::End => false,
        },
{
    let encoding = spec_encode(value);
    assert(encoding.subrange(0, encoding.len() as int) =~= encoding);
    match value {
        BencodeDecodedValue::Integer(number) => {
            lemma_integer_reads(encoding, 0, number);
        },
        BencodeDecodedValue::String(string) => {
            lemma_string_reads(encoding, 0, string@);
        },
        BencodeDecodedValue::List(list) => {
            assert(encoding =~= seq![108u8] + spec_encode_items(list@, list@.len()) + seq![101u8]);
        },
        BencodeDecodedValue::Dictionary(entries) => {
            assert(encoding =~= seq![100u8] + spec_encode_entries(
                entries@,
                sorted_order(keys_of(entries@), entries@.len()),
                entries@.len(),
            ) + seq![101u8]);
        },
        BencodeDecodedValue::End => {},
    }
}

/// Two values that stand encoded at the same place end at the same place,
/// so they have the same encoding.
proof fn lemma_same_place(
    bytes: Seq<u8>,
    at: int,
    left: BencodeDecodedValue,
    right: BencodeDecodedValue,
    depth: nat,
)
    requires
        is_plain(left, depth),
        is_plain(right, depth),
        0 <= at,
        at + spec_encode(left).len() <= bytes.len(),
        at + spec_encode(right).len() <= bytes.len(),
        bytes.subrange(at, at + spec_encode(left).len()) == spec_encode(left),
        bytes.subrange(at, at + spec_encode(right).len()) == spec_encode(right),
    ensures
        spec_encode(left) == spec_encode(right),
{
    lemma_value_reads(bytes, at, left, depth);
    lemma_value_reads(bytes, at, right, depth);
}

/// An encoding tells its value: two values made of integers, strings,
/// lists and dictionaries, whose dictionaries hold their entries in the
/// order of their keys, are the same if their encodings are.
pub proof fn lemma_encoding_tells_the_value(
    left: BencodeDecodedValue,
    right: BencodeDecodedValue,
    depth: nat,
)
    requires
        is_plain(left, depth),
        is_plain(right, depth),
        in_key_order(left),
        in_key_order(right),
        spec_encode(left) == spec_encode(right),
    ensures
        same_value(left, right),
    decreases left, 0nat,
{
    let encoding = spec_encode(left);
    lemma_first_byte(left, depth);
    lemma_first_byte(right, depth);
    assert(encoding.subrange(0, encoding.len() as int) =~= encoding);
    match (left, right) {
        (BencodeDecodedValue::Integer(a), BencodeDecodedValue::Integer(b)) => {
            lemma_integer_reads(encoding, 0, a);
            lemma_integer_reads(encoding, 0, b);
        },
        (BencodeDecodedValue::String(a), BencodeDecodedValue::String(b)) => {
            lemma_string_reads(encoding, 0, a@);
            lemma_string_reads(encoding, 0, b@);
        },
        (BencodeDecodedValue::List(a), BencodeDecodedValue::List(b)) => {
            let inner = spec_encode_items(a@, a@.len());
            let other = spec_encode_items(b@, b@.len());
            assert(encoding =~= seq![108u8] + inner + seq![101u8]);
            assert(encoding =~= seq![108u8] + other + seq![101u8]);
            assert(inner =~= encoding.subrange(1, encoding.len() - 1));
            assert(other =~= encoding.subrange(1, encoding.len() - 1));
            let fewer = if a@.len() <= b@.len() {
                a@.len()
            } else {
                b@.len()
            };
            lemma_items_tell(a@, b@, fewer, (depth - 1) as nat);
            if a@.len() < b@.len() {
                lemma_items_are_front(b@, a@.len() + 1);
                lemma_first_byte(b@[a@.len() as int], (depth - 1) as nat);
            }
            if b@.len() < a@.len() {
                lemma_items_are_front(a@, b@.len() + 1);
                lemma_first_byte(a@[b@.len() as int], (depth - 1) as nat);
            }
        },
        (BencodeDecodedValue::Dictionary(a), BencodeDecodedValue::Dictionary(b)) => {
            lemma_ascending_keys_keep_their_order(keys_of(a@), a@.len());
            lemma_ascending_keys_keep_their_order(keys_of(b@), b@.len());
            let inner = spec_encode_entries(a@, in_order(a@.len()), a@.len());
            let other = spec_encode_entries(b@, in_order(b@.len()), b@.len());
            assert(encoding =~= seq![100u8] + inner + seq![101u8]);
            assert(encoding =~= seq![100u8] + other + seq![101u8]);
            assert(inner =~= encoding.subrange(1, encoding.len() - 1));
            assert(other =~= encoding.subrange(1, encoding.len() - 1));
            let fewer = if a@.len() <= b@.len() {
                a@.len()
            } else {
                b@.len()
            };
            lemma_entries_tell(a@, b@, fewer, (depth - 1) as nat);
            if a@.len() < b@.len() {
                lemma_entries_are_front(b@, in_order(b@.len()), a@.len() + 1);
                lemma_first_byte(b@[a@.len() as int].1, (depth - 1) as nat);
            }
            if b@.len() < a@.len() {
                lemma_entries_are_front(a@, in_order(a@.len()), b@.len() + 1);
                lemma_first_byte(a@[b@.len() as int].1, (depth - 1) as nat);
            }
        },
        _ => {},
    }
}

/// Two lists with the same encoding have the same items, as far as both
/// reach: their first `count` items are the same, one by one, and take up
/// the same bytes.
proof fn lemma_items_tell(
    left: Seq<BencodeDecodedValue>,
    right: Seq<BencodeDecodedValue>,
    count: nat,
    depth: nat,
)
    requires
        forall|i: int|
            0 <= i < left.len() ==> is_plain(#[trigger] left[i], depth) && in_key_order(left[i]),
        forall|i: int|
            0 <= i < right.len() ==> is_plain(#[trigger] right[i], depth) && in_key_order(
                right[i],
            ),
        count <= left.len(),
        count <= right.len(),
        spec_encode_items(left, left.len()) == spec_encode_items(right, right.len()),
    ensures
        spec_encode_items(left, count) == spec_encode_items(right, count),
        forall|i: int| 0 <= i < count ==> same_value(#[trigger] left[i], right[i]),
    decreases left, count,
{
    if count > 0 {
        let before = (count - 1) as nat;
        lemma_items_tell(left, right, before, depth);
        let all = spec_encode_items(left, left.len());
        let front = spec_encode_items(left, before);
        let mine = spec_encode(left[before as int]);
        let theirs = spec_encode(right[before as int]);
        let start = front.len() as int;
        lemma_items_are_front(left, count);
        lemma_items_are_front(right, count);
        assert(spec_encode_items(left, count) == front + mine);
        assert(spec_encode_items(right, count) == front + theirs);
        assert(all.subrange(start, start + mine.len()) =~= mine) by {
            assert forall|i: int| 0 <= i < mine.len() implies all[start + i] == mine[i] by {
                assert(all.subrange(0, start + mine.len())[start + i] == (front + mine)[start
                    + i]);
            }
        }
        assert(all.subrange(start, start + theirs.len()) =~= theirs) by {
            assert forall|i: int| 0 <= i < theirs.len() implies all[start + i] == theirs[i] by {
                assert(all.subrange(0, start + theirs.len())[start + i] == (front + theirs)[start
                    + i]);
            }
        }
        lemma_same_place(all, start, left[before as int], right[before as int], depth);
        lemma_encoding_tells_the_value(left[before as int], right[before as int], depth);
    }
}

/// Two dictionaries that hold their entries in the order of their keys and
/// have the same encoding have the same entries, as far as both reach:
/// their first `count` entries have the same keys and the same values, one
/// by one, and take up the same bytes.
proof fn lemma_entries_tell(
    left: Seq<(Vec<u8>, BencodeDecodedValue)>,
    right: Seq<(Vec<u8>, BencodeDecodedValue)>,
    count: nat,
    depth: nat,
)
    requires
        forall|i: int|
            0 <= i < left.len() ==> is_plain((#[trigger] left[i]).1, depth) && in_key_order(
                left[i].1,
            ),
        forall|i: int|
            0 <= i < right.len() ==> is_plain((#[trigger] right[i]).1, depth) && in_key_order(
                right[i].1,
            ),
        count <= left.len(),
        count <= right.len(),
        spec_encode_entries(left, in_order(left.len()), left.len()) == spec_encode_entries(
            right,
            in_order(right.len()),
            right.len(),
        ),
    ensures
        spec_encode_entries(left, in_order(left.len()), count) == spec_encode_entries(
            right,
            in_order(right.len()),
            count,
        ),
        forall|i: int|
            0 <= i < count ==> (#[trigger] left[i]).0@ == right[i].0@ && same_value(
                left[i].1,
                right[i].1,
            ),
    decreases left, count,
{
    if count > 0 {
        let before = (count - 1) as nat;
        lemma_entries_tell(left, right, before, depth);
        let all = spec_encode_entries(left, in_order(left.len()), left.len());
        let front = spec_encode_entries(left, in_order(left.len()), before);
        let my_key = spec_encode_string(left[before as int].0@);
        let their_key = spec_encode_string(right[before as int].0@);
        let mine = spec_encode(left[before as int].1);
        let theirs = spec_encode(right[before as int].1);
        lemma_entries_are_front(left, in_order(left.len()), count);
        lemma_entries_are_front(right, in_order(right.len()), count);
        assert(in_order(left.len())[before as int] == before);
        assert(in_order(right.len())[before as int] == before);
        assert(spec_encode_entries(left, in_order(left.len()), count) == front + (my_key + mine));
        assert(spec_encode_entries(right, in_order(right.len()), count) == front + (their_key
            + theirs));
        let start = front.len() as int;
        assert forall|i: int| 0 <= i < my_key.len() + mine.len() implies all[start + i] == (my_key
            + mine)[i] by {
            assert(all.subrange(0, start + my_key.len() + mine.len())[start + i] == (front + (
            my_key + mine))[start + i]);
        }
        assert forall|i: int| 0 <= i < their_key.len() + theirs.len() implies all[start + i] == (
        their_key + theirs)[i] by {
            assert(all.subrange(0, start + their_key.len() + theirs.len())[start + i] == (front
                + (their_key + theirs))[start + i]);
        }
        assert(all.subrange(start, start + my_key.len()) =~= my_key) by {
            assert forall|i: int| 0 <= i < my_key.len() implies all[start + i] == my_key[i] by {
                assert((my_key + mine)[i] == my_key[i]);
            }
        }
        assert(all.subrange(start, start + their_key.len()) =~= their_key) by {
            assert forall|i: int| 0 <= i < their_key.len() implies all[start + i]
                == their_key[i] by {
                assert((their_key + theirs)[i] == their_key[i]);
            }
        }
        lemma_string_reads(all, start, left[before as int].0@);
        lemma_string_reads(all, start, right[before as int].0@);
        assert(my_key.len() == their_key.len());
        assert(left[before as int].0@ == right[before as int].0@);
        let stop = start + my_key.len();
        assert(all.subrange(stop, stop + mine.len()) =~= mine) by {
            assert forall|i: int| 0 <= i < mine.len() implies all[stop + i] == mine[i] by {
                assert((my_key + mine)[my_key.len() + i] == mine[i]);
                assert(all[start + (my_key.len() + i)] == (my_key + mine)[my_key.len() + i]);
            }
        }
        assert(all.subrange(stop, stop + theirs.len()) =~= theirs) by {
            assert forall|i: int| 0 <= i < theirs.len() implies all[stop + i] == theirs[i] by {
                assert((their_key + theirs)[their_key.len() + i] == theirs[i]);
                assert(all[start + (their_key.len() + i)] == (their_key + theirs)[their_key.len()
                    + i]);
            }
        }
        lemma_same_place(all, stop, left[before as int].1, right[before as int].1, depth);
        lemma_encoding_tells_the_value(left[before as int].1, right[before as int].1, depth);
    }
}

/// Decoding undoes encoding to the value itself: a value that is decoded
/// from the encoding of a value made of integers, strings, lists and
/// dictionaries, no more than `MAX_DEPTH` deep within one another, whose
/// dictionaries hold their entries in the order of their keys, is that
/// value. What `decode` gives back for such an encoding is plain, in key
/// order and has that encoding, and is therefore the value that was
/// encoded.
pub proof fn lemma_decoding_gives_the_value(
    value: BencodeDecodedValue,
    decoded: BencodeDecodedValue,
)
    requires
        is_plain(value, MAX_DEPTH as nat),
        in_key_order(value),
        is_plain(decoded, MAX_DEPTH as nat),
        in_key_order(decoded),
        spec_encode(decoded) == spec_encode(value),
    ensures
        same_value(decoded, value),
{
    lemma_encoding_tells_the_value(decoded, value, MAX_DEPTH as nat);
}

} // verus!
