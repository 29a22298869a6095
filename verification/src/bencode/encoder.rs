use super::laws::lemma_sorted_order_is_ordered;
use super::types::BencodeDecodedValue;
use crate::bytes::append_bytes;
use vstd::prelude::*;

verus! {

const INTEGER_START_TOKEN: u8 = 105;

const LIST_START_TOKEN: u8 = 108;

const DICTIONARY_START_TOKEN: u8 = 100;

const END_TOKEN: u8 = 101;

const STRING_START_TOKEN: u8 = 58;

/// The decimal digits of a natural number, in ASCII, without leading zeros.
pub open spec fn decimal_digits(number: nat) -> Seq<u8>
    decreases number,
{
    if number < 10 {
        seq![(48 + number) as u8]
    } else {
        decimal_digits(number / 10).push((48 + number % 10) as u8)
    }
}

/// A whole number in decimal, in ASCII, with a minus sign before a negative
/// one.
pub open spec fn decimal(number: int) -> Seq<u8> {
    if number < 0 {
        seq![45u8] + decimal_digits((-number) as nat)
    } else {
        decimal_digits(number as nat)
    }
}

/// Whether the byte string `left` comes no later than `right` in the order
/// of byte strings: byte by byte, the first difference decides, and a string
/// comes before those it is the front of.
pub open spec fn key_le(left: Seq<u8>, right: Seq<u8>) -> bool
    decreases left.len(),
{
    if left.len() == 0 {
        true
    } else if right.len() == 0 {
        false
    } else if left[0] != right[0] {
        left[0] < right[0]
    } else {
        key_le(left.drop_first(), right.drop_first())
    }
}

/// Where the entry `entry` goes into `order`, a list of entries in the order
/// of their keys: behind the last entry whose key comes no later than its
/// own.
pub open spec fn insert_position(order: Seq<int>, keys: Seq<Seq<u8>>, entry: int) -> int
    decreases order.len(),
{
    if order.len() == 0 {
        0
    } else if key_le(keys[order.last()], keys[entry]) {
        order.len() as int
    } else {
        insert_position(order.drop_last(), keys, entry)
    }
}

/// The first `count` entries of a dictionary in the order of their keys,
/// each named by its place in the dictionary. Entries with the same key stay
/// in the order in which the dictionary holds them.
pub open spec fn sorted_order(keys: Seq<Seq<u8>>, count: nat) -> Seq<int>
    decreases count,
{
    if count == 0 {
        Seq::empty()
    } else {
        let before = sorted_order(keys, (count - 1) as nat);
        before.insert(insert_position(before, keys, count - 1), count - 1)
    }
}

/// The keys of a dictionary's entries, in the order in which it holds them.
pub open spec fn keys_of(entries: Seq<(Vec<u8>, BencodeDecodedValue)>) -> Seq<Seq<u8>> {
    Seq::new(entries.len(), |i: int| entries[i].0@)
}

/// The encoding of a byte string: its length in decimal, a colon, and the
/// bytes.
pub open spec fn spec_encode_string(string: Seq<u8>) -> Seq<u8> {
    decimal(string.len() as int) + seq![58u8] + string
}

/// The encoding of a value: `i`, the number in decimal and `e` for a whole
/// number; the length, a colon and the bytes for a byte string; `l`, the
/// items' encodings and `e` for a list; `d`, each key's and value's encoding
/// in the order of the keys, and `e` for a dictionary.
pub open spec fn spec_encode(value: BencodeDecodedValue) -> Seq<u8>
    decreases value, 0nat,
{
    match value {
        BencodeDecodedValue::Integer(integer) => seq![105u8] + decimal(integer as int) + seq![
            101u8,
        ],
        BencodeDecodedValue::String(string) => spec_encode_string(string@),
        BencodeDecodedValue::List(list) => seq![108u8] + spec_encode_items(list@, list@.len())
            + seq![101u8],
        BencodeDecodedValue::Dictionary(entries) => seq![100u8] + spec_encode_entries(
            entries@,
            sorted_order(keys_of(entries@), entries@.len()),
            entries@.len(),
        ) + seq![101u8],
        BencodeDecodedValue::End => Seq::empty(),
    }
}

/// The encodings of the first `count` of `items`, one after the other.
pub open spec fn spec_encode_items(items: Seq<BencodeDecodedValue>, count: nat) -> Seq<u8>
    decreases items, count,
{
    if count == 0 || count > items.len() {
        Seq::empty()
    } else {
        spec_encode_items(items, (count - 1) as nat) + spec_encode(items[count - 1])
    }
}

/// The encodings of the entries that `order` names in its first `count`
/// places, one after the other: of each entry the key as a byte string, then
/// the value.
pub open spec fn spec_encode_entries(
    entries: Seq<(Vec<u8>, BencodeDecodedValue)>,
    order: Seq<int>,
    count: nat,
) -> Seq<u8>
    decreases entries, count,
{
    if count == 0 || count > order.len() {
        Seq::empty()
    } else {
        let entry = order[count - 1];
        spec_encode_entries(entries, order, (count - 1) as nat) + if 0 <= entry < entries.len() {
            spec_encode_string(entries[entry].0@) + spec_encode(entries[entry].1)
        } else {
            Seq::empty()
        }
    }
}

/// The decimal digits of `number`, in ASCII.
fn digits_of(number: u64) -> (digits: Vec<u8>)
    ensures
        digits@ == decimal_digits(number as nat),
    decreases number,
{
    if number < 10 {
        let mut digits: Vec<u8> = Vec::new();
        digits.push((48 + number) as u8);
        assert(digits@ =~= decimal_digits(number as nat));
        digits
    } else {
        let mut digits = digits_of(number / 10);
        digits.push((48 + number % 10) as u8);
        digits
    }
}

/// Encodes a whole number: `i`, the number in decimal, `e`.
pub fn encode_integer(integer: i64) -> (bytes: Vec<u8>)
    ensures
        bytes@ == spec_encode(BencodeDecodedValue::Integer(integer)),
{
    let mut bytes: Vec<u8> = Vec::new();
    bytes.push(INTEGER_START_TOKEN);
    if integer < 0 {
        bytes.push(45);
        let magnitude: u64 = (-(integer + 1)) as u64 + 1;
        append_bytes(&mut bytes, digits_of(magnitude).as_slice());
    } else {
        append_bytes(&mut bytes, digits_of(integer as u64).as_slice());
    }
    bytes.push(END_TOKEN);
    assert(bytes@ =~= spec_encode(BencodeDecodedValue::Integer(integer)));
    bytes
}

/// Encodes a byte string: its length in decimal, a colon, the bytes.
pub fn encode_string(string: &[u8]) -> (bytes: Vec<u8>)
    ensures
        bytes@ == spec_encode_string(string@),
{
    let mut bytes: Vec<u8> = digits_of(string.len() as u64);
    bytes.push(STRING_START_TOKEN);
    append_bytes(&mut bytes, string);
    bytes
}

/// Encodes a list: `l`, the encoding of each item in order, `e`.
pub fn encode_list(list: &Vec<BencodeDecodedValue>) -> (bytes: Vec<u8>)
    ensures
        bytes@ == spec_encode(BencodeDecodedValue::List(*list)),
    decreases list,
{
    let mut bytes: Vec<u8> = Vec::new();
    bytes.push(LIST_START_TOKEN);
    let mut item: usize = 0;
    assert(bytes@ =~= seq![108u8] + spec_encode_items(list@, 0));
    while item < list.len()
        invariant
            item <= list@.len(),
            bytes@ == seq![108u8] + spec_encode_items(list@, item as nat),
        decreases list@.len() - item,
    {
        let encoded = encode(&list[item]);
        append_bytes(&mut bytes, encoded.as_slice());
        assert(bytes@ =~= seq![108u8] + spec_encode_items(list@, (item + 1) as nat));
        item += 1;
    }
    bytes.push(END_TOKEN);
    bytes
}

/// Whether the byte string `left` comes no later than `right`.
fn key_comes_first(left: &[u8], right: &[u8]) -> (first: bool)
    ensures
        first == key_le(left@, right@),
{
    let mut at: usize = 0;
    assert(left@.skip(0) =~= left@);
    assert(right@.skip(0) =~= right@);
    while at < left.len() && at < right.len()
        invariant
            at <= left@.len(),
            at <= right@.len(),
            key_le(left@, right@) == key_le(left@.skip(at as int), right@.skip(at as int)),
        decreases left@.len() - at,
    {
        if left[at] != right[at] {
            return left[at] < right[at];
        }
        assert(left@.skip(at as int).drop_first() =~= left@.skip(at + 1));
        assert(right@.skip(at as int).drop_first() =~= right@.skip(at + 1));
        at += 1;
    }
    at >= left.len()
}

/// The entries of a dictionary in the order of their keys, each named by its
/// place in the dictionary.
fn order_entries(entries: &Vec<(Vec<u8>, BencodeDecodedValue)>) -> (order: Vec<usize>)
    ensures
        order@.len() == entries@.len(),
        forall|place: int|
            0 <= place < order@.len() ==> #[trigger] order@[place] as int == sorted_order(
                keys_of(entries@),
                entries@.len(),
            )[place],
        forall|place: int|
            0 <= place < order@.len() ==> (#[trigger] order@[place]) < entries@.len(),
{
    let ghost keys = keys_of(entries@);
    let mut order: Vec<usize> = Vec::new();
    let mut entry: usize = 0;
    while entry < entries.len()
        invariant
            entry <= entries@.len(),
            keys == keys_of(entries@),
            order@.len() == entry,
            order@.map_values(|place: usize| place as int) == sorted_order(keys, entry as nat),
            forall|place: int| 0 <= place < order@.len() ==> (#[trigger] order@[place]) < entry,
        decreases entries@.len() - entry,
    {
        let ghost before = order@.map_values(|place: usize| place as int);
        let mut position: usize = order.len();
        assert(before.take(position as int) =~= before);
        while position > 0 && !key_comes_first(
            entries[order[position - 1]].0.as_slice(),
            entries[entry].0.as_slice(),
        )
            invariant
                position <= order@.len(),
                entry < entries@.len(),
                keys == keys_of(entries@),
                before == order@.map_values(|place: usize| place as int),
                forall|place: int| 0 <= place < order@.len() ==> (#[trigger] order@[place]) < entry,
                insert_position(before, keys, entry as int) == insert_position(
                    before.take(position as int),
                    keys,
                    entry as int,
                ),
            decreases position,
        {
            assert(before.take(position as int).drop_last() =~= before.take(position - 1));
            assert(before.take(position as int).last() == order@[position - 1]);
            position -= 1;
        }
        proof {
            let front = before.take(position as int);
            if position > 0 {
                assert(front.last() == order@[position - 1]);
                assert(keys[front.last()] == entries@[order@[position - 1] as int].0@);
            }
            assert(insert_position(front, keys, entry as int) == position);
        }
        order.insert(position, entry);
        assert(order@.map_values(|place: usize| place as int) =~= before.insert(
            position as int,
            entry as int,
        ));
        entry += 1;
    }
    order
}

/// Encodes a dictionary: `d`, then for each entry, in the order of the keys,
/// the key as a byte string and the value, then `e`. Entries with the same
/// key stay in the order in which the dictionary holds them.
pub fn encode_dictionary(dictionary: &Vec<(Vec<u8>, BencodeDecodedValue)>) -> (bytes: Vec<u8>)
    ensures
        bytes@ == spec_encode(BencodeDecodedValue::Dictionary(*dictionary)),
    decreases dictionary,
{
    let ghost sorted = sorted_order(keys_of(dictionary@), dictionary@.len());
    let order = order_entries(dictionary);
    proof {
        lemma_sorted_order_is_ordered(keys_of(dictionary@), dictionary@.len());
    }
    let mut bytes: Vec<u8> = Vec::new();
    bytes.push(DICTIONARY_START_TOKEN);
    let mut place: usize = 0;
    assert(bytes@ =~= seq![100u8] + spec_encode_entries(dictionary@, sorted, 0));
    while place < order.len()
        invariant
            place <= order@.len(),
            order@.len() == dictionary@.len(),
            sorted.len() == dictionary@.len(),
            forall|p: int| 0 <= p < order@.len() ==> #[trigger] order@[p] as int == sorted[p],
            forall|p: int| 0 <= p < order@.len() ==> (#[trigger] order@[p]) < dictionary@.len(),
            bytes@ == seq![100u8] + spec_encode_entries(dictionary@, sorted, place as nat),
        decreases order@.len() - place,
    {
        let entry = &dictionary[order[place]];
        let key = encode_string(entry.0.as_slice());
        let value = encode(&entry.1);
        append_bytes(&mut bytes, key.as_slice());
        append_bytes(&mut bytes, value.as_slice());
        assert(bytes@ =~= seq![100u8] + spec_encode_entries(
            dictionary@,
            sorted,
            (place + 1) as nat,
        ));
        place += 1;
    }
    bytes.push(END_TOKEN);
    bytes
}

/// Encodes a value of the bencode format into bytes.
pub fn encode(value: &BencodeDecodedValue) -> (bytes: Vec<u8>)
    ensures
        bytes@ == spec_encode(*value),
    decreases value,
{
    match value {
        BencodeDecodedValue::Integer(integer) => encode_integer(*integer),
        BencodeDecodedValue::String(string) => encode_string(string.as_slice()),
        BencodeDecodedValue::List(list) => encode_list(list),
        BencodeDecodedValue::Dictionary(dictionary) => encode_dictionary(dictionary),
        BencodeDecodedValue::End => Vec::new(),
    }
}

} // verus!
