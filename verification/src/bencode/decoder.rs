//! Reading bencoded bytes back into values.
use super::encoder::{
    decimal, decimal_digits, insert_position, key_le, keys_of, sorted_order, spec_encode,
    spec_encode_entries, spec_encode_items, spec_encode_string,
};
use super::inverse::is_plain;
use super::types::BencodeDecodedValue;
use crate::bytes::copy_range;
use vstd::prelude::*;

verus! {

/// The bytes are not the encoding of a value.
#[derive(Debug, PartialEq, Eq, Clone, Copy, Structural)]
pub enum BencodeDecoderError {
    /// The bytes stop before the value does, or hold something that no
    /// encoding holds at that place.
    NotBencode,
}

/// Whether `byte` is one of the ASCII digits.
pub open spec fn is_digit(byte: u8) -> bool {
    48 <= byte <= 57
}

/// Where the run of digits that starts at `at` ends: at the first byte from
/// `at` on that is no digit, or at the end of the bytes.
pub open spec fn digits_end(bytes: Seq<u8>, at: int) -> int
    decreases bytes.len() - at,
{
    if at < 0 || at >= bytes.len() || !is_digit(bytes[at]) {
        at
    } else {
        digits_end(bytes, at + 1)
    }
}

/// The number that the digits `bytes[from .. to]` spell.
pub open spec fn digits_number(bytes: Seq<u8>, from: int, to: int) -> nat
    decreases to - from,
{
    if to <= from {
        0
    } else {
        digits_number(bytes, from, to - 1) * 10 + (bytes[to - 1] - 48) as nat
    }
}

/// Whether the digits `bytes[from .. to]` are how a number is written: there
/// is at least one, and the first is a zero only if it is the only one.
pub open spec fn is_plain_number(bytes: Seq<u8>, from: int, to: int) -> bool {
    from < to && (bytes[from] == 48 ==> to == from + 1)
}

/// What the integer at `at` is and where it ends, if an integer is encoded
/// there: `i`, then the number as it is written in decimal, with a minus
/// sign before a negative one, then `e`. A number is written without
/// leading zeros, zero has no sign, and the number fits 64 bits.
pub open spec fn integer_at(bytes: Seq<u8>, at: int) -> Option<(int, int)> {
    if 0 <= at && at + 1 < bytes.len() && bytes[at] == 105 {
        let negative = bytes[at + 1] == 45;
        let from = if negative {
            at + 2
        } else {
            at + 1
        };
        let to = digits_end(bytes, from);
        let magnitude = digits_number(bytes, from, to);
        let number = if negative {
            -magnitude
        } else {
            magnitude as int
        };
        if is_plain_number(bytes, from, to) && to < bytes.len() && bytes[to] == 101 && !(negative
            && magnitude == 0) && i64::MIN <= number <= i64::MAX {
            Some((number, to + 1))
        } else {
            None
        }
    } else {
        None
    }
}

/// Where the bytes of the string at `at` start and end, if a string is
/// encoded there: its length as it is written in decimal, a colon, and as
/// many bytes as the length says.
pub open spec fn string_at(bytes: Seq<u8>, at: int) -> Option<(int, int)> {
    let to = digits_end(bytes, at);
    let length = digits_number(bytes, at, to);
    if 0 <= at && is_plain_number(bytes, at, to) && to < bytes.len() && bytes[to] == 58 && to + 1
        + length <= bytes.len() {
        Some((to + 1, to + 1 + length))
    } else {
        None
    }
}

/// A run of digits stays within the bytes and holds digits only.
proof fn lemma_digits_end(bytes: Seq<u8>, at: int)
    requires
        0 <= at <= bytes.len(),
    ensures
        at <= digits_end(bytes, at) <= bytes.len(),
        forall|i: int| at <= i < digits_end(bytes, at) ==> is_digit(#[trigger] bytes[i]),
        digits_end(bytes, at) < bytes.len() ==> !is_digit(bytes[digits_end(bytes, at)]),
    decreases bytes.len() - at,
{
    if at < bytes.len() && is_digit(bytes[at]) {
        lemma_digits_end(bytes, at + 1);
    }
}

/// The digits of a number as it is written are its decimal digits.
proof fn lemma_plain_number_is_decimal(bytes: Seq<u8>, from: int, to: int)
    requires
        0 <= from,
        to <= bytes.len(),
        is_plain_number(bytes, from, to),
        forall|i: int| from <= i < to ==> is_digit(#[trigger] bytes[i]),
    ensures
        decimal_digits(digits_number(bytes, from, to)) == bytes.subrange(from, to),
        to > from + 1 ==> digits_number(bytes, from, to) >= 10,
    decreases to - from,
{
    let number = digits_number(bytes, from, to);
    let last = (bytes[to - 1] - 48) as nat;
    assert(is_digit(bytes[to - 1]));
    if to == from + 1 {
        assert(digits_number(bytes, from, from) == 0);
        assert(number == last);
        assert(decimal_digits(number) =~= bytes.subrange(from, to));
    } else {
        assert(is_digit(bytes[from]));
        lemma_plain_number_is_decimal(bytes, from, to - 1);
        let front = digits_number(bytes, from, to - 1);
        assert(front >= 1) by {
            if to - 1 == from + 1 {
                assert(digits_number(bytes, from, from) == 0);
                assert(front == (bytes[from] - 48) as nat);
            }
        }
        assert(number == front * 10 + last);
        assert(number / 10 == front && number % 10 == last);
        assert(decimal_digits(number) == decimal_digits(front).push((48 + last) as u8));
        assert(decimal_digits(number) =~= bytes.subrange(from, to));
    }
}

/// Reads the run of digits that starts at `at`: where it ends, and the
/// number it spells if that number is at most `limit`.
fn read_digits(bytes: &[u8], at: usize, limit: u64) -> (read: (usize, Option<u64>))
    requires
        at <= bytes@.len(),
    ensures
        read.0 == digits_end(bytes@, at as int),
        at <= read.0 <= bytes@.len(),
        match read.1 {
            Some(number) => number == digits_number(bytes@, at as int, read.0 as int) && number
                <= limit,
            None => digits_number(bytes@, at as int, read.0 as int) > limit,
        },
{
    let mut end: usize = at;
    let mut number: u128 = 0;
    let mut fits: bool = true;
    proof {
        lemma_digits_end(bytes@, at as int);
    }
    while end < bytes.len() && bytes[end] >= 48 && bytes[end] <= 57
        invariant
            at <= end <= bytes@.len(),
            digits_end(bytes@, at as int) == digits_end(bytes@, end as int),
            fits ==> number == digits_number(bytes@, at as int, end as int) && number <= limit,
            !fits ==> digits_number(bytes@, at as int, end as int) > limit,
        decreases bytes@.len() - end,
    {
        let digit: u128 = (bytes[end] - 48) as u128;
        if fits {
            let next: u128 = number * 10 + digit;
            if next > limit as u128 {
                fits = false;
            } else {
                number = next;
            }
        }
        end += 1;
    }
    if fits {
        (end, Some(number as u64))
    } else {
        (end, None)
    }
}

/// Reads the integer encoded at `at`, if there is one.
fn read_integer(bytes: &[u8], at: usize) -> (read: Option<(i64, usize)>)
    requires
        at <= bytes@.len(),
    ensures
        match read {
            Some((number, end)) => integer_at(bytes@, at as int) == Some(
                (number as int, end as int),
            )
                && at < end <= bytes@.len() && bytes@.subrange(at as int, end as int) == seq![
                105u8,
            ] + decimal(number as int) + seq![101u8],
            None => integer_at(bytes@, at as int) is None,
        },
{
    if bytes.len() - at < 2 || bytes[at] != 105 {
        return None;
    }
    let negative = bytes[at + 1] == 45;
    let from: usize = if negative {
        at + 2
    } else {
        at + 1
    };
    let (to, magnitude) = read_digits(bytes, from, 0x8000_0000_0000_0000);
    proof {
        lemma_digits_end(bytes@, from as int);
    }
    let plain = from < to && (bytes[from] != 48 || to == from + 1);
    if !plain || to >= bytes.len() || bytes[to] != 101 {
        return None;
    }
    let magnitude: u64 = match magnitude {
        Some(magnitude) => magnitude,
        None => {
            return None;
        },
    };
    if negative && magnitude == 0 {
        return None;
    }
    if !negative && magnitude > 0x7fff_ffff_ffff_ffff {
        return None;
    }
    let number: i64 = if negative {
        if magnitude == 0x8000_0000_0000_0000 {
            i64::MIN
        } else {
            -(magnitude as i64)
        }
    } else {
        magnitude as i64
    };
    proof {
        lemma_plain_number_is_decimal(bytes@, from as int, to as int);
        assert(bytes@.subrange(at as int, to + 1) =~= seq![105u8] + decimal(number as int) + seq![
            101u8,
        ]);
    }
    Some((number, to + 1))
}

/// Reads the string encoded at `at`, if there is one.
fn read_string(bytes: &[u8], at: usize) -> (read: Option<(Vec<u8>, usize)>)
    requires
        at <= bytes@.len(),
    ensures
        match read {
            Some((string, end)) => string_at(bytes@, at as int) == Some(
                (end - string@.len(), end as int),
            ) && at < end <= bytes@.len() && string@ == bytes@.subrange(
                end - string@.len(),
                end as int,
            ) && bytes@.subrange(at as int, end as int) == spec_encode_string(string@),
            None => string_at(bytes@, at as int) is None,
        },
{
    let (to, length) = read_digits(bytes, at, u64::MAX);
    proof {
        lemma_digits_end(bytes@, at as int);
    }
    let plain = at < to && (bytes[at] != 48 || to == at + 1);
    if !plain || to >= bytes.len() || bytes[to] != 58 {
        return None;
    }
    let length: u64 = match length {
        Some(length) => length,
        None => {
            return None;
        },
    };
    if length > (bytes.len() - to - 1) as u64 {
        return None;
    }
    let start: usize = to + 1;
    let end: usize = start + length as usize;
    let string = copy_range(bytes, start, end);
    proof {
        lemma_plain_number_is_decimal(bytes@, at as int, to as int);
        assert(bytes@.subrange(at as int, end as int) =~= spec_encode_string(string@));
    }
    Some((string, end))
}

/// How deep lists and dictionaries may lie within one another in what is
/// decoded.
pub const MAX_DEPTH: usize = 128;

/// Where the value at `at` ends, if a value is encoded there: an integer, a
/// string, a list or a dictionary, in which lists and dictionaries lie no
/// more than `depth` deep.
pub open spec fn value_end(bytes: Seq<u8>, at: int, depth: nat) -> Option<int>
    decreases bytes.len() - at, 0nat,
{
    if at < 0 || at >= bytes.len() {
        None
    } else if bytes[at] == 105 {
        match integer_at(bytes, at) {
            Some((_, end)) => Some(end),
            None => None,
        }
    } else if bytes[at] == 108 {
        if depth == 0 {
            None
        } else {
            items_end(bytes, at + 1, (depth - 1) as nat)
        }
    } else if bytes[at] == 100 {
        if depth == 0 {
            None
        } else {
            entries_end(bytes, at + 1, Seq::empty(), (depth - 1) as nat)
        }
    } else {
        match string_at(bytes, at) {
            Some((_, end)) => Some(end),
            None => None,
        }
    }
}

/// Where the list whose items start at `at` ends, if the bytes from `at` on
/// are values, one after the other, and then an `e`.
pub open spec fn items_end(bytes: Seq<u8>, at: int, depth: nat) -> Option<int>
    decreases bytes.len() - at, 1nat,
{
    if at < 0 || at >= bytes.len() {
        None
    } else if bytes[at] == 101 {
        Some(at + 1)
    } else {
        match value_end(bytes, at, depth) {
            Some(next) => if at < next <= bytes.len() {
                items_end(bytes, next, depth)
            } else {
                None
            },
            None => None,
        }
    }
}

/// Where the dictionary whose entries start at `at` ends, if the bytes from
/// `at` on are entries, one after the other, and then an `e`. An entry is a
/// string, the key, and a value; no key comes before the key of the entry
/// before it, which is `previous`.
pub open spec fn entries_end(bytes: Seq<u8>, at: int, previous: Seq<u8>, depth: nat) -> Option<
    int,
>
    decreases bytes.len() - at, 1nat,
{
    if at < 0 || at >= bytes.len() {
        None
    } else if bytes[at] == 101 {
        Some(at + 1)
    } else {
        match string_at(bytes, at) {
            Some((start, stop)) => if at < stop && key_le(previous, bytes.subrange(start, stop)) {
                match value_end(bytes, stop, depth) {
                    Some(next) => if stop < next <= bytes.len() {
                        entries_end(bytes, next, bytes.subrange(start, stop), depth)
                    } else {
                        None
                    },
                    None => None,
                }
            } else {
                None
            },
            None => None,
        }
    }
}

/// Whether every dictionary in the value holds its entries in the order of
/// their keys.
pub open spec fn in_key_order(value: BencodeDecodedValue) -> bool
    decreases value,
{
    match value {
        BencodeDecodedValue::List(list) => forall|i: int|
            0 <= i < list@.len() ==> in_key_order(#[trigger] list@[i]),
        BencodeDecodedValue::Dictionary(entries) => keys_ascend(keys_of(entries@)) && forall|i: int|
            0 <= i < entries@.len() ==> in_key_order((#[trigger] entries@[i]).1),
        _ => true,
    }
}

/// The places 0 to `count` - 1, in order.
pub open spec fn in_order(count: nat) -> Seq<int> {
    Seq::new(count, |place: int| place)
}

/// Whether no key comes before the key in front of it.
pub open spec fn keys_ascend(keys: Seq<Seq<u8>>) -> bool {
    forall|place: int| 0 < place < keys.len() ==> key_le(keys[place - 1], #[trigger] keys[place])
}

/// Entries that are held in the order of their keys are encoded in the
/// order in which they are held.
pub proof fn lemma_ascending_keys_keep_their_order(keys: Seq<Seq<u8>>, count: nat)
    requires
        keys_ascend(keys),
        count <= keys.len(),
    ensures
        sorted_order(keys, count) == in_order(count),
    decreases count,
{
    if count == 0 {
        assert(sorted_order(keys, 0) =~= in_order(0));
    } else {
        lemma_ascending_keys_keep_their_order(keys, (count - 1) as nat);
        let before = in_order((count - 1) as nat);
        if count > 1 {
            assert(before.last() == count - 2);
            assert(key_le(keys[count - 2], keys[count - 1]));
        }
        assert(insert_position(before, keys, count - 1) == count - 1);
        assert(before.insert(count - 1, count - 1) =~= in_order(count));
    }
}

/// The encoding of the first items of a list does not depend on what the
/// list holds behind them.
proof fn lemma_items_front(
    items: Seq<BencodeDecodedValue>,
    more: Seq<BencodeDecodedValue>,
    count: nat,
)
    requires
        count <= items.len(),
        items.len() <= more.len(),
        forall|i: int| 0 <= i < items.len() ==> items[i] == more[i],
    ensures
        spec_encode_items(more, count) == spec_encode_items(items, count),
    decreases count,
{
    if count > 0 {
        lemma_items_front(items, more, (count - 1) as nat);
    }
}

/// The encoding of the first entries of a dictionary, in the order in which
/// it holds them, does not depend on what the dictionary holds behind them.
proof fn lemma_entries_front(
    entries: Seq<(Vec<u8>, BencodeDecodedValue)>,
    more: Seq<(Vec<u8>, BencodeDecodedValue)>,
    count: nat,
)
    requires
        count <= entries.len(),
        entries.len() <= more.len(),
        forall|i: int| 0 <= i < entries.len() ==> entries[i] == more[i],
    ensures
        spec_encode_entries(more, in_order(more.len()), count) == spec_encode_entries(
            entries,
            in_order(entries.len()),
            count,
        ),
    decreases count,
{
    if count > 0 {
        lemma_entries_front(entries, more, (count - 1) as nat);
    }
}

/// Reads the value encoded at `at`, if there is one. The value that comes
/// back is one whose encoding is exactly the bytes that were read.
fn decode_value(bytes: &[u8], at: usize, depth: usize) -> (read: Option<
    (BencodeDecodedValue, usize),
>)
    requires
        at <= bytes@.len(),
    ensures
        match read {
            Some((value, end)) => value_end(bytes@, at as int, depth as nat) == Some(end as int)
                && at < end <= bytes@.len() && spec_encode(value) == bytes@.subrange(
                at as int,
                end as int,
            ) && is_plain(value, depth as nat) && in_key_order(value),
            None => value_end(bytes@, at as int, depth as nat) is None,
        },
    decreases bytes@.len() - at, 2nat,
{
    if at >= bytes.len() {
        return None;
    }
    let first = bytes[at];
    if first == 105 {
        match read_integer(bytes, at) {
            Some((number, end)) => Some((BencodeDecodedValue::Integer(number), end)),
            None => None,
        }
    } else if first == 108 {
        if depth == 0 {
            None
        } else {
            decode_list(bytes, at, depth - 1)
        }
    } else if first == 100 {
        if depth == 0 {
            None
        } else {
            decode_dictionary(bytes, at, depth - 1)
        }
    } else {
        match read_string(bytes, at) {
            Some((string, end)) => Some((BencodeDecodedValue::String(string), end)),
            None => None,
        }
    }
}

/// Reads the list encoded at `at`, if there is one.
fn decode_list(bytes: &[u8], at: usize, depth: usize) -> (read: Option<
    (BencodeDecodedValue, usize),
>)
    requires
        at < bytes@.len(),
        bytes@[at as int] == 108,
    ensures
        match read {
            Some((value, end)) => items_end(bytes@, at + 1, depth as nat) == Some(end as int)
                && at < end <= bytes@.len() && spec_encode(value) == bytes@.subrange(
                at as int,
                end as int,
            ) && is_plain(value, (depth + 1) as nat) && in_key_order(value),
            None => items_end(bytes@, at + 1, depth as nat) is None,
        },
    decreases bytes@.len() - at, 1nat,
{
    let length: usize = bytes.len();
    let mut items: Vec<BencodeDecodedValue> = Vec::new();
    let mut cursor: usize = at + 1;
    assert(bytes@.subrange(at + 1, cursor as int) =~= spec_encode_items(items@, 0));
    loop
        invariant
            at < cursor <= bytes@.len(),
            length == bytes@.len(),
            bytes@[at as int] == 108,
            items_end(bytes@, at + 1, depth as nat) == items_end(
                bytes@,
                cursor as int,
                depth as nat,
            ),
            bytes@.subrange(at + 1, cursor as int) == spec_encode_items(items@, items@.len()),
            forall|i: int|
                0 <= i < items@.len() ==> is_plain(#[trigger] items@[i], depth as nat)
                    && in_key_order(items@[i]),
        decreases bytes@.len() - cursor,
    {
        if cursor >= length {
            return None;
        }
        if bytes[cursor] == 101 {
            let ghost held = items@;
            let value = BencodeDecodedValue::List(items);
            assert(bytes@.subrange(at as int, cursor + 1) =~= seq![108u8] + spec_encode_items(
                held,
                held.len(),
            ) + seq![101u8]);
            return Some((value, cursor + 1));
        }
        match decode_value(bytes, cursor, depth) {
            Some((item, next)) => {
                let ghost held = items@;
                items.push(item);
                proof {
                    lemma_items_front(held, items@, held.len());
                    assert(bytes@.subrange(at + 1, next as int) =~= bytes@.subrange(
                        at + 1,
                        cursor as int,
                    ) + bytes@.subrange(cursor as int, next as int));
                }
                cursor = next;
            },
            None => {
                return None;
            },
        }
    }
}

/// Reads the dictionary encoded at `at`, if there is one.
fn decode_dictionary(bytes: &[u8], at: usize, depth: usize) -> (read: Option<
    (BencodeDecodedValue, usize),
>)
    requires
        at < bytes@.len(),
        bytes@[at as int] == 100,
    ensures
        match read {
            Some((value, end)) => entries_end(bytes@, at + 1, Seq::empty(), depth as nat) == Some(
                end as int,
            ) && at < end <= bytes@.len() && spec_encode(value) == bytes@.subrange(
                at as int,
                end as int,
            ) && is_plain(value, (depth + 1) as nat) && in_key_order(value),
            None => entries_end(bytes@, at + 1, Seq::empty(), depth as nat) is None,
        },
    decreases bytes@.len() - at, 1nat,
{
    let length: usize = bytes.len();
    let mut entries: Vec<(Vec<u8>, BencodeDecodedValue)> = Vec::new();
    let mut cursor: usize = at + 1;
    let ghost mut previous: Seq<u8> = Seq::empty();
    assert(bytes@.subrange(at + 1, cursor as int) =~= spec_encode_entries(
        entries@,
        in_order(0),
        0,
    ));
    loop
        invariant
            at < cursor <= bytes@.len(),
            length == bytes@.len(),
            bytes@[at as int] == 100,
            entries_end(bytes@, at + 1, Seq::empty(), depth as nat) == entries_end(
                bytes@,
                cursor as int,
                previous,
                depth as nat,
            ),
            keys_ascend(keys_of(entries@)),
            forall|i: int|
                0 <= i < entries@.len() ==> is_plain((#[trigger] entries@[i]).1, depth as nat)
                    && in_key_order(entries@[i].1),
            entries@.len() > 0 ==> previous == entries@.last().0@,
            bytes@.subrange(at + 1, cursor as int) == spec_encode_entries(
                entries@,
                in_order(entries@.len()),
                entries@.len(),
            ),
        decreases bytes@.len() - cursor,
    {
        if cursor >= length {
            return None;
        }
        if bytes[cursor] == 101 {
            let ghost held = entries@;
            let value = BencodeDecodedValue::Dictionary(entries);
            proof {
                lemma_ascending_keys_keep_their_order(keys_of(held), held.len());
                assert(bytes@.subrange(at as int, cursor + 1) =~= seq![100u8]
                    + spec_encode_entries(held, in_order(held.len()), held.len()) + seq![101u8]);
            }
            return Some((value, cursor + 1));
        }
        let (key, stop) = match read_string(bytes, cursor) {
            Some(read) => read,
            None => {
                return None;
            },
        };
        if entries.len() > 0 && !key_comes_no_earlier(
            entries[entries.len() - 1].0.as_slice(),
            key.as_slice(),
        ) {
            return None;
        }
        match decode_value(bytes, stop, depth) {
            Some((value, next)) => {
                let ghost held = entries@;
                let ghost key_bytes = key@;
                entries.push((key, value));
                proof {
                    lemma_entries_front(held, entries@, held.len());
                    assert(in_order(entries@.len())[held.len() as int] == held.len());
                    assert(bytes@.subrange(at + 1, next as int) =~= bytes@.subrange(
                        at + 1,
                        cursor as int,
                    ) + bytes@.subrange(cursor as int, stop as int) + bytes@.subrange(
                        stop as int,
                        next as int,
                    ));
                    assert forall|place: int| 0 < place < keys_of(entries@).len() implies key_le(
                        keys_of(entries@)[place - 1],
                        #[trigger] keys_of(entries@)[place],
                    ) by {
                        if place < held.len() {
                            assert(key_le(keys_of(held)[place - 1], keys_of(held)[place]));
                        }
                    }
                    previous = key_bytes;
                }
                cursor = next;
            },
            None => {
                return None;
            },
        }
    }
}

/// Whether the byte string `left` comes no later than `right`.
fn key_comes_no_earlier(left: &[u8], right: &[u8]) -> (ordered: bool)
    ensures
        ordered == key_le(left@, right@),
{
    let mut at: usize = 0;
    assert(left@.skip(0) =~= left@);
    assert(right@.skip(0) =~= right@);
    while at < left.len() && at < right.len()
        invariant
            at <= left@.len(),
            at <= right@.len(),
            key_le(left@, right@) == key_le(left@.skip(at as int), right@.skip(at as int)),
        decreases left@.len() - at,
    {
        if left[at] != right[at] {
            return left[at] < right[at];
        }
        assert(left@.skip(at as int).drop_first() =~= left@.skip(at + 1));
        assert(right@.skip(at as int).drop_first() =~= right@.skip(at + 1));
        at += 1;
    }
    at >= left.len()
}

/// Whether `bytes` are the encoding of one value and nothing else, with
/// lists and dictionaries no more than `MAX_DEPTH` deep within one another.
pub open spec fn is_bencode(bytes: Seq<u8>) -> bool {
    value_end(bytes, 0, MAX_DEPTH as nat) == Some(bytes.len() as int)
}

/// Decodes bencoded bytes into a value. Bytes that are the encoding of one
/// value, and nothing else, are decoded, and the value that comes back is
/// one whose encoding is exactly these bytes; any other bytes are refused.
/// The value is made of integers, strings, lists and dictionaries alone, and
/// its dictionaries hold their entries in the order of their keys; among
/// such values it is the only one with that encoding.
pub fn decode(bytes: &[u8]) -> (decoded: Result<BencodeDecodedValue, BencodeDecoderError>)
    ensures
        decoded is Ok <==> is_bencode(bytes@),
        decoded matches Ok(value) ==> spec_encode(value) == bytes@ && is_plain(
            value,
            MAX_DEPTH as nat,
        ) && in_key_order(value),
{
    match decode_value(bytes, 0, MAX_DEPTH) {
        Some((value, end)) => {
            if end == bytes.len() {
                assert(bytes@.subrange(0, end as int) =~= bytes@);
                Ok(value)
            } else {
                Err(BencodeDecoderError::NotBencode)
            }
        },
        None => Err(BencodeDecoderError::NotBencode),
    }
}

} // verus!
