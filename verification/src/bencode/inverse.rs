//! Decoding undoes encoding: the encoding of a value is bencode, and is read
//! back where it stands.
use super::decoder::{
    MAX_DEPTH, digits_end, digits_number, entries_end, integer_at, is_bencode, is_digit,
    is_plain_number, items_end, string_at, value_end,
};
use super::encoder::{
    decimal, decimal_digits, key_le, keys_of, sorted_order, spec_encode, spec_encode_entries,
    spec_encode_items, spec_encode_string,
};
use super::laws::{is_ordered, lemma_sorted_order_is_ordered};
use super::types::BencodeDecodedValue;
use vstd::prelude::*;

verus! {

/// Whether the value is made of integers, strings, lists and dictionaries
/// alone, with lists and dictionaries no more than `depth` deep within one
/// another. The end mark is no part of such a value.
pub open spec fn is_plain(value: BencodeDecodedValue, depth: nat) -> bool
    decreases value,
{
    match value {
        BencodeDecodedValue::Integer(_) => true,
        BencodeDecodedValue::String(_) => true,
        BencodeDecodedValue::List(list) => depth > 0 && forall|i: int|
            0 <= i < list@.len() ==> is_plain(#[trigger] list@[i], (depth - 1) as nat),
        BencodeDecodedValue::Dictionary(entries) => depth > 0 && forall|i: int|
            0 <= i < entries@.len() ==> is_plain((#[trigger] entries@[i]).1, (depth - 1) as nat),
        BencodeDecodedValue::End => false,
    }
}

/// The decimal digits of a number are digits, at least one of them, and
/// they begin with a zero only if the number is zero.
proof fn lemma_decimal_digits(number: nat)
    ensures
        decimal_digits(number).len() >= 1,
        forall|i: int|
            0 <= i < decimal_digits(number).len() ==> is_digit(
                #[trigger] decimal_digits(number)[i],
            ),
        decimal_digits(number)[0] == 48 ==> number == 0,
        number == 0 ==> decimal_digits(number).len() == 1,
    decreases number,
{
    if number >= 10 {
        lemma_decimal_digits(number / 10);
    }
}

/// A run of digits that ends before a byte that is no digit ends there.
proof fn lemma_digits_run(bytes: Seq<u8>, from: int, to: int)
    requires
        0 <= from <= to < bytes.len(),
        forall|i: int| from <= i < to ==> is_digit(#[trigger] bytes[i]),
        !is_digit(bytes[to]),
    ensures
        digits_end(bytes, from) == to,
    decreases to - from,
{
    if from < to {
        assert(is_digit(bytes[from]));
        lemma_digits_run(bytes, from + 1, to);
    }
}

/// The decimal digits of a number spell the number.
proof fn lemma_digits_spell(bytes: Seq<u8>, from: int, number: nat)
    requires
        0 <= from,
        from + decimal_digits(number).len() <= bytes.len(),
        bytes.subrange(from, from + decimal_digits(number).len()) == decimal_digits(number),
    ensures
        digits_number(bytes, from, from + decimal_digits(number).len()) == number,
    decreases number,
{
    let digits = decimal_digits(number);
    let to = from + digits.len();
    assert(bytes[to - 1] == digits[digits.len() - 1]);
    if number < 10 {
        assert(digits_number(bytes, from, from) == 0);
    } else {
        let front = decimal_digits(number / 10);
        assert(bytes.subrange(from, from + front.len()) =~= front) by {
            assert forall|i: int| 0 <= i < front.len() implies bytes.subrange(
                from,
                from + front.len(),
            )[i] == front[i] by {
                assert(bytes[from + i] == digits[i]);
            }
        }
        lemma_digits_spell(bytes, from, number / 10);
    }
}

/// Where the digits of a number stand before a byte that is no digit, they
/// are read as that number, written plainly.
proof fn lemma_number_reads(bytes: Seq<u8>, from: int, number: nat)
    requires
        0 <= from,
        from + decimal_digits(number).len() < bytes.len(),
        bytes.subrange(from, from + decimal_digits(number).len()) == decimal_digits(number),
        !is_digit(bytes[from + decimal_digits(number).len()]),
    ensures
        digits_end(bytes, from) == from + decimal_digits(number).len(),
        digits_number(bytes, from, from + decimal_digits(number).len()) == number,
        is_plain_number(bytes, from, from + decimal_digits(number).len()),
{
    let digits = decimal_digits(number);
    let to = from + digits.len();
    lemma_decimal_digits(number);
    assert forall|i: int| from <= i < to implies is_digit(#[trigger] bytes[i]) by {
        assert(bytes[i] == digits[i - from]);
    }
    lemma_digits_run(bytes, from, to);
    lemma_digits_spell(bytes, from, number);
    assert(bytes[from] == digits[0]);
}

/// Where the encoding of an integer stands, an integer is read, and it ends
/// where the encoding ends.
pub proof fn lemma_integer_reads(bytes: Seq<u8>, at: int, number: i64)
    requires
        0 <= at,
        at + spec_encode(BencodeDecodedValue::Integer(number)).len() <= bytes.len(),
        bytes.subrange(at, at + spec_encode(BencodeDecodedValue::Integer(number)).len())
            == spec_encode(BencodeDecodedValue::Integer(number)),
    ensures
        integer_at(bytes, at) == Some(
            (number as int, at + spec_encode(BencodeDecodedValue::Integer(number)).len()),
        ),
        bytes[at] == 105,
{
    let encoding = spec_encode(BencodeDecodedValue::Integer(number));
    let text = decimal(number as int);
    assert(encoding =~= seq![105u8] + text + seq![101u8]);
    assert forall|i: int| 0 <= i < encoding.len() implies bytes[at + i] == encoding[i] by {
        assert(bytes.subrange(at, at + encoding.len())[i] == encoding[i]);
    }
    assert(bytes[at] == encoding[0]);
    let magnitude: nat = if number < 0 {
        (-number) as nat
    } else {
        number as nat
    };
    let from = if number < 0 {
        at + 2
    } else {
        at + 1
    };
    lemma_decimal_digits(magnitude);
    let digits = decimal_digits(magnitude);
    assert(bytes[at + 1] == encoding[1]);
    assert(number >= 0 ==> is_digit(bytes[at + 1])) by {
        if number >= 0 {
            assert(encoding[1] == digits[0]);
        }
    }
    assert(bytes.subrange(from, from + digits.len()) =~= digits) by {
        assert forall|i: int| 0 <= i < digits.len() implies bytes.subrange(
            from,
            from + digits.len(),
        )[i] == digits[i] by {
            assert(bytes[from + i] == encoding[from - at + i]);
        }
    }
    assert(bytes[from + digits.len()] == encoding[encoding.len() - 1]);
    lemma_number_reads(bytes, from, magnitude);
}

/// Where the encoding of a string stands, a string is read, and it ends
/// where the encoding ends.
pub proof fn lemma_string_reads(bytes: Seq<u8>, at: int, string: Seq<u8>)
    requires
        0 <= at,
        at + spec_encode_string(string).len() <= bytes.len(),
        bytes.subrange(at, at + spec_encode_string(string).len()) == spec_encode_string(string),
    ensures
        string_at(bytes, at) == Some(
            (
                at + spec_encode_string(string).len() - string.len(),
                at + spec_encode_string(string).len(),
            ),
        ),
        bytes.subrange(
            at + spec_encode_string(string).len() - string.len(),
            at + spec_encode_string(string).len(),
        ) == string,
        is_digit(bytes[at]),
{
    let encoding = spec_encode_string(string);
    lemma_decimal_digits(string.len());
    let digits = decimal_digits(string.len());
    assert(encoding =~= digits + seq![58u8] + string);
    assert forall|i: int| 0 <= i < encoding.len() implies bytes[at + i] == encoding[i] by {
        assert(bytes.subrange(at, at + encoding.len())[i] == encoding[i]);
    }
    assert(bytes.subrange(at, at + digits.len()) =~= digits) by {
        assert forall|i: int| 0 <= i < digits.len() implies bytes.subrange(
            at,
            at + digits.len(),
        )[i] == digits[i] by {
            assert(bytes[at + i] == encoding[i]);
        }
    }
    assert(bytes[at + digits.len()] == encoding[digits.len() as int]);
    lemma_number_reads(bytes, at, string.len());
    assert(bytes[at] == digits[0]);
    assert(bytes.subrange(at + encoding.len() - string.len(), at + encoding.len()) =~= string) by {
        assert forall|i: int| 0 <= i < string.len() implies bytes.subrange(
            at + encoding.len() - string.len(),
            at + encoding.len(),
        )[i] == string[i] by {
            assert(bytes[at + digits.len() + 1 + i] == encoding[digits.len() + 1 + i]);
        }
    }
}

/// A part of a byte string that stands in another stands there at its own
/// place.
pub proof fn lemma_part(bytes: Seq<u8>, at: int, whole: Seq<u8>, offset: int, part: Seq<u8>)
    requires
        0 <= at,
        at + whole.len() <= bytes.len(),
        bytes.subrange(at, at + whole.len()) == whole,
        0 <= offset,
        offset + part.len() <= whole.len(),
        whole.subrange(offset, offset + part.len()) == part,
    ensures
        bytes.subrange(at + offset, at + offset + part.len()) == part,
{
    assert forall|i: int| 0 <= i < part.len() implies bytes.subrange(
        at + offset,
        at + offset + part.len(),
    )[i] == part[i] by {
        assert(bytes.subrange(at, at + whole.len())[offset + i] == whole[offset + i]);
        assert(whole.subrange(offset, offset + part.len())[i] == part[i]);
    }
    assert(bytes.subrange(at + offset, at + offset + part.len()) =~= part);
}

/// The encoding of the first items of a list is the front of the encoding
/// of all of them.
pub proof fn lemma_items_are_front(items: Seq<BencodeDecodedValue>, count: nat)
    requires
        count <= items.len(),
    ensures
        spec_encode_items(items, count).len() <= spec_encode_items(items, items.len()).len(),
        spec_encode_items(items, items.len()).subrange(
            0,
            spec_encode_items(items, count).len() as int,
        ) == spec_encode_items(items, count),
    decreases items.len() - count,
{
    let all = spec_encode_items(items, items.len());
    if count == items.len() {
        assert(all.subrange(0, all.len() as int) =~= all);
    } else {
        lemma_items_are_front(items, count + 1);
        let longer = spec_encode_items(items, count + 1);
        let shorter = spec_encode_items(items, count);
        assert(longer == shorter + spec_encode(items[count as int]));
        assert(all.subrange(0, shorter.len() as int) =~= longer.subrange(0, shorter.len() as int));
        assert(longer.subrange(0, shorter.len() as int) =~= shorter);
    }
}

/// The encoding of the first entries of a dictionary, in an order, is the
/// front of the encoding of all of them in that order.
pub proof fn lemma_entries_are_front(
    entries: Seq<(Vec<u8>, BencodeDecodedValue)>,
    order: Seq<int>,
    count: nat,
)
    requires
        count <= order.len(),
    ensures
        spec_encode_entries(entries, order, count).len() <= spec_encode_entries(
            entries,
            order,
            order.len(),
        ).len(),
        spec_encode_entries(entries, order, order.len()).subrange(
            0,
            spec_encode_entries(entries, order, count).len() as int,
        ) == spec_encode_entries(entries, order, count),
    decreases order.len() - count,
{
    let all = spec_encode_entries(entries, order, order.len());
    if count == order.len() {
        assert(all.subrange(0, all.len() as int) =~= all);
    } else {
        lemma_entries_are_front(entries, order, count + 1);
        let longer = spec_encode_entries(entries, order, count + 1);
        let shorter = spec_encode_entries(entries, order, count);
        assert(all.subrange(0, shorter.len() as int) =~= longer.subrange(0, shorter.len() as int));
        assert(longer.subrange(0, shorter.len() as int) =~= shorter);
    }
}

/// Where the encoding of a plain value stands, the value is read back: what
/// is read there ends where the encoding ends. The encoding is not empty and
/// does not begin with the `e` that ends a list.
pub proof fn lemma_value_reads(bytes: Seq<u8>, at: int, value: BencodeDecodedValue, depth: nat)
    requires
        is_plain(value, depth),
        0 <= at,
        at + spec_encode(value).len() <= bytes.len(),
        bytes.subrange(at, at + spec_encode(value).len()) == spec_encode(value),
    ensures
        spec_encode(value).len() > 0,
        value_end(bytes, at, depth) == Some(at + spec_encode(value).len()),
        bytes[at] != 101,
    decreases value, 0nat,
{
    let encoding = spec_encode(value);
    match value {
        BencodeDecodedValue::Integer(number) => {
            lemma_integer_reads(bytes, at, number);
        },
        BencodeDecodedValue::String(string) => {
            lemma_string_reads(bytes, at, string@);
        },
        BencodeDecodedValue::List(list) => {
            let items = list@;
            let inner = spec_encode_items(items, items.len());
            assert(encoding =~= seq![108u8] + inner + seq![101u8]);
            assert(bytes.subrange(at, at + encoding.len())[0] == encoding[0]);
            assert(bytes.subrange(at, at + encoding.len())[encoding.len() - 1]
                == encoding[encoding.len() - 1]);
            assert(encoding.subrange(1, 1 + inner.len() as int) =~= inner);
            lemma_part(bytes, at, encoding, 1, inner);
            lemma_items_read(bytes, at + 1, items, items.len(), (depth - 1) as nat);
        },
        BencodeDecodedValue::Dictionary(held) => {
            let entries = held@;
            let order = sorted_order(keys_of(entries), entries.len());
            lemma_sorted_order_is_ordered(keys_of(entries), entries.len());
            let inner = spec_encode_entries(entries, order, entries.len());
            assert(encoding =~= seq![100u8] + inner + seq![101u8]);
            assert(bytes.subrange(at, at + encoding.len())[0] == encoding[0]);
            assert(bytes.subrange(at, at + encoding.len())[encoding.len() - 1]
                == encoding[encoding.len() - 1]);
            assert(encoding.subrange(1, 1 + inner.len() as int) =~= inner);
            lemma_part(bytes, at, encoding, 1, inner);
            lemma_entries_read(bytes, at + 1, entries, order, entries.len(), (depth - 1) as nat);
        },
        BencodeDecodedValue::End => {},
    }
}

/// Where the encodings of the items of a list stand, reading the list's
/// items from their start gets as far as the first `count` of them reach.
proof fn lemma_items_read(
    bytes: Seq<u8>,
    start: int,
    items: Seq<BencodeDecodedValue>,
    count: nat,
    depth: nat,
)
    requires
        forall|i: int| 0 <= i < items.len() ==> is_plain(#[trigger] items[i], depth),
        count <= items.len(),
        0 <= start,
        start + spec_encode_items(items, items.len()).len() < bytes.len(),
        bytes.subrange(start, start + spec_encode_items(items, items.len()).len())
            == spec_encode_items(items, items.len()),
    ensures
        items_end(bytes, start, depth) == items_end(
            bytes,
            start + spec_encode_items(items, count).len(),
            depth,
        ),
    decreases items, count,
{
    if count > 0 {
        let before = (count - 1) as nat;
        lemma_items_read(bytes, start, items, before, depth);
        let all = spec_encode_items(items, items.len());
        let front = spec_encode_items(items, before);
        let item = spec_encode(items[before as int]);
        lemma_items_are_front(items, count);
        assert(spec_encode_items(items, count) == front + item);
        assert(all.subrange(front.len() as int, (front.len() + item.len()) as int) =~= item) by {
            assert(all.subrange(0, (front + item).len() as int) == front + item);
            assert forall|i: int| 0 <= i < item.len() implies all.subrange(
                front.len() as int,
                (front.len() + item.len()) as int,
            )[i] == item[i] by {
                assert(all.subrange(0, (front + item).len() as int)[front.len() + i] == (front
                    + item)[front.len() + i]);
            }
        }
        lemma_part(bytes, start, all, front.len() as int, item);
        lemma_value_reads(bytes, start + front.len(), items[before as int], depth);
    }
}

/// The key of the entry before the entry in place `place` of an order; the
/// empty key, which comes before every key, for the first place.
pub open spec fn key_before(keys: Seq<Seq<u8>>, order: Seq<int>, place: int) -> Seq<u8> {
    if place <= 0 {
        Seq::empty()
    } else {
        keys[order[place - 1]]
    }
}

/// Where the encodings of the entries of a dictionary stand, in the order
/// of their keys, reading the dictionary's entries from their start gets as
/// far as the first `count` of them reach.
proof fn lemma_entries_read(
    bytes: Seq<u8>,
    start: int,
    entries: Seq<(Vec<u8>, BencodeDecodedValue)>,
    order: Seq<int>,
    count: nat,
    depth: nat,
)
    requires
        forall|i: int| 0 <= i < entries.len() ==> is_plain((#[trigger] entries[i]).1, depth),
        order.len() == entries.len(),
        is_ordered(order, keys_of(entries)),
        forall|place: int|
            0 <= place < order.len() ==> 0 <= #[trigger] order[place] < entries.len(),
        count <= order.len(),
        0 <= start,
        start + spec_encode_entries(entries, order, order.len()).len() < bytes.len(),
        bytes.subrange(start, start + spec_encode_entries(entries, order, order.len()).len())
            == spec_encode_entries(entries, order, order.len()),
    ensures
        entries_end(bytes, start, Seq::empty(), depth) == entries_end(
            bytes,
            start + spec_encode_entries(entries, order, count).len(),
            key_before(keys_of(entries), order, count as int),
            depth,
        ),
    decreases entries, count,
{
    if count > 0 {
        let before = (count - 1) as nat;
        lemma_entries_read(bytes, start, entries, order, before, depth);
        let keys = keys_of(entries);
        let all = spec_encode_entries(entries, order, order.len());
        let front = spec_encode_entries(entries, order, before);
        let entry = order[before as int];
        let key = spec_encode_string(entries[entry].0@);
        let value = spec_encode(entries[entry].1);
        lemma_entries_are_front(entries, order, count);
        assert(spec_encode_entries(entries, order, count) == front + (key + value));
        let both = key + value;
        assert(all.subrange(front.len() as int, (front.len() + both.len()) as int) =~= both) by {
            assert(all.subrange(0, (front + both).len() as int) == front + both);
            assert forall|i: int| 0 <= i < both.len() implies all.subrange(
                front.len() as int,
                (front.len() + both.len()) as int,
            )[i] == both[i] by {
                assert(all.subrange(0, (front + both).len() as int)[front.len() + i] == (front
                    + both)[front.len() + i]);
            }
        }
        lemma_part(bytes, start, all, front.len() as int, both);
        let place = start + front.len();
        assert(both.subrange(0, key.len() as int) =~= key);
        lemma_part(bytes, place, both, 0, key);
        assert(both.subrange(key.len() as int, (key.len() + value.len()) as int) =~= value);
        lemma_part(bytes, place, both, key.len() as int, value);
        lemma_string_reads(bytes, place, entries[entry].0@);
        lemma_value_reads(bytes, place + key.len(), entries[entry].1, depth);
        assert(keys[entry] == entries[entry].0@);
        let previous = key_before(keys, order, before as int);
        assert(key_le(previous, keys[entry])) by {
            if before > 0 {
                assert(key_le(keys[order[before - 1]], keys[order[before as int]]));
            }
        }
        assert(key_before(keys, order, count as int) == keys[entry]);
    }
}

/// Decoding undoes encoding: the encoding of a value that is made of
/// integers, strings, lists and dictionaries, no more than `MAX_DEPTH` deep
/// within one another, is bencode. Such an encoding is therefore decoded,
/// and into a value with the same encoding.
pub proof fn lemma_encoding_is_bencode(value: BencodeDecodedValue)
    requires
        is_plain(value, MAX_DEPTH as nat),
    ensures
        is_bencode(spec_encode(value)),
{
    let bytes = spec_encode(value);
    assert(bytes.subrange(0, bytes.len() as int) =~= bytes);
    lemma_value_reads(bytes, 0, value, MAX_DEPTH as nat);
}

} // verus!
