use bittorrent_rustico::bencode::{encode, BencodeDecodedValue};

#[test]
fn encode_positive_number() {
    assert_eq!(
        encode(&BencodeDecodedValue::Integer(123)),
        b"i123e".to_vec()
    );
}

#[test]
fn encode_negative_number() {
    assert_eq!(
        encode(&BencodeDecodedValue::Integer(-123)),
        b"i-123e".to_vec()
    );
}

#[test]
fn encode_zero() {
    assert_eq!(encode(&BencodeDecodedValue::Integer(0)), b"i0e".to_vec());
}

#[test]
fn encode_string() {
    assert_eq!(
        encode(&BencodeDecodedValue::String(b"hola".to_vec())),
        b"4:hola".to_vec()
    );
}

#[test]
fn encode_empty_string() {
    assert_eq!(
        encode(&BencodeDecodedValue::String(b"".to_vec())),
        b"0:".to_vec()
    );
}

#[test]
fn encode_list() {
    assert_eq!(
        encode(&BencodeDecodedValue::List(vec![
            BencodeDecodedValue::Integer(1),
            BencodeDecodedValue::Integer(2),
            BencodeDecodedValue::Integer(3),
        ])),
        b"li1ei2ei3ee".to_vec()
    );
}

#[test]
fn encode_complex_nested_list() {
    let encoded = encode(&BencodeDecodedValue::List(vec![
        BencodeDecodedValue::Integer(1),
        BencodeDecodedValue::List(vec![
            BencodeDecodedValue::Integer(2),
            BencodeDecodedValue::Integer(3),
        ]),
        BencodeDecodedValue::String(b"hola".to_vec()),
    ]));
    assert_eq!(encoded, b"li1eli2ei3ee4:holae".to_vec());
}

#[test]
fn encode_dictionary() {
    let encoded = encode(&BencodeDecodedValue::Dictionary(vec![
        (
            b"cow".to_vec(),
            BencodeDecodedValue::String(b"moo".to_vec()),
        ),
        (
            b"spam".to_vec(),
            BencodeDecodedValue::String(b"eggs".to_vec()),
        ),
    ]));
    assert_eq!(encoded, b"d3:cow3:moo4:spam4:eggse".to_vec());
}

#[test]
fn encode_complex_nested_dictionary() {
    assert_eq!(
        b"d1:ai123e4:hola4:chau4:testd1:ai123e4:hola4:chauee".to_vec(),
        encode(&BencodeDecodedValue::Dictionary(vec![
            (b"a".to_vec(), BencodeDecodedValue::Integer(123)),
            (
                b"hola".to_vec(),
                BencodeDecodedValue::String(b"chau".to_vec())
            ),
            (
                b"test".to_vec(),
                BencodeDecodedValue::Dictionary(vec![
                    (b"a".to_vec(), BencodeDecodedValue::Integer(123)),
                    (
                        b"hola".to_vec(),
                        BencodeDecodedValue::String(b"chau".to_vec())
                    ),
                ])
            )
        ]))
    );
}

#[test]
fn encode_dictionary_sorts_its_keys() {
    let encoded = encode(&BencodeDecodedValue::Dictionary(vec![
        (b"spam".to_vec(), BencodeDecodedValue::Integer(2)),
        (b"cow".to_vec(), BencodeDecodedValue::Integer(1)),
        (b"co".to_vec(), BencodeDecodedValue::Integer(0)),
        (b"zebra".to_vec(), BencodeDecodedValue::Integer(3)),
    ]));
    assert_eq!(encoded, b"d2:coi0e3:cowi1e4:spami2e5:zebrai3ee".to_vec());
}

#[test]
fn encode_dictionary_keeps_equal_keys_in_order() {
    let encoded = encode(&BencodeDecodedValue::Dictionary(vec![
        (b"b".to_vec(), BencodeDecodedValue::Integer(1)),
        (b"a".to_vec(), BencodeDecodedValue::Integer(2)),
        (b"b".to_vec(), BencodeDecodedValue::Integer(3)),
    ]));
    assert_eq!(encoded, b"d1:ai2e1:bi1e1:bi3ee".to_vec());
}

#[test]
fn encode_extreme_numbers() {
    assert_eq!(
        encode(&BencodeDecodedValue::Integer(i64::MIN)),
        b"i-9223372036854775808e".to_vec()
    );
    assert_eq!(
        encode(&BencodeDecodedValue::Integer(i64::MAX)),
        b"i9223372036854775807e".to_vec()
    );
    assert_eq!(encode(&BencodeDecodedValue::Integer(-1)), b"i-1e".to_vec());
    assert_eq!(encode(&BencodeDecodedValue::Integer(10)), b"i10e".to_vec());
}

#[test]
fn encode_end_is_empty() {
    assert_eq!(encode(&BencodeDecodedValue::End), Vec::<u8>::new());
    assert_eq!(
        encode(&BencodeDecodedValue::List(vec![])),
        b"le".to_vec()
    );
    assert_eq!(
        encode(&BencodeDecodedValue::Dictionary(vec![])),
        b"de".to_vec()
    );
}
