use bittorrent_rustico::bencode::{decode, encode, BencodeDecodedValue, BencodeDecoderError};
use bittorrent_rustico::metainfo::{Metainfo, MetainfoParserError};
use sha1::{Digest, Sha1};

fn integer(number: i64) -> BencodeDecodedValue {
    BencodeDecodedValue::Integer(number)
}

fn string(bytes: &[u8]) -> BencodeDecodedValue {
    BencodeDecodedValue::String(bytes.to_vec())
}

fn assert_refused(bytes: &[u8]) {
    assert!(
        matches!(decode(bytes), Err(BencodeDecoderError::NotBencode)),
        "{:?} is refused",
        String::from_utf8_lossy(bytes)
    );
}

fn assert_round_trip(bytes: &[u8]) {
    let value = decode(bytes).expect("bencode decodes");
    assert_eq!(encode(&value), bytes.to_vec());
}

#[test]
fn decode_integers() {
    assert!(matches!(decode(b"i0e"), Ok(BencodeDecodedValue::Integer(0))));
    assert!(matches!(decode(b"i123e"), Ok(BencodeDecodedValue::Integer(123))));
    assert!(matches!(decode(b"i-123e"), Ok(BencodeDecodedValue::Integer(-123))));
    assert!(matches!(
        decode(b"i9223372036854775807e"),
        Ok(BencodeDecodedValue::Integer(i64::MAX))
    ));
    assert!(matches!(
        decode(b"i-9223372036854775808e"),
        Ok(BencodeDecodedValue::Integer(i64::MIN))
    ));
}

#[test]
fn decode_refuses_numbers_that_are_not_written_plainly() {
    for bytes in [
        &b"ie"[..],
        b"i-e",
        b"i-0e",
        b"i00e",
        b"i01e",
        b"i-01e",
        b"i+1e",
        b"i1",
        b"i",
        b"i1x",
        b"i 1e",
        b"i9223372036854775808e",
        b"i-9223372036854775809e",
        b"i99999999999999999999999999999999999999999999e",
    ] {
        assert_refused(bytes);
    }
}

#[test]
fn decode_strings() {
    assert!(matches!(decode(b"4:hola"), Ok(BencodeDecodedValue::String(s)) if s == b"hola"));
    assert!(matches!(decode(b"0:"), Ok(BencodeDecodedValue::String(s)) if s.is_empty()));
    assert!(matches!(
        decode(b"10:0123456789"),
        Ok(BencodeDecodedValue::String(s)) if s == b"0123456789"
    ));
    assert!(matches!(decode(b"2:\x00\xff"), Ok(BencodeDecodedValue::String(s)) if s == [0, 255]));
}

#[test]
fn decode_refuses_bad_strings() {
    for bytes in [
        &b""[..],
        b"4:hol",
        b"4hola",
        b"04:hola",
        b"00:",
        b":",
        b"-1:a",
        b"1a",
        b"99999999999999999999999999:a",
        b"18446744073709551616:a",
    ] {
        assert_refused(bytes);
    }
}

#[test]
fn decode_lists_and_dictionaries() {
    match decode(b"li1eli2ei3ee4:holae").unwrap() {
        BencodeDecodedValue::List(items) => {
            assert_eq!(items.len(), 3);
            assert!(matches!(items[0], BencodeDecodedValue::Integer(1)));
            assert!(matches!(&items[1], BencodeDecodedValue::List(inner) if inner.len() == 2));
            assert!(matches!(&items[2], BencodeDecodedValue::String(s) if s == b"hola"));
        }
        other => panic!("a list was expected, not {:?}", other),
    }
    match decode(b"d3:cow3:moo4:spam4:eggse").unwrap() {
        BencodeDecodedValue::Dictionary(entries) => {
            assert_eq!(entries.len(), 2);
            assert_eq!(entries[0].0, b"cow".to_vec());
            assert!(matches!(&entries[0].1, BencodeDecodedValue::String(s) if s == b"moo"));
            assert_eq!(entries[1].0, b"spam".to_vec());
        }
        other => panic!("a dictionary was expected, not {:?}", other),
    }
    assert!(matches!(decode(b"le"), Ok(BencodeDecodedValue::List(items)) if items.is_empty()));
    assert!(
        matches!(decode(b"de"), Ok(BencodeDecodedValue::Dictionary(entries)) if entries.is_empty())
    );
}

#[test]
fn decode_refuses_malformed_structure() {
    for bytes in [
        &b"l"[..],
        b"li1e",
        b"d",
        b"d3:cow",
        b"d3:cow3:moo",
        b"di1e3:mooe",
        b"d4:spam4:eggs3:cow3:mooe",
        b"e",
        b"x",
        b"i1ei2e",
        b"4:holae",
        b"lee",
        b"dee",
        b"d1:ali1e",
    ] {
        assert_refused(bytes);
    }
}

#[test]
fn decode_accepts_repeated_keys_in_order() {
    assert_round_trip(b"d1:ai1e1:ai2e1:bi3ee");
}

#[test]
fn encoding_what_was_decoded_gives_the_bytes_back() {
    for bytes in [
        &b"i0e"[..],
        b"i-42e",
        b"0:",
        b"5:hello",
        b"le",
        b"de",
        b"llleee",
        b"li1eli2ei3ee4:holae",
        b"d3:cow3:moo4:spam4:eggse",
        b"d1:ai123e4:hola4:chau4:testd1:ai123e4:hola4:chauee",
        b"d8:announce14:http://tracker4:infod6:lengthi16e4:name4:file12:piece lengthi8eee",
    ] {
        assert_round_trip(bytes);
    }
}

#[test]
fn decoding_what_was_encoded_gives_an_equal_encoding() {
    let values = vec![
        integer(7),
        string(b"spam"),
        BencodeDecodedValue::List(vec![integer(1), string(b""), BencodeDecodedValue::List(vec![])]),
        BencodeDecodedValue::Dictionary(vec![
            (b"zeta".to_vec(), integer(1)),
            (b"alpha".to_vec(), BencodeDecodedValue::List(vec![integer(2)])),
            (b"mid".to_vec(), BencodeDecodedValue::Dictionary(vec![])),
        ]),
    ];
    for value in values {
        let bytes = encode(&value);
        let decoded = decode(&bytes).expect("an encoding decodes");
        assert_eq!(encode(&decoded), bytes);
    }
}

fn torrent(piece_length: i64, length: i64, pieces: &[u8]) -> Vec<u8> {
    encode(&BencodeDecodedValue::Dictionary(vec![
        (b"announce".to_vec(), string(b"http://tracker/announce")),
        (
            b"info".to_vec(),
            BencodeDecodedValue::Dictionary(vec![
                (b"piece length".to_vec(), integer(piece_length)),
                (b"pieces".to_vec(), string(pieces)),
                (b"length".to_vec(), integer(length)),
                (b"name".to_vec(), string(b"file.bin")),
            ]),
        ),
    ]))
}

#[test]
fn metainfo_is_read_from_a_torrent() {
    let digests: Vec<u8> = (0..40).collect();
    let bytes = torrent(8, 16, &digests);
    let metainfo = Metainfo::from_torrent(&bytes).unwrap();
    assert_eq!(metainfo.announce, "http://tracker/announce");
    assert_eq!(metainfo.info.piece_length, 8);
    assert_eq!(metainfo.info.length, 16);
    assert_eq!(metainfo.info.name, "file.bin");
    assert_eq!(
        metainfo.info.pieces,
        vec![digests[0..20].to_vec(), digests[20..40].to_vec()]
    );
    let info = b"d6:lengthi16e4:name8:file.bin12:piece lengthi8e6:pieces40:";
    let mut encoded_info = info.to_vec();
    encoded_info.extend_from_slice(&digests);
    encoded_info.push(b'e');
    assert_eq!(metainfo.info_hash, Sha1::digest(&encoded_info).to_vec());
    assert_eq!(metainfo.validate(), Ok(()));
}

#[test]
fn metainfo_reports_what_a_torrent_lacks() {
    assert_eq!(
        Metainfo::from_torrent(b"not bencode").unwrap_err(),
        MetainfoParserError::NotBencode
    );
    assert_eq!(
        Metainfo::from_torrent(b"li1ee").unwrap_err(),
        MetainfoParserError::NotADictionary
    );
    assert_eq!(
        Metainfo::from_torrent(b"de").unwrap_err(),
        MetainfoParserError::MissingAnnounce
    );
    assert_eq!(
        Metainfo::from_torrent(b"d8:announce2:\xff\xfee").unwrap_err(),
        MetainfoParserError::MissingAnnounce
    );
    assert_eq!(
        Metainfo::from_torrent(b"d8:announce1:ae").unwrap_err(),
        MetainfoParserError::MissingInfo
    );
    assert_eq!(
        Metainfo::from_torrent(b"d8:announce1:a4:infoi1ee").unwrap_err(),
        MetainfoParserError::MissingInfo
    );
    assert_eq!(
        Metainfo::from_torrent(b"d8:announce1:a4:infodee").unwrap_err(),
        MetainfoParserError::MissingPieceLength
    );
    assert_eq!(
        Metainfo::from_torrent(b"d8:announce1:a4:infod12:piece lengthi4294967296eee").unwrap_err(),
        MetainfoParserError::MissingPieceLength
    );
    assert_eq!(
        Metainfo::from_torrent(b"d8:announce1:a4:infod12:piece lengthi8eee").unwrap_err(),
        MetainfoParserError::MissingPieces
    );
    assert_eq!(
        Metainfo::from_torrent(b"d8:announce1:a4:infod12:piece lengthi8e6:pieces0:ee").unwrap_err(),
        MetainfoParserError::MissingLength
    );
    assert_eq!(
        Metainfo::from_torrent(
            b"d8:announce1:a4:infod6:lengthi-1e12:piece lengthi8e6:pieces0:ee"
        )
        .unwrap_err(),
        MetainfoParserError::MissingLength
    );
    assert_eq!(
        Metainfo::from_torrent(
            b"d8:announce1:a4:infod6:lengthi0e12:piece lengthi8e6:pieces0:ee"
        )
        .unwrap_err(),
        MetainfoParserError::MissingName
    );
}

#[test]
fn metainfo_reports_what_is_wrong_with_a_torrent() {
    let digests = [7u8; 40];
    assert_eq!(
        Metainfo::from_torrent(&torrent(0, 16, &digests)).unwrap_err(),
        MetainfoParserError::NoPieceLength
    );
    assert_eq!(
        Metainfo::from_torrent(&torrent(8, 17, &digests)).unwrap_err(),
        MetainfoParserError::WrongPieceCount
    );
    assert_eq!(
        Metainfo::from_torrent(&torrent(8, 16, &digests[..39])).unwrap_err(),
        MetainfoParserError::WrongDigestLength
    );
    assert!(Metainfo::from_torrent(&torrent(8, 16, &digests)).is_ok());
    assert!(Metainfo::from_torrent(&torrent(8, 9, &digests)).is_ok());
}

#[test]
fn decode_bounds_how_deep_lists_lie() {
    let nested = |depth: usize| {
        let mut bytes = vec![b'l'; depth];
        bytes.extend(vec![b'e'; depth]);
        bytes
    };
    assert_round_trip(&nested(1));
    assert_round_trip(&nested(128));
    assert_refused(&nested(129));
    assert_refused(&nested(100_000));

    let mut mixed = Vec::new();
    for _ in 0..64 {
        mixed.extend_from_slice(b"d1:al");
    }
    for _ in 0..64 {
        mixed.extend_from_slice(b"ee");
    }
    assert_round_trip(&mixed);
    let mut deeper = b"l".to_vec();
    deeper.extend_from_slice(&mixed);
    deeper.push(b'e');
    assert_refused(&deeper);
}

fn same(left: &BencodeDecodedValue, right: &BencodeDecodedValue) -> bool {
    match (left, right) {
        (BencodeDecodedValue::Integer(a), BencodeDecodedValue::Integer(b)) => a == b,
        (BencodeDecodedValue::String(a), BencodeDecodedValue::String(b)) => a == b,
        (BencodeDecodedValue::List(a), BencodeDecodedValue::List(b)) => {
            a.len() == b.len() && a.iter().zip(b.iter()).all(|(x, y)| same(x, y))
        }
        (BencodeDecodedValue::Dictionary(a), BencodeDecodedValue::Dictionary(b)) => {
            a.len() == b.len()
                && a.iter()
                    .zip(b.iter())
                    .all(|((k, x), (l, y))| k == l && same(x, y))
        }
        (BencodeDecodedValue::End, BencodeDecodedValue::End) => true,
        _ => false,
    }
}

#[test]
fn decoding_what_was_encoded_gives_the_value_itself() {
    let values = vec![
        integer(0),
        integer(-42),
        integer(i64::MIN),
        string(b""),
        string(b"12:not a length"),
        BencodeDecodedValue::List(vec![]),
        BencodeDecodedValue::List(vec![
            integer(1),
            string(b"i1e"),
            BencodeDecodedValue::List(vec![string(b"le")]),
        ]),
        BencodeDecodedValue::Dictionary(vec![]),
        BencodeDecodedValue::Dictionary(vec![
            (b"".to_vec(), integer(3)),
            (b"alpha".to_vec(), BencodeDecodedValue::List(vec![integer(2)])),
            (b"alphabet".to_vec(), string(b"d")),
            (
                b"mid".to_vec(),
                BencodeDecodedValue::Dictionary(vec![(b"e".to_vec(), string(b"e"))]),
            ),
            (b"zeta".to_vec(), integer(1)),
        ]),
    ];
    for value in values {
        let decoded = decode(&encode(&value)).expect("an encoding decodes");
        assert!(same(&decoded, &value), "{:?} comes back as itself", value);
    }

    // A dictionary that is held out of order comes back in key order.
    let unordered = BencodeDecodedValue::Dictionary(vec![
        (b"b".to_vec(), integer(2)),
        (b"a".to_vec(), integer(1)),
    ]);
    let ordered = BencodeDecodedValue::Dictionary(vec![
        (b"a".to_vec(), integer(1)),
        (b"b".to_vec(), integer(2)),
    ]);
    let decoded = decode(&encode(&unordered)).expect("an encoding decodes");
    assert!(same(&decoded, &ordered));
    assert!(!same(&decoded, &unordered));
}
