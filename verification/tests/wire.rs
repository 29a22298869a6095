use bittorrent_rustico::peer::{
    check_handshake_response, create_handshake_message, valid_block, Bitfield, FrameError,
    HandshakeError, PeerMessage, PeerMessageId, HANDSHAKE_LENGTH,
};

fn bitfield_of(bytes: &[u8]) -> Bitfield {
    let mut bitfield = Bitfield::new();
    bitfield.set_bitfield(bytes);
    bitfield
}

#[test]
fn new_bitfield_is_empty_and_claims_nothing() {
    let bitfield = Bitfield::new();
    assert!(!bitfield.non_empty());
    assert!(!bitfield.has_piece(0));
    assert!(!bitfield.has_piece(7));
    assert!(!bitfield.has_piece(usize::MAX));
}

#[test]
fn bitfield_reads_bits_most_significant_first() {
    let bitfield = bitfield_of(&[0b1010_0000, 0b0000_0001]);
    assert!(bitfield.non_empty());
    let expected = [0usize, 2, 15];
    for index in 0..16 {
        assert_eq!(bitfield.has_piece(index), expected.contains(&index), "bit {}", index);
    }
}

#[test]
fn bitfield_agrees_with_the_shift_formula() {
    let bytes = [0x00u8, 0xff, 0x5a, 0xc3, 0x81];
    let bitfield = bitfield_of(&bytes);
    for index in 0..(8 * bytes.len()) {
        let expected = (bytes[index / 8] >> (7 - index % 8)) & 1 == 1;
        assert_eq!(bitfield.has_piece(index), expected, "bit {}", index);
    }
    for index in (8 * bytes.len())..(8 * bytes.len() + 20) {
        assert!(!bitfield.has_piece(index));
    }
}

#[test]
fn set_piece_switches_one_bit_on() {
    let mut bitfield = bitfield_of(&[0, 0]);
    bitfield.set_piece(9);
    for index in 0..16 {
        assert_eq!(bitfield.has_piece(index), index == 9);
    }
    bitfield.set_piece(9);
    bitfield.set_piece(0);
    assert!(bitfield.has_piece(0));
    assert!(bitfield.has_piece(9));
    assert!(!bitfield.has_piece(1));
}

#[test]
fn set_piece_past_the_end_changes_nothing() {
    let mut bitfield = bitfield_of(&[0x80]);
    bitfield.set_piece(8);
    bitfield.set_piece(1000);
    assert!(bitfield.has_piece(0));
    for index in 1..24 {
        assert!(!bitfield.has_piece(index));
    }
    let mut empty = Bitfield::new();
    empty.set_piece(0);
    assert!(!empty.non_empty());
    assert!(!empty.has_piece(0));
}

#[test]
fn bitfield_clone_is_equal() {
    let bitfield = bitfield_of(&[0xc0, 0x01]);
    let copy = bitfield.clone();
    for index in 0..20 {
        assert_eq!(bitfield.has_piece(index), copy.has_piece(index));
    }
}

#[test]
fn message_ids_have_their_protocol_numbers() {
    let ids = [
        PeerMessageId::Choke,
        PeerMessageId::Unchoke,
        PeerMessageId::Interested,
        PeerMessageId::NotInterested,
        PeerMessageId::Have,
        PeerMessageId::Bitfield,
        PeerMessageId::Request,
        PeerMessageId::Piece,
        PeerMessageId::Cancel,
        PeerMessageId::Port,
    ];
    for (number, id) in ids.iter().enumerate() {
        assert_eq!(id.code(), number as u8);
        assert_eq!(PeerMessageId::from_u8(number as u8), Ok(*id));
    }
    assert_eq!(PeerMessageId::from_u8(10), Err(10));
    assert_eq!(PeerMessageId::from_u8(255), Err(255));
}

#[test]
fn helper_messages_have_the_documented_shape() {
    let unchoke = PeerMessage::unchoke();
    assert_eq!(unchoke.id, PeerMessageId::Unchoke);
    assert_eq!(unchoke.length, 1);
    assert!(unchoke.payload.is_empty());

    let interested = PeerMessage::interested();
    assert_eq!(interested.id, PeerMessageId::Interested);
    assert_eq!(interested.length, 1);
    assert!(interested.payload.is_empty());

    let have = PeerMessage::have(0x0102_0304);
    assert_eq!(have.id, PeerMessageId::Have);
    assert_eq!(have.length, 5);
    assert_eq!(have.payload, vec![1, 2, 3, 4]);

    let request = PeerMessage::request(1, 16384, 0x4000);
    assert_eq!(request.id, PeerMessageId::Request);
    assert_eq!(request.length, 13);
    assert_eq!(request.payload, vec![0, 0, 0, 1, 0, 0, 0x40, 0, 0, 0, 0x40, 0]);

    let piece = PeerMessage::piece(2, 258, vec![9, 8, 7]);
    assert_eq!(piece.id, PeerMessageId::Piece);
    assert_eq!(piece.length, 12);
    assert_eq!(piece.payload, vec![0, 0, 0, 2, 0, 0, 1, 2, 9, 8, 7]);

    let keep_alive = PeerMessage::keep_alive();
    assert_eq!(keep_alive.length, 0);
    assert!(keep_alive.payload.is_empty());
}

#[test]
fn u32_to_vec_be_is_big_endian() {
    assert_eq!(PeerMessage::u32_to_vec_be(0), vec![0, 0, 0, 0]);
    assert_eq!(PeerMessage::u32_to_vec_be(1), vec![0, 0, 0, 1]);
    assert_eq!(PeerMessage::u32_to_vec_be(0x1234_5678), vec![0x12, 0x34, 0x56, 0x78]);
    assert_eq!(PeerMessage::u32_to_vec_be(u32::MAX), vec![255, 255, 255, 255]);
    for value in [0u32, 255, 256, 65535, 65536, 0x00ff_00ff, 0xdead_beef] {
        assert_eq!(PeerMessage::u32_to_vec_be(value), value.to_be_bytes().to_vec());
    }
}

#[test]
fn encode_lays_out_length_id_payload() {
    assert_eq!(PeerMessage::unchoke().encode(), vec![0, 0, 0, 1, 1]);
    assert_eq!(PeerMessage::interested().encode(), vec![0, 0, 0, 1, 2]);
    assert_eq!(PeerMessage::have(7).encode(), vec![0, 0, 0, 5, 4, 0, 0, 0, 7]);
    assert_eq!(
        PeerMessage::piece(1, 2, vec![0xaa, 0xbb]).encode(),
        vec![0, 0, 0, 11, 7, 0, 0, 0, 1, 0, 0, 0, 2, 0xaa, 0xbb]
    );
}

#[test]
fn encode_keep_alive_is_four_zero_bytes() {
    assert_eq!(PeerMessage::keep_alive().encode(), vec![0, 0, 0, 0]);
}

#[test]
fn encode_announces_the_true_payload_length() {
    let message = PeerMessage {
        id: PeerMessageId::Bitfield,
        length: 99,
        payload: vec![0xf0],
    };
    assert_eq!(message.encode(), vec![0, 0, 0, 2, 5, 0xf0]);
}

fn assert_round_trip(message: PeerMessage) {
    let frame = message.encode();
    let (decoded, used) = PeerMessage::decode(&frame).expect("a frame decodes");
    assert_eq!(used, frame.len());
    assert_eq!(decoded.id, message.id);
    assert_eq!(decoded.length, message.length);
    assert_eq!(decoded.payload, message.payload);

    let mut longer = frame.clone();
    longer.extend_from_slice(&[1, 2, 3]);
    let (again, used_again) = PeerMessage::decode(&longer).expect("a frame with a tail decodes");
    assert_eq!(used_again, frame.len());
    assert_eq!(again.id, message.id);
    assert_eq!(again.payload, message.payload);
}

#[test]
fn decode_undoes_encode() {
    assert_round_trip(PeerMessage::unchoke());
    assert_round_trip(PeerMessage::interested());
    assert_round_trip(PeerMessage::keep_alive());
    assert_round_trip(PeerMessage::have(3));
    assert_round_trip(PeerMessage::request(5, 32768, 16384));
    assert_round_trip(PeerMessage::piece(5, 32768, vec![1; 300]));
    assert_round_trip(PeerMessage::piece(0, 0, vec![]));
    for number in 0u8..10 {
        let id = PeerMessageId::from_u8(number).unwrap();
        assert_round_trip(PeerMessage { id, length: 4, payload: vec![number, 0, 255] });
    }
}

#[test]
fn decode_reports_incomplete_frames() {
    assert_eq!(PeerMessage::decode(&[]).unwrap_err(), FrameError::Incomplete);
    assert_eq!(PeerMessage::decode(&[0, 0, 0]).unwrap_err(), FrameError::Incomplete);
    assert_eq!(PeerMessage::decode(&[0, 0, 0, 1]).unwrap_err(), FrameError::Incomplete);
    assert_eq!(
        PeerMessage::decode(&[0, 0, 0, 5, 4, 0, 0, 0]).unwrap_err(),
        FrameError::Incomplete
    );
    assert_eq!(
        PeerMessage::decode(&[255, 255, 255, 255, 7, 1]).unwrap_err(),
        FrameError::Incomplete
    );
}

#[test]
fn decode_refuses_unknown_ids() {
    assert_eq!(
        PeerMessage::decode(&[0, 0, 0, 1, 10]).unwrap_err(),
        FrameError::MalformedFrame(10)
    );
    assert_eq!(
        PeerMessage::decode(&[0, 0, 0, 9, 200]).unwrap_err(),
        FrameError::MalformedFrame(200)
    );
}

#[test]
fn decode_keep_alive() {
    let (message, used) = PeerMessage::decode(&[0, 0, 0, 0, 9, 9]).unwrap();
    assert_eq!(used, 4);
    assert_eq!(message.length, 0);
    assert!(message.payload.is_empty());
}

#[test]
fn decode_does_not_interpret_the_payload() {
    let (message, used) = PeerMessage::decode(&[0, 0, 0, 3, 4, 1, 2]).unwrap();
    assert_eq!(used, 7);
    assert_eq!(message.id, PeerMessageId::Have);
    assert_eq!(message.length, 3);
    assert_eq!(message.payload, vec![1, 2]);
}

#[test]
fn valid_block_checks_index_and_offset() {
    let payload = PeerMessage::piece(3, 16384, vec![1, 2, 3]).payload;
    assert!(valid_block(&payload, 3, 16384));
    assert!(!valid_block(&payload, 4, 16384));
    assert!(!valid_block(&payload, 3, 0));
    assert!(!valid_block(&payload[..7], 3, 16384));
    assert!(valid_block(&payload[..8], 3, 16384));
    assert!(!valid_block(&[], 0, 0));
}

#[test]
fn handshake_frame_has_68_bytes_in_the_documented_order() {
    let info_hash: Vec<u8> = (1..=20).collect();
    let peer_id: Vec<u8> = (101..=120).collect();
    let frame = create_handshake_message(&info_hash, &peer_id);
    assert_eq!(frame.len(), HANDSHAKE_LENGTH);
    assert_eq!(frame[0], 19);
    assert_eq!(&frame[1..20], b"BitTorrent protocol");
    assert_eq!(&frame[20..28], &[0u8; 8]);
    assert_eq!(&frame[28..48], info_hash.as_slice());
    assert_eq!(&frame[48..68], peer_id.as_slice());
}

#[test]
fn handshake_response_for_the_same_torrent_is_accepted() {
    let info_hash = vec![7u8; 20];
    let theirs = vec![9u8; 20];
    let mut response = create_handshake_message(&info_hash, &theirs);
    assert_eq!(check_handshake_response(&response, &info_hash), Ok(theirs.clone()));
    for reserved in 20..28 {
        response[reserved] = 0xff;
    }
    assert_eq!(check_handshake_response(&response, &info_hash), Ok(theirs));
}

#[test]
fn handshake_response_for_another_torrent_is_refused() {
    let info_hash = vec![7u8; 20];
    let mut other = info_hash.clone();
    other[19] = 8;
    let response = create_handshake_message(&other, &[9u8; 20]);
    assert_eq!(
        check_handshake_response(&response, &info_hash),
        Err(HandshakeError::InfoHashMismatch)
    );
}

#[test]
fn handshake_response_that_is_no_handshake_is_refused() {
    let info_hash = vec![7u8; 20];
    let good = create_handshake_message(&info_hash, &[9u8; 20]);
    assert_eq!(
        check_handshake_response(&good[..67], &info_hash),
        Err(HandshakeError::Malformed)
    );
    let mut long = good.clone();
    long.push(0);
    assert_eq!(check_handshake_response(&long, &info_hash), Err(HandshakeError::Malformed));
    let mut wrong_length = good.clone();
    wrong_length[0] = 18;
    assert_eq!(
        check_handshake_response(&wrong_length, &info_hash),
        Err(HandshakeError::Malformed)
    );
    let mut wrong_name = good.clone();
    wrong_name[5] = b'x';
    assert_eq!(
        check_handshake_response(&wrong_name, &info_hash),
        Err(HandshakeError::Malformed)
    );
    assert_eq!(check_handshake_response(&[], &info_hash), Err(HandshakeError::Malformed));
}
