use bittorrent_rustico::metainfo::{Info, Metainfo};
use bittorrent_rustico::peer::{
    BlockVerdict, IPeerMessageServiceError, Peer, PeerConnection, PeerConnectionError,
    PeerMessage, PeerMessageId, PeerMessageService, PeerMessageStreamMock, PieceDownload,
    PieceRequestFault, SessionEvent,
};
use sha1::{Digest, Sha1};
use std::collections::VecDeque;

fn sha1_of(bytes: &[u8]) -> Vec<u8> {
    Sha1::digest(bytes).to_vec()
}

fn metainfo_for(file: &[u8], piece_length: u32) -> Metainfo {
    let pieces = file
        .chunks(piece_length as usize)
        .map(sha1_of)
        .collect();
    Metainfo {
        announce: "".to_string(),
        info: Info {
            piece_length,
            pieces,
            length: file.len() as u64,
            name: "".to_string(),
        },
        info_hash: vec![3; 20],
    }
}

fn peer_named(id: u8) -> Peer {
    Peer {
        ip: "10.0.0.1".to_string(),
        port: 6881,
        peer_id: vec![id; 20],
    }
}

/// A stream that plays back a fixed list of answers and records what was
/// sent.
struct Script {
    handshake: Result<(), IPeerMessageServiceError>,
    sends_that_succeed: usize,
    incoming: VecDeque<PeerMessage>,
    sent: Vec<Vec<u8>>,
    handshakes: Vec<(Vec<u8>, Vec<u8>)>,
}

impl Script {
    fn new(incoming: Vec<PeerMessage>) -> Script {
        Script {
            handshake: Ok(()),
            sends_that_succeed: usize::MAX,
            incoming: incoming.into(),
            sent: Vec::new(),
            handshakes: Vec::new(),
        }
    }
}

impl PeerMessageService for Script {
    fn handshake(
        &mut self,
        info_hash: &[u8],
        peer_id: &[u8],
    ) -> Result<(), IPeerMessageServiceError> {
        self.handshakes.push((info_hash.to_vec(), peer_id.to_vec()));
        self.handshake
    }

    fn wait_for_message(&mut self) -> Result<PeerMessage, IPeerMessageServiceError> {
        self.incoming
            .pop_front()
            .ok_or(IPeerMessageServiceError::ReceivingMessageError)
    }

    fn send_message(&mut self, message: &PeerMessage) -> Result<(), IPeerMessageServiceError> {
        if self.sent.len() >= self.sends_that_succeed {
            return Err(IPeerMessageServiceError::SendingMessageError);
        }
        self.sent.push(message.encode());
        Ok(())
    }
}

fn bitfield_message(bits: Vec<u8>) -> PeerMessage {
    PeerMessage {
        id: PeerMessageId::Bitfield,
        length: bits.len() as u32 + 1,
        payload: bits,
    }
}

fn plain(id: PeerMessageId) -> PeerMessage {
    PeerMessage {
        id,
        length: 1,
        payload: vec![],
    }
}

#[test]
fn gets_real_piece() {
    let file = vec![0, 0, 0, 0, 1, 1, 1, 1, 0, 0, 0, 0, 0, 0, 0, 0];

    let mut pieces: Vec<Vec<u8>> = Vec::new();
    pieces.push(sha1_of(&file[0..8].to_vec()));
    pieces.push(sha1_of(&file[8..16].to_vec()));

    let metainfo_mock = Metainfo {
        announce: "".to_string(),
        info: Info {
            piece_length: 8,
            pieces: pieces,
            length: 16,
            name: "".to_string(),
        },
        info_hash: vec![],
    };

    let peer_mock = Peer {
        ip: "".to_string(),
        port: 0,
        peer_id: vec![],
    };
    const BLOCK_SIZE: u32 = 2;
    let peer_message_stream_mock = PeerMessageStreamMock {
        counter: 0,
        file: file.clone(),
        block_size: BLOCK_SIZE,
    };
    let mut peer_connection = PeerConnection::new(
        peer_mock,
        &vec![1, 2, 3, 4],
        &metainfo_mock,
        peer_message_stream_mock,
    );

    let piece = peer_connection.request_piece(0, BLOCK_SIZE);
    assert_eq!(file[0..8], piece.unwrap());
}

#[test]
fn gets_invalid_block() {
    let file = vec![0, 0, 0, 0, 1, 1, 1, 1, 0, 0, 0, 0, 0, 0, 0, 0];

    let mut pieces: Vec<Vec<u8>> = Vec::new();
    pieces.push(sha1_of(&file[0..8].to_vec()));
    pieces.push(sha1_of(&file[8..16].to_vec()));

    let metainfo_mock = Metainfo {
        announce: "".to_string(),
        info: Info {
            piece_length: 8,
            pieces: pieces,
            length: 16,
            name: "".to_string(),
        },
        info_hash: vec![],
    };

    let peer_mock = Peer {
        ip: "".to_string(),
        port: 0,
        peer_id: vec![],
    };
    const BLOCK_SIZE: u32 = 2;
    let peer_message_stream_mock = PeerMessageStreamMock {
        counter: 0,
        file: file.clone(),
        block_size: BLOCK_SIZE,
    };
    let mut peer_connection = PeerConnection::new(
        peer_mock,
        &vec![1, 2, 3, 4],
        &metainfo_mock,
        peer_message_stream_mock,
    );

    assert!(matches!(
        peer_connection.request_piece(1, BLOCK_SIZE),
        Err(PeerConnectionError::PieceRequestingError(_))
    ));
}

#[test]
fn invalid_block_is_reported_as_such() {
    let file = vec![5u8; 16];
    let metainfo = metainfo_for(&file, 8);
    let mock = PeerMessageStreamMock {
        counter: 0,
        file,
        block_size: 2,
    };
    let mut session = PeerConnection::new(peer_named(1), &[1, 2, 3, 4], &metainfo, mock);
    assert_eq!(
        session.request_piece(1, 2),
        Err(PeerConnectionError::PieceRequestingError(
            PieceRequestFault::InvalidBlock
        ))
    );
}

#[test]
fn mock_delivers_the_file_block_by_block_and_then_fails() {
    let mut mock = PeerMessageStreamMock {
        counter: 0,
        file: vec![1, 2, 3, 4, 5],
        block_size: 2,
    };
    assert!(mock.handshake(&[0; 20], &[1; 20]).is_ok());
    assert!(mock.send_message(&PeerMessage::unchoke()).is_ok());
    let first = mock.wait_for_message().unwrap();
    assert_eq!(first.id, PeerMessageId::Piece);
    assert_eq!(first.payload, vec![0, 0, 0, 0, 0, 0, 0, 0, 1, 2]);
    let second = mock.wait_for_message().unwrap();
    assert_eq!(second.payload, vec![0, 0, 0, 0, 0, 0, 0, 2, 3, 4]);
    assert_eq!(mock.counter, 2);
    assert_eq!(
        mock.wait_for_message().unwrap_err(),
        IPeerMessageServiceError::ReceivingMessageError
    );
    assert_eq!(mock.counter, 2);
}

#[test]
fn fresh_session_has_the_initial_flags() {
    let metainfo = metainfo_for(&[0u8; 16], 8);
    let session = PeerConnection::new(peer_named(7), &[9; 20], &metainfo, Script::new(vec![]));
    assert!(session.is_choked());
    assert!(!session.is_ready());
    assert!(!session.get_bitfield().non_empty());
    assert_eq!(session.get_peer_id(), vec![7; 20]);
    assert_eq!(session.get_peer_ip(), "10.0.0.1".to_string());
}

#[test]
fn absorb_updates_flags_and_bitfield() {
    let metainfo = metainfo_for(&[0u8; 16], 8);
    let mut session =
        PeerConnection::new(peer_named(7), &[9; 20], &metainfo, Script::new(vec![]));

    assert_eq!(session.absorb(&plain(PeerMessageId::Unchoke)), SessionEvent::Unchoked);
    assert!(!session.is_choked());
    assert!(!session.is_ready());

    assert_eq!(session.absorb(&bitfield_message(vec![0x40])), SessionEvent::PeerPieces);
    assert!(session.is_ready());
    assert!(session.get_bitfield().has_piece(1));
    assert!(!session.get_bitfield().has_piece(0));

    assert_eq!(session.absorb(&PeerMessage::have(0)), SessionEvent::Have(0));
    assert!(session.get_bitfield().has_piece(0));
    assert_eq!(session.absorb(&PeerMessage::have(5)), SessionEvent::Have(5));
    assert_eq!(session.take_announced(), vec![0, 5]);
    assert_eq!(session.take_announced(), Vec::<u32>::new());

    assert_eq!(session.absorb(&plain(PeerMessageId::Choke)), SessionEvent::Choked);
    assert!(session.is_choked());
    assert!(!session.is_ready());
}

#[test]
fn absorb_ignores_keep_alive_and_other_messages() {
    let metainfo = metainfo_for(&[0u8; 16], 8);
    let mut session =
        PeerConnection::new(peer_named(7), &[9; 20], &metainfo, Script::new(vec![]));
    session.absorb(&plain(PeerMessageId::Unchoke));
    assert_eq!(session.absorb(&PeerMessage::keep_alive()), SessionEvent::Nothing);
    assert!(!session.is_choked());
    for id in [
        PeerMessageId::Interested,
        PeerMessageId::NotInterested,
        PeerMessageId::Request,
        PeerMessageId::Piece,
        PeerMessageId::Cancel,
        PeerMessageId::Port,
    ] {
        assert_eq!(session.absorb(&plain(id)), SessionEvent::Nothing);
    }
    let short_have = PeerMessage {
        id: PeerMessageId::Have,
        length: 3,
        payload: vec![0, 1],
    };
    assert_eq!(session.absorb(&short_have), SessionEvent::Nothing);
    assert!(!session.is_choked());
    assert!(!session.get_bitfield().non_empty());
    assert!(session.take_announced().is_empty());
}

#[test]
fn open_connection_waits_for_unchoke_and_bitfield() {
    let metainfo = metainfo_for(&[0u8; 16], 8);
    let script = Script::new(vec![
        PeerMessage::keep_alive(),
        plain(PeerMessageId::Unchoke),
        bitfield_message(vec![0xc0]),
        PeerMessage::have(1),
    ]);
    let mut session = PeerConnection::new(peer_named(7), &[9; 20], &metainfo, script);
    assert_eq!(session.open_connection(), Ok(()));
    assert!(session.is_ready());
    assert!(session.get_bitfield().has_piece(0));
    assert!(session.get_bitfield().has_piece(1));
    assert!(session.take_announced().is_empty());
}

#[test]
fn open_connection_accepts_an_empty_bitfield() {
    let metainfo = metainfo_for(&[0u8; 16], 8);
    let script = Script::new(vec![bitfield_message(vec![]), plain(PeerMessageId::Unchoke)]);
    let mut session = PeerConnection::new(peer_named(7), &[9; 20], &metainfo, script);
    assert_eq!(session.open_connection(), Ok(()));
    assert!(!session.get_bitfield().non_empty());
}

#[test]
fn open_connection_reports_a_failed_handshake() {
    let metainfo = metainfo_for(&[0u8; 16], 8);
    let mut script = Script::new(vec![plain(PeerMessageId::Unchoke), bitfield_message(vec![0xc0])]);
    script.handshake = Err(IPeerMessageServiceError::PeerHandshakeError);
    let mut session = PeerConnection::new(peer_named(7), &[9; 20], &metainfo, script);
    assert_eq!(session.open_connection(), Err(PeerConnectionError::HandshakeFailed));
    assert!(!session.is_ready());
}

#[test]
fn open_connection_fails_when_the_stream_ends() {
    let metainfo = metainfo_for(&[0u8; 16], 8);
    let script = Script::new(vec![plain(PeerMessageId::Unchoke)]);
    let mut session = PeerConnection::new(peer_named(7), &[9; 20], &metainfo, script);
    assert_eq!(session.open_connection(), Err(PeerConnectionError::WaitFailed));
}

#[test]
fn open_connection_gives_up_on_a_peer_that_never_gets_ready() {
    let metainfo = metainfo_for(&[0u8; 16], 8);
    let script = Script::new((0..10).map(|_| PeerMessage::keep_alive()).collect());
    let mut session = PeerConnection::new(peer_named(7), &[9; 20], &metainfo, script);
    session.set_patience(5);
    assert_eq!(session.open_connection(), Err(PeerConnectionError::PeerNotReady));
}

#[test]
fn request_piece_splits_into_blocks_with_a_short_last_one() {
    let file: Vec<u8> = (0..20).collect();
    let metainfo = metainfo_for(&file, 10);
    // Piece 1 holds bytes 10..20; with blocks of 4 it takes 4 + 4 + 2.
    let script = Script::new(vec![
        PeerMessage::piece(1, 0, file[10..14].to_vec()),
        PeerMessage::have(0),
        PeerMessage::piece(1, 4, file[14..18].to_vec()),
        PeerMessage::keep_alive(),
        PeerMessage::piece(1, 8, file[18..20].to_vec()),
    ]);
    let mut session = PeerConnection::new(peer_named(7), &[9; 20], &metainfo, script);
    assert_eq!(session.request_piece(1, 4), Ok(file[10..20].to_vec()));
    assert_eq!(session.take_announced(), vec![0]);
}

#[test]
fn request_piece_of_the_short_last_piece() {
    let file: Vec<u8> = (0..13).collect();
    let metainfo = metainfo_for(&file, 5);
    let script = Script::new(vec![
        PeerMessage::piece(2, 0, file[10..12].to_vec()),
        PeerMessage::piece(2, 2, file[12..13].to_vec()),
    ]);
    let mut session = PeerConnection::new(peer_named(7), &[9; 20], &metainfo, script);
    assert_eq!(session.request_piece(2, 2), Ok(file[10..13].to_vec()));
}

#[test]
fn request_piece_refuses_a_piece_the_torrent_does_not_have() {
    let file: Vec<u8> = (0..13).collect();
    let metainfo = metainfo_for(&file, 5);
    let script = Script::new(vec![PeerMessage::piece(3, 0, vec![1, 2])]);
    let mut session = PeerConnection::new(peer_named(7), &[9; 20], &metainfo, script);
    assert_eq!(
        session.request_piece(3, 2),
        Err(PeerConnectionError::PieceRequestingError(PieceRequestFault::NoSuchPiece))
    );
}

#[test]
fn request_piece_fails_on_a_wrong_total_length() {
    let file: Vec<u8> = (0..8).collect();
    let metainfo = metainfo_for(&file, 8);
    let script = Script::new(vec![
        PeerMessage::piece(0, 0, vec![0, 1, 2]),
        PeerMessage::piece(0, 4, vec![4, 5, 6, 7]),
    ]);
    let mut session = PeerConnection::new(peer_named(7), &[9; 20], &metainfo, script);
    assert_eq!(
        session.request_piece(0, 4),
        Err(PeerConnectionError::PieceRequestingError(PieceRequestFault::InvalidPiece))
    );
}

#[test]
fn request_piece_fails_when_choked_midway() {
    let file: Vec<u8> = (0..8).collect();
    let metainfo = metainfo_for(&file, 8);
    let script = Script::new(vec![
        PeerMessage::piece(0, 0, file[0..4].to_vec()),
        plain(PeerMessageId::Choke),
        PeerMessage::piece(0, 4, file[4..8].to_vec()),
    ]);
    let mut session = PeerConnection::new(peer_named(7), &[9; 20], &metainfo, script);
    assert_eq!(
        session.request_piece(0, 4),
        Err(PeerConnectionError::PieceRequestingError(PieceRequestFault::Choked))
    );
    assert!(session.is_choked());
}

#[test]
fn request_piece_fails_when_the_connection_drops() {
    let file: Vec<u8> = (0..8).collect();
    let metainfo = metainfo_for(&file, 8);
    let script = Script::new(vec![PeerMessage::piece(0, 0, file[0..4].to_vec())]);
    let mut session = PeerConnection::new(peer_named(7), &[9; 20], &metainfo, script);
    assert_eq!(
        session.request_piece(0, 4),
        Err(PeerConnectionError::PieceRequestingError(PieceRequestFault::WaitFailed))
    );
}

#[test]
fn request_piece_gives_up_on_a_stalling_peer() {
    let file: Vec<u8> = (0..8).collect();
    let metainfo = metainfo_for(&file, 8);
    let script = Script::new((0..20).map(|_| PeerMessage::have(0)).collect());
    let mut session = PeerConnection::new(peer_named(7), &[9; 20], &metainfo, script);
    session.set_patience(3);
    assert_eq!(
        session.request_piece(0, 4),
        Err(PeerConnectionError::PieceRequestingError(PieceRequestFault::Stalled))
    );
    assert_eq!(session.take_announced(), vec![0, 0, 0]);
}

#[test]
fn faults_are_sorted_into_transport_and_protocol() {
    assert!(PieceRequestFault::Closed.is_transport());
    assert!(PieceRequestFault::SendFailed.is_transport());
    assert!(PieceRequestFault::WaitFailed.is_transport());
    assert!(PieceRequestFault::Stalled.is_transport());
    assert!(!PieceRequestFault::Choked.is_transport());
    assert!(!PieceRequestFault::InvalidBlock.is_transport());
    assert!(!PieceRequestFault::InvalidPiece.is_transport());
    assert!(!PieceRequestFault::NoSuchPiece.is_transport());
}

#[test]
fn piece_download_asks_for_each_block_in_turn() {
    let mut download = PieceDownload::new(4, 5, 2);
    let wanted = [(0u32, 2u32), (2, 2), (4, 1)];
    for (offset, length) in wanted {
        assert!(!download.is_complete());
        let request = download.next_request().unwrap();
        assert_eq!(request.encode(), PeerMessage::request(4, offset, length).encode());
        let block = vec![offset as u8; length as usize];
        assert_eq!(
            download.accept(&PeerMessage::piece(4, offset, block)),
            BlockVerdict::Accepted
        );
    }
    assert!(download.is_complete());
    assert!(download.next_request().is_none());
    assert_eq!(download.finish(), Ok(vec![0, 0, 2, 2, 4]));
}

#[test]
fn piece_download_judges_messages() {
    let mut download = PieceDownload::new(4, 5, 2);
    assert_eq!(download.accept(&PeerMessage::keep_alive()), BlockVerdict::Ignored);
    assert_eq!(download.accept(&PeerMessage::have(1)), BlockVerdict::Ignored);
    assert_eq!(
        download.accept(&PeerMessage::piece(4, 2, vec![1, 2])),
        BlockVerdict::InvalidBlock
    );
    assert_eq!(
        download.accept(&PeerMessage::piece(3, 0, vec![1, 2])),
        BlockVerdict::InvalidBlock
    );
    assert_eq!(download.accept(&plain(PeerMessageId::Choke)), BlockVerdict::Choked);
    assert!(!download.is_complete());
    assert_eq!(
        download.finish(),
        Err(PeerConnectionError::PieceRequestingError(PieceRequestFault::InvalidPiece))
    );
}

#[test]
fn close_is_idempotent_and_final() {
    let file: Vec<u8> = (0..8).collect();
    let metainfo = metainfo_for(&file, 8);
    let script = Script::new(vec![
        plain(PeerMessageId::Unchoke),
        bitfield_message(vec![0x80]),
        PeerMessage::piece(0, 0, file.clone()),
    ]);
    let mut session = PeerConnection::new(peer_named(7), &[9; 20], &metainfo, script);
    assert!(!session.is_closed());
    assert_eq!(session.open_connection(), Ok(()));
    session.close();
    assert!(session.is_closed());
    assert!(!session.is_ready());
    session.close();
    assert!(session.is_closed());
    assert!(!session.is_choked());
    assert!(session.get_bitfield().has_piece(0));

    assert_eq!(
        session.request_piece(0, 8),
        Err(PeerConnectionError::PieceRequestingError(PieceRequestFault::Closed))
    );
    assert_eq!(session.open_connection(), Err(PeerConnectionError::Closed));
    assert_eq!(session.wait_until_ready(), Err(PeerConnectionError::Closed));
    assert_eq!(
        session.wait_for_message().unwrap_err(),
        IPeerMessageServiceError::ReceivingMessageError
    );
    assert!(session.is_closed());
}

#[test]
fn a_failed_connection_ends_the_session() {
    let file: Vec<u8> = (0..8).collect();
    let metainfo = metainfo_for(&file, 8);
    let script = Script::new(vec![
        PeerMessage::piece(0, 0, file[0..4].to_vec()),
        PeerMessage::piece(0, 4, file[4..8].to_vec()),
    ]);
    let mut session = PeerConnection::new(peer_named(7), &[9; 20], &metainfo, script);
    assert_eq!(session.request_piece(0, 4), Ok(file.clone()));
    assert!(!session.is_closed());
    assert_eq!(
        session.request_piece(0, 4),
        Err(PeerConnectionError::PieceRequestingError(PieceRequestFault::WaitFailed))
    );
    assert!(session.is_closed());
    assert_eq!(
        session.request_piece(0, 4),
        Err(PeerConnectionError::PieceRequestingError(PieceRequestFault::Closed))
    );
}

#[test]
fn a_wrong_block_does_not_end_the_session() {
    let file: Vec<u8> = (0..8).collect();
    let metainfo = metainfo_for(&file, 8);
    let script = Script::new(vec![
        PeerMessage::piece(0, 4, file[4..8].to_vec()),
        PeerMessage::piece(0, 0, file.clone()),
    ]);
    let mut session = PeerConnection::new(peer_named(7), &[9; 20], &metainfo, script);
    assert_eq!(
        session.request_piece(0, 8),
        Err(PeerConnectionError::PieceRequestingError(PieceRequestFault::InvalidBlock))
    );
    assert!(!session.is_closed());
    assert_eq!(session.request_piece(0, 8), Ok(file));
}

#[test]
fn a_failed_open_ends_the_session() {
    let metainfo = metainfo_for(&[0u8; 16], 8);
    let mut script = Script::new(vec![]);
    script.handshake = Err(IPeerMessageServiceError::PeerHandshakeError);
    let mut session = PeerConnection::new(peer_named(7), &[9; 20], &metainfo, script);
    assert_eq!(session.open_connection(), Err(PeerConnectionError::HandshakeFailed));
    assert!(session.is_closed());
}

#[test]
fn open_connection_reports_a_message_that_cannot_be_sent() {
    let metainfo = metainfo_for(&[0u8; 16], 8);
    for sends_that_succeed in 0..2 {
        let mut script =
            Script::new(vec![plain(PeerMessageId::Unchoke), bitfield_message(vec![0xc0])]);
        script.sends_that_succeed = sends_that_succeed;
        let mut session = PeerConnection::new(peer_named(7), &[9; 20], &metainfo, script);
        assert_eq!(
            session.open_connection(),
            Err(PeerConnectionError::SendingMessageError)
        );
        assert!(session.is_closed());
    }
}

#[test]
fn request_piece_reports_a_request_that_cannot_be_sent() {
    let file: Vec<u8> = (0..8).collect();
    let metainfo = metainfo_for(&file, 8);
    let mut script = Script::new(vec![
        PeerMessage::piece(0, 0, file[0..4].to_vec()),
        PeerMessage::piece(0, 4, file[4..8].to_vec()),
    ]);
    script.sends_that_succeed = 1;
    let mut session = PeerConnection::new(peer_named(7), &[9; 20], &metainfo, script);
    assert_eq!(
        session.request_piece(0, 4),
        Err(PeerConnectionError::PieceRequestingError(PieceRequestFault::SendFailed))
    );
    assert!(session.is_closed());
}
