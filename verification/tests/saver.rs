use bittorrent_rustico::download_manager::{plan_piece_write, DownloadManagerError, Piece};
use bittorrent_rustico::metainfo::{Info, Metainfo};
use bittorrent_rustico::peer_connection_manager::PeerConnectionManagerMessage;
use bittorrent_rustico::piece_manager::{PieceManagerMessage, PieceManagerSender};
use bittorrent_rustico::piece_saver::{
    new_piece_saver, PieceSaverMessage, PieceSaverSender, PieceSaverWorker,
};

const HELLO_WORLD_SHA1: [u8; 20] = [
    0x2a, 0xae, 0x6c, 0x35, 0xc9, 0x4f, 0xcf, 0xb4, 0x15, 0xdb, 0xe9, 0x5f, 0x40, 0x8b, 0x9c,
    0xe9, 0x1e, 0xe8, 0x46, 0xed,
];

const ABC_SHA1: [u8; 20] = [
    0xa9, 0x99, 0x3e, 0x36, 0x47, 0x06, 0x81, 0x6a, 0xba, 0x3e, 0x25, 0x71, 0x78, 0x50, 0xc2,
    0x6c, 0x9c, 0xd0, 0xd8, 0x9d,
];

const EMPTY_SHA1: [u8; 20] = [
    0xda, 0x39, 0xa3, 0xee, 0x5e, 0x6b, 0x4b, 0x0d, 0x32, 0x55, 0xbf, 0xef, 0x95, 0x60, 0x18,
    0x90, 0xaf, 0xd8, 0x07, 0x09,
];

fn worker() -> PieceSaverWorker {
    PieceSaverWorker {
        piece_manager_sender: PieceManagerSender::new(),
        sha1_pieces: vec![HELLO_WORLD_SHA1.to_vec(), ABC_SHA1.to_vec(), EMPTY_SHA1.to_vec()],
        piece_length: 11,
        length: 14,
        download_path: "downloads".to_string(),
    }
}

fn failures(worker: &PieceSaverWorker) -> Vec<(u32, Vec<u8>)> {
    worker
        .piece_manager_sender
        .queue
        .iter()
        .map(|message| match message {
            PieceManagerMessage::FailedDownload(piece, peer) => (*piece, peer.clone()),
            _ => panic!("the verifier reports failures only"),
        })
        .collect()
}

#[test]
fn valid_piece_compares_the_sha1_digest() {
    let worker = worker();
    assert!(worker.valid_piece(b"hello world", 0));
    assert!(worker.valid_piece(b"abc", 1));
    assert!(worker.valid_piece(b"", 2));
    assert!(!worker.valid_piece(b"hello world", 1));
    assert!(!worker.valid_piece(b"hello worle", 0));
    assert!(!worker.valid_piece(&HELLO_WORLD_SHA1, 0));
    assert!(!worker.valid_piece(b"abc", 3));
    assert!(!worker.valid_piece(b"abc", u32::MAX));
}

#[test]
fn digest_is_expected_compares_bytes() {
    let worker = worker();
    assert!(worker.digest_is_expected(0, &HELLO_WORLD_SHA1));
    assert!(!worker.digest_is_expected(0, &ABC_SHA1));
    assert!(!worker.digest_is_expected(0, &HELLO_WORLD_SHA1[..19]));
    assert!(!worker.digest_is_expected(3, &HELLO_WORLD_SHA1));
}

#[test]
fn a_piece_that_passes_is_to_be_written_at_its_place() {
    let mut worker = worker();
    let order = worker
        .make_validation_and_save_piece(0, b"hello world".to_vec(), vec![1; 20])
        .expect("the piece passes");
    assert_eq!(order.write.piece_number, 0);
    assert_eq!(order.write.offset, 0);
    assert_eq!(order.write.data, b"hello world".to_vec());
    assert_eq!(order.peer_id, vec![1; 20]);
    assert!(worker.piece_manager_sender.queue.is_empty());

    worker.confirm_saved(&order);
    assert_eq!(worker.piece_manager_sender.queue.len(), 1);
    assert!(matches!(
        &worker.piece_manager_sender.queue[0],
        PieceManagerMessage::SuccessfulDownload(0, peer) if *peer == vec![1; 20]
    ));
}

#[test]
fn the_last_piece_is_cut_off_where_the_content_ends() {
    let mut worker = worker();
    let order = worker
        .make_validation_and_save_piece(1, b"abc".to_vec(), vec![2; 20])
        .expect("the piece passes");
    assert_eq!(order.write.offset, 11);
    assert_eq!(order.write.data, b"abc".to_vec());

    worker.length = 13;
    let cut = worker
        .make_validation_and_save_piece(1, b"abc".to_vec(), vec![2; 20])
        .expect("the piece passes");
    assert_eq!(cut.write.offset, 11);
    assert_eq!(cut.write.data, b"ab".to_vec());
}

#[test]
fn a_corrupt_piece_is_reported_and_not_written() {
    let mut worker = worker();
    let mut bytes = b"hello world".to_vec();
    bytes[4] ^= 1;
    assert!(worker
        .make_validation_and_save_piece(0, bytes, vec![1; 20])
        .is_none());
    assert_eq!(failures(&worker), vec![(0, vec![1; 20])]);
}

#[test]
fn a_piece_the_torrent_does_not_have_is_reported() {
    let mut worker = worker();
    assert!(worker
        .make_validation_and_save_piece(3, b"abc".to_vec(), vec![4; 20])
        .is_none());
    assert_eq!(failures(&worker), vec![(3, vec![4; 20])]);
}

#[test]
fn an_empty_piece_is_never_written() {
    let mut worker = worker();
    assert!(worker.valid_piece(b"", 2));
    assert!(worker
        .make_validation_and_save_piece(2, vec![], vec![5; 20])
        .is_none());
    assert_eq!(failures(&worker), vec![(2, vec![5; 20])]);
}

#[test]
fn listen_takes_messages_in_order_until_told_to_stop() {
    let mut worker = worker();
    let mut sender = PieceSaverSender::new();
    sender.validate_and_save_piece(1, b"abc".to_vec(), vec![1; 20]);
    sender.validate_and_save_piece(0, b"hello w0rld".to_vec(), vec![2; 20]);
    sender.validate_and_save_piece(0, b"hello world".to_vec(), vec![3; 20]);
    sender.stop_saving();
    sender.validate_and_save_piece(1, b"abc".to_vec(), vec![4; 20]);
    sender.validate_and_save_piece(1, b"abd".to_vec(), vec![5; 20]);
    assert_eq!(sender.queue.len(), 6);

    let report = worker.listen(sender.queue);
    assert!(report.stopped);
    let saved: Vec<(u32, u64, Vec<u8>, Vec<u8>)> = report
        .saves
        .iter()
        .map(|order| {
            (
                order.write.piece_number,
                order.write.offset,
                order.write.data.clone(),
                order.peer_id.clone(),
            )
        })
        .collect();
    assert_eq!(
        saved,
        vec![
            (1, 11, b"abc".to_vec(), vec![1; 20]),
            (0, 0, b"hello world".to_vec(), vec![3; 20]),
        ]
    );
    assert_eq!(failures(&worker), vec![(0, vec![2; 20])]);
}

#[test]
fn listen_reports_a_dry_inbox() {
    let mut worker = worker();
    let report = worker.listen(vec![PieceSaverMessage::ValidateAndSavePiece(
        1,
        b"abc".to_vec(),
        vec![1; 20],
    )]);
    assert!(!report.stopped);
    assert_eq!(report.saves.len(), 1);
    let empty = worker.listen(vec![]);
    assert!(!empty.stopped);
    assert!(empty.saves.is_empty());
}

#[test]
fn new_piece_saver_takes_its_digests_from_the_torrent() {
    let metainfo = Metainfo {
        announce: "http://tracker".to_string(),
        info: Info {
            piece_length: 11,
            pieces: vec![HELLO_WORLD_SHA1.to_vec(), ABC_SHA1.to_vec()],
            length: 14,
            name: "file".to_string(),
        },
        info_hash: vec![0; 20],
    };
    let (sender, worker) =
        new_piece_saver(PieceManagerSender::new(), &metainfo, "downloads".to_string());
    assert!(sender.queue.is_empty());
    assert_eq!(worker.sha1_pieces, metainfo.info.pieces);
    assert_eq!(worker.piece_length, 11);
    assert_eq!(worker.length, 14);
    assert_eq!(worker.download_path, "downloads");
    assert!(worker.valid_piece(b"abc", 1));
}

#[test]
fn plan_piece_write_places_and_cuts() {
    let write = plan_piece_write(
        Piece {
            piece_number: 3,
            data: vec![1, 2, 3, 4],
        },
        4,
        16,
    )
    .unwrap();
    assert_eq!((write.piece_number, write.offset), (3, 12));
    assert_eq!(write.data, vec![1, 2, 3, 4]);

    let cut = plan_piece_write(
        Piece {
            piece_number: 3,
            data: vec![1, 2, 3, 4],
        },
        4,
        14,
    )
    .unwrap();
    assert_eq!(cut.offset, 12);
    assert_eq!(cut.data, vec![1, 2]);

    let past = plan_piece_write(
        Piece {
            piece_number: 5,
            data: vec![1],
        },
        4,
        14,
    )
    .unwrap();
    assert_eq!(past.offset, 20);
    assert!(past.data.is_empty());

    let far = plan_piece_write(
        Piece {
            piece_number: u32::MAX,
            data: vec![9],
        },
        u32::MAX,
        u64::MAX,
    )
    .unwrap();
    assert_eq!(far.offset, u32::MAX as u64 * u32::MAX as u64);
    assert_eq!(far.data, vec![9]);
}

#[test]
fn plan_piece_write_refuses_an_empty_piece() {
    let plan = plan_piece_write(
        Piece {
            piece_number: 0,
            data: vec![],
        },
        4,
        16,
    );
    assert!(matches!(plan, Err(DownloadManagerError::EmptyPieceError)));
}

#[test]
fn io_errors_convert_into_download_manager_errors() {
    let error = std::io::Error::new(std::io::ErrorKind::Other, "disk full");
    let converted: DownloadManagerError = error.into();
    assert!(matches!(converted, DownloadManagerError::IoError(_)));
}

#[test]
fn what_is_written_in_any_order_has_its_digest_on_disk() {
    let mut worker = worker();
    let mut sender = PieceSaverSender::new();
    sender.validate_and_save_piece(1, b"abc".to_vec(), vec![1; 20]);
    sender.validate_and_save_piece(0, b"hello world".to_vec(), vec![2; 20]);
    sender.validate_and_save_piece(1, b"abx".to_vec(), vec![3; 20]);
    sender.validate_and_save_piece(1, b"abc".to_vec(), vec![4; 20]);
    let report = worker.listen(sender.queue);
    assert!(!report.stopped);
    assert_eq!(report.saves.len(), 3);

    let mut disk = vec![0xffu8; 14];
    for order in report.saves.iter() {
        let start = order.write.offset as usize;
        disk[start..start + order.write.data.len()].copy_from_slice(&order.write.data);
    }
    assert_eq!(disk, b"hello worldabc".to_vec());
    assert!(worker.valid_piece(&disk[0..11], 0));
    assert!(worker.valid_piece(&disk[11..14], 1));
    assert!(!worker.valid_piece(&disk[0..11], 1));
    assert_eq!(failures(&worker), vec![(1, vec![3; 20])]);
}

#[test]
fn a_piece_that_was_written_is_reported_and_the_download_goes_on() {
    let mut worker = worker();
    let order = worker
        .make_validation_and_save_piece(1, b"abc".to_vec(), vec![7; 20])
        .expect("the piece passes");
    assert!(worker.piece_manager_sender.queue.is_empty());
    assert!(worker.settle_write(&order, Ok(())).is_none());
    assert_eq!(worker.piece_manager_sender.queue.len(), 1);
    match &worker.piece_manager_sender.queue[0] {
        PieceManagerMessage::SuccessfulDownload(piece, peer) => {
            assert_eq!(*piece, 1);
            assert_eq!(*peer, vec![7; 20]);
        }
        _ => panic!("the scheduler is told that the piece is verified"),
    }
}

#[test]
fn a_piece_that_could_not_be_written_ends_the_download() {
    let mut worker = worker();
    let order = worker
        .make_validation_and_save_piece(0, b"hello world".to_vec(), vec![7; 20])
        .expect("the piece passes");
    let failure = std::io::Error::new(std::io::ErrorKind::Other, "disk full");
    let halt = worker
        .settle_write(&order, Err(DownloadManagerError::IoError(failure)))
        .expect("a failed write ends the download");
    assert!(worker.piece_manager_sender.queue.is_empty());
    assert_eq!(halt.piece, 0);
    match halt.error {
        DownloadManagerError::IoError(error) => assert_eq!(error.to_string(), "disk full"),
        other => panic!("{:?}", other),
    }
    assert!(matches!(
        halt.to_connection_manager,
        PeerConnectionManagerMessage::CloseConnections
    ));
    assert!(matches!(halt.to_verifier, PieceSaverMessage::StopSaving));

    // The message that stops the verifier does so.
    let report = worker.listen(vec![
        halt.to_verifier,
        PieceSaverMessage::ValidateAndSavePiece(1, b"abc".to_vec(), vec![7; 20]),
    ]);
    assert!(report.stopped);
    assert!(report.saves.is_empty());
    assert!(worker.piece_manager_sender.queue.is_empty());
}
