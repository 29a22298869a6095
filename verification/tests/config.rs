use bittorrent_rustico::application_errors::{exit_code, ApplicationError};
use bittorrent_rustico::config::{create_config, create_config_dict, Config, ConfigError};
use bittorrent_rustico::download_manager::DownloadManagerError;
use bittorrent_rustico::metainfo::{Info, Metainfo, MetainfoParserError};
use bittorrent_rustico::piece_manager::DownloadStatus;
use bittorrent_rustico::tracker::{
    store_minutes, AnnounceMessage, AnnounceRequest, MetricsMessage, TrackerError, TrackerEvent,
};

const CORRECT: &str =
    "listen_port=4424\nlog_path=logs/\ndownload_path=downloads/\npersist_pieces=true\n";

fn pairs(entries: &[(&str, &str)]) -> Vec<(String, String)> {
    entries
        .iter()
        .map(|(key, value)| (key.to_string(), value.to_string()))
        .collect()
}

#[test]
fn dictionary_reads_key_value_lines() {
    assert_eq!(
        create_config_dict(CORRECT),
        pairs(&[
            ("listen_port", "4424"),
            ("log_path", "logs/"),
            ("download_path", "downloads/"),
            ("persist_pieces", "true"),
        ])
    );
}

#[test]
fn dictionary_agrees_with_lines_and_split() {
    let texts = [
        "",
        "\n",
        "a=b",
        "a=b\n",
        "a=b\r\nc=d\r\n",
        "no separator\nkey=value=more\n=empty key\nempty value=\n\n\nlast=line",
        "a=1\na=2\n",
        "ñandú=crème\n",
        "x=y\r",
        "=\n==\n",
    ];
    for text in texts {
        let mut expected: Vec<(String, String)> = Vec::new();
        for line in text.lines() {
            let mut split = line.split("=");
            if let Some(key) = split.next() {
                if let Some(value) = split.next() {
                    expected.push((key.to_string(), value.to_string()));
                }
            }
        }
        assert_eq!(create_config_dict(text), expected, "for {:?}", text);
    }
}

#[test]
fn parses_correct_content() {
    let config = Config::from_content(CORRECT, "").unwrap();
    assert_eq!(config.listen_port, 4424);
    assert_eq!(config.log_path, "logs/");
    assert_eq!(config.download_path, "downloads/");
    assert_eq!(config.persist_pieces, true);
}

#[test]
fn index_moves_the_port_and_the_paths() {
    let config = Config::from_content(CORRECT, "3").unwrap();
    assert_eq!(config.listen_port, 4427);
    assert_eq!(config.log_path, "logs/3");
    assert_eq!(config.download_path, "downloads/3");

    let named = Config::from_content(CORRECT, "b").unwrap();
    assert_eq!(named.listen_port, 4424);
    assert_eq!(named.log_path, "logs/b");
}

#[test]
fn persist_pieces_is_true_only_for_true() {
    for (text, expected) in [("true", true), ("false", false), ("True", false), ("", false)] {
        let dict = pairs(&[
            ("listen_port", "1"),
            ("log_path", "l"),
            ("download_path", "d"),
            ("persist_pieces", text),
        ]);
        assert_eq!(create_config(&dict, "").unwrap().persist_pieces, expected);
    }
}

#[test]
fn missing_keys_are_reported_in_order() {
    let all = [
        ("listen_port", "1"),
        ("log_path", "l"),
        ("download_path", "d"),
        ("persist_pieces", "true"),
    ];
    for missing in 0..4 {
        let dict: Vec<(String, String)> = pairs(&all)
            .into_iter()
            .enumerate()
            .filter(|(at, _)| *at != missing)
            .map(|(_, entry)| entry)
            .collect();
        assert_eq!(
            create_config(&dict, "").unwrap_err(),
            ConfigError::MissingKey(all[missing].0.to_string())
        );
    }
    assert_eq!(
        create_config(&vec![], "").unwrap_err(),
        ConfigError::MissingKey("listen_port".to_string())
    );
}

#[test]
fn invalid_ports_are_reported() {
    for text in ["", "+", "-1", "65536", "12a", " 12", "12 ", "99999999999999999999", "0x10"] {
        let dict = pairs(&[
            ("listen_port", text),
            ("log_path", "l"),
            ("download_path", "d"),
            ("persist_pieces", "true"),
        ]);
        assert_eq!(
            create_config(&dict, "").unwrap_err(),
            ConfigError::InvalidPort(text.to_string()),
            "for {:?}",
            text
        );
        assert_eq!(text.parse::<u16>().ok(), None);
    }
    let dict = pairs(&[("listen_port", "65535")]);
    assert_eq!(
        create_config(&dict, "1").unwrap_err(),
        ConfigError::InvalidPort("65535".to_string())
    );
}

#[test]
fn valid_ports_agree_with_the_standard_parser() {
    for text in ["0", "1", "+7", "007", "4424", "65535", "+65535", "000065535"] {
        let dict = pairs(&[
            ("listen_port", text),
            ("log_path", "l"),
            ("download_path", "d"),
            ("persist_pieces", "true"),
        ]);
        assert_eq!(
            create_config(&dict, "").unwrap().listen_port,
            text.parse::<u16>().unwrap(),
            "for {:?}",
            text
        );
    }
}

#[test]
fn a_later_entry_overrides_an_earlier_one() {
    let config = Config::from_content(
        "listen_port=1\nlisten_port=2\nlog_path=a\ndownload_path=b\npersist_pieces=true\nlog_path=c\n",
        "",
    )
    .unwrap();
    assert_eq!(config.listen_port, 2);
    assert_eq!(config.log_path, "c");
}

#[test]
fn errors_have_their_words() {
    assert_eq!(
        ConfigError::MissingKey("log_path".to_string()).to_text(),
        "Missing key: log_path"
    );
    assert_eq!(
        ConfigError::InvalidPath("/nowhere".to_string()).to_text(),
        "Invalid path: /nowhere"
    );
    assert_eq!(
        ConfigError::InvalidPort("x".to_string()).to_text(),
        "Invalid port: x"
    );
    assert_eq!(ConfigError::CreateDirectoryError.to_text(), "Can't create directory");
    assert_eq!(
        ApplicationError::from(ConfigError::MissingKey("k".to_string())).to_text(),
        "Config Error - Missing key: k"
    );
    assert_eq!(
        ApplicationError::from(MetainfoParserError::NoPieceLength).to_text(),
        "Metainfo Error - Pieces have no length"
    );
    assert_eq!(
        ApplicationError::from(TrackerError::Unreachable).to_text(),
        "Tracker Error - The tracker could not be reached"
    );
    assert_eq!(
        DownloadManagerError::EmptyPieceError.to_text(),
        "Can't save piece with no data in disk"
    );
    assert_eq!(
        DownloadManagerError::CreateDirectoryError("downloads".to_string()).to_text(),
        "Can't create directory: downloads"
    );
    let io = DownloadManagerError::from(std::io::Error::new(
        std::io::ErrorKind::Other,
        "disk full",
    ));
    assert_eq!(io.to_text(), "IoError: disk full");
}

#[test]
fn exit_codes() {
    assert_eq!(exit_code(&Ok(DownloadStatus::AllDone)), 0);
    assert_eq!(exit_code(&Ok(DownloadStatus::Stalled)), 3);
    assert_eq!(exit_code(&Ok(DownloadStatus::Downloading)), 3);
    assert_eq!(exit_code(&Ok(DownloadStatus::Waiting)), 3);
    assert_eq!(
        exit_code(&Err(ApplicationError::ConfigError(
            ConfigError::CreateDirectoryError
        ))),
        1
    );
    assert_eq!(
        exit_code(&Err(ApplicationError::MetainfoError(
            MetainfoParserError::WrongPieceCount
        ))),
        1
    );
    assert_eq!(
        exit_code(&Err(ApplicationError::TrackerError(
            TrackerError::MalformedResponse
        ))),
        2
    );
}

fn metainfo(piece_length: u32, length: u64, digests: usize) -> Metainfo {
    Metainfo {
        announce: "http://tracker/announce".to_string(),
        info: Info {
            piece_length,
            pieces: vec![vec![0; 20]; digests],
            length,
            name: "file".to_string(),
        },
        info_hash: vec![1; 20],
    }
}

#[test]
fn piece_arithmetic() {
    let torrent = metainfo(8, 20, 3);
    assert_eq!(torrent.piece_count(), 3);
    assert_eq!(torrent.piece_offset(0), 0);
    assert_eq!(torrent.piece_offset(2), 16);
    assert_eq!(torrent.piece_size(0), 8);
    assert_eq!(torrent.piece_size(1), 8);
    assert_eq!(torrent.piece_size(2), 4);
    assert_eq!(torrent.piece_size(3), 0);
    assert_eq!(metainfo(8, 16, 2).piece_count(), 2);
    assert_eq!(metainfo(8, 16, 2).piece_size(1), 8);
    assert_eq!(metainfo(8, 0, 0).piece_count(), 0);
    assert_eq!(metainfo(0, 16, 0).piece_count(), 0);
    assert_eq!(metainfo(0, 16, 0).piece_size(0), 0);
    assert_eq!(metainfo(1, u64::MAX, 0).piece_count(), u64::MAX);
    assert_eq!(metainfo(u32::MAX, u64::MAX, 0).piece_offset(u32::MAX), 18446744065119617025);
    let total: u64 = (0..3).map(|piece| torrent.piece_size(piece) as u64).sum();
    assert_eq!(total, 20);
}

#[test]
fn validate_finds_the_first_fault() {
    assert_eq!(metainfo(8, 20, 3).validate(), Ok(()));
    assert_eq!(metainfo(8, 0, 0).validate(), Ok(()));
    assert_eq!(
        metainfo(0, 20, 3).validate(),
        Err(MetainfoParserError::NoPieceLength)
    );
    assert_eq!(
        metainfo(8, 20, 2).validate(),
        Err(MetainfoParserError::WrongPieceCount)
    );
    assert_eq!(
        metainfo(8, 20, 4).validate(),
        Err(MetainfoParserError::WrongPieceCount)
    );
    let mut short_digest = metainfo(8, 20, 3);
    short_digest.info.pieces[1].pop();
    short_digest.info_hash.pop();
    assert_eq!(
        short_digest.validate(),
        Err(MetainfoParserError::WrongDigestLength)
    );
    let mut short_hash = metainfo(8, 20, 3);
    short_hash.info_hash.push(0);
    assert_eq!(
        short_hash.validate(),
        Err(MetainfoParserError::WrongInfoHashLength)
    );
}

#[test]
fn metainfo_clone_is_equal() {
    let torrent = metainfo(8, 20, 3);
    let copy = torrent.clone();
    assert_eq!(copy.announce, torrent.announce);
    assert_eq!(copy.info.piece_length, torrent.info.piece_length);
    assert_eq!(copy.info.pieces, torrent.info.pieces);
    assert_eq!(copy.info.length, torrent.info.length);
    assert_eq!(copy.info.name, torrent.info.name);
    assert_eq!(copy.info_hash, torrent.info_hash);
}

#[test]
fn store_minutes_counts_the_minutes_of_days() {
    assert_eq!(store_minutes(0), 0);
    assert_eq!(store_minutes(1), 1440);
    assert_eq!(store_minutes(30), 43200);
    assert_eq!(store_minutes(2982616), 4294967040);
}

#[test]
fn parses_correct_config() {
    let config = Config::from_content(
        "listen_port=4424\nlog_path=src/config/test_files/\ndownload_path=src/config/test_files/\npersist_pieces=true\n",
        "",
    )
    .unwrap();
    assert_eq!(config.listen_port, 4424);
    assert_eq!(config.log_path, "src/config/test_files/");
    assert_eq!(config.download_path, "src/config/test_files/");
    assert_eq!(config.persist_pieces, true);
}

#[test]
fn throws_on_missing_keys() {
    let config = Config::from_content(
        "listen_port=4424\nlog_path=src/config/test_files/\npersist_pieces=true\n",
        "",
    );
    assert_eq!(
        config.unwrap_err(),
        ConfigError::MissingKey("download_path".to_string())
    );
}

#[test]
fn throws_on_invalid_port() {
    let config = Config::from_content(
        "listen_port=abc\nlog_path=src/config/test_files/\ndownload_path=src/config/test_files/\npersist_pieces=true\n",
        "",
    );
    assert!(matches!(config, Err(ConfigError::InvalidPort(_))));
}

#[test]
fn throws_on_invalid_format_config() {
    let config = Config::from_content(
        "listen_port 4424\nlog_path: src/config/test_files/\ndownload_path\n",
        "",
    );
    assert!(matches!(config, Err(ConfigError::MissingKey(_))));
}

#[test]
fn tracker_messages_carry_plain_values() {
    let request = AnnounceRequest {
        info_hash: vec![1; 20],
        peer_id: vec![2; 20],
        port: 6881,
        event: TrackerEvent::Started,
        ip: "10.0.0.1".to_string(),
        numwant: 50,
        uploaded: 0,
        downloaded: 0,
        left: 16,
    };
    match AnnounceMessage::Announce(request, 7) {
        AnnounceMessage::Announce(request, connection) => {
            assert_eq!(request.event, TrackerEvent::Started);
            assert_eq!(request.left, 16);
            assert_eq!(connection, 7);
        }
        other => panic!("{:?}", other),
    }
    assert!(matches!(AnnounceMessage::Update, AnnounceMessage::Update));
    assert!(matches!(AnnounceMessage::Stop, AnnounceMessage::Stop));
    match MetricsMessage::Update(vec![("seeders".to_string(), 3)], 1_700_000_000) {
        MetricsMessage::Update(counts, taken) => {
            assert_eq!(counts, vec![("seeders".to_string(), 3)]);
            assert_eq!(taken, 1_700_000_000);
        }
        other => panic!("{:?}", other),
    }
    assert!(matches!(
        MetricsMessage::SendMetric("seeders".to_string()),
        MetricsMessage::SendMetric(_)
    ));
    assert!(matches!(MetricsMessage::Stop, MetricsMessage::Stop));
}
