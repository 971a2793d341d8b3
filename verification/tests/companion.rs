use mix_link::blob::DaBlob;
use mix_link::cli::{CryptarchiaArgs, LogArgs, LoggerBackendType, MetricsArgs};
use mix_link::command::PubSubCommand;
use mix_link::net::{parse_ip, parse_ipv4, Ipv4Address};
use mix_link::storage::{create_blob_idx, RocksAdapterSettings};

#[test]
fn blob_idx_concatenates_id_and_column() {
    let blob_id: Vec<u8> = (0u8..32).collect();
    let column_idx = [0xABu8, 0xCD];
    let key = create_blob_idx(&blob_id, &column_idx);
    assert_eq!(key.len(), 34);
    assert_eq!(&key[..32], &blob_id[..]);
    assert_eq!(&key[32..], &column_idx[..]);
}

#[test]
fn column_id_is_the_sha3_256_digest() {
    // SHA3-256 of the empty byte string.
    let expected: [u8; 32] = [
        0xa7, 0xff, 0xc6, 0xf8, 0xbf, 0x1e, 0xd7, 0x66, 0x51, 0xc1, 0x47, 0x56, 0xa0, 0x61,
        0xd6, 0x62, 0xf5, 0x80, 0xff, 0x4d, 0xe4, 0x3b, 0x49, 0xfa, 0x82, 0xd8, 0x0a, 0x4b,
        0x80, 0xf8, 0x43, 0x4a,
    ];
    let blob = DaBlob { column: Vec::new(), column_idx: 0 };
    assert_eq!(blob.column_id(), expected.to_vec());
}

#[test]
fn column_id_depends_on_the_column_bytes() {
    let blob = DaBlob { column: b"hello".to_vec(), column_idx: 7 };
    let id = blob.column_id();
    assert_eq!(id.len(), 32);
    // The digest is not the column handed back unchanged.
    assert_ne!(id, b"hello".to_vec());
    let other = DaBlob { column: b"hellp".to_vec(), column_idx: 7 };
    assert_ne!(other.column_id(), id);
}

#[test]
fn column_len_counts_bytes() {
    let blob = DaBlob { column: vec![1, 2, 3], column_idx: 0 };
    assert_eq!(blob.column_len(), 3);
}

#[test]
fn parse_ip_reads_dotted_quads() {
    assert_eq!(
        parse_ip(String::from("10.0.0.1")),
        Ipv4Address { a: 10, b: 0, c: 0, d: 1 }
    );
    assert_eq!(
        parse_ip(String::from("255.255.255.255")),
        Ipv4Address { a: 255, b: 255, c: 255, d: 255 }
    );
}

#[test]
fn parse_ip_falls_back_to_loopback() {
    let loopback = Ipv4Address { a: 127, b: 0, c: 0, d: 1 };
    assert_eq!(parse_ip(String::from("not-an-ip")), loopback);
    assert_eq!(parse_ip(String::from("256.1.1.1")), loopback);
    assert_eq!(parse_ip(String::from("")), loopback);
}

#[test]
fn dotted_quad_grammar_is_exact() {
    assert_eq!(parse_ipv4("0.0.0.0"), Some(Ipv4Address { a: 0, b: 0, c: 0, d: 0 }));
    assert_eq!(parse_ipv4("192.168.1.42"), Some(Ipv4Address { a: 192, b: 168, c: 1, d: 42 }));
    // Leading zeros, missing or extra octets, stray text: all rejected.
    assert_eq!(parse_ipv4("01.2.3.4"), None);
    assert_eq!(parse_ipv4("1.2.3"), None);
    assert_eq!(parse_ipv4("1.2.3.4.5"), None);
    assert_eq!(parse_ipv4("1..2.3"), None);
    assert_eq!(parse_ipv4("1.2.3.4 "), None);
    assert_eq!(parse_ipv4("1234.0.0.1"), None);
    assert_eq!(parse_ipv4("1.2.3.256"), None);
}

#[test]
fn logger_backend_defaults_to_stdout() {
    assert!(matches!(LoggerBackendType::default(), LoggerBackendType::Stdout));
}

#[test]
fn argument_records_carry_their_fields() {
    let log = LogArgs {
        log_addr: Some(String::from("127.0.0.1:12201")),
        directory: None,
        prefix: None,
        backend: Some(LoggerBackendType::Gelf),
        format: Some(String::from("Json")),
        level: Some(String::from("DEBUG")),
    };
    assert_eq!(log.log_addr.as_deref(), Some("127.0.0.1:12201"));
    let consensus = CryptarchiaArgs {
        chain_start_time: Some(0),
        slot_duration: Some(2),
        note_secret_key: None,
        note_value: None,
    };
    assert_eq!(consensus.slot_duration, Some(2));
    let metrics = MetricsArgs { with_metrics: false };
    assert!(!metrics.with_metrics);
    let settings = RocksAdapterSettings { blob_storage_directory: String::from("/var/da") };
    assert_eq!(settings.blob_storage_directory, "/var/da");
}

#[test]
fn pubsub_commands_carry_topic_and_message() {
    let command = PubSubCommand::Broadcast {
        topic: String::from("da"),
        message: b"blob".to_vec(),
    };
    match command {
        PubSubCommand::Broadcast { topic, message } => {
            assert_eq!(topic, "da");
            assert_eq!(message, b"blob".to_vec());
        }
        _ => panic!("wrong variant"),
    }
    let retry = PubSubCommand::RetryBroadcast {
        topic: String::from("da"),
        message: b"blob".to_vec(),
        retry_count: 2,
    };
    match retry {
        PubSubCommand::RetryBroadcast { retry_count, .. } => assert_eq!(retry_count, 2),
        _ => panic!("wrong variant"),
    }
}
