use kasane::text::{nonempty_pieces, parse_u64, parse_usize, trim};
use kasane::tikv::config::{
    cluster_init, decode_schema_version, env_parsed, ClusterInit, env_str, initialization_needed, join_path, mismatch, request_timeout_from_env,
    retire, version_marker, GcConfig, ShardCacheConfig, TikvConfig, TikvSecurity,
};
use kasane::models::{AppError, TableId};

#[test]
fn numbers_parse_as_the_standard_library_parses_them() {
    for s in ["0", "42", "+7", "18446744073709551615", "", "+", "-1", "1a", " 1", "18446744073709551616"] {
        assert_eq!(parse_u64(s), s.parse::<u64>().ok(), "{s:?}");
        assert_eq!(parse_usize(s), s.parse::<usize>().ok(), "{s:?}");
    }
}

#[test]
fn trimming_drops_unicode_white_space() {
    for s in ["  a b \t", "\u{3000}x\u{a0}", "", "   ", "\u{85}y\u{2028}"] {
        assert_eq!(trim(s), s.trim(), "{s:?}");
    }
}

#[test]
fn blank_settings_fall_back_to_the_default() {
    assert_eq!(env_str(Some("  ")), None);
    assert_eq!(env_str(Some(" x ")), Some(" x "));
    assert_eq!(env_parsed(None, 9), 9);
    assert_eq!(env_parsed(Some(" 12 "), 9), 12);
    assert_eq!(env_parsed(Some("twelve"), 9), 9);
    assert_eq!(request_timeout_from_env(Some("0")), 30);
    assert_eq!(request_timeout_from_env(Some("5")), 5);
}

#[test]
fn endpoints_split_on_commas() {
    assert_eq!(nonempty_pieces(" a , ,b,"), vec!["a".to_string(), "b".to_string()]);
    let c = TikvConfig::from_endpoints(" pd1:2379 ,pd2:2379", None, None, None);
    assert_eq!(c.pd_endpoints, vec!["pd1:2379".to_string(), "pd2:2379".to_string()]);
    assert_eq!(c.request_timeout_secs, 30);
    assert_eq!(c.grpc_max_decoding_message_size, 16 * 1024 * 1024);
    let c = TikvConfig::from_env(None, None, Some("7"), Some("1024"));
    assert_eq!(c.pd_endpoints, vec!["127.0.0.1:2379".to_string()]);
    assert_eq!(c.request_timeout_secs, 7);
    assert_eq!(c.grpc_max_decoding_message_size, 1024);
}

#[test]
fn tls_needs_all_three_files() {
    assert_eq!(join_path("/etc/tls", "ca.crt"), "/etc/tls/ca.crt");
    assert_eq!(join_path("/etc/tls/", "ca.crt"), "/etc/tls/ca.crt");
    let s = TikvSecurity::from_env(Some("/d"), [true, true, true]).unwrap();
    assert_eq!((s.ca_path.as_str(), s.cert_path.as_str(), s.key_path.as_str()), ("/d/ca.crt", "/d/client.crt", "/d/client.key"));
    assert!(TikvSecurity::from_env(Some("/d"), [true, false, true]).is_none());
    assert!(TikvSecurity::from_env(Some(" "), [true, true, true]).is_none());
    assert!(TikvSecurity::from_env(None, [true, true, true]).is_none());
    let d = TikvSecurity::in_dir("dir");
    assert_eq!(d.key_path, "dir/client.key");
}

#[test]
fn collection_settings() {
    let c = GcConfig::from_env(Some("1000"), None);
    assert_eq!((c.mvcc_retention_secs, c.interval_secs, c.max_chunks_per_table, c.chunk_delay_ms), (1000, 60, 16, 200));
    assert_eq!(c.mvcc_interval_ms(), 500_000);
    assert_eq!(GcConfig::from_env(None, None).mvcc_interval_ms(), 300_000);
    assert_eq!(GcConfig::from_env(Some("10"), None).mvcc_interval_ms(), 60_000);
    let e = GcConfig::eager();
    assert_eq!((e.mvcc_retention_secs, e.max_chunks_per_table, e.chunk_delay_ms), (0, 64, 0));
    let (key, value) = retire(TableId::from([3u8; 16]));
    assert_eq!(key[1..].to_vec(), vec![3u8; 16]);
    assert_eq!(value, b"1".to_vec());
}

#[test]
fn the_shard_cache_is_off_when_either_limit_is_zero() {
    let c = ShardCacheConfig::from_env(None, None);
    assert_eq!((c.max_bytes, c.ttl_ms), (256 * 1024 * 1024, 500));
    assert!(c.is_enabled());
    assert!(!ShardCacheConfig::from_env(Some("0"), None).is_enabled());
    assert!(!ShardCacheConfig::from_env(None, Some("0")).is_enabled());
}

#[test]
fn only_the_current_format_is_read() {
    assert_eq!(initialization_needed(Some(2), true), Ok(false));
    assert_eq!(initialization_needed(None, false), Ok(true));
    assert_eq!(initialization_needed(Some(1), true), Err(mismatch(Some(1))));
    assert_eq!(initialization_needed(None, true), Err(mismatch(None)));
    assert_eq!(mismatch(None), AppError::SchemaVersionMismatch { found: None, expected: 2 });
    assert_eq!(decode_schema_version(None), Ok(None));
    assert_eq!(decode_schema_version(Some(&version_marker())), Ok(Some(2)));
    assert!(matches!(decode_schema_version(Some(&[1, 2])), Err(AppError::InternalError(_))));
}

#[test]
fn the_marker_decides_initialisation() {
    assert_eq!(cluster_init(true, false), ClusterInit::AlreadyDone);
    assert_eq!(cluster_init(false, false), ClusterInit::Initialize { create_user: true });
    assert_eq!(cluster_init(false, true), ClusterInit::Initialize { create_user: false });
}
