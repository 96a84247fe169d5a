use kasane::database::settings::{
    env_bool, env_flags, env_number, open_plan, OpenPlan, DEFAULT_MAP_SIZE, DEFAULT_MAX_READERS, MAX_DBS,
};
use kasane::models::{AppError, SCHEMA_VERSION};

#[test]
fn flags_accept_one_and_true_in_any_case() {
    assert!(env_bool(Some("1")));
    assert!(env_bool(Some("true")));
    assert!(env_bool(Some("TRUE")));
    assert!(env_bool(Some("tRuE")));
    assert!(!env_bool(Some("yes")));
    assert!(!env_bool(Some("0")));
    assert!(!env_bool(Some(" true")));
    assert!(!env_bool(Some("11")));
    assert!(!env_bool(Some("")));
    assert!(!env_bool(None));
}

#[test]
fn no_sync_brings_meta_sync_and_async_map_with_it() {
    let none = env_flags(None, None, None);
    assert!(!none.no_read_ahead && !none.write_map && !none.no_sync && !none.no_meta_sync && !none.map_async);
    let sync_off = env_flags(None, None, Some("1"));
    assert!(sync_off.no_sync && sync_off.no_meta_sync && !sync_off.map_async);
    let both = env_flags(Some("true"), Some("True"), Some("1"));
    assert!(both.no_read_ahead && both.write_map && both.no_sync && both.no_meta_sync && both.map_async);
    let map_only = env_flags(None, Some("1"), None);
    assert!(map_only.write_map && !map_only.map_async);
}

#[test]
fn numbers_are_read_untrimmed_and_bounded() {
    assert_eq!(DEFAULT_MAP_SIZE, 10 * 1024 * 1024 * 1024);
    assert_eq!(DEFAULT_MAX_READERS, 1024);
    assert_eq!(MAX_DBS, 24);
    let readers_max = u32::MAX as u64;
    assert_eq!(env_number(None, 1024, readers_max), 1024);
    assert_eq!(env_number(Some("64"), 1024, readers_max), 64);
    assert_eq!(env_number(Some(" 64"), 1024, readers_max), 1024);
    assert_eq!(env_number(Some("4294967296"), 1024, readers_max), 1024);
    assert_eq!(env_number(Some("4294967295"), 1024, readers_max), 4294967295);
    assert_eq!(env_number(Some("20971520"), DEFAULT_MAP_SIZE, u64::MAX), 20971520);
}

#[test]
fn opening_checks_the_format_version_first() {
    assert_eq!(
        open_plan(Some(SCHEMA_VERSION), false),
        Ok(OpenPlan { write_version: false, create_root: false })
    );
    assert_eq!(
        open_plan(Some(SCHEMA_VERSION), true),
        Ok(OpenPlan { write_version: false, create_root: true })
    );
    assert_eq!(open_plan(None, true), Ok(OpenPlan { write_version: true, create_root: true }));
    assert_eq!(
        open_plan(None, false),
        Err(AppError::SchemaVersionMismatch { found: None, expected: SCHEMA_VERSION })
    );
    assert_eq!(
        open_plan(Some(SCHEMA_VERSION + 1), true),
        Err(AppError::SchemaVersionMismatch { found: Some(SCHEMA_VERSION + 1), expected: SCHEMA_VERSION })
    );
}
