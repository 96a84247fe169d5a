use kasane::tikv::scan::prefix_chunk;
use kasane::database::groups::gather;
use kasane::keymap::KeyMap;
use kasane::database::copy::{copied_index_keys, copied_shard_rows, retarget_key, SHARD_KEY_LEN};
use kasane::database::merge::children_mergeable;
use kasane::database::value_index::{order_preserving, ColumnType};
use kasane::encoding::shard_entry::{ShardEntry, MERGE_FLEX_ID_THRESHOLD};
use kasane::encoding::OwnedName;
use kasane::models::{AppError, FlexId, Resource, TableId};
use kasane::requests::{check_table_absent, check_table_names};
use kasane::privileges::{check_rule_count, TooManyPrivileges};
use kasane::text::push_decimal;
use kasane::tikv::keys::{database_name_from_key, username_from_key};

fn key_of(table: u8, tail: &[u8]) -> Vec<u8> {
    let mut k = vec![table; 16];
    k.extend_from_slice(tail);
    k
}

#[test]
fn a_copied_key_carries_the_copy_table_and_the_rest_unchanged() {
    let to = TableId::from([9u8; 16]);
    let key = key_of(1, &[5u8; 14]);
    assert_eq!(retarget_key(&key, &to), key_of(9, &[5u8; 14]));
    assert_eq!(retarget_key(&[1u8; 16], &to), vec![9u8; 16]);
}

#[test]
fn only_shard_rows_are_copied() {
    let to = TableId::from([9u8; 16]);
    assert_eq!(SHARD_KEY_LEN, 30);
    let rows = vec![
        (key_of(1, &[2u8; 14]), b"leaf".to_vec()),
        (key_of(1, &[3u8; 4]), b"count".to_vec()),
        (key_of(1, &[4u8; 14]), b"node".to_vec()),
    ];
    assert_eq!(
        copied_shard_rows(&rows, &to),
        vec![(key_of(9, &[2u8; 14]), b"leaf".to_vec()), (key_of(9, &[4u8; 14]), b"node".to_vec())]
    );
    assert!(copied_shard_rows(&Vec::new(), &to).is_empty());
}

#[test]
fn index_keys_that_carry_a_table_are_copied() {
    let to = TableId::from([9u8; 16]);
    let keys = vec![key_of(1, &[7, 7, 7]), vec![1u8; 15], vec![1u8; 16]];
    assert_eq!(copied_index_keys(&keys, &to), vec![key_of(9, &[7, 7, 7]), vec![9u8; 16]]);
}

fn leaf(count: u32, payload_len: usize) -> Vec<u8> {
    ShardEntry::encode_leaf(count, &vec![0u8; payload_len])
}

#[test]
fn leaves_merge_within_both_limits() {
    let half = (MERGE_FLEX_ID_THRESHOLD / 2) as u32;
    let kids = vec![Some(leaf(half, 10)), None, Some(leaf(half, 10))];
    assert_eq!(children_mergeable(&kids, 1000), Ok(true));
    // One region too many.
    let kids = vec![Some(leaf(half, 10)), Some(leaf(half + 1, 10))];
    assert_eq!(children_mergeable(&kids, 1000), Ok(false));
    // Few regions, but too many bytes together.
    let kids = vec![Some(leaf(1, 600)), Some(leaf(1, 600))];
    assert_eq!(children_mergeable(&kids, 1000), Ok(false));
    assert_eq!(children_mergeable(&vec![Some(leaf(1, 600))], 1000), Ok(true));
    // A pointer child keeps the level as it is.
    let pointers = ShardEntry::encode_pointers(&[FlexId([1u8; 14])]);
    assert_eq!(children_mergeable(&vec![Some(leaf(1, 1)), Some(pointers)], 1000), Ok(false));
    // A node whose count cannot be read is an internal error.
    assert!(matches!(children_mergeable(&vec![Some(vec![0u8, 1])], 1000), Err(AppError::InternalError(_))));
    assert_eq!(children_mergeable(&vec![None, None], 0), Ok(true));
}

#[test]
fn integer_columns_sort_negative_before_positive() {
    let enc = |v: i32| order_preserving(ColumnType::Int, &v.to_be_bytes());
    assert!(enc(-5) < enc(-1));
    assert!(enc(-1) < enc(0));
    assert!(enc(0) < enc(7));
    let small = |v: i16| order_preserving(ColumnType::SmallInt, &v.to_be_bytes());
    assert!(small(i16::MIN) < small(i16::MAX));
}

#[test]
fn too_many_rules_are_refused_before_resolving() {
    assert_eq!(check_rule_count(3, 3), Ok(()));
    assert_eq!(check_rule_count(0, 0), Ok(()));
    assert_eq!(check_rule_count(4, 3), Err(TooManyPrivileges { limit: 3 }));
    assert_eq!(TooManyPrivileges { limit: 256 }.reason(), "a user cannot hold more than 256 privileges");
}

#[test]
fn numbers_are_written_in_decimal() {
    for n in [0u64, 7, 10, 42, 1000, u64::MAX] {
        let mut s = String::from("n=");
        push_decimal(&mut s, n);
        assert_eq!(s, format!("n={n}"));
    }
}

#[test]
fn text_that_is_not_utf8_is_reported_with_the_decoder_detail() {
    let mut bytes = vec![1u8; 16];
    bytes.extend_from_slice(&[b'a', 0xFF]);
    let detail = std::str::from_utf8(&bytes[16..]).unwrap_err().to_string();
    assert_eq!(
        OwnedName::try_from(bytes.as_slice()),
        Err(AppError::InternalError(format!("name is not valid utf-8: {detail}")))
    );
    assert_eq!(username_from_key(&[]), Err(AppError::InternalError("username key is empty".to_string())));
    assert_eq!(
        database_name_from_key(&[0x02, 0xFF]),
        Err(AppError::InternalError(format!(
            "database name is not valid utf-8: {}",
            std::str::from_utf8(&[0xFF]).unwrap_err()
        )))
    );
}

#[test]
fn a_chunk_with_nothing_left_to_delete_ends_the_sweep() {
    let raw = vec![vec![1u8], vec![2u8]];
    let staged = vec![(vec![1u8], None), (vec![2u8], None), (vec![3u8], Some(vec![0u8]))];
    assert!(kasane::tikv::scan::keys_not_deleted(raw.clone(), &staged).is_empty());
    assert_eq!(kasane::tikv::scan::keys_not_deleted(raw, &vec![(vec![1u8], None)]), vec![vec![2u8]]);
    assert!(kasane::tikv::scan::keys_not_deleted(Vec::new(), &Vec::new()).is_empty());
}

#[test]
fn parts_of_a_read_join_value_by_value() {
    let f = |b: u8| FlexId([b; 14]);
    let mut gathered: KeyMap<Vec<FlexId>> = KeyMap::new();
    gather(&mut gathered, vec![(b"a".to_vec(), vec![f(1)]), (b"b".to_vec(), vec![f(2)])]);
    gather(&mut gathered, vec![(b"a".to_vec(), vec![f(3), f(4)])]);
    gather(&mut gathered, Vec::new());
    assert_eq!(gathered.get(b"a"), Some(&vec![f(1), f(3), f(4)]));
    assert_eq!(gathered.get(b"b"), Some(&vec![f(2)]));
    assert_eq!(gathered.get(b"c"), None);
}

#[test]
fn float_columns_sort_by_value() {
    let enc = |v: f64| order_preserving(ColumnType::Double, &v.to_be_bytes());
    let values = [f64::NEG_INFINITY, -1e10, -2.5, -0.0, 0.0, 1e-300, 3.5, 1e10, f64::INFINITY];
    for w in values.windows(2) {
        assert!(enc(w[0]) <= enc(w[1]), "{} then {}", w[0], w[1]);
        if w[0] < w[1] {
            assert!(enc(w[0]) < enc(w[1]));
        }
    }
    let single = |v: f32| order_preserving(ColumnType::Float, &v.to_be_bytes());
    assert!(single(-3.0) < single(-1.0));
    assert!(single(-1.0) < single(2.0));
    assert_eq!(single(2.0).len(), 4);
}

#[test]
fn a_prefix_counts_as_deleted_only_when_nothing_stays_visible() {
    // Keys left to delete: not done.
    let c = prefix_chunk(vec![vec![1u8], vec![2u8]], &vec![(vec![1u8], None)], 10);
    assert_eq!(c.keys, vec![vec![2u8]]);
    assert!(!c.done);
    // Every key returned is already deleted, and the read came back short: done.
    let c = prefix_chunk(vec![vec![1u8]], &vec![(vec![1u8], None)], 10);
    assert!(c.keys.is_empty() && c.done);
    // The read came back full: more keys may follow, so not done.
    let c = prefix_chunk(vec![vec![1u8]], &vec![(vec![1u8], None)], 1);
    assert!(c.keys.is_empty() && !c.done);
    // A value staged under the prefix stays visible: not done.
    let c = prefix_chunk(Vec::new(), &vec![(vec![5u8], Some(vec![0u8]))], 10);
    assert!(c.keys.is_empty() && !c.done);
    // Nothing at all: done.
    assert!(prefix_chunk(Vec::new(), &Vec::new(), 10).done);
}

#[test]
fn table_requests_check_their_names_first() {
    assert_eq!(
        check_table_names("", "t"),
        Err(AppError::NotFound { resource: Resource::Database, name: String::new() })
    );
    assert_eq!(
        check_table_names("db", ""),
        Err(AppError::InvalidName { reason: "table name cannot be empty".to_string() })
    );
    assert_eq!(check_table_names("db", "t"), Ok(()));
    assert_eq!(
        check_table_absent("t", true),
        Err(AppError::AlreadyExists { resource: Resource::Table, name: "t".to_string() })
    );
    assert_eq!(check_table_absent("t", false), Ok(()));
}
