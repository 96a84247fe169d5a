use kasane::encoding::prefix_end;
use kasane::encoding::value_index::order_preserving;
use kasane::models::{DatabaseId, FlexId, TableDataType, TableId};
use kasane::tikv::keys::{
    cluster_initialized, database, database_id_index, database_name_from_key, lock, replace_leading_id,
    shard, shard_counts_of, shards_of, table, table_id_index, table_name_from_key, tables_of, user,
    username_from_key, value_index, value_index_of, LockScope, Ns,
};

fn db_id(n: u8) -> DatabaseId {
    DatabaseId::from([n; 16])
}

fn table_id(n: u8) -> TableId {
    TableId::from([n; 16])
}

fn region() -> FlexId {
    FlexId([0xFF; 14])
}

#[test]
fn namespaces_do_not_overlap() {
    let keys = [
        cluster_initialized(),
        database("x"),
        table(db_id(1), "x"),
        database_id_index(db_id(1)),
        table_id_index(table_id(1)),
        user("x"),
        shards_of(table_id(1)),
        shard_counts_of(table_id(1)),
        value_index_of(table_id(1)),
        lock(LockScope::Database, b"some-db"),
    ];
    for (i, a) in keys.iter().enumerate() {
        for b in keys.iter().skip(i + 1) {
            assert_ne!(a[0], b[0], "two namespaces share a tag");
        }
    }
}

#[test]
fn table_prefix_covers_only_its_database() {
    let mine = table(db_id(1), "t");
    let other = table(db_id(2), "t");
    let prefix = tables_of(db_id(1));

    assert!(mine.starts_with(&prefix));
    assert!(!other.starts_with(&prefix));
}

#[test]
fn table_name_roundtrips_through_the_key() {
    let key = table(db_id(7), "my_table");
    assert_eq!(table_name_from_key(&key).unwrap(), "my_table");
}

#[test]
fn shard_keys_sort_within_their_table() {
    let prefix = shards_of(table_id(3));
    let end = prefix_end(&prefix).unwrap();

    let region = region();
    let mine = shard(table_id(3), &region);
    let other = shard(table_id(4), &region);

    assert!(mine.as_slice() >= prefix.as_slice() && mine.as_slice() < end.as_slice());
    assert!(!(other.as_slice() >= prefix.as_slice() && other.as_slice() < end.as_slice()));
}

#[test]
fn value_index_keeps_value_ordering() {
    let t = table_id(1);
    let region = region();
    let enc = |v: i64| order_preserving(TableDataType::Int, &v.to_be_bytes());

    let neg = value_index(t, &enc(-5), &region);
    let zero = value_index(t, &enc(0), &region);
    let pos = value_index(t, &enc(5), &region);

    assert!(neg < zero, "a negative value sorts after 0");
    assert!(zero < pos, "0 sorts after a positive value");
}

#[test]
fn short_keys_are_rejected_instead_of_panicking() {
    assert!(table_name_from_key(&[Ns::Tables.tag()]).is_err());
    assert!(username_from_key(&[]).is_err());
    assert!(database_name_from_key(&[]).is_err());

    let mut too_short = vec![Ns::TablesData.tag(), 0x00];
    assert!(replace_leading_id(&mut too_short, table_id(1)).is_err());
}

#[test]
fn replacing_the_leading_id_keeps_the_rest_of_the_key() {
    let region = region();
    let mut key = shard(table_id(1), &region);
    replace_leading_id(&mut key, table_id(2)).unwrap();
    assert_eq!(key, shard(table_id(2), &region));
}

#[test]
fn names_round_trip_through_their_keys() {
    assert_eq!(username_from_key(&user("alice")).unwrap(), "alice");
    assert_eq!(database_name_from_key(&database("mydb")).unwrap(), "mydb");
}

#[test]
fn lock_scopes_are_ordered_from_coarse_to_fine() {
    assert!(LockScope::Database < LockScope::User);
}

#[test]
fn namespace_prefix_is_its_tag() {
    assert_eq!(Ns::Databases.prefix(), vec![Ns::Databases.tag()]);
    assert_eq!(database("db")[1..].to_vec(), b"db".to_vec());
    assert_eq!(table_id_index(table_id(4))[1..].to_vec(), vec![4u8; 16]);
}
