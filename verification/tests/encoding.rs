use kasane::encoding::acl::{decode_role, AclKey};
use kasane::encoding::value_index::{make_prefix, order_preserving, range_scan_bounds};
use kasane::encoding::{prefix_end, OwnedName};
use kasane::models::{DataRole, DataTarget, DatabaseId, PrincipalId, TableDataType, TableId};

fn ids() -> (PrincipalId, DatabaseId, TableId) {
    (PrincipalId::from([1u8; 16]), DatabaseId::from([2u8; 16]), TableId::from([3u8; 16]))
}

#[test]
fn both_directions_round_trip() {
    let (p, d, t) = ids();
    for target in [DataTarget::database(d), DataTarget::table(d, t)] {
        let key = AclKey::new(p, target);
        let row = key.rows();
        assert_eq!(AclKey::decode_forward(&row.forward).unwrap(), key);
        assert_eq!(AclKey::decode_reverse(&row.reverse).unwrap(), key);
    }
}

#[test]
fn principal_prefix_cannot_bleed_into_another_principal() {
    let (p, d, t) = ids();
    let other = PrincipalId::from([9u8; 16]);
    let target = DataTarget::table(d, t);

    assert!(AclKey::new(p, target).forward().starts_with(&AclKey::owned_by(p)));
    assert!(!AclKey::new(other, target).forward().starts_with(&AclKey::owned_by(p)));
}

#[test]
fn holders_in_covers_scope_and_table_rows() {
    let (p, d, t) = ids();
    let prefix = AclKey::holders_in(d);

    for target in [DataTarget::database(d), DataTarget::table(d, t)] {
        assert!(AclKey::new(p, target).rows().reverse.starts_with(&prefix));
    }

    let other_db = DatabaseId::from([7u8; 16]);
    assert!(!AclKey::new(p, DataTarget::table(other_db, t)).rows().reverse.starts_with(&prefix));
}

#[test]
fn database_scope_sorts_before_every_table() {
    let (p, d, t) = ids();
    assert!(AclKey::new(p, DataTarget::database(d)).forward() < AclKey::new(p, DataTarget::table(d, t)).forward());
}

#[test]
fn malformed_keys_and_values_are_rejected() {
    assert!(AclKey::decode_forward(&[0u8; 10]).is_err());
    assert!(AclKey::decode_reverse(&[]).is_err());
    assert!(decode_role(&[]).is_err());
    assert!(decode_role(&[9]).is_err());
    assert_eq!(decode_role(&[2]).unwrap(), DataRole::Write);
}

#[test]
fn prefix_end_rolls_over_trailing_max_bytes() {
    assert_eq!(prefix_end(&[0x01, 0x02]), Some(vec![0x01, 0x03]));
    assert_eq!(prefix_end(&[0x01, 0xFF]), Some(vec![0x02]));
    assert_eq!(prefix_end(&[0xFF, 0xFF]), None);
    assert_eq!(prefix_end(&[]), None);
}

#[test]
fn owned_name_round_trips() {
    let entry = OwnedName::new(DatabaseId::from([3u8; 16]), "my_table");
    let bytes = entry.clone().into_bytes();
    assert_eq!(OwnedName::try_from(bytes.as_slice()).unwrap(), entry);
}

#[test]
fn truncated_owned_name_is_rejected() {
    assert!(OwnedName::try_from([0u8; 4].as_slice()).is_err());
}

fn tid() -> TableId {
    TableId::from([7u8; 16])
}

fn covered(bounds: &(Vec<u8>, Option<Vec<u8>>), key: &[u8]) -> bool {
    let above_start = key >= bounds.0.as_slice();
    let below_end = match &bounds.1 {
        Some(end) => key < end.as_slice(),
        None => true,
    };
    above_start && below_end
}

fn highest_key(vkey: &[u8]) -> Vec<u8> {
    let mut key = make_prefix(tid(), vkey);
    key.extend_from_slice(&[0xFF; 14]);
    key
}

fn lowest_key(vkey: &[u8]) -> Vec<u8> {
    let mut key = make_prefix(tid(), vkey);
    key.extend_from_slice(&[0x00; 14]);
    key
}

fn assert_covers(lo: &[u8], hi: &[u8], vkey: &[u8]) {
    let bounds = range_scan_bounds(tid(), lo, hi);
    for key in [lowest_key(vkey), highest_key(vkey)] {
        assert!(covered(&bounds, &key), "lo={lo:?} hi={hi:?} vkey={vkey:?} is not covered");
    }
}

#[test]
fn covers_every_qualifying_value() {
    assert_covers(b"tokyo-a", b"tokyo-z", b"tokyo-a");
    assert_covers(b"tokyo-a", b"tokyo-z", b"tokyo-m");
    assert_covers(b"tokyo-a", b"tokyo-z", b"tokyo-z");
    assert_covers(b"tokyo-a", b"tokyo-z", b"tokyo-mm");

    assert_covers(b"b", b"bz", b"b");
    assert_covers(b"b", b"bz", b"bm");
    assert_covers(b"b", b"bz", b"bz");

    assert_covers(b"a", b"z", b"a");
    assert_covers(b"a", b"z", b"m");
    assert_covers(b"a", b"z", b"z");
    assert_covers(b"a", b"z", b"mmmm");

    assert_covers(b"x", b"x", b"x");

    assert_covers(b"", b"z", b"");
    assert_covers(b"", b"z", b"z");

    let lo = order_preserving(TableDataType::Int, &10i64.to_be_bytes());
    let hi = order_preserving(TableDataType::Int, &20i64.to_be_bytes());
    for v in [10i64, 15, 20] {
        let vkey = order_preserving(TableDataType::Int, &v.to_be_bytes());
        assert_covers(&lo, &hi, &vkey);
    }
}

#[test]
fn excludes_values_outside_the_range() {
    let bounds = range_scan_bounds(tid(), b"tokyo-a", b"tokyo-z");
    assert!(!covered(&bounds, &lowest_key(b"osaka")));
    assert!(!covered(&bounds, &lowest_key(b"yokohama")));
    assert!(!covered(&bounds, &highest_key(b"yokohama")));
}

#[test]
fn narrows_the_scan_well_below_the_whole_table() {
    let (start, end) = range_scan_bounds(tid(), b"tokyo-a", b"tokyo-z");
    assert_eq!(start, make_prefix(tid(), b"tokyo-a"));
    assert_eq!(end, Some(make_prefix(tid(), b"tokyo-{")));

    let (_, end) = range_scan_bounds(tid(), b"b", b"bz");
    assert_eq!(end, Some(make_prefix(tid(), b"c")));

    let (_, end) = range_scan_bounds(tid(), b"a", b"z");
    assert_eq!(end, Some(make_prefix(tid(), b"{")));
}

#[test]
fn an_empty_lower_bound_still_produces_a_usable_range() {
    let (start, end) = range_scan_bounds(tid(), b"", b"z");
    assert_eq!(start, make_prefix(tid(), b""));
    assert_eq!(end, prefix_end(&make_prefix(tid(), b"")));
}

#[test]
fn int_values_sort_by_value_after_encoding() {
    let enc = |v: i64| order_preserving(TableDataType::Int, &v.to_be_bytes());
    assert!(enc(i64::MIN) < enc(-1));
    assert!(enc(-1) < enc(0));
    assert!(enc(0) < enc(1));
    assert!(enc(1) < enc(i64::MAX));
    assert_eq!(enc(0), vec![0x80, 0, 0, 0, 0, 0, 0, 0]);
    assert_eq!(order_preserving(TableDataType::Text, b"abc"), b"abc".to_vec());
}

#[test]
fn acl_prefixes_select_their_rows() {
    let (p, d, t) = ids();
    let key = AclKey::new(p, DataTarget::table(d, t));
    assert!(key.forward().starts_with(&AclKey::owned_by_in(p, d)));
    assert!(key.rows().reverse.starts_with(&AclKey::holders_of(DataTarget::table(d, t))));
    assert!(!key.rows().reverse.starts_with(&AclKey::holders_of(DataTarget::database(d))));
    let [forward, reverse] = key.rows().into_keys();
    assert_eq!(forward, key.forward());
    assert_eq!(reverse, key.rows().reverse);
}

#[test]
fn owned_name_parts_come_back() {
    let entry = OwnedName::new(DatabaseId::from([5u8; 16]), "tbl");
    let (db, name) = entry.into_parts();
    assert_eq!(db, DatabaseId::from([5u8; 16]));
    assert_eq!(name, "tbl");
}
