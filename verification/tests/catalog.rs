use kasane::constraints::{ConstraintError, EnumMapping, TableConstraints, UpdateTableConstraints};
use kasane::database::batch::{abort_replies, failure_replies, should_commit};
use kasane::models::AppError;
use kasane::database::keys::{DbIdAndName, KeyDecodeError, TableIdAndFlexId};
use kasane::database::value_index::{flexid_from_key, make_key, make_prefix, order_preserving, ColumnType};
use kasane::models::{DataRole, DatabaseId, FlexId, TableDataType, TableId};
use kasane::keymap::KeyMap;
use kasane::tikv::keys::{database, table};
use kasane::tikv::resolve::{database_keys, resolutions, table_keys, FoundDatabase, ResolvedTable};
use kasane::privileges::{render_privilege, same_target, PrivilegeFold, PrivilegeRule, StoredPrivilege, StoredTarget};

fn names(v: &[&str]) -> Vec<String> {
    v.iter().map(|s| s.to_string()).collect()
}

fn enum_parts(c: &TableConstraints) -> (Vec<String>, Vec<(String, u16)>, u16) {
    match c {
        TableConstraints::Enum { choices, mapping, next_id } => (choices.clone(), mapping.entries().clone(), *next_id),
        _ => panic!("not an enum"),
    }
}

#[test]
fn enum_choices_get_numbers_in_order_from_one() {
    let c = TableConstraints::Enum { choices: names(&["red", "green"]), mapping: EnumMapping::new(), next_id: 0 };
    let out = TableConstraints::with_enum_ids(TableDataType::Enum, Some(c)).unwrap().unwrap();
    let (choices, mapping, next) = enum_parts(&out);
    assert_eq!(choices, names(&["red", "green"]));
    assert_eq!(mapping, vec![("red".to_string(), 1), ("green".to_string(), 2)]);
    assert_eq!(next, 3);
}

#[test]
fn an_enum_table_needs_choices() {
    assert!(matches!(
        TableConstraints::with_enum_ids(TableDataType::Enum, None),
        Err(ConstraintError::EnumRequiresChoices)
    ));
    let text = TableConstraints::Text { min_length: Some(1), max_length: None };
    assert!(matches!(
        TableConstraints::with_enum_ids(TableDataType::Text, Some(text)),
        Ok(Some(TableConstraints::Text { min_length: Some(1), max_length: None }))
    ));
}

#[test]
fn enum_numbers_run_out() {
    let c = TableConstraints::Enum { choices: names(&["a"]), mapping: EnumMapping::new(), next_id: u16::MAX };
    let err = TableConstraints::with_enum_ids(TableDataType::Enum, Some(c)).err().unwrap();
    assert_eq!(err, ConstraintError::EnumIdsExhausted);
    assert_eq!(err.reason(), "Enum choices reached maximum limit (65535)");
}

#[test]
fn updating_bounds_keeps_what_is_not_given() {
    let current = TableConstraints::Int { min: Some(-5), max: Some(5) };
    let update = UpdateTableConstraints::Int { min: None, max: Some(None) };
    let out = TableConstraints::merged_with(TableDataType::Int, Some(&current), update).unwrap().unwrap();
    assert!(matches!(out, TableConstraints::Int { min: Some(-5), max: None }));

    let update = UpdateTableConstraints::Text { min_length: Some(Some(2)), max_length: None };
    let out = TableConstraints::merged_with(TableDataType::Text, None, update).unwrap().unwrap();
    assert!(matches!(out, TableConstraints::Text { min_length: Some(2), max_length: None }));
}

#[test]
fn updating_an_enum_keeps_old_numbers_and_adds_new_ones() {
    let mut mapping = EnumMapping::new();
    mapping.insert("red".to_string(), 1);
    mapping.insert("green".to_string(), 2);
    let current = TableConstraints::Enum { choices: names(&["red", "green"]), mapping, next_id: 3 };
    let update = UpdateTableConstraints::Enum {
        choices: None,
        add_choices: Some(names(&["blue", "red"])),
        remove_choices: Some(names(&["green"])),
    };
    let out = TableConstraints::merged_with(TableDataType::Enum, Some(&current), update).unwrap().unwrap();
    let (choices, mapping, next) = enum_parts(&out);
    assert_eq!(choices, names(&["red", "blue"]));
    assert_eq!(mapping, vec![("red".to_string(), 1), ("green".to_string(), 2), ("blue".to_string(), 3)]);
    assert_eq!(next, 4);
}

#[test]
fn mismatched_constraints_are_refused() {
    let update = UpdateTableConstraints::Int { min: None, max: None };
    let err = TableConstraints::merged_with(TableDataType::Presence, None, update).err().unwrap();
    assert_eq!(err, ConstraintError::PresenceHasNoConstraints);
    assert_eq!(err.reason(), "Presence type cannot have constraints");
    let update = UpdateTableConstraints::Int { min: None, max: None };
    let err = TableConstraints::merged_with(TableDataType::Text, None, update).err().unwrap();
    assert_eq!(err, ConstraintError::TypeMismatch);
    assert_eq!(err.reason(), "Constraint type does not match data type");
}

#[test]
fn composite_keys_round_trip() {
    let db = DatabaseId::from([4u8; 16]);
    let bytes = DbIdAndName::encode(db, "tbl");
    assert_eq!(bytes.len(), 19);
    assert_eq!(DbIdAndName::decode(&bytes).unwrap(), (db, "tbl"));
    assert_eq!(DbIdAndName::decode(&[0u8; 3]).err(), Some(KeyDecodeError::InvalidLength));
    let mut bad = vec![0u8; 16];
    bad.push(0xFF);
    assert_eq!(DbIdAndName::decode(&bad).err(), Some(KeyDecodeError::InvalidUtf8));

    let t = TableId::from([5u8; 16]);
    let r = FlexId([6u8; 14]);
    let bytes = TableIdAndFlexId::encode(t, &r);
    assert_eq!(TableIdAndFlexId::decode(&bytes).unwrap(), (t, r));
    assert_eq!(TableIdAndFlexId::decode(&bytes[1..]).err(), Some(KeyDecodeError::InvalidLength));
}

#[test]
fn every_value_type_sorts_by_value() {
    let int = |v: i32| order_preserving(ColumnType::Int, &v.to_be_bytes());
    assert!(int(-3) < int(0) && int(0) < int(7));
    let float = |v: f32| order_preserving(ColumnType::Float, &v.to_be_bytes());
    assert!(float(-2.5) < float(-1.0));
    assert!(float(-1.0) < float(0.0));
    assert!(float(0.0) < float(1.5));
    let double = |v: f64| order_preserving(ColumnType::Double, &v.to_be_bytes());
    assert!(double(-1e10) < double(-1e-10) && double(1e-10) < double(1e10));
    assert_eq!(order_preserving(ColumnType::Boolean, &[1]), vec![1]);
    assert_eq!(order_preserving(ColumnType::Float, &[]), Vec::<u8>::new());
}

#[test]
fn index_keys_end_with_their_region() {
    let t = TableId::from([1u8; 16]);
    let r = FlexId([2u8; 14]);
    let key = make_key(t, b"v", &r);
    assert!(key.starts_with(&make_prefix(t, b"v")));
    assert_eq!(flexid_from_key(&key).unwrap(), r);
    assert!(flexid_from_key(&key[..29]).is_err());
}

#[test]
fn rules_for_one_target_fold_when_their_roles_agree() {
    let d = DatabaseId::from([1u8; 16]);
    let mut fold = PrivilegeFold::new();
    let read = StoredPrivilege { target: StoredTarget::Database(d), role: DataRole::Read };
    assert!(fold.add(read).is_ok());
    assert!(fold.add(read).is_ok());
    assert!(fold.add(StoredPrivilege { target: StoredTarget::Global, role: DataRole::Admin }).is_ok());
    let write = StoredPrivilege { target: StoredTarget::Database(d), role: DataRole::Write };
    let err = fold.add(write).err().unwrap();
    assert_eq!(err.reason(), "conflicting roles were given for the same target");
    assert_eq!(fold.into_privileges().len(), 2);
    assert!(!same_target(&StoredTarget::Database(d), &StoredTarget::Global));
}

#[test]
fn removed_targets_are_left_out_when_rendering() {
    let d = DatabaseId::from([1u8; 16]);
    let t = TableId::from([2u8; 16]);
    let p = StoredPrivilege { target: StoredTarget::Table(d, t), role: DataRole::Read };
    assert!(render_privilege(&p, Some("db".to_string()), None).is_none());
    assert!(render_privilege(&p, None, Some((d, "t".to_string()))).is_none());
    let elsewhere = DatabaseId::from([3u8; 16]);
    assert!(render_privilege(&p, Some("db".to_string()), Some((elsewhere, "t".to_string()))).is_none());
    match render_privilege(&p, Some("db".to_string()), Some((d, "t".to_string()))) {
        Some(PrivilegeRule::Table { db_name, table_name, role }) => {
            assert_eq!((db_name.as_str(), table_name.as_str(), role), ("db", "t", DataRole::Read));
        },
        _ => panic!("a table privilege renders as a table rule"),
    }
}

#[test]
fn names_resolve_in_two_batched_reads() {
    let refs = vec![
        ("db".to_string(), "t1".to_string()),
        ("db".to_string(), "".to_string()),
        ("missing".to_string(), "t".to_string()),
        ("".to_string(), "t".to_string()),
        ("db".to_string(), "t1".to_string()),
    ];
    assert_eq!(database_keys(&refs), vec![database("db"), database("missing")]);

    let id = DatabaseId::from([1u8; 16]);
    let mut found: KeyMap<FoundDatabase> = KeyMap::new();
    found.insert(database("db"), FoundDatabase(id));
    assert_eq!(table_keys(&refs, &found), vec![table(id, "t1")]);

    let r = resolutions(&refs, &found);
    let res = |db_id: Option<DatabaseId>, table_key: Option<Vec<u8>>| ResolvedTable { db_id, table_key };
    assert_eq!(
        r,
        vec![
            res(Some(id), Some(table(id, "t1"))),
            res(Some(id), None),
            res(None, None),
            res(None, None),
            res(Some(id), Some(table(id, "t1"))),
        ]
    );
}

#[test]
fn a_batch_commits_only_when_every_write_succeeded() {
    let ok: Vec<Result<(), AppError>> = vec![Ok(()), Ok(())];
    assert!(should_commit(&ok));
    let mixed = vec![Ok(()), Err(AppError::Conflict("x".to_string()))];
    assert!(!should_commit(&mixed));
    let replies = abort_replies(mixed);
    assert_eq!(replies, vec![Err(AppError::InternalError("Batch aborted".to_string())), Err(AppError::Conflict("x".to_string()))]);
    let msg = "Failed to commit batch: disk".to_string();
    assert_eq!(failure_replies(2, &msg), vec![Err(AppError::InternalError(msg.clone())); 2]);
}
