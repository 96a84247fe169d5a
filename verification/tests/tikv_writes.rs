use std::cell::Cell;
use kasane::encoding::OwnedName;
use kasane::keymap::KeyMap;
use kasane::models::DatabaseId;
use kasane::tikv::catalog::{
    copy_rows, database_id_row, database_removal_keys, database_rename_mutations, name_change, rename_mutations,
    retire_mutations,
};
use kasane::tikv::keys::{database, database_id_index, garbage, table, table_id_index};
use kasane::models::{AppError, FlexId, TableId};
use kasane::tikv::batch::{chunks, flush_batches, lock_plan, locked_shards, table_flex_id_count, value_index_mutations};
use kasane::tikv::keys::{shard, LockScope};
use kasane::tikv::kv::{frame, Mutation};
use kasane::tikv::retry::{KeyErrorInfo, StoreError, MAX_ATTEMPTS};
use kasane::tikv::scan::{
    any_undeleted, count_deletions, keys_not_deleted, merge_keys, merge_rows, merge_rows_limited, puts_any,
    read_budget,
};
use kasane::tikv::shard_cache::{current_version, entry_weight, is_fresh, mark_ttl_ms, next_mark};
use kasane::encoding::shard_entry::ShardEntry;
use kasane::tikv::kv::ShardValue;
use kasane::tikv::merge::{merge_decision, MergeDecision, MergeWalk, WalkNext};
use kasane::tikv::staging::StagedWrites;
use kasane::tikv::write_loop::{
    run_write, should_flush, AttemptPlan, AttemptRun, FlushReport, LockLedger, Step, StoreFailure, WriteLoop,
};

fn b(s: &str) -> Vec<u8> {
    s.as_bytes().to_vec()
}

fn put(k: &str, v: &str) -> Mutation {
    Mutation::Put(b(k), b(v))
}

fn del(k: &str) -> Mutation {
    Mutation::Delete(b(k))
}

#[test]
fn a_read_sees_the_last_staged_change() {
    let mut staged = StagedWrites::new();
    staged.stage(vec![put("a", "1"), put("b", "2"), del("a"), put("c", "3"), put("b", "22")]);
    assert_eq!(staged.lookup(b"a"), Some(None));
    assert_eq!(staged.lookup(b"b"), Some(Some(b("22"))));
    assert_eq!(staged.lookup(b"z"), None);
}

#[test]
fn batch_reads_split_between_staged_and_stored() {
    let mut staged = StagedWrites::new();
    staged.stage(vec![put("a", "1"), del("b")]);
    let (answered, ask) = staged.partition_reads(&vec![b("a"), b("b"), b("c")]);
    assert_eq!(answered, vec![(b("a"), b("1"))]);
    assert_eq!(ask, vec![b("c")]);
}

#[test]
fn staged_changes_are_sent_in_key_order() {
    let mut staged = StagedWrites::new();
    staged.stage(vec![put("c", "3"), del("a"), put("b", "2"), put("c", "33")]);
    assert_eq!(staged.staged_range(b"b", None), vec![(b("b"), Some(b("2"))), (b("c"), Some(b("33")))]);
    assert_eq!(staged.staged_range(b"a", Some(b"c")), vec![(b("a"), None), (b("b"), Some(b("2")))]);
    assert_eq!(staged.into_mutations(), vec![del("a"), put("b", "2"), put("c", "33")]);
}

#[test]
fn range_reads_lay_staged_changes_over_stored_rows() {
    let raw = vec![(b("a"), b("1")), (b("b"), b("2")), (b("d"), b("4"))];
    let staged = vec![(b("b"), None), (b("c"), Some(b("3"))), (b("d"), Some(b("44")))];
    assert_eq!(merge_rows(raw.clone(), staged), vec![(b("a"), b("1")), (b("c"), b("3")), (b("d"), b("44"))]);
    assert_eq!(merge_rows(raw.clone(), Vec::new()), raw);
}

#[test]
fn key_scans_lay_staged_changes_over_stored_keys() {
    let raw = vec![b("a"), b("b")];
    let staged = vec![(b("a"), None), (b("c"), Some(b("x")))];
    assert_eq!(merge_keys(raw.clone(), staged), vec![b("b"), b("c")]);
    assert_eq!(merge_keys(raw.clone(), Vec::new()), raw);
}

#[test]
fn limited_reads_take_the_smallest_keys_after_the_overlay() {
    let raw = vec![(b("a"), b("1")), (b("b"), b("2")), (b("c"), b("3"))];
    let staged = vec![(b("a"), None), (b("b2"), Some(b("x")))];
    assert_eq!(read_budget(2, &staged), 3);
    assert_eq!(merge_rows_limited(raw, staged, 2), vec![(b("b"), b("2")), (b("b2"), b("x"))]);
}

#[test]
fn deleted_keys_do_not_count_as_remaining() {
    let staged = vec![(b("a"), None), (b("c"), None)];
    assert_eq!(keys_not_deleted(vec![b("a"), b("b"), b("c")], &staged), vec![b("b")]);
    assert_eq!(count_deletions(&staged), 2);
    assert!(!puts_any(&staged));
    assert!(puts_any(&vec![(b("x"), Some(b("1")))]));
    assert!(!any_undeleted(&vec![b("a"), b("c")], &staged));
    assert!(any_undeleted(&vec![b("a"), b("d")], &staged));
    assert_eq!(read_budget(usize::MAX, &staged), u32::MAX);
}

#[test]
fn a_missing_lock_restarts_the_attempt_and_is_held_next_time() {
    let mut w = WriteLoop::new();
    let plan = w.begin().unwrap();
    assert!(plan.locks.is_empty());
    assert!(plan.one_pc);
    let mut ledger = LockLedger::new(&plan.locks);
    assert!(ledger.require_lock(LockScope::Database, b"db").is_err());
    assert!(!should_flush(&ledger, true));
    let step = w.after_attempt(ledger, Ok(()), None, false);
    assert!(matches!(step, Step::Again));

    let plan = w.begin().unwrap();
    assert_eq!(plan.locks, vec![kasane::tikv::keys::lock(LockScope::Database, b"db")]);
    let mut ledger = LockLedger::new(&plan.locks);
    assert!(ledger.require_lock(LockScope::Database, b"db").is_ok());
    assert!(ledger.require_locks(&vec![(LockScope::Database, b("db"))]).is_ok());
    assert!(should_flush(&ledger, true));
    assert!(matches!(w.after_attempt(ledger, Ok(()), None, false), Step::Commit));
    assert!(matches!(w.after_commit(None), Step::Done));
}

#[test]
fn a_declined_one_phase_commit_retries_with_two_phases() {
    let mut w = WriteLoop::new();
    let plan = w.begin().unwrap();
    let ledger = LockLedger::new(&plan.locks);
    assert!(matches!(w.after_attempt(ledger, Ok(()), None, false), Step::Commit));
    let failure = StoreFailure { kind: StoreError::OnePcFailure, message: "declined".to_string() };
    assert!(matches!(w.after_commit(Some(failure)), Step::Again));
    let plan = w.begin().unwrap();
    assert!(!plan.one_pc);
}

#[test]
fn conflicts_wait_and_other_failures_end_the_write() {
    let mut w = WriteLoop::new();
    let plan = w.begin().unwrap();
    let ledger = LockLedger::new(&plan.locks);
    let step = w.after_attempt(ledger, Err(AppError::Conflict("lost".to_string())), None, true);
    assert!(matches!(step, Step::Wait(ms) if ms <= 6));

    let plan = w.begin().unwrap();
    let ledger = LockLedger::new(&plan.locks);
    let other = KeyErrorInfo {
        conflict: false,
        deadlock: false,
        retryable: false,
        commit_ts_expired: false,
        txn_not_found: false,
        already_exist: true,
    };
    let failure = StoreFailure { kind: StoreError::KeyError(other), message: "exists".to_string() };
    let step = w.after_attempt(ledger, Ok(()), Some(failure), false);
    match step {
        Step::Fail(e) => assert_eq!(e, AppError::StorageError("exists".to_string())),
        _ => panic!("a non-retryable failure must end the write"),
    }
}

#[test]
fn a_stale_read_waits_before_the_next_attempt() {
    let mut w = WriteLoop::new();
    let plan = w.begin().unwrap();
    let mut ledger = LockLedger::new(&plan.locks);
    let _ = ledger.mark_stale();
    assert!(ledger.needs_restart());
    // The first conflict waits the base back-off of 5 ms, spread by at most 1 ms.
    match w.after_attempt(ledger, Ok(()), None, false) {
        Step::Wait(ms) => assert!((4..=6).contains(&ms), "{ms}"),
        other => panic!("{other:?}"),
    }
}

#[test]
fn attempts_run_out() {
    let mut w = WriteLoop::new();
    for _ in 0..MAX_ATTEMPTS {
        let plan = w.begin().unwrap();
        let ledger = LockLedger::new(&plan.locks);
        let step = w.after_attempt(ledger, Err(AppError::Conflict("lost".to_string())), None, true);
        assert!(matches!(step, Step::Wait(_)));
    }
    assert!(w.begin().is_none());
    assert_eq!(w.give_up(), AppError::Conflict("lost".to_string()));
}

#[test]
fn lock_declarations_that_never_converge_end_in_a_conflict() {
    let mut w = WriteLoop::new();
    for i in 0..MAX_ATTEMPTS {
        let plan = w.begin().unwrap();
        assert_eq!(plan.locks.len(), i);
        let mut ledger = LockLedger::new(&plan.locks);
        assert!(ledger.require_lock(LockScope::Database, &[i as u8]).is_err());
        assert!(matches!(w.after_attempt(ledger, Ok(()), None, false), Step::Again));
    }
    assert!(w.begin().is_none());
    assert_eq!(
        w.give_up(),
        AppError::Conflict("write did not settle within 20 attempts (20 lock(s) held at the end)".to_string())
    );
}

#[test]
fn batches_keep_order_and_size() {
    let keys: Vec<Vec<u8>> = (0u8..5).map(|i| vec![i]).collect();
    let bs = chunks(keys, 2);
    assert_eq!(bs, vec![vec![vec![0], vec![1]], vec![vec![2], vec![3]], vec![vec![4]]]);
    assert!(chunks(Vec::<Vec<u8>>::new(), 3).is_empty());
}

#[test]
fn shard_counts_add_up() {
    let entries = vec![(b("k1"), 3u32.to_le_bytes().to_vec()), (b("k2"), 4u32.to_le_bytes().to_vec())];
    assert_eq!(table_flex_id_count(&entries).unwrap(), 7);
    let bad = vec![(b("k1"), vec![1, 2, 3])];
    assert!(matches!(table_flex_id_count(&bad), Err(AppError::Corrupt { .. })));
}

#[test]
fn index_changes_touch_only_the_difference() {
    let mut out = Vec::new();
    value_index_mutations(&vec![b("a"), b("b")], &vec![b("b"), b("c")], &mut out);
    assert_eq!(out, vec![Mutation::Delete(b("a")), Mutation::Put(b("c"), Vec::new())]);
}

#[test]
fn shards_are_locked_once_each_in_key_order() {
    let t = TableId::from([1u8; 16]);
    let r1 = FlexId([9u8; 14]);
    let r2 = FlexId([3u8; 14]);
    let plan = lock_plan(t, &vec![r1, r2, r1]);
    assert_eq!(plan, vec![(shard(t, &r2), r2), (shard(t, &r1), r1)]);

    let mut found: KeyMap<Vec<u8>> = KeyMap::new();
    found.insert(shard(t, &r1), frame(b"leaf"));
    let out = locked_shards(plan.clone(), &found).unwrap();
    assert_eq!(out.len(), 2);
    assert!(out[0].1.is_none());
    assert_eq!(out[1].1.as_ref().unwrap().entry(), b"leaf");

    let mut broken: KeyMap<Vec<u8>> = KeyMap::new();
    broken.insert(shard(t, &r2), vec![0, 0, 0, 0, 1]);
    assert!(locked_shards(plan, &broken).is_err());
}

#[test]
fn copied_rows_move_to_the_copy() {
    let src = TableId::from([1u8; 16]);
    let dst = TableId::from([2u8; 16]);
    let r = FlexId([5u8; 14]);
    let rows = copy_rows(vec![(shard(src, &r), b("leaf"))], dst).unwrap();
    assert_eq!(rows, vec![(shard(dst, &r), b("leaf"))]);
    assert!(matches!(copy_rows(vec![(vec![6, 1], b("x"))], dst), Err(AppError::InternalError(_))));
}

#[test]
fn renames_and_retirements_write_their_rows() {
    assert_eq!(name_change("t", Some("t")), None);
    assert_eq!(name_change("t", Some("u")), Some("u"));
    assert_eq!(name_change("t", None), None);

    let d = DatabaseId::from([1u8; 16]);
    let t = TableId::from([2u8; 16]);
    assert_eq!(
        rename_mutations(d, "old", "new", t),
        vec![Mutation::Delete(table(d, "old")), Mutation::Put(table_id_index(t), OwnedName::new(d, "new").into_bytes())]
    );
    assert_eq!(
        retire_mutations(d, "old", t),
        vec![Mutation::Delete(table(d, "old")), Mutation::Delete(table_id_index(t)), Mutation::Put(garbage(t), b("1"))]
    );
}

#[test]
fn locked_values_show_the_transactions_own_changes() {
    let mut staged = StagedWrites::new();
    staged.stage(vec![put("a", "new"), del("b")]);
    let locked = vec![(b("a"), b("old")), (b("b"), b("gone")), (b("c"), b("kept"))];
    let m = staged.overlay_locked(&locked, &vec![b("a"), b("b"), b("c")]);
    let entries = m.into_entries();
    assert_eq!(entries, vec![(b("a"), b("new")), (b("c"), b("kept"))]);
}

#[test]
fn a_value_fetched_across_an_invalidation_is_not_cached() {
    let noted = current_version(None);
    assert_eq!(noted, 0);
    assert!(is_fresh(None, noted));
    let stamp = next_mark(0);
    assert!(!is_fresh(Some(stamp), noted));
    assert!(is_fresh(Some(stamp), current_version(Some(stamp))));
    assert_eq!(entry_weight(0), 128);
    assert_eq!(entry_weight(usize::MAX), u32::MAX);
    assert_eq!(mark_ttl_ms(500), 5000);
    assert_eq!(mark_ttl_ms(60_000), 60_000);
}

fn node(entry: Vec<u8>) -> Option<ShardValue> {
    Some(ShardValue::try_from_framed(frame(&entry)).unwrap())
}

#[test]
fn shrunk_children_fold_into_their_parent_within_the_threshold() {
    let parent = FlexId([1u8; 14]);
    let a = FlexId([2u8; 14]);
    let b = FlexId([3u8; 14]);
    let descended = vec![a, b];
    let pointers = ShardEntry::encode_pointers(&[a, b]);

    let locked = vec![(parent, node(pointers.clone())), (a, node(ShardEntry::encode_leaf(60, b"m"))), (b, None)];
    match merge_decision(&parent, &descended, &locked).unwrap() {
        MergeDecision::Merge(cs) => assert_eq!(cs, descended),
        _ => panic!("small children must merge"),
    }

    let locked = vec![
        (parent, node(pointers.clone())),
        (a, node(ShardEntry::encode_leaf(100, b"m"))),
        (b, node(ShardEntry::encode_leaf(29, b"m"))),
    ];
    assert!(matches!(merge_decision(&parent, &descended, &locked).unwrap(), MergeDecision::Settle(_)));

    let locked = vec![(parent, node(pointers.clone())), (a, node(ShardEntry::encode_pointers(&[b])))];
    assert!(matches!(merge_decision(&parent, &descended, &locked).unwrap(), MergeDecision::Settle(_)));

    assert!(matches!(merge_decision(&parent, &vec![a], &locked).unwrap(), MergeDecision::Stale));
    assert!(matches!(merge_decision(&parent, &descended, &vec![(parent, None)]).unwrap(), MergeDecision::Stale));
    let leaf_parent = vec![(parent, node(ShardEntry::encode_leaf(1, b"m")))];
    assert!(matches!(merge_decision(&parent, &descended, &leaf_parent).unwrap(), MergeDecision::Stale));
    let broken = vec![(parent, node(pointers)), (a, node(vec![9]))];
    assert!(merge_decision(&parent, &descended, &broken).is_err());
}

#[test]
fn database_rows_follow_its_name() {
    let d = DatabaseId::from([8u8; 16]);
    assert_eq!(
        database_rename_mutations("old", "new", d),
        vec![Mutation::Delete(database("old")), Mutation::Put(database_id_index(d), b("new"))]
    );
    assert_eq!(database_removal_keys("db", d), vec![database("db"), database_id_index(d)]);
    assert_eq!(database_id_row("db", d), (database_id_index(d), b("db")));
}

#[test]
fn staged_changes_are_flushed_in_key_order_and_in_batches() {
    let mut staged = StagedWrites::new();
    let changes: Vec<Mutation> = (0u16..1500).rev().map(|i| Mutation::Put(i.to_be_bytes().to_vec(), vec![1])).collect();
    staged.stage(changes);
    let bs = flush_batches(staged);
    assert_eq!(bs.iter().map(|b| b.len()).collect::<Vec<_>>(), vec![1024, 476]);
    assert_eq!(bs[0][0], Mutation::Put(vec![0, 0], vec![1]));
    assert_eq!(bs[1][475], Mutation::Put(1499u16.to_be_bytes().to_vec(), vec![1]));
    assert!(flush_batches(StagedWrites::new()).is_empty());
}

#[test]
fn a_write_returns_the_value_of_its_last_attempt() {
    let sleeps = Cell::new(0u32);
    let out = run_write(
        |_plan: &AttemptPlan| None,
        |plan: &AttemptPlan, n: usize| {
            let mut ledger = LockLedger::new(&plan.locks);
            // The first attempt finds a lock missing; the second loses a race.
            if n == 0 {
                assert!(ledger.require_lock(LockScope::Database, b"db").is_err());
            }
            let result = if n == 1 { Err(AppError::Conflict("lost".to_string())) } else { Ok(n * 10) };
            AttemptRun { ledger, result, txn: n }
        },
        |_txn: &usize, _send: bool| FlushReport { failure: None, conflicted: true },
        |_txn: usize| None,
        |_ms: u64| sleeps.set(sleeps.get() + 1),
    );
    assert_eq!(out.result, Ok(20));
    assert_eq!(out.attempts, 3);
    assert!(!out.exhausted);
    assert_eq!(sleeps.get(), 1);
}

#[test]
fn a_write_that_never_settles_stops_at_the_attempt_limit() {
    let out = run_write(
        |_plan: &AttemptPlan| None,
        |plan: &AttemptPlan, _n: usize| AttemptRun {
            ledger: LockLedger::new(&plan.locks),
            result: Err::<(), AppError>(AppError::Conflict("again".to_string())),
            txn: (),
        },
        |_txn: &(), _send: bool| FlushReport { failure: None, conflicted: true },
        |_txn: ()| None,
        |_ms: u64| {},
    );
    assert_eq!(out.attempts, MAX_ATTEMPTS);
    assert!(out.exhausted);
    assert_eq!(out.result, Err(AppError::Conflict("again".to_string())));
}

#[test]
fn a_failure_that_cannot_be_retried_ends_the_write() {
    let out = run_write(
        |_plan: &AttemptPlan| None,
        |plan: &AttemptPlan, _n: usize| AttemptRun {
            ledger: LockLedger::new(&plan.locks),
            result: Err::<(), AppError>(AppError::InternalError("bad".to_string())),
            txn: (),
        },
        |_txn: &(), _send: bool| FlushReport { failure: None, conflicted: false },
        |_txn: ()| None,
        |_ms: u64| {},
    );
    assert_eq!(out.attempts, 1);
    assert_eq!(out.result, Err(AppError::InternalError("bad".to_string())));
}

#[test]
fn the_walk_up_settles_each_decided_level_once() {
    let r = |b: u8| FlexId([b; 14]);
    let mut walk = MergeWalk::new();
    assert!(walk.visits(&r(1)));
    assert!(matches!(walk.after_level(r(9), MergeDecision::Stale), WalkNext::Restart));
    assert!(walk.visits(&r(1)));
    match walk.after_level(r(9), MergeDecision::Merge(vec![r(1), r(2)])) {
        WalkNext::Up(p) => assert_eq!(p, r(9)),
        _ => panic!("merged children send the walk up"),
    }
    assert!(!walk.visits(&r(1)) && !walk.visits(&r(2)));
    assert!(walk.visits(&r(9)));
    assert!(matches!(walk.after_level(r(8), MergeDecision::Settle(vec![r(9)])), WalkNext::Stop));
    assert!(!walk.visits(&r(9)));
}
