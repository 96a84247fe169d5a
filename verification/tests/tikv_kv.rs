use kasane::models::{FlexId, TableId};
use kasane::tikv::keys::{shard, shard_count};
use kasane::tikv::kv::{frame, next_cursor, shard_deletions, Mutation, ShardValue};

#[test]
fn framed_value_round_trips() {
    let entry = b"shard entry bytes".to_vec();
    let value = ShardValue::try_from(frame(&entry)).unwrap();
    assert_eq!(value.entry(), entry.as_slice());
}

#[test]
fn empty_entry_round_trips() {
    let value = ShardValue::try_from(frame(&[])).unwrap();
    assert_eq!(value.entry(), b"");
}

#[test]
fn corrupted_payload_is_rejected() {
    let mut framed = frame(b"shard entry bytes");
    let last = framed.len() - 1;
    framed[last] ^= 0xFF;
    assert!(ShardValue::try_from(framed).is_err());
}

#[test]
fn truncated_value_is_rejected() {
    let mut framed = frame(b"shard entry bytes");
    framed.truncate(framed.len() - 3);
    assert!(ShardValue::try_from(framed).is_err());
    assert!(ShardValue::try_from(vec![0x00, 0x01]).is_err());
    assert!(ShardValue::try_from(Vec::new()).is_err());
}

#[test]
fn frame_header_is_the_checksum_of_the_entry() {
    // CRC-32 of "123456789" is the standard check value 0xCBF43926.
    let framed = frame(b"123456789");
    assert_eq!(&framed[..4], &0xCBF43926u32.to_le_bytes());
    assert_eq!(&framed[4..], b"123456789");
}

#[test]
fn scanning_stops_on_a_short_batch() {
    assert_eq!(next_cursor(b"abc", 3, 4), None);
    assert_eq!(next_cursor(b"abc", 4, 4), Some(b"abc\0".to_vec()));
}

#[test]
fn removing_a_shard_removes_its_count() {
    let t = TableId::from([1u8; 16]);
    let r = FlexId([2u8; 14]);
    let [a, b] = shard_deletions(t, &r);
    assert_eq!(a, Mutation::Delete(shard(t, &r)));
    assert_eq!(b, Mutation::Delete(shard_count(t, &r)));
}
