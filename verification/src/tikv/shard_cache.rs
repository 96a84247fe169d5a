//! The decisions of the shared shard cache: how much an entry weighs, how long an
//! invalidation is remembered, and whether a value read from the store may be cached.
//!
//! A value fetched from the store must not be written back into the cache when the
//! shard was invalidated while it was being fetched: it may predate the write that
//! invalidated it. Every invalidation stamps the shard with a number from a counter
//! that only grows; a reader notes the shard's stamp before fetching, and caches the
//! value only when the stamp has not moved since.

use vstd::prelude::*;

verus! {

/// What an entry is assumed to cost besides its payload: the key, the shared pointer's
/// control block and the cache's own bookkeeping. Without it, empty entries and small
/// pointer nodes would count as free.
pub const ENTRY_OVERHEAD_BYTES: u32 = 128;

/// The shortest time an invalidation is remembered, whatever the cache's own time to
/// live: forgetting it before a fetch completes would let a stale value back in.
pub const MIN_INVALIDATION_MARK_TTL_MS: u64 = 5000;

/// The weight of an entry with a payload of `payload_len` bytes, capped at `u32::MAX`.
pub fn entry_weight(payload_len: usize) -> (w: u32)
    ensures
        w == if payload_len + ENTRY_OVERHEAD_BYTES > u32::MAX {
            u32::MAX as int
        } else {
            payload_len + ENTRY_OVERHEAD_BYTES
        },
{
    let total = payload_len.saturating_add(ENTRY_OVERHEAD_BYTES as usize);
    if total > (u32::MAX as usize) {
        u32::MAX
    } else {
        total as u32
    }
}

/// How long invalidation stamps live: the cache's time to live, but never under
/// [`MIN_INVALIDATION_MARK_TTL_MS`].
pub fn mark_ttl_ms(ttl_ms: u64) -> (ms: u64)
    ensures
        ms == if ttl_ms < MIN_INVALIDATION_MARK_TTL_MS {
            MIN_INVALIDATION_MARK_TTL_MS
        } else {
            ttl_ms
        },
{
    if ttl_ms < MIN_INVALIDATION_MARK_TTL_MS {
        MIN_INVALIDATION_MARK_TTL_MS
    } else {
        ttl_ms
    }
}

/// The stamp of a shard: that of its last invalidation, or 0 when it has none.
pub open spec fn stamp(mark: Option<u64>) -> u64 {
    match mark {
        Some(m) => m,
        None => 0,
    }
}

/// The stamp a shard has, noted before its value is fetched.
pub fn current_version(mark: Option<u64>) -> (v: u64)
    ensures
        v == stamp(mark),
{
    match mark {
        Some(m) => m,
        None => 0,
    }
}

/// The stamp of the next invalidation, given the last one handed out.
pub fn next_mark(last: u64) -> (m: u64)
    requires
        last < u64::MAX,
    ensures
        m == last + 1,
{
    last + 1
}

/// Whether a value fetched after noting `read_version` may be cached, the shard's stamp
/// now being `mark`: only when no invalidation came in between.
pub fn is_fresh(mark: Option<u64>, read_version: u64) -> (b: bool)
    ensures
        b == (stamp(mark) <= read_version),
{
    current_version(mark) <= read_version
}

/// A read never caches a value that an invalidation made while it was fetching could
/// have outdated: the stamp of an invalidation made after the read noted its version
/// comes from a counter that had already handed out every stamp the read could have
/// seen, so it is larger, and the value is not fresh.
pub proof fn lemma_invalidated_read_not_cached(noted: Option<u64>, counter: u64)
    requires
        stamp(noted) <= counter,
        counter < u64::MAX,
    ensures
        !(stamp(Some((counter + 1) as u64)) <= stamp(noted)),
{
}

} // verus!
