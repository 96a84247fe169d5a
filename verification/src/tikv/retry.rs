//! When a write is retried, and how long it waits first.

use vstd::prelude::*;

use rand_core::RngCore;

use crate::models::AppError;
use crate::text::{push_decimal, spec_decimal};
use vstd::string::StringExecFns;

verus! {

/// Most attempts of one write before it gives up.
pub const MAX_ATTEMPTS: usize = 20;

/// First wait after a conflict, in milliseconds. Retrying at once would hammer a
/// contended peer.
pub const RETRY_BACKOFF_BASE_MS: u64 = 5;

/// Longest wait, in milliseconds. A lock lives 20 seconds; waits grow up to just short
/// of the point where retrying can no longer succeed.
pub const RETRY_BACKOFF_MAX_MS: u64 = 2000;

/// Spread of the wait around its base, in percent, so that instances that collided do
/// not keep retrying in step.
pub const RETRY_BACKOFF_JITTER_PERCENT: u64 = 20;

pub open spec fn pow2(n: nat) -> nat
    decreases n,
{
    if n == 0 {
        1
    } else {
        2 * pow2((n - 1) as nat)
    }
}

/// The wait before jitter: doubling from the base with each conflict (the exponent
/// capped at 16 so it cannot overflow), never above the maximum.
pub open spec fn spec_backoff_base(attempt: u32) -> int {
    let e: nat = if attempt < 16 {
        attempt as nat
    } else {
        16
    };
    let grown = RETRY_BACKOFF_BASE_MS * pow2(e);
    if grown < RETRY_BACKOFF_MAX_MS {
        grown
    } else {
        RETRY_BACKOFF_MAX_MS as int
    }
}

/// Half the width of the jitter window around `base`.
pub open spec fn spec_jitter_span(base: int) -> int {
    base * (RETRY_BACKOFF_JITTER_PERCENT as int) / 100
}

/// The wait chosen by the random value `random`: `base` itself when the window is
/// narrower than a millisecond, else a point in `[base - span, base + span]`.
pub open spec fn spec_jitter(base: int, random: u64) -> int {
    let span = spec_jitter_span(base);
    if span == 0 {
        base
    } else {
        base - span + (random as int) % (span * 2 + 1)
    }
}

proof fn lemma_pow2_bounds(n: nat)
    requires
        n <= 16,
    ensures
        1 <= pow2(n) <= 65536,
        pow2(n) <= pow2(16),
    decreases n,
{
    if n > 0 {
        lemma_pow2_bounds((n - 1) as nat);
    }
    if n < 16 {
        lemma_pow2_mono(n, 16);
    }
    reveal_with_fuel(pow2, 17);
    assert(pow2(16) == 65536);
}

proof fn lemma_pow2_mono(a: nat, b: nat)
    requires
        a <= b,
    ensures
        pow2(a) <= pow2(b),
    decreases b,
{
    if a < b {
        lemma_pow2_mono(a, (b - 1) as nat);
    }
}

/// The wait before jitter for the given conflict count.
pub fn backoff_base(attempt: u32) -> (ms: u64)
    ensures
        ms == spec_backoff_base(attempt),
        ms <= RETRY_BACKOFF_MAX_MS,
{
    let e: u32 = if attempt < 16 {
        attempt
    } else {
        16
    };
    let mut grown: u64 = RETRY_BACKOFF_BASE_MS;
    let mut i: u32 = 0;
    while i < e
        invariant
            i <= e <= 16,
            grown == RETRY_BACKOFF_BASE_MS * pow2(i as nat),
        decreases e - i,
    {
        proof {
            lemma_pow2_bounds((i + 1) as nat);
        }
        grown = grown * 2;
        i += 1;
    }
    if grown < RETRY_BACKOFF_MAX_MS {
        grown
    } else {
        RETRY_BACKOFF_MAX_MS
    }
}

/// Spreads `base` by the random value `random` (see [`spec_jitter`]).
pub fn jitter_from(base: u64, random: u64) -> (ms: u64)
    requires
        base * RETRY_BACKOFF_JITTER_PERCENT <= u64::MAX,
    ensures
        ms == spec_jitter(base as int, random),
{
    let span = base * RETRY_BACKOFF_JITTER_PERCENT / 100;
    if span == 0 {
        return base;
    }
    let offset = random % (span * 2 + 1);
    base - span + offset
}

/// A random `u64` from the operating system, or `None` when it cannot supply one.
/// Nothing is promised of the value.
#[verifier::external_body]
fn os_random_u64() -> (r: Option<u64>) {
    let mut bytes = [0u8; 8];
    match rand_core::OsRng.try_fill_bytes(&mut bytes) {
        Ok(()) => Some(u64::from_le_bytes(bytes)),
        Err(_) => None,
    }
}

/// `base` spread by a fresh random value; `base` itself when no randomness is to be had.
pub fn apply_jitter(base: u64) -> (ms: u64)
    requires
        base * RETRY_BACKOFF_JITTER_PERCENT <= u64::MAX,
    ensures
        spec_jitter_span(base as int) == 0 ==> ms == base,
        base - spec_jitter_span(base as int) <= ms <= base + spec_jitter_span(base as int),
{
    match os_random_u64() {
        Some(random) => jitter_from(base, random),
        None => base,
    }
}

/// How long to wait after the given number of conflicts, in milliseconds.
pub fn retry_backoff(attempt: u32) -> (ms: u64)
    ensures
        spec_jitter_span(spec_backoff_base(attempt)) == 0 ==> ms == spec_backoff_base(attempt),
        spec_backoff_base(attempt) - spec_jitter_span(spec_backoff_base(attempt)) <= ms
            <= spec_backoff_base(attempt) + spec_jitter_span(spec_backoff_base(attempt)),
        ms <= RETRY_BACKOFF_MAX_MS + RETRY_BACKOFF_MAX_MS * RETRY_BACKOFF_JITTER_PERCENT / 100,
{
    apply_jitter(backoff_base(attempt))
}

/// The conflict count of a write and the last reason it failed, kept together so
/// that neither is updated without the other.
pub struct Retry {
    pub conflicts: u32,
    pub last_error: Option<AppError>,
}

impl Retry {
    pub fn new() -> (r: Retry)
        ensures
            r.conflicts == 0,
            r.last_error is None,
    {
        Retry { conflicts: 0, last_error: None }
    }

    /// A conflict: remembers why, counts it, and returns how long to wait before the
    /// next attempt (the wait for the conflicts counted so far).
    pub fn back_off(&mut self, reason: AppError) -> (wait_ms: u64)
        requires
            old(self).conflicts < u32::MAX,
        ensures
            final(self).last_error == Some(reason),
            final(self).conflicts == old(self).conflicts + 1,
            spec_backoff_base(old(self).conflicts) - spec_jitter_span(
                spec_backoff_base(old(self).conflicts),
            ) <= wait_ms <= spec_backoff_base(old(self).conflicts) + spec_jitter_span(
                spec_backoff_base(old(self).conflicts),
            ),
    {
        self.last_error = Some(reason);
        let wait_ms = retry_backoff(self.conflicts);
        self.conflicts = self.conflicts + 1;
        wait_ms
    }

    /// A retry without waiting: not a conflict, so it is not counted.
    pub fn note(&mut self, reason: AppError)
        ensures
            final(self).last_error == Some(reason),
            final(self).conflicts == old(self).conflicts,
    {
        self.last_error = Some(reason);
    }

    /// What a write that never settled reports: its last failure, or, when there was
    /// none (lock declarations that never converged), a conflict that says how many
    /// attempts were made and how many locks were held at the end.
    pub fn into_final_error(self, locks_held: usize) -> (e: AppError)
        ensures
            match self.last_error {
                Some(last) => e == last,
                None => e matches AppError::Conflict(m) && m@ == unsettled_message(locks_held as nat),
            },
    {
        match self.last_error {
            Some(e) => e,
            None => {
                let mut m = String::from_str("write did not settle within ");
                push_decimal(&mut m, MAX_ATTEMPTS as u64);
                m.append(" attempts (");
                push_decimal(&mut m, locks_held as u64);
                m.append(" lock(s) held at the end)");
                AppError::Conflict(m)
            },
        }
    }
}

/// The conflict of a write whose lock declarations never converged.
pub open spec fn unsettled_message(locks_held: nat) -> Seq<char> {
    "write did not settle within "@ + spec_decimal(MAX_ATTEMPTS as nat) + " attempts ("@ + spec_decimal(
        locks_held,
    ) + " lock(s) held at the end)"@
}

/// A key-level failure reported by the store.
#[derive(Debug, Clone, PartialEq, Eq)]
pub struct KeyErrorInfo {
    pub conflict: bool,
    pub deadlock: bool,
    /// The store said the operation may be retried.
    pub retryable: bool,
    pub commit_ts_expired: bool,
    pub txn_not_found: bool,
    pub already_exist: bool,
}

/// The failures of the transactional store, as far as the retry decision cares.
#[derive(Debug)]
pub enum StoreError {
    KeyError(KeyErrorInfo),
    /// Another transaction holds the lock right now.
    ResolveLockError,
    MultipleKeyErrors(Vec<StoreError>),
    ExtractedErrors(Vec<StoreError>),
    PessimisticLockError(Box<StoreError>),
    /// Whether the commit took effect is unknown.
    UndeterminedError(Box<StoreError>),
    /// The store declined a one-phase commit.
    OnePcFailure,
    Other,
}

pub open spec fn spec_is_retryable(err: StoreError) -> bool
    decreases err, 1int,
{
    match err {
        StoreError::KeyError(k) => k.conflict || k.deadlock || k.retryable || k.commit_ts_expired
            || k.txn_not_found,
        StoreError::ResolveLockError => true,
        StoreError::MultipleKeyErrors(errors) => spec_any_retryable(errors@),
        StoreError::ExtractedErrors(errors) => spec_any_retryable(errors@),
        StoreError::PessimisticLockError(inner) => spec_is_retryable(*inner),
        _ => false,
    }
}

/// Some failure in the list is retryable.
pub open spec fn spec_any_retryable(errors: Seq<StoreError>) -> bool
    decreases errors, 0int,
{
    if errors.len() == 0 {
        false
    } else {
        spec_is_retryable(errors[0]) || spec_any_retryable(errors.drop_first())
    }
}

/// Whether retrying can succeed: conflicts, deadlocks, locks held by others, and
/// attempts that expired or were rolled back (nothing of them was committed). A failure
/// whose commit outcome is unknown is never retried: it could apply twice.
pub fn is_retryable(err: &StoreError) -> (b: bool)
    ensures
        b == spec_is_retryable(*err),
    decreases err,
{
    match err {
        StoreError::KeyError(k) => {
            let b = k.conflict || k.deadlock || k.retryable || k.commit_ts_expired || k.txn_not_found;
            assert(b == spec_is_retryable(*err));
            b
        },
        StoreError::ResolveLockError => true,
        StoreError::MultipleKeyErrors(errors) => {
            let b = any_retryable(errors);
            assert(b == spec_is_retryable(*err));
            b
        },
        StoreError::ExtractedErrors(errors) => {
            let b = any_retryable(errors);
            assert(b == spec_is_retryable(*err));
            b
        },
        StoreError::PessimisticLockError(inner) => {
            let b = is_retryable(inner);
            assert(b == spec_is_retryable(*err));
            b
        },
        _ => false,
    }
}

fn any_retryable(errors: &Vec<StoreError>) -> (b: bool)
    ensures
        b == spec_any_retryable(errors@),
    decreases errors,
{
    let mut i: usize = 0;
    assert(errors@.subrange(0, errors@.len() as int) =~= errors@);
    while i < errors.len()
        invariant
            i <= errors@.len(),
            spec_any_retryable(errors@) == spec_any_retryable(errors@.subrange(i as int, errors@.len() as int)),
        decreases errors@.len() - i,
    {
        let ghost rest = errors@.subrange(i as int, errors@.len() as int);
        assert(rest.drop_first() =~= errors@.subrange(i + 1, errors@.len() as int));
        assert(rest[0] == errors@[i as int]);
        assert(decreases_to!(errors => errors@[i as int]));
        if is_retryable(&errors[i]) {
            return true;
        }
        i += 1;
    }
    false
}

/// Kept apart from [`is_retryable`]: before retrying, one-phase commit must be given up.
pub fn is_one_pc_failure(err: &StoreError) -> (b: bool)
    ensures
        b == (*err is OnePcFailure),
{
    match err {
        StoreError::OnePcFailure => true,
        _ => false,
    }
}

/// How a transaction is opened.
#[derive(Debug, Clone, Copy, PartialEq, Eq)]
pub struct TxnOptions {
    pub pessimistic: bool,
    pub try_one_pc: bool,
    /// A transaction dropped without commit or rollback only warns.
    pub warn_on_drop: bool,
}

/// Reads: optimistic, they never lock.
pub fn read_options() -> (o: TxnOptions)
    ensures
        o == (TxnOptions { pessimistic: false, try_one_pc: false, warn_on_drop: true }),
{
    TxnOptions { pessimistic: false, try_one_pc: false, warn_on_drop: true }
}

/// Lock-only transactions of the catalog path. They must stay pessimistic: an
/// optimistic lock sends no request and checks only at a commit that never comes, so
/// the exclusion would silently vanish.
pub fn lock_options() -> (o: TxnOptions)
    ensures
        o == (TxnOptions { pessimistic: true, try_one_pc: false, warn_on_drop: true }),
{
    TxnOptions { pessimistic: true, try_one_pc: false, warn_on_drop: true }
}

/// Working transactions: pessimistic, trying one-phase commit while the store accepts it.
pub fn write_options(one_pc: bool) -> (o: TxnOptions)
    ensures
        o == (TxnOptions { pessimistic: true, try_one_pc: one_pc, warn_on_drop: true }),
{
    TxnOptions { pessimistic: true, try_one_pc: one_pc, warn_on_drop: true }
}

/// The marker that throws an attempt away to retry it.
///
/// The write loop checks for it before looking at the result, so when it reaches a
/// caller as an error, that is a bug of this backend.
#[derive(Debug, Clone, Copy)]
pub struct NeedsRestart;

impl NeedsRestart {
    /// The error the marker becomes when it escapes the write loop: an internal error
    /// that names it a bug of this backend.
    pub fn into_error(self) -> (e: AppError)
        ensures
            e matches AppError::InternalError(m) && m@ == RESTART_ESCAPED@,
    {
        AppError::InternalError(RESTART_ESCAPED.to_string())
    }
}

/// The message of a restart marker that reached a caller.
pub const RESTART_ESCAPED: &'static str =
    "lock declaration escaped the write retry loop (this is a bug in the tikv backend)";

impl From<NeedsRestart> for AppError {
    /// As [`NeedsRestart::into_error`].
    fn from(marker: NeedsRestart) -> (e: AppError)
        ensures
            e matches AppError::InternalError(m) && m@ == RESTART_ESCAPED@,
    {
        marker.into_error()
    }
}

/// The trait-level specification claims nothing; what `from` returns is stated by its
/// own `ensures`, which callers of the impl see.
impl vstd::std_specs::convert::FromSpecImpl<NeedsRestart> for AppError {
    open spec fn obeys_from_spec() -> bool {
        false
    }

    open spec fn from_spec(marker: NeedsRestart) -> AppError {
        vstd::pervasive::arbitrary()
    }
}

} // verus!
