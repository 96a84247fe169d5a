//! The decisions of a write transaction that is retried until it settles.
//!
//! A write runs as a series of attempts. Before touching data, an attempt declares the
//! locks it needs; a lock not held yet throws the attempt away, and the next attempt
//! takes it first. An attempt that read a stale view, lost a race, or was refused a
//! one-phase commit is retried too; other failures end the write. The waiting, the
//! store calls and the attempt itself are run by the caller, which hands each outcome
//! to [`WriteLoop`] and is told what to do next.

use vstd::prelude::*;

use super::keys::{lock, spec_lock, LockScope};
use super::retry::{
    is_one_pc_failure, is_retryable, spec_backoff_base, spec_is_retryable, spec_jitter_span, NeedsRestart, Retry,
    StoreError, MAX_ATTEMPTS, unsettled_message,
};
use crate::keymap::{strictly_ascending, KeyMap};
use crate::models::AppError;

verus! {

/// The keys as a set of byte strings.
pub open spec fn key_set(keys: Seq<Vec<u8>>) -> Set<Seq<u8>> {
    keys.map_values(|k: Vec<u8>| k@).to_set()
}

/// A failure reported by the store: what kind it is, for the retry decision, and the
/// store's own description of it.
pub struct StoreFailure {
    pub kind: StoreError,
    pub message: String,
}

impl StoreFailure {
    /// The failure as the library reports it: a storage error with the store's text.
    pub fn into_app_error(self) -> (e: AppError)
        ensures
            e == AppError::StorageError(self.message),
    {
        AppError::StorageError(self.message)
    }
}

/// The locks one attempt holds, those it found it needs but does not hold, and
/// whether it read a stale view.
pub struct LockLedger {
    held: KeyMap<()>,
    missing: KeyMap<()>,
    stale: bool,
}

impl LockLedger {
    pub closed spec fn held(self) -> Set<Seq<u8>> {
        self.held@.dom()
    }

    pub closed spec fn missing(self) -> Set<Seq<u8>> {
        self.missing@.dom()
    }

    pub closed spec fn is_stale(self) -> bool {
        self.stale
    }

    /// The ledger of an attempt that holds the locks `held`.
    pub fn new(held: &Vec<Vec<u8>>) -> (l: LockLedger)
        ensures
            l.held() == key_set(held@),
            l.missing() == Set::<Seq<u8>>::empty(),
            !l.is_stale(),
    {
        let mut h: KeyMap<()> = KeyMap::new();
        let ghost hv = held@.map_values(|k: Vec<u8>| k@);
        let mut i: usize = 0;
        while i < held.len()
            invariant
                i <= held@.len(),
                hv == held@.map_values(|k: Vec<u8>| k@),
                h@.dom() == hv.subrange(0, i as int).to_set(),
            decreases held@.len() - i,
        {
            h.insert(crate::tikv::staging::clone_bytes(&held[i]), ());
            proof {
                let prev = hv.subrange(0, i as int);
                assert(hv.subrange(0, i + 1) =~= prev.push(held@[i as int]@));
                prev.lemma_push_to_set_commute(held@[i as int]@);
                assert(h@.dom() =~= hv.subrange(0, i + 1).to_set());
            }
            i += 1;
        }
        assert(hv.subrange(0, held@.len() as int) =~= hv);
        let missing: KeyMap<()> = KeyMap::new();
        assert(missing@.dom() =~= Set::<Seq<u8>>::empty());
        LockLedger { held: h, missing, stale: false }
    }

    /// Declares that the attempt needs the lock `(scope, id)`, before it touches the
    /// data the lock guards. Not holding it throws the attempt away: it is noted, and
    /// the next attempt takes it first.
    pub fn require_lock(&mut self, scope: LockScope, id: &[u8]) -> (r: Result<(), NeedsRestart>)
        ensures
            r is Ok <==> old(self).held().contains(spec_lock(scope, id@)),
            final(self).missing() == if r is Ok {
                old(self).missing()
            } else {
                old(self).missing().insert(spec_lock(scope, id@))
            },
            final(self).held() == old(self).held(),
            final(self).is_stale() == old(self).is_stale(),
    {
        let key = lock(scope, id);
        if self.held.get(key.as_slice()).is_some() {
            return Ok(());
        }
        let ghost k = key@;
        self.missing.insert(key, ());
        assert(self.missing@.dom() =~= old(self).missing().insert(k));
        Err(NeedsRestart)
    }

    /// Declares several locks at once, so that one attempt collects all that are
    /// missing rather than one.
    pub fn require_locks(&mut self, scopes: &Vec<(LockScope, Vec<u8>)>) -> (r: Result<(), NeedsRestart>)
        ensures
            r is Ok <==> forall|i: int| 0 <= i < scopes@.len() ==> old(self).held().contains(
                #[trigger] spec_lock(scopes@[i].0, scopes@[i].1@),
            ),
            final(self).missing() == old(self).missing().union(
                Set::new(|k: Seq<u8>| !old(self).held().contains(k) && exists|i: int|
                    0 <= i < scopes@.len() && k == #[trigger] spec_lock(scopes@[i].0, scopes@[i].1@)),
            ),
            final(self).held() == old(self).held(),
            final(self).is_stale() == old(self).is_stale(),
    {
        let ghost held = self.held();
        let ghost start = self.missing();
        let mut missing_any = false;
        let mut i: usize = 0;
        while i < scopes.len()
            invariant
                i <= scopes@.len(),
                self.held() == held,
                self.is_stale() == old(self).is_stale(),
                held == old(self).held(),
                start == old(self).missing(),
                self.missing() == start.union(
                    Set::new(|k: Seq<u8>| !held.contains(k) && exists|j: int|
                        0 <= j < i && k == #[trigger] spec_lock(scopes@[j].0, scopes@[j].1@)),
                ),
                missing_any <==> exists|j: int| 0 <= j < i && !held.contains(#[trigger] spec_lock(scopes@[j].0, scopes@[j].1@)),
            decreases scopes@.len() - i,
        {
            let ghost before = self.missing();
            let r = self.require_lock(scopes[i].0, scopes[i].1.as_slice());
            if r.is_err() {
                missing_any = true;
            }
            proof {
                let k_i = spec_lock(scopes@[i as int].0, scopes@[i as int].1@);
                let next = start.union(
                    Set::new(|k: Seq<u8>| !held.contains(k) && exists|j: int|
                        0 <= j < i + 1 && k == #[trigger] spec_lock(scopes@[j].0, scopes@[j].1@)),
                );
                assert forall|k: Seq<u8>| #[trigger] next.contains(k) == self.missing().contains(k) by {
                    if k == k_i {
                    } else if next.contains(k) && !start.contains(k) {
                        let j = choose|j: int| 0 <= j < i + 1 && k == #[trigger] spec_lock(scopes@[j].0, scopes@[j].1@);
                        assert(j < i);
                    }
                }
                assert(self.missing() =~= next);
            }
            i += 1;
        }
        if missing_any {
            return Err(NeedsRestart);
        }
        Ok(())
    }

    /// Notes that the attempt read a stale view of the shard tree; only a newer
    /// snapshot, that is a new attempt, can make progress.
    pub fn mark_stale(&mut self) -> (r: NeedsRestart)
        ensures
            final(self).is_stale(),
            final(self).held() == old(self).held(),
            final(self).missing() == old(self).missing(),
    {
        self.stale = true;
        NeedsRestart
    }

    /// Whether the attempt must be thrown away and retried.
    pub fn needs_restart(&self) -> (b: bool)
        ensures
            b <==> (self.missing() != Set::<Seq<u8>>::empty() || self.is_stale()),
    {
        !self.missing.is_empty() || self.stale
    }

    /// The locks found missing, in ascending key order.
    pub fn missing_locks(&self) -> (v: Vec<Vec<u8>>)
        ensures
            key_set(v@) == self.missing(),
            strictly_ascending(v@.map_values(|k: Vec<u8>| k@)),
    {
        let v = self.missing.key_list();
        assert(key_set(v@) =~= self.missing());
        v
    }
}

/// Whether the attempt's staged changes are sent: only for an attempt that is kept.
/// One thrown away sends nothing, so it leaves neither locks nor versions behind.
pub fn should_flush(ledger: &LockLedger, result_ok: bool) -> (b: bool)
    ensures
        b <==> (!(ledger.missing() != Set::<Seq<u8>>::empty() || ledger.is_stale()) && result_ok),
{
    !ledger.needs_restart() && result_ok
}

/// What an attempt starts with: the locks to take before it begins (in ascending key
/// order, which is the lock hierarchy's order) and whether to try a one-phase commit.
pub struct AttemptPlan {
    pub locks: Vec<Vec<u8>>,
    pub one_pc: bool,
}

/// What the caller does next.
#[derive(Debug)]
pub enum Step {
    /// Start the next attempt at once.
    Again,
    /// Wait this many milliseconds, then start the next attempt.
    Wait(u64),
    /// The write fails with this error.
    Fail(AppError),
    /// Commit the attempt's transaction.
    Commit,
    /// The write is done.
    Done,
}

/// The step waits the back-off for `conflicts` conflicts counted before it: the base
/// wait for that count, spread by at most its jitter span either way.
pub open spec fn waits_backoff(s: Step, conflicts: u32) -> bool {
    s matches Step::Wait(ms) && spec_backoff_base(conflicts) - spec_jitter_span(spec_backoff_base(conflicts)) <= ms
        <= spec_backoff_base(conflicts) + spec_jitter_span(spec_backoff_base(conflicts))
}

/// The locks taken by the attempt after one that found `missing` locks it did not hold.
pub open spec fn next_locks(locks: Set<Seq<u8>>, missing: Set<Seq<u8>>) -> Set<Seq<u8>> {
    locks.union(missing)
}

/// The state carried from one attempt of a write to the next.
pub struct WriteLoop {
    locks: KeyMap<()>,
    retry: Retry,
    one_pc: bool,
    attempts: usize,
    deciding: bool,
}

impl WriteLoop {
    pub closed spec fn locks(self) -> Set<Seq<u8>> {
        self.locks@.dom()
    }

    pub closed spec fn conflicts(self) -> u32 {
        self.retry.conflicts
    }

    pub closed spec fn last_error(self) -> Option<AppError> {
        self.retry.last_error
    }

    pub closed spec fn one_pc(self) -> bool {
        self.one_pc
    }

    pub closed spec fn attempts(self) -> nat {
        self.attempts as nat
    }

    /// An attempt has started and its outcome is not decided yet.
    pub closed spec fn deciding(self) -> bool {
        self.deciding
    }

    /// Each attempt waits at most once, so conflicts never outrun attempts.
    pub closed spec fn wf(self) -> bool {
        &&& self.attempts <= MAX_ATTEMPTS
        &&& self.retry.conflicts + (if self.deciding {
            1int
        } else {
            0int
        }) <= self.attempts
    }

    /// A write before its first attempt: no locks, nothing failed, one-phase commit
    /// tried first.
    pub fn new() -> (w: WriteLoop)
        ensures
            w.wf(),
            w.locks() == Set::<Seq<u8>>::empty(),
            w.conflicts() == 0,
            w.last_error() is None,
            w.one_pc(),
            w.attempts() == 0,
            !w.deciding(),
    {
        let locks: KeyMap<()> = KeyMap::new();
        assert(locks@.dom() =~= Set::<Seq<u8>>::empty());
        WriteLoop { locks, retry: Retry::new(), one_pc: true, attempts: 0, deciding: false }
    }

    /// Starts the next attempt, or returns `None` once all attempts are used up.
    pub fn begin(&mut self) -> (plan: Option<AttemptPlan>)
        requires
            old(self).wf(),
        ensures
            final(self).wf(),
            plan is None <==> old(self).attempts() == MAX_ATTEMPTS,
            plan is None ==> *final(self) == *old(self),
            plan matches Some(p) ==> {
                &&& key_set(p.locks@) == old(self).locks()
                &&& strictly_ascending(p.locks@.map_values(|k: Vec<u8>| k@))
                &&& p.one_pc == old(self).one_pc()
                &&& final(self).attempts() == old(self).attempts() + 1
                &&& final(self).deciding()
                &&& final(self).locks() == old(self).locks()
                &&& final(self).conflicts() == old(self).conflicts()
                &&& final(self).last_error() == old(self).last_error()
                &&& final(self).one_pc() == old(self).one_pc()
            },
    {
        if self.attempts >= MAX_ATTEMPTS {
            return None;
        }
        let locks = self.locks.key_list();
        assert(key_set(locks@) =~= self.locks());
        self.attempts = self.attempts + 1;
        self.deciding = true;
        Some(AttemptPlan { locks, one_pc: self.one_pc })
    }

    /// What a write that never settled reports: its last failure, or, when there was
    /// none (lock declarations that never converged), a conflict naming the attempt
    /// limit and the number of locks held at the end.
    pub fn give_up(self) -> (e: AppError)
        ensures
            match self.last_error() {
                Some(last) => e == last,
                None => e matches AppError::Conflict(m) && m@ == unsettled_message(self.locks().len()),
            },
    {
        let held = self.locks.len();
        self.retry.into_final_error(held)
    }

    /// A conflict ends the attempt: remember it and wait before the next one.
    fn back_off(&mut self, reason: AppError) -> (s: Step)
        requires
            old(self).wf(),
            old(self).deciding(),
        ensures
            final(self).wf(),
            !final(self).deciding(),
            final(self).last_error() == Some(reason),
            final(self).conflicts() == old(self).conflicts() + 1,
            final(self).locks() == old(self).locks(),
            final(self).one_pc() == old(self).one_pc(),
            final(self).attempts() == old(self).attempts(),
            waits_backoff(s, old(self).conflicts()),
    {
        let wait_ms = self.retry.back_off(reason);
        self.deciding = false;
        Step::Wait(wait_ms)
    }

    /// The outcome of taking the attempt's locks, when it failed: a retryable failure
    /// is waited out, any other ends the write.
    pub fn locks_failed(&mut self, failure: StoreFailure) -> (s: Step)
        requires
            old(self).wf(),
            old(self).deciding(),
        ensures
            final(self).wf(),
            spec_is_retryable(failure.kind) ==> {
                &&& waits_backoff(s, old(self).conflicts())
                &&& final(self).last_error() == Some(AppError::StorageError(failure.message))
                &&& final(self).conflicts() == old(self).conflicts() + 1
                &&& !final(self).deciding()
            },
            !spec_is_retryable(failure.kind) ==> s == Step::Fail(AppError::StorageError(failure.message))
                && *final(self) == *old(self),
            final(self).locks() == old(self).locks(),
            final(self).one_pc() == old(self).one_pc(),
            final(self).attempts() == old(self).attempts(),
    {
        if is_retryable(&failure.kind) {
            self.back_off(failure.into_app_error())
        } else {
            Step::Fail(failure.into_app_error())
        }
    }

    /// The outcome of running an attempt: its lock ledger, whether its own work failed
    /// (and with what), why sending its changes failed if it did, and whether the
    /// store reported a conflict along the way.
    ///
    /// The ledger is looked at first, so an attempt that must restart is thrown away
    /// even when its work reported success.
    pub fn after_attempt(
        &mut self,
        ledger: LockLedger,
        result: Result<(), AppError>,
        flush_failure: Option<StoreFailure>,
        conflicted: bool,
    ) -> (s: Step)
        requires
            old(self).wf(),
            old(self).deciding(),
        ensures
            final(self).wf(),
            final(self).attempts() == old(self).attempts(),
            ledger.missing() != Set::<Seq<u8>>::empty() || ledger.is_stale() ==> {
                &&& final(self).locks() == next_locks(old(self).locks(), ledger.missing())
                &&& final(self).one_pc() == old(self).one_pc()
                &&& !final(self).deciding()
                &&& ledger.is_stale() ==> waits_backoff(s, old(self).conflicts()) && final(self).conflicts() == old(self).conflicts() + 1
                    && final(self).last_error() is Some && final(self).last_error()->0 is Conflict
                &&& !ledger.is_stale() ==> s is Again && final(self).conflicts() == old(self).conflicts()
                    && final(self).last_error() == old(self).last_error()
            },
            !(ledger.missing() != Set::<Seq<u8>>::empty() || ledger.is_stale()) ==> {
                &&& final(self).locks() == old(self).locks()
                &&& final(self).one_pc() == old(self).one_pc()
                &&& match flush_failure {
                    Some(f) => if spec_is_retryable(f.kind) {
                        waits_backoff(s, old(self).conflicts()) && final(self).last_error() == Some(AppError::StorageError(f.message))
                            && final(self).conflicts() == old(self).conflicts() + 1
                    } else {
                        s == Step::Fail(AppError::StorageError(f.message)) && *final(self) == *old(self)
                    },
                    None => match result {
                        Ok(_) => s is Commit && *final(self) == *old(self),
                        Err(e) => if conflicted {
                            waits_backoff(s, old(self).conflicts()) && final(self).last_error() == Some(e)
                                && final(self).conflicts() == old(self).conflicts() + 1
                        } else {
                            s == Step::Fail(e) && *final(self) == *old(self)
                        },
                    },
                }
            },
    {
        if ledger.needs_restart() {
            let missing = ledger.missing_locks();
            let ghost before = self.locks();
            let mut i: usize = 0;
            while i < missing.len()
                invariant
                    i <= missing@.len(),
                    self.wf(),
                    self.deciding(),
                    self.retry == old(self).retry,
                    self.one_pc == old(self).one_pc,
                    self.attempts == old(self).attempts,
                    self.locks() == before.union(missing@.subrange(0, i as int).map_values(|k: Vec<u8>| k@).to_set()),
                decreases missing@.len() - i,
            {
                self.locks.insert(crate::tikv::staging::clone_bytes(&missing[i]), ());
                proof {
                    let prev = missing@.subrange(0, i as int).map_values(|k: Vec<u8>| k@);
                    let next = missing@.subrange(0, i + 1).map_values(|k: Vec<u8>| k@);
                    assert(next =~= prev.push(missing@[i as int]@));
                    assert(next.to_set() =~= prev.to_set().insert(missing@[i as int]@)) by {
                        prev.lemma_push_to_set_commute(missing@[i as int]@);
                    }
                    assert(self.locks() =~= before.union(next.to_set()));
                }
                i += 1;
            }
            assert(missing@.subrange(0, missing@.len() as int) =~= missing@);
            assert(self.locks() =~= next_locks(before, ledger.missing()));
            if ledger.is_stale_flag() {
                return self.back_off(
                    AppError::Conflict("read a stale view of the shard tree; retrying with a newer snapshot".to_string()),
                );
            }
            self.deciding = false;
            return Step::Again;
        }
        if let Some(failure) = flush_failure {
            return self.locks_failed_after_flush(failure);
        }
        match result {
            Ok(()) => Step::Commit,
            Err(e) => {
                if conflicted {
                    self.back_off(e)
                } else {
                    Step::Fail(e)
                }
            },
        }
    }

    fn locks_failed_after_flush(&mut self, failure: StoreFailure) -> (s: Step)
        requires
            old(self).wf(),
            old(self).deciding(),
        ensures
            final(self).wf(),
            spec_is_retryable(failure.kind) ==> waits_backoff(s, old(self).conflicts()) && final(self).last_error() == Some(
                AppError::StorageError(failure.message),
            ) && final(self).conflicts() == old(self).conflicts() + 1 && final(self).locks() == old(self).locks()
                && final(self).one_pc() == old(self).one_pc() && final(self).attempts() == old(self).attempts(),
            !spec_is_retryable(failure.kind) ==> s == Step::Fail(AppError::StorageError(failure.message))
                && *final(self) == *old(self),
    {
        self.locks_failed(failure)
    }

    /// The outcome of committing: done, or a failure. A declined one-phase commit is
    /// retried at once with two phases (it is no conflict); other retryable failures
    /// are waited out; the rest end the write.
    pub fn after_commit(&mut self, failure: Option<StoreFailure>) -> (s: Step)
        requires
            old(self).wf(),
            old(self).deciding(),
        ensures
            final(self).wf(),
            final(self).locks() == old(self).locks(),
            final(self).attempts() == old(self).attempts(),
            match failure {
                None => s is Done && *final(self) == *old(self),
                Some(f) => if f.kind is OnePcFailure {
                    &&& s is Again
                    &&& !final(self).one_pc()
                    &&& final(self).last_error() == Some(AppError::StorageError(f.message))
                    &&& final(self).conflicts() == old(self).conflicts()
                    &&& !final(self).deciding()
                } else if spec_is_retryable(f.kind) {
                    &&& waits_backoff(s, old(self).conflicts())
                    &&& final(self).one_pc() == old(self).one_pc()
                    &&& final(self).last_error() == Some(AppError::StorageError(f.message))
                    &&& final(self).conflicts() == old(self).conflicts() + 1
                } else {
                    s == Step::Fail(AppError::StorageError(f.message)) && *final(self) == *old(self)
                },
            },
    {
        match failure {
            None => Step::Done,
            Some(f) => {
                if is_one_pc_failure(&f.kind) {
                    self.one_pc = false;
                    self.retry.note(f.into_app_error());
                    self.deciding = false;
                    Step::Again
                } else {
                    self.locks_failed(f)
                }
            },
        }
    }
}

/// What one attempt's own work gave: its lock ledger, its result, and the
/// transaction it ran in (still to be sent and committed).
pub struct AttemptRun<T, X> {
    pub ledger: LockLedger,
    pub result: Result<T, AppError>,
    pub txn: X,
}

/// Sending an attempt's staged changes: why it failed, if it did, and whether the
/// store reported a conflict during the attempt.
pub struct FlushReport {
    pub failure: Option<StoreFailure>,
    pub conflicted: bool,
}

/// How a write ended: its result, the number of attempts it started, and whether it
/// ran out of attempts.
pub struct WriteOutcome<T> {
    pub result: Result<T, AppError>,
    pub attempts: usize,
    pub exhausted: bool,
}

/// Runs a write attempt by attempt, each decided by a [`WriteLoop`], with the work
/// supplied by the caller:
/// - `take_locks` takes an attempt's locks (only when it has any) and says why it
///   failed, if it did;
/// - `attempt` runs the write's work for an attempt, given the attempt's plan and its
///   number (from 0);
/// - `flush` sends the attempt's changes when told to (only for an attempt that is
///   kept) and reports how that went;
/// - `commit` commits the attempt's transaction and says why it failed, if it did;
/// - `sleep` waits the given milliseconds before the next attempt.
///
/// At most [`MAX_ATTEMPTS`] attempts run. A write that succeeds returns the value its
/// last attempt produced; one that runs out of attempts fails with what
/// [`WriteLoop::give_up`] reports: the last failure recorded, else a conflict.
pub fn run_write<T, X, L, F, S, C, W>(take_locks: L, attempt: F, flush: S, commit: C, sleep: W) -> (out: WriteOutcome<T>)
    where
        L: Fn(&AttemptPlan) -> Option<StoreFailure>,
        F: Fn(&AttemptPlan, usize) -> AttemptRun<T, X>,
        S: Fn(&X, bool) -> FlushReport,
        C: Fn(X) -> Option<StoreFailure>,
        W: Fn(u64),
    requires
        forall|p: AttemptPlan| #[trigger] take_locks.requires((&p,)),
        forall|p: AttemptPlan, n: usize| #[trigger] attempt.requires((&p, n)),
        forall|x: X, send: bool| #[trigger] flush.requires((&x, send)),
        forall|x: X| #[trigger] commit.requires((x,)),
        forall|ms: u64| #[trigger] sleep.requires((ms,)),
    ensures
        1 <= out.attempts <= MAX_ATTEMPTS,
        out.result matches Ok(v) ==> !out.exhausted && exists|p: AttemptPlan, a: AttemptRun<T, X>|
            #[trigger] attempt.ensures((&p, (out.attempts - 1) as usize), a) && a.result == Ok::<T, AppError>(v),
        out.exhausted ==> out.attempts == MAX_ATTEMPTS && out.result is Err,
{
    let mut w = WriteLoop::new();
    let mut n: usize = 0;
    loop
        invariant
            w.wf(),
            n == w.attempts(),
            forall|p: AttemptPlan| #[trigger] take_locks.requires((&p,)),
            forall|p: AttemptPlan, i: usize| #[trigger] attempt.requires((&p, i)),
            forall|x: X, send: bool| #[trigger] flush.requires((&x, send)),
            forall|x: X| #[trigger] commit.requires((x,)),
            forall|ms: u64| #[trigger] sleep.requires((ms,)),
        decreases MAX_ATTEMPTS - n,
    {
        let plan = match w.begin() {
            None => {
                proof {
                    lemma_attempts_within_limit(w);
                }
                let e = w.give_up();
                return WriteOutcome { result: Err(e), attempts: n, exhausted: true };
            },
            Some(plan) => plan,
        };
        n = n + 1;
        if plan.locks.len() > 0 {
            if let Some(failure) = take_locks(&plan) {
                match w.locks_failed(failure) {
                    Step::Wait(ms) => {
                        sleep(ms);
                        continue;
                    },
                    Step::Fail(e) => {
                        return WriteOutcome { result: Err(e), attempts: n, exhausted: false };
                    },
                    _ => {
                        continue;
                    },
                }
            }
        }
        let run = attempt(&plan, n - 1);
        let ghost ran = run;
        let AttemptRun { ledger, result, txn } = run;
        let send = should_flush(&ledger, result.is_ok());
        let report = flush(&txn, send);
        let failure = if send {
            report.failure
        } else {
            None
        };
        let (value, unit_result) = match result {
            Ok(v) => (Some(v), Ok(())),
            Err(e) => (None, Err(e)),
        };
        match w.after_attempt(ledger, unit_result, failure, report.conflicted) {
            Step::Commit => {},
            Step::Wait(ms) => {
                sleep(ms);
                continue;
            },
            Step::Fail(e) => {
                return WriteOutcome { result: Err(e), attempts: n, exhausted: false };
            },
            _ => {
                continue;
            },
        }
        // Only an attempt whose own work succeeded is committed.
        assert(value is Some);
        let v = value.unwrap();
        match w.after_commit(commit(txn)) {
            Step::Done => {
                assert(attempt.ensures((&plan, (n - 1) as usize), ran));
                return WriteOutcome { result: Ok(v), attempts: n, exhausted: false };
            },
            Step::Wait(ms) => {
                sleep(ms);
            },
            Step::Fail(e) => {
                return WriteOutcome { result: Err(e), attempts: n, exhausted: false };
            },
            _ => {},
        }
    }
}

impl LockLedger {
    fn is_stale_flag(&self) -> (b: bool)
        ensures
            b == self.is_stale(),
    {
        self.stale
    }
}

/// A lock found missing is held by the next attempt: the locks an attempt starts with
/// are those of the attempt before and those it found missing.
pub proof fn lemma_missing_lock_held_next(locks: Set<Seq<u8>>, missing: Set<Seq<u8>>, k: Seq<u8>)
    requires
        missing.contains(k),
    ensures
        next_locks(locks, missing).contains(k),
{
}

/// Locks are never given up between attempts: a lock held once is held by every later
/// attempt.
pub proof fn lemma_locks_only_grow(locks: Set<Seq<u8>>, missing: Set<Seq<u8>>)
    ensures
        locks.subset_of(next_locks(locks, missing)),
{
}

/// No write runs more attempts than the limit: a write loop in any state it can reach
/// has started at most [`MAX_ATTEMPTS`] attempts, and (by [`WriteLoop::begin`]) it
/// starts no attempt once that many have started.
pub proof fn lemma_attempts_within_limit(w: WriteLoop)
    requires
        w.wf(),
    ensures
        w.attempts() <= MAX_ATTEMPTS,
{
}

} // verus!
