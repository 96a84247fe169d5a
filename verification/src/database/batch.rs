//! The replies of one batch of writes of the single-node store, which commits all of
//! its writes together or none of them.

use vstd::prelude::*;

use crate::models::AppError;

verus! {

/// Whether the batch commits: only when every write in it succeeded.
pub fn should_commit(results: &Vec<Result<(), AppError>>) -> (b: bool)
    ensures
        b == forall|i: int| 0 <= i < results@.len() ==> (#[trigger] results@[i]) is Ok,
{
    let mut i: usize = 0;
    while i < results.len()
        invariant
            i <= results@.len(),
            forall|j: int| 0 <= j < i ==> (#[trigger] results@[j]) is Ok,
        decreases results@.len() - i,
    {
        if results[i].is_err() {
            return false;
        }
        i += 1;
    }
    true
}

/// The reply of a write taken down by another write of its batch.
pub const BATCH_ABORTED: &'static str = "Batch aborted";

/// The replies of a batch that was aborted: a write that failed gets its own error,
/// the others an internal error (they were taken down with it).
pub fn abort_replies(results: Vec<Result<(), AppError>>) -> (r: Vec<Result<(), AppError>>)
    ensures
        r@.len() == results@.len(),
        forall|i: int| 0 <= i < r@.len() ==> match results@[i] {
            Err(e) => #[trigger] r@[i] == Err::<(), AppError>(e),
            Ok(_) => r@[i] matches Err(AppError::InternalError(m)) && m@ == BATCH_ABORTED@,
        },
{
    let mut out: Vec<Result<(), AppError>> = Vec::new();
    let mut rest = results;
    let ghost all = rest@;
    let n = rest.len();
    // The results are moved out, not copied: popped once into reverse order, then
    // popped again back into their own order.
    let mut taken: Vec<Result<(), AppError>> = Vec::new();
    while rest.len() > 0
        invariant
            rest@.len() + taken@.len() == n,
            all.len() == n,
            rest@ == all.subrange(0, rest@.len() as int),
            taken@.len() == n - rest@.len(),
            forall|j: int| 0 <= j < taken@.len() ==> #[trigger] taken@[j] == all[n - 1 - j],
        decreases rest@.len(),
    {
        let last = rest.pop().unwrap();
        taken.push(last);
    }
    while taken.len() > 0
        invariant
            taken@.len() + out@.len() == n,
            all.len() == n,
            forall|j: int| 0 <= j < taken@.len() ==> #[trigger] taken@[j] == all[n - 1 - j],
            forall|j: int| 0 <= j < out@.len() ==> match all[j] {
                Err(e) => #[trigger] out@[j] == Err::<(), AppError>(e),
                Ok(_) => out@[j] matches Err(AppError::InternalError(m)) && m@ == BATCH_ABORTED@,
            },
        decreases taken@.len(),
    {
        let res = taken.pop().unwrap();
        let reply = match res {
            Err(e) => Err(e),
            Ok(()) => Err(AppError::InternalError(BATCH_ABORTED.to_string())),
        };
        out.push(reply);
    }
    out
}

/// The replies of a batch that could not be started or committed: every write gets
/// the same internal error.
pub fn failure_replies(n: usize, message: &String) -> (r: Vec<Result<(), AppError>>)
    ensures
        r@.len() == n,
        forall|i: int| 0 <= i < n ==> #[trigger] r@[i] == Err::<(), AppError>(AppError::InternalError(*message)),
{
    let mut out: Vec<Result<(), AppError>> = Vec::new();
    let mut i: usize = 0;
    while i < n
        invariant
            i <= n,
            out@.len() == i,
            forall|j: int| 0 <= j < i ==> #[trigger] out@[j] == Err::<(), AppError>(AppError::InternalError(*message)),
        decreases n - i,
    {
        out.push(Err(AppError::InternalError(message.clone())));
        i += 1;
    }
    out
}

} // verus!
