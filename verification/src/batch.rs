//! Ordered batch execution: the worker limit and the order in which the
//! results of a batch are reported.
use vstd::prelude::*;

use crate::error::{is_invalid_input, PykepError, Result};
use crate::text::{append_decimal, decimal};

verus! {

/// Largest explicit worker count that a batch accepts.
pub const MAX_EXPLICIT_WORKERS: usize = 1024;

/// Index of the first failed item of a batch, if any item failed.
pub open spec fn first_failure<R>(results: Seq<Result<R>>) -> Option<int>
    decreases results.len(),
{
    if results.len() == 0 {
        None
    } else if results[0] is Err {
        Some(0)
    } else {
        match first_failure(results.drop_first()) {
            Some(index) => Some(index + 1),
            None => None,
        }
    }
}

/// The first failure follows a run of successes.
proof fn lemma_first_failure<R>(results: Seq<Result<R>>, successes: int)
    requires
        0 <= successes <= results.len(),
        forall|i: int| 0 <= i < successes ==> #[trigger] results[i] is Ok,
    ensures
        successes == results.len() ==> first_failure(results) is None,
        successes < results.len() && results[successes] is Err ==> first_failure(results) == Some(
            successes,
        ),
    decreases successes,
{
    if successes > 0 {
        let rest = results.drop_first();
        assert forall|i: int| 0 <= i < successes - 1 implies #[trigger] rest[i] is Ok by {
            assert(rest[i] == results[i + 1]);
        }
        lemma_first_failure(rest, successes - 1);
        if successes < results.len() {
            assert(rest[successes - 1] == results[successes]);
        }
    }
}

/// Checks the worker count of a batch: at most `MAX_EXPLICIT_WORKERS`.
pub fn check_workers(workers: usize) -> (result: Result<()>)
    ensures
        workers <= MAX_EXPLICIT_WORKERS ==> result is Ok,
        workers > MAX_EXPLICIT_WORKERS ==> result is Err && is_invalid_input(
            result->Err_0,
            "workers"@,
            "must not exceed "@ + decimal(MAX_EXPLICIT_WORKERS as nat),
        ),
{
    if workers > MAX_EXPLICIT_WORKERS {
        let mut reason = "must not exceed ".to_owned();
        append_decimal(&mut reason, MAX_EXPLICIT_WORKERS as u64);
        return Err(PykepError::InvalidInput { parameter: "workers", reason });
    }
    Ok(())
}

/// Collects the per-item results of a batch in input order: every value when
/// all items succeeded, otherwise the error of the first failed item.
pub fn collect_in_order<R>(results: Vec<Result<R>>) -> (collected: Result<Vec<R>>)
    ensures
        match first_failure(results@) {
            None => collected is Ok && collected->Ok_0@.len() == results@.len() && (forall|i: int|
                0 <= i < results@.len() ==> results@[i] == Ok::<R, PykepError>(
                    #[trigger] collected->Ok_0@[i],
                )),
            Some(index) => collected is Err && results@[index] == Err::<R, PykepError>(
                collected->Err_0,
            ),
        },
{
    let ghost items = results@;
    let mut values: Vec<R> = Vec::new();
    for item in it: results.into_iter()
        invariant
            it.seq() == items,
            values@.len() == it.index(),
            forall|i: int| 0 <= i < it.index() ==> items[i] == Ok::<R, PykepError>(#[trigger] values@[i]),
    {
        match item {
            Ok(value) => {
                values.push(value);
            },
            Err(error) => {
                proof {
                    assert forall|i: int| 0 <= i < it.index() implies #[trigger] items[i] is Ok by {
                        assert(items[i] == Ok::<R, PykepError>(values@[i]));
                    }
                    lemma_first_failure(items, it.index() as int);
                }
                return Err(error);
            },
        }
    }
    proof {
        assert forall|i: int| 0 <= i < items.len() implies #[trigger] items[i] is Ok by {
            assert(items[i] == Ok::<R, PykepError>(values@[i]));
        }
        lemma_first_failure(items, items.len() as int);
    }
    Ok(values)
}

/// Where the items of a batch are evaluated.
#[derive(Clone, Copy, Debug, PartialEq, Eq, Structural)]
pub enum Dispatch {
    /// One after the other on the calling thread.
    Serial,
    /// On the shared global worker pool.
    Global,
    /// On a dedicated pool with exactly this many worker threads.
    Pool(usize),
}

/// The dispatch of a batch of `items` items with `workers` requested workers:
/// one worker, or at most one item, runs serially; zero workers uses the shared
/// global pool; any larger count uses a dedicated pool of that size.
pub open spec fn dispatch_for(workers: nat, items: nat) -> Dispatch {
    if workers == 1 || items <= 1 {
        Dispatch::Serial
    } else if workers == 0 {
        Dispatch::Global
    } else {
        Dispatch::Pool(workers as usize)
    }
}

/// Decides how a batch of `items` items runs on `workers` requested workers.
///
/// # Errors
///
/// Returns an error when `workers` exceeds `MAX_EXPLICIT_WORKERS`, whatever the
/// number of items.
pub fn plan_dispatch(workers: usize, items: usize) -> (plan: Result<Dispatch>)
    ensures
        workers <= MAX_EXPLICIT_WORKERS ==> plan == Ok::<Dispatch, PykepError>(
            dispatch_for(workers as nat, items as nat),
        ),
        workers > MAX_EXPLICIT_WORKERS ==> plan is Err && is_invalid_input(
            plan->Err_0,
            "workers"@,
            "must not exceed "@ + decimal(MAX_EXPLICIT_WORKERS as nat),
        ),
{
    match check_workers(workers) {
        Err(error) => Err(error),
        Ok(()) => {
            if workers == 1 || items <= 1 {
                Ok(Dispatch::Serial)
            } else if workers == 0 {
                Ok(Dispatch::Global)
            } else {
                Ok(Dispatch::Pool(workers))
            }
        },
    }
}

} // verus!
