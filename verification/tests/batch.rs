use pykep_core::batch::{check_workers, collect_in_order, plan_dispatch, Dispatch, MAX_EXPLICIT_WORKERS};
use pykep_core::PykepError;

fn too_many_workers() -> PykepError {
    PykepError::InvalidInput {
        parameter: "workers",
        reason: "must not exceed 1024".to_owned(),
    }
}

#[test]
fn worker_limit_is_enforced() {
    assert_eq!(check_workers(0), Ok(()));
    assert_eq!(check_workers(MAX_EXPLICIT_WORKERS), Ok(()));
    assert_eq!(check_workers(MAX_EXPLICIT_WORKERS + 1), Err(too_many_workers()));
    assert_eq!(plan_dispatch(MAX_EXPLICIT_WORKERS + 1, 0), Err(too_many_workers()));
    assert_eq!(plan_dispatch(usize::MAX, 16), Err(too_many_workers()));
}

#[test]
fn dispatch_follows_the_worker_count() {
    assert_eq!(plan_dispatch(1, 64), Ok(Dispatch::Serial));
    assert_eq!(plan_dispatch(0, 1), Ok(Dispatch::Serial));
    assert_eq!(plan_dispatch(8, 0), Ok(Dispatch::Serial));
    assert_eq!(plan_dispatch(0, 64), Ok(Dispatch::Global));
    assert_eq!(plan_dispatch(2, 64), Ok(Dispatch::Pool(2)));
    assert_eq!(plan_dispatch(MAX_EXPLICIT_WORKERS, 2), Ok(Dispatch::Pool(1024)));
}

#[test]
fn results_are_collected_in_input_order() {
    let squares: Vec<pykep_core::Result<i32>> = (0..64).map(|value| Ok(value * value)).collect();
    assert_eq!(
        collect_in_order(squares).unwrap(),
        (0..64).map(|value| value * value).collect::<Vec<_>>()
    );
    assert_eq!(collect_in_order(Vec::<pykep_core::Result<u8>>::new()).unwrap(), Vec::<u8>::new());
}

#[test]
fn the_first_failure_in_input_order_is_reported() {
    let results: Vec<pykep_core::Result<i32>> = (0..16)
        .map(|value| {
            if value == 3 || value == 7 {
                Err(PykepError::InvalidInput {
                    parameter: "item",
                    reason: value.to_string(),
                })
            } else {
                Ok(value)
            }
        })
        .collect();
    assert_eq!(
        collect_in_order(results),
        Err(PykepError::InvalidInput {
            parameter: "item",
            reason: "3".into()
        })
    );
}
