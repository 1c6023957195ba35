use run_uproc::error::PipelineError;
use run_uproc::runner::{run_in_any_order, run_in_order, Action, Runner};

#[test]
fn empty_batch_succeeds_at_once() {
    let mut r = Runner::new(0, 8, 0);
    assert!(matches!(r.next_action(), Action::Succeeded));
    let (attempted, result) = run_in_order(&Vec::new(), 8, 0);
    assert_eq!(attempted, 0);
    assert!(result.is_ok());
}

#[test]
fn pool_never_exceeds_its_width() {
    let mut r = Runner::new(5, 2, 0);
    assert!(matches!(r.next_action(), Action::Dispatch(0)));
    assert!(matches!(r.next_action(), Action::Dispatch(1)));
    assert!(matches!(r.next_action(), Action::Wait));
    r.job_finished(true);
    assert!(matches!(r.next_action(), Action::Dispatch(2)));
    assert!(matches!(r.next_action(), Action::Wait));
    assert_eq!(r.attempted(), 3);
    assert_eq!(r.failed(), 0);
}

#[test]
fn zero_threshold_halts_on_first_failure() {
    let mut r = Runner::new(5, 2, 0);
    assert!(matches!(r.next_action(), Action::Dispatch(0)));
    assert!(matches!(r.next_action(), Action::Dispatch(1)));
    r.job_finished(false);
    assert!(matches!(r.next_action(), Action::Wait));
    r.job_finished(true);
    assert!(matches!(r.next_action(), Action::Halted(1)));
    assert_eq!(r.attempted(), 2);
}

#[test]
fn failures_within_threshold_are_tolerated() {
    let mut r = Runner::new(2, 1, 1);
    assert!(matches!(r.next_action(), Action::Dispatch(0)));
    r.job_finished(false);
    assert!(matches!(r.next_action(), Action::Dispatch(1)));
    r.job_finished(true);
    assert!(matches!(r.next_action(), Action::Succeeded));
    assert_eq!(r.failed(), 1);
}

#[test]
fn report_without_a_job_in_flight_is_ignored() {
    let mut r = Runner::new(1, 1, 0);
    r.job_finished(false);
    assert_eq!(r.failed(), 0);
    assert!(matches!(r.next_action(), Action::Dispatch(0)));
}

#[test]
fn zero_width_sets_no_bound() {
    let mut r = Runner::new(3, 0, 0);
    assert!(matches!(r.next_action(), Action::Dispatch(0)));
    assert!(matches!(r.next_action(), Action::Dispatch(1)));
    assert!(matches!(r.next_action(), Action::Dispatch(2)));
    assert!(matches!(r.next_action(), Action::Wait));
}

#[test]
fn all_jobs_attempted_when_failures_stay_within_threshold() {
    let outcomes = vec![true, false, true, false, true];
    let (attempted, result) = run_in_order(&outcomes, 2, 2);
    assert_eq!(attempted, 5);
    assert!(result.is_ok());
}

#[test]
fn run_halts_once_threshold_is_passed() {
    let outcomes = vec![true, false, true, false, true, true, true, true];
    let (attempted, result) = run_in_order(&outcomes, 2, 1);
    assert_eq!(attempted, 5);
    assert!(matches!(result, Err(PipelineError::RunHalted(2))));
    let (attempted, result) = run_in_order(&outcomes, 1, 1);
    assert_eq!(attempted, 4);
    assert!(matches!(result, Err(PipelineError::RunHalted(2))));
}

#[test]
fn in_flight_failures_are_counted_after_the_halt() {
    let outcomes = vec![false, false, false, true];
    let (attempted, result) = run_in_order(&outcomes, 3, 0);
    assert_eq!(attempted, 3);
    assert!(matches!(result, Err(PipelineError::RunHalted(3))));
}

#[test]
fn four_successful_jobs_report_success() {
    let (attempted, result) = run_in_order(&vec![true, true, true, true], 8, 0);
    assert_eq!(attempted, 4);
    assert!(result.is_ok());
}

#[test]
fn completion_order_decides_how_many_jobs_start() {
    let outcomes = vec![false, true, true, true];
    let (attempted, result) = run_in_any_order(&outcomes, &vec![1], 2, 0);
    assert_eq!(attempted, 3);
    assert!(matches!(result, Err(PipelineError::RunHalted(1))));
    let (attempted, result) = run_in_any_order(&outcomes, &Vec::new(), 2, 0);
    assert_eq!(attempted, 2);
    assert!(matches!(result, Err(PipelineError::RunHalted(1))));
}

#[test]
fn any_order_succeeds_when_failures_stay_within_threshold() {
    let outcomes = vec![true, false, true, false, true, true];
    let picks = vec![2, 0, 7, 1, 1, 0];
    let (attempted, result) = run_in_any_order(&outcomes, &picks, 3, 2);
    assert_eq!(attempted, 6);
    assert!(result.is_ok());
    let (attempted, result) = run_in_any_order(&outcomes, &picks, 3, 1);
    assert!(attempted <= 6);
    assert!(matches!(result, Err(PipelineError::RunHalted(2))));
}
