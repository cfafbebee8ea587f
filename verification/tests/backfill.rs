use exex_examples::backfill::{
    cancel_delivered, initial_backfill, process_committed_chain, BackfillJobs, RangeEnd,
};

#[test]
fn jobs_get_fresh_ids_up_to_the_limit() {
    let mut jobs = BackfillJobs::new(2);
    assert_eq!(jobs.start_backfill(), Ok(0));
    assert_eq!(jobs.start_backfill(), Ok(1));
    assert_eq!(
        jobs.start_backfill(),
        Err("concurrent backfills limit reached: NoPermits".to_string())
    );
    assert_eq!(jobs.running(), 2);
    jobs.finish(0);
    assert!(!jobs.contains(0));
    jobs.job_ended();
    assert_eq!(jobs.start_backfill(), Ok(2));
    assert!(jobs.contains(1));
    assert!(jobs.contains(2));
}

#[test]
fn cancel_once() {
    let mut jobs = BackfillJobs::new(10);
    let id = jobs.start_backfill().unwrap();
    assert_eq!(jobs.cancel_backfill(id), Ok(()));
    assert_eq!(jobs.cancel_backfill(id), Err("backfill job not found".to_string()));
    assert_eq!(jobs.cancel_backfill(99), Err("backfill job not found".to_string()));
    assert_eq!(cancel_delivered(true), Ok(()));
    assert_eq!(cancel_delivered(false), Err("failed to cancel backfill job".to_string()));
}

#[test]
fn command_line_range() {
    assert_eq!(initial_backfill(None, false), None);
    assert_eq!(initial_backfill(Some(100), false), Some((100, RangeEnd::Latest)));
    assert_eq!(initial_backfill(None, true), Some((1, RangeEnd::Given)));
    assert_eq!(initial_backfill(Some(5), true), Some((5, RangeEnd::Given)));
}

#[test]
fn committed_chain_counts() {
    assert_eq!(process_committed_chain(&[3, 0, 2]), (3, 5));
    assert_eq!(process_committed_chain(&[]), (0, 0));
}
