use flacser::progress::ProgressReporter;

#[test]
fn new_starts_with_total_and_zero_done() {
    let reporter = ProgressReporter::new(3);

    assert_eq!(reporter.total, 3);
    assert_eq!(reporter.done, 0);
}

#[test]
fn job_done_increments_completed_count() {
    let mut reporter = ProgressReporter::new(2);

    reporter.finish_job();
    reporter.finish_job();

    assert_eq!(reporter.done, 2);
}

#[test]
fn progress_lines_count_finished_jobs() {
    let mut reporter = ProgressReporter::new(2);

    assert_eq!(reporter.finish_job(), "[1/2] processed");
    assert_eq!(reporter.finish_job(), "[2/2] processed");
}

#[test]
fn progress_line_for_a_single_job() {
    let mut reporter = ProgressReporter::new(1);
    assert_eq!(reporter.finish_job(), "[1/1] processed");
    assert_eq!(reporter.total, 1);
}

#[test]
fn progress_line_writes_large_counts_in_decimal() {
    let mut reporter = ProgressReporter::new(1205);
    reporter.done = 99;
    assert_eq!(reporter.finish_job(), "[100/1205] processed");
}
