use flacser::convert::{ExecutionReport, JobResult};
use flacser::path::FsPath;
use flacser::summary::{Summary, exit_status};

fn summary_test_path(text: &str) -> FsPath {
    FsPath::parse(&text.as_bytes().to_vec())
}

#[test]
fn aggregates_counts_and_failure_details() {
    let results = vec![
        JobResult::Converted,
        JobResult::Skipped,
        JobResult::Failed {
            input: summary_test_path("broken.flac"),
            error: "ffmpeg failed".to_string(),
        },
    ];

    let report = ExecutionReport {
        results,
        workers: 2,
        interrupted: false,
    };

    let summary = Summary::from_report(&report);
    assert_eq!(summary.total, 3);
    assert_eq!(summary.converted, 1);
    assert_eq!(summary.skipped, 1);
    assert_eq!(summary.failed, 1);
    assert_eq!(summary.interrupted, 0);
    assert_eq!(summary.workers, 2);
    assert_eq!(
        summary.failure_details,
        vec![(summary_test_path("broken.flac"), "ffmpeg failed".to_string())]
    );
}

#[test]
fn aggregates_interrupted_jobs() {
    let report = ExecutionReport {
        results: vec![JobResult::Interrupted {
            input: summary_test_path("later.flac"),
        }],
        workers: 1,
        interrupted: true,
    };

    let summary = Summary::from_report(&report);

    assert_eq!(summary.total, 1);
    assert_eq!(summary.converted, 0);
    assert_eq!(summary.skipped, 0);
    assert_eq!(summary.failed, 0);
    assert_eq!(summary.interrupted, 1);
    assert_eq!(summary.interrupted_details, vec![summary_test_path("later.flac")]);
}

#[test]
fn summary_line_for_one_conversion() {
    let report = ExecutionReport { results: vec![JobResult::Converted], workers: 1, interrupted: false };
    let summary = Summary::from_report(&report);
    assert_eq!(
        summary.summary_line(),
        "Summary: total=1, converted=1, skipped=0, failed=0, workers=1"
    );
    assert_eq!(exit_status(&summary, &report), 0);
}

#[test]
fn summary_line_for_one_skip() {
    let report = ExecutionReport { results: vec![JobResult::Skipped], workers: 1, interrupted: false };
    let summary = Summary::from_report(&report);
    assert_eq!(
        summary.summary_line(),
        "Summary: total=1, converted=0, skipped=1, failed=0, workers=1"
    );
}

#[test]
fn summary_line_for_no_jobs() {
    let report = ExecutionReport { results: Vec::new(), workers: 0, interrupted: false };
    let summary = Summary::from_report(&report);
    assert_eq!(
        summary.summary_line(),
        "Summary: total=0, converted=0, skipped=0, failed=0, workers=0"
    );
    assert_eq!(exit_status(&summary, &report), 0);
}

#[test]
fn interrupted_summary_line_shows_the_interrupted_count() {
    let report = ExecutionReport {
        results: vec![
            JobResult::Converted,
            JobResult::Interrupted { input: summary_test_path("b.flac") },
        ],
        workers: 2,
        interrupted: true,
    };
    let summary = Summary::from_report(&report);
    assert_eq!(
        summary.summary_line(),
        "Summary: total=2, converted=1, skipped=0, failed=0, interrupted=1, workers=2"
    );
    assert_eq!(summary.interrupted_lines(), vec!["INTERRUPTED b.flac".to_string()]);
    assert_eq!(exit_status(&summary, &report), 130);
}

#[test]
fn failures_make_the_exit_status_one() {
    let report = ExecutionReport {
        results: vec![
            JobResult::Converted,
            JobResult::Failed { input: summary_test_path("x/bad.flac"), error: "boom".to_string() },
        ],
        workers: 2,
        interrupted: false,
    };
    let summary = Summary::from_report(&report);
    assert_eq!(
        summary.summary_line(),
        "Summary: total=2, converted=1, skipped=0, failed=1, workers=2"
    );
    assert_eq!(summary.failure_lines(), vec!["FAILED x/bad.flac: boom".to_string()]);
    assert_eq!(exit_status(&summary, &report), 1);
}

#[test]
fn counts_add_up_to_the_total() {
    let report = ExecutionReport {
        results: vec![
            JobResult::Converted,
            JobResult::Skipped,
            JobResult::Skipped,
            JobResult::Interrupted { input: summary_test_path("i.flac") },
            JobResult::Failed { input: summary_test_path("f.flac"), error: "e".to_string() },
        ],
        workers: 3,
        interrupted: false,
    };
    let summary = Summary::from_report(&report);
    assert_eq!(
        summary.converted + summary.skipped + summary.failed + summary.interrupted,
        summary.total
    );
    assert_eq!(summary.total, 5);
}
