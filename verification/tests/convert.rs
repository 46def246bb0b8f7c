use flacser::audio_format::AudioFormat;
use flacser::convert::{
    JobDecision, JobEvent, JobResult, JobStep, RunOutcome, decide_job, execution_report,
    job_result, next_step, temp_output_path, worker_count,
};
use flacser::ffmpeg::ToolRun;
use flacser::path::FsPath;
use flacser::plan::ConversionJob;

fn convert_test_path(text: &str) -> FsPath {
    FsPath::parse(&text.as_bytes().to_vec())
}

fn aiff_job(input: &str, output: &str) -> ConversionJob {
    ConversionJob {
        input: convert_test_path(input),
        output: convert_test_path(output),
        source_format: AudioFormat::Flac,
        target_format: AudioFormat::Aiff,
    }
}

fn dry_run_results(jobs: &[ConversionJob]) -> Vec<JobResult> {
    jobs.iter()
        .map(|job| job_result(job, decide_job(false, false, true), &RunOutcome::Done))
        .collect()
}

#[test]
fn temp_output_path_uses_output_file_name_in_same_directory() {
    let output = convert_test_path("album/song.aiff");

    let temp = temp_output_path(&output, 4242, 7);

    assert_eq!(temp.parent(), output.parent());
    let name = String::from_utf8(temp.file_name().expect("temp file name")).expect("utf-8 name");
    assert!(name.starts_with(".song.aiff.flacser-"));
    assert!(name.ends_with(".aiff"));
}

#[test]
fn temp_output_name_carries_process_and_counter() {
    let temp = temp_output_path(&convert_test_path("/out/track.wav"), 12, 345);
    assert_eq!(temp, convert_test_path("/out/.track.wav.flacser-12-345.wav"));
    let bare = temp_output_path(&convert_test_path("noext"), 1, 0);
    assert_eq!(bare, convert_test_path(".noext.flacser-1-0"));
}

#[test]
fn execute_reports_zero_workers_for_empty_job_list() {
    let report = execution_report(Vec::new(), worker_count(1, 0), false);

    assert_eq!(report.results.len(), 0);
    assert_eq!(report.workers, 0);
    assert!(!report.interrupted);
}

#[test]
fn execute_reports_actual_workers_used() {
    let jobs = vec![
        aiff_job("first.flac", "first.aiff"),
        aiff_job("second.flac", "second.aiff"),
    ];
    let report = execution_report(dry_run_results(&jobs), worker_count(8, jobs.len()), false);

    assert_eq!(report.results.len(), 2);
    assert_eq!(report.workers, 2);
}

#[test]
fn worker_count_stays_between_one_and_the_job_count() {
    assert_eq!(worker_count(3, 10), 3);
    assert_eq!(worker_count(10, 3), 3);
    assert_eq!(worker_count(0, 3), 1);
    assert_eq!(worker_count(0, 0), 0);
}

#[test]
fn job_decisions_follow_interrupt_existing_output_and_dry_run() {
    assert_eq!(decide_job(true, true, true), JobDecision::Interrupt);
    assert_eq!(decide_job(false, true, true), JobDecision::Skip);
    assert_eq!(decide_job(false, false, true), JobDecision::MarkConverted);
    assert_eq!(decide_job(false, false, false), JobDecision::Run);
}

#[test]
fn job_results_name_the_failed_step() {
    let job = aiff_job("in/song.flac", "out/song.aiff");
    match job_result(&job, JobDecision::Run, &RunOutcome::ConvertFailed { error: "boom".to_string() }) {
        JobResult::Failed { input, error } => {
            assert_eq!(input, convert_test_path("in/song.flac"));
            assert_eq!(error, "in/song.flac -> out/song.aiff: boom");
        }
        other => panic!("unexpected result {other:?}"),
    }
    match job_result(
        &job,
        JobDecision::Run,
        &RunOutcome::CreateDirFailed { dir: convert_test_path("out"), error: "denied".to_string() },
    ) {
        JobResult::Failed { error, .. } => {
            assert_eq!(error, "failed to create output directory out: denied")
        }
        other => panic!("unexpected result {other:?}"),
    }
    match job_result(
        &job,
        JobDecision::Run,
        &RunOutcome::MoveFailed {
            temp: convert_test_path("out/.song.aiff.flacser-1-2.aiff"),
            error: "busy".to_string(),
        },
    ) {
        JobResult::Failed { error, .. } => assert_eq!(
            error,
            "failed to move temporary output out/.song.aiff.flacser-1-2.aiff to out/song.aiff: busy"
        ),
        other => panic!("unexpected result {other:?}"),
    }
    assert!(matches!(
        job_result(&job, JobDecision::Run, &RunOutcome::Done),
        JobResult::Converted
    ));
    assert!(matches!(
        job_result(&job, JobDecision::Skip, &RunOutcome::Done),
        JobResult::Skipped
    ));
    match job_result(&job, JobDecision::Interrupt, &RunOutcome::Done) {
        JobResult::Interrupted { input } => assert_eq!(input, convert_test_path("in/song.flac")),
        other => panic!("unexpected result {other:?}"),
    }
}

#[test]
fn report_is_interrupted_by_flag_or_by_an_unstarted_job() {
    let job = aiff_job("a.flac", "a.aiff");
    let unstarted = vec![job_result(&job, JobDecision::Interrupt, &RunOutcome::Done)];
    assert!(execution_report(unstarted, 1, false).interrupted);
    assert!(execution_report(Vec::new(), 0, true).interrupted);
    let done = vec![job_result(&job, JobDecision::MarkConverted, &RunOutcome::Done)];
    assert!(!execution_report(done, 1, false).interrupted);
}

fn exited(success: bool, stdout: &[u8]) -> ToolRun {
    ToolRun::Exited { success, status: "exit status: 3".to_string(), stdout: stdout.to_vec() }
}

#[test]
fn running_job_creates_directory_probes_converts_and_renames() {
    let job = aiff_job("in/song.flac", "out/song.aiff");
    match next_step(&job, JobEvent::Started) {
        JobStep::CreateDir(dir) => assert_eq!(dir, convert_test_path("out")),
        _ => panic!("expected the directory step"),
    }
    assert!(matches!(next_step(&job, JobEvent::DirCreated(Ok(()))), JobStep::Probe));
    match next_step(&job, JobEvent::Probed(exited(true, b"sample_fmt=s16\nbits_per_sample=16\n"))) {
        JobStep::Convert(codec) => assert_eq!(codec, Some("pcm_s16be".to_string())),
        _ => panic!("expected the conversion step"),
    }
    assert!(matches!(next_step(&job, JobEvent::Converted(exited(true, b""))), JobStep::Rename));
    let temp = temp_output_path(&job.output, 1, 1);
    assert!(matches!(
        next_step(&job, JobEvent::Renamed { temp, result: Ok(()) }),
        JobStep::Finish(RunOutcome::Done)
    ));
}

#[test]
fn flac_targets_skip_the_probe() {
    let job = ConversionJob {
        input: convert_test_path("in.wav"),
        output: convert_test_path("in.flac"),
        source_format: AudioFormat::Wav,
        target_format: AudioFormat::Flac,
    };
    assert!(matches!(next_step(&job, JobEvent::DirCreated(Ok(()))), JobStep::Convert(None)));
}

#[test]
fn failed_steps_end_the_job_and_clean_up() {
    let job = aiff_job("in/song.flac", "out/song.aiff");
    match next_step(&job, JobEvent::DirCreated(Err("denied".to_string()))) {
        JobStep::Finish(RunOutcome::CreateDirFailed { dir, error }) => {
            assert_eq!(dir, convert_test_path("out"));
            assert_eq!(error, "denied");
        }
        _ => panic!("expected the job to end"),
    }
    match next_step(&job, JobEvent::Converted(exited(false, b""))) {
        JobStep::RemoveTempThenFinish(RunOutcome::ConvertFailed { error }) => {
            assert_eq!(error, "ffmpeg exited with status exit status: 3 for input in/song.flac")
        }
        _ => panic!("expected cleanup"),
    }
    match next_step(&job, JobEvent::Probed(exited(true, b"sample_fmt=s64\nbits_per_sample=64\n"))) {
        JobStep::RemoveTempThenFinish(RunOutcome::ConvertFailed { error }) => assert_eq!(
            error,
            "could not determine PCM bit depth for in/song.flac: unsupported PCM bit depth: 64"
        ),
        _ => panic!("expected cleanup"),
    }
    let temp = temp_output_path(&job.output, 1, 2);
    match next_step(&job, JobEvent::Renamed { temp, result: Err("busy".to_string()) }) {
        JobStep::RemoveTempThenFinish(RunOutcome::MoveFailed { temp, error }) => {
            assert_eq!(temp, convert_test_path("out/.song.aiff.flacser-1-2.aiff"));
            assert_eq!(error, "busy");
        }
        _ => panic!("expected cleanup"),
    }
}
