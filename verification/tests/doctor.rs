use flacser::cli::DoctorArgs;
use flacser::discover::{InputKind, InputListing};
use flacser::doctor::{
    CheckStatus, DoctorCheck, DoctorInput, DoctorObservations, DoctorReport, OutputDirState,
    diagnose, nearest_existing_parent,
};
use flacser::ffmpeg::VersionProbe;
use flacser::path::FsPath;

fn doctor_test_path(text: &str) -> FsPath {
    FsPath::parse(&text.as_bytes().to_vec())
}

fn args(input_path: Option<FsPath>, output_dir: Option<FsPath>, jobs: Option<usize>) -> DoctorInput {
    DoctorInput::from_args(DoctorArgs {
        input_path,
        output_dir,
        jobs: jobs.filter(|jobs| *jobs != 0),
    })
}

fn passing_probe() -> VersionProbe {
    VersionProbe {
        executable_found: true,
        version: Ok("ffmpeg version 7.1".to_string()),
    }
}

fn nothing_observed() -> DoctorObservations {
    DoctorObservations {
        output_dir: OutputDirState::Directory { writable: true },
        input: InputListing { kind: InputKind::Missing, files: Vec::new(), scan_error: None },
    }
}

fn observed_input(kind: InputKind, files: Vec<FsPath>) -> DoctorObservations {
    DoctorObservations {
        output_dir: OutputDirState::Directory { writable: true },
        input: InputListing { kind, files, scan_error: None },
    }
}

fn observed_output(state: OutputDirState) -> DoctorObservations {
    DoctorObservations {
        output_dir: state,
        input: InputListing { kind: InputKind::Missing, files: Vec::new(), scan_error: None },
    }
}

fn check<'a>(report: &'a DoctorReport, name: &str) -> &'a DoctorCheck {
    report
        .checks
        .iter()
        .find(|check| check.name == name)
        .expect("check should exist")
}

#[test]
fn reports_ready_when_required_global_checks_pass() {
    let report = diagnose(args(None, None, None), passing_probe(), 8, &nothing_observed());

    assert!(report.is_ready());
    assert_eq!(report.checks[0].status, CheckStatus::Passed);
    assert_eq!(report.checks[0].detail, "found");
    assert_eq!(report.checks[1].detail, "ffmpeg version 7.1");
    assert_eq!(report.checks[2].detail, "8");
    assert_eq!(report.checks[3].detail, "7");
    assert_eq!(report.checks[4].detail, "global defaults are sane");
}

#[test]
fn reports_not_ready_when_ffmpeg_is_missing() {
    let report = diagnose(
        args(None, None, None),
        VersionProbe {
            executable_found: false,
            version: Err("failed to run ffmpeg -version".to_string()),
        },
        4,
        &nothing_observed(),
    );

    assert!(!report.is_ready());
    assert_eq!(report.checks[0].status, CheckStatus::Failed);
    assert_eq!(report.checks[0].detail, "not found");
    assert_eq!(report.checks[1].status, CheckStatus::Failed);
    assert!(
        report.checks[1]
            .detail
            .contains("failed to run ffmpeg -version")
    );
    assert_eq!(report.checks[3].detail, "3");
}

#[test]
fn reports_found_ffmpeg_when_only_version_check_fails() {
    let report = diagnose(
        args(None, None, None),
        VersionProbe {
            executable_found: true,
            version: Err("ffmpeg -version exited with status 42".to_string()),
        },
        4,
        &nothing_observed(),
    );

    assert!(!report.is_ready());
    assert_eq!(report.checks[0].status, CheckStatus::Passed);
    assert_eq!(report.checks[0].detail, "found");
    assert_eq!(report.checks[1].status, CheckStatus::Failed);
    assert!(
        report.checks[1]
            .detail
            .contains("ffmpeg -version exited with status 42")
    );
}

#[test]
fn warnings_do_not_make_report_not_ready() {
    let report = DoctorReport {
        checks: vec![DoctorCheck::warning("configured workers", "high")],
    };

    assert!(report.has_warnings());
    assert!(report.is_ready());
}

#[test]
fn reports_configured_workers_when_jobs_is_provided() {
    let report = diagnose(args(None, None, Some(3)), passing_probe(), 8, &nothing_observed());

    assert_eq!(check(&report, "configured workers").detail, "3");
    assert!(report.is_ready());
}

#[test]
fn warns_when_configured_workers_exceed_detected_cpu_cores() {
    let report = diagnose(args(None, None, Some(20)), passing_probe(), 4, &nothing_observed());

    assert_eq!(
        check(&report, "worker oversubscription").status,
        CheckStatus::Warning
    );
    assert!(report.has_warnings());
    assert!(report.is_ready());
}

#[test]
fn oversubscription_warning_names_both_counts() {
    let report = diagnose(args(None, None, Some(20)), passing_probe(), 4, &nothing_observed());
    assert_eq!(
        check(&report, "worker oversubscription").detail,
        "20 configured workers exceeds 4 detected CPU cores; each job runs its own ffmpeg process"
    );
}

#[test]
fn unreadable_version_detail_wraps_the_error() {
    let report = diagnose(
        args(None, None, None),
        VersionProbe { executable_found: true, version: Err("boom".to_string()) },
        2,
        &nothing_observed(),
    );
    assert_eq!(check(&report, "ffmpeg version").detail, "unreadable (boom)");
    assert_eq!(check(&report, "default workers").detail, "1");
}

#[test]
fn failed_checks_make_the_report_not_ready() {
    let report = DoctorReport {
        checks: vec![
            DoctorCheck::ok("ffmpeg", "found"),
            DoctorCheck::failed("ffmpeg version", "unreadable"),
        ],
    };
    assert!(!report.is_ready());
    assert!(!report.has_warnings());
}

#[test]
fn valid_file_input_reports_discovery_plan_and_workers() {
    let input = doctor_test_path("/music/song.flac");
    let report = diagnose(
        args(Some(input), None, Some(2)),
        passing_probe(),
        8,
        &observed_input(InputKind::File, Vec::new()),
    );

    assert_eq!(check(&report, "input exists").detail, "/music/song.flac");
    assert_eq!(check(&report, "input type").detail, "file");
    assert_eq!(check(&report, "discoverable files").status, CheckStatus::Passed);
    assert_eq!(
        check(&report, "discoverable files").detail,
        "1 .flac file(s) found with recursive discovery"
    );
    assert_eq!(
        check(&report, "output planning").detail,
        "1 output path(s) validated"
    );
    assert_eq!(check(&report, "effective workers").detail, "1");
    assert!(report.is_ready());
}

#[test]
fn directory_input_counts_nested_files() {
    let files = vec![
        doctor_test_path("/music/top.flac"),
        doctor_test_path("/music/nested/inner.flac"),
        doctor_test_path("/music/notes.txt"),
    ];
    let report = diagnose(
        args(Some(doctor_test_path("/music")), None, Some(4)),
        passing_probe(),
        8,
        &observed_input(InputKind::Directory, files),
    );

    assert_eq!(check(&report, "input type").detail, "directory");
    assert_eq!(
        check(&report, "discoverable files").detail,
        "2 .flac file(s) found with recursive discovery"
    );
    assert_eq!(check(&report, "effective workers").detail, "2");
    assert!(report.is_ready());
}

#[test]
fn empty_directory_fails_discoverable_files() {
    let report = diagnose(
        args(Some(doctor_test_path("/music")), None, None),
        passing_probe(),
        8,
        &observed_input(InputKind::Directory, Vec::new()),
    );

    assert_eq!(check(&report, "discoverable files").status, CheckStatus::Failed);
    assert_eq!(
        check(&report, "discoverable files").detail,
        "0 .flac files found with recursive discovery"
    );
    assert_eq!(check(&report, "effective workers").detail, "0");
    assert!(!report.is_ready());
}

#[test]
fn missing_input_fails_input_diagnostics() {
    let report = diagnose(
        args(Some(doctor_test_path("/nowhere/missing")), None, None),
        passing_probe(),
        8,
        &observed_input(InputKind::Missing, Vec::new()),
    );

    assert_eq!(check(&report, "input exists").status, CheckStatus::Failed);
    assert_eq!(
        check(&report, "input exists").detail,
        "not found or not accessible: /nowhere/missing"
    );
    assert!(!report.is_ready());
}

#[test]
fn unsupported_file_fails_discovery() {
    let report = diagnose(
        args(Some(doctor_test_path("notes.txt")), None, None),
        passing_probe(),
        8,
        &observed_input(InputKind::File, Vec::new()),
    );

    assert_eq!(check(&report, "discoverable files").status, CheckStatus::Failed);
    assert!(!report.is_ready());
}

#[test]
fn output_dir_existing_directory_passes() {
    let report = diagnose(
        args(None, Some(doctor_test_path("/out")), None),
        passing_probe(),
        8,
        &observed_output(OutputDirState::Directory { writable: true }),
    );

    assert_eq!(check(&report, "output directory").status, CheckStatus::Passed);
    assert_eq!(check(&report, "output directory").detail, "writable: /out");
    assert!(report.is_ready());
}

#[test]
fn output_dir_not_writable_fails() {
    let report = diagnose(
        args(None, Some(doctor_test_path("/out")), None),
        passing_probe(),
        8,
        &observed_output(OutputDirState::Directory { writable: false }),
    );
    assert_eq!(check(&report, "output directory").detail, "not writable: /out");
    assert!(!report.is_ready());
}

#[test]
fn output_dir_existing_file_fails() {
    let report = diagnose(
        args(None, Some(doctor_test_path("/tmp/out")), None),
        passing_probe(),
        8,
        &observed_output(OutputDirState::NotDirectory),
    );

    assert_eq!(check(&report, "output directory").status, CheckStatus::Failed);
    assert!(!report.is_ready());
}

#[test]
fn missing_output_dir_reports_createable_when_parent_is_writable() {
    let output = doctor_test_path("/tmp/work/out/nested");
    let parent = nearest_existing_parent(&output, &vec![false, true, true]);
    assert_eq!(parent, Some(doctor_test_path("/tmp/work")));
    let report = diagnose(
        args(None, Some(output), None),
        passing_probe(),
        8,
        &observed_output(OutputDirState::Missing { parent, parent_writable: true }),
    );

    assert_eq!(check(&report, "output directory").status, CheckStatus::Passed);
    assert!(check(&report, "output directory").detail.contains("/tmp/work"));
    assert!(report.is_ready());
}

#[test]
fn missing_output_dir_without_existing_parent_fails() {
    let output = doctor_test_path("/a/b");
    let parent = nearest_existing_parent(&output, &vec![false, false]);
    assert_eq!(parent, None);
    let report = diagnose(
        args(None, Some(output), None),
        passing_probe(),
        8,
        &observed_output(OutputDirState::Missing { parent, parent_writable: false }),
    );
    assert_eq!(
        check(&report, "output directory").detail,
        "no existing parent found for /a/b"
    );
    assert!(!report.is_ready());
}

#[test]
fn output_planning_fails_when_output_path_is_a_file() {
    let report = diagnose(
        args(Some(doctor_test_path("/music/song.flac")), Some(doctor_test_path("/out")), None),
        passing_probe(),
        8,
        &DoctorObservations {
            output_dir: OutputDirState::NotDirectory,
            input: InputListing { kind: InputKind::File, files: Vec::new(), scan_error: None },
        },
    );
    assert_eq!(check(&report, "output planning").status, CheckStatus::Failed);
    assert_eq!(
        check(&report, "output planning").detail,
        "output path exists but is not a directory: /out"
    );
}

#[test]
fn report_lines_list_every_check_and_the_verdict() {
    let report = DoctorReport {
        checks: vec![
            DoctorCheck::ok("ffmpeg", "found"),
            DoctorCheck::warning("worker oversubscription", "too many"),
        ],
    };
    assert_eq!(
        report.lines(),
        vec![
            "Doctor report:".to_string(),
            "[ok] ffmpeg: found".to_string(),
            "[warn] worker oversubscription: too many".to_string(),
            "Read-only: no files were created, modified, or converted.".to_string(),
            "Warnings: yes".to_string(),
            "Ready: yes".to_string(),
        ]
    );
}

#[test]
fn nearest_existing_parent_picks_the_closest() {
    let path = doctor_test_path("a/b/c");
    assert_eq!(
        nearest_existing_parent(&path, &vec![true, true, true]),
        Some(doctor_test_path("a/b"))
    );
    assert_eq!(
        nearest_existing_parent(&path, &vec![false, true, true]),
        Some(doctor_test_path("a"))
    );
}

#[test]
fn doctor_plans_for_the_requested_target() {
    let input = args(Some(doctor_test_path("/music/song.aiff")), None, None)
        .with_target(flacser::audio_format::AudioFormat::Wav);
    let report = diagnose(input, passing_probe(), 8, &observed_input(InputKind::File, Vec::new()));
    assert_eq!(check(&report, "output planning").status, CheckStatus::Passed);
    assert!(report.is_ready());

    let same = diagnose(
        args(Some(doctor_test_path("/music/song.aiff")), None, None),
        passing_probe(),
        8,
        &observed_input(InputKind::File, Vec::new()),
    );
    assert_eq!(
        check(&same, "output planning").detail,
        "same-format conversion is not supported: /music/song.aiff"
    );
}

#[test]
fn doctor_discovery_leaves_out_files_already_in_the_target_format() {
    let files = vec![
        doctor_test_path("/music/a.aiff"),
        doctor_test_path("/music/b.wav"),
        doctor_test_path("/music/c.flac"),
    ];
    let input = args(Some(doctor_test_path("/music")), None, None)
        .with_target(flacser::audio_format::AudioFormat::Wav);
    let report = diagnose(input, passing_probe(), 8, &observed_input(InputKind::Directory, files));
    assert_eq!(
        check(&report, "discoverable files").detail,
        "2 .flac file(s) found with recursive discovery"
    );
    assert_eq!(check(&report, "output planning").detail, "2 output path(s) validated");
}
