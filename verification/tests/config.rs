use flacser::cli::ConvertArgs;
use flacser::config::{Config, default_jobs_for_cpu_count};
use flacser::audio_format::AudioFormat;
use flacser::path::FsPath;

fn config_test_path(text: &str) -> FsPath {
    FsPath::parse(&text.as_bytes().to_vec())
}

#[test]
fn from_convert_args_maps_convert_args() {
    let args = ConvertArgs {
        input_path: config_test_path("in.flac"),
        output_dir: Some(config_test_path("out")),
        dry_run: true,
        recursive: true,
        flatten: true,
        jobs: Some(2),
    };

    let config = Config::from_convert_args(args, 8);

    assert_eq!(config.input_path, config_test_path("in.flac"));
    assert_eq!(config.output_dir, Some(config_test_path("out")));
    assert!(config.dry_run);
    assert!(config.recursive);
    assert!(config.flatten);
    assert_eq!(config.jobs, 2);
}

#[test]
fn default_jobs_is_always_at_least_one() {
    let args = ConvertArgs {
        input_path: config_test_path("in.flac"),
        output_dir: None,
        dry_run: false,
        recursive: false,
        flatten: false,
        jobs: None,
    };

    let config = Config::from_convert_args(args, 1);
    assert!(config.jobs >= 1);
}

#[test]
fn default_jobs_leaves_one_core_free_when_possible() {
    assert_eq!(default_jobs_for_cpu_count(1), 1);
    assert_eq!(default_jobs_for_cpu_count(2), 1);
    assert_eq!(default_jobs_for_cpu_count(8), 7);
}

#[test]
fn default_jobs_handles_zero_and_huge_core_counts() {
    assert_eq!(default_jobs_for_cpu_count(0), 1);
    assert_eq!(default_jobs_for_cpu_count(usize::MAX), usize::MAX - 1);
}

#[test]
fn missing_jobs_use_the_default_for_detected_cores() {
    let args = ConvertArgs {
        input_path: config_test_path("music"),
        output_dir: None,
        dry_run: false,
        recursive: false,
        flatten: false,
        jobs: None,
    };
    let config = Config::from_convert_args(args, 8);
    assert_eq!(config.jobs, 7);
    assert_eq!(config.target_format, AudioFormat::Aiff);
}

#[test]
fn target_format_can_be_changed() {
    let args = ConvertArgs {
        input_path: config_test_path("music"),
        output_dir: None,
        dry_run: true,
        recursive: false,
        flatten: false,
        jobs: Some(3),
    };
    let config = Config::from_convert_args(args, 8).with_target_format(AudioFormat::Wav);
    assert_eq!(config.target_format, AudioFormat::Wav);
    assert_eq!(config.jobs, 3);
    assert!(config.dry_run);
}
