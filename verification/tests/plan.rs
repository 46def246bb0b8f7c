use flacser::audio_format::AudioFormat;
use flacser::config::Config;
use flacser::path::FsPath;
use flacser::plan::{PlanFacts, plan};

fn plan_test_path(text: &str) -> FsPath {
    FsPath::parse(&text.as_bytes().to_vec())
}

fn plan_config(input: &str, output_dir: Option<&str>, flatten: bool) -> Config {
    Config {
        input_path: plan_test_path(input),
        output_dir: output_dir.map(plan_test_path),
        dry_run: false,
        recursive: flatten,
        flatten,
        jobs: 1,
        target_format: AudioFormat::Aiff,
    }
}

fn file_input() -> PlanFacts {
    PlanFacts { input_is_directory: false, output_dir_is_not_directory: false }
}

fn directory_input() -> PlanFacts {
    PlanFacts { input_is_directory: true, output_dir_is_not_directory: false }
}

fn inputs(paths: &[&str]) -> Vec<FsPath> {
    paths.iter().map(|p| plan_test_path(p)).collect()
}

#[test]
fn single_file_output_sits_beside_input() {
    let config = plan_config("/m/track.flac", None, false);
    let jobs = plan(&config, inputs(&["/m/track.flac"]), &file_input()).expect("plan should succeed");
    assert_eq!(jobs.len(), 1);
    assert_eq!(jobs[0].input, plan_test_path("/m/track.flac"));
    assert_eq!(jobs[0].output, plan_test_path("/m/track.aiff"));
    assert_eq!(jobs[0].source_format, AudioFormat::Flac);
    assert_eq!(jobs[0].target_format, AudioFormat::Aiff);
}

#[test]
fn single_relative_file_output_goes_to_its_directory() {
    let config = plan_config("track.flac", None, false);
    let jobs = plan(&config, inputs(&["track.flac"]), &file_input()).expect("plan should succeed");
    assert_eq!(jobs[0].output, plan_test_path("track.aiff"));
}

#[test]
fn single_file_output_goes_to_output_dir() {
    let config = plan_config("/m/track.flac", Some("/m/out"), false);
    let jobs = plan(&config, inputs(&["/m/track.flac"]), &file_input()).expect("plan should succeed");
    assert_eq!(jobs[0].output, plan_test_path("/m/out/track.aiff"));
}

#[test]
fn directory_outputs_keep_relative_structure() {
    let config = plan_config("/m/input", None, false);
    let jobs = plan(&config, inputs(&["/m/input/album/song.flac"]), &directory_input())
        .expect("plan should succeed");
    assert_eq!(jobs[0].output, plan_test_path("/m/input/album/song.aiff"));
}

#[test]
fn output_dir_that_is_a_file_is_refused() {
    let config = plan_config("/m/track.flac", Some("/m/out"), false);
    let facts = PlanFacts { input_is_directory: false, output_dir_is_not_directory: true };
    let error = plan(&config, inputs(&["/m/track.flac"]), &facts).expect_err("plan should fail");
    assert_eq!(
        error.message(),
        "output path exists but is not a directory: /m/out"
    );
}

#[test]
fn same_output_for_two_inputs_is_a_collision() {
    let config = plan_config("/m/original.flac", Some("/m/out"), false);
    let error = plan(&config, inputs(&["/m/a/song.flac", "/m/b/song.flac"]), &file_input())
        .expect_err("plan should fail");
    assert_eq!(
        error.message(),
        "output collision detected: /m/a/song.flac and /m/b/song.flac both map to /m/out/song.aiff"
    );
}

#[test]
fn flatten_puts_outputs_in_the_root() {
    let config = plan_config("/m/input", None, true);
    let jobs = plan(
        &config,
        inputs(&["/m/input/album-a/song.flac", "/m/input/album-b/track.flac"]),
        &directory_input(),
    )
    .expect("plan should succeed");
    assert_eq!(jobs.len(), 2);
    assert_eq!(jobs[0].output, plan_test_path("/m/input/song.aiff"));
    assert_eq!(jobs[1].output, plan_test_path("/m/input/track.aiff"));

    let config = plan_config("/m/input", Some("/m/output"), true);
    let jobs = plan(&config, inputs(&["/m/input/album-a/song.flac"]), &directory_input())
        .expect("plan should succeed");
    assert_eq!(jobs[0].output, plan_test_path("/m/output/song.aiff"));
}

#[test]
fn flatten_refuses_names_equal_up_to_case() {
    let config = plan_config("/m/input", None, true);
    let error = plan(
        &config,
        inputs(&["/m/input/a/Song.flac", "/m/input/b/song.flac"]),
        &directory_input(),
    )
    .expect_err("plan should fail");
    assert!(error.message().contains("output collision detected"));

    let error = plan(
        &config,
        inputs(&["/m/input/a/song.flac", "/m/input/b/song.flac"]),
        &directory_input(),
    )
    .expect_err("plan should fail");
    assert!(error.message().contains("output collision detected"));
}

#[test]
fn without_flatten_case_variants_do_not_collide() {
    let config = plan_config("/m/input", None, false);
    let jobs = plan(
        &config,
        inputs(&["/m/input/Song.flac", "/m/input/song.flac"]),
        &directory_input(),
    )
    .expect("plan should succeed");
    assert_ne!(jobs[0].output, jobs[1].output);
}

#[test]
fn flatten_has_no_effect_on_a_single_file() {
    let config = plan_config("/m/track.flac", Some("/m/output"), true);
    let jobs = plan(&config, inputs(&["/m/track.flac"]), &file_input()).expect("plan should succeed");
    assert_eq!(jobs[0].output, plan_test_path("/m/output/track.aiff"));
}

#[test]
fn distinct_non_utf8_names_stay_distinct() {
    let root = plan_test_path("/m/input");
    let a = root.join(&FsPath::from_name(&b"a\xff.flac".to_vec()));
    let b = root.join(&FsPath::from_name(&b"a\xfe.flac".to_vec()));
    let config = plan_config("/m/input", None, true);
    let jobs = plan(&config, vec![a, b], &directory_input()).expect("plan should succeed");
    assert_eq!(jobs.len(), 2);
    assert_ne!(jobs[0].output, jobs[1].output);
}

#[test]
fn same_format_conversion_is_refused() {
    let config = plan_config("/m/song.aiff", None, false);
    let error = plan(&config, inputs(&["/m/song.aiff"]), &file_input()).expect_err("plan should fail");
    assert_eq!(
        error.message(),
        "same-format conversion is not supported: /m/song.aiff"
    );
}

#[test]
fn unsupported_inputs_are_refused() {
    let config = plan_config("/m/notes.txt", None, false);
    let error = plan(&config, inputs(&["/m/notes.txt"]), &file_input()).expect_err("plan should fail");
    assert!(error.message().contains("input file is not a supported audio file"));
}

#[test]
fn outputs_take_the_target_extension() {
    let config = plan_config("/m/in", None, false).with_target_format(AudioFormat::Wav);
    let jobs = plan(
        &config,
        inputs(&["/m/in/a.flac", "/m/in/b.AIF", "/m/in/c.tar.flac"]),
        &directory_input(),
    )
    .expect("plan should succeed");
    assert_eq!(jobs[0].output, plan_test_path("/m/in/a.wav"));
    assert_eq!(jobs[1].output, plan_test_path("/m/in/b.wav"));
    assert_eq!(jobs[2].output, plan_test_path("/m/in/c.tar.wav"));
    assert_eq!(jobs[1].source_format, AudioFormat::Aiff);
    for job in &jobs {
        assert_eq!(job.target_format, AudioFormat::Wav);
        assert_eq!(job.output.extension(), Some(b"wav".to_vec()));
    }
}

#[test]
fn inputs_outside_the_root_cannot_be_mapped() {
    let config = plan_config("/m/in", None, false);
    let error = plan(&config, inputs(&["/elsewhere/a.flac"]), &directory_input())
        .expect_err("plan should fail");
    assert_eq!(
        error.message(),
        "could not derive relative path from /elsewhere/a.flac against /m/in"
    );
}

#[test]
fn messages_show_paths_as_written() {
    let config = plan_config("m//notes.txt", None, false);
    let error = plan(&config, inputs(&["m//notes.txt"]), &file_input()).expect_err("plan should fail");
    assert_eq!(
        error.message(),
        "input file is not a supported audio file (.flac, .aiff, .aif, .wav): m//notes.txt"
    );
    let config = plan_config("music/", None, false);
    let jobs = plan(&config, inputs(&["music/song.flac"]), &directory_input()).expect("plan should succeed");
    assert_eq!(jobs[0].output.display(), "music/song.aiff");
}
