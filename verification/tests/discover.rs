use flacser::audio_format::AudioFormat;
use flacser::config::Config;
use flacser::discover::{InputKind, InputListing, discover, discover_for_doctor, sort_paths, walk_depth};
use flacser::path::FsPath;

fn discover_test_path(text: &str) -> FsPath {
    FsPath::parse(&text.as_bytes().to_vec())
}

fn discover_config(input: &str) -> Config {
    Config {
        input_path: discover_test_path(input),
        output_dir: None,
        dry_run: false,
        recursive: false,
        flatten: false,
        jobs: 1,
        target_format: AudioFormat::Aiff,
    }
}

fn listing(kind: InputKind, files: &[&str]) -> InputListing {
    InputListing {
        kind,
        files: files.iter().map(|f| discover_test_path(f)).collect(),
        scan_error: None,
    }
}

#[test]
fn errors_when_input_path_does_not_exist() {
    let config = discover_config("/tmp/x/does-not-exist");

    let error = discover(&config, &listing(InputKind::Missing, &[])).expect_err("discover should fail");
    assert!(
        error
            .message()
            .contains("input path does not exist or is not accessible")
    );
}

#[test]
fn single_supported_file_is_the_only_input() {
    let config = discover_config("/music/song.flac");
    let files = discover(&config, &listing(InputKind::File, &[])).expect("discover should succeed");
    assert_eq!(files, vec![discover_test_path("/music/song.flac")]);
}

#[test]
fn unsupported_single_file_is_rejected() {
    let config = discover_config("/music/song.mp3");
    let error = discover(&config, &listing(InputKind::File, &[])).expect_err("discover should fail");
    assert_eq!(
        error.message(),
        "input file is not a supported audio file (.flac, .aiff, .aif, .wav): /music/song.mp3"
    );
}

#[test]
fn directory_inputs_are_filtered_and_sorted() {
    let config = discover_config("/d");
    let files = discover(
        &config,
        &listing(
            InputKind::Directory,
            &["/d/z.flac", "/d/ignore.txt", "/d/a.flac", "/d/nested/nested.flac", "/d/b.AIFF", "/d/c.wav"],
        ),
    )
    .expect("discover should succeed");
    assert_eq!(
        files,
        vec![
            discover_test_path("/d/a.flac"),
            discover_test_path("/d/c.wav"),
            discover_test_path("/d/nested/nested.flac"),
            discover_test_path("/d/z.flac"),
        ]
    );
}

#[test]
fn doctor_discovery_keeps_every_supported_format() {
    let files = discover_for_doctor(
        &discover_test_path("/d"),
        &listing(
            InputKind::Directory,
            &["/d/song.wav", "/d/song.flac", "/d/ignore.txt", "/d/song.aiff", "/d/song.aif"],
        ),
    )
    .expect("discover should succeed");
    assert_eq!(
        files,
        vec![
            discover_test_path("/d/song.aif"),
            discover_test_path("/d/song.aiff"),
            discover_test_path("/d/song.flac"),
            discover_test_path("/d/song.wav"),
        ]
    );
}

#[test]
fn directory_scan_errors_are_reported() {
    let mut observed = listing(InputKind::Directory, &["/d/a.flac"]);
    observed.scan_error = Some("permission denied".to_string());
    let error = discover(&discover_config("/d"), &observed).expect_err("discover should fail");
    assert_eq!(error.message(), "failed while scanning input directory");
}

#[test]
fn walk_depth_is_one_level_unless_recursive() {
    assert_eq!(walk_depth(false), 1);
    assert_eq!(walk_depth(true), usize::MAX);
}

#[test]
fn paths_sort_component_by_component() {
    let sorted = sort_paths(vec![
        discover_test_path("b/a"),
        discover_test_path("a.b"),
        discover_test_path("a/b"),
        discover_test_path("a"),
    ]);
    assert_eq!(
        sorted,
        vec![
            discover_test_path("a"),
            discover_test_path("a/b"),
            discover_test_path("a.b"),
            discover_test_path("b/a"),
        ]
    );
}
