use flacser::path::FsPath;

fn path_test_path(text: &str) -> FsPath {
    FsPath::parse(&text.as_bytes().to_vec())
}

#[test]
fn parsing_keeps_the_bytes_and_reads_components() {
    assert_eq!(path_test_path("a//b/./c/").to_bytes(), b"a//b/./c/".to_vec());
    assert_eq!(path_test_path("a//b/./c/").component_count(), 3);
    assert!(path_test_path("a//b/./c/").same_as(&path_test_path("a/b/c")));
    assert_eq!(path_test_path("./a").component_count(), 2);
    assert_eq!(path_test_path("/../x").to_bytes(), b"/../x".to_vec());
    assert_eq!(path_test_path("").component_count(), 0);
    assert!(path_test_path("/a").is_absolute());
    assert!(!path_test_path("a").is_absolute());
}

#[test]
fn paths_are_shown_as_written() {
    assert_eq!(path_test_path("music//album/").display(), "music//album/");
    assert_eq!(
        path_test_path("music/").join(&path_test_path("x.flac")).display(),
        "music/x.flac"
    );
    assert_eq!(path_test_path("music//").join(&path_test_path("x.flac")).display(), "music//x.flac");
    assert_eq!(path_test_path("a").join(&path_test_path("")).display(), "a/");
    assert_eq!(path_test_path("a//b/").parent().unwrap().display(), "a");
    assert_eq!(path_test_path("./a").parent().unwrap().display(), ".");
    assert_eq!(path_test_path("/a/").parent().unwrap().display(), "/");
    assert_eq!(
        path_test_path("/m/in/album/./song.flac")
            .strip_prefix(&path_test_path("/m//in"))
            .unwrap()
            .display(),
        "album/./song.flac"
    );
    assert_eq!(
        path_test_path("/m//in/./album/song.flac")
            .strip_prefix(&path_test_path("/m/in"))
            .unwrap()
            .display(),
        "album/song.flac"
    );
    assert_eq!(
        path_test_path("dir/song.flac/").with_extension(&b"aiff".to_vec()).display(),
        "dir/song.aiff"
    );
    assert_eq!(
        path_test_path("dir//.hidden").with_extension(&b"wav".to_vec()).display(),
        "dir//.hidden.wav"
    );
}

#[test]
fn file_names_and_extensions() {
    let p = path_test_path("dir/archive.tar.gz");
    assert_eq!(p.file_name(), Some(b"archive.tar.gz".to_vec()));
    assert_eq!(p.extension(), Some(b"gz".to_vec()));
    assert_eq!(path_test_path("dir/.profile").extension(), None);
    assert_eq!(path_test_path("dir/..").file_name(), None);
    assert_eq!(path_test_path("/").file_name(), None);
}

#[test]
fn with_extension_replaces_the_last_one() {
    let p = path_test_path("dir/song.flac");
    assert_eq!(p.with_extension(&b"aiff".to_vec()), path_test_path("dir/song.aiff"));
    assert_eq!(
        path_test_path("dir/noext").with_extension(&b"wav".to_vec()),
        path_test_path("dir/noext.wav")
    );
}

#[test]
fn join_strip_prefix_and_parent() {
    let base = path_test_path("/music");
    assert_eq!(base.join(&path_test_path("a/b.flac")), path_test_path("/music/a/b.flac"));
    assert_eq!(base.join(&path_test_path("/abs")), path_test_path("/abs"));
    assert_eq!(
        path_test_path("/music/a/b.flac").strip_prefix(&base),
        Some(path_test_path("a/b.flac"))
    );
    assert_eq!(path_test_path("/other/b.flac").strip_prefix(&base), None);
    assert_eq!(path_test_path("/music/a").parent(), Some(path_test_path("/music")));
    assert_eq!(path_test_path("/").parent(), None);
    assert_eq!(path_test_path("a").parent(), Some(path_test_path("")));
}

#[test]
fn display_is_lossy_for_invalid_utf8() {
    let p = path_test_path("dir").join(&FsPath::from_name(&b"a\xff.flac".to_vec()));
    assert_eq!(p.display(), "dir/a\u{fffd}.flac");
}

#[test]
fn proper_ancestors_are_listed_nearest_first() {
    let ancestors = path_test_path("/a/b").proper_ancestors();
    assert_eq!(ancestors, vec![path_test_path("/a"), path_test_path("/")]);
}

#[test]
fn empty_extension_removes_the_extension() {
    let empty: Vec<u8> = Vec::new();
    assert_eq!(path_test_path("dir/song.flac").with_extension(&empty).display(), "dir/song");
    assert_eq!(path_test_path("dir/a.tar.gz").with_extension(&empty).display(), "dir/a.tar");
    assert_eq!(path_test_path("dir/plain").with_extension(&empty).display(), "dir/plain");
    let dotted = path_test_path("dir/..x").with_extension(&empty);
    assert_eq!(dotted.display(), "dir/.");
    assert!(dotted.same_as(&path_test_path("dir")));
}
