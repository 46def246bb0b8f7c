use flacser::audio_format::AudioFormat;
use flacser::path::FsPath;

fn format_test_path(text: &str) -> FsPath {
    FsPath::parse(&text.as_bytes().to_vec())
}

#[test]
fn detects_formats_from_extensions() {
    assert_eq!(
        AudioFormat::from_path(&format_test_path("song.flac")),
        Some(AudioFormat::Flac)
    );
    assert_eq!(
        AudioFormat::from_path(&format_test_path("song.aiff")),
        Some(AudioFormat::Aiff)
    );
    assert_eq!(
        AudioFormat::from_path(&format_test_path("song.aif")),
        Some(AudioFormat::Aiff)
    );
    assert_eq!(
        AudioFormat::from_path(&format_test_path("song.wav")),
        Some(AudioFormat::Wav)
    );
    assert_eq!(AudioFormat::from_path(&format_test_path("song.txt")), None);
}

#[test]
fn detects_extensions_case_insensitively() {
    assert_eq!(
        AudioFormat::from_path(&format_test_path("song.FLAC")),
        Some(AudioFormat::Flac)
    );
    assert_eq!(
        AudioFormat::from_path(&format_test_path("song.AiF")),
        Some(AudioFormat::Aiff)
    );
    assert_eq!(
        AudioFormat::from_path(&format_test_path("song.WAV")),
        Some(AudioFormat::Wav)
    );
}

#[test]
fn exposes_canonical_extensions() {
    assert_eq!(AudioFormat::Flac.canonical_extension(), "flac");
    assert_eq!(AudioFormat::Aiff.canonical_extension(), "aiff");
    assert_eq!(AudioFormat::Wav.canonical_extension(), "wav");
}

#[test]
fn displays_as_canonical_extension() {
    assert_eq!(AudioFormat::Flac.to_string(), "flac");
    assert_eq!(AudioFormat::Aiff.to_string(), "aiff");
    assert_eq!(AudioFormat::Wav.to_string(), "wav");
}

#[test]
fn parses_supported_target_values() {
    assert_eq!(
        AudioFormat::from_str("flac", true).unwrap(),
        AudioFormat::Flac
    );
    assert_eq!(
        AudioFormat::from_str("AIFF", true).unwrap(),
        AudioFormat::Aiff
    );
    assert_eq!(
        AudioFormat::from_str("Wav", true).unwrap(),
        AudioFormat::Wav
    );
}

#[test]
fn rejects_aif_as_target_value() {
    let error = AudioFormat::from_str("aif", true).expect_err("parse should fail");
    assert!(error.to_string().contains("invalid variant"));
}

#[test]
fn rejected_target_value_message_names_the_value() {
    assert_eq!(
        AudioFormat::from_str("mp3", true).unwrap_err(),
        "invalid variant: mp3"
    );
}

#[test]
fn case_sensitive_parsing_needs_the_exact_name() {
    assert_eq!(AudioFormat::from_str("wav", false).unwrap(), AudioFormat::Wav);
    assert!(AudioFormat::from_str("WAV", false).is_err());
}

#[test]
fn canonical_names_read_back_as_the_same_format() {
    for format in [AudioFormat::Flac, AudioFormat::Aiff, AudioFormat::Wav] {
        assert_eq!(
            AudioFormat::from_extension(format.canonical_extension()),
            Some(format)
        );
        assert_eq!(AudioFormat::from_str(format.as_str(), true), Ok(format));
        assert_eq!(AudioFormat::from_str(format.as_str(), false), Ok(format));
        let bytes = format.extension_bytes();
        assert_eq!(bytes, format.as_str().as_bytes().to_vec());
    }
}

#[test]
fn extension_detection_ignores_letter_case() {
    assert_eq!(AudioFormat::from_extension("FlAc"), Some(AudioFormat::Flac));
    assert_eq!(AudioFormat::from_extension("AIF"), Some(AudioFormat::Aiff));
    assert_eq!(AudioFormat::from_extension("wAv"), Some(AudioFormat::Wav));
    assert_eq!(AudioFormat::from_extension("mp3"), None);
    assert_eq!(AudioFormat::from_extension(""), None);
}

#[test]
fn paths_without_an_extension_have_no_format() {
    assert_eq!(AudioFormat::from_path(&format_test_path("flac")), None);
    assert_eq!(AudioFormat::from_path(&format_test_path(".flac")), None);
    assert_eq!(
        AudioFormat::from_path(&format_test_path("dir/.hidden.flac")),
        Some(AudioFormat::Flac)
    );
}
