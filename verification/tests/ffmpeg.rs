use flacser::audio_format::AudioFormat;
use flacser::config::Config;
use flacser::ffmpeg::{
    AudioSample, CodecError, ToolRun, VersionError, check_availability, converter_result,
    ffmpeg_args, is_needed, job_codec, missing_tool_message, parse_audio_sample, parse_bits,
    pcm_codec_for, probe_is_needed, probe_result, probe_version, read_version,
};
use flacser::path::FsPath;
use flacser::plan::ConversionJob;

fn ffmpeg_test_path(text: &str) -> FsPath {
    FsPath::parse(&text.as_bytes().to_vec())
}

fn job(target_format: AudioFormat) -> ConversionJob {
    ConversionJob {
        input: ffmpeg_test_path("input.flac"),
        output: ffmpeg_test_path("output"),
        source_format: AudioFormat::Flac,
        target_format,
    }
}

fn command_args(job: &ConversionJob, output: &str, codec: Option<&str>) -> Vec<String> {
    ffmpeg_args(job, &ffmpeg_test_path(output), codec)
        .iter()
        .map(|arg| arg.text())
        .collect()
}

fn run_config(dry_run: bool) -> Config {
    Config {
        input_path: ffmpeg_test_path("music"),
        output_dir: None,
        dry_run,
        recursive: false,
        flatten: false,
        jobs: 1,
        target_format: AudioFormat::Aiff,
    }
}

#[test]
fn builds_flac_codec_args() {
    let args = command_args(&job(AudioFormat::Flac), "out.flac", None);

    assert!(args.windows(2).any(|args| args == ["-map", "0"]));
    assert!(args.windows(2).any(|args| args == ["-c:a", "flac"]));
    assert!(!args.windows(2).any(|args| args == ["-write_id3v2", "1"]));
    assert_eq!(args.last().map(String::as_str), Some("out.flac"));
}

#[test]
fn builds_aiff_args_with_resolved_pcm_codec() {
    let args = command_args(&job(AudioFormat::Aiff), "out.aiff", Some("pcm_s24be"));

    assert!(args.windows(2).any(|args| args == ["-map", "0"]));
    assert!(args.windows(2).any(|args| args == ["-c:a", "pcm_s24be"]));
    assert!(args.windows(2).any(|args| args == ["-write_id3v2", "1"]));
    assert_eq!(args.last().map(String::as_str), Some("out.aiff"));
}

#[test]
fn builds_wav_args_with_resolved_pcm_codec_and_audio_only_mapping() {
    let args = command_args(&job(AudioFormat::Wav), "out.wav", Some("pcm_s32le"));

    assert!(args.windows(2).any(|args| args == ["-map", "0:a:0"]));
    assert!(args.windows(2).any(|args| args == ["-map_metadata", "0"]));
    assert!(args.windows(2).any(|args| args == ["-c:a", "pcm_s32le"]));
    assert!(!args.windows(2).any(|args| args == ["-map", "0"]));
    assert!(!args.windows(2).any(|args| args == ["-write_id3v2", "1"]));
    assert_eq!(args.last().map(String::as_str), Some("out.wav"));
}

#[test]
fn converter_args_are_complete_and_in_order() {
    let args = command_args(&job(AudioFormat::Aiff), "dir/out.aiff", Some("pcm_s16be"));
    assert_eq!(
        args,
        vec![
            "-nostdin", "-i", "input.flac", "-map", "0", "-c:a", "pcm_s16be", "-write_id3v2",
            "1", "-y", "-loglevel", "error", "dir/out.aiff",
        ]
    );
}

#[test]
fn parses_probe_output_using_raw_bits_first() {
    let sample = parse_audio_sample("sample_fmt=s32\nbits_per_sample=32\nbits_per_raw_sample=24\n");

    assert_eq!(
        sample,
        AudioSample {
            sample_fmt: Some("s32".to_string()),
            bits: Some(24),
        }
    );
}

#[test]
fn parses_probe_output_ignoring_missing_zero_and_na_bits() {
    let sample = parse_audio_sample("sample_fmt=s16\nbits_per_sample=0\nbits_per_raw_sample=N/A\n");

    assert_eq!(
        sample,
        AudioSample {
            sample_fmt: Some("s16".to_string()),
            bits: None,
        }
    );
}

#[test]
fn probe_output_falls_back_to_sample_bits_and_trims() {
    let sample = parse_audio_sample(" sample_fmt = fltp \r\nbits_per_sample= 16\nnoise\nother=1\n");
    assert_eq!(
        sample,
        AudioSample {
            sample_fmt: Some("fltp".to_string()),
            bits: Some(16),
        }
    );
}

#[test]
fn probe_output_ignores_na_sample_format() {
    let sample = parse_audio_sample("sample_fmt=N/A\nsample_fmt=\n");
    assert_eq!(sample, AudioSample { sample_fmt: None, bits: None });
}

#[test]
fn parse_bits_accepts_positive_u16_only() {
    assert_eq!(parse_bits("24"), Some(24));
    assert_eq!(parse_bits(" 8 "), Some(8));
    assert_eq!(parse_bits("+16"), Some(16));
    assert_eq!(parse_bits("0"), None);
    assert_eq!(parse_bits("65535"), Some(65535));
    assert_eq!(parse_bits("65536"), None);
    assert_eq!(parse_bits("-1"), None);
    assert_eq!(parse_bits("N/A"), None);
    assert_eq!(parse_bits(""), None);
}

#[test]
fn maps_integer_pcm_without_downconverting() {
    for (format, bits, codec) in [
        (AudioFormat::Wav, 8, "pcm_u8"),
        (AudioFormat::Wav, 16, "pcm_s16le"),
        (AudioFormat::Wav, 20, "pcm_s24le"),
        (AudioFormat::Wav, 32, "pcm_s32le"),
        (AudioFormat::Aiff, 8, "pcm_s8"),
        (AudioFormat::Aiff, 16, "pcm_s16be"),
        (AudioFormat::Aiff, 20, "pcm_s24be"),
        (AudioFormat::Aiff, 32, "pcm_s32be"),
    ] {
        let sample = AudioSample {
            sample_fmt: Some("s32".to_string()),
            bits: Some(bits),
        };

        assert_eq!(pcm_codec_for(format, &sample).unwrap(), codec);
    }
}

#[test]
fn maps_float_pcm_from_sample_format() {
    for (format, sample_fmt, codec) in [
        (AudioFormat::Wav, "flt", "pcm_f32le"),
        (AudioFormat::Wav, "fltp", "pcm_f32le"),
        (AudioFormat::Wav, "dbl", "pcm_f64le"),
        (AudioFormat::Wav, "dblp", "pcm_f64le"),
        (AudioFormat::Aiff, "flt", "pcm_f32be"),
        (AudioFormat::Aiff, "fltp", "pcm_f32be"),
        (AudioFormat::Aiff, "dbl", "pcm_f64be"),
        (AudioFormat::Aiff, "dblp", "pcm_f64be"),
    ] {
        let sample = AudioSample {
            sample_fmt: Some(sample_fmt.to_string()),
            bits: Some(16),
        };

        assert_eq!(pcm_codec_for(format, &sample).unwrap(), codec);
    }
}

#[test]
fn rejects_unknown_pcm_depth() {
    let sample = AudioSample {
        sample_fmt: Some("s64".to_string()),
        bits: Some(64),
    };

    let error = pcm_codec_for(AudioFormat::Wav, &sample).expect_err("64-bit int should fail");
    assert!(error.message().contains("unsupported PCM bit depth"));
}

#[test]
fn codec_errors_for_missing_depth_and_flac_target() {
    let no_bits = AudioSample { sample_fmt: None, bits: None };
    assert_eq!(pcm_codec_for(AudioFormat::Aiff, &no_bits), Err(CodecError::NoBitDepth));
    let sixteen = AudioSample { sample_fmt: None, bits: Some(16) };
    assert_eq!(pcm_codec_for(AudioFormat::Flac, &sixteen), Err(CodecError::NotPcmTarget));
    let float = AudioSample { sample_fmt: Some("flt".to_string()), bits: None };
    assert_eq!(pcm_codec_for(AudioFormat::Flac, &float), Err(CodecError::NoBitDepth));
    assert_eq!(
        CodecError::UnsupportedDepth(64).message(),
        "unsupported PCM bit depth: 64"
    );
}

#[test]
fn version_is_the_trimmed_first_line() {
    let run = ToolRun::Exited {
        success: true,
        status: "exit status: 0".to_string(),
        stdout: b"  ffmpeg version 7.1 Copyright  \r\nbuilt with gcc\n".to_vec(),
    };
    assert_eq!(
        read_version("ffmpeg", run).unwrap(),
        "ffmpeg version 7.1 Copyright"
    );
}

#[test]
fn version_errors_describe_what_went_wrong() {
    let spawn = read_version(
        "ffmpeg",
        ToolRun::SpawnFailed { error: "No such file or directory".to_string() },
    )
    .unwrap_err();
    assert!(spawn.spawn_failed);
    assert_eq!(spawn.message, "failed to run ffmpeg -version: No such file or directory");

    let status = read_version(
        "ffprobe",
        ToolRun::Exited { success: false, status: "exit status: 42".to_string(), stdout: Vec::new() },
    )
    .unwrap_err();
    assert!(!status.spawn_failed);
    assert_eq!(status.message, "ffprobe -version exited with status exit status: 42");

    let empty = read_version(
        "ffmpeg",
        ToolRun::Exited { success: true, status: String::new(), stdout: b"   \nmore".to_vec() },
    )
    .unwrap_err();
    assert_eq!(empty.message, "ffmpeg version output was empty");

    let binary = read_version(
        "ffmpeg",
        ToolRun::Exited { success: true, status: String::new(), stdout: vec![0xff, 0xfe] },
    )
    .unwrap_err();
    assert!(binary.message.starts_with("ffmpeg version output is not UTF-8: "));
    assert!(binary.message.len() > "ffmpeg version output is not UTF-8: ".len());
}

#[test]
fn version_probe_counts_a_started_program_as_found() {
    let found = probe_version(Ok("ffmpeg version 6".to_string()));
    assert!(found.executable_found);
    assert_eq!(found.version, Ok("ffmpeg version 6".to_string()));

    let broken = probe_version(Err(VersionError { spawn_failed: false, message: "bad".to_string() }));
    assert!(broken.executable_found);
    assert_eq!(broken.version, Err("bad".to_string()));

    let missing = probe_version(Err(VersionError { spawn_failed: true, message: "gone".to_string() }));
    assert!(!missing.executable_found);
}

#[test]
fn converter_is_needed_only_for_missing_outputs_outside_dry_runs() {
    let jobs = vec![job(AudioFormat::Aiff), job(AudioFormat::Flac)];
    assert!(is_needed(&run_config(false), &jobs, &vec![true, false]));
    assert!(!is_needed(&run_config(false), &jobs, &vec![true, true]));
    assert!(!is_needed(&run_config(true), &jobs, &vec![false, false]));
    assert!(!is_needed(&run_config(false), &Vec::new(), &Vec::new()));
}

#[test]
fn prober_is_needed_only_for_pcm_targets() {
    let jobs = vec![job(AudioFormat::Aiff), job(AudioFormat::Flac)];
    assert!(!probe_is_needed(&run_config(false), &jobs, &vec![true, false]));
    assert!(probe_is_needed(&run_config(false), &jobs, &vec![false, true]));
    assert!(!probe_is_needed(&run_config(true), &jobs, &vec![false, false]));
    let wav = vec![job(AudioFormat::Wav)];
    assert!(probe_is_needed(&run_config(false), &wav, &Vec::new()));
}

#[test]
fn probe_result_parses_successful_output() {
    let sample = probe_result(
        &ffmpeg_test_path("in.flac"),
        ToolRun::Exited {
            success: true,
            status: "exit status: 0".to_string(),
            stdout: b"sample_fmt=s16\nbits_per_raw_sample=16\n".to_vec(),
        },
    )
    .unwrap();
    assert_eq!(sample, AudioSample { sample_fmt: Some("s16".to_string()), bits: Some(16) });
}

#[test]
fn probe_result_errors_name_the_input() {
    let spawn = probe_result(
        &ffmpeg_test_path("a b/in.flac"),
        ToolRun::SpawnFailed { error: "not found".to_string() },
    );
    assert_eq!(spawn, Err("failed to spawn ffprobe for a b/in.flac: not found".to_string()));
    let status = probe_result(
        &ffmpeg_test_path("in.flac"),
        ToolRun::Exited { success: false, status: "exit status: 1".to_string(), stdout: Vec::new() },
    );
    assert_eq!(
        status,
        Err("ffprobe exited with status exit status: 1 for input in.flac".to_string())
    );
    let binary = probe_result(
        &ffmpeg_test_path("in.flac"),
        ToolRun::Exited { success: true, status: String::new(), stdout: vec![0xc3] },
    )
    .unwrap_err();
    assert!(binary.starts_with("ffprobe output is not UTF-8 for in.flac: "));
}

#[test]
fn job_codec_wraps_codec_errors_with_the_input() {
    let unknown = AudioSample { sample_fmt: Some("s64".to_string()), bits: Some(64) };
    assert_eq!(
        job_codec(&job(AudioFormat::Wav), &unknown),
        Err("could not determine PCM bit depth for input.flac: unsupported PCM bit depth: 64".to_string())
    );
    let fine = AudioSample { sample_fmt: Some("s32".to_string()), bits: Some(24) };
    assert_eq!(job_codec(&job(AudioFormat::Aiff), &fine), Ok("pcm_s24be"));
}

#[test]
fn converter_result_reports_spawn_and_exit_failures() {
    let input = ffmpeg_test_path("music/in.flac");
    assert_eq!(
        converter_result(&input, ToolRun::Exited { success: true, status: String::new(), stdout: Vec::new() }),
        Ok(())
    );
    assert_eq!(
        converter_result(&input, ToolRun::Exited { success: false, status: "signal: 9".to_string(), stdout: Vec::new() }),
        Err("ffmpeg exited with status signal: 9 for input music/in.flac".to_string())
    );
    assert_eq!(
        converter_result(&input, ToolRun::SpawnFailed { error: "denied".to_string() }),
        Err("failed to spawn ffmpeg for music/in.flac: denied".to_string())
    );
}

#[test]
fn missing_converter_message_has_install_instructions() {
    let message = missing_tool_message("ffprobe");
    assert!(message.starts_with("ffprobe not found.\n\nInstall it with:\n"));
    assert!(message.contains("brew install ffmpeg"));
    assert_eq!(check_availability(&Ok("ffmpeg version 7".to_string())), Ok(()));
    let missing = check_availability(&Err(VersionError { spawn_failed: true, message: "x".to_string() }))
        .unwrap_err();
    assert!(missing.starts_with("ffmpeg not found."));
    assert!(missing.contains("sudo apt install ffmpeg"));
}

#[test]
fn prober_args_ask_for_the_first_audio_stream() {
    let args: Vec<String> = flacser::ffmpeg::ffprobe_args(&ffmpeg_test_path("dir/in.flac"))
        .iter()
        .map(|arg| arg.text())
        .collect();
    assert_eq!(
        args,
        vec![
            "-v",
            "error",
            "-select_streams",
            "a:0",
            "-show_entries",
            "stream=sample_fmt,bits_per_raw_sample,bits_per_sample",
            "-of",
            "default=noprint_wrappers=1",
            "dir/in.flac",
        ]
    );
}
