use auralux::conversion::{
    build_output_path, check_output_free, ffmpeg_args, ffmpeg_command, plan_output_path, read_progress_line,
    sanitize_file_name, validate_safe_path, ConversionError, ConversionFormat,
    ConversionJobRequest, ConversionPreset, JobPhase, JobStatus, ProgressReading,
};

fn request(source: &str, format: ConversionFormat, quality: Option<&str>) -> ConversionJobRequest {
    ConversionJobRequest {
        source_path: source.into(),
        output_dir: "/tmp".into(),
        preset: ConversionPreset { format, quality: quality.map(|q| q.to_string()) },
        overwrite: true,
    }
}

#[test]
fn sanitizes_output_names() {
    assert_eq!(sanitize_file_name("a/b:c*"), "a_b_c_");
    assert_eq!(sanitize_file_name("..."), "untitled");
}

#[test]
fn builds_mp3_args() {
    let request = ConversionJobRequest {
        source_path: "in.flac".into(),
        output_dir: ".".into(),
        preset: ConversionPreset {
            format: ConversionFormat::Mp3,
            quality: None,
        },
        overwrite: true,
    };
    let args = ffmpeg_args(&request, &b"out.mp3".to_vec());
    assert!(args
        .windows(2)
        .any(|w| w[0] == "-c:a" && w[1] == "libmp3lame"));
}

#[test]
fn constructs_opus_conversion_arguments() {
    let request = ConversionJobRequest {
        source_path: "/music/source.flac".into(),
        output_dir: "/tmp".into(),
        preset: ConversionPreset {
            format: ConversionFormat::Opus,
            quality: Some("128k".into()),
        },
        overwrite: true,
    };

    let args = ffmpeg_args(&request, &b"/tmp/source.opus".to_vec());
    assert!(args
        .windows(2)
        .any(|pair| pair[0] == "-c:a" && pair[1] == "libopus"));
    assert!(args
        .windows(2)
        .any(|pair| pair[0] == "-b:a" && pair[1] == "128k"));
    assert!(args
        .windows(2)
        .any(|pair| pair[0] == "-progress" && pair[1] == "pipe:2"));
}

#[test]
fn sanitizes_unsafe_output_filename_parts() {
    assert_eq!(sanitize_file_name(" bad/name?.flac "), "bad_name_.flac");
    assert_eq!(sanitize_file_name("..."), "untitled");
}

#[test]
fn full_argument_lists_per_format() {
    let expect = |format, quality: Option<&str>, codec: &[&str]| {
        let args = ffmpeg_args(&request("in.wav", format, quality), &b"out".to_vec());
        let mut want = vec!["-hide_banner", "-y", "-i", "in.wav", "-vn"];
        want.extend_from_slice(codec);
        want.extend_from_slice(&["-progress", "pipe:2", "out"]);
        assert_eq!(args, want);
    };
    expect(ConversionFormat::Flac, None, &["-c:a", "flac"]);
    expect(ConversionFormat::Opus, None, &["-c:a", "libopus", "-b:a", "160k"]);
    expect(ConversionFormat::Mp3, Some("0"), &["-c:a", "libmp3lame", "-q:a", "0"]);
    expect(ConversionFormat::Mp3, None, &["-c:a", "libmp3lame", "-q:a", "2"]);
    expect(ConversionFormat::Aac, None, &["-c:a", "aac", "-b:a", "256k"]);
    expect(ConversionFormat::Alac, Some("ignored"), &["-c:a", "alac"]);
    expect(ConversionFormat::Wav, None, &["-c:a", "pcm_s16le"]);
}

#[test]
fn format_extensions() {
    assert_eq!(ConversionFormat::Flac.extension(), "flac");
    assert_eq!(ConversionFormat::Opus.extension(), "opus");
    assert_eq!(ConversionFormat::Mp3.extension(), "mp3");
    assert_eq!(ConversionFormat::Aac.extension(), "m4a");
    assert_eq!(ConversionFormat::Alac.extension(), "m4a");
    assert_eq!(ConversionFormat::Wav.extension(), "wav");
}

#[test]
fn reads_progress_lines() {
    assert_eq!(read_progress_line("progress=end", Some(10_000)), ProgressReading::Complete);
    assert_eq!(read_progress_line("progress=continue", Some(10_000)), ProgressReading::Unknown);
    assert_eq!(
        read_progress_line("out_time_ms=5000000", Some(10_000)),
        ProgressReading::Elapsed { micros: "5000000".into(), duration_ms: 10_000 }
    );
    assert_eq!(read_progress_line("out_time_ms=5000000", None), ProgressReading::Unknown);
    assert_eq!(read_progress_line("out_time_ms=5000000", Some(0)), ProgressReading::Unknown);
    assert_eq!(read_progress_line("out_time_ms=1500000", Some(-3)), ProgressReading::Unknown);
    assert_eq!(read_progress_line("speed=1.0x", Some(10_000)), ProgressReading::Unknown);
    assert_eq!(read_progress_line("", None), ProgressReading::Unknown);
}

#[test]
fn sanitizes_whitespace_dots_and_controls() {
    assert_eq!(sanitize_file_name("  a \t  b  "), "a _ b");
    assert_eq!(sanitize_file_name("a   b"), "a b");
    assert_eq!(sanitize_file_name("..hidden.."), "hidden");
    assert_eq!(sanitize_file_name("x<<>>y"), "x_y");
    assert_eq!(sanitize_file_name("\u{0}\u{1f}"), "_");
    assert_eq!(sanitize_file_name(""), "untitled");
    assert_eq!(sanitize_file_name("   "), "untitled");
    assert_eq!(sanitize_file_name("Ünïcödé\u{a0}name"), "Ünïcödé name");
    assert_eq!(sanitize_file_name(". a"), " a");
}

#[test]
fn output_paths() {
    let out = |source: &[u8], dir: &[u8], ext: &str| build_output_path(&source.to_vec(), &dir.to_vec(), ext);
    assert_eq!(out(b"/music/Song: One.flac", b"/out", "opus"), b"/out/Song_ One.opus");
    assert_eq!(out(b"/music/a.b.c", b"/out/", "mp3"), b"/out/a.b.mp3");
    assert_eq!(out(b"/music/..", b"out", "wav"), b"out/track.wav");
    assert_eq!(out(b"/music/.flac", b"", "wav"), b"flac.wav");
    assert_eq!(out(b"/music/\xff\xfe.flac", b"/out", "mp3"), b"/out/track.mp3");
    assert_eq!(out(b"/music/x.flac", b"/o\xff", "mp3"), b"/o\xff/x.mp3");
}

#[test]
fn conversion_checks() {
    assert_eq!(validate_safe_path(&Vec::new()), Err(ConversionError::EmptyPath));
    assert_eq!(validate_safe_path(&b"a".to_vec()), Ok(()));
    assert_eq!(ConversionError::EmptyPath.message(), "empty path");
    assert_eq!(
        check_output_free(&b"/o/x.mp3".to_vec(), true, false),
        Err(ConversionError::OutputExists { path: "/o/x.mp3".into() })
    );
    assert_eq!(
        ConversionError::OutputExists { path: "/o/x.mp3".into() }.message(),
        "output already exists: /o/x.mp3"
    );
    assert_eq!(
        ConversionError::OutputExists { path: b"/o/\xff.mp3".to_vec() }.message(),
        "output already exists: /o/\u{FFFD}.mp3"
    );
    assert_eq!(check_output_free(&b"/o/x.mp3".to_vec(), true, true), Ok(()));
    assert_eq!(check_output_free(&b"/o/x.mp3".to_vec(), false, false), Ok(()));
    let mut req = request("/music/in.flac", ConversionFormat::Flac, None);
    assert_eq!(plan_output_path(&req), Ok(b"/tmp/in.flac".to_vec()));
    req.source_path = Vec::new();
    assert_eq!(plan_output_path(&req), Err(ConversionError::EmptyPath));
}

#[test]
fn job_lifecycle() {
    let mut status = JobStatus::queued();
    assert_eq!(status.phase, JobPhase::Queued);
    assert_eq!(status.phase.name(), "queued");
    status.start();
    assert_eq!(status.phase.name(), "running");
    status.finish(Ok(()));
    assert_eq!(status.phase, JobPhase::Finished);
    assert_eq!(status.phase.name(), "finished");
    assert_eq!(status.message.as_deref(), Some("finished"));
    let mut failed = JobStatus::queued();
    failed.start();
    failed.finish(Err("ffmpeg exited with 1".into()));
    assert_eq!(failed.phase.name(), "failed");
    assert_eq!(failed.message.as_deref(), Some("ffmpeg exited with 1"));
}

#[test]
fn ffmpeg_arguments_show_paths_as_text() {
    let mut r = request("in.wav", ConversionFormat::Flac, None);
    r.source_path = b"/m/\xff.wav".to_vec();
    let args = ffmpeg_args(&r, &b"/o/\xfe.flac".to_vec());
    assert_eq!(args[3], "/m/\u{FFFD}.wav");
    assert_eq!(args.last().map(String::as_str), Some("/o/\u{FFFD}.flac"));
    assert_eq!(
        ffmpeg_command(&r.preset, "a.wav", "b.flac"),
        vec!["-hide_banner", "-y", "-i", "a.wav", "-vn", "-c:a", "flac", "-progress", "pipe:2", "b.flac"]
    );
}
