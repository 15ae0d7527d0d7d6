use auralux::capabilities::{
    ffmpeg_list_from_output, first_line_trimmed, found_tool, missing, parse_ffmpeg_list,
    CodecCapabilities,
};

const DECODERS: &str = "Decoders:
 V..... = Video
 A..... = Audio
 ------
 A....D aac                  AAC (Advanced Audio Coding)
 A....D flac                 FLAC (Free Lossless Audio Codec)
 ......  nothing
 A
";

#[test]
fn parses_ffmpeg_decoder_listing() {
    assert_eq!(parse_ffmpeg_list(DECODERS), vec!["=", "=", "aac", "flac"]);
    assert!(parse_ffmpeg_list("").is_empty());
    assert_eq!(ffmpeg_list_from_output(None), Vec::<String>::new());
    assert_eq!(ffmpeg_list_from_output(Some(" DE mp3 MP3 (MPEG audio layer 3)\n".into())), vec!["mp3"]);
}

#[test]
fn short_lines_are_counted_in_bytes() {
    // Seven bytes: too short. Eight bytes: long enough.
    assert!(parse_ffmpeg_list("A.. xyz").is_empty());
    assert_eq!(parse_ffmpeg_list("A.. wxyz"), vec!["wxyz"]);
    // Five characters but eight bytes.
    assert_eq!(parse_ffmpeg_list("A é€x"), vec!["é€x"]);
    // A flag letter must be ASCII.
    assert!(parse_ffmpeg_list("Ä é€x").is_empty());
}

#[test]
fn tool_information() {
    let m = missing("mpv");
    assert_eq!(m.name, "mpv");
    assert!(m.path.is_none() && m.version.is_none() && !m.available);
    let t = found_tool("ffmpeg", b"/usr/bin/ffmpeg".to_vec(), Some("  ffmpeg version 6.1 Copyright\nmore\n".into()));
    assert_eq!(t.version.as_deref(), Some("ffmpeg version 6.1 Copyright"));
    assert!(t.available);
    assert_eq!(t.path.as_deref(), Some(&b"/usr/bin/ffmpeg"[..]));
    let silent = found_tool("mpv", b"/usr/bin/mpv".to_vec(), Some(String::new()));
    assert!(silent.version.is_none());
    assert_eq!(first_line_trimmed("\n second"), Some(String::new()));
}

#[test]
fn capability_sets() {
    let e = CodecCapabilities::empty();
    assert_eq!(e.ffmpeg.name, "ffmpeg");
    assert_eq!(e.ffprobe.name, "ffprobe");
    assert_eq!(e.mpv.name, "mpv");
    assert_eq!(e.android_codec_pack, "not_applicable");
    assert!(e.decoders.is_empty() && e.encoders.is_empty() && e.muxers.is_empty() && e.demuxers.is_empty());
    let mut c = CodecCapabilities::from_tools(missing("ffmpeg"), missing("ffprobe"), missing("mpv"), true);
    assert_eq!(c.android_codec_pack, "bundled_required");
    c.set_ffmpeg_lists(vec!["a".into()], vec!["b".into()], vec!["c".into()], vec!["d".into()]);
    assert_eq!(c.decoders, vec!["a"]);
    assert_eq!(c.demuxers, vec!["d"]);
}
