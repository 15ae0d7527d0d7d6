use auralux::metadata::{
    merge_probe, read_probe_output, track_from_tags, AudioProperties, MetadataReader, NewTrack,
    ProbeData, TagValues,
};

const REPORT: &str = r#"{
  "streams": [
    {"codec_type": "video", "codec_name": "mjpeg"},
    {"codec_type": "audio", "codec_name": "flac", "sample_rate": "44100", "channels": 2}
  ],
  "format": {"format_name": "flac", "duration": "215.320000", "bit_rate": "911712"}
}"#;

#[test]
fn reads_ffprobe_report() {
    let fields = read_probe_output(REPORT.as_bytes()).expect("valid json");
    assert_eq!(fields.duration_seconds.as_deref(), Some("215.320000"));
    assert_eq!(fields.format.as_deref(), Some("flac"));
    assert_eq!(fields.bitrate, Some(911712));
    assert_eq!(fields.codec.as_deref(), Some("flac"));
    assert_eq!(fields.sample_rate, Some(44100));
    assert_eq!(fields.channels, Some(2));
}

#[test]
fn reads_partial_ffprobe_reports() {
    assert!(read_probe_output(b"not json").is_none());
    let f = read_probe_output(br#"{"format": {"bit_rate": 128000, "duration": 3.5}}"#).unwrap();
    assert_eq!(f.bitrate, None);
    assert_eq!(f.duration_seconds, None);
    assert_eq!(f.codec, None);
    let g = read_probe_output(br#"{"streams": [{"codec_type": "audio", "channels": "2", "sample_rate": "x"}]}"#).unwrap();
    assert_eq!(g.channels, None);
    assert_eq!(g.sample_rate, None);
    assert_eq!(g.format, None);
    let h = read_probe_output(br#"[1, 2]"#).unwrap();
    assert!(h.format.is_none() && h.codec.is_none());
}

fn tags() -> TagValues {
    TagValues {
        title: Some("Glass Sea".into()),
        artist: None,
        album: Some("Refractions".into()),
        genre: Some("Ambient".into()),
        track: Some(1),
        disk: None,
    }
}

#[test]
fn builds_tracks_from_tags() {
    let props = AudioProperties { duration_ms: 123_000, bitrate: None, sample_rate: Some(48_000), channels: Some(2) };
    let t = track_from_tags(&b"/music/Song.FLAC".to_vec(), &Some(tags()), &Some(props), 42, 10);
    assert_eq!(t.title, "Glass Sea");
    assert_eq!(t.artist, "Unknown Artist");
    assert_eq!(t.album, "Refractions");
    assert_eq!(t.genre.as_deref(), Some("Ambient"));
    assert_eq!(t.track_number, Some(1));
    assert_eq!(t.disc_number, None);
    assert_eq!(t.duration_ms, Some(123_000));
    assert_eq!(t.format.as_deref(), Some("flac"));
    assert_eq!(t.sample_rate, Some(48_000));
    assert_eq!(t.channels, Some(2));
    assert_eq!((t.size_bytes, t.mtime), (42, 10));
    let bare = track_from_tags(&b"/music/Untagged.mp3".to_vec(), &None, &None, 1, 2);
    assert_eq!(bare.title, "Untagged");
    assert_eq!(bare.album, "Unknown Album");
    assert_eq!(bare.duration_ms, None);
    let nameless = track_from_tags(&b"/music/..".to_vec(), &None, &None, 1, 2);
    assert_eq!(nameless.title, "Unknown Title");
    assert_eq!(nameless.format, None);
    let raw = track_from_tags(&b"/music/\xff\xfe.Mp\xff".to_vec(), &None, &None, 1, 2);
    assert_eq!(raw.title, "Unknown Title");
    assert_eq!(raw.format, None);
    assert_eq!(raw.path, b"/music/\xff\xfe.Mp\xff".to_vec());
    let half = track_from_tags(&b"/m\xff/Caf\xc3\xa9.OGG".to_vec(), &None, &None, 1, 2);
    assert_eq!(half.title, "Caf\u{e9}");
    assert_eq!(half.format.as_deref(), Some("ogg"));
}

fn base_track() -> NewTrack {
    track_from_tags(&b"/music/a.ogg".to_vec(), &None, &Some(AudioProperties { duration_ms: 5, bitrate: Some(1), sample_rate: None, channels: None }), 0, 0)
}

#[test]
fn merges_probe_data() {
    let mut t = base_track();
    merge_probe(&mut t, ProbeData { duration_ms: Some(9), format: Some("ogg".into()), codec: Some("vorbis".into()), bitrate: None, sample_rate: Some(44_100), channels: None });
    assert_eq!(t.duration_ms, Some(5));
    assert_eq!(t.codec.as_deref(), Some("vorbis"));
    assert_eq!(t.bitrate, Some(1));
    assert_eq!(t.sample_rate, Some(44_100));
    let mut u = track_from_tags(&b"/music/b.ogg".to_vec(), &None, &None, 0, 0);
    merge_probe(&mut u, ProbeData { duration_ms: Some(9), format: None, codec: None, bitrate: None, sample_rate: None, channels: None });
    assert_eq!(u.duration_ms, Some(9));
    assert_eq!(u.format.as_deref(), Some("ogg"));
}

#[test]
fn metadata_reader_keeps_ffprobe() {
    assert_eq!(MetadataReader::new(Some(b"/bin/ffprobe".to_vec())).ffprobe_path().as_deref(), Some(&b"/bin/ffprobe"[..]));
    assert!(MetadataReader::new(None).ffprobe_path().is_none());
}
