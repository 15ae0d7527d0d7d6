use auralux::playback::{escape_mpv_string, load_commands, LoadRequest, PlaybackStatus, TransportCommand};

#[test]
fn escapes_mpv_strings() {
    assert_eq!(escape_mpv_string(r#"C:\Music\"Live".flac"#), r#"C:\\Music\\\"Live\".flac"#);
    assert_eq!(escape_mpv_string("plain"), "plain");
}

#[test]
fn load_commands_and_state() {
    let play = LoadRequest { path: b"/m/a \"b\".flac".to_vec(), play: true };
    assert_eq!(load_commands(&play), vec![r#"loadfile "/m/a \"b\".flac" replace"#]);
    let raw = LoadRequest { path: b"/m/\xff.ogg".to_vec(), play: true };
    assert_eq!(load_commands(&raw), vec!["loadfile \"/m/\u{FFFD}.ogg\" replace"]);
    let paused = LoadRequest { path: b"/m/x.mp3".to_vec(), play: false };
    assert_eq!(load_commands(&paused), vec![r#"loadfile "/m/x.mp3" replace"#, "set pause yes"]);
    let mut status = PlaybackStatus::new();
    assert!(!status.playing && status.loaded_path.is_none());
    status.after_load(paused);
    assert_eq!(status.loaded_path.as_deref(), Some(&b"/m/x.mp3"[..]));
    assert!(!status.playing);
}

#[test]
fn transport_commands() {
    assert_eq!(TransportCommand::Play.mpv_line(), "set pause no");
    assert_eq!(TransportCommand::Pause.mpv_line(), "set pause yes");
    assert_eq!(TransportCommand::Toggle.mpv_line(), "cycle pause");
    assert_eq!(TransportCommand::Stop.mpv_line(), "stop");
    let mut status = PlaybackStatus::new();
    status.after_transport(TransportCommand::Toggle);
    assert!(status.playing);
    status.after_transport(TransportCommand::Toggle);
    assert!(!status.playing);
    status.after_transport(TransportCommand::Play);
    assert!(status.playing);
    status.after_transport(TransportCommand::Stop);
    assert!(!status.playing);
}
