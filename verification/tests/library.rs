use auralux::db::{fts_query, job_list_limit, plan_track_listing, TrackQuery};
use auralux::imports::{import_candidate_name, sanitize_upload_file_name};
use auralux::open_files::{PendingOpenFiles, file_url_path, is_supported_audio, path_from_arg, path_from_url_arg, paths_from_cli_args, resolve_arg, unique_supported_paths};
use auralux::scanner::{
    check_import, default_audio_extensions, is_supported, is_unchanged_signature, FileAction,
    ImportRefusal, ScanSummary,
};
use auralux::settings::{resolve_data_dir, AuraluxPaths};

#[test]
fn builds_fts_queries() {
    assert_eq!(fts_query("Glass"), "\"Glass\"*");
    assert_eq!(fts_query("  glass  sea "), "\"glass\"* \"sea\"*");
    assert_eq!(fts_query("say \"hi\""), "\"say\"* \"\"\"hi\"\"\"*");
    assert_eq!(fts_query(""), "");
}

#[test]
fn plans_track_listings() {
    let q = TrackQuery { search: Some("Glass".into()), ..Default::default() };
    let l = plan_track_listing(&q);
    assert_eq!(l.fts_match.as_deref(), Some("\"Glass\"*"));
    assert_eq!((l.limit, l.offset), (100, 0));
    let blank = plan_track_listing(&TrackQuery { search: Some("  ".into()), limit: 10_000, offset: 7 });
    assert!(blank.fts_match.is_none());
    assert_eq!((blank.limit, blank.offset), (500, 7));
    assert_eq!(job_list_limit(50), 50);
    assert_eq!(job_list_limit(1000), 200);
}

#[test]
fn supported_extensions() {
    let exts = default_audio_extensions();
    assert_eq!(exts.len(), 25);
    assert!(is_supported(&b"/m/a.FLAC".to_vec(), &exts));
    assert!(is_supported(&b"/m/a.cue".to_vec(), &exts));
    assert!(!is_supported(&b"/m/a.txt".to_vec(), &exts));
    assert!(!is_supported(&b"/m/flac".to_vec(), &exts));
    assert!(is_supported(&b"/m/\xff.mp3".to_vec(), &exts));
    assert!(!is_supported(&b"/m/a.mp\xff".to_vec(), &exts));
    assert!(is_supported_audio(&b"/m/A.Mp3".to_vec()));
    assert!(!is_supported_audio(&b"/m/a.cue".to_vec()));
    assert!(!is_supported_audio(&b"/m/.opus".to_vec()));
    assert!(!is_supported_audio(&b"/m/a.fl\xffac".to_vec()));
}

#[test]
fn scan_tally_and_signatures() {
    let mut s = ScanSummary::new();
    s.record_walk_error();
    assert_eq!(s.begin_file(false, Some((42, 10)), 42, 10), FileAction::Skip);
    assert_eq!(s.begin_file(false, Some((42, 10)), 43, 10), FileAction::Read);
    s.record_imported();
    assert_eq!(s.begin_file(true, Some((42, 10)), 42, 10), FileAction::Read);
    s.record_read_error();
    assert_eq!(s.begin_file(false, None, 42, 10), FileAction::Read);
    s.record_imported();
    assert_eq!((s.scanned, s.imported, s.skipped, s.errors), (4, 2, 1, 2));
    assert!(is_unchanged_signature(Some((42, 10)), 42, 10));
    assert!(!is_unchanged_signature(Some((42, 10)), 42, 11));
    assert!(!is_unchanged_signature(None, 42, 10));
}

#[test]
fn import_checks() {
    let exts = default_audio_extensions();
    assert_eq!(check_import(&b"/m/a.mp3".to_vec(), false, &exts), Err(ImportRefusal::NotAFile));
    assert_eq!(check_import(&b"/m/a.doc".to_vec(), true, &exts), Err(ImportRefusal::UnsupportedExtension));
    assert_eq!(check_import(&b"/m/a.mp3".to_vec(), true, &exts), Ok(()));
}

#[test]
fn data_paths() {
    assert_eq!(resolve_data_dir(Some(b"/d".to_vec()), Some(b"/p".to_vec())), b"/d");
    assert_eq!(resolve_data_dir(None, Some(b"/p".to_vec())), b"/p");
    assert_eq!(resolve_data_dir(None, None), b".auralux");
    let p = AuraluxPaths::for_data_dir(b"/data".to_vec());
    assert_eq!(p.database_path, b"/data/library.db");
    assert_eq!(p.data_dir, b"/data");
    assert_eq!(AuraluxPaths::for_data_dir(b"/d\xfe/".to_vec()).database_path, b"/d\xfe/library.db");
}

#[test]
fn upload_names() {
    assert_eq!(sanitize_upload_file_name("../../etc/passwd"), "passwd");
    assert_eq!(sanitize_upload_file_name("My Song?.mp3"), "My Song_.mp3");
    assert_eq!(sanitize_upload_file_name("..."), "track");
    assert_eq!(sanitize_upload_file_name(""), "track");
    assert_eq!(import_candidate_name("song.mp3", 0), "song.mp3");
    assert_eq!(import_candidate_name("song.mp3", 1), "song-1.mp3");
    assert_eq!(import_candidate_name("song", 12), "song-12");
    assert_eq!(import_candidate_name("a.b.flac", 305), "a.b-305.flac");
}

fn b(s: &str) -> Vec<u8> {
    s.as_bytes().to_vec()
}

#[test]
fn open_file_arguments() {
    assert_eq!(path_from_url_arg("file:///home/me/a%20b.flac"), Some(b("/home/me/a b.flac")));
    assert_eq!(path_from_url_arg("file:///tmp/%FF.mp3"), Some(b"/tmp/\xff.mp3".to_vec()));
    assert_eq!(path_from_url_arg("https://example.com/a.flac"), None);
    assert_eq!(path_from_url_arg("not a url"), None);
    assert_eq!(file_url_path(Some("file".into()), Some(b("/x"))), Some(b("/x")));
    assert_eq!(file_url_path(Some("http".into()), Some(b("/x"))), None);
    assert_eq!(resolve_arg(&b("rel.mp3"), Some(&b("/cwd")), None), Some(b("/cwd/rel.mp3")));
    assert_eq!(resolve_arg(&b("rel.mp3"), None, Some(b("/u"))), Some(b("/u")));
    assert_eq!(resolve_arg(&b("/abs.mp3"), Some(&b("/cwd")), Some(b("/u"))), Some(b("/abs.mp3")));
    assert_eq!(path_from_arg(&b("rel.mp3"), None), None);
    assert_eq!(path_from_arg(&b"r\xff.mp3".to_vec(), Some(&b("/w"))), Some(b"/w/r\xff.mp3".to_vec()));
    assert_eq!(path_from_arg(&b("file:///c.ogg"), Some(&b("/w"))), Some(b("/c.ogg")));
    let args: Vec<Vec<u8>> = vec![b("auralux"), b("/a.mp3"), b("b.flac"), b("file:///c.ogg")];
    assert_eq!(paths_from_cli_args(&args, Some("/w".into())), vec![b("/a.mp3"), b("/w/b.flac"), b("/c.ogg")]);
    assert_eq!(paths_from_cli_args(&args, Some("  ".into())), vec![b("/a.mp3"), b("/c.ogg")]);
    assert!(paths_from_cli_args(&Vec::new(), None).is_empty());
    let kept = unique_supported_paths(vec![b("/a.mp3"), b("/b.txt"), b("/a.mp3"), b("/c.FLAC")]);
    assert_eq!(kept, vec![b("/a.mp3"), b("/c.FLAC")]);
    let same = unique_supported_paths(vec![
        b("/a.mp3"), b("//a.mp3"), b("/x/./b.ogg"), b("/x/b.ogg/"), b("./c.wv"), b("c.wv"),
    ]);
    assert_eq!(same, vec![b("/a.mp3"), b("/x/./b.ogg"), b("./c.wv"), b("c.wv")]);
}

#[test]
fn pending_open_files_queue_and_drain() {
    let mut pending = PendingOpenFiles::new();
    assert!(!pending.queue_open_files(vec![b("/notes.txt")]));
    assert!(pending.queue_open_files(vec![b("/a.mp3"), b("/a.mp3"), b("/b.wv")]));
    assert!(pending.queue_open_files(vec![b("/a.mp3")]));
    assert!(pending.queue_open_files(vec![b"/\xff.ogg".to_vec()]));
    assert_eq!(pending.drain(), vec!["/a.mp3", "/b.wv", "/a.mp3", "/\u{FFFD}.ogg"]);
    assert!(pending.drain().is_empty());
}
