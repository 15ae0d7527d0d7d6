//! Library scanning: which files are audio, when a file needs importing again, and the tally of
//! a scan.
use vstd::prelude::*;
use crate::os_paths::{dot, extension, extension_spec, join_spec, lemma_named_file, slash};
use crate::text::{
    ascii_lower_str, lemma_text_extension_bytes, to_ascii_lowercase, to_str_spec, utf8_text,
};
use vstd::utf8::encode_utf8;

verus! {

/// A scan of the given root folders; `force` imports files even when they look unchanged.
#[derive(Debug)]
pub struct ScanRequest {
    pub roots: Vec<Vec<u8>>,
    pub force: bool,
}

/// The tally of a scan: audio files seen, imported, skipped as unchanged, and errors met (while
/// walking the folders or reading a file).
#[derive(Debug, Default)]
pub struct ScanSummary {
    pub scanned: usize,
    pub imported: usize,
    pub skipped: usize,
    pub errors: usize,
}

/// The extensions of the audio files that the scanner imports, in lower case.
pub open spec fn audio_extensions() -> Seq<Seq<char>> {
    seq![
        "aac"@, "aif"@, "aiff"@, "alac"@, "ape"@, "caf"@, "cue"@, "dff"@, "dsf"@, "flac"@,
        "m4a"@, "mka"@, "mp2"@, "mp3"@, "mp4"@, "mpc"@, "oga"@, "ogg"@, "opus"@, "tak"@,
        "tta"@, "wav"@, "weba"@, "wma"@, "wv"@,
    ]
}

/// The extensions of the audio files that the scanner imports.
pub fn default_audio_extensions() -> (r: Vec<String>)
    ensures
        r@.map_values(|s: String| s@) == audio_extensions(),
{
    let mut r: Vec<String> = Vec::new();
    r.push(String::from_str("aac"));
    r.push(String::from_str("aif"));
    r.push(String::from_str("aiff"));
    r.push(String::from_str("alac"));
    r.push(String::from_str("ape"));
    r.push(String::from_str("caf"));
    r.push(String::from_str("cue"));
    r.push(String::from_str("dff"));
    r.push(String::from_str("dsf"));
    r.push(String::from_str("flac"));
    r.push(String::from_str("m4a"));
    r.push(String::from_str("mka"));
    r.push(String::from_str("mp2"));
    r.push(String::from_str("mp3"));
    r.push(String::from_str("mp4"));
    r.push(String::from_str("mpc"));
    r.push(String::from_str("oga"));
    r.push(String::from_str("ogg"));
    r.push(String::from_str("opus"));
    r.push(String::from_str("tak"));
    r.push(String::from_str("tta"));
    r.push(String::from_str("wav"));
    r.push(String::from_str("weba"));
    r.push(String::from_str("wma"));
    r.push(String::from_str("wv"));
    assert(r@.map_values(|s: String| s@) =~= audio_extensions());
    r
}

/// Whether a path names a file whose extension is UTF-8 text and one of the extensions, compared
/// in ASCII lower case.
pub open spec fn has_listed_extension(path: Seq<u8>, extensions: Seq<Seq<char>>) -> bool {
    match extension_spec(path) {
        Some(e) => match to_str_spec(e) {
            Some(text) => extensions.contains(ascii_lower_str(text)),
            None => false,
        },
        None => false,
    }
}

/// The scanner's audio extensions are exactly these 25 lower-case names.
pub proof fn lemma_audio_extensions(e: Seq<char>)
    ensures
        audio_extensions().contains(e) <==> (
            e == "aac"@ || e == "aif"@ || e == "aiff"@ || e == "alac"@ || e == "ape"@ ||
                e == "caf"@ || e == "cue"@ || e == "dff"@ || e == "dsf"@ || e == "flac"@ ||
                e == "m4a"@ || e == "mka"@ || e == "mp2"@ || e == "mp3"@ || e == "mp4"@ ||
                e == "mpc"@ || e == "oga"@ || e == "ogg"@ || e == "opus"@ || e == "tak"@ ||
                e == "tta"@ || e == "wav"@ || e == "weba"@ || e == "wma"@ || e == "wv"@
        ),
{
    let x = audio_extensions();
    assert(x.len() == 25);
    assert(x[0] == "aac"@);
    assert(x[1] == "aif"@);
    assert(x[2] == "aiff"@);
    assert(x[3] == "alac"@);
    assert(x[4] == "ape"@);
    assert(x[5] == "caf"@);
    assert(x[6] == "cue"@);
    assert(x[7] == "dff"@);
    assert(x[8] == "dsf"@);
    assert(x[9] == "flac"@);
    assert(x[10] == "m4a"@);
    assert(x[11] == "mka"@);
    assert(x[12] == "mp2"@);
    assert(x[13] == "mp3"@);
    assert(x[14] == "mp4"@);
    assert(x[15] == "mpc"@);
    assert(x[16] == "oga"@);
    assert(x[17] == "ogg"@);
    assert(x[18] == "opus"@);
    assert(x[19] == "tak"@);
    assert(x[20] == "tta"@);
    assert(x[21] == "wav"@);
    assert(x[22] == "weba"@);
    assert(x[23] == "wma"@);
    assert(x[24] == "wv"@);
    if x.contains(e) {
        let k = choose|k: int| 0 <= k < x.len() && x[k] == e;
        assert(k == 0 || k == 1 || k == 2 || k == 3 || k == 4 || k == 5 || k == 6 || k == 7 || k == 8 || k == 9 || k == 10 || k == 11 || k == 12 || k == 13 || k == 14 || k == 15 || k == 16 || k == 17 || k == 18 || k == 19 || k == 20 || k == 21 || k == 22 || k == 23 || k == 24);
    }
}

/// A file named `stem.ext` in any directory is scanned exactly when its extension, in ASCII lower
/// case, is one of the scanner's 25 audio extensions (so `a.wav` and `a.WAV` are).
pub proof fn lemma_scanned_file(dir: Seq<u8>, stem: Seq<u8>, ext: Seq<char>)
    requires
        stem.len() > 0,
        forall|i: int| 0 <= i < stem.len() ==> #[trigger] stem[i] != slash(),
        ext.len() > 0,
        forall|i: int| 0 <= i < ext.len() ==> #[trigger] ext[i] != '/' && ext[i] != '.',
    ensures
        has_listed_extension(
            join_spec(dir, stem + seq![dot()] + encode_utf8(ext)),
            audio_extensions(),
        ) <==> (
            ascii_lower_str(ext) == "aac"@ || ascii_lower_str(ext) == "aif"@ ||
                ascii_lower_str(ext) == "aiff"@ || ascii_lower_str(ext) == "alac"@ ||
                ascii_lower_str(ext) == "ape"@ || ascii_lower_str(ext) == "caf"@ ||
                ascii_lower_str(ext) == "cue"@ || ascii_lower_str(ext) == "dff"@ ||
                ascii_lower_str(ext) == "dsf"@ || ascii_lower_str(ext) == "flac"@ ||
                ascii_lower_str(ext) == "m4a"@ || ascii_lower_str(ext) == "mka"@ ||
                ascii_lower_str(ext) == "mp2"@ || ascii_lower_str(ext) == "mp3"@ ||
                ascii_lower_str(ext) == "mp4"@ || ascii_lower_str(ext) == "mpc"@ ||
                ascii_lower_str(ext) == "oga"@ || ascii_lower_str(ext) == "ogg"@ ||
                ascii_lower_str(ext) == "opus"@ || ascii_lower_str(ext) == "tak"@ ||
                ascii_lower_str(ext) == "tta"@ || ascii_lower_str(ext) == "wav"@ ||
                ascii_lower_str(ext) == "weba"@ || ascii_lower_str(ext) == "wma"@ ||
                ascii_lower_str(ext) == "wv"@
        ),
{
    lemma_text_extension_bytes(ext);
    lemma_named_file(dir, stem, encode_utf8(ext));
    lemma_audio_extensions(ascii_lower_str(ext));
}

/// Whether `name` is one of `names`.
pub fn contains_name(names: &Vec<String>, name: &String) -> (b: bool)
    ensures
        b == names@.map_values(|s: String| s@).contains(name@),
{
    let ghost vs = names@.map_values(|s: String| s@);
    let mut i: usize = 0;
    while i < names.len()
        invariant
            i <= names.len(),
            vs == names@.map_values(|s: String| s@),
            forall|k: int| 0 <= k < i ==> vs[k] != name@,
        decreases names.len() - i,
    {
        if names[i] == *name {
            assert(vs[i as int] == name@);
            return true;
        }
        i = i + 1;
    }
    false
}

/// Whether the scanner imports the file at `path`.
pub fn is_supported(path: &Vec<u8>, extensions: &Vec<String>) -> (b: bool)
    ensures
        b == has_listed_extension(path@, extensions@.map_values(|s: String| s@)),
{
    match extension(path) {
        Some(e) => match utf8_text(e.as_slice()) {
            Some(text) => {
                let lower = to_ascii_lowercase(text.as_str());
                contains_name(extensions, &lower)
            },
            None => false,
        },
        None => false,
    }
}

/// A file is unchanged when the library holds it with the same size and modification time.
pub fn is_unchanged_signature(stored: Option<(i64, i64)>, size_bytes: i64, mtime: i64) -> (b:
    bool)
    ensures
        b == (stored == Some((size_bytes, mtime))),
{
    match stored {
        Some((s, m)) => s == size_bytes && m == mtime,
        None => false,
    }
}

impl ScanSummary {
    /// A summary never counts more imported and skipped files than files seen.
    pub open spec fn wf(self) -> bool {
        self.imported + self.skipped <= self.scanned
    }

    /// Nothing scanned yet.
    pub fn new() -> (r: Self)
        ensures
            r.scanned == 0 && r.imported == 0 && r.skipped == 0 && r.errors == 0,
            r.wf(),
    {
        ScanSummary { scanned: 0, imported: 0, skipped: 0, errors: 0 }
    }

    /// An entry of the folders could not be read.
    pub fn record_walk_error(&mut self)
        requires
            old(self).errors < usize::MAX,
        ensures
            final(self).errors == old(self).errors + 1,
            final(self).scanned == old(self).scanned,
            final(self).imported == old(self).imported,
            final(self).skipped == old(self).skipped,
    {
        self.errors = self.errors + 1;
    }

    /// An audio file is seen: it is counted, and it is skipped when the scan is not forced and
    /// the library holds it with its present size and modification time (`stored`); otherwise it
    /// is to be read, and `record_imported` or `record_read_error` follows.
    pub fn begin_file(&mut self, force: bool, stored: Option<(i64, i64)>, size_bytes: i64, mtime: i64)
        -> (action: FileAction)
        requires
            old(self).scanned < usize::MAX,
            old(self).skipped < usize::MAX,
        ensures
            action == file_action(force, stored, size_bytes, mtime),
            final(self).scanned == old(self).scanned + 1,
            final(self).skipped == old(self).skipped + (if action is Skip { 1int } else { 0int }),
            final(self).imported == old(self).imported,
            final(self).errors == old(self).errors,
            old(self).wf() ==> final(self).wf(),
            old(self).wf() && action is Read ==> final(self).imported + final(self).skipped
                < final(self).scanned,
    {
        self.scanned = self.scanned + 1;
        if !force && is_unchanged_signature(stored, size_bytes, mtime) {
            self.skipped = self.skipped + 1;
            FileAction::Skip
        } else {
            FileAction::Read
        }
    }

    /// The file just seen was read and stored.
    pub fn record_imported(&mut self)
        requires
            old(self).imported < usize::MAX,
        ensures
            final(self).imported == old(self).imported + 1,
            final(self).scanned == old(self).scanned,
            final(self).skipped == old(self).skipped,
            final(self).errors == old(self).errors,
            old(self).imported + old(self).skipped < old(self).scanned ==> final(self).wf(),
    {
        self.imported = self.imported + 1;
    }

    /// The file just seen could not be read.
    pub fn record_read_error(&mut self)
        requires
            old(self).errors < usize::MAX,
        ensures
            final(self).errors == old(self).errors + 1,
            final(self).scanned == old(self).scanned,
            final(self).imported == old(self).imported,
            final(self).skipped == old(self).skipped,
    {
        self.errors = self.errors + 1;
    }
}

/// What the scanner does with an audio file it meets.
#[derive(Debug, Clone, Copy, PartialEq, Eq, Structural)]
pub enum FileAction {
    /// The file is unchanged since it was stored; it is not read again.
    Skip,
    /// The file is read and stored.
    Read,
}

/// A file is skipped exactly when the scan is not forced and its signature is unchanged.
pub open spec fn file_action(force: bool, stored: Option<(i64, i64)>, size_bytes: i64, mtime: i64)
    -> FileAction {
    if !force && stored == Some((size_bytes, mtime)) {
        FileAction::Skip
    } else {
        FileAction::Read
    }
}

/// A file stored with a given size and modification time is skipped by a later scan that finds
/// it with the same size and modification time, unless that scan is forced; a forced scan reads
/// every audio file again.
pub proof fn lemma_rescan(size_bytes: i64, mtime: i64, stored: Option<(i64, i64)>)
    ensures
        file_action(false, Some((size_bytes, mtime)), size_bytes, mtime) == FileAction::Skip,
        file_action(true, stored, size_bytes, mtime) == FileAction::Read,
        stored != Some((size_bytes, mtime)) ==> file_action(false, stored, size_bytes, mtime)
            == FileAction::Read,
{
}

/// Why a single file cannot be imported.
#[derive(Debug, PartialEq, Eq)]
pub enum ImportRefusal {
    /// The path does not name a regular file.
    NotAFile,
    /// The file's extension is not one of the audio extensions.
    UnsupportedExtension,
}

/// Decides whether a single (existing, canonical) path may be imported: it must be a file with a
/// supported extension, checked in that order.
pub fn check_import(path: &Vec<u8>, is_file: bool, extensions: &Vec<String>) -> (r: Result<
    (),
    ImportRefusal,
>)
    ensures
        !is_file ==> r == Err::<(), ImportRefusal>(ImportRefusal::NotAFile),
        is_file && !has_listed_extension(path@, extensions@.map_values(|s: String| s@)) ==> r
            == Err::<(), ImportRefusal>(ImportRefusal::UnsupportedExtension),
        is_file && has_listed_extension(path@, extensions@.map_values(|s: String| s@)) ==> r
            is Ok,
{
    if !is_file {
        return Err(ImportRefusal::NotAFile);
    }
    if !is_supported(path, extensions) {
        return Err(ImportRefusal::UnsupportedExtension);
    }
    Ok(())
}

} // verus!
