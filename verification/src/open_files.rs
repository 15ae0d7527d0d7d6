//! The audio files that the desktop shell is asked to open: from its command line, as paths or
//! `file:` URLs, resolved against the working directory, kept once each and only when they are
//! audio. Paths are byte strings, as the operating system gives them.
use vstd::prelude::*;
use crate::metadata::opt_view;
use crate::scanner::contains_name;
use crate::os_paths::{
    dot, extension, extension_spec, is_absolute, is_absolute_spec, join_path, join_spec,
    lemma_named_file, paths_equal, same_path, slash,
};
use crate::text::{
    ascii_lower_str, bytes_of, chars_of, display_of, display_text, lemma_text_extension_bytes,
    to_ascii_lowercase, to_str_spec,
    trim_class, trim_ws, utf8_text, CharClass,
};
use vstd::utf8::encode_utf8;

verus! {

/// The scheme of `text` parsed as a URL, in lower case, when it parses.
pub uninterp spec fn url_scheme_of(text: Seq<char>) -> Option<Seq<char>>;

/// The Unix path that `text`, parsed as a URL, names as a file URL (`Url::to_file_path`: its
/// percent-decoded path segments, as bytes), when it parses and has no host other than
/// `localhost`.
pub uninterp spec fn url_file_path_of(text: Seq<char>) -> Option<Seq<u8>>;

/// `url::Url::parse(text)`, then `Url::scheme`.
#[verifier::external_body]
fn url_scheme(text: &str) -> (r: Option<String>)
    ensures
        opt_view(r) == url_scheme_of(text@),
{
    url::Url::parse(text).ok().map(|u| u.scheme().to_string())
}

/// `url::Url::parse(text)`, then `Url::to_file_path`, the path taken as its bytes.
#[verifier::external_body]
fn url_to_file_path(text: &str) -> (r: Option<Vec<u8>>)
    ensures
        opt_bytes(r) == url_file_path_of(text@),
{
    url::Url::parse(text).ok().and_then(|u| u.to_file_path().ok()).map(
        |p| p.as_os_str().as_encoded_bytes().to_vec(),
    )
}

/// The view of an optional byte string.
pub open spec fn opt_bytes(o: Option<Vec<u8>>) -> Option<Seq<u8>> {
    match o {
        Some(v) => Some(v@),
        None => None,
    }
}

/// The file path of a URL with the given scheme and file path: only a `file` URL names one.
pub open spec fn file_url_path_spec(scheme: Option<Seq<char>>, file_path: Option<Seq<u8>>) -> Option<
    Seq<u8>,
> {
    if scheme == Some("file"@) {
        file_path
    } else {
        None
    }
}

/// Keeps the file path of a URL only when its scheme is `file`.
pub fn file_url_path(scheme: Option<String>, file_path: Option<Vec<u8>>) -> (r: Option<Vec<u8>>)
    ensures
        opt_bytes(r) == file_url_path_spec(opt_view(scheme), opt_bytes(file_path)),
{
    let file = String::from_str("file");
    match scheme {
        Some(s) => if s == file {
            file_path
        } else {
            None
        },
        None => None,
    }
}

/// The path that a command-line argument names as a `file:` URL, if it is one.
pub fn path_from_url_arg(arg: &str) -> (r: Option<Vec<u8>>)
    ensures
        opt_bytes(r) == file_url_path_spec(url_scheme_of(arg@), url_file_path_of(arg@)),
{
    let scheme = url_scheme(arg);
    match scheme {
        Some(_) => file_url_path(scheme, url_to_file_path(arg)),
        None => None,
    }
}

/// What an argument names as a `file:` URL: only an argument that is UTF-8 text is read as one.
pub open spec fn arg_url_path(arg: Seq<u8>) -> Option<Seq<u8>> {
    match to_str_spec(arg) {
        Some(text) => file_url_path_spec(url_scheme_of(text), url_file_path_of(text)),
        None => None,
    }
}

/// The path that one argument names, given what it names as a URL: an absolute path as it is,
/// else the URL's file path, else the argument resolved against the working directory.
pub open spec fn arg_path_spec(arg: Seq<u8>, cwd: Option<Seq<u8>>, url_path: Option<Seq<u8>>) -> Option<
    Seq<u8>,
> {
    if is_absolute_spec(arg) {
        Some(arg)
    } else if url_path is Some {
        url_path
    } else {
        match cwd {
            Some(base) => Some(join_spec(base, arg)),
            None => None,
        }
    }
}

/// The path that one argument names, given what it names as a URL.
pub fn resolve_arg(arg: &Vec<u8>, cwd: Option<&Vec<u8>>, url_path: Option<Vec<u8>>) -> (r: Option<
    Vec<u8>,
>)
    ensures
        opt_bytes(r) == arg_path_spec(arg@, match cwd {
            Some(c) => Some(c@),
            None => None,
        }, opt_bytes(url_path)),
{
    if is_absolute(arg) {
        return Some(arg.clone());
    }
    if url_path.is_some() {
        return url_path;
    }
    match cwd {
        Some(base) => Some(join_path(base, arg)),
        None => None,
    }
}

/// The path that one command-line argument names.
pub fn path_from_arg(arg: &Vec<u8>, cwd: Option<&Vec<u8>>) -> (r: Option<Vec<u8>>)
    ensures
        opt_bytes(r) == arg_path_spec(arg@, match cwd {
            Some(c) => Some(c@),
            None => None,
        }, arg_url_path(arg@)),
{
    if is_absolute(arg) {
        return Some(arg.clone());
    }
    let url_path = match utf8_text(arg.as_slice()) {
        Some(text) => path_from_url_arg(text.as_str()),
        None => None,
    };
    resolve_arg(arg, cwd, url_path)
}

/// The working directory to resolve against: the one given, as a path, unless it is blank.
pub open spec fn usable_cwd(cwd: Option<String>) -> Option<Seq<u8>> {
    match cwd {
        Some(c) => if trim_ws(c@).len() > 0 {
            Some(encode_utf8(c@))
        } else {
            None
        },
        None => None,
    }
}

/// The paths that the arguments after the program name name, in order.
pub open spec fn paths_from_args_spec(args: Seq<Seq<u8>>, cwd: Option<Seq<u8>>) -> Seq<Seq<u8>>
    decreases args.len(),
{
    if args.len() == 0 {
        seq![]
    } else {
        let rest = paths_from_args_spec(args.drop_last(), cwd);
        match arg_path_spec(args.last(), cwd, arg_url_path(args.last())) {
            Some(p) => rest.push(p),
            None => rest,
        }
    }
}

/// The files that a command line asks to open (its first argument is the program).
pub fn paths_from_cli_args(args: &Vec<Vec<u8>>, cwd: Option<String>) -> (r: Vec<Vec<u8>>)
    ensures
        r@.map_values(|p: Vec<u8>| p@) == paths_from_args_spec(
            if args@.len() == 0 {
                Seq::<Seq<u8>>::empty()
            } else {
                args@.map_values(|a: Vec<u8>| a@).drop_first()
            },
            usable_cwd(cwd),
        ),
{
    let base: Option<Vec<u8>> = match cwd {
        Some(c) => {
            let t = trim_class(&chars_of(c.as_str()), CharClass::Whitespace);
            if t.len() > 0 {
                Some(bytes_of(c.as_str()))
            } else {
                None
            }
        },
        None => None,
    };
    let ghost ucwd = opt_bytes(base);
    assert(ucwd == usable_cwd(cwd));
    let ghost all = args@.map_values(|a: Vec<u8>| a@);
    let ghost tail = if args@.len() == 0 {
        Seq::<Seq<u8>>::empty()
    } else {
        all.drop_first()
    };
    let mut r: Vec<Vec<u8>> = Vec::new();
    if args.len() == 0 {
        return r;
    }
    let mut i: usize = 1;
    while i < args.len()
        invariant
            1 <= i <= args.len(),
            all == args@.map_values(|a: Vec<u8>| a@),
            tail == all.drop_first(),
            ucwd == opt_bytes(base),
            r@.map_values(|p: Vec<u8>| p@) == paths_from_args_spec(tail.take(i - 1), ucwd),
        decreases args.len() - i,
    {
        let ghost before = r@.map_values(|p: Vec<u8>| p@);
        let cwd_ref: Option<&Vec<u8>> = match &base {
            Some(b) => Some(b),
            None => None,
        };
        let p = path_from_arg(&args[i], cwd_ref);
        assert(tail.take(i as int).drop_last() =~= tail.take(i - 1));
        assert(tail.take(i as int).last() == args@[i as int]@);
        match p {
            Some(path) => {
                r.push(path);
                assert(r@.map_values(|p: Vec<u8>| p@) =~= before.push(r@[r@.len() - 1]@));
            },
            None => {},
        }
        i = i + 1;
    }
    assert(tail.take(args.len() - 1) =~= tail);
    r
}

/// The extensions that the shell opens as audio, in lower case.
pub open spec fn shell_audio_extensions() -> Seq<Seq<char>> {
    seq![
        "aac"@, "aif"@, "aiff"@, "alac"@, "ape"@, "caf"@, "dff"@, "dsf"@, "flac"@, "m4a"@,
        "mka"@, "mp2"@, "mp3"@, "mp4"@, "mpc"@, "oga"@, "ogg"@, "opus"@, "tak"@, "tta"@,
        "wav"@, "weba"@, "wma"@, "wv"@,
    ]
}

/// Whether the shell opens a path as audio: its extension is UTF-8 text and, in ASCII lower
/// case, listed.
pub open spec fn is_shell_audio(path: Seq<u8>) -> bool {
    match extension_spec(path) {
        Some(e) => match to_str_spec(e) {
            Some(text) => shell_audio_extensions().contains(ascii_lower_str(text)),
            None => false,
        },
        None => false,
    }
}

/// The shell's audio extensions are exactly these 24 lower-case names.
pub proof fn lemma_shell_audio_extensions(e: Seq<char>)
    ensures
        shell_audio_extensions().contains(e) <==> (
            e == "aac"@ || e == "aif"@ || e == "aiff"@ || e == "alac"@ || e == "ape"@ ||
                e == "caf"@ || e == "dff"@ || e == "dsf"@ || e == "flac"@ || e == "m4a"@ ||
                e == "mka"@ || e == "mp2"@ || e == "mp3"@ || e == "mp4"@ || e == "mpc"@ ||
                e == "oga"@ || e == "ogg"@ || e == "opus"@ || e == "tak"@ || e == "tta"@ ||
                e == "wav"@ || e == "weba"@ || e == "wma"@ || e == "wv"@
        ),
{
    let x = shell_audio_extensions();
    assert(x.len() == 24);
    assert(x[0] == "aac"@);
    assert(x[1] == "aif"@);
    assert(x[2] == "aiff"@);
    assert(x[3] == "alac"@);
    assert(x[4] == "ape"@);
    assert(x[5] == "caf"@);
    assert(x[6] == "dff"@);
    assert(x[7] == "dsf"@);
    assert(x[8] == "flac"@);
    assert(x[9] == "m4a"@);
    assert(x[10] == "mka"@);
    assert(x[11] == "mp2"@);
    assert(x[12] == "mp3"@);
    assert(x[13] == "mp4"@);
    assert(x[14] == "mpc"@);
    assert(x[15] == "oga"@);
    assert(x[16] == "ogg"@);
    assert(x[17] == "opus"@);
    assert(x[18] == "tak"@);
    assert(x[19] == "tta"@);
    assert(x[20] == "wav"@);
    assert(x[21] == "weba"@);
    assert(x[22] == "wma"@);
    assert(x[23] == "wv"@);
    if x.contains(e) {
        let k = choose|k: int| 0 <= k < x.len() && x[k] == e;
        assert(k == 0 || k == 1 || k == 2 || k == 3 || k == 4 || k == 5 || k == 6 || k == 7 || k == 8 || k == 9 || k == 10 || k == 11 || k == 12 || k == 13 || k == 14 || k == 15 || k == 16 || k == 17 || k == 18 || k == 19 || k == 20 || k == 21 || k == 22 || k == 23);
    }
}

/// A file named `stem.ext` in any directory is opened as audio exactly when its extension, in
/// ASCII lower case, is one of the shell's 24 audio extensions (so `song.m4a` is).
pub proof fn lemma_shell_audio_file(dir: Seq<u8>, stem: Seq<u8>, ext: Seq<char>)
    requires
        stem.len() > 0,
        forall|i: int| 0 <= i < stem.len() ==> #[trigger] stem[i] != slash(),
        ext.len() > 0,
        forall|i: int| 0 <= i < ext.len() ==> #[trigger] ext[i] != '/' && ext[i] != '.',
    ensures
        is_shell_audio(join_spec(dir, stem + seq![dot()] + encode_utf8(ext))) <==> (
            ascii_lower_str(ext) == "aac"@ || ascii_lower_str(ext) == "aif"@ ||
                ascii_lower_str(ext) == "aiff"@ || ascii_lower_str(ext) == "alac"@ ||
                ascii_lower_str(ext) == "ape"@ || ascii_lower_str(ext) == "caf"@ ||
                ascii_lower_str(ext) == "dff"@ || ascii_lower_str(ext) == "dsf"@ ||
                ascii_lower_str(ext) == "flac"@ || ascii_lower_str(ext) == "m4a"@ ||
                ascii_lower_str(ext) == "mka"@ || ascii_lower_str(ext) == "mp2"@ ||
                ascii_lower_str(ext) == "mp3"@ || ascii_lower_str(ext) == "mp4"@ ||
                ascii_lower_str(ext) == "mpc"@ || ascii_lower_str(ext) == "oga"@ ||
                ascii_lower_str(ext) == "ogg"@ || ascii_lower_str(ext) == "opus"@ ||
                ascii_lower_str(ext) == "tak"@ || ascii_lower_str(ext) == "tta"@ ||
                ascii_lower_str(ext) == "wav"@ || ascii_lower_str(ext) == "weba"@ ||
                ascii_lower_str(ext) == "wma"@ || ascii_lower_str(ext) == "wv"@
        ),
{
    lemma_text_extension_bytes(ext);
    lemma_named_file(dir, stem, encode_utf8(ext));
    lemma_shell_audio_extensions(ascii_lower_str(ext));
}

fn shell_extensions() -> (r: Vec<String>)
    ensures
        r@.map_values(|s: String| s@) == shell_audio_extensions(),
{
    let mut r: Vec<String> = Vec::new();
    r.push(String::from_str("aac"));
    r.push(String::from_str("aif"));
    r.push(String::from_str("aiff"));
    r.push(String::from_str("alac"));
    r.push(String::from_str("ape"));
    r.push(String::from_str("caf"));
    r.push(String::from_str("dff"));
    r.push(String::from_str("dsf"));
    r.push(String::from_str("flac"));
    r.push(String::from_str("m4a"));
    r.push(String::from_str("mka"));
    r.push(String::from_str("mp2"));
    r.push(String::from_str("mp3"));
    r.push(String::from_str("mp4"));
    r.push(String::from_str("mpc"));
    r.push(String::from_str("oga"));
    r.push(String::from_str("ogg"));
    r.push(String::from_str("opus"));
    r.push(String::from_str("tak"));
    r.push(String::from_str("tta"));
    r.push(String::from_str("wav"));
    r.push(String::from_str("weba"));
    r.push(String::from_str("wma"));
    r.push(String::from_str("wv"));
    assert(r@.map_values(|s: String| s@) =~= shell_audio_extensions());
    r
}

/// Whether the shell opens the file at `path` as audio.
pub fn is_supported_audio(path: &Vec<u8>) -> (b: bool)
    ensures
        b == is_shell_audio(path@),
{
    match extension(path) {
        Some(e) => match utf8_text(e.as_slice()) {
            Some(text) => {
                let lower = to_ascii_lowercase(text.as_str());
                let known = shell_extensions();
                contains_name(&known, &lower)
            },
            None => false,
        },
        None => false,
    }
}

/// Whether some path of `ps` is the same path as `p` (`Path`'s `==`).
pub open spec fn has_same_path(ps: Seq<Seq<u8>>, p: Seq<u8>) -> bool {
    exists|k: int| 0 <= k < ps.len() && #[trigger] same_path(ps[k], p)
}

/// Whether one of `paths` is the same path as `path`.
fn contains_same_path(paths: &Vec<Vec<u8>>, path: &Vec<u8>) -> (b: bool)
    ensures
        b == has_same_path(paths@.map_values(|p: Vec<u8>| p@), path@),
{
    let ghost ps = paths@.map_values(|p: Vec<u8>| p@);
    let mut i: usize = 0;
    while i < paths.len()
        invariant
            i <= paths.len(),
            ps == paths@.map_values(|p: Vec<u8>| p@),
            forall|k: int| 0 <= k < i ==> !same_path(#[trigger] ps[k], path@),
        decreases paths.len() - i,
    {
        if paths_equal(&paths[i], path) {
            assert(same_path(ps[i as int], path@));
            return true;
        }
        i = i + 1;
    }
    false
}

/// The audio paths among `paths`, in order, each left out when it is the same path (`Path`'s
/// `==`) as one kept before it.
pub open spec fn unique_audio_paths(paths: Seq<Seq<u8>>) -> Seq<Seq<u8>>
    decreases paths.len(),
{
    if paths.len() == 0 {
        seq![]
    } else {
        let rest = unique_audio_paths(paths.drop_last());
        if is_shell_audio(paths.last()) && !has_same_path(rest, paths.last()) {
            rest.push(paths.last())
        } else {
            rest
        }
    }
}

/// Keeps the audio paths, each once, in order.
pub fn unique_supported_paths(paths: Vec<Vec<u8>>) -> (r: Vec<Vec<u8>>)
    ensures
        r@.map_values(|p: Vec<u8>| p@) == unique_audio_paths(paths@.map_values(|p: Vec<u8>| p@)),
{
    let ghost ps = paths@.map_values(|p: Vec<u8>| p@);
    let mut unique: Vec<Vec<u8>> = Vec::new();
    let mut i: usize = 0;
    while i < paths.len()
        invariant
            i <= paths.len(),
            ps == paths@.map_values(|p: Vec<u8>| p@),
            unique@.map_values(|p: Vec<u8>| p@) == unique_audio_paths(ps.take(i as int)),
        decreases paths.len() - i,
    {
        let ghost before = unique@.map_values(|p: Vec<u8>| p@);
        assert(ps.take(i + 1).drop_last() =~= ps.take(i as int));
        assert(ps.take(i + 1).last() == paths@[i as int]@);
        let path = &paths[i];
        if is_supported_audio(path) && !contains_same_path(&unique, path) {
            unique.push(path.clone());
            assert(unique@.map_values(|p: Vec<u8>| p@) =~= before.push(path@));
        }
        i = i + 1;
    }
    assert(ps.take(paths.len() as int) =~= ps);
    unique
}

/// The paths that the shell keeps are audio paths that were asked for, no two of them the same
/// path, and every audio path that was asked for is the same path as one that is kept.
pub proof fn lemma_unique_audio_paths(paths: Seq<Seq<u8>>)
    ensures
        forall|a: int, b: int|
            0 <= a < b < unique_audio_paths(paths).len() ==> !same_path(
                #[trigger] unique_audio_paths(paths)[a],
                #[trigger] unique_audio_paths(paths)[b],
            ),
        forall|k: int|
            0 <= k < unique_audio_paths(paths).len() ==> paths.contains(
                #[trigger] unique_audio_paths(paths)[k],
            ) && is_shell_audio(unique_audio_paths(paths)[k]),
        forall|k: int|
            0 <= k < paths.len() && is_shell_audio(#[trigger] paths[k]) ==> has_same_path(
                unique_audio_paths(paths),
                paths[k],
            ),
    decreases paths.len(),
{
    if paths.len() > 0 {
        let init = paths.drop_last();
        lemma_unique_audio_paths(init);
        let rest = unique_audio_paths(init);
        let last = paths.last();
        let out = unique_audio_paths(paths);
        assert forall|q: Seq<u8>| init.contains(q) implies paths.contains(q) by {
            let j = choose|j: int| 0 <= j < init.len() && init[j] == q;
            assert(paths[j] == q);
        }
        assert(paths[paths.len() - 1] == last);
        if is_shell_audio(last) && !has_same_path(rest, last) {
            assert(out == rest.push(last));
            assert forall|a: int, b: int| 0 <= a < b < out.len() implies !same_path(
                #[trigger] out[a],
                #[trigger] out[b],
            ) by {
                if b == rest.len() {
                    assert(out[a] == rest[a]);
                    assert(!same_path(rest[a], last));
                } else {
                    assert(out[a] == rest[a] && out[b] == rest[b]);
                }
            }
            assert forall|k: int| 0 <= k < out.len() implies paths.contains(#[trigger] out[k])
                && is_shell_audio(out[k]) by {
                if k < rest.len() {
                    assert(out[k] == rest[k]);
                }
            }
            assert forall|k: int| 0 <= k < paths.len() && is_shell_audio(#[trigger] paths[k])
                implies has_same_path(out, paths[k]) by {
                if k < init.len() {
                    assert(init[k] == paths[k]);
                    assert(has_same_path(rest, init[k]));
                    let j = choose|j: int| 0 <= j < rest.len() && #[trigger] same_path(rest[j], init[k]);
                    assert(out[j] == rest[j]);
                    assert(same_path(out[j], paths[k]));
                } else {
                    assert(out[rest.len() as int] == last);
                    assert(same_path(out[rest.len() as int], paths[k]));
                }
            }
        } else {
            assert(out == rest);
            assert forall|k: int| 0 <= k < paths.len() && is_shell_audio(#[trigger] paths[k])
                implies has_same_path(out, paths[k]) by {
                if k < init.len() {
                    assert(init[k] == paths[k]);
                    assert(has_same_path(rest, init[k]));
                }
            }
        }
    }
}

/// The files that the shell was asked to open and the GUI has not yet taken, oldest first.
#[derive(Debug)]
pub struct PendingOpenFiles {
    queue: Vec<Vec<u8>>,
}

impl View for PendingOpenFiles {
    type V = Seq<Seq<u8>>;

    closed spec fn view(&self) -> Seq<Seq<u8>> {
        self.queue@.map_values(|p: Vec<u8>| p@)
    }
}

/// The texts that the GUI gets for paths (`Path::to_string_lossy`).
pub open spec fn display_texts(paths: Seq<Seq<u8>>) -> Seq<Seq<char>> {
    paths.map_values(|p: Seq<u8>| display_text(p))
}

impl PendingOpenFiles {
    /// Nothing pending.
    pub fn new() -> (r: Self)
        ensures
            r@ == Seq::<Seq<u8>>::empty(),
    {
        let r = PendingOpenFiles { queue: Vec::new() };
        assert(r@ =~= Seq::<Seq<u8>>::empty());
        r
    }

    /// Queues the audio files among `paths`, each once; tells whether any was queued, in which
    /// case the GUI is to be told that files wait.
    pub fn queue_open_files(&mut self, paths: Vec<Vec<u8>>) -> (notify: bool)
        ensures
            final(self)@ == old(self)@ + unique_audio_paths(paths@.map_values(|p: Vec<u8>| p@)),
            notify == (unique_audio_paths(paths@.map_values(|p: Vec<u8>| p@)).len() > 0),
    {
        let kept = unique_supported_paths(paths);
        let ghost added = kept@.map_values(|p: Vec<u8>| p@);
        if kept.len() == 0 {
            assert(added =~= Seq::<Seq<u8>>::empty());
            assert(self@ =~= old(self)@ + added);
            return false;
        }
        let ghost before = self@;
        let mut i: usize = 0;
        while i < kept.len()
            invariant
                i <= kept.len(),
                added == kept@.map_values(|p: Vec<u8>| p@),
                self.queue@.map_values(|p: Vec<u8>| p@) == before + added.take(i as int),
            decreases kept.len() - i,
        {
            let ghost prev = self.queue@;
            let c = kept[i].clone();
            assert(c@ =~= kept@[i as int]@);
            self.queue.push(c);
            assert(added[i as int] == kept@[i as int]@);
            assert(added.take(i + 1) =~= added.take(i as int).push(added[i as int]));
            assert(self.queue@ =~= prev.push(c));
            assert(self.queue@.map_values(|p: Vec<u8>| p@) =~= prev.map_values(|p: Vec<u8>| p@).push(
                kept@[i as int]@,
            ));
            i = i + 1;
            assert(self.queue@.map_values(|p: Vec<u8>| p@) =~= before + added.take(i as int));
        }
        assert(added.take(kept.len() as int) =~= added);
        true
    }

    /// Hands out every pending file, oldest first, as the text the GUI shows, and keeps none.
    pub fn drain(&mut self) -> (r: Vec<String>)
        ensures
            r@.map_values(|s: String| s@) == display_texts(old(self)@),
            final(self)@ == Seq::<Seq<u8>>::empty(),
    {
        let mut taken: Vec<Vec<u8>> = Vec::new();
        std::mem::swap(&mut taken, &mut self.queue);
        assert(self@ =~= Seq::<Seq<u8>>::empty());
        let ghost ps = taken@.map_values(|p: Vec<u8>| p@);
        let mut out: Vec<String> = Vec::new();
        let mut i: usize = 0;
        while i < taken.len()
            invariant
                i <= taken.len(),
                ps == taken@.map_values(|p: Vec<u8>| p@),
                out@.map_values(|s: String| s@) == display_texts(ps.take(i as int)),
            decreases taken.len() - i,
        {
            let ghost before = out@.map_values(|s: String| s@);
            out.push(display_of(&taken[i]));
            assert(ps.take(i + 1) =~= ps.take(i as int).push(ps[i as int]));
            assert(out@.map_values(|s: String| s@) =~= before.push(display_text(ps[i as int])));
            i = i + 1;
        }
        assert(ps.take(taken.len() as int) =~= ps);
        out
    }
}

/// Files queued and then drained come out as queued: those pending before, then the audio files
/// of the request, each once, in order, each as its display text; nothing stays pending, and
/// each file that the request added is an audio file that it asked for.
pub proof fn lemma_queue_then_drain(
    pending: Seq<Seq<u8>>,
    paths: Seq<Seq<u8>>,
    queued: Seq<Seq<u8>>,
    drained: Seq<Seq<char>>,
)
    requires
        queued == pending + unique_audio_paths(paths),
        drained == display_texts(queued),
    ensures
        drained == display_texts(pending) + display_texts(unique_audio_paths(paths)),
        drained.len() == pending.len() + unique_audio_paths(paths).len(),
        forall|k: int|
            pending.len() <= k < queued.len() ==> paths.contains(#[trigger] queued[k])
                && is_shell_audio(queued[k]) && drained[k] == display_text(queued[k]),
{
    lemma_unique_audio_paths(paths);
    let u = unique_audio_paths(paths);
    assert(display_texts(pending + u) =~= display_texts(pending) + display_texts(u));
    assert forall|k: int| pending.len() <= k < queued.len() implies paths.contains(
        #[trigger] queued[k],
    ) && is_shell_audio(queued[k]) && drained[k] == display_text(queued[k]) by {
        assert(queued[k] == u[k - pending.len()]);
    }
}

} // verus!
