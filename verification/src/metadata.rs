//! Track metadata: what tags and FFprobe say about an audio file, and how the two combine.
use vstd::prelude::*;
use crate::json::{
    array_field, get, get_array, get_i64, get_str, get_spec, i64_field, parse_json, parsed_json,
    str_field, JsonValue,
};
use crate::os_paths::{extension, extension_spec, file_stem, file_stem_spec};
use crate::text::{
    ascii_lower_str, chars_of, parse_i64, parse_i64_spec, to_ascii_lowercase, to_str_spec, utf8_text,
};

verus! {

/// A track as the scanner imports it into the library.
#[derive(Debug)]
pub struct NewTrack {
    pub path: Vec<u8>,
    pub title: String,
    pub artist: String,
    pub album: String,
    pub album_artist: Option<String>,
    pub genre: Option<String>,
    pub track_number: Option<i64>,
    pub disc_number: Option<i64>,
    pub duration_ms: Option<i64>,
    pub format: Option<String>,
    pub codec: Option<String>,
    pub bitrate: Option<i64>,
    pub sample_rate: Option<i64>,
    pub channels: Option<i64>,
    pub size_bytes: i64,
    pub mtime: i64,
    pub artwork_hash: Option<String>,
}

/// The values of a file's primary tag.
#[derive(Debug)]
pub struct TagValues {
    pub title: Option<String>,
    pub artist: Option<String>,
    pub album: Option<String>,
    pub genre: Option<String>,
    pub track: Option<u32>,
    pub disk: Option<u32>,
}

/// The audio properties that the tag reader computes for a file.
#[derive(Debug)]
pub struct AudioProperties {
    pub duration_ms: i64,
    pub bitrate: Option<u32>,
    pub sample_rate: Option<u32>,
    pub channels: Option<u8>,
}

/// `a`, or `b` when `a` is `None` (`Option::or`).
pub open spec fn or_else<T>(a: Option<T>, b: Option<T>) -> Option<T> {
    match a {
        Some(x) => Some(x),
        None => b,
    }
}

/// The view of an optional string.
pub open spec fn opt_view(o: Option<String>) -> Option<Seq<char>> {
    match o {
        Some(s) => Some(s@),
        None => None,
    }
}

/// A tag value, or `default` when there is no tag or it has no such value.
pub open spec fn tag_text(value: Option<Option<String>>, default: Seq<char>) -> Seq<char> {
    match value {
        Some(Some(s)) => s@,
        _ => default,
    }
}

/// The title of a file without a title tag: its stem where that is UTF-8 text, else
/// `Unknown Title`.
pub open spec fn fallback_title(path: Seq<u8>) -> Seq<char> {
    match file_stem_spec(path) {
        Some(stem) => match to_str_spec(stem) {
            Some(text) => text,
            None => "Unknown Title"@,
        },
        None => "Unknown Title"@,
    }
}

/// The format of a file: its extension in ASCII lower case, where the extension is UTF-8 text.
pub open spec fn format_of(path: Seq<u8>) -> Option<Seq<char>> {
    match extension_spec(path) {
        Some(e) => match to_str_spec(e) {
            Some(text) => Some(ascii_lower_str(text)),
            None => None,
        },
        None => None,
    }
}

fn clone_opt(o: &Option<String>) -> (r: Option<String>)
    ensures
        r == *o,
{
    match o {
        Some(s) => Some(s.clone()),
        None => None,
    }
}

fn text_or(value: Option<&Option<String>>, default: &str) -> (r: String)
    ensures
        r@ == tag_text(
            match value {
                Some(v) => Some(*v),
                None => None,
            },
            default@,
        ),
{
    match value {
        Some(Some(s)) => s.clone(),
        _ => String::from_str(default),
    }
}

fn widen_u32(o: Option<u32>) -> (r: Option<i64>)
    ensures
        r == match o {
            Some(x) => Some(x as i64),
            None => None,
        },
{
    match o {
        Some(x) => Some(x as i64),
        None => None,
    }
}

/// The track that a file's tags and properties describe: missing tags fall back to the file stem
/// and to `Unknown Artist` and `Unknown Album`, and the format is the file's extension.
pub fn track_from_tags(
    path: &Vec<u8>,
    tags: &Option<TagValues>,
    props: &Option<AudioProperties>,
    size_bytes: i64,
    mtime: i64,
) -> (r: NewTrack)
    ensures
        r.path@ == path@,
        r.title@ == match tags {
            Some(t) => match t.title {
                Some(s) => s@,
                None => fallback_title(path@),
            },
            None => fallback_title(path@),
        },
        r.artist@ == tag_text(
            match tags {
                Some(t) => Some(t.artist),
                None => None,
            },
            "Unknown Artist"@,
        ),
        r.album@ == tag_text(
            match tags {
                Some(t) => Some(t.album),
                None => None,
            },
            "Unknown Album"@,
        ),
        r.album_artist is None,
        r.genre == match tags {
            Some(t) => t.genre,
            None => None,
        },
        r.track_number == match tags {
            Some(t) => match t.track {
                Some(n) => Some(n as i64),
                None => None,
            },
            None => None,
        },
        r.disc_number == match tags {
            Some(t) => match t.disk {
                Some(n) => Some(n as i64),
                None => None,
            },
            None => None,
        },
        r.duration_ms == match props {
            Some(p) => Some(p.duration_ms),
            None => None,
        },
        opt_view(r.format) == format_of(path@),
        r.codec is None,
        r.bitrate == match props {
            Some(p) => match p.bitrate {
                Some(b) => Some(b as i64),
                None => None,
            },
            None => None,
        },
        r.sample_rate == match props {
            Some(p) => match p.sample_rate {
                Some(b) => Some(b as i64),
                None => None,
            },
            None => None,
        },
        r.channels == match props {
            Some(p) => match p.channels {
                Some(b) => Some(b as i64),
                None => None,
            },
            None => None,
        },
        r.size_bytes == size_bytes,
        r.mtime == mtime,
        r.artwork_hash is None,
{
    let fallback = match file_stem(path) {
        Some(stem) => match utf8_text(stem.as_slice()) {
            Some(text) => text,
            None => String::from_str("Unknown Title"),
        },
        None => String::from_str("Unknown Title"),
    };
    let title = match tags {
        Some(t) => match &t.title {
            Some(s) => s.clone(),
            None => fallback,
        },
        None => fallback,
    };
    let artist = match tags {
        Some(t) => text_or(Some(&t.artist), "Unknown Artist"),
        None => text_or(None, "Unknown Artist"),
    };
    let album = match tags {
        Some(t) => text_or(Some(&t.album), "Unknown Album"),
        None => text_or(None, "Unknown Album"),
    };
    let genre = match tags {
        Some(t) => clone_opt(&t.genre),
        None => None,
    };
    let (track_number, disc_number) = match tags {
        Some(t) => (widen_u32(t.track), widen_u32(t.disk)),
        None => (None, None),
    };
    let (duration_ms, bitrate, sample_rate, channels) = match props {
        Some(p) => (
            Some(p.duration_ms),
            widen_u32(p.bitrate),
            widen_u32(p.sample_rate),
            match p.channels {
                Some(c) => Some(c as i64),
                None => None,
            },
        ),
        None => (None, None, None, None),
    };
    let format = match extension(path) {
        Some(e) => match utf8_text(e.as_slice()) {
            Some(text) => Some(to_ascii_lowercase(text.as_str())),
            None => None,
        },
        None => None,
    };
    NewTrack {
        path: path.clone(),
        title,
        artist,
        album,
        album_artist: None,
        genre,
        track_number,
        disc_number,
        duration_ms,
        format,
        codec: None,
        bitrate,
        sample_rate,
        channels,
        size_bytes,
        mtime,
        artwork_hash: None,
    }
}

/// What FFprobe reports of a file. Its duration is given in seconds, as FFprobe printed them.
#[derive(Debug)]
pub struct ProbeFields {
    pub duration_seconds: Option<String>,
    pub format: Option<String>,
    pub bitrate: Option<i64>,
    pub codec: Option<String>,
    pub sample_rate: Option<i64>,
    pub channels: Option<i64>,
}

/// The first stream whose `codec_type` is `audio`.
pub open spec fn first_audio_stream(streams: Seq<JsonValue>) -> Option<JsonValue>
    decreases streams.len(),
{
    if streams.len() == 0 {
        None
    } else if str_field(streams[0], "codec_type"@) == Some("audio"@) {
        Some(streams[0])
    } else {
        first_audio_stream(streams.drop_first())
    }
}

/// The stream read as the audio stream is the lowest-index stream whose `codec_type` is
/// `audio`; there is none exactly when no stream is audio.
pub proof fn lemma_first_audio_stream(streams: Seq<JsonValue>)
    ensures
        first_audio_stream(streams) is None <==> forall|k: int|
            0 <= k < streams.len() ==> str_field(#[trigger] streams[k], "codec_type"@) != Some(
                "audio"@,
            ),
        first_audio_stream(streams) matches Some(st) ==> exists|k: int|
            #![trigger streams[k]]
            0 <= k < streams.len() && streams[k] == st && str_field(streams[k], "codec_type"@)
                == Some("audio"@) && forall|j: int|
                0 <= j < k ==> str_field(#[trigger] streams[j], "codec_type"@) != Some(
                    "audio"@,
                ),
    decreases streams.len(),
{
    if streams.len() > 0 {
        let rest = streams.drop_first();
        lemma_first_audio_stream(rest);
        if str_field(streams[0], "codec_type"@) == Some("audio"@) {
            assert(streams[0] == first_audio_stream(streams).unwrap());
        } else {
            assert forall|k: int| 0 <= k < rest.len() implies rest[k] == streams[k + 1] by {}
            if first_audio_stream(rest) is None {
                assert forall|k: int| 0 <= k < streams.len() implies str_field(
                    #[trigger] streams[k],
                    "codec_type"@,
                ) != Some("audio"@) by {
                    if k > 0 {
                        assert(streams[k] == rest[k - 1]);
                    }
                }
            } else {
                let st = first_audio_stream(rest).unwrap();
                let k = choose|k: int|
                    #![trigger rest[k]]
                    0 <= k < rest.len() && rest[k] == st && str_field(rest[k], "codec_type"@)
                        == Some("audio"@) && forall|j: int|
                        0 <= j < k ==> str_field(#[trigger] rest[j], "codec_type"@) != Some(
                            "audio"@,
                        );
                assert(streams[k + 1] == st);
                assert forall|j: int| 0 <= j < k + 1 implies str_field(
                    #[trigger] streams[j],
                    "codec_type"@,
                ) != Some("audio"@) by {
                    if j > 0 {
                        assert(streams[j] == rest[j - 1]);
                    }
                }
                assert(str_field(streams[k + 1], "codec_type"@) == Some("audio"@));
            }
        }
    }
}

/// A string member parsed as `i64`.
pub open spec fn i64_text_field(v: JsonValue, key: Seq<char>) -> Option<i64> {
    match str_field(v, key) {
        Some(t) => parse_i64_spec(t),
        None => None,
    }
}

/// The audio stream of an FFprobe report (`-show_streams`), if it has one.
pub open spec fn audio_stream_of(doc: JsonValue) -> Option<JsonValue> {
    match array_field(doc, "streams"@) {
        Some(streams) => first_audio_stream(streams),
        None => None,
    }
}

/// Whether `r` holds what the FFprobe report `doc` says: from its `format` object the
/// `duration`, `format_name` and `bit_rate`; from its first audio stream the `codec_name`,
/// `sample_rate` and `channels`. Numbers that FFprobe prints as strings are parsed as `i64`.
pub open spec fn probe_fields_of(r: ProbeFields, doc: JsonValue) -> bool {
    &&& match get_spec(doc, "format"@) {
        Some(f) => {
            &&& opt_view(r.duration_seconds) == str_field(f, "duration"@)
            &&& opt_view(r.format) == str_field(f, "format_name"@)
            &&& r.bitrate == i64_text_field(f, "bit_rate"@)
        },
        None => r.duration_seconds is None && r.format is None && r.bitrate is None,
    }
    &&& match audio_stream_of(doc) {
        Some(st) => {
            &&& opt_view(r.codec) == str_field(st, "codec_name"@)
            &&& r.sample_rate == i64_text_field(st, "sample_rate"@)
            &&& r.channels == i64_field(st, "channels"@)
        },
        None => r.codec is None && r.sample_rate is None && r.channels is None,
    }
}

fn clone_str(o: Option<&String>) -> (r: Option<String>)
    ensures
        opt_view(r) == match o {
            Some(s) => Some(s@),
            None => None,
        },
{
    match o {
        Some(s) => Some(s.clone()),
        None => None,
    }
}

fn parse_str_i64(o: Option<&String>) -> (r: Option<i64>)
    ensures
        r == match o {
            Some(s) => parse_i64_spec(s@),
            None => None,
        },
{
    match o {
        Some(s) => parse_i64(&chars_of(s.as_str())),
        None => None,
    }
}

/// The first audio stream among `streams`.
fn find_audio_stream(streams: &Vec<JsonValue>) -> (r: Option<&JsonValue>)
    ensures
        r matches Some(st) ==> first_audio_stream(streams@) == Some(*st),
        r is None ==> first_audio_stream(streams@) is None,
{
    let mut i: usize = 0;
    assert(streams@.skip(0) =~= streams@);
    while i < streams.len()
        invariant
            i <= streams.len(),
            first_audio_stream(streams@) == first_audio_stream(streams@.skip(i as int)),
        decreases streams.len() - i,
    {
        assert(streams@.skip(i as int).drop_first() =~= streams@.skip(i + 1));
        assert(streams@.skip(i as int)[0] == streams@[i as int]);
        let is_audio = match get_str(&streams[i], "codec_type") {
            Some(t) => {
                let audio = String::from_str("audio");
                *t == audio
            },
            None => false,
        };
        if is_audio {
            return Some(&streams[i]);
        }
        i = i + 1;
    }
    None
}

/// Reads an FFprobe report (`-print_format json -show_format -show_streams`).
pub fn probe_fields(doc: &JsonValue) -> (r: ProbeFields)
    ensures
        probe_fields_of(r, *doc),
{
    let (duration_seconds, format, bitrate) = match get(doc, "format") {
        Some(f) => (
            clone_str(get_str(f, "duration")),
            clone_str(get_str(f, "format_name")),
            parse_str_i64(get_str(f, "bit_rate")),
        ),
        None => (None, None, None),
    };
    let stream = match get_array(doc, "streams") {
        Some(streams) => find_audio_stream(streams),
        None => None,
    };
    let (codec, sample_rate, channels) = match stream {
        Some(st) => (
            clone_str(get_str(st, "codec_name")),
            parse_str_i64(get_str(st, "sample_rate")),
            get_i64(st, "channels"),
        ),
        None => (None, None, None),
    };
    ProbeFields { duration_seconds, format, bitrate, codec, sample_rate, channels }
}

/// Reads FFprobe's output: `None` when it is not JSON.
pub fn read_probe_output(stdout: &[u8]) -> (r: Option<ProbeFields>)
    ensures
        r is None <==> parsed_json(stdout@) is None,
        r matches Some(f) ==> (parsed_json(stdout@) matches Some(doc) && probe_fields_of(f, doc)),
{
    match parse_json(stdout) {
        Some(doc) => Some(probe_fields(&doc)),
        None => None,
    }
}

/// What FFprobe adds to a track.
#[derive(Debug)]
pub struct ProbeData {
    pub duration_ms: Option<i64>,
    pub format: Option<String>,
    pub codec: Option<String>,
    pub bitrate: Option<i64>,
    pub sample_rate: Option<i64>,
    pub channels: Option<i64>,
}

impl ProbeFields {
    /// The probe data, with the duration in milliseconds as computed from the seconds.
    pub fn with_duration(self, duration_ms: Option<i64>) -> (r: ProbeData)
        ensures
            r.duration_ms == duration_ms,
            r.format == self.format,
            r.codec == self.codec,
            r.bitrate == self.bitrate,
            r.sample_rate == self.sample_rate,
            r.channels == self.channels,
    {
        ProbeData {
            duration_ms,
            format: self.format,
            codec: self.codec,
            bitrate: self.bitrate,
            sample_rate: self.sample_rate,
            channels: self.channels,
        }
    }
}

/// Combines FFprobe's report into a track read from tags: FFprobe's values win where it has
/// them, except the duration, which it only supplies where the tags gave none.
pub fn merge_probe(track: &mut NewTrack, probed: ProbeData)
    ensures
        final(track).duration_ms == (if old(track).duration_ms is None {
            probed.duration_ms
        } else {
            old(track).duration_ms
        }),
        final(track).format == or_else(probed.format, old(track).format),
        final(track).codec == or_else(probed.codec, old(track).codec),
        final(track).bitrate == or_else(probed.bitrate, old(track).bitrate),
        final(track).sample_rate == or_else(probed.sample_rate, old(track).sample_rate),
        final(track).channels == or_else(probed.channels, old(track).channels),
        final(track).path == old(track).path,
        final(track).title == old(track).title,
        final(track).artist == old(track).artist,
        final(track).album == old(track).album,
        final(track).album_artist == old(track).album_artist,
        final(track).genre == old(track).genre,
        final(track).track_number == old(track).track_number,
        final(track).disc_number == old(track).disc_number,
        final(track).size_bytes == old(track).size_bytes,
        final(track).mtime == old(track).mtime,
        final(track).artwork_hash == old(track).artwork_hash,
{
    if track.duration_ms.is_none() {
        track.duration_ms = probed.duration_ms;
    }
    if probed.format.is_some() {
        track.format = probed.format;
    }
    if probed.codec.is_some() {
        track.codec = probed.codec;
    }
    if probed.bitrate.is_some() {
        track.bitrate = probed.bitrate;
    }
    if probed.sample_rate.is_some() {
        track.sample_rate = probed.sample_rate;
    }
    if probed.channels.is_some() {
        track.channels = probed.channels;
    }
}

/// Reads track metadata, with FFprobe where its path is known.
#[derive(Debug)]
pub struct MetadataReader {
    ffprobe_path: Option<Vec<u8>>,
}

impl MetadataReader {
    /// A reader that runs FFprobe at the given path, or only reads tags.
    pub fn new(ffprobe_path: Option<Vec<u8>>) -> (r: Self)
        ensures
            r.ffprobe() == ffprobe_path,
    {
        MetadataReader { ffprobe_path }
    }

    /// The FFprobe program of the reader.
    pub closed spec fn ffprobe(&self) -> Option<Vec<u8>> {
        self.ffprobe_path
    }

    /// The FFprobe program that the reader runs, if any.
    pub fn ffprobe_path(&self) -> (r: &Option<Vec<u8>>)
        ensures
            *r == self.ffprobe(),
    {
        &self.ffprobe_path
    }
}

} // verus!
