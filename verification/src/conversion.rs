//! Audio conversion: output formats, FFmpeg command lines, output names and the job lifecycle.
use vstd::prelude::*;
use crate::os_paths::{
    dot, extension_spec, file_name_spec, file_stem, file_stem_spec, join_path, join_spec,
    lemma_join_file_name, lemma_split_last_dot, slash,
};
use vstd::utf8::{encode_scalar, encode_utf8};
use crate::text::{
    bytes_of, display_of, display_text, lemma_encode_avoids, lemma_encode_concat,
    lemma_encode_nonempty, to_str_spec, utf8_text,
    chars_equal, chars_of, collapse_whitespace, collapse_ws, lead_count, string_from_chars,
    strip_prefix_chars, strip_prefix_spec, trim_by, trim_class, trim_ws, CharClass,
    is_reserved_in_file_name, is_ws, join, lemma_lead_count_bounds, lemma_trail_count_bounds,
    trail_count, trim_start_by, words,
};

verus! {

/// The formats that a conversion can produce.
#[derive(Clone, Copy, Debug, PartialEq, Eq)]
pub enum ConversionFormat {
    Flac,
    Opus,
    Mp3,
    Aac,
    Alac,
    Wav,
}

/// The file extension of a format's output.
pub open spec fn format_extension(format: ConversionFormat) -> Seq<char> {
    match format {
        ConversionFormat::Flac => "flac"@,
        ConversionFormat::Opus => "opus"@,
        ConversionFormat::Mp3 => "mp3"@,
        ConversionFormat::Aac => "m4a"@,
        ConversionFormat::Alac => "m4a"@,
        ConversionFormat::Wav => "wav"@,
    }
}

impl ConversionFormat {
    /// The file extension of this format's output.
    pub fn extension(&self) -> (r: &'static str)
        ensures
            r@ == format_extension(*self),
    {
        match self {
            ConversionFormat::Flac => "flac",
            ConversionFormat::Opus => "opus",
            ConversionFormat::Mp3 => "mp3",
            ConversionFormat::Aac => "m4a",
            ConversionFormat::Alac => "m4a",
            ConversionFormat::Wav => "wav",
        }
    }
}

/// A target format with an optional encoder quality (a bitrate such as `160k`, or a VBR level).
#[derive(Debug)]
pub struct ConversionPreset {
    pub format: ConversionFormat,
    pub quality: Option<String>,
}

/// A request to convert one file into a directory.
#[derive(Debug)]
pub struct ConversionJobRequest {
    pub source_path: Vec<u8>,
    pub output_dir: Vec<u8>,
    pub preset: ConversionPreset,
    pub overwrite: bool,
}

/// The preset's quality, or `default` when it has none.
pub open spec fn quality_or(preset: ConversionPreset, default: Seq<char>) -> Seq<char> {
    match preset.quality {
        Some(q) => q@,
        None => default,
    }
}

/// The encoder arguments of a preset.
pub open spec fn codec_args(preset: ConversionPreset) -> Seq<Seq<char>> {
    match preset.format {
        ConversionFormat::Flac => seq!["-c:a"@, "flac"@],
        ConversionFormat::Opus => seq!["-c:a"@, "libopus"@, "-b:a"@, quality_or(preset, "160k"@)],
        ConversionFormat::Mp3 => seq!["-c:a"@, "libmp3lame"@, "-q:a"@, quality_or(preset, "2"@)],
        ConversionFormat::Aac => seq!["-c:a"@, "aac"@, "-b:a"@, quality_or(preset, "256k"@)],
        ConversionFormat::Alac => seq!["-c:a"@, "alac"@],
        ConversionFormat::Wav => seq!["-c:a"@, "pcm_s16le"@],
    }
}

/// The FFmpeg command line (without the program) that converts the source, shown as
/// `source_text`, into the output, shown as `output_text`, dropping video streams and reporting
/// progress on stderr.
pub open spec fn ffmpeg_args_spec(
    preset: ConversionPreset,
    source_text: Seq<char>,
    output_text: Seq<char>,
) -> Seq<Seq<char>> {
    seq!["-hide_banner"@, "-y"@, "-i"@, source_text, "-vn"@] + codec_args(preset) + seq![
        "-progress"@,
        "pipe:2"@,
        output_text,
    ]
}

/// The FFmpeg command line reads the source, drops video, encodes with the format's encoder and
/// writes the output, reporting progress on stderr. Opus, MP3 and AAC take the preset's quality
/// when it has one (after `-b:a`, `-q:a`, `-b:a`); only a preset without one gets the format's
/// default: 160k, VBR level 2, 256k.
pub proof fn lemma_ffmpeg_command_line(preset: ConversionPreset, source: Seq<char>, output: Seq<char>)
    ensures
        preset.format is Flac ==> ffmpeg_args_spec(preset, source, output) == seq![
            "-hide_banner"@, "-y"@, "-i"@, source, "-vn"@, "-c:a"@, "flac"@, "-progress"@,
            "pipe:2"@, output,
        ],
        preset.quality matches Some(q) ==> (preset.format is Opus ==> ffmpeg_args_spec(
            preset,
            source,
            output,
        ) == seq![
            "-hide_banner"@, "-y"@, "-i"@, source, "-vn"@, "-c:a"@, "libopus"@, "-b:a"@, q@,
            "-progress"@, "pipe:2"@, output,
        ]),
        preset.format is Opus && preset.quality is None ==> ffmpeg_args_spec(preset, source, output) == seq![
            "-hide_banner"@, "-y"@, "-i"@, source, "-vn"@, "-c:a"@, "libopus"@, "-b:a"@,
            "160k"@, "-progress"@, "pipe:2"@, output,
        ],
        preset.quality matches Some(q) ==> (preset.format is Mp3 ==> ffmpeg_args_spec(
            preset,
            source,
            output,
        ) == seq![
            "-hide_banner"@, "-y"@, "-i"@, source, "-vn"@, "-c:a"@, "libmp3lame"@, "-q:a"@, q@,
            "-progress"@, "pipe:2"@, output,
        ]),
        preset.format is Mp3 && preset.quality is None ==> ffmpeg_args_spec(preset, source, output) == seq![
            "-hide_banner"@, "-y"@, "-i"@, source, "-vn"@, "-c:a"@, "libmp3lame"@, "-q:a"@,
            "2"@, "-progress"@, "pipe:2"@, output,
        ],
        preset.quality matches Some(q) ==> (preset.format is Aac ==> ffmpeg_args_spec(
            preset,
            source,
            output,
        ) == seq![
            "-hide_banner"@, "-y"@, "-i"@, source, "-vn"@, "-c:a"@, "aac"@, "-b:a"@, q@,
            "-progress"@, "pipe:2"@, output,
        ]),
        preset.format is Aac && preset.quality is None ==> ffmpeg_args_spec(preset, source, output) == seq![
            "-hide_banner"@, "-y"@, "-i"@, source, "-vn"@, "-c:a"@, "aac"@, "-b:a"@,
            "256k"@, "-progress"@, "pipe:2"@, output,
        ],
        preset.format is Alac ==> ffmpeg_args_spec(preset, source, output) == seq![
            "-hide_banner"@, "-y"@, "-i"@, source, "-vn"@, "-c:a"@, "alac"@, "-progress"@,
            "pipe:2"@, output,
        ],
        preset.format is Wav ==> ffmpeg_args_spec(preset, source, output) == seq![
            "-hide_banner"@, "-y"@, "-i"@, source, "-vn"@, "-c:a"@, "pcm_s16le"@, "-progress"@,
            "pipe:2"@, output,
        ],
{
    let a = ffmpeg_args_spec(preset, source, output);
    match preset.format {
        ConversionFormat::Flac => {
            assert(a =~= seq![
                "-hide_banner"@, "-y"@, "-i"@, source, "-vn"@, "-c:a"@, "flac"@, "-progress"@,
                "pipe:2"@, output,
            ]);
        },
        ConversionFormat::Alac => {
            assert(a =~= seq![
                "-hide_banner"@, "-y"@, "-i"@, source, "-vn"@, "-c:a"@, "alac"@, "-progress"@,
                "pipe:2"@, output,
            ]);
        },
        ConversionFormat::Wav => {
            assert(a =~= seq![
                "-hide_banner"@, "-y"@, "-i"@, source, "-vn"@, "-c:a"@, "pcm_s16le"@,
                "-progress"@, "pipe:2"@, output,
            ]);
        },
        ConversionFormat::Opus => {
            let q = quality_or(preset, "160k"@);
            assert(a =~= seq![
                "-hide_banner"@, "-y"@, "-i"@, source, "-vn"@, "-c:a"@, "libopus"@, "-b:a"@, q,
                "-progress"@, "pipe:2"@, output,
            ]);
        },
        ConversionFormat::Mp3 => {
            let q = quality_or(preset, "2"@);
            assert(a =~= seq![
                "-hide_banner"@, "-y"@, "-i"@, source, "-vn"@, "-c:a"@, "libmp3lame"@, "-q:a"@,
                q, "-progress"@, "pipe:2"@, output,
            ]);
        },
        ConversionFormat::Aac => {
            let q = quality_or(preset, "256k"@);
            assert(a =~= seq![
                "-hide_banner"@, "-y"@, "-i"@, source, "-vn"@, "-c:a"@, "aac"@, "-b:a"@, q,
                "-progress"@, "pipe:2"@, output,
            ]);
        },
    }
}

fn quality_or_default(preset: &ConversionPreset, default: &str) -> (r: String)
    ensures
        r@ == quality_or(*preset, default@),
{
    match &preset.quality {
        Some(q) => q.clone(),
        None => String::from_str(default),
    }
}

/// The FFmpeg arguments for a preset, with the source and output paths given as text.
pub fn ffmpeg_command(preset: &ConversionPreset, source_text: &str, output_text: &str) -> (args:
    Vec<String>)
    ensures
        args@.map_values(|a: String| a@) == ffmpeg_args_spec(*preset, source_text@, output_text@),
{
    let mut args: Vec<String> = Vec::new();
    args.push(String::from_str("-hide_banner"));
    args.push(String::from_str("-y"));
    args.push(String::from_str("-i"));
    args.push(String::from_str(source_text));
    args.push(String::from_str("-vn"));
    args.push(String::from_str("-c:a"));
    match preset.format {
        ConversionFormat::Flac => {
            args.push(String::from_str("flac"));
        },
        ConversionFormat::Opus => {
            args.push(String::from_str("libopus"));
            args.push(String::from_str("-b:a"));
            args.push(quality_or_default(preset, "160k"));
        },
        ConversionFormat::Mp3 => {
            args.push(String::from_str("libmp3lame"));
            args.push(String::from_str("-q:a"));
            args.push(quality_or_default(preset, "2"));
        },
        ConversionFormat::Aac => {
            args.push(String::from_str("aac"));
            args.push(String::from_str("-b:a"));
            args.push(quality_or_default(preset, "256k"));
        },
        ConversionFormat::Alac => {
            args.push(String::from_str("alac"));
        },
        ConversionFormat::Wav => {
            args.push(String::from_str("pcm_s16le"));
        },
    }
    args.push(String::from_str("-progress"));
    args.push(String::from_str("pipe:2"));
    args.push(String::from_str(output_text));
    assert(args@.map_values(|a: String| a@) =~= ffmpeg_args_spec(
        *preset,
        source_text@,
        output_text@,
    ));
    args
}

/// The FFmpeg arguments for a conversion request writing `output_path`; the paths are passed as
/// `Path::display` shows them.
pub fn ffmpeg_args(request: &ConversionJobRequest, output_path: &Vec<u8>) -> (args: Vec<String>)
    ensures
        args@.map_values(|a: String| a@) == ffmpeg_args_spec(
            request.preset,
            display_text(request.source_path@),
            display_text(output_path@),
        ),
{
    let source_text = display_of(&request.source_path);
    let output_text = display_of(output_path);
    ffmpeg_command(&request.preset, source_text.as_str(), output_text.as_str())
}

/// What one line of FFmpeg's `-progress` output says about a conversion.
#[derive(Debug, PartialEq, Eq)]
pub enum ProgressReading {
    /// `progress=end`: the conversion has finished.
    Complete,
    /// A line that gives no progress figure.
    Unknown,
    /// `out_time_ms=` with the elapsed output time in microseconds (as FFmpeg printed it), for a
    /// track of known positive duration in milliseconds.
    Elapsed { micros: String, duration_ms: i64 },
}

/// Whether `r` is what `line` says, for a track of duration `duration_ms`.
pub open spec fn progress_reading_of(
    r: ProgressReading,
    line: Seq<char>,
    duration_ms: Option<i64>,
) -> bool {
    match strip_prefix_spec(line, "progress="@) {
        Some(value) => if value == "end"@ {
            r == ProgressReading::Complete
        } else {
            r == ProgressReading::Unknown
        },
        None => match strip_prefix_spec(line, "out_time_ms="@) {
            Some(value) => match duration_ms {
                Some(d) => if d > 0 {
                    r matches ProgressReading::Elapsed { micros, duration_ms }
                        && micros@ == value && duration_ms == d
                } else {
                    r == ProgressReading::Unknown
                },
                None => r == ProgressReading::Unknown,
            },
            None => r == ProgressReading::Unknown,
        },
    }
}

/// Reads one line of FFmpeg's `-progress` output. The fraction done is the elapsed time over
/// the duration, clamped to `0.0..=0.99` until `Complete`.
pub fn read_progress_line(line: &str, duration_ms: Option<i64>) -> (r: ProgressReading)
    ensures
        progress_reading_of(r, line@, duration_ms),
{
    let v = chars_of(line);
    let progress_key = chars_of("progress=");
    if let Some(value) = strip_prefix_chars(&v, &progress_key) {
        let end = chars_of("end");
        if chars_equal(&value, &end) {
            return ProgressReading::Complete;
        }
        return ProgressReading::Unknown;
    }
    let time_key = chars_of("out_time_ms=");
    if let Some(value) = strip_prefix_chars(&v, &time_key) {
        match duration_ms {
            Some(d) => {
                if d > 0 {
                    return ProgressReading::Elapsed {
                        micros: string_from_chars(value.as_slice()),
                        duration_ms: d,
                    };
                }
                return ProgressReading::Unknown;
            },
            None => {
                return ProgressReading::Unknown;
            },
        }
    }
    ProgressReading::Unknown
}

/// The regular expression whose matches `sanitize_file_name` replaces: runs of reserved
/// characters.
pub const RESERVED_RUN_PATTERN: &'static str = r#"[<>:"/\\|?*\x00-\x1f]+"#;

/// `s` with each maximal run of reserved characters replaced by `rep`.
pub open spec fn replace_reserved_runs(s: Seq<char>, rep: Seq<char>) -> Seq<char>
    decreases s.len(),
{
    if s.len() == 0 {
        seq![]
    } else if is_reserved_in_file_name(s[0]) {
        let n = lead_count(s, CharClass::Reserved);
        if 0 < n <= s.len() {
            rep + replace_reserved_runs(s.skip(n as int), rep)
        } else {
            rep
        }
    } else {
        seq![s[0]] + replace_reserved_runs(s.drop_first(), rep)
    }
}

/// `regex::Regex::new(pattern)` (which cannot fail for this pattern) followed by
/// `Regex::replace_all(text, replacement)`. The pattern is one character class repeated
/// greedily, so its leftmost-first, non-overlapping matches are exactly the maximal runs of
/// reserved characters; `replace_all` replaces each by the replacement, here `_`, which holds no
/// `$` group reference.
#[verifier::external_body]
fn regex_replace_all(pattern: &str, text: &str, replacement: &str) -> (r: String)
    requires
        pattern@ == RESERVED_RUN_PATTERN@,
        replacement@ == "_"@,
    ensures
        r@ == replace_reserved_runs(text@, replacement@),
{
    regex::Regex::new(pattern).expect("valid filename regex").replace_all(text, replacement)
        .into_owned()
}

/// The file name that `sanitize_file_name` makes of `input`: trimmed, each run of reserved
/// characters replaced by `_`, whitespace runs collapsed to one space, leading and trailing dots
/// removed, and `untitled` where nothing is left.
pub open spec fn sanitized_name(input: Seq<char>) -> Seq<char> {
    let s = trim_by(
        collapse_ws(replace_reserved_runs(trim_ws(input), seq!['_'])),
        CharClass::Dot,
    );
    if s.len() == 0 {
        "untitled"@
    } else {
        s
    }
}

/// Makes a safe file name of `input`.
pub fn sanitize_file_name(input: &str) -> (r: String)
    ensures
        r@ == sanitized_name(input@),
{
    let v = chars_of(input);
    let trimmed = trim_class(&v, CharClass::Whitespace);
    let trimmed_text = string_from_chars(trimmed.as_slice());
    proof {
        reveal_strlit("_");
        assert("_"@ =~= seq!['_']);
    }
    let replaced = regex_replace_all(RESERVED_RUN_PATTERN, trimmed_text.as_str(), "_");
    let rv = chars_of(replaced.as_str());
    let collapsed = collapse_whitespace(&rv);
    let undotted = trim_class(&collapsed, CharClass::Dot);
    if undotted.len() == 0 {
        String::from_str("untitled")
    } else {
        string_from_chars(undotted.as_slice())
    }
}

/// `s` holds no reserved character.
pub open spec fn no_reserved(s: Seq<char>) -> bool {
    forall|i: int| 0 <= i < s.len() ==> !is_reserved_in_file_name(#[trigger] s[i])
}

proof fn lemma_replace_runs_no_reserved(s: Seq<char>, rep: Seq<char>)
    requires
        no_reserved(rep),
    ensures
        no_reserved(replace_reserved_runs(s, rep)),
    decreases s.len(),
{
    if s.len() == 0 {
    } else if is_reserved_in_file_name(s[0]) {
        let n = lead_count(s, CharClass::Reserved);
        if 0 < n <= s.len() {
            lemma_replace_runs_no_reserved(s.skip(n as int), rep);
            let rest = replace_reserved_runs(s.skip(n as int), rep);
            assert forall|i: int| 0 <= i < (rep + rest).len() implies !is_reserved_in_file_name(
                #[trigger] (rep + rest)[i],
            ) by {
                if i >= rep.len() {
                    assert((rep + rest)[i] == rest[i - rep.len()]);
                }
            }
        }
    } else {
        lemma_replace_runs_no_reserved(s.drop_first(), rep);
        let rest = replace_reserved_runs(s.drop_first(), rep);
        assert forall|i: int| 0 <= i < (seq![s[0]] + rest).len() implies !is_reserved_in_file_name(
            #[trigger] (seq![s[0]] + rest)[i],
        ) by {
            if i >= 1 {
                assert((seq![s[0]] + rest)[i] == rest[i - 1]);
            }
        }
    }
}

proof fn lemma_words_no_reserved(s: Seq<char>)
    requires
        no_reserved(s),
    ensures
        forall|j: int| 0 <= j < words(s).len() ==> no_reserved(#[trigger] words(s)[j]),
    decreases s.len(),
{
    if s.len() == 0 {
    } else if is_ws(s[0]) {
        assert(no_reserved(s.drop_first())) by {
            assert forall|i: int| 0 <= i < s.drop_first().len() implies !is_reserved_in_file_name(
                #[trigger] s.drop_first()[i],
            ) by {
                assert(s.drop_first()[i] == s[i + 1]);
            }
        }
        lemma_words_no_reserved(s.drop_first());
        assert(words(s) == words(s.drop_first()));
    } else {
        let n = lead_count(s, CharClass::NonWhitespace);
        if 0 < n <= s.len() {
            let rest = s.skip(n as int);
            assert(no_reserved(rest)) by {
                assert forall|i: int| 0 <= i < rest.len() implies !is_reserved_in_file_name(
                    #[trigger] rest[i],
                ) by {
                    assert(rest[i] == s[i + n]);
                }
            }
            assert(no_reserved(s.take(n as int))) by {
                assert forall|i: int| 0 <= i < n implies !is_reserved_in_file_name(
                    #[trigger] s.take(n as int)[i],
                ) by {
                    assert(s.take(n as int)[i] == s[i]);
                }
            }
            lemma_words_no_reserved(rest);
            let ws = seq![s.take(n as int)] + words(rest);
            assert(words(s) == ws);
            assert forall|j: int| 0 <= j < ws.len() implies no_reserved(#[trigger] ws[j]) by {
                if j >= 1 {
                    assert(ws[j] == words(rest)[j - 1]);
                }
            }
        }
    }
}

proof fn lemma_join_no_reserved(parts: Seq<Seq<char>>, sep: Seq<char>)
    requires
        no_reserved(sep),
        forall|j: int| 0 <= j < parts.len() ==> no_reserved(#[trigger] parts[j]),
    ensures
        no_reserved(join(parts, sep)),
    decreases parts.len(),
{
    if parts.len() > 1 {
        let init = parts.drop_last();
        assert forall|j: int| 0 <= j < init.len() implies no_reserved(#[trigger] init[j]) by {
            assert(init[j] == parts[j]);
        }
        lemma_join_no_reserved(init, sep);
        let a = join(init, sep);
        let b = parts.last();
        assert(no_reserved(b)) by {
            assert(b == parts[parts.len() - 1]);
        }
        assert forall|i: int| 0 <= i < (a + sep + b).len() implies !is_reserved_in_file_name(
            #[trigger] (a + sep + b)[i],
        ) by {
            if i < a.len() {
                assert((a + sep + b)[i] == a[i]);
            } else if i < a.len() + sep.len() {
                assert((a + sep + b)[i] == sep[i - a.len()]);
            } else {
                assert((a + sep + b)[i] == b[i - a.len() - sep.len()]);
            }
        }
    } else if parts.len() == 1 {
        assert(no_reserved(parts[0]));
    }
}

proof fn lemma_trim_keeps_no_reserved(s: Seq<char>, cls: CharClass)
    requires
        no_reserved(s),
    ensures
        no_reserved(trim_by(s, cls)),
{
    lemma_lead_count_bounds(s, cls);
    let u = trim_start_by(s, cls);
    lemma_trail_count_bounds(u, cls);
    let t = trim_by(s, cls);
    assert forall|i: int| 0 <= i < t.len() implies !is_reserved_in_file_name(#[trigger] t[i]) by {
        assert(t[i] == u[i]);
        assert(u[i] == s[i + lead_count(s, cls)]);
    }
}

proof fn lemma_trim_dots_ends(s: Seq<char>)
    ensures
        trim_by(s, CharClass::Dot).len() > 0 ==> trim_by(s, CharClass::Dot)[0] != '.' && trim_by(
            s,
            CharClass::Dot,
        ).last() != '.',
{
    lemma_lead_count_bounds(s, CharClass::Dot);
    let u = trim_start_by(s, CharClass::Dot);
    lemma_trail_count_bounds(u, CharClass::Dot);
    let t = trim_by(s, CharClass::Dot);
    if t.len() > 0 {
        assert(t[0] == u[0]);
        assert(u[0] == s[lead_count(s, CharClass::Dot) as int]);
        assert(t.last() == u[u.len() - trail_count(u, CharClass::Dot) - 1]);
    }
}

/// A sanitized file name is never empty, holds no reserved character (in particular no path
/// separator), and neither starts nor ends with a dot.
pub proof fn lemma_sanitized_name_is_safe(input: Seq<char>)
    ensures
        sanitized_name(input).len() > 0,
        no_reserved(sanitized_name(input)),
        sanitized_name(input)[0] != '.',
        sanitized_name(input).last() != '.',
{
    let replaced = replace_reserved_runs(trim_ws(input), seq!['_']);
    lemma_replace_runs_no_reserved(trim_ws(input), seq!['_']);
    lemma_words_no_reserved(replaced);
    lemma_join_no_reserved(words(replaced), seq![' ']);
    lemma_trim_keeps_no_reserved(collapse_ws(replaced), CharClass::Dot);
    lemma_trim_dots_ends(collapse_ws(replaced));
    reveal_strlit("untitled");
    let u = "untitled"@;
    assert forall|i: int| 0 <= i < u.len() implies !is_reserved_in_file_name(#[trigger] u[i]) by {
        assert(i == 0 || i == 1 || i == 2 || i == 3 || i == 4 || i == 5 || i == 6 || i == 7);
    }
}

/// The file stem that names a conversion's output: the source's stem when it is UTF-8, else
/// `track`.
pub open spec fn source_stem(source: Seq<u8>) -> Seq<char> {
    match file_stem_spec(source) {
        Some(stem) => match to_str_spec(stem) {
            Some(t) => t,
            None => "track"@,
        },
        None => "track"@,
    }
}

/// The file name of a conversion's output: the sanitized stem with the extension.
pub open spec fn output_name_spec(source: Seq<u8>, ext: Seq<char>) -> Seq<char> {
    sanitized_name(source_stem(source)) + "."@ + ext
}

/// Where a conversion of `source` into `output_dir` with the given extension writes.
pub open spec fn output_path_spec(source: Seq<u8>, output_dir: Seq<u8>, ext: Seq<char>) -> Seq<u8> {
    join_spec(output_dir, encode_utf8(output_name_spec(source, ext)))
}

/// The output path of a conversion: the sanitized stem of the source, with the format's
/// extension, in the output directory.
pub fn build_output_path(source: &Vec<u8>, output_dir: &Vec<u8>, extension: &str) -> (r: Vec<u8>)
    ensures
        r@ == output_path_spec(source@, output_dir@, extension@),
{
    let stem = match file_stem(source) {
        Some(stem) => match utf8_text(stem.as_slice()) {
            Some(t) => t,
            None => String::from_str("track"),
        },
        None => String::from_str("track"),
    };
    let name = sanitize_file_name(stem.as_str()).concat(".").concat(extension);
    join_path(output_dir, &bytes_of(name.as_str()))
}

/// Why a conversion cannot start.
#[derive(Debug, PartialEq, Eq)]
pub enum ConversionError {
    /// The source path is empty.
    EmptyPath,
    /// The output file exists and the request does not allow overwriting it.
    OutputExists { path: Vec<u8> },
}

impl ConversionError {
    /// The error's message.
    pub fn message(&self) -> (r: String)
        ensures
            r@ == match self {
                ConversionError::EmptyPath => "empty path"@,
                ConversionError::OutputExists { path } => "output already exists: "@
                    + display_text(path@),
            },
    {
        match self {
            ConversionError::EmptyPath => String::from_str("empty path"),
            ConversionError::OutputExists { path } => {
                let shown = display_of(path);
                String::from_str("output already exists: ").concat(shown.as_str())
            },
        }
    }
}

/// Refuses an empty source path.
pub fn validate_safe_path(path: &Vec<u8>) -> (r: Result<(), ConversionError>)
    ensures
        r is Err <==> path@.len() == 0,
        r matches Err(e) ==> e == ConversionError::EmptyPath,
{
    if path.is_empty() {
        Err(ConversionError::EmptyPath)
    } else {
        Ok(())
    }
}

/// Decides whether a conversion may write `output_path`, given whether a file is already there.
pub fn check_output_free(output_path: &Vec<u8>, output_exists: bool, overwrite: bool) -> (r: Result<
    (),
    ConversionError,
>)
    ensures
        r is Err <==> output_exists && !overwrite,
        r matches Err(e) ==> (e matches ConversionError::OutputExists { path } && path@
            == output_path@),
{
    if output_exists && !overwrite {
        Err(ConversionError::OutputExists { path: output_path.clone() })
    } else {
        Ok(())
    }
}

/// The output path of a request: the source path is checked, then named into the output
/// directory with the preset format's extension.
pub fn plan_output_path(request: &ConversionJobRequest) -> (r: Result<Vec<u8>, ConversionError>)
    ensures
        r is Err <==> request.source_path@.len() == 0,
        r matches Err(e) ==> e == ConversionError::EmptyPath,
        r matches Ok(p) ==> p@ == output_path_spec(
            request.source_path@,
            request.output_dir@,
            format_extension(request.preset.format),
        ),
{
    validate_safe_path(&request.source_path)?;
    Ok(
        build_output_path(
            &request.source_path,
            &request.output_dir,
            request.preset.format.extension(),
        ),
    )
}

/// Where a conversion job stands.
#[derive(Clone, Copy, Debug, PartialEq, Eq)]
pub enum JobPhase {
    Queued,
    Running,
    Finished,
    Failed,
}

/// The name under which a phase is stored and reported.
pub open spec fn phase_name(phase: JobPhase) -> Seq<char> {
    match phase {
        JobPhase::Queued => "queued"@,
        JobPhase::Running => "running"@,
        JobPhase::Finished => "finished"@,
        JobPhase::Failed => "failed"@,
    }
}

impl JobPhase {
    /// The name under which this phase is stored and reported.
    pub fn name(&self) -> (r: &'static str)
        ensures
            r@ == phase_name(*self),
    {
        match self {
            JobPhase::Queued => "queued",
            JobPhase::Running => "running",
            JobPhase::Finished => "finished",
            JobPhase::Failed => "failed",
        }
    }

    /// A phase after which nothing more happens to the job.
    pub open spec fn is_terminal(self) -> bool {
        self == JobPhase::Finished || self == JobPhase::Failed
    }
}

/// The state and message of a conversion job; its progress fraction and timestamps are kept
/// beside it by the job's owner.
#[derive(Debug)]
pub struct JobStatus {
    pub phase: JobPhase,
    pub message: Option<String>,
}

impl JobStatus {
    /// A job just accepted: queued, with no message.
    pub fn queued() -> (r: JobStatus)
        ensures
            r.phase == JobPhase::Queued,
            r.message is None,
    {
        JobStatus { phase: JobPhase::Queued, message: None }
    }

    /// The job's conversion starts.
    pub fn start(&mut self)
        ensures
            final(self).phase == JobPhase::Running,
            final(self).message == old(self).message,
    {
        self.phase = JobPhase::Running;
    }

    /// The job's conversion ends: `Ok` finishes it with the message `finished`, an error fails it
    /// with the error's message. Its progress is then complete when it finished.
    pub fn finish(&mut self, outcome: Result<(), String>)
        ensures
            final(self).phase == (if outcome is Ok {
                JobPhase::Finished
            } else {
                JobPhase::Failed
            }),
            final(self).phase.is_terminal(),
            outcome is Ok ==> (final(self).message matches Some(m) && m@ == "finished"@),
            outcome matches Err(e) ==> (final(self).message matches Some(m) && m@ == e@),
    {
        match outcome {
            Ok(()) => {
                self.phase = JobPhase::Finished;
                self.message = Some(String::from_str("finished"));
            },
            Err(e) => {
                self.phase = JobPhase::Failed;
                self.message = Some(e);
            },
        }
    }
}

/// A conversion writes into its output directory a file whose name is the sanitized stem of the
/// source with the format's extension.
pub proof fn lemma_output_path_names(source: Seq<u8>, output_dir: Seq<u8>, format: ConversionFormat)
    ensures
        file_name_spec(output_path_spec(source, output_dir, format_extension(format))) == Some(
            encode_utf8(output_name_spec(source, format_extension(format))),
        ),
        extension_spec(output_path_spec(source, output_dir, format_extension(format))) == Some(
            encode_utf8(format_extension(format)),
        ),
{
    let s = sanitized_name(source_stem(source));
    let ext = format_extension(format);
    lemma_sanitized_name_is_safe(source_stem(source));
    reveal_strlit(".");
    reveal_strlit("flac");
    reveal_strlit("opus");
    reveal_strlit("mp3");
    reveal_strlit("m4a");
    reveal_strlit("wav");
    assert("."@ =~= seq!['.']);
    assert(ext.len() >= 3);
    assert forall|i: int| 0 <= i < ext.len() implies #[trigger] ext[i] != '.' && ext[i] != '/' by {
        assert(i == 0 || i == 1 || i == 2 || i == 3);
    }
    let name = s + "."@ + ext;
    assert forall|i: int| 0 <= i < name.len() implies #[trigger] name[i] != '/' by {
        if i < s.len() {
            assert(name[i] == s[i]);
            assert(!is_reserved_in_file_name(s[i]));
        } else if i == s.len() {
            assert(name[i] == '.');
        } else {
            assert(name[i] == ext[i - s.len() - 1]);
        }
    }
    let es = encode_utf8(s);
    let ee = encode_utf8(ext);
    lemma_encode_concat(s, seq!['.']);
    lemma_encode_concat(s + seq!['.'], ext);
    lemma_encode_scalar_bytes_dot();
    assert(encode_utf8(seq!['.']) =~= seq![dot()]);
    assert(encode_utf8(s + seq!['.']) == es + seq![dot()]);
    let en = encode_utf8(name);
    assert(en == es + seq![dot()] + ee);
    lemma_encode_avoids(name, '/');
    lemma_encode_avoids(ext, '.');
    lemma_encode_nonempty(s);
    lemma_encode_nonempty(ext);
    assert(en.len() >= 5);
    assert forall|i: int| 0 <= i < en.len() implies #[trigger] en[i] != slash() by {
        assert(en[i] != ('/' as u32) as u8);
    }
    assert forall|i: int| 0 <= i < ee.len() implies #[trigger] ee[i] != dot() by {
        assert(ee[i] != ('.' as u32) as u8);
    }
    lemma_join_file_name(output_dir, en);
    lemma_split_last_dot(es, ee);
}

proof fn lemma_encode_scalar_bytes_dot()
    ensures
        encode_utf8(seq!['.']) == seq![dot()],
{
    let s = seq!['.'];
    crate::text::lemma_encode_scalar_bytes('.');
    assert(('.' as u32) == 46);
    assert(s.drop_first() =~= Seq::<char>::empty());
    assert(encode_utf8(s.drop_first()) =~= Seq::<u8>::empty());
    assert(encode_utf8(s) == encode_scalar(s[0] as u32) + encode_utf8(s.drop_first()));
    assert(encode_utf8(s) =~= seq![dot()]);
}

/// Whitespace in `s` is only single spaces: every whitespace character is a space, and no space
/// follows another.
pub open spec fn single_spaced(s: Seq<char>) -> bool {
    &&& forall|i: int| 0 <= i < s.len() && is_ws(#[trigger] s[i]) ==> s[i] == ' '
    &&& forall|i: int| 0 <= i < s.len() - 1 && #[trigger] s[i] == ' ' ==> s[i + 1] != ' '
}

/// `w` is a non-empty run without whitespace.
pub open spec fn is_word(w: Seq<char>) -> bool {
    w.len() > 0 && forall|i: int| 0 <= i < w.len() ==> !is_ws(#[trigger] w[i])
}

proof fn lemma_words_are_words(s: Seq<char>)
    ensures
        forall|j: int| 0 <= j < words(s).len() ==> is_word(#[trigger] words(s)[j]),
    decreases s.len(),
{
    if s.len() == 0 {
    } else if is_ws(s[0]) {
        lemma_words_are_words(s.drop_first());
        assert(words(s) == words(s.drop_first()));
    } else {
        let n = lead_count(s, CharClass::NonWhitespace);
        if 0 < n <= s.len() {
            let rest = s.skip(n as int);
            lemma_words_are_words(rest);
            lemma_lead_count_bounds(s, CharClass::NonWhitespace);
            assert(is_word(s.take(n as int))) by {
                assert forall|i: int| 0 <= i < n implies !is_ws(#[trigger] s.take(n as int)[i]) by {
                    assert(s.take(n as int)[i] == s[i]);
                }
            }
            let ws = seq![s.take(n as int)] + words(rest);
            assert(words(s) == ws);
            assert forall|j: int| 0 <= j < ws.len() implies is_word(#[trigger] ws[j]) by {
                if j >= 1 {
                    assert(ws[j] == words(rest)[j - 1]);
                }
            }
        }
    }
}

proof fn lemma_join_words_single_spaced(parts: Seq<Seq<char>>)
    requires
        forall|j: int| 0 <= j < parts.len() ==> is_word(#[trigger] parts[j]),
    ensures
        single_spaced(join(parts, seq![' '])),
        parts.len() > 0 ==> join(parts, seq![' ']).len() > 0 && join(parts, seq![' ']).last()
            != ' ',
    decreases parts.len(),
{
    if parts.len() == 1 {
        assert(is_word(parts[0]));
        assert(join(parts, seq![' ']) == parts[0]);
        assert(parts[0].last() == parts[0][parts[0].len() - 1]);
    } else if parts.len() > 1 {
        let init = parts.drop_last();
        assert forall|j: int| 0 <= j < init.len() implies is_word(#[trigger] init[j]) by {
            assert(init[j] == parts[j]);
        }
        lemma_join_words_single_spaced(init);
        let a = join(init, seq![' ']);
        let b = parts.last();
        assert(is_word(b)) by {
            assert(b == parts[parts.len() - 1]);
        }
        let t = a + seq![' '] + b;
        assert(join(parts, seq![' ']) == t);
        assert(a.last() == a[a.len() - 1]);
        assert forall|i: int| 0 <= i < t.len() && is_ws(#[trigger] t[i]) implies t[i] == ' ' by {
            if i < a.len() {
                assert(t[i] == a[i]);
            } else if i > a.len() {
                assert(t[i] == b[i - a.len() - 1]);
            }
        }
        assert forall|i: int| 0 <= i < t.len() - 1 && #[trigger] t[i] == ' ' implies t[i + 1] != ' ' by {
            if i < a.len() - 1 {
                assert(t[i] == a[i]);
                assert(t[i + 1] == a[i + 1]);
            } else if i == a.len() - 1 {
                assert(t[i] == a[a.len() - 1]);
            } else if i == a.len() {
                assert(t[i + 1] == b[0]);
            } else {
                assert(t[i + 1] == b[i + 1 - a.len() - 1]);
                assert(!is_ws(b[i + 1 - a.len() - 1]));
            }
        }
        assert(t.last() == b[b.len() - 1]);
    }
}

/// Whitespace in a sanitized file name is only single spaces.
pub proof fn lemma_sanitized_name_single_spaced(input: Seq<char>)
    ensures
        single_spaced(sanitized_name(input)),
{
    let replaced = replace_reserved_runs(trim_ws(input), seq!['_']);
    lemma_words_are_words(replaced);
    lemma_join_words_single_spaced(words(replaced));
    let c = collapse_ws(replaced);
    lemma_lead_count_bounds(c, CharClass::Dot);
    let u = trim_start_by(c, CharClass::Dot);
    lemma_trail_count_bounds(u, CharClass::Dot);
    let t = trim_by(c, CharClass::Dot);
    let a = lead_count(c, CharClass::Dot) as int;
    assert forall|i: int| 0 <= i < t.len() implies #[trigger] t[i] == c[i + a] by {
        assert(t[i] == u[i]);
    }
    assert forall|i: int| 0 <= i < t.len() && is_ws(#[trigger] t[i]) implies t[i] == ' ' by {
        assert(t[i] == c[i + a]);
    }
    assert forall|i: int| 0 <= i < t.len() - 1 && #[trigger] t[i] == ' ' implies t[i + 1] != ' ' by {
        assert(t[i] == c[i + a]);
        assert(t[i + 1] == c[i + 1 + a]);
    }
    reveal_strlit("untitled");
    let w = "untitled"@;
    assert forall|i: int| 0 <= i < w.len() implies !is_ws(#[trigger] w[i]) && w[i] != ' ' by {
        assert(i == 0 || i == 1 || i == 2 || i == 3 || i == 4 || i == 5 || i == 6 || i == 7);
    }
}

} // verus!
