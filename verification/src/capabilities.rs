//! The external tools (FFmpeg, FFprobe, mpv) and what the installed FFmpeg can do.
use vstd::prelude::*;
use vstd::utf8::encode_utf8;
use crate::text::{
    chars_of, is_ascii_alpha, lines, split_lines, split_words, string_from_chars, trim_class,
    trim_start_by, trim_ws, utf8_len_below, slice_chars, words, CharClass, skip_class,
};

verus! {

/// One external tool: where it was found and the first line of its `-version` output.
#[derive(Debug)]
pub struct ToolInfo {
    pub name: String,
    pub path: Option<Vec<u8>>,
    pub version: Option<String>,
    pub available: bool,
}

/// What the installed tools provide: the tools themselves and the codec and container names
/// that FFmpeg lists.
#[derive(Debug)]
pub struct CodecCapabilities {
    pub ffmpeg: ToolInfo,
    pub ffprobe: ToolInfo,
    pub mpv: ToolInfo,
    pub decoders: Vec<String>,
    pub encoders: Vec<String>,
    pub muxers: Vec<String>,
    pub demuxers: Vec<String>,
    pub android_codec_pack: String,
}

/// `info` describes a tool of that name that was not found.
pub open spec fn is_missing_tool(info: ToolInfo, name: Seq<char>) -> bool {
    &&& info.name@ == name
    &&& info.path is None
    &&& info.version is None
    &&& !info.available
}

/// A tool that was not found.
pub fn missing(name: &str) -> (r: ToolInfo)
    ensures
        is_missing_tool(r, name@),
{
    ToolInfo { name: String::from_str(name), path: None, version: None, available: false }
}

/// The first line of a tool's `-version` output, trimmed.
pub open spec fn version_line(output: Seq<char>) -> Option<Seq<char>> {
    if lines(output).len() == 0 {
        None
    } else {
        Some(trim_ws(lines(output)[0]))
    }
}

/// The first line of `output`, trimmed.
pub fn first_line_trimmed(output: &str) -> (r: Option<String>)
    ensures
        r matches Some(s) ==> version_line(output@) == Some(s@),
        r is None ==> version_line(output@) is None,
{
    let v = chars_of(output);
    let ls = split_lines(&v);
    if ls.len() == 0 {
        None
    } else {
        let t = trim_class(&ls[0], CharClass::Whitespace);
        Some(string_from_chars(t.as_slice()))
    }
}

/// A tool found at `path`; `version_output` is what its `-version` printed on stdout, if it ran.
pub fn found_tool(name: &str, path: Vec<u8>, version_output: Option<String>) -> (r: ToolInfo)
    ensures
        r.name@ == name@,
        r.path == Some(path),
        r.available,
        version_output is None ==> r.version is None,
        version_output matches Some(out) ==> (match version_line(out@) {
            Some(l) => r.version matches Some(v) && v@ == l,
            None => r.version is None,
        }),
{
    let version = match version_output {
        Some(out) => first_line_trimmed(out.as_str()),
        None => None,
    };
    ToolInfo { name: String::from_str(name), path: Some(path), version, available: true }
}

/// The name that one line of `ffmpeg -decoders` (or `-encoders`, `-muxers`, `-demuxers`) lists,
/// if any: after leading whitespace the line must be at least eight bytes long and not start with
/// `-`; its first field holds the capability flags, at least one of them a letter, and its second
/// field is the name.
pub open spec fn ffmpeg_list_entry(line: Seq<char>) -> Option<Seq<char>> {
    let t = trim_start_by(line, CharClass::Whitespace);
    let fields = words(t);
    if encode_utf8(t).len() < 8 || (t.len() > 0 && t[0] == '-') || fields.len() < 2 {
        None
    } else if exists|i: int| 0 <= i < fields[0].len() && is_ascii_alpha(#[trigger] fields[0][i]) {
        Some(fields[1])
    } else {
        None
    }
}

/// The names that the lines list, in order.
pub open spec fn ffmpeg_list_names(ls: Seq<Seq<char>>) -> Seq<Seq<char>>
    decreases ls.len(),
{
    if ls.len() == 0 {
        seq![]
    } else {
        let rest = ffmpeg_list_names(ls.drop_last());
        match ffmpeg_list_entry(ls.last()) {
            Some(n) => rest.push(n),
            None => rest,
        }
    }
}

fn has_ascii_alpha(v: &Vec<char>) -> (b: bool)
    ensures
        b == exists|i: int| 0 <= i < v@.len() && is_ascii_alpha(#[trigger] v@[i]),
{
    let mut i: usize = 0;
    while i < v.len()
        invariant
            i <= v.len(),
            forall|k: int| 0 <= k < i ==> !is_ascii_alpha(#[trigger] v@[k]),
        decreases v.len() - i,
    {
        let c = v[i];
        if ('a' <= c && c <= 'z') || ('A' <= c && c <= 'Z') {
            return true;
        }
        i = i + 1;
    }
    false
}

/// The name listed on one line, if any.
pub fn list_entry(line: &Vec<char>) -> (r: Option<String>)
    ensures
        r matches Some(s) ==> ffmpeg_list_entry(line@) == Some(s@),
        r is None ==> ffmpeg_list_entry(line@) is None,
{
    let start = skip_class(line, 0, CharClass::Whitespace);
    assert(line@.skip(0) =~= line@);
    let t = slice_chars(line, start, line.len());
    assert(t@ =~= trim_start_by(line@, CharClass::Whitespace));
    if utf8_len_below(&t, 8) || (t.len() > 0 && t[0] == '-') {
        return None;
    }
    let fields = split_words(&t);
    assert(fields@.map_values(|w: Vec<char>| w@).len() == fields@.len());
    if fields.len() < 2 {
        return None;
    }
    assert(fields@.map_values(|w: Vec<char>| w@)[0] == fields@[0]@);
    assert(fields@.map_values(|w: Vec<char>| w@)[1] == fields@[1]@);
    if has_ascii_alpha(&fields[0]) {
        Some(string_from_chars(fields[1].as_slice()))
    } else {
        None
    }
}

/// The names that the output of `ffmpeg -decoders` (or `-encoders`, `-muxers`, `-demuxers`)
/// lists, in order.
pub fn parse_ffmpeg_list(output: &str) -> (r: Vec<String>)
    ensures
        r@.map_values(|s: String| s@) == ffmpeg_list_names(lines(output@)),
{
    let v = chars_of(output);
    let ls = split_lines(&v);
    let ghost lv = ls@.map_values(|l: Vec<char>| l@);
    let mut r: Vec<String> = Vec::new();
    let mut i: usize = 0;
    while i < ls.len()
        invariant
            i <= ls.len(),
            lv == ls@.map_values(|l: Vec<char>| l@),
            r@.map_values(|s: String| s@) == ffmpeg_list_names(lv.take(i as int)),
        decreases ls.len() - i,
    {
        let ghost before = r@.map_values(|s: String| s@);
        assert(lv.take(i + 1).drop_last() =~= lv.take(i as int));
        assert(lv.take(i + 1).last() == ls@[i as int]@);
        match list_entry(&ls[i]) {
            Some(name) => {
                r.push(name);
                assert(r@.map_values(|s: String| s@) =~= before.push(r@[r@.len() - 1]@));
            },
            None => {},
        }
        i = i + 1;
    }
    assert(lv.take(ls.len() as int) =~= lv);
    r
}

/// The names that a run of `ffmpeg` with a listing flag reports: those of its stdout when it
/// ran, none when it could not be run.
pub fn ffmpeg_list_from_output(output: Option<String>) -> (r: Vec<String>)
    ensures
        output is None ==> r@.len() == 0,
        output matches Some(out) ==> r@.map_values(|s: String| s@) == ffmpeg_list_names(
            lines(out@),
        ),
{
    match output {
        Some(out) => parse_ffmpeg_list(out.as_str()),
        None => Vec::new(),
    }
}

/// Whether the platform needs a bundled codec pack: on Android FFmpeg cannot come from the
/// system.
pub open spec fn android_pack_name(on_android: bool) -> Seq<char> {
    if on_android {
        "bundled_required"@
    } else {
        "not_applicable"@
    }
}

impl CodecCapabilities {
    /// Nothing detected: every tool missing, no lists, no codec pack needed.
    pub fn empty() -> (r: Self)
        ensures
            is_missing_tool(r.ffmpeg, "ffmpeg"@),
            is_missing_tool(r.ffprobe, "ffprobe"@),
            is_missing_tool(r.mpv, "mpv"@),
            r.decoders@.len() == 0,
            r.encoders@.len() == 0,
            r.muxers@.len() == 0,
            r.demuxers@.len() == 0,
            r.android_codec_pack@ == android_pack_name(false),
    {
        CodecCapabilities {
            ffmpeg: missing("ffmpeg"),
            ffprobe: missing("ffprobe"),
            mpv: missing("mpv"),
            decoders: Vec::new(),
            encoders: Vec::new(),
            muxers: Vec::new(),
            demuxers: Vec::new(),
            android_codec_pack: String::from_str("not_applicable"),
        }
    }

    /// The capabilities of the detected tools, before FFmpeg is asked for its lists.
    pub fn from_tools(ffmpeg: ToolInfo, ffprobe: ToolInfo, mpv: ToolInfo, on_android: bool) -> (r:
        Self)
        ensures
            r.ffmpeg == ffmpeg,
            r.ffprobe == ffprobe,
            r.mpv == mpv,
            r.decoders@.len() == 0,
            r.encoders@.len() == 0,
            r.muxers@.len() == 0,
            r.demuxers@.len() == 0,
            r.android_codec_pack@ == android_pack_name(on_android),
    {
        let pack = if on_android {
            String::from_str("bundled_required")
        } else {
            String::from_str("not_applicable")
        };
        CodecCapabilities {
            ffmpeg,
            ffprobe,
            mpv,
            decoders: Vec::new(),
            encoders: Vec::new(),
            muxers: Vec::new(),
            demuxers: Vec::new(),
            android_codec_pack: pack,
        }
    }

    /// Records what FFmpeg lists; the tools and the codec pack stay as they were.
    pub fn set_ffmpeg_lists(
        &mut self,
        decoders: Vec<String>,
        encoders: Vec<String>,
        muxers: Vec<String>,
        demuxers: Vec<String>,
    )
        ensures
            final(self).ffmpeg == old(self).ffmpeg,
            final(self).ffprobe == old(self).ffprobe,
            final(self).mpv == old(self).mpv,
            final(self).android_codec_pack == old(self).android_codec_pack,
            final(self).decoders == decoders,
            final(self).encoders == encoders,
            final(self).muxers == muxers,
            final(self).demuxers == demuxers,
    {
        self.decoders = decoders;
        self.encoders = encoders;
        self.muxers = muxers;
        self.demuxers = demuxers;
    }
}

} // verus!
