//! Playback through mpv: the commands sent to it and the player state they lead to.
//!
//! The position and volume of the player are kept beside [`PlaybackStatus`] by its owner.
use vstd::prelude::*;
use crate::text::{chars_of, display_of, display_text, string_from_chars};

verus! {

/// Loads a file into the player, starting or pausing playback.
#[derive(Debug)]
pub struct LoadRequest {
    pub path: Vec<u8>,
    pub play: bool,
}

/// The transport commands, which start, pause or stop playback.
#[derive(Clone, Copy, Debug, PartialEq, Eq)]
pub enum TransportCommand {
    Play,
    Pause,
    Toggle,
    Stop,
}

/// What is loaded and whether it plays.
#[derive(Debug)]
pub struct PlaybackStatus {
    pub loaded_path: Option<Vec<u8>>,
    pub playing: bool,
}

/// One character as it stands inside a double-quoted mpv argument.
pub open spec fn escape_mpv_char(c: char) -> Seq<char> {
    if c == '\\' {
        seq!['\\', '\\']
    } else if c == '"' {
        seq!['\\', '"']
    } else {
        seq![c]
    }
}

/// Text made safe inside a double-quoted mpv argument: each backslash doubled, each double quote
/// preceded by a backslash.
pub open spec fn escape_mpv(s: Seq<char>) -> Seq<char>
    decreases s.len(),
{
    if s.len() == 0 {
        seq![]
    } else {
        escape_mpv_char(s[0]) + escape_mpv(s.drop_first())
    }
}

proof fn lemma_escape_push(s: Seq<char>, c: char)
    ensures
        escape_mpv(s.push(c)) == escape_mpv(s) + escape_mpv_char(c),
    decreases s.len(),
{
    if s.len() == 0 {
        assert(s.push(c).drop_first() =~= Seq::<char>::empty());
        assert(escape_mpv(Seq::<char>::empty()) == Seq::<char>::empty());
        assert(s.push(c)[0] == c);
        assert(escape_mpv(s.push(c)) =~= escape_mpv_char(c) + Seq::<char>::empty());
        assert(escape_mpv(s) == Seq::<char>::empty());
    } else {
        assert(s.push(c).drop_first() =~= s.drop_first().push(c));
        lemma_escape_push(s.drop_first(), c);
        assert(escape_mpv(s.push(c)) =~= escape_mpv(s) + escape_mpv_char(c));
    }
}

/// How mpv reads the inside of a double-quoted argument back: a backslash stands for the
/// character after it.
pub open spec fn mpv_unescape(t: Seq<char>) -> Seq<char>
    decreases t.len(),
{
    if t.len() == 0 {
        seq![]
    } else if t[0] == '\\' && t.len() >= 2 {
        seq![t[1]] + mpv_unescape(t.skip(2))
    } else {
        seq![t[0]] + mpv_unescape(t.drop_first())
    }
}

/// Escaped text holds no double quote that is not escaped, so it cannot end the argument early,
/// and mpv reads it back as the text that was escaped.
pub proof fn lemma_escape_mpv_roundtrip(s: Seq<char>)
    ensures
        mpv_unescape(escape_mpv(s)) == s,
        forall|i: int|
            0 <= i < escape_mpv(s).len() && #[trigger] escape_mpv(s)[i] == '"' ==> i > 0
                && escape_mpv(s)[i - 1] == '\\',
    decreases s.len(),
{
    if s.len() > 0 {
        let c = s[0];
        let rest = s.drop_first();
        lemma_escape_mpv_roundtrip(rest);
        let e = escape_mpv_char(c);
        let t = e + escape_mpv(rest);
        assert(escape_mpv(s) == t);
        if c == '\\' || c == '"' {
            assert(t[0] == '\\');
            assert(t.skip(2) =~= escape_mpv(rest));
            assert(mpv_unescape(t) == seq![t[1]] + mpv_unescape(t.skip(2)));
        } else {
            assert(t.drop_first() =~= escape_mpv(rest));
        }
        assert(mpv_unescape(t) =~= s);
        assert forall|i: int|
            0 <= i < t.len() && #[trigger] t[i] == '"' implies i > 0 && t[i - 1] == '\\' by {
            if i >= e.len() {
                let j = i - e.len();
                assert(t[i] == escape_mpv(rest)[j]);
                if j > 0 {
                    assert(t[i - 1] == escape_mpv(rest)[j - 1]);
                } else {
                    if c == '\\' || c == '"' {
                    } else {
                        assert(escape_mpv(rest)[0] != '"');
                    }
                }
            }
        }
    }
}

/// Escapes text for a double-quoted mpv argument.
pub fn escape_mpv_string(input: &str) -> (r: String)
    ensures
        r@ == escape_mpv(input@),
{
    let v = chars_of(input);
    let mut out: Vec<char> = Vec::new();
    let mut i: usize = 0;
    while i < v.len()
        invariant
            i <= v.len(),
            out@ == escape_mpv(v@.take(i as int)),
        decreases v.len() - i,
    {
        let c = v[i];
        if c == '\\' {
            out.push('\\');
            out.push('\\');
        } else if c == '"' {
            out.push('\\');
            out.push('"');
        } else {
            out.push(c);
        }
        proof {
            assert(v@.take(i + 1) =~= v@.take(i as int).push(c));
            lemma_escape_push(v@.take(i as int), c);
        }
        i = i + 1;
        assert(out@ =~= escape_mpv(v@.take(i as int)));
    }
    assert(v@.take(v.len() as int) =~= v@);
    string_from_chars(out.as_slice())
}

/// The mpv command that loads `path`, replacing what plays.
pub open spec fn load_command(path: Seq<char>) -> Seq<char> {
    "loadfile \""@ + escape_mpv(path) + "\" replace"@
}

/// The mpv commands that carry out a load request: load the file, and pause unless it should
/// play.
pub open spec fn load_commands_spec(path: Seq<char>, play: bool) -> Seq<Seq<char>> {
    if play {
        seq![load_command(path)]
    } else {
        seq![load_command(path), "set pause yes"@]
    }
}

/// The mpv commands for a load request, in the order they are sent; the path goes to mpv as the
/// text it displays as.
pub fn load_commands(request: &LoadRequest) -> (r: Vec<String>)
    ensures
        r@.map_values(|s: String| s@) == load_commands_spec(
            display_text(request.path@),
            request.play,
        ),
{
    let text = display_of(&request.path);
    let escaped = escape_mpv_string(text.as_str());
    let load = String::from_str("loadfile \"").concat(escaped.as_str()).concat("\" replace");
    let mut r: Vec<String> = Vec::new();
    r.push(load);
    if !request.play {
        r.push(String::from_str("set pause yes"));
    }
    assert(r@.map_values(|s: String| s@) =~= load_commands_spec(text@, request.play));
    r
}

/// The mpv command for a transport command.
pub open spec fn transport_line(cmd: TransportCommand) -> Seq<char> {
    match cmd {
        TransportCommand::Play => "set pause no"@,
        TransportCommand::Pause => "set pause yes"@,
        TransportCommand::Toggle => "cycle pause"@,
        TransportCommand::Stop => "stop"@,
    }
}

/// Whether the player plays after a transport command, given whether it played before.
pub open spec fn playing_after(playing: bool, cmd: TransportCommand) -> bool {
    match cmd {
        TransportCommand::Play => true,
        TransportCommand::Pause => false,
        TransportCommand::Toggle => !playing,
        TransportCommand::Stop => false,
    }
}

impl TransportCommand {
    /// The mpv command that carries this command out.
    pub fn mpv_line(&self) -> (r: &'static str)
        ensures
            r@ == transport_line(*self),
    {
        match self {
            TransportCommand::Play => "set pause no",
            TransportCommand::Pause => "set pause yes",
            TransportCommand::Toggle => "cycle pause",
            TransportCommand::Stop => "stop",
        }
    }
}

impl PlaybackStatus {
    /// A player that has loaded nothing and does not play.
    pub fn new() -> (r: Self)
        ensures
            r.loaded_path is None,
            !r.playing,
    {
        PlaybackStatus { loaded_path: None, playing: false }
    }

    /// The state once mpv has accepted a load request's commands.
    pub fn after_load(&mut self, request: LoadRequest)
        ensures
            final(self).loaded_path == Some(request.path),
            final(self).playing == request.play,
    {
        self.loaded_path = Some(request.path);
        self.playing = request.play;
    }

    /// The state once mpv has accepted a transport command's line; what is loaded stays.
    pub fn after_transport(&mut self, cmd: TransportCommand)
        ensures
            final(self).playing == playing_after(old(self).playing, cmd),
            final(self).loaded_path == old(self).loaded_path,
    {
        self.playing = match cmd {
            TransportCommand::Play => true,
            TransportCommand::Pause => false,
            TransportCommand::Toggle => !self.playing,
            TransportCommand::Stop => false,
        };
    }
}

/// Toggling twice restores whether the player plays; play and pause do the same when repeated;
/// after stop or pause it does not play, after play it does.
pub proof fn lemma_transport_laws(playing: bool)
    ensures
        playing_after(playing_after(playing, TransportCommand::Toggle), TransportCommand::Toggle)
            == playing,
        playing_after(playing_after(playing, TransportCommand::Play), TransportCommand::Play)
            == playing_after(playing, TransportCommand::Play),
        playing_after(playing_after(playing, TransportCommand::Pause), TransportCommand::Pause)
            == playing_after(playing, TransportCommand::Pause),
        !playing_after(playing, TransportCommand::Stop),
        !playing_after(playing, TransportCommand::Pause),
        playing_after(playing, TransportCommand::Play),
{
}

} // verus!
