# auralux

The verified core of Auralux, a local-first music library, player and audio converter.

`src/` is the library, written in Verus; every function in it carries a contract that Verus
proves. It holds the logic of the player: FFmpeg command lines and progress lines, safe output
and upload file names, the parsing of `ffmpeg -decoders` listings and of FFprobe reports, the
track record built from tags and probe data, the mpv commands and player state, the scan tally,
library query planning, data-directory paths, and the command-line files that the desktop shell
opens. File-system paths are byte strings, as Unix gives them, with the meaning `std::path`
gives them (`src/os_paths.rs`); where a path is shown or handed on as text, ill-formed UTF-8 is
replaced as `Path::to_string_lossy` does. Names that are text from the start (upload names) use
the same rules on characters (`src/paths.rs`). The string operations the library relies on are
specified in `src/text.rs`.

`app/` is the unverified program around it: the `auralux` command line and the `auraluxd`
daemon (the same program started under that name), the SQLite database, process spawning,
file-system access, the HTTP and WebSocket API, and the floating-point progress, duration,
seek and volume values.

The desktop shell (a Tauri window around the web GUI) is not part of this crate: Tauri needs
the GTK and WebKit system libraries to build. What the shell decides about the files it is asked
to open is in `src/open_files.rs`; the window, its single-instance hook and the event it sends
the GUI are not here.

`tests/` runs the library on concrete inputs.
