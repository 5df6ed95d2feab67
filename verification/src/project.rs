//! The decisions of the command-line program: which command the arguments ask for, the
//! project that `new` writes, the files that `watch` reacts to, and the settings of a test
//! video.
use vstd::prelude::*;
use crate::text::write_str;

verus! {

/// The command that the command-line arguments ask for.
#[derive(Debug, Clone, Copy, PartialEq, Eq, Structural)]
pub enum CliCommand {
    /// Create a project.
    New,
    /// Run a project each time one of its sources changes.
    Watch,
    /// Render a test video.
    TestVideo,
    /// Start the beacon.
    BeaconStart,
    /// Ping the beacon.
    BeaconPing,
    /// Nothing to do.
    Nothing,
}

/// The command chosen from the command flags, the first that applies in this order: `new`,
/// `watch`, `test-video`, `beacon start`, `beacon ping`.
pub open spec fn command_for(
    new: bool,
    watch: bool,
    test_video: bool,
    beacon: bool,
    start: bool,
    ping: bool,
) -> CliCommand {
    if new {
        CliCommand::New
    } else if watch {
        CliCommand::Watch
    } else if test_video {
        CliCommand::TestVideo
    } else if beacon && start {
        CliCommand::BeaconStart
    } else if beacon && ping {
        CliCommand::BeaconPing
    } else {
        CliCommand::Nothing
    }
}

/// Picks the command that the command flags ask for.
pub fn chosen_command(
    new: bool,
    watch: bool,
    test_video: bool,
    beacon: bool,
    start: bool,
    ping: bool,
) -> (c: CliCommand)
    ensures
        c == command_for(new, watch, test_video, beacon, start, ping),
{
    if new {
        CliCommand::New
    } else if watch {
        CliCommand::Watch
    } else if test_video {
        CliCommand::TestVideo
    } else if beacon && start {
        CliCommand::BeaconStart
    } else if beacon && ping {
        CliCommand::BeaconPing
    } else {
        CliCommand::Nothing
    }
}

/// The directory to watch: the one given, or the current one when none is.
pub fn watch_directory(given: &str) -> (dir: &str)
    ensures
        dir@ == (if given@.len() == 0 {
            "."@
        } else {
            given@
        }),
{
    if given.unicode_len() == 0 {
        "."
    } else {
        given
    }
}

/// The extension of the source files whose change runs the project again.
pub open spec fn watched_extension() -> Seq<char> {
    "rs"@
}

/// Whether a change to a file with this extension runs the project again: Rust sources
/// only.
pub fn is_watched(extension: Option<&str>) -> (r: bool)
    ensures
        r == (match extension {
            Some(e) => e@ == watched_extension(),
            None => false,
        }),
{
    match extension {
        Some(e) => crate::text::text_eq(e, "rs"),
        None => false,
    }
}

/// The `src/main.rs` that a new project starts with, which renders its canvas to
/// `<name>.png`.
pub open spec fn main_template_text(name: Seq<char>) -> Seq<char> {
    "use shapemaker::*;\nuse rand;\n\npub fn main() {\n    let mut canvas = Canvas::new(vec![]);\n\n    // Make your canvas beautiful <3\n\n    canvas.render_to_png(\""@
        + name + ".png\", 2000).unwrap();\n}"@
}

/// Writes the `src/main.rs` of a new project named `name`.
pub fn main_template(name: &str) -> (s: String)
    ensures
        s@ == main_template_text(name@),
{
    let mut s = String::from_str(
        "use shapemaker::*;\nuse rand;\n\npub fn main() {\n    let mut canvas = Canvas::new(vec![]);\n\n    // Make your canvas beautiful <3\n\n    canvas.render_to_png(\"",
    );
    write_str(&mut s, name);
    write_str(&mut s, ".png\", 2000).unwrap();\n}");
    s
}

/// The editor that opens a new project: the one named for shapemaker, else the user's
/// editor, else `code`.
pub fn editor_command(shapemaker_editor: Option<String>, editor: Option<String>) -> (e: String)
    ensures
        e@ == (match shapemaker_editor {
            Some(s) => s@,
            None => match editor {
                Some(s) => s@,
                None => "code"@,
            },
        }),
{
    match shapemaker_editor {
        Some(s) => s,
        None => match editor {
            Some(s) => s,
            None => String::from_str("code"),
        },
    }
}

/// The settings of a test video, from the command-line flags.
#[derive(Debug, Clone, Copy, PartialEq, Eq, Structural)]
pub struct VideoSettings {
    /// How long the video lasts, in milliseconds, when it is not the length of its audio.
    pub duration_override: Option<usize>,
    /// Where rendering starts, in milliseconds.
    pub start_rendering_at: usize,
    /// The width of the frames, in pixels.
    pub resolution: u32,
    /// Frames per second.
    pub fps: usize,
}

/// Reads the test video's settings from its flags, given in seconds: no duration override
/// unless one is given, a start at 0 s, a resolution of 1920 pixels and 30 frames per
/// second unless others are given.
pub fn video_settings(
    duration: Option<usize>,
    start: Option<usize>,
    resolution: Option<u32>,
    fps: Option<usize>,
) -> (v: VideoSettings)
    requires
        duration matches Some(d) ==> d * 1000 <= usize::MAX,
        start matches Some(s) ==> s * 1000 <= usize::MAX,
    ensures
        v.duration_override == (match duration {
            Some(d) => Some((d * 1000) as usize),
            None => None,
        }),
        v.start_rendering_at == (match start {
            Some(s) => s * 1000,
            None => 0,
        }),
        v.resolution == (match resolution {
            Some(r) => r,
            None => 1920,
        }),
        v.fps == (match fps {
            Some(f) => f,
            None => 30,
        }),
{
    VideoSettings {
        duration_override: match duration {
            Some(d) => Some(d * 1000),
            None => None,
        },
        start_rendering_at: match start {
            Some(s) => s * 1000,
            None => 0,
        },
        resolution: match resolution {
            Some(r) => r,
            None => 1920,
        },
        fps: match fps {
            Some(f) => f,
            None => 30,
        },
    }
}

} // verus!
