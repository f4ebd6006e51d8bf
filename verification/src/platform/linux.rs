//! Linux: the desktop environment decides the command that sets the
//! wallpaper.

use vstd::prelude::*;
use crate::platform::{CommandOutput, CommandSpec, PlatformError, PlatformResult, prefixed_text, command_view};
use crate::text::{
    chars_of, contains_seq, contains_str, lowercase, to_lowercase, replace_all, replace_str, string_of, strip,
    strip_seq, trim, trim_str, CharSet,
};

verus! {

/// Known Linux desktop environments.
#[derive(Debug, Clone, PartialEq)]
pub enum DesktopEnv {
    Gnome,
    Kde,
    Xfce,
    Sway,
    Hyprland,
    Cinnamon,
    Mate,
    Unknown(String),
}

/// The desktop environment as a value of text.
pub enum DesktopKind {
    Gnome,
    Kde,
    Xfce,
    Sway,
    Hyprland,
    Cinnamon,
    Mate,
    Unknown(Seq<char>),
}

pub open spec fn kind_of(de: DesktopEnv) -> DesktopKind {
    match de {
        DesktopEnv::Gnome => DesktopKind::Gnome,
        DesktopEnv::Kde => DesktopKind::Kde,
        DesktopEnv::Xfce => DesktopKind::Xfce,
        DesktopEnv::Sway => DesktopKind::Sway,
        DesktopEnv::Hyprland => DesktopKind::Hyprland,
        DesktopEnv::Cinnamon => DesktopKind::Cinnamon,
        DesktopEnv::Mate => DesktopKind::Mate,
        DesktopEnv::Unknown(s) => DesktopKind::Unknown(s@),
    }
}

/// The desktop environment named by `$XDG_CURRENT_DESKTOP` (`desktop`, with
/// its lower-cased form `lower`); when it is empty, `graphical` tells whether
/// `$DISPLAY` or `$WAYLAND_DISPLAY` is set.
pub open spec fn desktop_of(desktop: Seq<char>, lower: Seq<char>, graphical: bool) -> DesktopKind {
    if contains_seq(lower, "gnome"@) || contains_seq(lower, "unity"@) {
        DesktopKind::Gnome
    } else if contains_seq(lower, "kde"@) {
        DesktopKind::Kde
    } else if contains_seq(lower, "xfce"@) {
        DesktopKind::Xfce
    } else if contains_seq(lower, "sway"@) {
        DesktopKind::Sway
    } else if contains_seq(lower, "hyprland"@) {
        DesktopKind::Hyprland
    } else if contains_seq(lower, "cinnamon"@) {
        DesktopKind::Cinnamon
    } else if contains_seq(lower, "mate"@) {
        DesktopKind::Mate
    } else if desktop.len() == 0 {
        if graphical {
            DesktopKind::Unknown("unknown-graphical"@)
        } else {
            DesktopKind::Unknown("headless"@)
        }
    } else {
        DesktopKind::Unknown(desktop)
    }
}

/// One command of a wallpaper change; a command that is not required may
/// fail without failing the change.
pub struct WallpaperCommand {
    pub command: CommandSpec,
    pub required: bool,
}

pub open spec fn step_view(c: WallpaperCommand) -> ((Seq<char>, Seq<Seq<char>>), bool) {
    (command_view(c.command), c.required)
}

/// The commands that set the wallpaper to `path` on a desktop, or the
/// message of an unsupported desktop.
pub open spec fn set_commands(path: Seq<char>, de: DesktopKind) -> Result<
    Seq<((Seq<char>, Seq<Seq<char>>), bool)>,
    Seq<char>,
> {
    let uri = "file://"@ + path;
    match de {
        DesktopKind::Gnome | DesktopKind::Cinnamon => Ok(
            seq![
                (("gsettings"@, seq!["set"@, "org.gnome.desktop.background"@, "picture-uri"@, uri]), true),
                (("gsettings"@, seq!["set"@, "org.gnome.desktop.background"@, "picture-uri-dark"@, uri]), false),
            ],
        ),
        DesktopKind::Kde => Ok(seq![(("plasma-apply-wallpaperimage"@, seq![path]), true)]),
        DesktopKind::Xfce => Ok(
            seq![
                (
                    (
                        "xfconf-query"@,
                        seq![
                            "-c"@,
                            "xfce4-desktop"@,
                            "-p"@,
                            "/backdrop/screen0/monitor0/workspace0/last-image"@,
                            "-s"@,
                            path,
                        ],
                    ),
                    true,
                ),
            ],
        ),
        DesktopKind::Mate => Ok(
            seq![(("gsettings"@, seq!["set"@, "org.mate.background"@, "picture-filename"@, path]), true)],
        ),
        DesktopKind::Sway | DesktopKind::Hyprland => Ok(
            seq![(("swaybg"@, seq!["-i"@, path, "-m"@, "fill"@]), true)],
        ),
        DesktopKind::Unknown(name) => Err(name),
    }
}

/// The outcome of one command: `Err(e)` when it could not be started with
/// error text `e`.
pub open spec fn command_result(program: Seq<char>, ran: Result<(bool, Seq<char>), Seq<char>>) -> Result<(), Seq<char>> {
    match ran {
        Err(e) => Err(program + ": "@ + e),
        Ok((success, stderr)) => if success {
            Ok(())
        } else {
            Err(program + " failed: "@ + stderr)
        },
    }
}

/// The wallpaper path read from the output of
/// `gsettings get org.gnome.desktop.background picture-uri`.
pub open spec fn gsettings_path(stdout: Seq<char>) -> Seq<char> {
    replace_all(strip(trim(stdout), CharSet::Only('\'')), "file://"@, Seq::empty())
}

/// The current wallpaper read from the query's outcome.
pub open spec fn current_from(ran: Result<(bool, Seq<char>), Seq<char>>) -> Result<Option<Seq<char>>, Seq<char>> {
    match ran {
        Err(e) => Err(e),
        Ok((success, stdout)) => if success {
            let v = gsettings_path(stdout);
            if v.len() == 0 {
                Ok(None)
            } else {
                Ok(Some(v))
            }
        } else {
            Ok(None)
        },
    }
}

// ---------------------------------------------------------------------------
// Executable functions
// ---------------------------------------------------------------------------

/// The desktop environment from `$XDG_CURRENT_DESKTOP` and its lower-cased
/// form; `graphical` tells whether a display variable is set.
pub fn desktop_env_from(desktop: &str, lowered: &str, graphical: bool) -> (r: DesktopEnv)
    ensures
        kind_of(r) == desktop_of(desktop@, lowered@, graphical),
{
    if contains_str(lowered, "gnome") || contains_str(lowered, "unity") {
        DesktopEnv::Gnome
    } else if contains_str(lowered, "kde") {
        DesktopEnv::Kde
    } else if contains_str(lowered, "xfce") {
        DesktopEnv::Xfce
    } else if contains_str(lowered, "sway") {
        DesktopEnv::Sway
    } else if contains_str(lowered, "hyprland") {
        DesktopEnv::Hyprland
    } else if contains_str(lowered, "cinnamon") {
        DesktopEnv::Cinnamon
    } else if contains_str(lowered, "mate") {
        DesktopEnv::Mate
    } else if desktop.is_empty() {
        if graphical {
            DesktopEnv::Unknown("unknown-graphical".to_string())
        } else {
            DesktopEnv::Unknown("headless".to_string())
        }
    } else {
        DesktopEnv::Unknown(desktop.to_string())
    }
}

/// The desktop environment from `$XDG_CURRENT_DESKTOP`, matched in lower
/// case; `graphical` tells whether a display variable is set.
pub fn desktop_env_of(desktop: &str, graphical: bool) -> (r: DesktopEnv)
    ensures
        kind_of(r) == desktop_of(desktop@, lowercase(desktop@), graphical),
{
    let lowered = to_lowercase(desktop);
    desktop_env_from(desktop, lowered.as_str(), graphical)
}

fn command(program: &str, args: Vec<String>) -> (r: CommandSpec)
    ensures
        r.program@ == program@,
        r.args == args,
{
    CommandSpec { program: program.to_string(), args }
}

/// Set the wallpaper: the commands to run for `path` (`None` when the path
/// is not valid text) on desktop `de`, in order. A required command that
/// fails fails the change; the others may fail.
pub fn set_wallpaper(path: Option<&str>, de: &DesktopEnv) -> (r: PlatformResult<Vec<WallpaperCommand>>)
    ensures
        path is None ==> (r matches Err(PlatformError::SetWallpaper(m)) && m@ == "Invalid path encoding"@),
        path matches Some(p) ==> match set_commands(p@, kind_of(*de)) {
            Ok(cmds) => (r matches Ok(v) && v@.map_values(|c: WallpaperCommand| step_view(c)) == cmds),
            Err(name) => (r matches Err(PlatformError::UnsupportedDesktop(n)) && n@ == name),
        },
{
    let p = match path {
        None => return Err(PlatformError::SetWallpaper("Invalid path encoding".to_string())),
        Some(p) => p,
    };
    let uri = prefixed_text("file://", p);
    let ghost cmds = set_commands(p@, kind_of(*de));
    match de {
        DesktopEnv::Gnome | DesktopEnv::Cinnamon => {
            let main = command(
                "gsettings",
                vec![
                    "set".to_string(),
                    "org.gnome.desktop.background".to_string(),
                    "picture-uri".to_string(),
                    uri.clone(),
                ],
            );
            // Also set for dark mode (GNOME 42+); this one may fail.
            let dark = command(
                "gsettings",
                vec![
                    "set".to_string(),
                    "org.gnome.desktop.background".to_string(),
                    "picture-uri-dark".to_string(),
                    uri,
                ],
            );
            assert(main.args@.map_values(|a: String| a@) =~= seq!["set"@, "org.gnome.desktop.background"@, "picture-uri"@, "file://"@ + p@]);
            assert(dark.args@.map_values(|a: String| a@) =~= seq!["set"@, "org.gnome.desktop.background"@, "picture-uri-dark"@, "file://"@ + p@]);
            let v = vec![
                WallpaperCommand { command: main, required: true },
                WallpaperCommand { command: dark, required: false },
            ];
            assert(v@.map_values(|c: WallpaperCommand| step_view(c)) =~= cmds->Ok_0);
            Ok(v)
        },
        DesktopEnv::Kde => {
            let c = command("plasma-apply-wallpaperimage", vec![p.to_string()]);
            assert(c.args@.map_values(|a: String| a@) =~= seq![p@]);
            let v = vec![WallpaperCommand { command: c, required: true }];
            assert(v@.map_values(|c: WallpaperCommand| step_view(c)) =~= cmds->Ok_0);
            Ok(v)
        },
        DesktopEnv::Xfce => {
            let c = command(
                "xfconf-query",
                vec![
                    "-c".to_string(),
                    "xfce4-desktop".to_string(),
                    "-p".to_string(),
                    "/backdrop/screen0/monitor0/workspace0/last-image".to_string(),
                    "-s".to_string(),
                    p.to_string(),
                ],
            );
            assert(c.args@.map_values(|a: String| a@) =~= seq![
                "-c"@,
                "xfce4-desktop"@,
                "-p"@,
                "/backdrop/screen0/monitor0/workspace0/last-image"@,
                "-s"@,
                p@,
            ]);
            let v = vec![WallpaperCommand { command: c, required: true }];
            assert(v@.map_values(|c: WallpaperCommand| step_view(c)) =~= cmds->Ok_0);
            Ok(v)
        },
        DesktopEnv::Mate => {
            let c = command(
                "gsettings",
                vec![
                    "set".to_string(),
                    "org.mate.background".to_string(),
                    "picture-filename".to_string(),
                    p.to_string(),
                ],
            );
            assert(c.args@.map_values(|a: String| a@) =~= seq!["set"@, "org.mate.background"@, "picture-filename"@, p@]);
            let v = vec![WallpaperCommand { command: c, required: true }];
            assert(v@.map_values(|c: WallpaperCommand| step_view(c)) =~= cmds->Ok_0);
            Ok(v)
        },
        DesktopEnv::Sway | DesktopEnv::Hyprland => {
            // swaybg should be running; it is started with the new image.
            let c = command(
                "swaybg",
                vec!["-i".to_string(), p.to_string(), "-m".to_string(), "fill".to_string()],
            );
            assert(c.args@.map_values(|a: String| a@) =~= seq!["-i"@, p@, "-m"@, "fill"@]);
            let v = vec![WallpaperCommand { command: c, required: true }];
            assert(v@.map_values(|c: WallpaperCommand| step_view(c)) =~= cmds->Ok_0);
            Ok(v)
        },
        DesktopEnv::Unknown(name) => Err(PlatformError::UnsupportedDesktop(name.clone())),
    }
}

/// The result of running `program`: `ran` is its output (success and error
/// stream) or the text of the error that kept it from starting.
pub fn command_outcome(program: &str, ran: Result<CommandOutput, String>) -> (r: PlatformResult<()>)
    ensures
        match command_result(
            program@,
            match ran {
                Ok(o) => Ok((o.success, o.stderr@)),
                Err(e) => Err(e@),
            },
        ) {
            Ok(()) => r is Ok,
            Err(m) => (r matches Err(PlatformError::CommandFailed(s)) && s@ == m),
        },
{
    match ran {
        Err(e) => {
            let mut m = prefixed_text(program, ": ");
            crate::text::append_str(&mut m, e.as_str());
            Err(PlatformError::CommandFailed(m))
        },
        Ok(o) => if o.success {
            Ok(())
        } else {
            let mut m = prefixed_text(program, " failed: ");
            crate::text::append_str(&mut m, o.stderr.as_str());
            Err(PlatformError::CommandFailed(m))
        },
    }
}

/// What follows one command of a wallpaper change.
pub enum NextStep {
    /// Run the next command (or finish with success after the last).
    RunNext,
    /// Stop here: the change fails with this error.
    Fail(PlatformError),
}

/// After one command of a wallpaper change ended with `outcome`: a required
/// command that failed stops the change and fails it with its error; a
/// command that succeeded, or one that is not required, lets the change go
/// on. The change succeeds when every command has let it go on.
pub fn after_command(required: bool, outcome: PlatformResult<()>) -> (r: NextStep)
    ensures
        match outcome {
            Err(e) => if required {
                r matches NextStep::Fail(f) && f == e
            } else {
                r is RunNext
            },
            Ok(()) => r is RunNext,
        },
{
    match outcome {
        Err(e) => if required {
            NextStep::Fail(e)
        } else {
            NextStep::RunNext
        },
        Ok(()) => NextStep::RunNext,
    }
}

/// The command that reads the current wallpaper on a desktop, if it can be
/// read there (GNOME and Cinnamon).
pub fn current_wallpaper_query(de: &DesktopEnv) -> (r: Option<CommandSpec>)
    ensures
        match kind_of(*de) {
            DesktopKind::Gnome | DesktopKind::Cinnamon => (r matches Some(c) && command_view(c) == (
                "gsettings"@,
                seq!["get"@, "org.gnome.desktop.background"@, "picture-uri"@],
            )),
            _ => r is None,
        },
{
    match de {
        DesktopEnv::Gnome | DesktopEnv::Cinnamon => {
            let c = command(
                "gsettings",
                vec!["get".to_string(), "org.gnome.desktop.background".to_string(), "picture-uri".to_string()],
            );
            assert(command_view(c) =~= ("gsettings"@, seq!["get"@, "org.gnome.desktop.background"@, "picture-uri"@]));
            Some(c)
        },
        _ => None,
    }
}

/// Get the current wallpaper from the outcome of the query: the path of the
/// `file://` URI that gsettings printed, `None` when it printed none or
/// failed; an error when the query could not be started.
pub fn get_current_wallpaper(ran: Result<CommandOutput, String>) -> (r: PlatformResult<Option<String>>)
    ensures
        match current_from(
            match ran {
                Ok(o) => Ok((o.success, o.stdout@)),
                Err(e) => Err(e@),
            },
        ) {
            Ok(None) => r matches Ok(None),
            Ok(Some(v)) => (r matches Ok(Some(s)) && s@ == v),
            Err(e) => (r matches Err(PlatformError::CommandFailed(s)) && s@ == e),
        },
{
    match ran {
        Err(e) => Err(PlatformError::CommandFailed(e)),
        Ok(o) => {
            if !o.success {
                return Ok(None);
            }
            let t = trim_str(o.stdout.as_str());
            let tv = chars_of(t.as_str());
            let q = strip_seq(&tv, &CharSet::Only('\''));
            let qs = string_of(&q);
            proof {
                reveal_strlit("file://");
                reveal_strlit("");
                assert(""@ =~= Seq::<char>::empty());
            }
            let v = replace_str(qs.as_str(), "file://", "");
            if v.as_str().unicode_len() == 0 {
                Ok(None)
            } else {
                Ok(Some(v))
            }
        },
    }
}


// ---------------------------------------------------------------------------
// Laws
// ---------------------------------------------------------------------------

/// Cinnamon is set exactly as GNOME is: for every path `p`, both run
/// `gsettings set org.gnome.desktop.background picture-uri file://p`, which
/// must succeed, and then the same for `picture-uri-dark`, which may fail.
pub proof fn lemma_cinnamon_set_as_gnome(p: Seq<char>)
    ensures
        set_commands(p, DesktopKind::Cinnamon) == set_commands(p, DesktopKind::Gnome),
        set_commands(p, DesktopKind::Gnome) == Ok::<Seq<((Seq<char>, Seq<Seq<char>>), bool)>, Seq<char>>(
            seq![
                (("gsettings"@, seq!["set"@, "org.gnome.desktop.background"@, "picture-uri"@, "file://"@ + p]), true),
                (("gsettings"@, seq!["set"@, "org.gnome.desktop.background"@, "picture-uri-dark"@, "file://"@ + p]), false),
            ],
        ),
{
}

} // verus!
