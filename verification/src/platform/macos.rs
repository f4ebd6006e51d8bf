//! macOS: the wallpaper is set and read through AppleScript (`osascript`).

use vstd::prelude::*;
use crate::platform::{command_view, prefixed, prefixed_text, CommandOutput, CommandSpec, PlatformError, PlatformResult};
use crate::text::{append_str, trim, trim_str};

verus! {

/// The AppleScript that sets `path` as the picture of every desktop.
pub open spec fn set_script(path: Seq<char>) -> Seq<char> {
    "tell application \"System Events\"\n    tell every desktop\n        set picture to POSIX file \""@
        + path + "\"\n    end tell\nend tell"@
}

/// The AppleScript that reads the picture of the current desktop.
pub open spec fn get_script() -> Seq<char> {
    "tell application \"System Events\"\n    tell current desktop\n        get picture\n    end tell\nend tell"@
}

/// `osascript -e {script}`.
pub open spec fn osascript(script: Seq<char>) -> (Seq<char>, Seq<Seq<char>>) {
    ("osascript"@, seq!["-e"@, script])
}

fn osascript_command(script: String) -> (r: CommandSpec)
    ensures
        command_view(r) == osascript(script@),
{
    let c = CommandSpec { program: "osascript".to_string(), args: vec!["-e".to_string(), script] };
    assert(c.args@.map_values(|a: String| a@) =~= seq!["-e"@, script@]);
    c
}

/// Set the wallpaper: the `osascript` command that sets `path` (`None` when
/// the path is not valid text) on every desktop.
pub fn set_wallpaper(path: Option<&str>) -> (r: PlatformResult<CommandSpec>)
    ensures
        path is None ==> (r matches Err(PlatformError::SetWallpaper(m)) && m@ == "Invalid path encoding"@),
        path matches Some(p) ==> (r matches Ok(c) && command_view(c) == osascript(set_script(p@))),
{
    match path {
        None => Err(PlatformError::SetWallpaper("Invalid path encoding".to_string())),
        Some(p) => {
            let mut script = "tell application \"System Events\"\n    tell every desktop\n        set picture to POSIX file \"".to_string();
            append_str(&mut script, p);
            append_str(&mut script, "\"\n    end tell\nend tell");
            Ok(osascript_command(script))
        },
    }
}

/// The result of the `osascript` run that sets the wallpaper: `ran` is its
/// output or the text of the error that kept it from starting.
pub fn set_wallpaper_outcome(ran: Result<CommandOutput, String>) -> (r: PlatformResult<()>)
    ensures
        match ran {
            Err(e) => r matches Err(PlatformError::CommandFailed(s)) && s@ == prefixed("osascript: "@, e@),
            Ok(o) => if o.success {
                r is Ok
            } else {
                r matches Err(PlatformError::SetWallpaper(s)) && s@ == prefixed("osascript failed: "@, o.stderr@)
            },
        },
{
    match ran {
        Err(e) => Err(PlatformError::CommandFailed(prefixed_text("osascript: ", e.as_str()))),
        Ok(o) => if o.success {
            Ok(())
        } else {
            Err(PlatformError::SetWallpaper(prefixed_text("osascript failed: ", o.stderr.as_str())))
        },
    }
}

/// The `osascript` command that reads the current desktop's picture.
pub fn current_wallpaper_query() -> (r: CommandSpec)
    ensures
        command_view(r) == osascript(get_script()),
{
    osascript_command(
        "tell application \"System Events\"\n    tell current desktop\n        get picture\n    end tell\nend tell".to_string(),
    )
}

/// Get the current wallpaper from the query's outcome: the printed path,
/// trimmed, or `None` when it printed nothing or failed; an error when
/// `osascript` could not be started.
pub fn get_current_wallpaper(ran: Result<CommandOutput, String>) -> (r: PlatformResult<Option<String>>)
    ensures
        match ran {
            Err(e) => r matches Err(PlatformError::CommandFailed(s)) && s@ == prefixed("osascript: "@, e@),
            Ok(o) => if o.success && trim(o.stdout@).len() > 0 {
                r matches Ok(Some(s)) && s@ == trim(o.stdout@)
            } else {
                r matches Ok(None)
            },
        },
{
    match ran {
        Err(e) => Err(PlatformError::CommandFailed(prefixed_text("osascript: ", e.as_str()))),
        Ok(o) => if o.success {
            let path = trim_str(o.stdout.as_str());
            if path.as_str().unicode_len() == 0 {
                Ok(None)
            } else {
                Ok(Some(path))
            }
        } else {
            Ok(None)
        },
    }
}

} // verus!
