//! Platform wallpaper integration: the commands each desktop needs and how
//! their outcomes are read. Running the commands is left to the caller.

use vstd::prelude::*;
use crate::text::append_str;

pub mod linux;
pub mod macos;
pub mod windows;

verus! {

#[verifier::external_type_specification]
#[verifier::external_body]
pub struct ExIoError(std::io::Error);

/// Platform-specific errors.
#[derive(Debug)]
pub enum PlatformError {
    SetWallpaper(String),
    GetWallpaper(String),
    UnsupportedDesktop(String),
    CommandFailed(String),
    Io(std::io::Error),
}

/// Result type for platform operations.
pub type PlatformResult<T> = Result<T, PlatformError>;

/// How a command ended, when it could be started: whether it exited with
/// success, and its output streams as text.
pub struct CommandOutput {
    pub success: bool,
    pub stdout: String,
    pub stderr: String,
}

/// A command to run: program and arguments.
pub struct CommandSpec {
    pub program: String,
    pub args: Vec<String>,
}

/// The command as text values.
pub open spec fn command_view(c: CommandSpec) -> (Seq<char>, Seq<Seq<char>>) {
    (c.program@, c.args@.map_values(|a: String| a@))
}

/// The text of a message with a prefix: `{prefix}{detail}`.
pub open spec fn prefixed(prefix: Seq<char>, detail: Seq<char>) -> Seq<char> {
    prefix + detail
}

/// std `io::Error`'s `Display` text. It comes from the operating system, so
/// nothing is stated of it.
#[verifier::external_body]
fn io_error_text(e: &std::io::Error) -> String {
    e.to_string()
}

/// `{prefix}{detail}` as a new string.
pub fn prefixed_text(prefix: &str, detail: &str) -> (r: String)
    ensures
        r@ == prefixed(prefix@, detail@),
{
    let mut r = prefix.to_string();
    append_str(&mut r, detail);
    r
}

impl PlatformError {
    /// The error's message, e.g. "Failed to set wallpaper: {0}".
    pub fn message(&self) -> (r: String)
        ensures
            match self {
                PlatformError::SetWallpaper(s) => r@ == prefixed("Failed to set wallpaper: "@, s@),
                PlatformError::GetWallpaper(s) => r@ == prefixed(
                    "Failed to get current wallpaper: "@,
                    s@,
                ),
                PlatformError::UnsupportedDesktop(s) => r@ == prefixed(
                    "Unsupported desktop environment: "@,
                    s@,
                ),
                PlatformError::CommandFailed(s) => r@ == prefixed(
                    "Command execution failed: "@,
                    s@,
                ),
                PlatformError::Io(_) => has_prefix_io(r@),
            },
    {
        match self {
            PlatformError::SetWallpaper(s) => prefixed_text("Failed to set wallpaper: ", s.as_str()),
            PlatformError::GetWallpaper(s) => prefixed_text(
                "Failed to get current wallpaper: ",
                s.as_str(),
            ),
            PlatformError::UnsupportedDesktop(s) => prefixed_text(
                "Unsupported desktop environment: ",
                s.as_str(),
            ),
            PlatformError::CommandFailed(s) => prefixed_text("Command execution failed: ", s.as_str()),
            PlatformError::Io(e) => {
                let detail = io_error_text(e);
                let r = prefixed_text("IO error: ", detail.as_str());
                assert(r@.subrange(0, "IO error: "@.len() as int) =~= "IO error: "@);
                r
            },
        }
    }
}

/// The message of an I/O error starts with "IO error: ".
pub open spec fn has_prefix_io(m: Seq<char>) -> bool {
    crate::text::has_prefix(m, "IO error: "@)
}

} // verus!
