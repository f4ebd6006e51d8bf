//! Decisions of the application shell: whether the main window shows at
//! launch and what a tray menu entry does.

use vstd::prelude::*;
use crate::text::str_eq;

verus! {

/// What a tray menu entry does.
#[derive(Debug, Clone, Copy, PartialEq, Eq)]
pub enum TrayAction {
    /// Fetch the latest wallpapers now.
    Update,
    /// Open the main window.
    OpenWindow,
    /// Open the wallpaper folder.
    OpenFolder,
    /// Quit the application.
    Quit,
    /// Nothing.
    Ignore,
}

/// The action of the tray menu entry with id `id`.
pub open spec fn tray_action_of(id: Seq<char>) -> TrayAction {
    if id == "update"@ {
        TrayAction::Update
    } else if id == "settings"@ {
        TrayAction::OpenWindow
    } else if id == "open_folder"@ {
        TrayAction::OpenFolder
    } else if id == "quit"@ {
        TrayAction::Quit
    } else {
        TrayAction::Ignore
    }
}

/// The action of the tray menu entry with id `id`.
pub fn tray_action(id: &str) -> (r: TrayAction)
    ensures
        r == tray_action_of(id@),
{
    if str_eq(id, "update") {
        TrayAction::Update
    } else if str_eq(id, "settings") {
        TrayAction::OpenWindow
    } else if str_eq(id, "open_folder") {
        TrayAction::OpenFolder
    } else if str_eq(id, "quit") {
        TrayAction::Quit
    } else {
        TrayAction::Ignore
    }
}

/// The main window shows at launch on the first run, and otherwise unless
/// silent start is configured.
pub fn shows_window_at_launch(first_run: bool, silent_start: bool) -> (r: bool)
    ensures
        r == (first_run || !silent_start),
{
    first_run || !silent_start
}

} // verus!
