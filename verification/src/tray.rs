//! What the tray menu and the main window's close button do.

use crate::text::same_text;
use vstd::prelude::*;

verus! {

/// What a tray menu entry asks for.
#[derive(PartialEq, Eq, Structural, Clone, Copy, Debug)]
pub enum TrayAction {
    /// Bring the main window back and announce the device again.
    ShowWindow,
    /// Leave the application.
    Quit,
    /// Not an entry of this menu.
    Nothing,
}

/// The action of the tray menu entry with this id.
pub fn menu_action(id: &str) -> (r: TrayAction)
    ensures
        r == (if id@ == "open"@ {
            TrayAction::ShowWindow
        } else if id@ == "quit"@ {
            TrayAction::Quit
        } else {
            TrayAction::Nothing
        }),
{
    if same_text(id, "open") {
        TrayAction::ShowWindow
    } else if same_text(id, "quit") {
        TrayAction::Quit
    } else {
        TrayAction::Nothing
    }
}

/// Whether closing the window with this label only hides it (so that the
/// device stays reachable): only the main window is kept.
pub fn hides_on_close(label: &str) -> (r: bool)
    ensures
        r == (label@ == "main"@),
{
    same_text(label, "main")
}

} // verus!
