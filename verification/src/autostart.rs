//! Starting the tray at login, through an XDG autostart desktop entry.

use vstd::prelude::*;

verus! {

/// What toggling autostart has to do.
#[derive(Debug, Clone, Copy, PartialEq, Eq, Structural)]
pub enum AutostartChange {
    /// Write the desktop entry.
    Enable,
    /// Remove the desktop entry.
    Disable,
}

/// The text of the autostart desktop entry that runs `exec`.
pub open spec fn spec_desktop_entry(exec: Seq<char>) -> Seq<char> {
    "[Desktop Entry]\nType=Application\nName=AWG Tray\nExec="@ + exec
        + "\nIcon=network-vpn\nTerminal=false\n"@
}

/// The autostart desktop entry that runs `exec`.
pub fn desktop_entry(exec: &str) -> (s: String)
    ensures
        s@ == spec_desktop_entry(exec@),
{
    let mut s = "[Desktop Entry]\nType=Application\nName=AWG Tray\nExec=".to_string();
    s.append(exec);
    s.append("\nIcon=network-vpn\nTerminal=false\n");
    s
}

/// Autostart is on when there is an autostart directory and the desktop
/// entry exists in it. `entry_exists` is `None` when there is no autostart
/// directory, else whether the entry file exists.
pub fn is_enabled(entry_exists: Option<bool>) -> (b: bool)
    ensures
        b == (entry_exists == Some(true)),
{
    match entry_exists {
        Some(e) => e,
        None => false,
    }
}

/// Toggling turns autostart off when it is on, and on otherwise.
pub fn toggle(enabled: bool) -> (c: AutostartChange)
    ensures
        c == (if enabled {
            AutostartChange::Disable
        } else {
            AutostartChange::Enable
        }),
{
    if enabled {
        AutostartChange::Disable
    } else {
        AutostartChange::Enable
    }
}

} // verus!
