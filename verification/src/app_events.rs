use vstd::prelude::*;

verus! {

/// What a click on an entry of the tray menu asks for.
#[derive(Debug, Clone, Copy, PartialEq, Eq)]
pub enum TrayAction {
    /// Show and focus the main window.
    ShowWindow,
    /// Stop the Python server and leave the application.
    Quit,
    /// Look for an update and offer it.
    CheckUpdate,
    /// Not an entry this application reacts to.
    Ignore,
}

/// The action of the tray menu entry with the identifier `id`.
pub open spec fn tray_action_of(id: Seq<char>) -> TrayAction {
    if id == "open"@ {
        TrayAction::ShowWindow
    } else if id == "quit"@ {
        TrayAction::Quit
    } else if id == "check_update"@ {
        TrayAction::CheckUpdate
    } else {
        TrayAction::Ignore
    }
}

/// Decides what a click on the tray menu entry `id` does.
pub fn tray_menu_action(id: &str) -> (action: TrayAction)
    ensures
        action == tray_action_of(id@),
{
    let id = id.to_owned();
    if id == String::from_str("open") {
        TrayAction::ShowWindow
    } else if id == String::from_str("quit") {
        TrayAction::Quit
    } else if id == String::from_str("check_update") {
        TrayAction::CheckUpdate
    } else {
        TrayAction::Ignore
    }
}

/// The message given when an update is to be installed but none was found.
pub open spec fn no_pending_update_text() -> Seq<char> {
    "No pending update"@
}

/// Takes the update found by the last check, to install it: the update is
/// handed out once and the slot is left empty; with no update found the
/// answer is the error `No pending update`.
pub fn take_pending<T>(pending: &mut Option<T>) -> (r: Result<T, String>)
    ensures
        *final(pending) is None,
        match *old(pending) {
            Some(u) => r == Ok::<T, String>(u),
            None => r matches Err(m) && m@ == no_pending_update_text(),
        },
{
    match pending.take() {
        Some(u) => Ok(u),
        None => Err(String::from_str("No pending update")),
    }
}

} // verus!
