//! The decisions of the picker window and the tray: where the window opens,
//! when its focus is retried, what a menu entry does, and whether launch at
//! login is registered.
use vstd::prelude::*;

use crate::clipboard::same_chars;
use crate::text::chars_of;

verus! {

/// How many times focus is checked, and re-requested, after the window is
/// shown.
pub const FOCUS_ATTEMPTS: u8 = 8;

/// The offset that centers a length of `inner` in a length of `outer`: half
/// the space left, and none when there is none left.
pub open spec fn centered_offset(outer: u32, inner: u32) -> int {
    if outer > inner {
        (outer - inner) / 2
    } else {
        0
    }
}

/// Where a `width` by `height` window goes to sit centered in a work area
/// that starts at (`area_x`, `area_y`) and is `area_width` by `area_height`.
/// The work area ends within the range of screen coordinates.
pub fn centered_position(
    area_x: i32,
    area_y: i32,
    area_width: u32,
    area_height: u32,
    width: u32,
    height: u32,
) -> (r: (i32, i32))
    requires
        area_x + area_width <= i32::MAX,
        area_y + area_height <= i32::MAX,
    ensures
        r.0 == area_x + centered_offset(area_width, width),
        r.1 == area_y + centered_offset(area_height, height),
{
    let x = area_width.saturating_sub(width) / 2;
    let y = area_height.saturating_sub(height) / 2;
    (area_x + x as i32, area_y + y as i32)
}

/// What one focus check does on the main thread.
#[derive(Debug, PartialEq, Eq, Structural)]
pub enum FocusAction {
    /// The window has focus: stop retrying.
    Focused,
    /// The window is shown but unfocused: request focus again.
    Refocus,
    /// The window is not shown yet: wait for the next check.
    Wait,
}

/// The action of a focus check on a window that `focused` or not and is
/// `visible` or not.
pub fn focus_action(focused: bool, visible: bool) -> (r: FocusAction)
    ensures
        r == if focused {
            FocusAction::Focused
        } else if visible {
            FocusAction::Refocus
        } else {
            FocusAction::Wait
        },
{
    if focused {
        FocusAction::Focused
    } else if visible {
        FocusAction::Refocus
    } else {
        FocusAction::Wait
    }
}

/// What a tray menu entry does.
#[derive(Debug, PartialEq, Eq, Structural)]
pub enum MenuCommand {
    /// Show or hide the picker.
    Open,
    /// Show the update panel and start a check.
    CheckForUpdates,
    /// Exit the application.
    Quit,
    /// An entry the tray does not know: nothing.
    Ignore,
}

/// The command of the tray menu entry with identifier `id`.
pub fn menu_command(id: &str) -> (r: MenuCommand)
    ensures
        r == if id@ == "open"@ {
            MenuCommand::Open
        } else if id@ == "check_update"@ {
            MenuCommand::CheckForUpdates
        } else if id@ == "quit"@ {
            MenuCommand::Quit
        } else {
            MenuCommand::Ignore
        },
{
    let v = chars_of(id);
    if same_chars(&v, &chars_of("open")) {
        MenuCommand::Open
    } else if same_chars(&v, &chars_of("check_update")) {
        MenuCommand::CheckForUpdates
    } else if same_chars(&v, &chars_of("quit")) {
        MenuCommand::Quit
    } else {
        MenuCommand::Ignore
    }
}

/// Whether launch at login is to be registered: only when the application
/// was not itself started by it, which it marks with `--from-autostart`.
pub fn registers_autostart(args: &Vec<String>) -> (r: bool)
    ensures
        r == !exists|i: int| 0 <= i < args@.len() && #[trigger] args@[i]@ == "--from-autostart"@,
{
    let flag = chars_of("--from-autostart");
    let mut i: usize = 0;
    while i < args.len()
        invariant
            i <= args@.len(),
            flag@ == "--from-autostart"@,
            forall|j: int| 0 <= j < i ==> #[trigger] args@[j]@ != "--from-autostart"@,
        decreases args@.len() - i,
    {
        let a = chars_of(args[i].as_str());
        if same_chars(&a, &flag) {
            return false;
        }
        i = i + 1;
    }
    true
}

} // verus!
