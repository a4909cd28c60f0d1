//! What the command bar's window does on the events it receives: the
//! global shortcut (Alt+N) toggles it, losing focus hides it, and a second
//! launch of the program brings it back. The window itself is driven by the
//! desktop shell; these functions decide the step.

use vstd::prelude::*;

verus! {

/// A change to the window.
#[derive(Debug, Clone, Copy, PartialEq, Eq, Structural)]
pub enum WindowAction {
    /// Show the window and give it focus.
    ShowAndFocus,
    /// Hide the window.
    Hide,
}

/// The step for a global-shortcut event: only a press of Alt+N acts, and it
/// hides a visible window and shows (and focuses) a hidden one.
pub fn on_shortcut(pressed: bool, is_alt_n: bool, visible: bool) -> (r: Option<WindowAction>)
    ensures
        r == if pressed && is_alt_n {
            Some(
                if visible {
                    WindowAction::Hide
                } else {
                    WindowAction::ShowAndFocus
                },
            )
        } else {
            None
        },
{
    if pressed && is_alt_n {
        if visible {
            Some(WindowAction::Hide)
        } else {
            Some(WindowAction::ShowAndFocus)
        }
    } else {
        None
    }
}

/// The step for a focus change: the bar hides when it loses focus.
pub fn on_focus_change(focused: bool) -> (r: Option<WindowAction>)
    ensures
        r == if focused {
            None
        } else {
            Some(WindowAction::Hide)
        },
{
    if focused {
        None
    } else {
        Some(WindowAction::Hide)
    }
}

} // verus!
