use vstd::prelude::*;

verus! {

/// Describes a requested native window.
#[derive(Clone, Debug)]
pub struct Window {
    pub title: String,
    pub width: u32,
    pub height: u32,
}

impl Default for Window {
    /// A 1280 by 720 window titled "Window".
    fn default() -> (r: Window)
        ensures
            r.title@ == "Window"@,
            r.width == 1280,
            r.height == 720,
    {
        Window { title: "Window".to_owned(), width: 1280, height: 720 }
    }
}

/// When the event loop quits.
#[derive(Clone, Copy, Debug, PartialEq, Eq, Structural)]
pub enum ExitCondition {
    /// Quit when the primary window is closed.
    OnPrimaryClosed,
    /// Quit when all windows are closed.
    OnAllClosed,
    /// Quit only on an exit signal sent by the application.
    DontExit,
}

impl Default for ExitCondition {
    fn default() -> (r: ExitCondition)
        ensures
            r == ExitCondition::OnAllClosed,
    {
        ExitCondition::OnAllClosed
    }
}

impl ExitCondition {
    /// Whether the exit check installed for this condition emits the exit
    /// signal, given the entities that have a window and those that have a
    /// window and the primary marker.
    pub fn exit_requested(&self, windows: &Vec<u64>, primary_windows: &Vec<u64>) -> (r: bool)
        ensures
            r == match *self {
                ExitCondition::OnPrimaryClosed => primary_windows@.len() == 0,
                ExitCondition::OnAllClosed => windows@.len() == 0,
                ExitCondition::DontExit => false,
            },
    {
        match self {
            ExitCondition::OnPrimaryClosed => crate::systems::pu_exit_on_primary_closed(primary_windows),
            ExitCondition::OnAllClosed => crate::systems::pu_exit_on_all_closed(windows),
            ExitCondition::DontExit => false,
        }
    }
}

/// Configuration of the window layer: the primary window to open at start,
/// if any, and when the event loop quits.
#[derive(Clone, Debug)]
pub struct WindowPlugin {
    pub primary_window: Option<Window>,
    pub exit_condition: ExitCondition,
}

impl Default for WindowPlugin {
    /// One default primary window; quit once all windows are closed.
    fn default() -> (r: WindowPlugin)
        ensures
            r.primary_window is Some,
            r.primary_window->0.title@ == "Window"@,
            r.primary_window->0.width == 1280,
            r.primary_window->0.height == 720,
            r.exit_condition == ExitCondition::OnAllClosed,
    {
        WindowPlugin { primary_window: Some(Window::default()), exit_condition: ExitCondition::default() }
    }
}

} // verus!
