//! Events that the kernel hands to applications.
use vstd::prelude::*;

verus! {

/// An event for an application: nothing, a request to quit, mouse and key
/// input, or a timer that fired.
#[derive(Clone, Copy, Debug, PartialEq, Eq, Structural)]
pub enum AppEvent {
    Null,
    Quit,
    MouseMove { x: i32, y: i32, dx: i32, dy: i32, buttons: u8 },
    MouseButton { x: i32, y: i32, press: bool, button: i32 },
    Timer { timeout: u64, value: i32 },
    KeyPush { modifier: u8, keycode: u8, ascii: u8, press: bool },
}

impl AppEvent {
    /// The number that tells the application which kind of event this is.
    pub fn kind(&self) -> (r: i32)
        ensures
            r == match self {
                AppEvent::Null => 0i32,
                AppEvent::Quit => 1,
                AppEvent::MouseMove { .. } => 2,
                AppEvent::MouseButton { .. } => 3,
                AppEvent::Timer { .. } => 4,
                AppEvent::KeyPush { .. } => 5,
            },
    {
        match self {
            AppEvent::Null => 0,
            AppEvent::Quit => 1,
            AppEvent::MouseMove { .. } => 2,
            AppEvent::MouseButton { .. } => 3,
            AppEvent::Timer { .. } => 4,
            AppEvent::KeyPush { .. } => 5,
        }
    }
}

impl Default for AppEvent {
    fn default() -> (r: Self)
        ensures
            r == AppEvent::Null,
    {
        AppEvent::Null
    }
}

} // verus!
