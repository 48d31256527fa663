//! What a platform backend offers: a drawable area, input events and a way
//! to show pixels.
use vstd::prelude::*;
use crate::time::Duration;

verus! {

/// The error type of the standard I/O functions; its inside is not read.
#[verifier::external_type_specification]
#[verifier::external_body]
pub struct ExIoError(std::io::Error);

/// How to open a window: its title and its size.
#[derive(Clone, Debug, PartialEq, Eq)]
pub struct WindowConfig {
    pub title: String,
    pub width: u32,
    pub height: u32,
}

impl WindowConfig {
    pub fn new(title: &str, width: u32, height: u32) -> (c: WindowConfig)
        ensures
            c.title@ == title@,
            c.width == width,
            c.height == height,
    {
        WindowConfig { title: title.to_owned(), width, height }
    }
}

/// A key of the keyboard.
#[derive(Copy, Clone, Debug, PartialEq, Eq, Structural)]
pub enum Key {
    Escape,
    Enter,
    Backspace,
    Left,
    Right,
    Up,
    Down,
    Char(char),
}

/// A button of the mouse.
#[derive(Copy, Clone, Debug, PartialEq, Eq, Structural)]
pub enum MouseButton {
    Left,
    Middle,
    Right,
    Other(u8),
}

/// An input event, the same for every backend.
#[derive(Clone, Debug, PartialEq, Eq, Structural)]
pub enum Event {
    CloseRequested,
    KeyDown(Key),
    KeyUp(Key),
    MouseMove { x: i32, y: i32 },
    MouseDown { button: MouseButton, x: i32, y: i32 },
    MouseUp { button: MouseButton, x: i32, y: i32 },
}

/// Why a backend failed.
#[derive(Debug)]
pub enum PlatformError {
    Io(std::io::Error),
    Unsupported,
    Backend(String),
}

impl PlatformError {
    /// The text of the error: `IO error: ` and the I/O error's own text,
    /// `Backend error: ` and the backend's text, or a fixed sentence for an
    /// unsupported platform.
    pub fn to_string(&self) -> (s: String)
        ensures
            match *self {
                PlatformError::Io(_) => exists|text: Seq<char>| s@ == "IO error: "@ + text,
                PlatformError::Unsupported => s@ == "Unsupported platform or configuration"@,
                PlatformError::Backend(b) => s@ == "Backend error: "@ + b@,
            },
    {
        match self {
            PlatformError::Io(e) => {
                let text = io_error_text(e);
                let s = concat("IO error: ", text.as_str());
                assert(s@ == "IO error: "@ + text@);
                s
            },
            PlatformError::Unsupported => "Unsupported platform or configuration".to_owned(),
            PlatformError::Backend(b) => concat("Backend error: ", b.as_str()),
        }
    }
}

impl From<std::io::Error> for PlatformError {
    fn from(e: std::io::Error) -> (r: PlatformError) {
        PlatformError::Io(e)
    }
}

impl vstd::std_specs::convert::FromSpecImpl<std::io::Error> for PlatformError {
    open spec fn obeys_from_spec() -> bool {
        true
    }

    open spec fn from_spec(e: std::io::Error) -> PlatformError {
        PlatformError::Io(e)
    }
}

/// The text that `std::io::Error` shows through `Display`. It may come from
/// the operating system, so nothing is stated of it.
#[verifier::external_body]
fn io_error_text(e: &std::io::Error) -> (s: String) {
    e.to_string()
}

/// `[str]::concat` on two strings: the first followed by the second.
#[verifier::external_body]
fn concat(a: &str, b: &str) -> (s: String)
    ensures
        s@ == a@ + b@,
{
    [a, b].concat()
}

/// A platform backend: a terminal, a window system.
pub trait Platform {
    /// Size of the drawable area, in pixels or cells.
    fn size(&self) -> (u32, u32);

    /// The next input event, if one has come in; does not wait.
    fn poll_event(&mut self) -> Option<Event>;

    /// Shows packed RGBA pixels of the given size; `pixels_rgba_le` holds at
    /// least `width * height` of them.
    fn present_rgba_le(&mut self, width: u32, height: u32, pixels_rgba_le: &[u32]) -> Result<
        (),
        PlatformError,
    >;

    /// Lets `dt` of time pass.
    fn sleep(&self, dt: Duration);
}

} // verus!
