//! Keys and mouse events, and which of them reach the interface at all.
use crate::client::{CompletionError, ProcessStatus};
use vstd::prelude::*;

verus! {

/// A key.
#[derive(Debug, Clone, Copy, PartialEq, Eq, Structural)]
pub enum KeyCode {
    Backspace,
    Enter,
    Left,
    Right,
    Up,
    Down,
    Home,
    End,
    PageUp,
    PageDown,
    Tab,
    BackTab,
    Esc,
    Char(char),
    /// Any key that nothing answers to.
    Other,
}

/// A key, and whether Control was held.
#[derive(Debug, Clone, Copy, PartialEq, Eq, Structural)]
pub struct KeyEvent {
    pub code: KeyCode,
    pub control: bool,
}

impl KeyEvent {
    /// A key without Control.
    pub fn plain(code: KeyCode) -> (r: KeyEvent)
        ensures
            r == (KeyEvent { code, control: false }),
    {
        KeyEvent { code, control: false }
    }

    /// A key with Control.
    pub fn with_control(code: KeyCode) -> (r: KeyEvent)
        ensures
            r == (KeyEvent { code, control: true }),
    {
        KeyEvent { code, control: true }
    }
}

/// What the mouse did.
#[derive(Debug, Clone, Copy, PartialEq, Eq, Structural)]
pub enum MouseEventKind {
    DownLeft,
    DragLeft,
    UpLeft,
    ScrollUp,
    ScrollDown,
    /// Motion with no button held.
    Moved,
    /// Another button, or the wheel sideways.
    Other,
}

/// A mouse event, at a cell of the screen.
#[derive(Debug, Clone, Copy, PartialEq, Eq, Structural)]
pub struct MouseEvent {
    pub kind: MouseEventKind,
    pub column: u16,
    pub row: u16,
}

/// What the terminal reports.
#[derive(Debug, Clone, Copy, PartialEq, Eq, Structural)]
pub enum TerminalEvent {
    Key { key: KeyEvent, released: bool },
    Mouse(MouseEvent),
    Resize,
    /// Focus changes, pastes.
    Other,
}

/// What an attach session says.
#[derive(Debug, Clone, Copy, PartialEq, Eq, Structural)]
pub enum AttachEvent {
    /// New output landed.
    Output,
    /// The process exited or the connection failed.
    Ended,
}

/// What the main loop hears about.
#[derive(Debug)]
pub enum AppEvent {
    Key(KeyEvent),
    /// A mouse event and when it was read, in milliseconds.
    Mouse(MouseEvent, u64),
    Resize,
    /// The reply to a request for candidates.
    CompletionsReady {
        param: String,
        request_id: u64,
        result: Result<Vec<String>, CompletionError>,
    },
    /// A fresh snapshot, fetched because events were dropped.
    StateResync { processes: Vec<ProcessStatus>, startup_complete: bool },
    Attach(AttachEvent),
}

/// The event the main loop gets for what the terminal reports, if any: key
/// releases and motion with no button held wake nobody.
pub fn translate(event: TerminalEvent, now: u64) -> (r: Option<AppEvent>)
    ensures
        r == (match event {
            TerminalEvent::Key { key, released } => if released {
                None
            } else {
                Some(AppEvent::Key(key))
            },
            TerminalEvent::Mouse(mouse) => if mouse.kind == MouseEventKind::Moved {
                None
            } else {
                Some(AppEvent::Mouse(mouse, now))
            },
            TerminalEvent::Resize => Some(AppEvent::Resize),
            TerminalEvent::Other => None,
        }),
{
    match event {
        TerminalEvent::Key { key, released } => {
            if released {
                None
            } else {
                Some(AppEvent::Key(key))
            }
        },
        TerminalEvent::Mouse(mouse) => {
            if mouse.kind == MouseEventKind::Moved {
                None
            } else {
                Some(AppEvent::Mouse(mouse, now))
            }
        },
        TerminalEvent::Resize => Some(AppEvent::Resize),
        TerminalEvent::Other => None,
    }
}

} // verus!
