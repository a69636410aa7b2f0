//! The normalized window-event vocabulary, and the exhaustive mapping from
//! raw display-server event records onto it.

use vstd::prelude::*;

verus! {

/// A cursor position in window coordinates, as reported by the display
/// server.
#[derive(Clone, Copy, Debug, PartialEq, Eq, Structural)]
pub struct CursorPos {
    pub x: i16,
    pub y: i16,
}

/// A mouse button identifier.
#[derive(Clone, Copy, Debug, PartialEq, Eq, Structural)]
pub enum MouseButton {
    Left,
    Middle,
    Right,
}

/// The normalized event stream consumed by the interaction state machine.
#[derive(Clone, Copy, Debug, PartialEq, Eq, Structural)]
pub enum WindowEvent {
    CloseRequested,
    RedrawRequested,
    CursorEnter(CursorPos),
    CursorMove(CursorPos),
    CursorLeave,
    ButtonPress(MouseButton),
    ButtonRelease(MouseButton),
}

/// A raw display-server event record, reduced to the plain fields that the
/// normalization reads. Records that can never map to a normalized event
/// arrive as `Other`.
#[derive(Clone, Copy, Debug, PartialEq, Eq, Structural)]
pub enum RawEvent {
    /// A client message; `first_word` is the first 32-bit word of its data.
    ClientMessage { first_word: u32 },
    /// A key press: whether it targets the dialog window, the key's code,
    /// and the active modifier mask.
    KeyPress { same_window: bool, keycode: u8, modifiers: u16 },
    /// An expose notification with its remaining-rectangles count.
    Expose { count: u16 },
    EnterNotify { x: i16, y: i16 },
    LeaveNotify,
    MotionNotify { x: i16, y: i16 },
    ButtonPress { detail: u8 },
    ButtonRelease { detail: u8 },
    Other,
}

/// The key code of the Escape key.
pub const KEYCODE_ESC: u8 = 9;

/// Modifier bits of the display server's key-state mask.
pub const MASK_SHIFT: u16 = 1;

/// Modifier bit for the Control key.
pub const MASK_CONTROL: u16 = 4;

/// Modifier bit for the first Mod group (usually Alt).
pub const MASK_MOD1: u16 = 8;

/// The mouse button denoted by a raw button `detail` code, if any.
pub open spec fn spec_mouse_button(detail: u8) -> Option<MouseButton> {
    if detail == 1 {
        Some(MouseButton::Left)
    } else if detail == 2 {
        Some(MouseButton::Middle)
    } else if detail == 3 {
        Some(MouseButton::Right)
    } else {
        None
    }
}

/// Maps a raw button `detail` code to a mouse button; codes beyond the
/// first three buttons are ignored.
pub fn mouse_button(detail: u8) -> (r: Option<MouseButton>)
    ensures
        r == spec_mouse_button(detail),
{
    match detail {
        1 => Some(MouseButton::Left),
        2 => Some(MouseButton::Middle),
        3 => Some(MouseButton::Right),
        _ => None,
    }
}

/// The normalized event for a raw record, given the atom that the window
/// manager uses to request a close. Some records are intentionally ignored
/// and map to `None`.
pub open spec fn spec_cvt_event(ev: RawEvent, delete_window_atom: u32) -> Option<WindowEvent> {
    match ev {
        RawEvent::ClientMessage { first_word } => if first_word == delete_window_atom {
            Some(WindowEvent::CloseRequested)
        } else {
            None
        },
        RawEvent::KeyPress { same_window, keycode, modifiers } => if same_window && keycode
            == KEYCODE_ESC && modifiers & (MASK_CONTROL | MASK_SHIFT | MASK_MOD1) == 0 {
            Some(WindowEvent::CloseRequested)
        } else {
            None
        },
        RawEvent::Expose { count } => if count == 0 {
            Some(WindowEvent::RedrawRequested)
        } else {
            None
        },
        RawEvent::EnterNotify { x, y } => Some(WindowEvent::CursorEnter(CursorPos { x, y })),
        RawEvent::LeaveNotify => Some(WindowEvent::CursorLeave),
        RawEvent::MotionNotify { x, y } => Some(WindowEvent::CursorMove(CursorPos { x, y })),
        RawEvent::ButtonPress { detail } => match spec_mouse_button(detail) {
            Some(b) => Some(WindowEvent::ButtonPress(b)),
            None => None,
        },
        RawEvent::ButtonRelease { detail } => match spec_mouse_button(detail) {
            Some(b) => Some(WindowEvent::ButtonRelease(b)),
            None => None,
        },
        RawEvent::Other => None,
    }
}

/// Normalizes one raw event record.
///
/// A close request arrives either as the window manager's client message or
/// as an unmodified Escape key press on the dialog window. Expose records
/// collapse into a single redraw request once their count reaches zero.
/// Pointer records carry their coordinates through; button records keep
/// only the first three buttons.
pub fn cvt_event(ev: RawEvent, delete_window_atom: u32) -> (r: Option<WindowEvent>)
    ensures
        r == spec_cvt_event(ev, delete_window_atom),
{
    match ev {
        RawEvent::ClientMessage { first_word } => {
            if first_word == delete_window_atom {
                Some(WindowEvent::CloseRequested)
            } else {
                None
            }
        },
        RawEvent::KeyPress { same_window, keycode, modifiers } => {
            if same_window && keycode == KEYCODE_ESC && modifiers & (MASK_CONTROL | MASK_SHIFT
                | MASK_MOD1) == 0 {
                Some(WindowEvent::CloseRequested)
            } else {
                None
            }
        },
        RawEvent::Expose { count } => {
            if count == 0 {
                Some(WindowEvent::RedrawRequested)
            } else {
                None
            }
        },
        RawEvent::EnterNotify { x, y } => Some(WindowEvent::CursorEnter(CursorPos { x, y })),
        RawEvent::LeaveNotify => Some(WindowEvent::CursorLeave),
        RawEvent::MotionNotify { x, y } => Some(WindowEvent::CursorMove(CursorPos { x, y })),
        RawEvent::ButtonPress { detail } => match mouse_button(detail) {
            Some(b) => Some(WindowEvent::ButtonPress(b)),
            None => None,
        },
        RawEvent::ButtonRelease { detail } => match mouse_button(detail) {
            Some(b) => Some(WindowEvent::ButtonRelease(b)),
            None => None,
        },
        RawEvent::Other => None,
    }
}

} // verus!
