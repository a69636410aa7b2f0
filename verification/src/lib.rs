//! A small library for modal message dialogs: text layout with soft
//! wrapping, dialog geometry, scene compositing into a pixel surface, and an
//! interaction state machine that turns normalized window events into a
//! terminal answer.

use vstd::prelude::*;

pub mod color;
pub mod error;
pub mod event;
pub mod font;
pub mod surface;
pub mod ui;

verus! {

/// The terminal result of a dialog session: either a button was activated
/// (by its zero-based, left-to-right index) or the window was closed without
/// selecting a button.
#[derive(Clone, Copy, Debug, PartialEq, Eq, Structural)]
pub enum Answer {
    Button(usize),
    Closed,
}

/// The theme selects one of two fixed color palettes.
#[derive(Clone, Copy, Debug, PartialEq, Eq, Structural)]
pub enum Theme {
    Light,
    Dark,
}

/// The icon shown beside the message; selection of the actual bitmap is left
/// to the caller, which hands the dialog an opaque surface.
#[derive(Clone, Copy, Debug, PartialEq, Eq, Structural)]
pub enum Icon {
    Info,
    Warning,
    Error,
    Question,
}

/// The built-in sets of buttons a dialog may show.
#[derive(Clone, Copy, Debug, PartialEq, Eq, Structural)]
pub enum ButtonPreset {
    Close,
    Okay,
    OkayCancel,
    RetryCancel,
    YesNo,
    YesNoCancel,
}

impl ButtonPreset {
    /// The button labels of this preset, leftmost first.
    pub fn strings(&self) -> (r: Vec<&'static str>)
        ensures
            match *self {
                ButtonPreset::Close => r@.len() == 1 && r@[0]@ == "Close"@,
                ButtonPreset::Okay => r@.len() == 1 && r@[0]@ == "OK"@,
                ButtonPreset::OkayCancel => r@.len() == 2 && r@[0]@ == "OK"@ && r@[1]@
                    == "Cancel"@,
                ButtonPreset::RetryCancel => r@.len() == 2 && r@[0]@ == "Retry"@ && r@[1]@
                    == "Cancel"@,
                ButtonPreset::YesNo => r@.len() == 2 && r@[0]@ == "Yes"@ && r@[1]@ == "No"@,
                ButtonPreset::YesNoCancel => r@.len() == 3 && r@[0]@ == "Yes"@ && r@[1]@ == "No"@
                    && r@[2]@ == "Cancel"@,
            },
            1 <= r@.len() <= 3,
    {
        match *self {
            ButtonPreset::Close => vec!["Close"],
            ButtonPreset::Okay => vec!["OK"],
            ButtonPreset::OkayCancel => vec!["OK", "Cancel"],
            ButtonPreset::RetryCancel => vec!["Retry", "Cancel"],
            ButtonPreset::YesNo => vec!["Yes", "No"],
            ButtonPreset::YesNoCancel => vec!["Yes", "No", "Cancel"],
        }
    }
}

/// The width budget for rendering the message: what remains of the
/// minimum window width after the icon, the window padding on both sides,
/// and the spacing between icon and message. A wide icon can drive the
/// budget negative; the message then wraps at every break opportunity.
pub fn message_max_width(icon_width: usize) -> (r: i64)
    requires
        icon_width <= ui::ICON_MAX,
    ensures
        r == ui::MIN_WIDTH - icon_width - 2 * ui::WINDOW_PADDING - ui::SPACING,
{
    ui::MIN_WIDTH - icon_width as i64 - 2 * ui::WINDOW_PADDING - ui::SPACING
}

} // verus!
