//! The dialog itself: layout of icon, message and button row, the scene
//! composer that repaints the canvas, and the interaction state machine
//! that turns normalized window events into a terminal answer.

use vstd::prelude::*;

use crate::color::{spec_blend, spec_theme_colors, theme_colors, Colors, Pixel, Rgb};
use crate::event::{CursorPos, MouseButton, WindowEvent};
use crate::surface::{rr_edge, rr_inside, Surface, DIM_MAX, OFFSET_MAX};
use crate::Answer;
use crate::Theme;

verus! {

/// Padding between the window edge and its contents.
pub const WINDOW_PADDING: i64 = 10;

/// Padding between a button's text and its border.
pub const BTN_PADDING: i64 = 12;

/// Spacing between neighboring components.
pub const SPACING: i64 = 10;

/// Corner radius of a button's rounded rectangle.
pub const BTN_RADIUS: i64 = 5;

/// Minimum window width.
pub const MIN_WIDTH: i64 = 400;

/// Minimum window height.
pub const MIN_HEIGHT: i64 = 100;

/// The most buttons a dialog may show.
pub const BTNS_MAX: usize = 8;

/// The widest or tallest an icon surface may be.
pub const ICON_MAX: usize = 1024;

/// The widest or tallest a button label surface may be.
pub const LABEL_MAX: usize = 1024;

/// The widest or tallest a message surface may be.
pub const MSG_MAX: usize = 8192;

/// One button of the dialog: its minimum size (text size plus padding), its
/// final size and absolute position from the even division of the window
/// width, and its rendered text.
pub struct Button {
    pub min_w: i64,
    pub min_h: i64,
    pub w: i64,
    pub h: i64,
    pub x: i64,
    pub y: i64,
    pub text: Surface,
}

/// Whether the point `(px, py)` lies within the button's bounds.
pub open spec fn rect_contains(b: Button, px: int, py: int) -> bool {
    b.x <= px < b.x + b.w && b.y <= py < b.y + b.h
}

impl Button {
    /// A button's fields are small enough for all the geometry arithmetic,
    /// and its text surface is well-formed.
    pub open spec fn bounded(self) -> bool {
        &&& 0 <= self.w <= DIM_MAX
        &&& 0 <= self.h <= DIM_MAX
        &&& 0 <= self.x <= OFFSET_MAX
        &&& 0 <= self.y <= OFFSET_MAX
        &&& 0 <= self.min_w <= OFFSET_MAX
        &&& 0 <= self.min_h <= OFFSET_MAX
        &&& self.text.wf()
    }

    /// Decides whether `(px, py)` lies within this button's bounds.
    pub fn contains(&self, px: i64, py: i64) -> (r: bool)
        requires
            self.bounded(),
        ensures
            r == rect_contains(*self, px as int, py as int),
    {
        px >= self.x && py >= self.y && px < self.x + self.w && py < self.y + self.h
    }
}

/// A recorded cursor position, in the mathematical model of the
/// interaction state.
pub ghost struct CPos {
    pub x: int,
    pub y: int,
}

/// The interaction-relevant state of a dialog: the recorded cursor
/// position (absent while the cursor is outside the window), whether the
/// left mouse button is down, and whether the press has turned into a
/// drag.
pub ghost struct IState {
    pub cursor: Option<CPos>,
    pub pressed: bool,
    pub dragging: bool,
}

impl IState {
    /// The state a dialog starts in: no cursor, nothing pressed.
    pub open spec fn initial() -> IState {
        IState { cursor: None, pressed: false, dragging: false }
    }
}

/// The outcome of one step of the interaction state machine: the next
/// state and, if the step was terminal, the answer.
pub ghost struct StepResult {
    pub st: IState,
    pub ans: Option<Answer>,
}

/// The first button, scanning from index `k` leftward to rightward, whose
/// bounds contain `(px, py)`.
pub open spec fn spec_hit_from(bs: Seq<Button>, px: int, py: int, k: int) -> Option<int>
    decreases bs.len() - k,
{
    if k < 0 || k >= bs.len() {
        None
    } else if rect_contains(bs[k], px, py) {
        Some(k)
    } else {
        spec_hit_from(bs, px, py, k + 1)
    }
}

/// The lowest button index whose bounds contain `(px, py)`.
pub open spec fn spec_hit(bs: Seq<Button>, px: int, py: int) -> Option<int> {
    spec_hit_from(bs, px, py, 0)
}

/// A hit is always a real button index, and its bounds contain the point.
pub proof fn lemma_hit_props(bs: Seq<Button>, px: int, py: int, k: int)
    requires
        0 <= k <= bs.len(),
    ensures
        match spec_hit_from(bs, px, py, k) {
            Some(i) => k <= i < bs.len() && rect_contains(bs[i], px, py),
            None => forall|i: int| k <= i < bs.len() ==> !rect_contains(#[trigger] bs[i], px, py),
        },
    decreases bs.len() - k,
{
    if k < bs.len() && !rect_contains(bs[k], px, py) {
        lemma_hit_props(bs, px, py, k + 1);
    }
}

/// The exact transition table of the interaction state machine, for one
/// normalized event against the button row `bs`.
///
/// A close request is terminal at any state and leaves the state alone.
/// Cursor entry or motion records the position and marks the session as
/// dragging exactly when the button was already down. Leaving clears the
/// position. A left press sets the pressed flag. A left release activates
/// the button under the recorded cursor, if there is one and the press
/// never became a drag; otherwise it clears the pressed and dragging
/// flags. Everything else changes nothing.
pub open spec fn spec_step(bs: Seq<Button>, s: IState, ev: WindowEvent) -> StepResult {
    match ev {
        WindowEvent::CloseRequested => StepResult { st: s, ans: Some(Answer::Closed) },
        WindowEvent::CursorEnter(p) | WindowEvent::CursorMove(p) => StepResult {
            st: IState {
                cursor: Some(CPos { x: p.x as int, y: p.y as int }),
                pressed: s.pressed,
                dragging: s.pressed,
            },
            ans: None,
        },
        WindowEvent::CursorLeave => StepResult {
            st: IState { cursor: None, pressed: s.pressed, dragging: s.dragging },
            ans: None,
        },
        WindowEvent::ButtonPress(MouseButton::Left) => StepResult {
            st: IState { cursor: s.cursor, pressed: true, dragging: s.dragging },
            ans: None,
        },
        WindowEvent::ButtonRelease(MouseButton::Left) => {
            if s.cursor is Some && spec_hit(bs, s.cursor->0.x, s.cursor->0.y) is Some
                && !s.dragging {
                StepResult {
                    st: s,
                    ans: Some(
                        Answer::Button(
                            spec_hit(bs, s.cursor->0.x, s.cursor->0.y)->0 as usize,
                        ),
                    ),
                }
            } else {
                StepResult {
                    st: IState { cursor: s.cursor, pressed: false, dragging: false },
                    ans: None,
                }
            }
        },
        _ => StepResult { st: s, ans: None },
    }
}

/// The answer a whole event stream produces from state `s`: the outcome of
/// the first terminal step, with every later event left unprocessed.
pub open spec fn spec_session(bs: Seq<Button>, s: IState, evs: Seq<WindowEvent>) -> Option<Answer>
    decreases evs.len(),
{
    if evs.len() == 0 {
        None
    } else {
        let step = spec_step(bs, s, evs[0]);
        if step.ans is Some {
            step.ans
        } else {
            spec_session(bs, step.st, evs.drop_first())
        }
    }
}

/// The dialog: its palette, the composed canvas, the rendered icon and
/// message surfaces with their positions, the button row, and the
/// interaction state.
pub struct Ui {
    pub colors: Colors,
    pub canvas: Surface,
    pub icon: Surface,
    pub icon_x: i64,
    pub icon_y: i64,
    pub message: Surface,
    pub msg_x: i64,
    pub msg_y: i64,
    pub buttons: Vec<Button>,
    pub cursor: Option<(i64, i64)>,
    pub mouse_pressed: bool,
    pub mouse_dragging: bool,
}

impl Ui {
    /// The interaction-relevant part of the dialog's state.
    pub open spec fn istate(self) -> IState {
        IState {
            cursor: match self.cursor {
                Some(p) => Some(CPos { x: p.0 as int, y: p.1 as int }),
                None => None,
            },
            pressed: self.mouse_pressed,
            dragging: self.mouse_dragging,
        }
    }

    /// Everything about the dialog except its interaction state and its
    /// canvas: geometry and rendered content.
    pub open spec fn same_geometry(a: Ui, b: Ui) -> bool {
        &&& a.colors == b.colors
        &&& a.icon == b.icon
        &&& a.icon_x == b.icon_x
        &&& a.icon_y == b.icon_y
        &&& a.message == b.message
        &&& a.msg_x == b.msg_x
        &&& a.msg_y == b.msg_y
        &&& a.buttons == b.buttons
    }

    /// Well-formedness: all surfaces are well-formed, every button lies
    /// fully inside the window, buttons are ordered left to right without
    /// overlap, and all coordinates are small enough for the compositing
    /// arithmetic.
    pub open spec fn wf(self) -> bool {
        &&& self.canvas.wf()
        &&& self.icon.wf()
        &&& self.message.wf()
        &&& self.buttons@.len() <= BTNS_MAX
        &&& 0 <= self.icon_x <= OFFSET_MAX
        &&& 0 <= self.icon_y <= OFFSET_MAX
        &&& -OFFSET_MAX <= self.msg_x <= OFFSET_MAX
        &&& -OFFSET_MAX <= self.msg_y <= OFFSET_MAX
        &&& forall|k: int|
            0 <= k < self.buttons@.len() ==> (#[trigger] self.buttons@[k]).bounded()
        &&& forall|k: int|
            0 <= k < self.buttons@.len() ==> (#[trigger] self.buttons@[k]).x
                + self.buttons@[k].w <= self.canvas.width && self.buttons@[k].y
                + self.buttons@[k].h <= self.canvas.height
        &&& forall|j: int, k: int|
            0 <= j < k < self.buttons@.len() ==> (#[trigger] self.buttons@[j]).x
                + self.buttons@[j].w <= (#[trigger] self.buttons@[k]).x
    }

    /// The index of the button whose bounds contain `(px, py)`, if any;
    /// index 0 is the leftmost button.
    pub fn hit_test(&self, px: i64, py: i64) -> (r: Option<usize>)
        requires
            self.wf(),
        ensures
            match r {
                Some(i) => spec_hit(self.buttons@, px as int, py as int) == Some(i as int),
                None => spec_hit(self.buttons@, px as int, py as int) is None,
            },
    {
        let n = self.buttons.len();
        let mut k: usize = 0;
        while k < n
            invariant
                self.wf(),
                n == self.buttons@.len(),
                k <= n,
                spec_hit(self.buttons@, px as int, py as int) == spec_hit_from(
                    self.buttons@,
                    px as int,
                    py as int,
                    k as int,
                ),
            decreases n - k,
        {
            if self.buttons[k].contains(px, py) {
                return Some(k);
            }
            k += 1;
        }
        None
    }

    /// Feeds one normalized event to the interaction state machine.
    ///
    /// Returns the terminal answer if this event produced one; geometry and
    /// canvas are never touched, and the state changes exactly as the
    /// transition table [`spec_step`] says.
    pub fn process_event(&mut self, event: WindowEvent) -> (r: Option<Answer>)
        requires
            old(self).wf(),
        ensures
            final(self).wf(),
            Ui::same_geometry(*final(self), *old(self)),
            final(self).canvas == old(self).canvas,
            final(self).istate() == spec_step(old(self).buttons@, old(self).istate(), event).st,
            r == spec_step(old(self).buttons@, old(self).istate(), event).ans,
    {
        match event {
            WindowEvent::CloseRequested => {
                return Some(Answer::Closed);
            },
            WindowEvent::CursorEnter(pos) | WindowEvent::CursorMove(pos) => {
                self.cursor = Some((pos.x as i64, pos.y as i64));
                self.mouse_dragging = self.mouse_pressed;
            },
            WindowEvent::CursorLeave => {
                self.cursor = None;
            },
            WindowEvent::ButtonPress(MouseButton::Left) => {
                self.mouse_pressed = true;
            },
            WindowEvent::ButtonRelease(MouseButton::Left) => {
                if let Some(p) = self.cursor {
                    if let Some(i) = self.hit_test(p.0, p.1) {
                        if !self.mouse_dragging {
                            return Some(Answer::Button(i));
                        }
                    }
                }
                self.mouse_pressed = false;
                self.mouse_dragging = false;
            },
            _ => {},
        }
        None
    }
}

/// The fill color of a button under interaction state `s`: pressed wins
/// over hovered, hovered over the default, and both apply only while the
/// recorded cursor lies within the button's bounds.
pub open spec fn spec_button_fill(colors: Colors, s: IState, b: Button) -> Rgb {
    if s.cursor is Some && rect_contains(b, s.cursor->0.x, s.cursor->0.y) {
        if s.pressed {
            colors.button_pressed
        } else {
            colors.button_hover
        }
    } else {
        colors.button
    }
}

/// What painting one button changes the pixel at `(x, y)` into, given that
/// the canvas showed `p` there: first the rounded rectangle (outline over
/// fill), then the button's text blended over it, centered horizontally
/// and aligned to the top padding.
pub open spec fn spec_button_px(colors: Colors, s: IState, b: Button, x: int, y: int, p: Pixel) -> Pixel {
    let p1 = if rr_edge(x - b.x, y - b.y, b.w as int, b.h as int, BTN_RADIUS as int) {
        Pixel::spec_opaque(colors.button_outline)
    } else if rr_inside(x - b.x, y - b.y, b.w as int, b.h as int, BTN_RADIUS as int) {
        Pixel::spec_opaque(spec_button_fill(colors, s, b))
    } else {
        p
    };
    let tx = b.x + b.w / 2 - b.text.width / 2;
    let ty = b.y + BTN_PADDING;
    if tx <= x < tx + b.text.width && ty <= y < ty + b.text.height {
        spec_blend(b.text.pix(x - tx, y - ty), p1)
    } else {
        p1
    }
}

/// The pixel at `(x, y)` after the whole button row has been painted, in
/// order, over a base pixel.
pub open spec fn spec_buttons_px(
    colors: Colors,
    s: IState,
    bs: Seq<Button>,
    x: int,
    y: int,
    base: Pixel,
) -> Pixel
    decreases bs.len(),
{
    if bs.len() == 0 {
        base
    } else {
        spec_button_px(colors, s, bs.last(), x, y, spec_buttons_px(colors, s, bs.drop_last(), x, y, base))
    }
}

/// The pixel at `(x, y)` before the buttons: the window background with
/// the icon and then the message blended over it.
pub open spec fn spec_base_px(ui: Ui, x: int, y: int) -> Pixel {
    let p0 = Pixel::spec_opaque(ui.colors.window_bg);
    let p1 = if ui.icon_x <= x < ui.icon_x + ui.icon.width && ui.icon_y <= y < ui.icon_y
        + ui.icon.height {
        spec_blend(ui.icon.pix(x - ui.icon_x, y - ui.icon_y), p0)
    } else {
        p0
    };
    if ui.msg_x <= x < ui.msg_x + ui.message.width && ui.msg_y <= y < ui.msg_y
        + ui.message.height {
        spec_blend(ui.message.pix(x - ui.msg_x, y - ui.msg_y), p1)
    } else {
        p1
    }
}

/// The full scene: background, icon, message, and the button row with its
/// interaction-dependent fill colors. The canvas content plays no part in
/// this value, so repainting is idempotent.
pub open spec fn spec_scene_px(ui: Ui, x: int, y: int) -> Pixel {
    spec_buttons_px(ui.colors, ui.istate(), ui.buttons@, x, y, spec_base_px(ui, x, y))
}

impl Ui {
    /// Repaints the whole canvas from the current interaction state:
    /// background, icon, message, then every button with its state-chosen
    /// fill. Reads but never changes the interaction state, and produces
    /// the same canvas whenever the state is the same.
    pub fn redraw(&mut self)
        requires
            old(self).wf(),
        ensures
            final(self).wf(),
            Ui::same_geometry(*final(self), *old(self)),
            final(self).istate() == old(self).istate(),
            final(self).cursor == old(self).cursor,
            final(self).mouse_pressed == old(self).mouse_pressed,
            final(self).mouse_dragging == old(self).mouse_dragging,
            final(self).canvas.width == old(self).canvas.width,
            final(self).canvas.height == old(self).canvas.height,
            forall|x: int, y: int|
                final(self).canvas.in_bounds(x, y) ==> final(self).canvas.pix(x, y)
                    == spec_scene_px(*old(self), x, y),
    {
        let ghost ui0 = *old(self);
        self.canvas.clear(self.colors.window_bg);
        self.canvas.place_surface(&self.icon, self.icon_x, self.icon_y);
        self.canvas.place_surface(&self.message, self.msg_x, self.msg_y);
        proof {
            assert forall|x: int, y: int| self.canvas.in_bounds(x, y) implies self.canvas.pix(x, y)
                == spec_base_px(ui0, x, y) by {
            }
        }
        let n = self.buttons.len();
        let mut k: usize = 0;
        while k < n
            invariant
                self.wf(),
                Ui::same_geometry(*self, ui0),
                self.cursor == ui0.cursor,
                self.mouse_pressed == ui0.mouse_pressed,
                self.mouse_dragging == ui0.mouse_dragging,
                self.canvas.width == ui0.canvas.width,
                self.canvas.height == ui0.canvas.height,
                n == self.buttons@.len(),
                k <= n,
                forall|x: int, y: int|
                    self.canvas.in_bounds(x, y) ==> self.canvas.pix(x, y) == spec_buttons_px(
                        ui0.colors,
                        ui0.istate(),
                        ui0.buttons@.take(k as int),
                        x,
                        y,
                        spec_base_px(ui0, x, y),
                    ),
            decreases n - k,
        {
            let ghost cprev = self.canvas;
            let bx = self.buttons[k].x;
            let by = self.buttons[k].y;
            let bw = self.buttons[k].w;
            let bh = self.buttons[k].h;
            let tw = self.buttons[k].text.width;
            let mut fill = self.colors.button;
            if let Some(p) = self.cursor {
                if self.buttons[k].contains(p.0, p.1) {
                    fill = if self.mouse_pressed {
                        self.colors.button_pressed
                    } else {
                        self.colors.button_hover
                    };
                }
            }
            proof {
                assert(fill == spec_button_fill(ui0.colors, ui0.istate(), ui0.buttons@[k as int]));
            }
            self.canvas.paint_rounded_rect(
                bx,
                by,
                bw,
                bh,
                BTN_RADIUS,
                fill,
                self.colors.button_outline,
            );
            let ghost cmid = self.canvas;
            let tx: i64 = bx + bw / 2 - (tw as i64) / 2;
            let ty: i64 = by + BTN_PADDING;
            self.canvas.place_surface(&self.buttons[k].text, tx, ty);
            proof {
                let bseq = ui0.buttons@;
                assert(bseq.take(k as int + 1).drop_last() =~= bseq.take(k as int));
                assert(bseq.take(k as int + 1).last() == bseq[k as int]);
                assert forall|x: int, y: int| self.canvas.in_bounds(x, y) implies self.canvas.pix(
                    x,
                    y,
                ) == spec_buttons_px(
                    ui0.colors,
                    ui0.istate(),
                    bseq.take(k as int + 1),
                    x,
                    y,
                    spec_base_px(ui0, x, y),
                ) by {
                    assert(cmid.pix(x, y) == Surface::spec_rr_pix(
                        cprev,
                        bx as int,
                        by as int,
                        bw as int,
                        bh as int,
                        BTN_RADIUS as int,
                        fill,
                        ui0.colors.button_outline,
                        x,
                        y,
                    ));
                }
            }
            k += 1;
        }
        proof {
            assert(ui0.buttons@.take(n as int) =~= ui0.buttons@);
        }
    }
}

/// Drives the interaction state machine over a whole event stream and maps
/// the terminal answer to the process exit code: the index of the clicked
/// button, or 50 when the window was closed without one. Events after the
/// terminal one are never processed.
pub fn run(ui: &mut Ui, events: &Vec<WindowEvent>) -> (r: Option<i32>)
    requires
        old(ui).wf(),
    ensures
        final(ui).wf(),
        Ui::same_geometry(*final(ui), *old(ui)),
        r == match spec_session(old(ui).buttons@, old(ui).istate(), events@) {
            Some(Answer::Closed) => Some(50i32),
            Some(Answer::Button(i)) => Some(i as i32),
            None => None::<i32>,
        },
{
    proof {
        assert(events@.skip(0) =~= events@);
    }
    let n = events.len();
    let mut k: usize = 0;
    while k < n
        invariant
            ui.wf(),
            Ui::same_geometry(*ui, *old(ui)),
            n == events@.len(),
            k <= n,
            spec_session(old(ui).buttons@, old(ui).istate(), events@) == spec_session(
                ui.buttons@,
                ui.istate(),
                events@.skip(k as int),
            ),
        decreases n - k,
    {
        let ghost pre = *ui;
        let ans = ui.process_event(events[k]);
        proof {
            assert(events@.skip(k as int)[0] == events@[k as int]);
            assert(events@.skip(k as int).drop_first() =~= events@.skip(k as int + 1));
        }
        if let Some(a) = ans {
            match a {
                Answer::Closed => {
                    return Some(50);
                },
                Answer::Button(i) => {
                    proof {
                        lemma_hit_props(pre.buttons@, pre.istate().cursor->0.x,
                            pre.istate().cursor->0.y, 0);
                    }
                    return Some(i as i32);
                },
            }
        }
        k += 1;
    }
    None
}

/// The height of the button row: the tallest button minimum height, where
/// each button's minimum is its text height plus padding on both sides.
pub open spec fn spec_btn_height(ts: Seq<Surface>) -> int
    decreases ts.len(),
{
    if ts.len() == 0 {
        0
    } else {
        let rest = spec_btn_height(ts.drop_last());
        let h = ts.last().height + 2 * BTN_PADDING;
        if h > rest {
            h
        } else {
            rest
        }
    }
}

/// The sum of all button minimum widths, each its text width plus padding
/// on both sides.
pub open spec fn spec_min_width_sum(ts: Seq<Surface>) -> int
    decreases ts.len(),
{
    if ts.len() == 0 {
        0
    } else {
        spec_min_width_sum(ts.drop_last()) + ts.last().width + 2 * BTN_PADDING
    }
}

/// The window width: at least the minimum, wide enough for icon plus
/// message, and wide enough for the button row at its minimum widths.
pub open spec fn spec_win_width(icon: Surface, message: Surface, ts: Seq<Surface>) -> int {
    let base = if MIN_WIDTH >= icon.width + SPACING + message.width + 2 * WINDOW_PADDING {
        MIN_WIDTH as int
    } else {
        icon.width + SPACING + message.width + 2 * WINDOW_PADDING
    };
    let req = spec_min_width_sum(ts) + 2 * WINDOW_PADDING + (ts.len() - 1) * SPACING;
    if base >= req {
        base
    } else {
        req
    }
}

/// The window height: at least the minimum, tall enough for the message
/// above the button row, and tall enough for the icon above the button
/// row.
pub open spec fn spec_win_height(icon: Surface, message: Surface, ts: Seq<Surface>) -> int {
    let bh = spec_btn_height(ts);
    let for_message = message.height + bh + SPACING + 2 * WINDOW_PADDING;
    let for_icon = icon.height + bh + SPACING * 2 + WINDOW_PADDING;
    let m = if for_message >= for_icon {
        for_message
    } else {
        for_icon
    };
    if MIN_HEIGHT >= m {
        MIN_HEIGHT as int
    } else {
        m
    }
}

/// The shared button width: the space left after window padding and
/// inter-button spacing, divided evenly; remainder pixels are absorbed by
/// the last button's trailing gap.
pub open spec fn spec_btn_width(icon: Surface, message: Surface, ts: Seq<Surface>) -> int {
    (spec_win_width(icon, message, ts) - 2 * WINDOW_PADDING - SPACING * (ts.len() - 1)) / (
    ts.len() as int)
}

/// The vertical position of the message: centered in the space above the
/// button row.
pub open spec fn spec_msg_y(icon: Surface, message: Surface, ts: Seq<Surface>) -> int {
    let space_y = spec_win_height(icon, message, ts) - spec_btn_height(ts) - WINDOW_PADDING * 2
        - SPACING;
    (space_y - message.height) / 2 + WINDOW_PADDING
}

impl Ui {
    /// Builds the dialog: computes every component's size and placement
    /// from the rendered surfaces, following the fixed layout rules, and
    /// paints the initial canvas.
    ///
    /// The window is at least `MIN_WIDTH` by `MIN_HEIGHT`, grows to fit
    /// icon plus message and the button row, and every button receives the
    /// same share of the final width. All buttons lie fully inside the
    /// window and do not overlap.
    pub fn new(icon: Surface, theme: Theme, message: Surface, button_texts: Vec<Surface>) -> (ui:
        Ui)
        requires
            icon.wf(),
            icon.width <= ICON_MAX,
            icon.height <= ICON_MAX,
            message.wf(),
            message.width <= MSG_MAX,
            message.height <= MSG_MAX,
            1 <= button_texts@.len() <= BTNS_MAX,
            forall|k: int|
                0 <= k < button_texts@.len() ==> (#[trigger] button_texts@[k]).wf()
                    && button_texts@[k].width <= LABEL_MAX && button_texts@[k].height <= LABEL_MAX,
        ensures
            ui.wf(),
            ui.colors == spec_theme_colors(theme),
            ui.icon == icon,
            ui.message == message,
            ui.icon_x == WINDOW_PADDING,
            ui.icon_y == WINDOW_PADDING,
            ui.msg_x == icon.width + WINDOW_PADDING + SPACING,
            ui.msg_y == spec_msg_y(icon, message, button_texts@),
            ui.canvas.width == spec_win_width(icon, message, button_texts@),
            ui.canvas.height == spec_win_height(icon, message, button_texts@),
            ui.buttons@.len() == button_texts@.len(),
            forall|k: int|
                0 <= k < ui.buttons@.len() ==> {
                    let b = #[trigger] ui.buttons@[k];
                    &&& b.text == button_texts@[k]
                    &&& b.min_w == button_texts@[k].width + 2 * BTN_PADDING
                    &&& b.min_h == button_texts@[k].height + 2 * BTN_PADDING
                    &&& b.w == spec_btn_width(icon, message, button_texts@)
                    &&& b.h == spec_btn_height(button_texts@)
                    &&& b.x == WINDOW_PADDING + k * (spec_btn_width(icon, message, button_texts@)
                        + SPACING)
                    &&& b.y == spec_win_height(icon, message, button_texts@) - WINDOW_PADDING
                        - spec_btn_height(button_texts@)
                },
            ui.istate() == IState::initial(),
            forall|x: int, y: int|
                ui.canvas.in_bounds(x, y) ==> ui.canvas.pix(x, y) == spec_scene_px(ui, x, y),
    {
        let ghost texts0 = button_texts@;
        let colors = theme_colors(theme);

        let msg_x: i64 = icon.width as i64 + WINDOW_PADDING + SPACING;

        // Measure the buttons first: minimum sizes, shared row height, and
        // the width the row needs at minimum.
        let mut buttons: Vec<Button> = Vec::new();
        let mut rest = button_texts;
        let mut btn_height: i64 = 0;
        let mut width_sum: i64 = 0;
        let mut k: usize = 0;
        let n: usize = rest.len();
        while k < n
            invariant
                n == texts0.len(),
                1 <= n <= BTNS_MAX,
                forall|j: int|
                    0 <= j < texts0.len() ==> (#[trigger] texts0[j]).wf() && texts0[j].width
                        <= LABEL_MAX && texts0[j].height <= LABEL_MAX,
                k <= n,
                rest@ =~= texts0.skip(k as int),
                buttons@.len() == k,
                forall|j: int|
                    0 <= j < k ==> {
                        let b = #[trigger] buttons@[j];
                        &&& b.text == texts0[j]
                        &&& b.min_w == texts0[j].width + 2 * BTN_PADDING
                        &&& b.min_h == texts0[j].height + 2 * BTN_PADDING
                        &&& b.w == 0 && b.h == 0 && b.x == 0 && b.y == 0
                    },
                btn_height == spec_btn_height(texts0.take(k as int)),
                width_sum == spec_min_width_sum(texts0.take(k as int)),
                0 <= btn_height <= LABEL_MAX + 2 * BTN_PADDING,
                0 <= width_sum <= k * (LABEL_MAX + 2 * BTN_PADDING as int),
            decreases n - k,
        {
            let t = rest.remove(0);
            proof {
                assert(t == texts0[k as int]);
                assert(rest@ =~= texts0.skip(k as int + 1));
                assert(texts0.take(k as int + 1).drop_last() =~= texts0.take(k as int));
                assert(texts0.take(k as int + 1).last() == texts0[k as int]);
            }
            let min_w: i64 = t.width as i64 + 2 * BTN_PADDING;
            let min_h: i64 = t.height as i64 + 2 * BTN_PADDING;
            if min_h > btn_height {
                btn_height = min_h;
            }
            proof {
                assert((k + 1) * (LABEL_MAX + 2 * BTN_PADDING as int) == k * (LABEL_MAX + 2
                    * BTN_PADDING as int) + (LABEL_MAX + 2 * BTN_PADDING as int))
                    by (nonlinear_arith);
                assert(k * (LABEL_MAX + 2 * BTN_PADDING as int) <= BTNS_MAX * (LABEL_MAX + 2
                    * BTN_PADDING as int)) by (nonlinear_arith)
                    requires
                        0 <= k <= BTNS_MAX,
                ;
            }
            width_sum = width_sum + min_w;
            buttons.push(Button { min_w, min_h, w: 0, h: 0, x: 0, y: 0, text: t });
            k += 1;
        }
        proof {
            assert(texts0.take(n as int) =~= texts0);
            assert(n as int * (LABEL_MAX + 2 * BTN_PADDING as int) <= BTNS_MAX * (LABEL_MAX + 2
                * BTN_PADDING as int)) by (nonlinear_arith)
                requires
                    0 <= n as int <= BTNS_MAX,
            ;
        }

        // Window width: wide enough for icon plus message, and for the
        // button row at its minimum widths.
        let mut win_width: i64 = MIN_WIDTH;
        let icon_msg: i64 = icon.width as i64 + SPACING + message.width as i64 + 2
            * WINDOW_PADDING;
        if icon_msg > win_width {
            win_width = icon_msg;
        }
        let required_width: i64 = width_sum + 2 * WINDOW_PADDING + (n as i64 - 1) * SPACING;
        if required_width > win_width {
            win_width = required_width;
        }

        // Window height: tall enough for the message above the button row,
        // and for the icon above the button row.
        let for_message: i64 = message.height as i64 + btn_height + SPACING + 2 * WINDOW_PADDING;
        let for_icon: i64 = icon.height as i64 + btn_height + SPACING * 2 + WINDOW_PADDING;
        let mut win_height: i64 = MIN_HEIGHT;
        if for_message > win_height {
            win_height = for_message;
        }
        if for_icon > win_height {
            win_height = for_icon;
        }

        // Center the message in the space above the button row.
        let message_space_y: i64 = win_height - btn_height - WINDOW_PADDING * 2 - SPACING;
        let msg_y: i64 = (message_space_y - message.height as i64) / 2 + WINDOW_PADDING;

        // Divide the available width evenly among the buttons.
        let avail: i64 = win_width - WINDOW_PADDING * 2 - SPACING * (n as i64 - 1);
        proof {
            assert(SPACING * (n as int - 1) == (n as int - 1) * SPACING);
            assert(avail >= width_sum >= 0);
        }
        let btn_width: i64 = (avail as usize / n) as i64;
        proof {
            let a = avail as int;
            let d = n as int;
            assert(btn_width as int == a / d);
            vstd::arithmetic::div_mod::lemma_fundamental_div_mod(a, d);
            vstd::arithmetic::div_mod::lemma_mod_bound(a, d);
            assert(d * btn_width as int == a - a % d);
            assert(btn_width >= 0) by (nonlinear_arith)
                requires
                    d * btn_width as int == a - a % d,
                    0 <= a % d < d,
                    a >= 0,
                    d >= 1,
            ;
            assert(d * btn_width <= a);
            assert(btn_width <= d * btn_width) by (nonlinear_arith)
                requires
                    btn_width >= 0,
                    d >= 1,
            ;
            assert(win_width as int == spec_win_width(icon, message, texts0));
            assert(win_height as int == spec_win_height(icon, message, texts0));
            assert(btn_width as int == spec_btn_width(icon, message, texts0));
            assert(n as int * btn_width as int + (n as int - 1) * SPACING <= win_width - 2
                * WINDOW_PADDING);
        }
        let mut x: i64 = WINDOW_PADDING;
        let btn_y: i64 = win_height - WINDOW_PADDING - btn_height;
        let mut j: usize = 0;
        while j < n
            invariant
                n == texts0.len(),
                1 <= n <= BTNS_MAX,
                buttons@.len() == n,
                j <= n,
                0 <= btn_width <= DIM_MAX,
                0 <= btn_height <= DIM_MAX,
                0 <= btn_y <= OFFSET_MAX,
                x == WINDOW_PADDING + j * (btn_width + SPACING),
                n as int * btn_width + (n as int - 1) * SPACING <= win_width - 2 * WINDOW_PADDING,
                win_width <= DIM_MAX,
                forall|i: int|
                    0 <= i < j ==> {
                        let b = #[trigger] buttons@[i];
                        &&& b.w == btn_width
                        &&& b.h == btn_height
                        &&& b.x == WINDOW_PADDING + i * (btn_width + SPACING)
                        &&& b.y == btn_y
                    },
                forall|i: int|
                    j <= i < n ==> {
                        let b = #[trigger] buttons@[i];
                        &&& b.w == 0 && b.h == 0 && b.x == 0 && b.y == 0
                    },
                forall|i: int|
                    0 <= i < n ==> {
                        let b = #[trigger] buttons@[i];
                        &&& b.text == texts0[i]
                        &&& b.min_w == texts0[i].width + 2 * BTN_PADDING
                        &&& b.min_h == texts0[i].height + 2 * BTN_PADDING
                        &&& b.text.wf()
                    },
            decreases n - j,
        {
            proof {
                assert(j as int * (btn_width + SPACING) <= (n as int - 1) * (btn_width + SPACING))
                    by (nonlinear_arith)
                    requires
                        0 <= j as int <= n as int - 1,
                        btn_width + SPACING >= 0,
                ;
                assert((n as int - 1) * (btn_width + SPACING) == (n as int - 1) * btn_width + (
                n as int - 1) * SPACING) by (nonlinear_arith);
                assert((n as int - 1) * btn_width <= n as int * btn_width) by (nonlinear_arith)
                    requires
                        btn_width >= 0,
                        n >= 1,
                ;
            }
            let bref = &mut buttons[j];
            bref.w = btn_width;
            bref.h = btn_height;
            bref.x = x;
            bref.y = btn_y;
            proof {
                assert((j + 1) * (btn_width + SPACING) == j as int * (btn_width + SPACING) + (
                btn_width + SPACING)) by (nonlinear_arith);
            }
            x = x + btn_width + SPACING;
            j += 1;
        }

        let canvas = Surface::new(win_width as usize, win_height as usize);
        let mut ui = Ui {
            colors,
            canvas,
            icon,
            icon_x: WINDOW_PADDING,
            icon_y: WINDOW_PADDING,
            message,
            msg_x,
            msg_y,
            buttons,
            cursor: None,
            mouse_pressed: false,
            mouse_dragging: false,
        };
        proof {
            assert forall|a: int, b: int|
                0 <= a < b < ui.buttons@.len() implies (#[trigger] ui.buttons@[a]).x
                + ui.buttons@[a].w <= (#[trigger] ui.buttons@[b]).x by {
                assert(a * (btn_width + SPACING) + btn_width <= b * (btn_width + SPACING))
                    by (nonlinear_arith)
                    requires
                        0 <= a < b,
                        btn_width >= 0,
                        SPACING > 0,
                ;
            }
            assert forall|i: int|
                0 <= i < ui.buttons@.len() implies (#[trigger] ui.buttons@[i]).x
                + ui.buttons@[i].w <= ui.canvas.width && ui.buttons@[i].y + ui.buttons@[i].h
                <= ui.canvas.height by {
                assert(i * (btn_width + SPACING) + btn_width + (n as int - 1 - i) * (btn_width
                    + SPACING) == n as int * btn_width + (n as int - 1) * SPACING)
                    by (nonlinear_arith);
                assert((n as int - 1 - i) * (btn_width + SPACING) >= 0) by (nonlinear_arith)
                    requires
                        i <= n as int - 1,
                        btn_width + SPACING >= 0,
                ;
            }
            assert(ui.wf());
        }
        let ghost pre = ui;
        ui.redraw();
        proof {
            assert forall|x: int, y: int| ui.canvas.in_bounds(x, y) implies ui.canvas.pix(x, y)
                == spec_scene_px(ui, x, y) by {
                assert(ui.canvas.pix(x, y) == spec_scene_px(pre, x, y));
                assert(spec_base_px(pre, x, y) == spec_base_px(ui, x, y));
                assert(pre.buttons@ == ui.buttons@);
                assert(pre.istate() == ui.istate());
            }
        }
        ui
    }
}

/// Close priority: a close request is terminal at any interaction state,
/// and whatever events follow it are never reached. If every event before
/// index `i` is non-terminal and the event at `i` requests a close, the
/// session answers `Closed`, whatever comes after `i`.
pub proof fn lemma_close_priority(bs: Seq<Button>, s: IState, evs: Seq<WindowEvent>, i: int)
    requires
        0 <= i < evs.len(),
        evs[i] == WindowEvent::CloseRequested,
        spec_session(bs, s, evs.take(i)) is None,
    ensures
        spec_session(bs, s, evs) == Some(Answer::Closed),
    decreases i,
{
    if i == 0 {
        assert(evs[0] == WindowEvent::CloseRequested);
    } else {
        let step = spec_step(bs, s, evs[0]);
        assert(evs.take(i)[0] == evs[0]);
        assert(spec_session(bs, s, evs.take(i)) == if spec_step(bs, s, evs.take(i)[0]).ans
            is Some {
            spec_step(bs, s, evs.take(i)[0]).ans
        } else {
            spec_session(bs, spec_step(bs, s, evs.take(i)[0]).st, evs.take(i).drop_first())
        });
        assert(evs.take(i).drop_first() =~= evs.drop_first().take(i - 1));
        assert(evs.drop_first()[i - 1] == evs[i]);
        lemma_close_priority(bs, step.st, evs.drop_first(), i - 1);
    }
}

/// Click suppression, first half: pressing inside a button, leaving the
/// window, and releasing outside never activates the button. From any
/// unpressed state, the stream enter, press, leave, release produces no
/// answer at all.
pub proof fn lemma_click_suppressed(bs: Seq<Button>, s: IState, p: CursorPos)
    requires
        !s.pressed,
    ensures
        spec_session(
            bs,
            s,
            seq![
                WindowEvent::CursorEnter(p),
                WindowEvent::ButtonPress(MouseButton::Left),
                WindowEvent::CursorLeave,
                WindowEvent::ButtonRelease(MouseButton::Left),
            ],
        ) is None,
{
    let evs = seq![
        WindowEvent::CursorEnter(p),
        WindowEvent::ButtonPress(MouseButton::Left),
        WindowEvent::CursorLeave,
        WindowEvent::ButtonRelease(MouseButton::Left),
    ];
    let t1 = evs.drop_first();
    let t2 = t1.drop_first();
    let t3 = t2.drop_first();
    assert(t1 =~= seq![
        WindowEvent::ButtonPress(MouseButton::Left),
        WindowEvent::CursorLeave,
        WindowEvent::ButtonRelease(MouseButton::Left),
    ]);
    assert(t2 =~= seq![
        WindowEvent::CursorLeave,
        WindowEvent::ButtonRelease(MouseButton::Left),
    ]);
    assert(t3 =~= seq![WindowEvent::ButtonRelease(MouseButton::Left)]);
    let s1 = spec_step(bs, s, evs[0]).st;
    let s2 = spec_step(bs, s1, t1[0]).st;
    let s3 = spec_step(bs, s2, t2[0]).st;
    assert(s3.cursor is None);
    assert(spec_session(bs, s, evs) == spec_session(bs, s1, t1));
    assert(spec_session(bs, s1, t1) == spec_session(bs, s2, t2));
    assert(spec_session(bs, s2, t2) == spec_session(bs, s3, t3));
    assert(spec_step(bs, s3, t3[0]).ans is None);
    assert(spec_session(bs, s3, t3) == spec_session(bs, spec_step(bs, s3, t3[0]).st,
        t3.drop_first()));
    assert(t3.drop_first().len() == 0);
}

/// Click suppression, second half: pressing and releasing inside a button
/// without any intervening motion activates exactly the button under the
/// cursor. From any unpressed state, the stream enter at `p`, press,
/// release answers with the button containing `p`.
pub proof fn lemma_click_registered(bs: Seq<Button>, s: IState, p: CursorPos, i: int)
    requires
        !s.pressed,
        spec_hit(bs, p.x as int, p.y as int) == Some(i),
    ensures
        spec_session(
            bs,
            s,
            seq![
                WindowEvent::CursorEnter(p),
                WindowEvent::ButtonPress(MouseButton::Left),
                WindowEvent::ButtonRelease(MouseButton::Left),
            ],
        ) == Some(Answer::Button(i as usize)),
{
    let evs = seq![
        WindowEvent::CursorEnter(p),
        WindowEvent::ButtonPress(MouseButton::Left),
        WindowEvent::ButtonRelease(MouseButton::Left),
    ];
    let t1 = evs.drop_first();
    let t2 = t1.drop_first();
    assert(t1 =~= seq![
        WindowEvent::ButtonPress(MouseButton::Left),
        WindowEvent::ButtonRelease(MouseButton::Left),
    ]);
    assert(t2 =~= seq![WindowEvent::ButtonRelease(MouseButton::Left)]);
    let s1 = spec_step(bs, s, evs[0]).st;
    let s2 = spec_step(bs, s1, t1[0]).st;
    assert(s1.dragging == false);
    assert(s2.cursor == Some(CPos { x: p.x as int, y: p.y as int }));
    assert(!s2.dragging);
    assert(spec_session(bs, s, evs) == spec_session(bs, s1, t1));
    assert(spec_session(bs, s1, t1) == spec_session(bs, s2, t2));
    assert(spec_step(bs, s2, t2[0]).ans == Some(Answer::Button(i as usize)));
    assert(spec_session(bs, s2, t2) == Some(Answer::Button(i as usize)));
}

/// No two distinct buttons of a well-formed dialog contain the same point.
pub proof fn lemma_buttons_disjoint(ui: Ui, j: int, k: int, px: int, py: int)
    requires
        ui.wf(),
        0 <= j < ui.buttons@.len(),
        0 <= k < ui.buttons@.len(),
        j != k,
    ensures
        !(rect_contains(ui.buttons@[j], px, py) && rect_contains(ui.buttons@[k], px, py)),
{
}

} // verus!
