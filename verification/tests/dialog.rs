//! Tests for the dialog: layout geometry, scene composition, the
//! interaction state machine, and event normalization.

use alerta::color::{rgb, Pixel};
use alerta::event::{
    cvt_event, mouse_button, CursorPos, MouseButton, RawEvent, WindowEvent, KEYCODE_ESC,
    MASK_CONTROL, MASK_SHIFT,
};
use alerta::surface::Surface;
use alerta::ui::{run, Ui};
use alerta::{Answer, ButtonPreset, Icon, Theme};
use alerta::error::{err, Error};

fn blank(w: usize, h: usize) -> Surface {
    Surface::new(w, h)
}

fn labels(count: usize) -> Vec<Surface> {
    (0..count).map(|_| blank(30, 10)).collect()
}

fn dialog(count: usize, theme: Theme) -> Ui {
    Ui::new(blank(32, 32), theme, blank(200, 50), labels(count))
}

#[test]
fn buttons() {
    // Three buttons split the minimum window width evenly.
    let ui = dialog(3, Theme::Light);
    assert_eq!(ui.canvas.width, 400);
    assert_eq!(ui.canvas.height, 114);
    assert_eq!(ui.buttons.len(), 3);
    for (k, b) in ui.buttons.iter().enumerate() {
        assert_eq!(b.w, 120);
        assert_eq!(b.h, 34);
        assert_eq!(b.x, 10 + k as i64 * 130);
        assert_eq!(b.y, 114 - 10 - 34);
        // Containment: fully inside the window.
        assert!(b.x >= 0 && b.y >= 0);
        assert!(b.x + b.w <= ui.canvas.width as i64);
        assert!(b.y + b.h <= ui.canvas.height as i64);
    }
    // No two buttons overlap.
    assert!(ui.buttons[0].x + ui.buttons[0].w <= ui.buttons[1].x);
    assert!(ui.buttons[1].x + ui.buttons[1].w <= ui.buttons[2].x);

    // Two buttons get a wider share.
    let ui = dialog(2, Theme::Light);
    assert_eq!(ui.buttons[0].w, 185);
    assert_eq!(ui.buttons[1].x, 10 + 185 + 10);

    // Wide labels push the window beyond its minimum width.
    let wide: Vec<Surface> = (0..3).map(|_| blank(200, 10)).collect();
    let ui = Ui::new(blank(32, 32), Theme::Light, blank(200, 50), wide);
    // Row needs 3 * (200 + 24) + 2 * 10 spacing + 2 * 10 padding.
    assert_eq!(ui.canvas.width, 3 * 224 + 20 + 20);
}

#[test]
fn dark_theme() {
    let ui = dialog(2, Theme::Dark);
    // A corner pixel shows the dark window background.
    assert_eq!(ui.canvas.data[0], Pixel { a: 255, r: 30, g: 30, b: 30 });
    // A pixel well inside the first button shows the dark default fill.
    let b = &ui.buttons[0];
    let x = (b.x + b.w / 2) as usize;
    let y = (b.y + b.h / 2) as usize;
    assert_eq!(
        ui.canvas.data[y * ui.canvas.width + x],
        Pixel { a: 255, r: 90, g: 90, b: 90 }
    );

    let light = dialog(2, Theme::Light);
    assert_eq!(light.canvas.data[0], Pixel { a: 255, r: 230, g: 230, b: 230 });
}

#[test]
fn icons() {
    // The icon surface is composited at the fixed padding offset.
    let mut icon = blank(32, 32);
    icon.clear(rgb(200, 10, 10));
    let ui = Ui::new(icon, Theme::Light, blank(200, 50), labels(1));
    assert_eq!(ui.icon_x, 10);
    assert_eq!(ui.icon_y, 10);
    let w = ui.canvas.width;
    assert_eq!(ui.canvas.data[15 * w + 15], Pixel { a: 255, r: 200, g: 10, b: 10 });
    // Outside the icon the background shows through.
    assert_eq!(ui.canvas.data[0], Pixel { a: 255, r: 230, g: 230, b: 230 });
    // The icon selector names the four built-in icons.
    let all = [Icon::Info, Icon::Warning, Icon::Error, Icon::Question];
    assert_eq!(all.len(), 4);
}

#[test]
fn hover_and_press_change_fill() {
    let mut ui = dialog(1, Theme::Light);
    let b_x = ui.buttons[0].x;
    let b_y = ui.buttons[0].y;
    let mid = CursorPos { x: (b_x + 60) as i16, y: (b_y + 17) as i16 };
    let px = (b_x + 60) as usize;
    let py = (b_y + 17) as usize;
    let w = ui.canvas.width;

    assert_eq!(ui.canvas.data[py * w + px], Pixel { a: 255, r: 210, g: 210, b: 210 });

    assert_eq!(ui.process_event(WindowEvent::CursorEnter(mid)), None);
    ui.redraw();
    assert_eq!(ui.canvas.data[py * w + px], Pixel { a: 255, r: 180, g: 180, b: 180 });

    assert_eq!(ui.process_event(WindowEvent::ButtonPress(MouseButton::Left)), None);
    ui.redraw();
    assert_eq!(ui.canvas.data[py * w + px], Pixel { a: 255, r: 150, g: 150, b: 150 });
}

#[test]
fn repaint_is_idempotent() {
    let mut ui = dialog(2, Theme::Light);
    let before = ui.canvas.data.clone();
    ui.redraw();
    assert_eq!(ui.canvas.data, before);
}

#[test]
fn click_second_button() {
    // Clicking the horizontal midpoint of the second of three buttons with
    // no prior movement answers with index 1.
    let mut ui = dialog(3, Theme::Light);
    let (bx, by, bw, bh) = {
        let b = &ui.buttons[1];
        (b.x, b.y, b.w, b.h)
    };
    let mid = CursorPos { x: (bx + bw / 2) as i16, y: (by + bh / 2) as i16 };
    let events = vec![
        WindowEvent::CursorEnter(mid),
        WindowEvent::ButtonPress(MouseButton::Left),
        WindowEvent::ButtonRelease(MouseButton::Left),
    ];
    assert_eq!(run(&mut ui, &events), Some(1));
}

#[test]
fn click_suppression() {
    // Pressing inside button 0, leaving the window, and releasing outside
    // must not answer.
    let mut ui = dialog(3, Theme::Light);
    let (bx, by) = (ui.buttons[0].x, ui.buttons[0].y);
    let inside = CursorPos { x: (bx + 5) as i16, y: (by + 5) as i16 };
    let events = vec![
        WindowEvent::CursorEnter(inside),
        WindowEvent::ButtonPress(MouseButton::Left),
        WindowEvent::CursorLeave,
        WindowEvent::ButtonRelease(MouseButton::Left),
    ];
    assert_eq!(run(&mut ui, &events), None);

    // Dragging away and back also suppresses the click.
    let mut ui = dialog(3, Theme::Light);
    let (bx, by) = (ui.buttons[0].x, ui.buttons[0].y);
    let inside = CursorPos { x: (bx + 5) as i16, y: (by + 5) as i16 };
    let events = vec![
        WindowEvent::CursorEnter(inside),
        WindowEvent::ButtonPress(MouseButton::Left),
        WindowEvent::CursorMove(inside),
        WindowEvent::ButtonRelease(MouseButton::Left),
    ];
    assert_eq!(run(&mut ui, &events), None);

    // A press and release with no intervening movement answers.
    let mut ui = dialog(3, Theme::Light);
    let (bx, by) = (ui.buttons[0].x, ui.buttons[0].y);
    let inside = CursorPos { x: (bx + 5) as i16, y: (by + 5) as i16 };
    let events = vec![
        WindowEvent::CursorEnter(inside),
        WindowEvent::ButtonPress(MouseButton::Left),
        WindowEvent::ButtonRelease(MouseButton::Left),
    ];
    assert_eq!(run(&mut ui, &events), Some(0));
}

#[test]
fn close_wins_at_any_state() {
    // A close request answers immediately, and nothing after it is
    // processed.
    let mut ui = dialog(3, Theme::Light);
    let (bx, by) = (ui.buttons[0].x, ui.buttons[0].y);
    let inside = CursorPos { x: (bx + 5) as i16, y: (by + 5) as i16 };
    let events = vec![
        WindowEvent::CursorEnter(inside),
        WindowEvent::ButtonPress(MouseButton::Left),
        WindowEvent::CloseRequested,
        WindowEvent::ButtonRelease(MouseButton::Left),
    ];
    assert_eq!(run(&mut ui, &events), Some(50));

    let mut ui = dialog(1, Theme::Dark);
    assert_eq!(
        ui.process_event(WindowEvent::CloseRequested),
        Some(Answer::Closed)
    );
}

#[test]
fn release_outside_buttons() {
    // Releasing over empty window space answers nothing and clears the
    // pressed state.
    let mut ui = dialog(1, Theme::Light);
    let events = vec![
        WindowEvent::CursorEnter(CursorPos { x: 1, y: 1 }),
        WindowEvent::ButtonPress(MouseButton::Left),
        WindowEvent::ButtonRelease(MouseButton::Left),
    ];
    assert_eq!(run(&mut ui, &events), None);
    assert!(!ui.mouse_pressed);
    assert!(!ui.mouse_dragging);

    // Other mouse buttons change nothing.
    let mut ui = dialog(1, Theme::Light);
    assert_eq!(ui.process_event(WindowEvent::ButtonPress(MouseButton::Middle)), None);
    assert!(!ui.mouse_pressed);
}

#[test]
fn event_normalization() {
    let delete_atom = 77;
    assert_eq!(
        cvt_event(RawEvent::ClientMessage { first_word: 77 }, delete_atom),
        Some(WindowEvent::CloseRequested)
    );
    assert_eq!(cvt_event(RawEvent::ClientMessage { first_word: 5 }, delete_atom), None);

    // Escape without modifiers closes; with a modifier it is ignored.
    assert_eq!(
        cvt_event(
            RawEvent::KeyPress { same_window: true, keycode: KEYCODE_ESC, modifiers: 0 },
            delete_atom
        ),
        Some(WindowEvent::CloseRequested)
    );
    assert_eq!(
        cvt_event(
            RawEvent::KeyPress {
                same_window: true,
                keycode: KEYCODE_ESC,
                modifiers: MASK_CONTROL,
            },
            delete_atom
        ),
        None
    );
    assert_eq!(
        cvt_event(
            RawEvent::KeyPress { same_window: true, keycode: 38, modifiers: MASK_SHIFT },
            delete_atom
        ),
        None
    );
    assert_eq!(
        cvt_event(
            RawEvent::KeyPress { same_window: false, keycode: KEYCODE_ESC, modifiers: 0 },
            delete_atom
        ),
        None
    );

    assert_eq!(
        cvt_event(RawEvent::Expose { count: 0 }, delete_atom),
        Some(WindowEvent::RedrawRequested)
    );
    assert_eq!(cvt_event(RawEvent::Expose { count: 2 }, delete_atom), None);

    assert_eq!(
        cvt_event(RawEvent::EnterNotify { x: 3, y: 4 }, delete_atom),
        Some(WindowEvent::CursorEnter(CursorPos { x: 3, y: 4 }))
    );
    assert_eq!(
        cvt_event(RawEvent::MotionNotify { x: 5, y: 6 }, delete_atom),
        Some(WindowEvent::CursorMove(CursorPos { x: 5, y: 6 }))
    );
    assert_eq!(
        cvt_event(RawEvent::LeaveNotify, delete_atom),
        Some(WindowEvent::CursorLeave)
    );

    assert_eq!(mouse_button(1), Some(MouseButton::Left));
    assert_eq!(mouse_button(2), Some(MouseButton::Middle));
    assert_eq!(mouse_button(3), Some(MouseButton::Right));
    assert_eq!(mouse_button(4), None);
    assert_eq!(
        cvt_event(RawEvent::ButtonPress { detail: 1 }, delete_atom),
        Some(WindowEvent::ButtonPress(MouseButton::Left))
    );
    assert_eq!(cvt_event(RawEvent::ButtonRelease { detail: 9 }, delete_atom), None);
    assert_eq!(cvt_event(RawEvent::Other, delete_atom), None);
}

#[test]
fn presets_and_errors() {
    assert_eq!(ButtonPreset::Close.strings(), vec!["Close"]);
    assert_eq!(ButtonPreset::Okay.strings(), vec!["OK"]);
    assert_eq!(ButtonPreset::OkayCancel.strings(), vec!["OK", "Cancel"]);
    assert_eq!(ButtonPreset::RetryCancel.strings(), vec!["Retry", "Cancel"]);
    assert_eq!(ButtonPreset::YesNo.strings(), vec!["Yes", "No"]);
    assert_eq!(ButtonPreset::YesNoCancel.strings(), vec!["Yes", "No", "Cancel"]);

    let e = Error::new(String::from("could not find a compatible visual"));
    assert_eq!(e.message().as_str(), "could not find a compatible visual");
    let e = err(String::from("connection refused"));
    assert_eq!(e.message().as_str(), "connection refused");
    assert_eq!(Theme::Light, Theme::Light);
}
