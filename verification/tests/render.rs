//! Tests for the glyph renderer: measurement, soft wrapping, break
//! opportunities, and raster compositing.

use alerta::color::{Pixel, Rgb};
use alerta::font::{Font, GlyphRaster, PlacedGlyph};
use alerta::message_max_width;

fn test_font() -> Font {
    Font {
        default_advance: 10,
        height: 12,
        line_gap: 3,
        advances: vec![(' ', 5), ('\u{200b}', 0)],
        kerns: vec![('A', 'V', -2)],
    }
}

fn glyph(ch: char, x: i64, y: i64) -> PlacedGlyph {
    PlacedGlyph { ch: ch as u32, x, y }
}

#[test]
fn textwrap() {
    let font = test_font();

    // Plain spaces wrap: the tail after the break opportunity moves to a
    // fresh line starting at x = 0.
    let glyphs = font.render("aa aa").with_max_width(22).layout();
    assert_eq!(
        glyphs,
        vec![
            glyph('a', 0, 0),
            glyph('a', 10, 0),
            glyph('a', 0, 15),
            glyph('a', 10, 15),
        ]
    );

    // A hard line break always starts a new line.
    let glyphs = font.render("a\na").layout();
    assert_eq!(glyphs, vec![glyph('a', 0, 0), glyph('a', 0, 15)]);

    // A carriage return before the newline is invisible.
    let glyphs = font.render("a\r\na").layout();
    assert_eq!(glyphs, vec![glyph('a', 0, 0), glyph('a', 0, 15)]);
}

#[test]
fn nbsp() {
    let font = test_font();

    // Non-breaking spaces are not break opportunities: the same width that
    // makes plain spaces wrap leaves this text on a single line.
    let glyphs = font.render("aa\u{a0}aa").with_max_width(22).layout();
    assert!(glyphs.iter().all(|g| g.y == 0));
    assert_eq!(
        glyphs,
        vec![
            glyph('a', 0, 0),
            glyph('a', 10, 0),
            glyph('\u{a0}', 20, 0),
            glyph('a', 30, 0),
            glyph('a', 40, 0),
        ]
    );
}

#[test]
fn zwsp() {
    let font = test_font();

    // A zero-width space occupies no width: it produces no glyph and, at
    // advance zero, shifts nothing after it.
    let glyphs = font.render("aa\u{200b}aa").layout();
    assert_eq!(
        glyphs,
        vec![
            glyph('a', 0, 0),
            glyph('a', 10, 0),
            glyph('a', 20, 0),
            glyph('a', 30, 0),
        ]
    );

    // Inserting one changes no other glyph's position.
    let without = font.render("abcd").layout();
    let with_zwsp = font.render("ab\u{200b}cd").layout();
    assert_eq!(without, with_zwsp);

    // Yet it is a break opportunity: the same text wraps there when the
    // line overruns the width.
    let glyphs = font.render("aa\u{200b}aa").with_max_width(22).layout();
    assert_eq!(
        glyphs,
        vec![
            glyph('a', 0, 0),
            glyph('a', 10, 0),
            glyph('a', 0, 15),
            glyph('a', 10, 15),
        ]
    );
}

#[test]
fn kerning() {
    let font = test_font();
    let glyphs = font.render("AV").layout();
    assert_eq!(glyphs, vec![glyph('A', 0, 0), glyph('V', 8, 0)]);
}

#[test]
fn long_token_overflows_budget() {
    // A single unbreakable token wider than the message budget overflows
    // it instead of wrapping, and nothing fails.
    let font = test_font();
    let budget = message_max_width(32);
    assert_eq!(budget, 338);
    let text: String = std::iter::repeat('x').take(40).collect();
    let glyphs = font.render(&text).with_max_width(budget).layout();
    assert_eq!(glyphs.len(), 40);
    assert!(glyphs.iter().all(|g| g.y == 0));
    assert_eq!(glyphs[39].x, 390);
    assert!(glyphs[39].x + 10 > budget);
}

#[test]
fn empty_text_zero_area() {
    let font = test_font();
    let renderer = font.render("");
    let glyphs = renderer.layout();
    assert!(glyphs.is_empty());
    let surface = font.render("").finish(&Vec::new());
    assert_eq!(surface.width, 0);
    assert_eq!(surface.height, 0);
    assert!(surface.data.is_empty());
}

#[test]
fn compose_premultiplies_coverage() {
    let font = test_font();
    let raster = GlyphRaster {
        min_x: 2,
        min_y: 3,
        width: 2,
        height: 1,
        coverage: vec![255, 51],
    };
    let surface = font
        .render("x")
        .with_color(Rgb(255, 0, 0))
        .finish(&vec![raster]);
    assert_eq!(surface.width, 2);
    assert_eq!(surface.height, 1);
    assert_eq!(surface.data[0], Pixel { a: 255, r: 255, g: 0, b: 0 });
    assert_eq!(surface.data[1], Pixel { a: 51, r: 51, g: 0, b: 0 });
}

#[test]
fn compose_unions_bounds_and_overwrites() {
    let font = test_font();
    let first = GlyphRaster {
        min_x: 0,
        min_y: 0,
        width: 2,
        height: 1,
        coverage: vec![255, 255],
    };
    let second = GlyphRaster {
        min_x: 1,
        min_y: 0,
        width: 2,
        height: 1,
        coverage: vec![0, 128],
    };
    let surface = font
        .render("xy")
        .with_color(Rgb(0, 255, 0))
        .finish(&vec![first, second]);
    assert_eq!(surface.width, 3);
    assert_eq!(surface.height, 1);
    // The later raster overwrites the overlap, even at zero coverage.
    assert_eq!(surface.data[0], Pixel { a: 255, r: 0, g: 255, b: 0 });
    assert_eq!(surface.data[1], Pixel { a: 0, r: 0, g: 0, b: 0 });
    assert_eq!(surface.data[2], Pixel { a: 128, r: 0, g: 128, b: 0 });
}

#[test]
fn rendering_is_idempotent() {
    let font = test_font();
    let text = "The quick brown fox jumps over the lazy dog, again and again.";
    let a = font.render(text).with_max_width(120).layout();
    let b = font.render(text).with_max_width(120).layout();
    assert_eq!(a, b);

    let raster = || GlyphRaster {
        min_x: 0,
        min_y: 0,
        width: 2,
        height: 2,
        coverage: vec![10, 20, 30, 40],
    };
    let s1 = font.render(text).finish(&vec![raster()]);
    let s2 = font.render(text).finish(&vec![raster()]);
    assert_eq!(s1.width, s2.width);
    assert_eq!(s1.height, s2.height);
    assert_eq!(s1.data, s2.data);
}
