//! Colors and pixels: the RGB palette entries, pre-multiplied-alpha pixels,
//! and the source-over blend rule used by all compositing.

use vstd::prelude::*;

verus! {

/// An opaque RGB color, as used by the theme palettes.
#[derive(Clone, Copy, Debug, PartialEq, Eq, Structural)]
pub struct Rgb(pub u8, pub u8, pub u8);

/// Builds an [`Rgb`] color from its three channels.
pub fn rgb(r: u8, g: u8, b: u8) -> (c: Rgb)
    ensures
        c == (Rgb(r, g, b)),
{
    Rgb(r, g, b)
}

/// One pixel of a surface, in pre-multiplied alpha form: each color channel
/// is already scaled by the alpha channel, so `r`, `g` and `b` never exceed
/// `a`.
#[derive(Clone, Copy, Debug, PartialEq, Eq, Structural)]
pub struct Pixel {
    pub a: u8,
    pub r: u8,
    pub g: u8,
    pub b: u8,
}

impl Pixel {
    /// A pre-multiplied pixel is valid when no color channel exceeds alpha.
    pub open spec fn valid(self) -> bool {
        self.r <= self.a && self.g <= self.a && self.b <= self.a
    }

    /// The fully transparent pixel.
    pub open spec fn spec_transparent() -> Pixel {
        Pixel { a: 0, r: 0, g: 0, b: 0 }
    }

    /// Returns the fully transparent pixel.
    pub fn transparent() -> (p: Pixel)
        ensures
            p == Pixel::spec_transparent(),
    {
        Pixel { a: 0, r: 0, g: 0, b: 0 }
    }

    /// An opaque pixel showing `c` directly.
    pub open spec fn spec_opaque(c: Rgb) -> Pixel {
        Pixel { a: 255, r: c.0, g: c.1, b: c.2 }
    }

    /// Returns the opaque pixel for `c`.
    pub fn opaque(c: Rgb) -> (p: Pixel)
        ensures
            p == Pixel::spec_opaque(c),
            p.valid(),
    {
        Pixel { a: 255, r: c.0, g: c.1, b: c.2 }
    }
}

/// One channel of `color` scaled to coverage `a`, rounding down.
pub open spec fn spec_premul_chan(c: int, a: int) -> int {
    c * a / 255
}

/// `color` at coverage `a`, as a pre-multiplied pixel: every channel is
/// scaled by `a / 255`.
pub open spec fn spec_premultiply(c: Rgb, a: u8) -> Pixel {
    Pixel {
        a: a,
        r: spec_premul_chan(c.0 as int, a as int) as u8,
        g: spec_premul_chan(c.1 as int, a as int) as u8,
        b: spec_premul_chan(c.2 as int, a as int) as u8,
    }
}

/// Scales one channel by the coverage, with proof that the result stays
/// below the coverage itself.
fn premul_chan(c: u8, a: u8) -> (r: u8)
    ensures
        r == spec_premul_chan(c as int, a as int),
        r <= a,
{
    proof {
        assert(c as int * a as int <= 255 * a as int) by (nonlinear_arith)
            requires
                c <= 255,
                a >= 0,
        ;
        assert(255 * a as int / 255 == a as int) by (nonlinear_arith);
        assert(c as int * a as int / 255 <= 255 * a as int / 255) by {
            vstd::arithmetic::div_mod::lemma_div_is_ordered(
                c as int * a as int,
                255 * a as int,
                255,
            );
        }
        assert(c as int * a as int / 255 >= 0) by (nonlinear_arith)
            requires
                c >= 0,
                a >= 0,
        ;
    }
    let wide: u32 = c as u32 * a as u32 / 255;
    wide as u8
}

/// Produces the pre-multiplied pixel for `color` at coverage `a`.
pub fn premultiply(c: Rgb, a: u8) -> (p: Pixel)
    ensures
        p == spec_premultiply(c, a),
        p.valid(),
{
    Pixel { a: a, r: premul_chan(c.0, a), g: premul_chan(c.1, a), b: premul_chan(c.2, a) }
}

/// One channel of the source-over blend rule for pre-multiplied pixels:
/// the source channel plus the destination channel scaled by the remaining
/// alpha.
pub open spec fn spec_blend_chan(s: int, d: int, sa: int) -> int {
    s + d * (255 - sa) / 255
}

/// Source-over blending of pre-multiplied pixels: `s` painted over `d`.
pub open spec fn spec_blend(s: Pixel, d: Pixel) -> Pixel {
    Pixel {
        a: spec_blend_chan(s.a as int, d.a as int, s.a as int) as u8,
        r: spec_blend_chan(s.r as int, d.r as int, s.a as int) as u8,
        g: spec_blend_chan(s.g as int, d.g as int, s.a as int) as u8,
        b: spec_blend_chan(s.b as int, d.b as int, s.a as int) as u8,
    }
}

/// The blended channel stays in range and below the blended alpha whenever
/// the inputs are valid pre-multiplied pixels.
proof fn lemma_blend_chan_bounds(s: int, d: int, sa: int, da: int)
    requires
        0 <= s <= sa <= 255,
        0 <= d <= da <= 255,
    ensures
        0 <= spec_blend_chan(s, d, sa) <= spec_blend_chan(sa, da, sa) <= 255,
{
    assert(d * (255 - sa) <= da * (255 - sa)) by (nonlinear_arith)
        requires
            d <= da,
            sa <= 255,
    ;
    assert(da * (255 - sa) <= 255 * (255 - sa)) by (nonlinear_arith)
        requires
            da <= 255,
            sa <= 255,
    ;
    vstd::arithmetic::div_mod::lemma_div_is_ordered(d * (255 - sa), da * (255 - sa), 255);
    vstd::arithmetic::div_mod::lemma_div_is_ordered(da * (255 - sa), 255 * (255 - sa), 255);
    assert(255 * (255 - sa) / 255 == 255 - sa) by (nonlinear_arith);
    assert(d * (255 - sa) >= 0) by (nonlinear_arith)
        requires
            d >= 0,
            sa <= 255,
    ;
    vstd::arithmetic::div_mod::lemma_div_is_ordered(0, d * (255 - sa), 255);
}

/// Blends pre-multiplied pixel `s` over `d` with the source-over rule.
pub fn blend(s: Pixel, d: Pixel) -> (p: Pixel)
    requires
        s.valid(),
        d.valid(),
    ensures
        p == spec_blend(s, d),
        p.valid(),
{
    proof {
        lemma_blend_chan_bounds(s.a as int, d.a as int, s.a as int, d.a as int);
        lemma_blend_chan_bounds(s.r as int, d.r as int, s.a as int, d.a as int);
        lemma_blend_chan_bounds(s.g as int, d.g as int, s.a as int, d.a as int);
        lemma_blend_chan_bounds(s.b as int, d.b as int, s.a as int, d.a as int);
    }
    let rem: u32 = 255 - s.a as u32;
    Pixel {
        a: (s.a as u32 + d.a as u32 * rem / 255) as u8,
        r: (s.r as u32 + d.r as u32 * rem / 255) as u8,
        g: (s.g as u32 + d.g as u32 * rem / 255) as u8,
        b: (s.b as u32 + d.b as u32 * rem / 255) as u8,
    }
}

/// The fixed palette of one theme: window background, text, and the four
/// button-state colors.
#[derive(Clone, Copy, Debug, PartialEq, Eq, Structural)]
pub struct Colors {
    pub window_bg: Rgb,
    pub text: Rgb,
    pub button: Rgb,
    pub button_hover: Rgb,
    pub button_pressed: Rgb,
    pub button_outline: Rgb,
}

/// The light palette.
pub open spec fn spec_theme_light() -> Colors {
    Colors {
        window_bg: Rgb(230, 230, 230),
        text: Rgb(0, 0, 0),
        button: Rgb(210, 210, 210),
        button_hover: Rgb(180, 180, 180),
        button_pressed: Rgb(150, 150, 150),
        button_outline: Rgb(40, 40, 40),
    }
}

/// The dark palette.
pub open spec fn spec_theme_dark() -> Colors {
    Colors {
        window_bg: Rgb(30, 30, 30),
        text: Rgb(255, 255, 255),
        button: Rgb(90, 90, 90),
        button_hover: Rgb(110, 110, 110),
        button_pressed: Rgb(160, 160, 160),
        button_outline: Rgb(200, 200, 200),
    }
}

/// The palette selected by `theme`.
pub open spec fn spec_theme_colors(theme: crate::Theme) -> Colors {
    match theme {
        crate::Theme::Light => spec_theme_light(),
        crate::Theme::Dark => spec_theme_dark(),
    }
}

/// Returns the palette for `theme`.
pub fn theme_colors(theme: crate::Theme) -> (c: Colors)
    ensures
        c == spec_theme_colors(theme),
{
    match theme {
        crate::Theme::Light => Colors {
            window_bg: rgb(230, 230, 230),
            text: rgb(0, 0, 0),
            button: rgb(210, 210, 210),
            button_hover: rgb(180, 180, 180),
            button_pressed: rgb(150, 150, 150),
            button_outline: rgb(40, 40, 40),
        },
        crate::Theme::Dark => Colors {
            window_bg: rgb(30, 30, 30),
            text: rgb(255, 255, 255),
            button: rgb(90, 90, 90),
            button_hover: rgb(110, 110, 110),
            button_pressed: rgb(160, 160, 160),
            button_outline: rgb(200, 200, 200),
        },
    }
}

} // verus!
