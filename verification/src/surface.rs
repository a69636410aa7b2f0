//! An owned rectangular buffer of pre-multiplied-alpha pixels, with the
//! compositing operations used by the renderer and the scene composer:
//! clearing, painting one surface over another, overwriting a region from a
//! coverage mask, and painting a filled and outlined rounded rectangle.

use vstd::prelude::*;

use crate::color::{blend, premultiply, spec_blend, spec_premultiply, Pixel, Rgb};

verus! {

/// The largest width or height a surface may have.
pub const DIM_MAX: usize = 16384;

/// The largest magnitude of a placement offset.
pub const OFFSET_MAX: i64 = 0x4000_0000;

/// A rectangular pixel buffer in row-major order. Immutable once finished;
/// composited read-only into other surfaces.
pub struct Surface {
    pub width: usize,
    pub height: usize,
    pub data: Vec<Pixel>,
}

impl Surface {
    /// Well-formedness: the buffer holds exactly one valid pre-multiplied
    /// pixel per coordinate, and the dimensions are small enough that all
    /// index arithmetic stays in range.
    pub open spec fn wf(self) -> bool {
        &&& self.data@.len() == self.width * self.height
        &&& self.width <= DIM_MAX
        &&& self.height <= DIM_MAX
        &&& forall|j: int| 0 <= j < self.data@.len() ==> (#[trigger] self.data@[j]).valid()
    }

    /// The pixel at column `x` of row `y`.
    pub open spec fn pix(self, x: int, y: int) -> Pixel {
        self.data@[y * self.width + x]
    }

    /// Whether `(x, y)` lies within this surface.
    pub open spec fn in_bounds(self, x: int, y: int) -> bool {
        0 <= x < self.width && 0 <= y < self.height
    }

    /// Allocates a fully transparent surface of the given size.
    pub fn new(width: usize, height: usize) -> (s: Surface)
        requires
            width <= DIM_MAX,
            height <= DIM_MAX,
        ensures
            s.wf(),
            s.width == width,
            s.height == height,
            forall|x: int, y: int| s.in_bounds(x, y) ==> s.pix(x, y) == Pixel::spec_transparent(),
    {
        proof {
            lemma_area_small(width as int, height as int);
        }
        let total: usize = width * height;
        let mut data: Vec<Pixel> = Vec::new();
        let mut j: usize = 0;
        while j < total
            invariant
                j <= total,
                total == width * height,
                width <= DIM_MAX,
                height <= DIM_MAX,
                data@.len() == j,
                forall|k: int| 0 <= k < j ==> data@[k] == Pixel::spec_transparent(),
            decreases total - j,
        {
            data.push(Pixel::transparent());
            j += 1;
        }
        let s = Surface { width, height, data };
        proof {
            assert forall|x: int, y: int| s.in_bounds(x, y) implies s.pix(x, y)
                == Pixel::spec_transparent() by {
                lemma_row_major_index_in_range(width as int, height as int, x, y);
            }
        }
        s
    }

    /// Repaints every pixel with `c`, fully opaque.
    pub fn clear(&mut self, c: Rgb)
        requires
            old(self).wf(),
        ensures
            final(self).wf(),
            final(self).width == old(self).width,
            final(self).height == old(self).height,
            forall|x: int, y: int|
                final(self).in_bounds(x, y) ==> final(self).pix(x, y) == Pixel::spec_opaque(c),
    {
        proof {
            lemma_area_small(self.width as int, self.height as int);
        }
        let total: usize = self.width * self.height;
        let mut out: Vec<Pixel> = Vec::new();
        let mut j: usize = 0;
        while j < total
            invariant
                j <= total,
                out@.len() == j,
                forall|k: int| 0 <= k < j ==> out@[k] == Pixel::spec_opaque(c),
            decreases total - j,
        {
            out.push(Pixel::opaque(c));
            j += 1;
        }
        self.data = out;
        proof {
            assert forall|x: int, y: int| final(self).in_bounds(x, y) implies final(self).pix(
                x,
                y,
            ) == Pixel::spec_opaque(c) by {
                lemma_row_major_index_in_range(
                    final(self).width as int,
                    final(self).height as int,
                    x,
                    y,
                );
            }
        }
    }

    /// What a pixel of `dst` shows after `src` has been painted over it with
    /// its top-left corner at `(px, py)`: source-over blending inside the
    /// painted region, the old pixel elsewhere.
    pub open spec fn spec_place_pix(
        dst: Surface,
        src: Surface,
        px: int,
        py: int,
        x: int,
        y: int,
    ) -> Pixel {
        if px <= x < px + src.width && py <= y < py + src.height {
            spec_blend(src.pix(x - px, y - py), dst.pix(x, y))
        } else {
            dst.pix(x, y)
        }
    }

    /// Paints all of `src` over this surface at `(px, py)` with source-over
    /// blending; parts that fall outside are clipped away.
    pub fn place_surface(&mut self, src: &Surface, px: i64, py: i64)
        requires
            old(self).wf(),
            src.wf(),
            -OFFSET_MAX <= px <= OFFSET_MAX,
            -OFFSET_MAX <= py <= OFFSET_MAX,
        ensures
            final(self).wf(),
            final(self).width == old(self).width,
            final(self).height == old(self).height,
            forall|x: int, y: int|
                final(self).in_bounds(x, y) ==> final(self).pix(x, y) == Surface::spec_place_pix(
                    *old(self),
                    *src,
                    px as int,
                    py as int,
                    x,
                    y,
                ),
    {
        let ghost dst0 = *self;
        let w: usize = self.width;
        let mut out: Vec<Pixel> = Vec::new();
        let mut y: usize = 0;
        while y < self.height
            invariant
                *self == dst0,
                dst0.wf(),
                src.wf(),
                -OFFSET_MAX <= px <= OFFSET_MAX,
                -OFFSET_MAX <= py <= OFFSET_MAX,
                w == dst0.width,
                y <= dst0.height,
                out@.len() == y * w,
                forall|k: int| 0 <= k < out@.len() ==> (#[trigger] out@[k]).valid(),
                forall|xx: int, yy: int|
                    0 <= xx < w && 0 <= yy < y ==> out@[yy * w + xx] == Surface::spec_place_pix(
                        dst0,
                        *src,
                        px as int,
                        py as int,
                        xx,
                        yy,
                    ),
            decreases dst0.height - y,
        {
            let mut x: usize = 0;
            while x < w
                invariant
                    *self == dst0,
                    dst0.wf(),
                    src.wf(),
                    -OFFSET_MAX <= px <= OFFSET_MAX,
                    -OFFSET_MAX <= py <= OFFSET_MAX,
                    w == dst0.width,
                    y < dst0.height,
                    x <= w,
                    out@.len() == y * w + x,
                    forall|k: int| 0 <= k < out@.len() ==> (#[trigger] out@[k]).valid(),
                    forall|xx: int, yy: int|
                        0 <= xx < w && 0 <= yy < y ==> out@[yy * w + xx] == Surface::spec_place_pix(
                            dst0,
                            *src,
                            px as int,
                            py as int,
                            xx,
                            yy,
                        ),
                    forall|xx: int|
                        0 <= xx < x ==> out@[y * w + xx] == Surface::spec_place_pix(
                            dst0,
                            *src,
                            px as int,
                            py as int,
                            xx,
                            y as int,
                        ),
                decreases w - x,
            {
                proof {
                    lemma_area_small(dst0.width as int, dst0.height as int);
                    lemma_row_major_index_in_range(
                        dst0.width as int,
                        dst0.height as int,
                        x as int,
                        y as int,
                    );
                }
                let under: Pixel = self.data[y * w + x];
                let sx: i64 = x as i64 - px;
                let sy: i64 = y as i64 - py;
                let p: Pixel;
                if 0 <= sx && sx < src.width as i64 && 0 <= sy && sy < src.height as i64 {
                    proof {
                        lemma_area_small(src.width as int, src.height as int);
                        lemma_row_major_index_in_range(
                            src.width as int,
                            src.height as int,
                            sx as int,
                            sy as int,
                        );
                    }
                    let over: Pixel = src.data[(sy as usize) * src.width + (sx as usize)];
                    p = blend(over, under);
                } else {
                    p = under;
                }
                out.push(p);
                proof {
                    assert forall|xx: int, yy: int|
                        0 <= xx < w && 0 <= yy < y implies out@[yy * w + xx]
                        == Surface::spec_place_pix(dst0, *src, px as int, py as int, xx, yy) by {
                        lemma_row_major_below_row(w as int, xx, yy, y as int);
                    }
                }
                x += 1;
            }
            proof {
                assert((y + 1) * w == y * w + w) by (nonlinear_arith);
            }
            y += 1;
        }
        self.data = out;
        proof {
            assert(dst0.height * w == w * dst0.height) by (nonlinear_arith);
            assert forall|x: int, y: int| final(self).in_bounds(x, y) implies final(self).pix(
                x,
                y,
            ) == Surface::spec_place_pix(dst0, *src, px as int, py as int, x, y) by {
                lemma_row_major_index_in_range(dst0.width as int, dst0.height as int, x, y);
            }
        }
    }
    /// What a pixel shows after a coverage mask of size `mw` by `mh` has
    /// been stamped at `(ox, oy)`: inside the stamped region the pixel is
    /// overwritten with `color` pre-multiplied by the mask's coverage; the
    /// old pixel survives elsewhere.
    pub open spec fn spec_stamp_pix(
        dst: Surface,
        cov: Seq<u8>,
        mw: int,
        mh: int,
        ox: int,
        oy: int,
        color: Rgb,
        x: int,
        y: int,
    ) -> Pixel {
        if ox <= x < ox + mw && oy <= y < oy + mh {
            spec_premultiply(color, cov[(y - oy) * mw + (x - ox)])
        } else {
            dst.pix(x, y)
        }
    }

    /// Stamps a glyph coverage mask: every pixel under the mask is
    /// overwritten with `color` at the mask's coverage, clipped to this
    /// surface.
    pub fn stamp_mask(&mut self, cov: &Vec<u8>, mw: usize, mh: usize, ox: i64, oy: i64, color: Rgb)
        requires
            old(self).wf(),
            cov@.len() == mw * mh,
            mw <= DIM_MAX,
            mh <= DIM_MAX,
            -OFFSET_MAX <= ox <= OFFSET_MAX,
            -OFFSET_MAX <= oy <= OFFSET_MAX,
        ensures
            final(self).wf(),
            final(self).width == old(self).width,
            final(self).height == old(self).height,
            forall|x: int, y: int|
                final(self).in_bounds(x, y) ==> final(self).pix(x, y) == Surface::spec_stamp_pix(
                    *old(self),
                    cov@,
                    mw as int,
                    mh as int,
                    ox as int,
                    oy as int,
                    color,
                    x,
                    y,
                ),
    {
        let ghost dst0 = *self;
        let w: usize = self.width;
        let mut out: Vec<Pixel> = Vec::new();
        let mut y: usize = 0;
        while y < self.height
            invariant
                *self == dst0,
                dst0.wf(),
                cov@.len() == mw * mh,
                mw <= DIM_MAX,
                mh <= DIM_MAX,
                -OFFSET_MAX <= ox <= OFFSET_MAX,
                -OFFSET_MAX <= oy <= OFFSET_MAX,
                w == dst0.width,
                y <= dst0.height,
                out@.len() == y * w,
                forall|k: int| 0 <= k < out@.len() ==> (#[trigger] out@[k]).valid(),
                forall|xx: int, yy: int|
                    0 <= xx < w && 0 <= yy < y ==> out@[yy * w + xx] == Surface::spec_stamp_pix(
                        dst0,
                        cov@,
                        mw as int,
                        mh as int,
                        ox as int,
                        oy as int,
                        color,
                        xx,
                        yy,
                    ),
            decreases dst0.height - y,
        {
            let mut x: usize = 0;
            while x < w
                invariant
                    *self == dst0,
                    dst0.wf(),
                    cov@.len() == mw * mh,
                    mw <= DIM_MAX,
                    mh <= DIM_MAX,
                    -OFFSET_MAX <= ox <= OFFSET_MAX,
                    -OFFSET_MAX <= oy <= OFFSET_MAX,
                    w == dst0.width,
                    y < dst0.height,
                    x <= w,
                    out@.len() == y * w + x,
                    forall|k: int| 0 <= k < out@.len() ==> (#[trigger] out@[k]).valid(),
                    forall|xx: int, yy: int|
                        0 <= xx < w && 0 <= yy < y ==> out@[yy * w + xx] == Surface::spec_stamp_pix(
                            dst0,
                            cov@,
                            mw as int,
                            mh as int,
                            ox as int,
                            oy as int,
                            color,
                            xx,
                            yy,
                        ),
                    forall|xx: int|
                        0 <= xx < x ==> out@[y * w + xx] == Surface::spec_stamp_pix(
                            dst0,
                            cov@,
                            mw as int,
                            mh as int,
                            ox as int,
                            oy as int,
                            color,
                            xx,
                            y as int,
                        ),
                decreases w - x,
            {
                proof {
                    lemma_area_small(dst0.width as int, dst0.height as int);
                    lemma_row_major_index_in_range(
                        dst0.width as int,
                        dst0.height as int,
                        x as int,
                        y as int,
                    );
                }
                let under: Pixel = self.data[y * w + x];
                let sx: i64 = x as i64 - ox;
                let sy: i64 = y as i64 - oy;
                let p: Pixel;
                if 0 <= sx && sx < mw as i64 && 0 <= sy && sy < mh as i64 {
                    proof {
                        lemma_area_small(mw as int, mh as int);
                        lemma_row_major_index_in_range(mw as int, mh as int, sx as int, sy as int);
                    }
                    let c: u8 = cov[(sy as usize) * mw + (sx as usize)];
                    p = premultiply(color, c);
                } else {
                    p = under;
                }
                out.push(p);
                proof {
                    assert forall|xx: int, yy: int|
                        0 <= xx < w && 0 <= yy < y implies out@[yy * w + xx]
                        == Surface::spec_stamp_pix(
                        dst0,
                        cov@,
                        mw as int,
                        mh as int,
                        ox as int,
                        oy as int,
                        color,
                        xx,
                        yy,
                    ) by {
                        lemma_row_major_below_row(w as int, xx, yy, y as int);
                    }
                }
                x += 1;
            }
            proof {
                assert((y + 1) * w == y * w + w) by (nonlinear_arith);
            }
            y += 1;
        }
        self.data = out;
        proof {
            assert(dst0.height * w == w * dst0.height) by (nonlinear_arith);
            assert forall|x: int, y: int| final(self).in_bounds(x, y) implies final(self).pix(
                x,
                y,
            ) == Surface::spec_stamp_pix(
                dst0,
                cov@,
                mw as int,
                mh as int,
                ox as int,
                oy as int,
                color,
                x,
                y,
            ) by {
                lemma_row_major_index_in_range(dst0.width as int, dst0.height as int, x, y);
            }
        }
    }
}

/// The x-coordinate of the corner-circle center that governs column `i` of
/// a rounded rectangle of width `w` with corner radius `r`; columns in the
/// middle band are governed by themselves, so their distance is zero.
pub open spec fn rr_center(i: int, w: int, r: int) -> int {
    if i < r {
        r
    } else if i > w - 1 - r {
        w - 1 - r
    } else {
        i
    }
}

/// Whether the pixel at local coordinates `(i, j)` lies inside a rounded
/// rectangle of size `w` by `h` with corner radius `r`.
pub open spec fn rr_inside(i: int, j: int, w: int, h: int, r: int) -> bool {
    &&& 0 <= i < w
    &&& 0 <= j < h
    &&& {
        let dx = i - rr_center(i, w, r);
        let dy = j - rr_center(j, h, r);
        dx * dx + dy * dy <= r * r
    }
}

/// Whether the pixel at local coordinates `(i, j)` lies on the one-pixel
/// outline of the rounded rectangle: inside it, with at least one of its
/// four neighbors outside.
pub open spec fn rr_edge(i: int, j: int, w: int, h: int, r: int) -> bool {
    &&& rr_inside(i, j, w, h, r)
    &&& {
        ||| !rr_inside(i - 1, j, w, h, r)
        ||| !rr_inside(i + 1, j, w, h, r)
        ||| !rr_inside(i, j - 1, w, h, r)
        ||| !rr_inside(i, j + 1, w, h, r)
    }
}

/// Decides [`rr_inside`] for one pixel.
fn rr_inside_at(i: i64, j: i64, w: i64, h: i64, r: i64) -> (b: bool)
    requires
        0 <= w <= DIM_MAX,
        0 <= h <= DIM_MAX,
        0 <= r <= DIM_MAX,
        -4 * OFFSET_MAX <= i <= 4 * OFFSET_MAX,
        -4 * OFFSET_MAX <= j <= 4 * OFFSET_MAX,
    ensures
        b == rr_inside(i as int, j as int, w as int, h as int, r as int),
{
    if !(0 <= i && i < w && 0 <= j && j < h) {
        return false;
    }
    let cx: i64 = if i < r {
        r
    } else if i > w - 1 - r {
        w - 1 - r
    } else {
        i
    };
    let cy: i64 = if j < r {
        r
    } else if j > h - 1 - r {
        h - 1 - r
    } else {
        j
    };
    let dx: i64 = i - cx;
    let dy: i64 = j - cy;
    proof {
        assert(-(DIM_MAX as int) <= dx <= DIM_MAX && -(DIM_MAX as int) <= dy <= DIM_MAX);
        assert(dx * dx <= DIM_MAX as int * DIM_MAX as int) by (nonlinear_arith)
            requires
                -(DIM_MAX as int) <= dx <= DIM_MAX,
        ;
        assert(dy * dy <= DIM_MAX as int * DIM_MAX as int) by (nonlinear_arith)
            requires
                -(DIM_MAX as int) <= dy <= DIM_MAX,
        ;
        assert(dx * dx >= 0 && dy * dy >= 0) by (nonlinear_arith);
        assert(r * r <= DIM_MAX as int * DIM_MAX as int) by (nonlinear_arith)
            requires
                0 <= r <= DIM_MAX,
        ;
    }
    dx * dx + dy * dy <= r * r
}

/// Decides [`rr_edge`] for one pixel.
fn rr_edge_at(i: i64, j: i64, w: i64, h: i64, r: i64) -> (b: bool)
    requires
        0 <= w <= DIM_MAX,
        0 <= h <= DIM_MAX,
        0 <= r <= DIM_MAX,
        -2 * OFFSET_MAX <= i <= 2 * OFFSET_MAX,
        -2 * OFFSET_MAX <= j <= 2 * OFFSET_MAX,
    ensures
        b == rr_edge(i as int, j as int, w as int, h as int, r as int),
{
    rr_inside_at(i, j, w, h, r) && (!rr_inside_at(i - 1, j, w, h, r) || !rr_inside_at(
        i + 1,
        j,
        w,
        h,
        r,
    ) || !rr_inside_at(i, j - 1, w, h, r) || !rr_inside_at(i, j + 1, w, h, r))
}

impl Surface {
    /// What a pixel shows after a rounded rectangle has been painted with
    /// its top-left corner at `(rx, ry)`: the outline color on the
    /// rectangle's one-pixel edge, the fill color on its interior, and the
    /// old pixel everywhere else, including outside the rounded corners.
    pub open spec fn spec_rr_pix(
        dst: Surface,
        rx: int,
        ry: int,
        rw: int,
        rh: int,
        radius: int,
        fill: Rgb,
        outline: Rgb,
        x: int,
        y: int,
    ) -> Pixel {
        if rr_edge(x - rx, y - ry, rw, rh, radius) {
            Pixel::spec_opaque(outline)
        } else if rr_inside(x - rx, y - ry, rw, rh, radius) {
            Pixel::spec_opaque(fill)
        } else {
            dst.pix(x, y)
        }
    }

    /// Paints a filled and outlined rounded rectangle over this surface,
    /// clipped to it.
    pub fn paint_rounded_rect(
        &mut self,
        rx: i64,
        ry: i64,
        rw: i64,
        rh: i64,
        radius: i64,
        fill: Rgb,
        outline: Rgb,
    )
        requires
            old(self).wf(),
            0 <= rw <= DIM_MAX,
            0 <= rh <= DIM_MAX,
            0 <= radius <= DIM_MAX,
            -OFFSET_MAX <= rx <= OFFSET_MAX,
            -OFFSET_MAX <= ry <= OFFSET_MAX,
        ensures
            final(self).wf(),
            final(self).width == old(self).width,
            final(self).height == old(self).height,
            forall|x: int, y: int|
                final(self).in_bounds(x, y) ==> final(self).pix(x, y) == Surface::spec_rr_pix(
                    *old(self),
                    rx as int,
                    ry as int,
                    rw as int,
                    rh as int,
                    radius as int,
                    fill,
                    outline,
                    x,
                    y,
                ),
    {
        let ghost dst0 = *self;
        let w: usize = self.width;
        let mut out: Vec<Pixel> = Vec::new();
        let mut y: usize = 0;
        while y < self.height
            invariant
                *self == dst0,
                dst0.wf(),
                0 <= rw <= DIM_MAX,
                0 <= rh <= DIM_MAX,
                0 <= radius <= DIM_MAX,
                -OFFSET_MAX <= rx <= OFFSET_MAX,
                -OFFSET_MAX <= ry <= OFFSET_MAX,
                w == dst0.width,
                y <= dst0.height,
                out@.len() == y * w,
                forall|k: int| 0 <= k < out@.len() ==> (#[trigger] out@[k]).valid(),
                forall|xx: int, yy: int|
                    0 <= xx < w && 0 <= yy < y ==> out@[yy * w + xx] == Surface::spec_rr_pix(
                        dst0,
                        rx as int,
                        ry as int,
                        rw as int,
                        rh as int,
                        radius as int,
                        fill,
                        outline,
                        xx,
                        yy,
                    ),
            decreases dst0.height - y,
        {
            let mut x: usize = 0;
            while x < w
                invariant
                    *self == dst0,
                    dst0.wf(),
                    0 <= rw <= DIM_MAX,
                    0 <= rh <= DIM_MAX,
                    0 <= radius <= DIM_MAX,
                    -OFFSET_MAX <= rx <= OFFSET_MAX,
                    -OFFSET_MAX <= ry <= OFFSET_MAX,
                    w == dst0.width,
                    y < dst0.height,
                    x <= w,
                    out@.len() == y * w + x,
                    forall|k: int| 0 <= k < out@.len() ==> (#[trigger] out@[k]).valid(),
                    forall|xx: int, yy: int|
                        0 <= xx < w && 0 <= yy < y ==> out@[yy * w + xx] == Surface::spec_rr_pix(
                            dst0,
                            rx as int,
                            ry as int,
                            rw as int,
                            rh as int,
                            radius as int,
                            fill,
                            outline,
                            xx,
                            yy,
                        ),
                    forall|xx: int|
                        0 <= xx < x ==> out@[y * w + xx] == Surface::spec_rr_pix(
                            dst0,
                            rx as int,
                            ry as int,
                            rw as int,
                            rh as int,
                            radius as int,
                            fill,
                            outline,
                            xx,
                            y as int,
                        ),
                decreases w - x,
            {
                proof {
                    lemma_area_small(dst0.width as int, dst0.height as int);
                    lemma_row_major_index_in_range(
                        dst0.width as int,
                        dst0.height as int,
                        x as int,
                        y as int,
                    );
                }
                let under: Pixel = self.data[y * w + x];
                let i: i64 = x as i64 - rx;
                let j: i64 = y as i64 - ry;
                let p: Pixel;
                if rr_edge_at(i, j, rw, rh, radius) {
                    p = Pixel::opaque(outline);
                } else if rr_inside_at(i, j, rw, rh, radius) {
                    p = Pixel::opaque(fill);
                } else {
                    p = under;
                }
                out.push(p);
                proof {
                    assert forall|xx: int, yy: int|
                        0 <= xx < w && 0 <= yy < y implies out@[yy * w + xx]
                        == Surface::spec_rr_pix(
                        dst0,
                        rx as int,
                        ry as int,
                        rw as int,
                        rh as int,
                        radius as int,
                        fill,
                        outline,
                        xx,
                        yy,
                    ) by {
                        lemma_row_major_below_row(w as int, xx, yy, y as int);
                    }
                }
                x += 1;
            }
            proof {
                assert((y + 1) * w == y * w + w) by (nonlinear_arith);
            }
            y += 1;
        }
        self.data = out;
        proof {
            assert(dst0.height * w == w * dst0.height) by (nonlinear_arith);
            assert forall|x: int, y: int| final(self).in_bounds(x, y) implies final(self).pix(
                x,
                y,
            ) == Surface::spec_rr_pix(
                dst0,
                rx as int,
                ry as int,
                rw as int,
                rh as int,
                radius as int,
                fill,
                outline,
                x,
                y,
            ) by {
                lemma_row_major_index_in_range(dst0.width as int, dst0.height as int, x, y);
            }
        }
    }
}

/// Two well-formed surfaces of the same size that show the same pixel at
/// every coordinate hold identical bytes: pixel-for-pixel equality is
/// byte-for-byte equality.
pub proof fn lemma_pixels_determine_surface(a: Surface, b: Surface)
    requires
        a.wf(),
        b.wf(),
        a.width == b.width,
        a.height == b.height,
        forall|x: int, y: int| a.in_bounds(x, y) ==> a.pix(x, y) == b.pix(x, y),
    ensures
        a.data@ == b.data@,
{
    assert forall|j: int| 0 <= j < a.data@.len() implies a.data@[j] == b.data@[j] by {
        let w = a.width as int;
        let h = a.height as int;
        if w > 0 {
            vstd::arithmetic::div_mod::lemma_fundamental_div_mod(j, w);
            vstd::arithmetic::div_mod::lemma_mod_bound(j, w);
            let x = j % w;
            let y = j / w;
            assert(0 <= y && y < h) by (nonlinear_arith)
                requires
                    w * y + x == j,
                    0 <= x < w,
                    0 <= j < w * h,
            ;
            assert(y * w + x == j) by (nonlinear_arith)
                requires
                    w * y + x == j,
            ;
            assert(a.pix(x, y) == b.pix(x, y));
        }
    }
    assert(a.data@ =~= b.data@);
}

/// The area of a surface with bounded dimensions fits comfortably in
/// `usize`.
pub proof fn lemma_area_small(w: int, h: int)
    by (nonlinear_arith)
    requires
        0 <= w <= DIM_MAX,
        0 <= h <= DIM_MAX,
    ensures
        0 <= w * h <= 0x1000_0000,
{
}

/// For in-range coordinates, the row-major index lies within the buffer.
pub proof fn lemma_row_major_index_in_range(w: int, h: int, x: int, y: int)
    by (nonlinear_arith)
    requires
        0 <= x < w,
        0 <= y < h,
    ensures
        0 <= y * w + x < w * h,
        y * w + x == x + y * w,
{
}

/// A row-major index of an earlier row precedes every index of row `y`.
pub proof fn lemma_row_major_below_row(w: int, xx: int, yy: int, y: int)
    by (nonlinear_arith)
    requires
        0 <= xx < w,
        0 <= yy < y,
    ensures
        yy * w + xx < y * w,
{
}

} // verus!
