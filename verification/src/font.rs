//! Text measurement and layout: a font as a table of integer glyph
//! metrics, and the renderer that walks a string, applies kerning, honors
//! hard line breaks, soft-wraps at the most recent break opportunity when a
//! line exceeds its maximum width, and finally composites coverage rasters
//! into a text surface.

use vstd::prelude::*;
use vstd::string::*;

use crate::color::{spec_premultiply, Pixel, Rgb};
use crate::surface::{Surface, DIM_MAX};

verus! {

/// The zero-width space: a break opportunity that occupies no width.
pub const ZWSP: char = '\u{200b}';

/// The largest magnitude of any single glyph metric.
pub const METRIC_MAX: i64 = 1048576;

/// The most characters a text may hold.
pub const TEXT_MAX: usize = 1048576;

/// A font, reduced to what layout reads: per-character horizontal
/// advances, pairwise kerning adjustments, and the vertical line metrics.
/// All values are in pixels.
pub struct Font {
    pub default_advance: i64,
    pub height: i64,
    pub line_gap: i64,
    pub advances: Vec<(char, i64)>,
    pub kerns: Vec<(char, char, i64)>,
}

/// The advance of `c` in the table `entries`, or `dflt` when absent.
pub open spec fn spec_advance_in(entries: Seq<(char, i64)>, c: char, dflt: int) -> int
    decreases entries.len(),
{
    if entries.len() == 0 {
        dflt
    } else if entries.first().0 == c {
        entries.first().1 as int
    } else {
        spec_advance_in(entries.drop_first(), c, dflt)
    }
}

/// The kerning between `a` and `b` in the table `entries`, or zero when
/// absent.
pub open spec fn spec_kern_in(entries: Seq<(char, char, i64)>, a: char, b: char) -> int
    decreases entries.len(),
{
    if entries.len() == 0 {
        0
    } else if entries.first().0 == a && entries.first().1 == b {
        entries.first().2 as int
    } else {
        spec_kern_in(entries.drop_first(), a, b)
    }
}

impl Font {
    /// All metrics lie within [`METRIC_MAX`]; advances and vertical
    /// metrics are never negative.
    pub open spec fn wf(self) -> bool {
        &&& 0 <= self.default_advance <= METRIC_MAX
        &&& 0 <= self.height <= METRIC_MAX
        &&& 0 <= self.line_gap <= METRIC_MAX
        &&& forall|k: int|
            0 <= k < self.advances@.len() ==> 0 <= (#[trigger] self.advances@[k]).1 <= METRIC_MAX
        &&& forall|k: int|
            0 <= k < self.kerns@.len() ==> -METRIC_MAX <= (#[trigger] self.kerns@[k]).2
                <= METRIC_MAX
    }

    /// The horizontal advance of `c`.
    pub open spec fn spec_advance(self, c: char) -> int {
        spec_advance_in(self.advances@, c, self.default_advance as int)
    }

    /// The kerning between `a` and `b`.
    pub open spec fn spec_kern(self, a: char, b: char) -> int {
        spec_kern_in(self.kerns@, a, b)
    }

    /// Looks up the horizontal advance of `c`.
    pub fn advance(&self, c: char) -> (r: i64)
        requires
            self.wf(),
        ensures
            r == self.spec_advance(c),
            0 <= r <= METRIC_MAX,
    {
        proof {
            assert(self.advances@.skip(0) =~= self.advances@);
        }
        let n = self.advances.len();
        let mut k: usize = 0;
        while k < n
            invariant
                self.wf(),
                n == self.advances@.len(),
                k <= n,
                spec_advance_in(self.advances@, c, self.default_advance as int) == spec_advance_in(
                    self.advances@.skip(k as int),
                    c,
                    self.default_advance as int,
                ),
            decreases n - k,
        {
            let e = self.advances[k];
            proof {
                assert(self.advances@.skip(k as int).first() == self.advances@[k as int]);
                assert(self.advances@.skip(k as int).drop_first() =~= self.advances@.skip(
                    k as int + 1,
                ));
            }
            if e.0 == c {
                return e.1;
            }
            k += 1;
        }
        self.default_advance
    }

    /// Looks up the kerning between `a` and `b`.
    pub fn kern(&self, a: char, b: char) -> (r: i64)
        requires
            self.wf(),
        ensures
            r == self.spec_kern(a, b),
            -METRIC_MAX <= r <= METRIC_MAX,
    {
        proof {
            assert(self.kerns@.skip(0) =~= self.kerns@);
        }
        let n = self.kerns.len();
        let mut k: usize = 0;
        while k < n
            invariant
                self.wf(),
                n == self.kerns@.len(),
                k <= n,
                spec_kern_in(self.kerns@, a, b) == spec_kern_in(
                    self.kerns@.skip(k as int),
                    a,
                    b,
                ),
            decreases n - k,
        {
            let e = self.kerns[k];
            proof {
                assert(self.kerns@.skip(k as int).first() == self.kerns@[k as int]);
                assert(self.kerns@.skip(k as int).drop_first() =~= self.kerns@.skip(k as int + 1));
            }
            if e.0 == a && e.1 == b {
                return e.2;
            }
            k += 1;
        }
        0
    }

    /// Returns a [`Renderer`] for `text`: white, with no soft wrapping.
    pub fn render<'a>(&'a self, text: &'a str) -> (r: Renderer<'a>)
        ensures
            r.font == self,
            r.text@ == text@,
            r.color == (Rgb(255, 255, 255)),
            r.max_width == i64::MAX,
    {
        Renderer { font: self, text, color: Rgb(255, 255, 255), max_width: i64::MAX }
    }
}

/// A glyph placed by layout: its character (as a Unicode code point) and
/// its pen position in pixels.
#[derive(Clone, Copy, Debug, PartialEq, Eq, Structural)]
pub struct PlacedGlyph {
    pub ch: u32,
    pub x: i64,
    pub y: i64,
}

/// The mathematical model of a placed glyph: the code point and the exact
/// pen position.
pub ghost struct Pg {
    pub ch: int,
    pub x: int,
    pub y: int,
}

impl View for PlacedGlyph {
    type V = Pg;

    open spec fn view(&self) -> Pg {
        Pg { ch: self.ch as int, x: self.x as int, y: self.y as int }
    }
}

/// Whether `c` is a break opportunity: a space or a zero-width space.
/// A non-breaking space is not one.
pub open spec fn is_break_char(c: char) -> bool {
    c == ' ' || c == ZWSP
}

/// The layout state while walking a text: the pen position, the last
/// character (for kerning), the index in `placed` at which the most recent
/// break opportunity of the current line stands, and the glyphs placed so
/// far.
pub ghost struct LState {
    pub x: int,
    pub y: int,
    pub last: Option<char>,
    pub brk: Option<int>,
    pub placed: Seq<Pg>,
}

/// The layout state a text starts in.
pub open spec fn init_lstate() -> LState {
    LState { x: 0, y: 0, last: None, brk: None, placed: Seq::empty() }
}

/// The vertical distance between two line baselines.
pub open spec fn spec_line_advance(f: Font) -> int {
    f.height + f.line_gap
}

/// One character of one line: kerning against the previous character, then
/// the advance. A break opportunity is never painted but its advance still
/// counts, and it records the index where a soft break may later cut the
/// line. Any other character becomes a glyph; if the pen has then passed
/// `mw` and a break opportunity exists, every glyph from that index on
/// moves to a new line, shifted left by the first moved glyph's offset.
#[verifier::opaque]
pub open spec fn spec_line_step(f: Font, mw: int, st: LState, c: char) -> LState {
    let kern = match st.last {
        Some(l) => f.spec_kern(l, c),
        None => 0,
    };
    let gx = st.x + kern;
    let x2 = gx + f.spec_advance(c);
    if is_break_char(c) {
        LState {
            x: x2,
            y: st.y,
            last: Some(c),
            brk: Some(st.placed.len() as int),
            placed: st.placed,
        }
    } else {
        let placed1 = st.placed.push(Pg { ch: c as int, x: gx, y: st.y });
        if x2 > mw && st.brk is Some {
            let i = st.brk->0;
            let xd = if 0 <= i < placed1.len() {
                placed1[i].x
            } else {
                0
            };
            let y2 = st.y + spec_line_advance(f);
            LState {
                x: x2 - xd,
                y: y2,
                last: Some(c),
                brk: None,
                placed: Seq::new(
                    placed1.len(),
                    |j: int|
                        if j >= i {
                            Pg { ch: placed1[j].ch, x: placed1[j].x - xd, y: y2 }
                        } else {
                            placed1[j]
                        },
                ),
            }
        } else {
            LState { x: x2, y: st.y, last: Some(c), brk: st.brk, placed: placed1 }
        }
    }
}

/// The layout state after the characters from index `i` on: a newline
/// starts a fresh line below the current one, a carriage return directly
/// before a newline is invisible, and every other character goes through
/// [`spec_line_step`].
pub open spec fn spec_layout_from(f: Font, mw: int, cs: Seq<char>, i: int, st: LState) -> LState
    decreases cs.len() - i,
{
    if i < 0 || i >= cs.len() {
        st
    } else {
        let c = cs[i];
        let st2 = if c == '\r' && i + 1 < cs.len() && cs[i + 1] == '\n' {
            st
        } else if c == '\n' {
            LState {
                x: 0,
                y: st.y + spec_line_advance(f),
                last: None,
                brk: None,
                placed: st.placed,
            }
        } else {
            spec_line_step(f, mw, st, c)
        };
        spec_layout_from(f, mw, cs, i + 1, st2)
    }
}

/// Every glyph the layout of a whole text places.
pub open spec fn spec_layout(f: Font, cs: Seq<char>, mw: int) -> Seq<Pg> {
    spec_layout_from(f, mw, cs, 0, init_lstate()).placed
}

/// Collects the characters of a string.
fn str_chars(s: &str) -> (v: Vec<char>)
    ensures
        v@ == s@,
{
    let n: usize = s.unicode_len();
    let mut v: Vec<char> = Vec::new();
    let mut i: usize = 0;
    while i < n
        invariant
            n == s@.len(),
            i <= n,
            v@.len() == i,
            forall|j: int| 0 <= j < i ==> v@[j] == s@[j],
        decreases n - i,
    {
        v.push(s.get_char(i));
        i += 1;
    }
    proof {
        assert(v@ =~= s@);
    }
    v
}

/// A pending text rendering: the font, the text, the text color, and the
/// width past which lines soft-wrap.
pub struct Renderer<'a> {
    pub font: &'a Font,
    pub text: &'a str,
    pub color: Rgb,
    pub max_width: i64,
}

impl<'a> Renderer<'a> {
    /// The font is well-formed and the text short enough to measure.
    pub open spec fn wf(self) -> bool {
        &&& self.font.wf()
        &&& self.text@.len() <= TEXT_MAX
    }

    /// Sets the width past which lines soft-wrap.
    pub fn with_max_width(self, max_width: i64) -> (r: Self)
        ensures
            r.font == self.font,
            r.text@ == self.text@,
            r.color == self.color,
            r.max_width == max_width,
    {
        Renderer { max_width, ..self }
    }

    /// Sets the text color.
    pub fn with_color(self, color: Rgb) -> (r: Self)
        ensures
            r.font == self.font,
            r.text@ == self.text@,
            r.color == color,
            r.max_width == self.max_width,
    {
        Renderer { color, ..self }
    }

    /// Calculates the text layout: walks the text character by character,
    /// kerning between neighbors, breaking hard at newlines, and
    /// soft-wrapping at the most recent break opportunity once a line
    /// exceeds the maximum width. When a line holds no break opportunity
    /// it is allowed to exceed the width.
    pub fn layout(&self) -> (r: Vec<PlacedGlyph>)
        requires
            self.wf(),
        ensures
            r@.map_values(|g: PlacedGlyph| g@) == spec_layout(
                *self.font,
                self.text@,
                self.max_width as int,
            ),
    {
        let chars: Vec<char> = str_chars(self.text);
        let n: usize = chars.len();
        let ghost cs = chars@;
        let ghost f = *self.font;
        let ghost mwi = self.max_width as int;
        let ghost nn = n as int;

        let mut out: Vec<PlacedGlyph> = Vec::new();
        let mut x: i64 = 0;
        let mut y: i64 = 0;
        let mut last: Option<char> = None;
        let mut brk: Option<usize> = None;
        let ghost mut st: LState = init_lstate();
        let mut i: usize = 0;
        while i < n
            invariant
                self.wf(),
                f == *self.font,
                mwi == self.max_width as int,
                cs == chars@,
                n == cs.len(),
                nn == n as int,
                n <= TEXT_MAX,
                i <= n,
                spec_layout_from(f, mwi, cs, 0, init_lstate()) == spec_layout_from(
                    f,
                    mwi,
                    cs,
                    i as int,
                    st,
                ),
                lstate_corr(st, out@, x, y, last, brk),
                lstate_bounds(out@, x, y, brk, nn, i as int),
            decreases n - i,
        {
            let ghost st_pre = st;
            let c = chars[i];
            if c == '\r' && i + 1 < n && chars[i + 1] == '\n' {
                // A carriage return directly before a newline is invisible.
                proof {
                    assert(lstate_bounds(out@, x, y, brk, nn, i as int + 1));
                }
            } else if c == '\n' {
                y = y + (self.font.height + self.font.line_gap);
                x = 0;
                last = None;
                brk = None;
                proof {
                    st = LState {
                        x: 0,
                        y: st_pre.y + spec_line_advance(f),
                        last: None,
                        brk: None,
                        placed: st_pre.placed,
                    };
                    assert(lstate_corr(st, out@, x, y, last, brk));
                    assert(lstate_bounds(out@, x, y, brk, nn, i as int + 1));
                }
            } else {
                let stepped = glyph_step(
                    self.font,
                    self.max_width,
                    c,
                    Ghost(nn),
                    Ghost(i as int),
                    Ghost(st_pre),
                    &mut out,
                    &mut x,
                    &mut y,
                    &mut last,
                    &mut brk,
                );
                proof {
                    st = stepped@;
                }
            }
            proof {
                assert(spec_layout_from(f, mwi, cs, i as int, st_pre) == spec_layout_from(
                    f,
                    mwi,
                    cs,
                    i as int + 1,
                    st,
                ));
            }
            i += 1;
        }
        proof {
            assert(out@.map_values(|g: PlacedGlyph| g@) =~= st.placed);
        }
        out
    }
}

/// The correspondence between the abstract layout state and the concrete
/// loop variables of [`Renderer::layout`].
pub open spec fn lstate_corr(
    st: LState,
    outs: Seq<PlacedGlyph>,
    x: i64,
    y: i64,
    last: Option<char>,
    brk: Option<usize>,
) -> bool {
    &&& st.x == x as int
    &&& st.y == y as int
    &&& st.last == last
    &&& st.brk == match brk {
        Some(b) => Some(b as int),
        None => None::<int>,
    }
    &&& st.placed.len() == outs.len()
    &&& forall|j: int| 0 <= j < outs.len() ==> st.placed[j] == (#[trigger] outs[j])@
}

/// The numeric bounds that keep every layout quantity within `i64` range
/// after `i` of `nn` characters: the pen moves at most two metrics per
/// character, and a soft break moves it by at most the span of the glyphs
/// since the break opportunity.
pub open spec fn lstate_bounds(
    outs: Seq<PlacedGlyph>,
    x: i64,
    y: i64,
    brk: Option<usize>,
    nn: int,
    i: int,
) -> bool {
    &&& -(2097152 * (nn + 1) + 2097152 * (i + 1)) <= x as int <= 2097152 * (nn + 1) + 2097152 * (
    i + 1)
    &&& 0 <= y as int <= 2097152 * (i + 1)
    &&& brk is Some ==> brk->0 <= outs.len() && (forall|j: int|
        brk->0 <= j < outs.len() ==> -(2097152 * (i + 1)) <= x as int - (#[trigger] outs[j]).x
            <= 2097152 * (i + 1))
    &&& forall|j: int|
        0 <= j < outs.len() ==> -(4194304 * (nn + 1) + 1048576) <= (#[trigger] outs[j]).x
            <= 4194304 * (nn + 1) + 1048576
    &&& forall|j: int| 0 <= j < outs.len() ==> 0 <= (#[trigger] outs[j]).y <= y
}

/// Lays out one character that is not a hard line break: kerning, advance,
/// break-opportunity bookkeeping, and the soft wrap when the line has
/// overrun its maximum width.
#[verifier::rlimit(100)]
fn glyph_step(
    font: &Font,
    mw: i64,
    c: char,
    nn: Ghost<int>,
    i: Ghost<int>,
    st_pre: Ghost<LState>,
    out: &mut Vec<PlacedGlyph>,
    x: &mut i64,
    y: &mut i64,
    last: &mut Option<char>,
    brk: &mut Option<usize>,
) -> (st: Ghost<LState>)
    requires
        font.wf(),
        c != '\n',
        0 <= i@ < nn@,
        nn@ <= 1048576,
        lstate_corr(st_pre@, old(out)@, *old(x), *old(y), *old(last), *old(brk)),
        lstate_bounds(old(out)@, *old(x), *old(y), *old(brk), nn@, i@),
    ensures
        st@ == spec_line_step(*font, mw as int, st_pre@, c),
        lstate_corr(st@, final(out)@, *final(x), *final(y), *final(last), *final(brk)),
        lstate_bounds(final(out)@, *final(x), *final(y), *final(brk), nn@, i@ + 1),
{
    let ghost nni = nn@;
    let kern: i64 = match *last {
        Some(l) => font.kern(l, c),
        None => 0,
    };
    let gx: i64 = *x + kern;
    let adv: i64 = font.advance(c);
    let x2: i64 = gx + adv;
    if c == ' ' || c == '\u{200b}' {
        *x = x2;
        *last = Some(c);
        let b2: usize = out.len();
        *brk = Some(b2);
        proof {
            reveal(spec_line_step);
            let st2 = spec_line_step(*font, mw as int, st_pre@, c);
            assert(st2.x == x2 as int);
            assert(st2.brk == Some(out@.len() as int));
        }
        Ghost(spec_line_step(*font, mw as int, st_pre@, c))
    } else {
        let ghost out0 = out@;
        out.push(PlacedGlyph { ch: c as u32, x: gx, y: *y });
        let yline: i64 = *y;
        *x = x2;
        *last = Some(c);
        let ghost st2 = spec_line_step(*font, mw as int, st_pre@, c);
        let mut do_wrap = false;
        let mut b: usize = 0;
        if x2 > mw {
            if let Some(bb) = *brk {
                do_wrap = true;
                b = bb;
            }
        }
        if do_wrap {
            let ghost outp = out@;
            proof {
                reveal(spec_line_step);
                assert(st_pre@.brk == Some(b as int));
                assert forall|j: int| b <= j < outp.len() implies -(2097152 * (nni + 2)) <= x2 as int
                    - (#[trigger] outp[j]).x <= 2097152 * (nni + 2) by {
                    if j < outp.len() - 1 {
                        assert(outp[j] == out0[j]);
                        assert(st_pre@.placed[j] == out0[j]@);
                    } else {
                        assert(outp[j].x == gx);
                    }
                }
                assert forall|j: int| 0 <= j < outp.len() implies -(4194304 * (nni + 1) + 1048576)
                    <= (#[trigger] outp[j]).x <= 4194304 * (nni + 1) + 1048576 by {
                    if j < outp.len() - 1 {
                        assert(outp[j] == out0[j]);
                    }
                }
                assert forall|j: int| 0 <= j < outp.len() implies 0 <= (#[trigger] outp[j]).y
                    <= yline as int by {
                    if j < outp.len() - 1 {
                        assert(outp[j] == out0[j]);
                    }
                }
            }
            let y2: i64 = *y + (font.height + font.line_gap);
            let xd: i64 = out[b].x;
            let len: usize = out.len();
            let mut jj: usize = b;
            while jj < len
                invariant
                    0 <= nni <= 1048576,
                    b <= jj <= len,
                    len == out@.len(),
                    outp.len() == len,
                    b < len,
                    xd == outp[b as int].x,
                    -(2097152 * (nni + 2)) <= x2 as int - xd as int <= 2097152 * (nni + 2),
                    0 <= y2 as int <= 2097152 * (nni + 2),
                    forall|j: int|
                        b <= j < len ==> -(2097152 * (nni + 2)) <= x2 as int - (
                        #[trigger] outp[j]).x <= 2097152 * (nni + 2),
                    forall|j: int|
                        0 <= j < len ==> -(4194304 * (nni + 1) + 1048576) <= (
                        #[trigger] outp[j]).x <= 4194304 * (nni + 1) + 1048576,
                    forall|j: int| 0 <= j < len ==> 0 <= (#[trigger] outp[j]).y <= y2,
                    forall|j: int| jj <= j < len ==> (#[trigger] out@[j]) == outp[j],
                    forall|j: int|
                        0 <= j < jj && j >= b ==> (#[trigger] out@[j]).ch == outp[j].ch
                            && out@[j].x == outp[j].x - xd && out@[j].y == y2,
                    forall|j: int| 0 <= j < b ==> (#[trigger] out@[j]) == outp[j],
                decreases len - jj,
            {
                let prev: PlacedGlyph = out[jj];
                proof {
                    assert(prev == outp[jj as int]);
                    assert(-(4194304 * (nni + 1) + 1048576) <= outp[jj as int].x <= 4194304 * (nni
                        + 1) + 1048576);
                    assert(-(4194304 * (nni + 1) + 1048576) <= outp[b as int].x <= 4194304 * (nni
                        + 1) + 1048576);
                }
                let nx: i64 = prev.x - xd;
                out.set(jj, PlacedGlyph { ch: prev.ch, x: nx, y: y2 });
                jj += 1;
            }
            *x = x2 - xd;
            *y = y2;
            *brk = None;
            proof {
                reveal(spec_line_step);
                assert(st2.placed.len() == out@.len());
                assert forall|j: int| 0 <= j < out@.len() implies st2.placed[j] == (
                #[trigger] out@[j])@ by {
                    if j < outp.len() - 1 {
                        assert(st_pre@.placed[j] == out0[j]@);
                        assert(outp[j] == out0[j]);
                    } else {
                        assert(outp[j].x == gx && outp[j].y == yline && outp[j].ch == c as u32);
                    }
                    if j >= b {
                        assert(out@[j].x == outp[j].x - xd && out@[j].y == y2 && out@[j].ch
                            == outp[j].ch);
                    }
                }
                assert forall|j: int| 0 <= j < out@.len() implies -(4194304 * (nni + 1) + 1048576)
                    <= (#[trigger] out@[j]).x <= 4194304 * (nni + 1) + 1048576 by {
                    if j >= b {
                        assert(out@[j].x == outp[j].x - xd);
                        assert(outp[j].x - xd == (x2 as int - xd as int) - (x2 as int
                            - outp[j].x));
                    }
                }
                assert forall|j: int| 0 <= j < out@.len() implies 0 <= (#[trigger] out@[j]).y
                    <= *y by {
                    if j < b {
                        assert(out@[j] == outp[j]);
                    }
                }
            }
        } else {
            proof {
                reveal(spec_line_step);
                assert(st2.placed.len() == out@.len());
                assert forall|j: int| 0 <= j < out@.len() implies st2.placed[j] == (
                #[trigger] out@[j])@ by {
                    if j < out@.len() - 1 {
                        assert(st2.placed[j] == st_pre@.placed[j]);
                        assert(out@[j] == out0[j]);
                    } else {
                        assert(out@[j].x == gx && out@[j].y == yline && out@[j].ch == c as u32);
                    }
                }
                assert forall|j: int| 0 <= j < out@.len() implies -(4194304 * (nni + 1) + 1048576)
                    <= (#[trigger] out@[j]).x <= 4194304 * (nni + 1) + 1048576 by {
                    if j < out@.len() - 1 {
                        assert(out@[j] == out0[j]);
                    }
                }
                assert forall|j: int| 0 <= j < out@.len() implies 0 <= (#[trigger] out@[j]).y
                    <= *y by {
                    if j < out@.len() - 1 {
                        assert(out@[j] == out0[j]);
                    }
                }
                assert forall|j: int|
                    brk@ is Some && brk@->0 <= j < out@.len() implies -(2097152 * (i@ + 2)) <= *x
                    - (#[trigger] out@[j]).x <= 2097152 * (i@ + 2) by {
                    if j < out@.len() - 1 {
                        assert(out@[j] == out0[j]);
                    } else {
                        assert(out@[j].x == gx);
                    }
                }
            }
        }
        Ghost(spec_line_step(*font, mw as int, st_pre@, c))
    }
}

/// Wrapping idempotence: re-running the renderer on identical inputs
/// produces byte-identical pixel output. The placed glyphs are a pure
/// function of font, text and maximum width, and the composed surface is
/// a pure function of the rasters and the color, so two runs agree glyph
/// for glyph and byte for byte.
pub proof fn lemma_render_idempotent(
    f: Font,
    text: Seq<char>,
    mw: int,
    color: Rgb,
    rs: Seq<GlyphRaster>,
    g1: Seq<Pg>,
    g2: Seq<Pg>,
    s1: Surface,
    s2: Surface,
)
    requires
        g1 == spec_layout(f, text, mw),
        g2 == spec_layout(f, text, mw),
        s1.wf(),
        s2.wf(),
        s1.width == s2.width,
        s1.height == s2.height,
        forall|x: int, y: int|
            s1.in_bounds(x, y) ==> s1.pix(x, y) == spec_compose_px(
                rs,
                color,
                spec_rasters_min_x(rs),
                spec_rasters_min_y(rs),
                x,
                y,
            ),
        forall|x: int, y: int|
            s2.in_bounds(x, y) ==> s2.pix(x, y) == spec_compose_px(
                rs,
                color,
                spec_rasters_min_x(rs),
                spec_rasters_min_y(rs),
                x,
                y,
            ),
    ensures
        g1 == g2,
        s1.data@ == s2.data@,
{
    crate::surface::lemma_pixels_determine_surface(s1, s2);
}

/// Establishes the induction for texts without a break opportunity:
/// starting from a state with no recorded break opportunity, such a text
/// never soft-wraps, so the vertical position never changes and every new
/// glyph lands on the starting line.
proof fn lemma_unbreakable_run(f: Font, mw: int, cs: Seq<char>, i: int, st: LState)
    requires
        0 <= i <= cs.len(),
        st.brk is None,
        forall|j: int| i <= j < cs.len() ==> !is_break_char(#[trigger] cs[j]) && cs[j] != '\n',
    ensures
        spec_layout_from(f, mw, cs, i, st).y == st.y,
        spec_layout_from(f, mw, cs, i, st).placed.len() >= st.placed.len(),
        forall|k: int|
            0 <= k < st.placed.len() ==> spec_layout_from(f, mw, cs, i, st).placed[k]
                == st.placed[k],
        forall|k: int|
            st.placed.len() <= k < spec_layout_from(f, mw, cs, i, st).placed.len()
                ==> spec_layout_from(f, mw, cs, i, st).placed[k].y == st.y,
    decreases cs.len() - i,
{
    reveal(spec_line_step);
    if i < cs.len() {
        let c = cs[i];
        if c == '\r' && i + 1 < cs.len() && cs[i + 1] == '\n' {
            assert(cs[i + 1] != '\n');
        }
        let st2 = spec_line_step(f, mw, st, c);
        assert(st2.brk is None);
        assert(st2.y == st.y);
        assert(st2.placed.len() == st.placed.len() + 1);
        lemma_unbreakable_run(f, mw, cs, i + 1, st2);
        let r = spec_layout_from(f, mw, cs, i + 1, st2);
        assert(spec_layout_from(f, mw, cs, i, st) == r);
        assert forall|k: int| 0 <= k < st.placed.len() implies r.placed[k] == st.placed[k] by {
            assert(st2.placed[k] == st.placed[k]);
        }
        assert forall|k: int| st.placed.len() <= k < r.placed.len() implies r.placed[k].y
            == st.y by {
            if k < st2.placed.len() {
                assert(st2.placed[k].y == st.y);
            }
        }
    }
}

/// Non-breaking-space invariant: soft wrapping needs a break opportunity.
/// In text that holds no space, no zero-width space and no newline — in
/// particular, text whose spaces were all replaced by non-breaking spaces
/// — every glyph stays on the first line, however far the text overruns
/// the maximum width.
pub proof fn lemma_no_break_opportunity_no_wrap(f: Font, text: Seq<char>, mw: int)
    requires
        forall|j: int|
            0 <= j < text.len() ==> !is_break_char(#[trigger] text[j]) && text[j] != '\n',
    ensures
        forall|k: int|
            0 <= k < spec_layout(f, text, mw).len() ==> spec_layout(f, text, mw)[k].y == 0,
{
    lemma_unbreakable_run(f, mw, text, 0, init_lstate());
}

/// A non-breaking space is not a break opportunity, while a space and a
/// zero-width space are.
pub proof fn lemma_break_opportunity_chars()
    ensures
        !is_break_char('\u{a0}'),
        is_break_char(' '),
        is_break_char(ZWSP),
{
}

/// The total advance of the first `i` characters.
pub open spec fn spec_advance_sum(f: Font, cs: Seq<char>, i: int) -> int
    decreases i,
{
    if i <= 0 {
        0
    } else {
        spec_advance_sum(f, cs, i - 1) + f.spec_advance(cs[i - 1])
    }
}

/// The glyphs a line lays out when nothing wraps: one glyph per character
/// that is not a break opportunity, at the running sum of all previous
/// advances. A break opportunity contributes its advance but no glyph, so
/// one whose advance is zero — a zero-width space — occupies no width at
/// all in the output.
pub open spec fn spec_plain_glyphs(f: Font, cs: Seq<char>, i: int) -> Seq<Pg>
    decreases cs.len() - i,
{
    if i < 0 || i >= cs.len() {
        Seq::empty()
    } else if is_break_char(cs[i]) {
        spec_plain_glyphs(f, cs, i + 1)
    } else {
        seq![Pg { ch: cs[i] as int, x: spec_advance_sum(f, cs, i), y: 0 }] + spec_plain_glyphs(
            f,
            cs,
            i + 1,
        )
    }
}

/// The advance sum never shrinks when the font's advances are
/// non-negative.
proof fn lemma_advance_sum_le(f: Font, cs: Seq<char>, i: int, j: int)
    requires
        f.wf(),
        0 <= i <= j <= cs.len(),
    ensures
        spec_advance_sum(f, cs, i) <= spec_advance_sum(f, cs, j),
    decreases j - i,
{
    if i < j {
        lemma_advance_sum_le(f, cs, i, j - 1);
        lemma_advance_nonneg(f, cs[j - 1]);
    }
}

/// Every advance of a well-formed font is non-negative.
proof fn lemma_advance_nonneg(f: Font, c: char)
    requires
        f.wf(),
    ensures
        0 <= f.spec_advance(c) <= METRIC_MAX,
{
    lemma_advance_in_bounds(f.advances@, c, f.default_advance as int);
}

/// Every table lookup stays within the table's own bounds.
proof fn lemma_advance_in_bounds(entries: Seq<(char, i64)>, c: char, dflt: int)
    requires
        0 <= dflt <= METRIC_MAX,
        forall|k: int| 0 <= k < entries.len() ==> 0 <= (#[trigger] entries[k]).1 <= METRIC_MAX,
    ensures
        0 <= spec_advance_in(entries, c, dflt) <= METRIC_MAX,
    decreases entries.len(),
{
    if entries.len() > 0 && entries.first().0 != c {
        assert forall|k: int| 0 <= k < entries.drop_first().len() implies 0 <= (
        #[trigger] entries.drop_first()[k]).1 <= METRIC_MAX by {
            assert(entries.drop_first()[k] == entries[k + 1]);
        }
        lemma_advance_in_bounds(entries.drop_first(), c, dflt);
    }
}

/// The induction behind [`lemma_zwsp_zero_width`]: with a kern-free font
/// and enough room, the layout from position `i` appends exactly the
/// plain glyphs of the rest of the text.
proof fn lemma_plain_run(f: Font, mw: int, cs: Seq<char>, i: int, st: LState)
    requires
        f.wf(),
        f.kerns@.len() == 0,
        0 <= i <= cs.len(),
        forall|j: int| 0 <= j < cs.len() ==> cs[j] != '\n' && cs[j] != '\r',
        spec_advance_sum(f, cs, cs.len() as int) <= mw,
        st.x == spec_advance_sum(f, cs, i),
        st.y == 0,
    ensures
        spec_layout_from(f, mw, cs, i, st).placed =~= st.placed + spec_plain_glyphs(f, cs, i),
    decreases cs.len() - i,
{
    reveal(spec_line_step);
    if i >= cs.len() {
        assert(spec_plain_glyphs(f, cs, i) =~= Seq::<Pg>::empty());
        assert(st.placed + Seq::<Pg>::empty() =~= st.placed);
    } else {
        let c = cs[i];
        let st2 = spec_line_step(f, mw, st, c);
        if st.last is Some {
            assert(f.spec_kern(st.last->0, c) == 0);
        }
        assert(st.x + f.spec_advance(c) == spec_advance_sum(f, cs, i + 1));
        lemma_advance_sum_le(f, cs, i + 1, cs.len() as int);
        assert(st.x + f.spec_advance(c) <= mw);
        assert(st2.x == spec_advance_sum(f, cs, i + 1));
        if is_break_char(c) {
            assert(st2.placed == st.placed);
            lemma_plain_run(f, mw, cs, i + 1, st2);
            assert(spec_plain_glyphs(f, cs, i) == spec_plain_glyphs(f, cs, i + 1));
        } else {
            assert(st2.placed == st.placed.push(Pg { ch: c as int, x: st.x, y: 0 }));
            lemma_plain_run(f, mw, cs, i + 1, st2);
            assert(st.placed.push(Pg { ch: c as int, x: st.x, y: 0 }) + spec_plain_glyphs(f, cs, i + 1)
                =~= st.placed + (seq![Pg { ch: c as int, x: spec_advance_sum(f, cs, i), y: 0 }]
                + spec_plain_glyphs(f, cs, i + 1)));
        }
    }
}

/// Zero-width space invariant, positions: with a kern-free font and a
/// width that nothing overruns, the layout is exactly one glyph per
/// non-break character, each at the sum of all previous advances. A
/// zero-width space is a break opportunity ([`lemma_break_opportunity_chars`])
/// yet produces no glyph, and when the font gives it advance zero it
/// shifts no later glyph: it occupies no width in the laid-out output.
pub proof fn lemma_zwsp_zero_width(f: Font, cs: Seq<char>, mw: int)
    requires
        f.wf(),
        f.kerns@.len() == 0,
        forall|j: int| 0 <= j < cs.len() ==> cs[j] != '\n' && cs[j] != '\r',
        spec_advance_sum(f, cs, cs.len() as int) <= mw,
    ensures
        spec_layout(f, cs, mw) =~= spec_plain_glyphs(f, cs, 0),
{
    lemma_plain_run(f, mw, cs, 0, init_lstate());
    assert(init_lstate().placed + spec_plain_glyphs(f, cs, 0) =~= spec_plain_glyphs(f, cs, 0));
}

/// Inserting a character with advance zero leaves every advance sum
/// unchanged, up to the index shift past the insertion point.
proof fn lemma_advance_sum_insert(f: Font, cs: Seq<char>, p: int, i: int)
    requires
        f.spec_advance(ZWSP) == 0,
        0 <= p <= cs.len(),
        0 <= i <= cs.len() + 1,
    ensures
        spec_advance_sum(f, cs.insert(p, ZWSP), i) == spec_advance_sum(
            f,
            cs,
            if i <= p {
                i
            } else {
                i - 1
            },
        ),
    decreases i,
{
    if i > 0 {
        lemma_advance_sum_insert(f, cs, p, i - 1);
        let cs2 = cs.insert(p, ZWSP);
        if i - 1 < p {
            assert(cs2[i - 1] == cs[i - 1]);
        } else if i - 1 == p {
            assert(cs2[i - 1] == ZWSP);
        } else {
            assert(cs2[i - 1] == cs[i - 2]);
        }
    }
}

/// Inserting a zero-width space produces the same plain glyphs at the
/// same positions, from any starting index.
proof fn lemma_plain_glyphs_insert(f: Font, cs: Seq<char>, p: int, i: int)
    requires
        f.spec_advance(ZWSP) == 0,
        0 <= p <= cs.len(),
        0 <= i <= cs.len() + 1,
    ensures
        spec_plain_glyphs(f, cs.insert(p, ZWSP), i) =~= spec_plain_glyphs(
            f,
            cs,
            if i <= p {
                i
            } else {
                i - 1
            },
        ),
    decreases cs.len() + 1 - i,
{
    let cs2 = cs.insert(p, ZWSP);
    if i <= cs.len() {
        lemma_plain_glyphs_insert(f, cs, p, i + 1);
        lemma_advance_sum_insert(f, cs, p, i);
        if i < p {
            assert(cs2[i] == cs[i]);
        } else if i == p {
            assert(cs2[i] == ZWSP);
        } else {
            assert(cs2[i] == cs[i - 1]);
        }
    }
}

/// Zero-width space invariant, in full: inserting a zero-width space
/// anywhere in a line moves nothing. With a kern-free font that gives the
/// zero-width space advance zero, and a width that the line does not
/// overrun, the text with the insertion lays out exactly the same glyphs
/// at exactly the same positions.
pub proof fn lemma_zwsp_insertion(f: Font, cs: Seq<char>, p: int, mw: int)
    requires
        f.wf(),
        f.kerns@.len() == 0,
        f.spec_advance(ZWSP) == 0,
        0 <= p <= cs.len(),
        forall|j: int| 0 <= j < cs.len() ==> cs[j] != '\n' && cs[j] != '\r',
        spec_advance_sum(f, cs, cs.len() as int) <= mw,
    ensures
        spec_layout(f, cs.insert(p, ZWSP), mw) =~= spec_layout(f, cs, mw),
{
    let cs2 = cs.insert(p, ZWSP);
    assert forall|j: int| 0 <= j < cs2.len() implies cs2[j] != '\n' && cs2[j] != '\r' by {
        if j < p {
            assert(cs2[j] == cs[j]);
        } else if j == p {
            assert(cs2[j] == ZWSP);
        } else {
            assert(cs2[j] == cs[j - 1]);
        }
    }
    lemma_advance_sum_insert(f, cs, p, cs2.len() as int);
    lemma_zwsp_zero_width(f, cs, mw);
    lemma_zwsp_zero_width(f, cs2, mw);
    lemma_plain_glyphs_insert(f, cs, p, 0);
}

/// The largest magnitude of a glyph raster's position.
pub const GLYPH_OFF_MAX: i64 = 0x2000_0000;

/// The coverage raster of one glyph outline: its top-left corner in pixel
/// coordinates, its size, and one coverage byte per pixel in row-major
/// order. The font's outline rasterizer produces these for the placed
/// glyphs; glyphs without a visible outline produce none.
pub struct GlyphRaster {
    pub min_x: i64,
    pub min_y: i64,
    pub width: usize,
    pub height: usize,
    pub coverage: Vec<u8>,
}

impl GlyphRaster {
    /// The raster carries one byte per pixel and stays within the
    /// coordinate range the compositor accepts.
    pub open spec fn wf(self) -> bool {
        &&& self.coverage@.len() == self.width * self.height
        &&& self.width <= DIM_MAX
        &&& self.height <= DIM_MAX
        &&& -GLYPH_OFF_MAX <= self.min_x <= GLYPH_OFF_MAX
        &&& -GLYPH_OFF_MAX <= self.min_y <= GLYPH_OFF_MAX
    }
}

/// The leftmost pixel column any of the rasters touches.
pub open spec fn spec_rasters_min_x(rs: Seq<GlyphRaster>) -> int
    decreases rs.len(),
{
    if rs.len() == 0 {
        0
    } else if rs.len() == 1 {
        rs.last().min_x as int
    } else {
        let m = spec_rasters_min_x(rs.drop_last());
        if rs.last().min_x < m {
            rs.last().min_x as int
        } else {
            m
        }
    }
}

/// The topmost pixel row any of the rasters touches.
pub open spec fn spec_rasters_min_y(rs: Seq<GlyphRaster>) -> int
    decreases rs.len(),
{
    if rs.len() == 0 {
        0
    } else if rs.len() == 1 {
        rs.last().min_y as int
    } else {
        let m = spec_rasters_min_y(rs.drop_last());
        if rs.last().min_y < m {
            rs.last().min_y as int
        } else {
            m
        }
    }
}

/// One past the rightmost pixel column any of the rasters touches.
pub open spec fn spec_rasters_max_x(rs: Seq<GlyphRaster>) -> int
    decreases rs.len(),
{
    if rs.len() == 0 {
        0
    } else if rs.len() == 1 {
        rs.last().min_x + rs.last().width
    } else {
        let m = spec_rasters_max_x(rs.drop_last());
        if rs.last().min_x + rs.last().width > m {
            rs.last().min_x + rs.last().width
        } else {
            m
        }
    }
}

/// One past the bottommost pixel row any of the rasters touches.
pub open spec fn spec_rasters_max_y(rs: Seq<GlyphRaster>) -> int
    decreases rs.len(),
{
    if rs.len() == 0 {
        0
    } else if rs.len() == 1 {
        rs.last().min_y + rs.last().height
    } else {
        let m = spec_rasters_max_y(rs.drop_last());
        if rs.last().min_y + rs.last().height > m {
            rs.last().min_y + rs.last().height
        } else {
            m
        }
    }
}

/// What the text surface shows at `(x, y)`, relative to the union bounds
/// origin `(minx, miny)`: the color pre-multiplied by the last raster's
/// coverage at that pixel, for the last raster whose box covers it, and
/// transparent where no raster's box reaches.
pub open spec fn spec_compose_px(
    rs: Seq<GlyphRaster>,
    color: Rgb,
    minx: int,
    miny: int,
    x: int,
    y: int,
) -> Pixel
    decreases rs.len(),
{
    if rs.len() == 0 {
        Pixel::spec_transparent()
    } else {
        let g = rs.last();
        let ox = g.min_x - minx;
        let oy = g.min_y - miny;
        if ox <= x < ox + g.width && oy <= y < oy + g.height {
            spec_premultiply(color, g.coverage@[(y - oy) * g.width + (x - ox)])
        } else {
            spec_compose_px(rs.drop_last(), color, minx, miny, x, y)
        }
    }
}

/// Every raster lies within the union bounds.
pub proof fn lemma_rasters_bounds(rs: Seq<GlyphRaster>, k: int)
    requires
        0 <= k < rs.len(),
    ensures
        spec_rasters_min_x(rs) <= rs[k].min_x,
        spec_rasters_min_y(rs) <= rs[k].min_y,
        rs[k].min_x + rs[k].width <= spec_rasters_max_x(rs),
        rs[k].min_y + rs[k].height <= spec_rasters_max_y(rs),
    decreases rs.len(),
{
    if rs.len() > 1 && k < rs.len() - 1 {
        lemma_rasters_bounds(rs.drop_last(), k);
        assert(rs.drop_last()[k] == rs[k]);
    }
}

impl<'a> Renderer<'a> {
    /// Composites coverage rasters into the final text surface.
    ///
    /// The caller rasterizes each placed glyph's outline into a
    /// [`GlyphRaster`]; this computes the union of their bounds, allocates
    /// a surface of exactly that size, and stamps every raster in order,
    /// each pixel holding the text color pre-multiplied by the coverage.
    /// No rasters produce a zero-area surface.
    pub fn finish(self, rasters: &Vec<GlyphRaster>) -> (s: Surface)
        requires
            forall|k: int| 0 <= k < rasters@.len() ==> (#[trigger] rasters@[k]).wf(),
            spec_rasters_max_x(rasters@) - spec_rasters_min_x(rasters@) <= DIM_MAX,
            spec_rasters_max_y(rasters@) - spec_rasters_min_y(rasters@) <= DIM_MAX,
        ensures
            s.wf(),
            rasters@.len() == 0 ==> s.width == 0 && s.height == 0,
            rasters@.len() > 0 ==> s.width == spec_rasters_max_x(rasters@) - spec_rasters_min_x(
                rasters@,
            ) && s.height == spec_rasters_max_y(rasters@) - spec_rasters_min_y(rasters@),
            forall|x: int, y: int|
                s.in_bounds(x, y) ==> s.pix(x, y) == spec_compose_px(
                    rasters@,
                    self.color,
                    spec_rasters_min_x(rasters@),
                    spec_rasters_min_y(rasters@),
                    x,
                    y,
                ),
    {
        let n = rasters.len();
        if n == 0 {
            return Surface::new(0, 0);
        }
        let mut min_x: i64 = rasters[0].min_x;
        let mut min_y: i64 = rasters[0].min_y;
        let mut max_x: i64 = rasters[0].min_x + rasters[0].width as i64;
        let mut max_y: i64 = rasters[0].min_y + rasters[0].height as i64;
        proof {
            assert(rasters@.take(1).drop_last() =~= rasters@.take(0));
            assert(rasters@.take(1).last() == rasters@[0]);
        }
        let mut k: usize = 1;
        while k < n
            invariant
                n == rasters@.len(),
                1 <= k <= n,
                forall|j: int| 0 <= j < rasters@.len() ==> (#[trigger] rasters@[j]).wf(),
                min_x as int == spec_rasters_min_x(rasters@.take(k as int)),
                min_y as int == spec_rasters_min_y(rasters@.take(k as int)),
                max_x as int == spec_rasters_max_x(rasters@.take(k as int)),
                max_y as int == spec_rasters_max_y(rasters@.take(k as int)),
                -GLYPH_OFF_MAX <= min_x <= GLYPH_OFF_MAX,
                -GLYPH_OFF_MAX <= min_y <= GLYPH_OFF_MAX,
                -GLYPH_OFF_MAX <= max_x <= 2 * GLYPH_OFF_MAX,
                -GLYPH_OFF_MAX <= max_y <= 2 * GLYPH_OFF_MAX,
            decreases n - k,
        {
            proof {
                assert(rasters@.take(k as int + 1).drop_last() =~= rasters@.take(k as int));
                assert(rasters@.take(k as int + 1).last() == rasters@[k as int]);
            }
            let g_min_x = rasters[k].min_x;
            let g_min_y = rasters[k].min_y;
            let g_max_x = rasters[k].min_x + rasters[k].width as i64;
            let g_max_y = rasters[k].min_y + rasters[k].height as i64;
            if g_min_x < min_x {
                min_x = g_min_x;
            }
            if g_min_y < min_y {
                min_y = g_min_y;
            }
            if g_max_x > max_x {
                max_x = g_max_x;
            }
            if g_max_y > max_y {
                max_y = g_max_y;
            }
            k += 1;
        }
        proof {
            assert(rasters@.take(n as int) =~= rasters@);
        }
        let w: usize = (max_x - min_x) as usize;
        let h: usize = (max_y - min_y) as usize;
        proof {
            lemma_rasters_bounds(rasters@, 0);
            assert(spec_rasters_min_x(rasters@) <= rasters@[0].min_x);
            assert(rasters@[0].min_x <= rasters@[0].min_x + rasters@[0].width);
        }
        let mut s = Surface::new(w, h);
        proof {
            assert(rasters@.take(0) =~= Seq::<GlyphRaster>::empty());
        }
        let mut k2: usize = 0;
        while k2 < n
            invariant
                n == rasters@.len(),
                k2 <= n,
                forall|j: int| 0 <= j < rasters@.len() ==> (#[trigger] rasters@[j]).wf(),
                min_x as int == spec_rasters_min_x(rasters@),
                min_y as int == spec_rasters_min_y(rasters@),
                -GLYPH_OFF_MAX <= min_x <= GLYPH_OFF_MAX,
                -GLYPH_OFF_MAX <= min_y <= GLYPH_OFF_MAX,
                s.wf(),
                s.width == w,
                s.height == h,
                forall|x: int, y: int|
                    s.in_bounds(x, y) ==> s.pix(x, y) == spec_compose_px(
                        rasters@.take(k2 as int),
                        self.color,
                        min_x as int,
                        min_y as int,
                        x,
                        y,
                    ),
            decreases n - k2,
        {
            let ghost sprev = s;
            let ox: i64 = rasters[k2].min_x - min_x;
            let oy: i64 = rasters[k2].min_y - min_y;
            s.stamp_mask(
                &rasters[k2].coverage,
                rasters[k2].width,
                rasters[k2].height,
                ox,
                oy,
                self.color,
            );
            proof {
                assert(rasters@.take(k2 as int + 1).drop_last() =~= rasters@.take(k2 as int));
                assert(rasters@.take(k2 as int + 1).last() == rasters@[k2 as int]);
                assert forall|x: int, y: int| s.in_bounds(x, y) implies s.pix(x, y)
                    == spec_compose_px(
                    rasters@.take(k2 as int + 1),
                    self.color,
                    min_x as int,
                    min_y as int,
                    x,
                    y,
                ) by {
                    assert(s.pix(x, y) == Surface::spec_stamp_pix(
                        sprev,
                        rasters@[k2 as int].coverage@,
                        rasters@[k2 as int].width as int,
                        rasters@[k2 as int].height as int,
                        ox as int,
                        oy as int,
                        self.color,
                        x,
                        y,
                    ));
                }
            }
            k2 += 1;
        }
        proof {
            assert(rasters@.take(n as int) =~= rasters@);
        }
        s
    }
}

} // verus!
