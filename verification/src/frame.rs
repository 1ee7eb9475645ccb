//! Two-plane grayscale framebuffer.
//!
//! A pixel's 2-bit gray level `g` in `0..=3` (0 = darkest, 3 = lightest) is
//! stored as one bit in each of two packed planes: the high plane holds
//! `g / 2`, the low plane holds `g % 2`, so the level is reconstructed as
//! `high_bit * 2 + low_bit`. Each plane is row-major, 8 pixels per byte,
//! most significant bit first, rows padded to a whole byte.

use vstd::prelude::*;

verus! {

/// True iff bit `s` (counting from the least significant bit) of `b` is set.
pub open spec fn byte_bit(b: u8, s: u8) -> bool {
    (b >> s) & 1u8 == 1u8
}

/// Number of storage bytes per row of `width` pixels, 8 pixels per byte,
/// rounded up to a whole byte.
pub open spec fn row_bytes(width: int) -> int {
    (width + 7) / 8
}

/// The bit of a packed plane `p` (with `bpr` bytes per row) that backs the
/// pixel at column `x`, row `y`; most significant bit first within a byte.
pub open spec fn plane_bit(p: Seq<u8>, bpr: int, x: int, y: int) -> bool {
    byte_bit(p[y * bpr + x / 8], (7 - (x % 8)) as u8)
}

/// Fixed-size dual-plane framebuffer for a 2-bit grayscale panel.
pub struct GrayFrame {
    pub width: usize,
    pub height: usize,
    pub high: Vec<u8>,
    pub low: Vec<u8>,
}

impl GrayFrame {
    /// Storage bytes per row of this buffer.
    pub open spec fn bpr(self) -> int {
        row_bytes(self.width as int)
    }

    /// Well-formed: both planes hold exactly one padded row per pixel row,
    /// and the dimensions are small enough that all index arithmetic fits.
    pub open spec fn wf(self) -> bool {
        &&& 1 <= self.width <= 32768
        &&& 1 <= self.height <= 32768
        &&& self.high.len() == self.bpr() * self.height
        &&& self.low.len() == self.bpr() * self.height
    }

    /// The coordinate pair lies inside the buffer.
    pub open spec fn in_bounds(self, x: int, y: int) -> bool {
        0 <= x < self.width && 0 <= y < self.height
    }

    /// The gray level stored at `(x, y)`, reconstructed from the two planes.
    pub open spec fn pix(self, x: int, y: int) -> int {
        (if plane_bit(self.high@, self.bpr(), x, y) { 2int } else { 0int })
            + (if plane_bit(self.low@, self.bpr(), x, y) { 1int } else { 0int })
    }

    /// The two buffers have the same dimensions.
    pub open spec fn same_dims(self, other: GrayFrame) -> bool {
        self.width == other.width && self.height == other.height
    }
}

/// Effect of one pixel write: `post` is `pre` with the pixel at `(x, y)` set
/// to `level` and every other in-bounds pixel unchanged.
pub open spec fn pixel_written(pre: GrayFrame, post: GrayFrame, x: int, y: int, level: int) -> bool {
    &&& post.wf()
    &&& pre.same_dims(post)
    &&& post.pix(x, y) == level
    &&& forall|x2: int, y2: int|
        pre.in_bounds(x2, y2) && !(x2 == x && y2 == y) ==> post.pix(x2, y2) == pre.pix(x2, y2)
}

/// The point `(x, y)` lies inside the (unclipped) rectangle with corner
/// `(x0, y0)` and size `w x h`.
pub open spec fn rect_covers(x0: int, y0: int, w: int, h: int, x: int, y: int) -> bool {
    x0 <= x < x0 + w && y0 <= y < y0 + h
}

/// Effect of one rectangle fill: `post` is `pre` with every in-bounds pixel
/// of the rectangle at `level` and every other in-bounds pixel unchanged.
pub open spec fn rect_filled(
    pre: GrayFrame,
    post: GrayFrame,
    x0: int,
    y0: int,
    w: int,
    h: int,
    level: int,
) -> bool {
    &&& post.wf()
    &&& pre.same_dims(post)
    &&& forall|x: int, y: int|
        pre.in_bounds(x, y) ==> post.pix(x, y) == (if rect_covers(x0, y0, w, h, x, y) {
            level
        } else {
            pre.pix(x, y)
        })
    &&& (forall|x: int, y: int| pre.in_bounds(x, y) ==> !rect_covers(x0, y0, w, h, x, y))
        ==> (post.high@ == pre.high@ && post.low@ == pre.low@)
}

/// The point `(x, y)` receives ink from the glyph for `c` whose cell has its
/// top-left corner at `(gx, gy)`.
pub open spec fn glyph_covers(c: u8, gx: int, gy: int, x: int, y: int) -> bool {
    gx <= x < gx + 8 && gy <= y < gy + 8 && crate::font::glyph_bit(c, x - gx, y - gy)
}

/// The point `(x, y)` receives ink from one of the first `n` glyphs of the
/// run `t` whose first cell has its top-left corner at `(ox, oy)`; cells
/// advance 8 pixels to the right per glyph.
pub open spec fn run_covers_prefix(t: Seq<u8>, ox: int, oy: int, n: int, x: int, y: int) -> bool {
    exists|j: int|
        0 <= j < n && j < t.len() && glyph_covers(t[j], ox + 8 * j, oy, x, y)
}

/// The point `(x, y)` receives ink from some glyph of the run `t`.
pub open spec fn run_covers(t: Seq<u8>, ox: int, oy: int, x: int, y: int) -> bool {
    run_covers_prefix(t, ox, oy, t.len() as int, x, y)
}

/// Effect of one glyph run: every in-bounds pixel under the run's ink is at
/// `level`, every other in-bounds pixel is unchanged.
pub open spec fn glyphs_drawn(
    pre: GrayFrame,
    post: GrayFrame,
    t: Seq<u8>,
    ox: int,
    oy: int,
    level: int,
) -> bool {
    &&& post.wf()
    &&& pre.same_dims(post)
    &&& forall|x: int, y: int|
        pre.in_bounds(x, y) ==> post.pix(x, y) == (if run_covers(t, ox, oy, x, y) {
            level
        } else {
            pre.pix(x, y)
        })
    &&& (forall|x: int, y: int| pre.in_bounds(x, y) ==> !run_covers(t, ox, oy, x, y)) ==> (
        post.high@ == pre.high@ && post.low@ == pre.low@)
}

/// Number of whole rows held by the 1-bit-per-pixel source bitmap `d` of
/// width `w`, rows padded to a whole byte; a trailing partial row is ignored.
pub open spec fn src_rows(d: Seq<u8>, w: int) -> int {
    (d.len() as int) / row_bytes(w)
}

/// The point `(x, y)` is a set bit of the 1-bit-per-pixel source bitmap `d`
/// of width `w` placed with its top-left corner at `(ox, oy)`.
pub open spec fn blit_covers(d: Seq<u8>, w: int, ox: int, oy: int, x: int, y: int) -> bool {
    &&& 0 <= x - ox < w
    &&& 0 <= y - oy < src_rows(d, w)
    &&& plane_bit(d, row_bytes(w), x - ox, y - oy)
}

/// Effect of one bitmap blit: an overlay that darkens. Set source bits clear
/// the high-plane bit of the pixel they land on; clear source bits touch
/// nothing, and the low plane is never touched.
pub open spec fn bitmap_blitted(
    pre: GrayFrame,
    post: GrayFrame,
    d: Seq<u8>,
    w: int,
    ox: int,
    oy: int,
) -> bool {
    &&& post.wf()
    &&& pre.same_dims(post)
    &&& post.low@ == pre.low@
    &&& forall|x: int, y: int|
        pre.in_bounds(x, y) ==> plane_bit(post.high@, post.bpr(), x, y) == (if blit_covers(
            d,
            w,
            ox,
            oy,
            x,
            y,
        ) {
            false
        } else {
            plane_bit(pre.high@, pre.bpr(), x, y)
        })
    &&& (forall|x: int, y: int| pre.in_bounds(x, y) ==> !blit_covers(d, w, ox, oy, x, y)) ==> (
        post.high@ == pre.high@)
}

/// The blit has painted every covered point up to source row `sy`, and within
/// that row up to source column `sx`.
pub open spec fn blit_covers_before(
    d: Seq<u8>,
    w: int,
    ox: int,
    oy: int,
    sy: int,
    sx: int,
    x: int,
    y: int,
) -> bool {
    blit_covers(d, w, ox, oy, x, y) && (y - oy < sy || (y - oy == sy && x - ox < sx))
}

/// Setting or clearing one bit of a byte changes that bit and no other.
proof fn lemma_byte_bit_write(b: u8, s: u8, t: u8, v: bool)
    requires
        s < 8,
        t < 8,
    ensures
        byte_bit(if v { b | (1u8 << s) } else { b & !(1u8 << s) }, s) == v,
        s != t ==> byte_bit(if v { b | (1u8 << s) } else { b & !(1u8 << s) }, t) == byte_bit(b, t),
{
    assert(byte_bit(b | (1u8 << s), s) == true && (s != t ==> byte_bit(b | (1u8 << s), t)
        == byte_bit(b, t))) by (bit_vector)
        requires
            s < 8,
            t < 8,
    ;
    assert(byte_bit(b & !(1u8 << s), s) == false && (s != t ==> byte_bit(b & !(1u8 << s), t)
        == byte_bit(b, t))) by (bit_vector)
        requires
            s < 8,
            t < 8,
    ;
}

/// Two in-row pixel addresses that share a byte index and a bit position are
/// the same pixel.
proof fn lemma_addr_injective(bpr: int, x1: int, y1: int, x2: int, y2: int)
    requires
        0 < bpr,
        0 <= x1,
        0 <= x2,
        0 <= y1,
        0 <= y2,
        x1 / 8 < bpr,
        x2 / 8 < bpr,
        y1 * bpr + x1 / 8 == y2 * bpr + x2 / 8,
        x1 % 8 == x2 % 8,
    ensures
        x1 == x2 && y1 == y2,
{
    assert(y1 == y2) by (nonlinear_arith)
        requires
            0 < bpr,
            0 <= x1 / 8 < bpr,
            0 <= x2 / 8 < bpr,
            y1 * bpr + x1 / 8 == y2 * bpr + x2 / 8,
    ;
    assert(x1 == x1 / 8 * 8 + x1 % 8) by (nonlinear_arith);
    assert(x2 == x2 / 8 * 8 + x2 % 8) by (nonlinear_arith);
}

/// An in-bounds pixel address stays inside a plane of `bpr * height` bytes.
proof fn lemma_idx_bounds(bpr: int, width: int, height: int, x: int, y: int)
    requires
        bpr == row_bytes(width),
        0 <= x < width,
        0 <= y < height,
    ensures
        0 <= x / 8 < bpr,
        0 <= y * bpr + x / 8,
        y * bpr + x / 8 < (y + 1) * bpr,
        (y + 1) * bpr <= bpr * height,
{
    assert(x / 8 < bpr && 0 <= x / 8) by (nonlinear_arith)
        requires
            bpr == (width + 7) / 8,
            0 <= x < width,
    ;
    assert(0 <= y * bpr + x / 8 && y * bpr + x / 8 < (y + 1) * bpr && (y + 1) * bpr <= bpr
        * height) by (nonlinear_arith)
        requires
            0 < bpr,
            0 <= x / 8 < bpr,
            0 <= y < height,
    ;
}

/// Writes the single plane bit that backs pixel `(x, y)`; every other pixel's
/// bit, and the plane's length, are untouched.
fn plane_set_bit(p: &mut Vec<u8>, bpr: usize, x: usize, y: usize, v: bool)
    requires
        0 < bpr,
        x / 8 < bpr,
        (y + 1) * bpr <= old(p).len(),
    ensures
        final(p).len() == old(p).len(),
        plane_bit(final(p)@, bpr as int, x as int, y as int) == v,
        forall|x2: int, y2: int|
            0 <= x2 && 0 <= y2 && x2 / 8 < bpr && (y2 + 1) * bpr <= old(p).len() && !(x2 == x
                && y2 == y) ==> plane_bit(final(p)@, bpr as int, x2, y2) == plane_bit(
                old(p)@,
                bpr as int,
                x2,
                y2,
            ),
{
    proof {
        assert(y * bpr + x / 8 < (y + 1) * bpr && (y + 1) * bpr == y * bpr + bpr)
            by (nonlinear_arith)
            requires
                0 < bpr,
                x / 8 < bpr,
        ;
    }
    let idx: usize = y * bpr + x / 8;
    let s: u8 = 7 - (x % 8) as u8;
    let b: u8 = p[idx];
    let nb: u8 = if v {
        b | (1u8 << s)
    } else {
        b & !(1u8 << s)
    };
    p.set(idx, nb);
    proof {
        assert forall|x2: int, y2: int|
            0 <= x2 && 0 <= y2 && x2 / 8 < bpr && (y2 + 1) * bpr <= old(p).len() && !(x2 == x
                && y2 == y) implies plane_bit(p@, bpr as int, x2, y2) == plane_bit(
            old(p)@,
            bpr as int,
            x2,
            y2,
        ) by {
            assert(y2 * bpr + x2 / 8 < (y2 + 1) * bpr && (y2 + 1) * bpr == y2 * bpr + bpr)
                by (nonlinear_arith)
                requires
                    0 < bpr,
                    x2 / 8 < bpr,
                    0 <= y2,
            ;
            let t: u8 = (7 - (x2 % 8)) as u8;
            if y2 * bpr + x2 / 8 == idx {
                if x2 % 8 == x % 8 {
                    lemma_addr_injective(bpr as int, x as int, y as int, x2, y2);
                    assert(false);
                } else {
                    assert(t != s);
                    lemma_byte_bit_write(b, s, t, v);
                }
            } else {
                assert(p@[y2 * bpr + x2 / 8] == old(p)@[y2 * bpr + x2 / 8]);
            }
        }
        lemma_byte_bit_write(b, s, s, v);
    }
}

impl GrayFrame {
    /// A fresh buffer with every pixel at the lightest (blank) level 3:
    /// both planes are filled with set bits.
    pub fn new(width: usize, height: usize) -> (fb: GrayFrame)
        requires
            1 <= width <= 32768,
            1 <= height <= 32768,
        ensures
            fb.wf(),
            fb.width == width,
            fb.height == height,
            forall|x: int, y: int| fb.in_bounds(x, y) ==> fb.pix(x, y) == 3,
    {
        let bpr: usize = (width + 7) / 8;
        proof {
            assert(bpr * height <= 4096 * 32768) by (nonlinear_arith)
                requires
                    0 < bpr <= 4096,
                    0 < height <= 32768,
            ;
        }
        let n: usize = bpr * height;
        let mut high: Vec<u8> = Vec::new();
        while high.len() < n
            invariant
                high.len() <= n,
                forall|i: int| 0 <= i < high.len() ==> high@[i] == 0xFFu8,
            decreases n - high.len(),
        {
            high.push(0xFFu8);
        }
        let mut low: Vec<u8> = Vec::new();
        while low.len() < n
            invariant
                low.len() <= n,
                forall|i: int| 0 <= i < low.len() ==> low@[i] == 0xFFu8,
            decreases n - low.len(),
        {
            low.push(0xFFu8);
        }
        let fb = GrayFrame { width, height, high, low };
        proof {
            assert forall|x: int, y: int| fb.in_bounds(x, y) implies fb.pix(x, y) == 3 by {
                lemma_idx_bounds(fb.bpr(), width as int, height as int, x, y);
                let t: u8 = (7 - (x % 8)) as u8;
                assert(byte_bit(0xFFu8, t)) by (bit_vector)
                    requires
                        t < 8,
                ;
            }
        }
        fb
    }

    /// Sets the pixel at in-bounds `(x, y)` to gray level `level`, leaving
    /// every other pixel at its old level.
    pub fn set_pixel(&mut self, x: usize, y: usize, level: u8)
        requires
            old(self).wf(),
            x < old(self).width,
            y < old(self).height,
            level < 4,
        ensures
            pixel_written(*old(self), *final(self), x as int, y as int, level as int),
    {
        let bpr: usize = (self.width + 7) / 8;
        proof {
            lemma_idx_bounds(
                bpr as int,
                self.width as int,
                self.height as int,
                x as int,
                y as int,
            );
        }
        plane_set_bit(&mut self.high, bpr, x, y, level >= 2);
        plane_set_bit(&mut self.low, bpr, x, y, level % 2 == 1);
        proof {
            assert forall|x2: int, y2: int|
                old(self).in_bounds(x2, y2) && !(x2 == x && y2 == y) implies self.pix(x2, y2)
                == old(self).pix(x2, y2) by {
                lemma_idx_bounds(bpr as int, self.width as int, self.height as int, x2, y2);
            }
        }
    }

    /// Reads back the gray level of the pixel at in-bounds `(x, y)`.
    pub fn get_pixel(&self, x: usize, y: usize) -> (level: u8)
        requires
            self.wf(),
            x < self.width,
            y < self.height,
        ensures
            level as int == self.pix(x as int, y as int),
            level < 4,
    {
        let bpr: usize = (self.width + 7) / 8;
        proof {
            lemma_idx_bounds(
                bpr as int,
                self.width as int,
                self.height as int,
                x as int,
                y as int,
            );
            assert(y * bpr + x / 8 < (y + 1) * bpr) by (nonlinear_arith)
                requires
                    0 < bpr,
                    x / 8 < bpr,
            ;
        }
        let idx: usize = y * bpr + x / 8;
        let s: u8 = 7 - (x % 8) as u8;
        let hb: u8 = (self.high[idx] >> s) & 1u8;
        let lb: u8 = (self.low[idx] >> s) & 1u8;
        proof {
            let b: u8 = self.high@[idx as int];
            let c: u8 = self.low@[idx as int];
            assert((b >> s) & 1u8 <= 1 && (c >> s) & 1u8 <= 1) by (bit_vector);
        }
        hb * 2 + lb
    }

    /// Sets every pixel of the rectangle with corner `(x0, y0)` and size
    /// `w x h`, clipped to the buffer, to `level`; other pixels keep their
    /// old level. Rectangles partly or fully outside the buffer never panic.
    pub fn fill_rectangle(&mut self, x0: i32, y0: i32, w: u32, h: u32, level: u8)
        requires
            old(self).wf(),
            level < 4,
        ensures
            rect_filled(*old(self), *final(self), x0 as int, y0 as int, w as int, h as int, level as int),
    {
        let xs: i64 = if x0 < 0 { 0 } else { x0 as i64 };
        let ys: i64 = if y0 < 0 { 0 } else { y0 as i64 };
        let mut xe: i64 = x0 as i64 + w as i64;
        let mut ye: i64 = y0 as i64 + h as i64;
        if xe > self.width as i64 {
            xe = self.width as i64;
        }
        if ye > self.height as i64 {
            ye = self.height as i64;
        }
        if xs >= xe || ys >= ye {
            return ;
        }
        let xs_u: usize = xs as usize;
        let xe_u: usize = xe as usize;
        let ye_u: usize = ye as usize;
        let mut yy: usize = ys as usize;
        while yy < ye_u
            invariant
                self.wf(),
                old(self).same_dims(*self),
                level < 4,
                xs_u == xs,
                xe_u == xe,
                ye_u == ye,
                0 <= xs < xe <= self.width,
                0 <= ys <= yy <= ye <= self.height,
                xs == x0 || xs == 0,
                xe == x0 + w || xe == self.width,
                ys == y0 || ys == 0,
                ye == y0 + h || ye == self.height,
                x0 <= xs,
                xe <= x0 + w,
                y0 <= ys,
                ye <= y0 + h,
                forall|px: int, py: int|
                    old(self).in_bounds(px, py) ==> self.pix(px, py) == (if rect_covers(
                        x0 as int,
                        y0 as int,
                        w as int,
                        h as int,
                        px,
                        py,
                    ) && py < yy {
                        level as int
                    } else {
                        old(self).pix(px, py)
                    }),
            decreases ye_u - yy,
        {
            let mut xx: usize = xs_u;
            while xx < xe_u
                invariant
                    self.wf(),
                    old(self).same_dims(*self),
                    level < 4,
                    xs_u == xs,
                    xe_u == xe,
                    ye_u == ye,
                    0 <= xs <= xx <= xe <= self.width,
                    0 <= ys <= yy < ye <= self.height,
                    xs == x0 || xs == 0,
                    xe == x0 + w || xe == self.width,
                    ys == y0 || ys == 0,
                    ye == y0 + h || ye == self.height,
                    x0 <= xs,
                    xe <= x0 + w,
                    y0 <= ys,
                    ye <= y0 + h,
                    forall|px: int, py: int|
                        old(self).in_bounds(px, py) ==> self.pix(px, py) == (if rect_covers(
                            x0 as int,
                            y0 as int,
                            w as int,
                            h as int,
                            px,
                            py,
                        ) && (py < yy || (py == yy && px < xx)) {
                            level as int
                        } else {
                            old(self).pix(px, py)
                        }),
                decreases xe_u - xx,
            {
                self.set_pixel(xx, yy, level);
                xx += 1;
            }
            yy += 1;
        }
        proof {
            assert(old(self).in_bounds(xs as int, ys as int));
            assert(rect_covers(x0 as int, y0 as int, w as int, h as int, xs as int, ys as int));
        }
    }

    /// Rasterizes one glyph cell with its top-left corner at `(gx, gy)`,
    /// painting inked pixels at `level` and clipping at the buffer edge.
    fn draw_glyph(&mut self, c: u8, gx: i64, gy: i64, level: u8)
        requires
            old(self).wf(),
            level < 4,
            -0x8000_0000 <= gx <= 0x1_0000_0000,
            -0x8000_0000 <= gy <= 0x1_0000_0000,
        ensures
            final(self).wf(),
            old(self).same_dims(*final(self)),
            forall|x: int, y: int|
                old(self).in_bounds(x, y) ==> final(self).pix(x, y) == (if glyph_covers(
                    c,
                    gx as int,
                    gy as int,
                    x,
                    y,
                ) {
                    level as int
                } else {
                    old(self).pix(x, y)
                }),
            (forall|x: int, y: int|
                old(self).in_bounds(x, y) ==> !glyph_covers(c, gx as int, gy as int, x, y)) ==> (
            final(self).high@ == old(self).high@ && final(self).low@ == old(self).low@),
    {
        let g: u64 = crate::font::glyph(c);
        let mut row: usize = 0;
        while row < 8
            invariant
                self.wf(),
                old(self).same_dims(*self),
                level < 4,
                g == crate::font::glyph_spec(c),
                row <= 8,
                -0x8000_0000 <= gx <= 0x1_0000_0000,
                -0x8000_0000 <= gy <= 0x1_0000_0000,
                forall|px: int, py: int|
                    old(self).in_bounds(px, py) ==> self.pix(px, py) == (if glyph_covers(
                        c,
                        gx as int,
                        gy as int,
                        px,
                        py,
                    ) && py - gy < row {
                        level as int
                    } else {
                        old(self).pix(px, py)
                    }),
                (forall|px: int, py: int|
                    old(self).in_bounds(px, py) ==> !glyph_covers(c, gx as int, gy as int, px, py))
                    ==> (self.high@ == old(self).high@ && self.low@ == old(self).low@),
            decreases 8 - row,
        {
            let mut col: usize = 0;
            while col < 8
                invariant
                    self.wf(),
                    old(self).same_dims(*self),
                    level < 4,
                    g == crate::font::glyph_spec(c),
                    row < 8,
                    col <= 8,
                    -0x8000_0000 <= gx <= 0x1_0000_0000,
                    -0x8000_0000 <= gy <= 0x1_0000_0000,
                    forall|px: int, py: int|
                        old(self).in_bounds(px, py) ==> self.pix(px, py) == (if glyph_covers(
                            c,
                            gx as int,
                            gy as int,
                            px,
                            py,
                        ) && (py - gy < row || (py - gy == row && px - gx < col)) {
                            level as int
                        } else {
                            old(self).pix(px, py)
                        }),
                    (forall|px: int, py: int|
                        old(self).in_bounds(px, py) ==> !glyph_covers(
                            c,
                            gx as int,
                            gy as int,
                            px,
                            py,
                        )) ==> (self.high@ == old(self).high@ && self.low@ == old(self).low@),
                decreases 8 - col,
            {
                let sh: u64 = (row * 8 + col) as u64;
                if (g >> sh) & 1u64 == 1u64 {
                    let tx: i64 = gx + col as i64;
                    let ty: i64 = gy + row as i64;
                    if 0 <= tx && tx < self.width as i64 && 0 <= ty && ty < self.height as i64 {
                        self.set_pixel(tx as usize, ty as usize, level);
                        proof {
                            assert(crate::font::glyph_bit(c, col as int, row as int));
                            assert(glyph_covers(c, gx as int, gy as int, tx as int, ty as int));
                            assert(old(self).in_bounds(tx as int, ty as int));
                        }
                    }
                }
                col += 1;
            }
            row += 1;
        }
    }

    /// Rasterizes the byte string `text` in the fixed-width bitmap font,
    /// the first glyph cell at `(ox, oy)`, advancing 8 pixels per glyph and
    /// painting inked pixels at `level`; pixels outside the buffer are
    /// clipped, never a panic.
    pub fn draw_glyph_run(&mut self, text: &[u8], ox: i32, oy: i32, level: u8)
        requires
            old(self).wf(),
            level < 4,
        ensures
            glyphs_drawn(*old(self), *final(self), text@, ox as int, oy as int, level as int),
    {
        let mut i: usize = 0;
        let mut gx: i64 = ox as i64;
        while i < text.len() && gx < self.width as i64
            invariant
                self.wf(),
                old(self).same_dims(*self),
                level < 4,
                i <= text@.len(),
                gx == ox + 8 * i,
                i == 0 || gx < self.width + 8,
                forall|px: int, py: int|
                    old(self).in_bounds(px, py) ==> self.pix(px, py) == (if run_covers_prefix(
                        text@,
                        ox as int,
                        oy as int,
                        i as int,
                        px,
                        py,
                    ) {
                        level as int
                    } else {
                        old(self).pix(px, py)
                    }),
                (forall|px: int, py: int|
                    old(self).in_bounds(px, py) ==> !run_covers(
                        text@,
                        ox as int,
                        oy as int,
                        px,
                        py,
                    )) ==> (self.high@ == old(self).high@ && self.low@ == old(self).low@),
            decreases text@.len() - i,
        {
            let c: u8 = text[i];
            let prev = Ghost(*self);
            self.draw_glyph(c, gx, oy as i64, level);
            proof {
                assert forall|px: int, py: int| old(self).in_bounds(px, py) implies self.pix(px, py)
                    == (if run_covers_prefix(text@, ox as int, oy as int, i + 1, px, py) {
                    level as int
                } else {
                    old(self).pix(px, py)
                }) by {
                    if glyph_covers(c, gx as int, oy as int, px, py) {
                        assert(run_covers_prefix(text@, ox as int, oy as int, i + 1, px, py));
                    } else {
                        assert(self.pix(px, py) == prev@.pix(px, py));
                        if run_covers_prefix(text@, ox as int, oy as int, i + 1, px, py) {
                            let j = choose|j: int|
                                0 <= j < i + 1 && j < text@.len() && glyph_covers(
                                    text@[j],
                                    ox as int + 8 * j,
                                    oy as int,
                                    px,
                                    py,
                                );
                            assert(j < i ==> run_covers_prefix(
                                text@,
                                ox as int,
                                oy as int,
                                i as int,
                                px,
                                py,
                            ));
                        }
                    }
                }
                if (forall|px: int, py: int|
                    old(self).in_bounds(px, py) ==> !run_covers(
                        text@,
                        ox as int,
                        oy as int,
                        px,
                        py,
                    )) {
                    assert forall|px: int, py: int| prev@.in_bounds(px, py)
                        implies !glyph_covers(c, gx as int, oy as int, px, py) by {
                        assert(old(self).in_bounds(px, py));
                        if glyph_covers(c, gx as int, oy as int, px, py) {
                            assert(run_covers_prefix(
                                text@,
                                ox as int,
                                oy as int,
                                text@.len() as int,
                                px,
                                py,
                            ));
                        }
                    }
                    assert(forall|px: int, py: int|
                        prev@.in_bounds(px, py) ==> !glyph_covers(
                            c,
                            gx as int,
                            (oy as i64) as int,
                            px,
                            py,
                        ));
                    assert(self.high@ == prev@.high@ && self.low@ == prev@.low@);
                    assert(prev@.high@ == old(self).high@ && prev@.low@ == old(self).low@);
                }
            }
            i += 1;
            gx += 8;
        }
        proof {
            assert forall|px: int, py: int| old(self).in_bounds(px, py) implies (run_covers(
                text@,
                ox as int,
                oy as int,
                px,
                py,
            ) == run_covers_prefix(text@, ox as int, oy as int, i as int, px, py)) by {
                if run_covers(text@, ox as int, oy as int, px, py) {
                    let j = choose|j: int|
                        0 <= j < text@.len() && glyph_covers(
                            text@[j],
                            ox as int + 8 * j,
                            oy as int,
                            px,
                            py,
                        );
                    if j >= i {
                        assert(i < text@.len());
                        assert(gx >= self.width);
                        assert(ox as int + 8 * j >= gx);
                        assert(px >= self.width);
                        assert(false);
                    }
                }
            }
        }
    }

    /// Blits a two-tone (1-bit-per-pixel, rows byte-padded, most significant
    /// bit first) bitmap with its top-left corner at `(ox, oy)`. Set source
    /// bits darken the pixel they land on by clearing its high-plane bit;
    /// clear source bits leave the buffer alone (an overlay, not an opaque
    /// copy), and the low plane is never touched. Clipped at the buffer edge.
    pub fn blit_bitmap(&mut self, data: &[u8], src_w: u32, ox: i32, oy: i32)
        requires
            old(self).wf(),
            src_w <= 32768,
        ensures
            bitmap_blitted(
                *old(self),
                *final(self),
                data@,
                src_w as int,
                ox as int,
                oy as int,
            ),
    {
        if src_w == 0 {
            return ;
        }
        let sbpr: usize = (src_w as usize) / 8 + (if src_w % 8 != 0 {
            1
        } else {
            0
        });
        proof {
            assert(sbpr == row_bytes(src_w as int)) by (nonlinear_arith)
                requires
                    1 <= src_w <= 32768,
                    sbpr == (src_w as int) / 8 + (if (src_w as int) % 8 != 0 {
                        1int
                    } else {
                        0int
                    }),
            ;
        }
        let rows: usize = data.len() / sbpr;
        proof {
            vstd::arithmetic::div_mod::lemma_fundamental_div_mod(data@.len() as int, sbpr as int);
            vstd::arithmetic::div_mod::lemma_mod_bound(data@.len() as int, sbpr as int);
            assert(rows == src_rows(data@, src_w as int));
            assert(sbpr * rows <= data@.len());
        }
        let bpr: usize = (self.width + 7) / 8;
        let mut sy: usize = 0;
        while sy < rows && (oy as i64) + (sy as i64) < self.height as i64
            invariant
                self.wf(),
                old(self).same_dims(*self),
                self.low@ == old(self).low@,
                1 <= src_w <= 32768,
                sbpr == row_bytes(src_w as int),
                rows == src_rows(data@, src_w as int),
                sbpr * rows <= data@.len(),
                sbpr * rows <= usize::MAX,
                bpr == self.bpr(),
                sy <= rows,
                sy == 0 || oy + sy <= self.height,
                forall|x: int, y: int|
                    old(self).in_bounds(x, y) ==> plane_bit(self.high@, self.bpr(), x, y) == (
                    if blit_covers_before(
                        data@,
                        src_w as int,
                        ox as int,
                        oy as int,
                        sy as int,
                        0,
                        x,
                        y,
                    ) {
                        false
                    } else {
                        plane_bit(old(self).high@, old(self).bpr(), x, y)
                    }),
                (forall|x: int, y: int|
                    old(self).in_bounds(x, y) ==> !blit_covers(
                        data@,
                        src_w as int,
                        ox as int,
                        oy as int,
                        x,
                        y,
                    )) ==> self.high@ == old(self).high@,
            decreases rows - sy,
        {
            let ty: i64 = oy as i64 + sy as i64;
            let mut sx: usize = 0;
            while sx < src_w as usize && (ox as i64) + (sx as i64) < self.width as i64
                invariant
                    self.wf(),
                    old(self).same_dims(*self),
                    self.low@ == old(self).low@,
                    1 <= src_w <= 32768,
                    sbpr == row_bytes(src_w as int),
                    rows == src_rows(data@, src_w as int),
                    sbpr * rows <= data@.len(),
                    sbpr * rows <= usize::MAX,
                    bpr == self.bpr(),
                    sy < rows,
                    sx <= src_w,
                    ty == oy + sy,
                    ty < self.height,
                    forall|x: int, y: int|
                        old(self).in_bounds(x, y) ==> plane_bit(self.high@, self.bpr(), x, y) == (
                        if blit_covers_before(
                            data@,
                            src_w as int,
                            ox as int,
                            oy as int,
                            sy as int,
                            sx as int,
                            x,
                            y,
                        ) {
                            false
                        } else {
                            plane_bit(old(self).high@, old(self).bpr(), x, y)
                        }),
                    (forall|x: int, y: int|
                        old(self).in_bounds(x, y) ==> !blit_covers(
                            data@,
                            src_w as int,
                            ox as int,
                            oy as int,
                            x,
                            y,
                        )) ==> self.high@ == old(self).high@,
                decreases src_w - sx,
            {
                let tx: i64 = ox as i64 + sx as i64;
                proof {
                    lemma_idx_bounds(sbpr as int, src_w as int, rows as int, sx as int, sy as int);
                    assert((sy + 1) * sbpr == sy * sbpr + sbpr) by (nonlinear_arith);
                }
                let idx: usize = sy * sbpr + sx / 8;
                let s: u8 = 7 - (sx % 8) as u8;
                let bit_set: bool = (data[idx] >> s) & 1u8 == 1u8;
                if bit_set && tx >= 0 && ty >= 0 {
                    proof {
                        lemma_idx_bounds(
                            bpr as int,
                            self.width as int,
                            self.height as int,
                            tx as int,
                            ty as int,
                        );
                    }
                    let ghost prev = *self;
                    plane_set_bit(&mut self.high, bpr, tx as usize, ty as usize, false);
                    proof {
                        assert forall|x: int, y: int| old(self).in_bounds(x, y) && !(x == tx as int
                            && y == ty as int) implies plane_bit(self.high@, self.bpr(), x, y)
                            == plane_bit(prev.high@, prev.bpr(), x, y) by {
                            lemma_idx_bounds(
                                bpr as int,
                                self.width as int,
                                self.height as int,
                                x,
                                y,
                            );
                        }
                        assert(blit_covers(
                            data@,
                            src_w as int,
                            ox as int,
                            oy as int,
                            tx as int,
                            ty as int,
                        ));
                        assert(old(self).in_bounds(tx as int, ty as int));
                    }
                }
                sx += 1;
            }
            proof {
                assert forall|x: int, y: int| old(self).in_bounds(x, y) implies (
                blit_covers_before(
                    data@,
                    src_w as int,
                    ox as int,
                    oy as int,
                    sy as int,
                    sx as int,
                    x,
                    y,
                ) == blit_covers_before(
                    data@,
                    src_w as int,
                    ox as int,
                    oy as int,
                    sy + 1,
                    0,
                    x,
                    y,
                )) by {
                    if blit_covers(data@, src_w as int, ox as int, oy as int, x, y) && y - oy
                        == sy && x - ox >= sx {
                        assert(sx < src_w);
                        assert(ox + sx >= self.width);
                        assert(x >= self.width);
                    }
                }
            }
            sy += 1;
        }
        proof {
            assert forall|x: int, y: int| old(self).in_bounds(x, y) implies (blit_covers(
                data@,
                src_w as int,
                ox as int,
                oy as int,
                x,
                y,
            ) == blit_covers_before(
                data@,
                src_w as int,
                ox as int,
                oy as int,
                sy as int,
                0,
                x,
                y,
            )) by {
                if blit_covers(data@, src_w as int, ox as int, oy as int, x, y) && y - oy >= sy {
                    assert(sy < rows);
                    assert(oy + sy >= self.height);
                    assert(y >= self.height);
                }
            }
        }
    }

    /// Read-only access to the packed high plane, for transfer to the panel.
    pub fn high_buffer(&self) -> (r: &Vec<u8>)
        ensures
            r@ == self.high@,
    {
        &self.high
    }

    /// Read-only access to the packed low plane, for transfer to the panel.
    pub fn low_buffer(&self) -> (r: &Vec<u8>)
        ensures
            r@ == self.low@,
    {
        &self.low
    }
}

} // verus!
