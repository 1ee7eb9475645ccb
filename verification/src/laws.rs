//! Laws of the framebuffer, stated over the effect predicates that the
//! drawing primitives ensure.

use vstd::prelude::*;
use crate::frame::GrayFrame;
use crate::frame::pixel_written;
use crate::frame::rect_filled;
use crate::frame::rect_covers;
use crate::frame::glyphs_drawn;
use crate::frame::bitmap_blitted;
use crate::frame::src_rows;
use crate::line::line_drawn;
use crate::line::line_covers;
use crate::line::line_pts;
use crate::line::lemma_line_connected;
use crate::line::imin;
use crate::line::imax;

verus! {

/// Law: writing gray level `g` at an in-bounds pixel and reading that pixel
/// back through the two planes yields exactly `g`, for every `g` in `0..=3`.
pub proof fn lemma_pixel_round_trip(pre: GrayFrame, post: GrayFrame, x: int, y: int, g: int)
    requires
        pre.wf(),
        pre.in_bounds(x, y),
        0 <= g < 4,
        pixel_written(pre, post, x, y, g),
    ensures
        post.pix(x, y) == g,
{
}

/// Law: a rectangle fill that lies fully outside the buffer leaves every
/// pixel of the buffer unchanged.
pub proof fn lemma_fill_outside_unchanged(
    pre: GrayFrame,
    post: GrayFrame,
    x0: int,
    y0: int,
    w: int,
    h: int,
    level: int,
)
    requires
        rect_filled(pre, post, x0, y0, w, h, level),
        x0 >= pre.width || y0 >= pre.height || x0 + w <= 0 || y0 + h <= 0 || w <= 0 || h <= 0,
    ensures
        forall|x: int, y: int| pre.in_bounds(x, y) ==> post.pix(x, y) == pre.pix(x, y),
        post.high@ == pre.high@,
        post.low@ == pre.low@,
{
    assert forall|x: int, y: int| pre.in_bounds(x, y) implies !rect_covers(
        x0,
        y0,
        w,
        h,
        x,
        y,
    ) by {}
}

/// Law: a glyph run that lies fully outside the buffer leaves every pixel of
/// the buffer unchanged.
pub proof fn lemma_glyph_run_outside_unchanged(
    pre: GrayFrame,
    post: GrayFrame,
    t: Seq<u8>,
    ox: int,
    oy: int,
    level: int,
)
    requires
        glyphs_drawn(pre, post, t, ox, oy, level),
        oy >= pre.height || oy + 8 <= 0 || ox >= pre.width || ox + 8 * t.len() <= 0,
    ensures
        forall|x: int, y: int| pre.in_bounds(x, y) ==> post.pix(x, y) == pre.pix(x, y),
        post.high@ == pre.high@,
        post.low@ == pre.low@,
{
    assert forall|x: int, y: int| pre.in_bounds(x, y) implies !crate::frame::run_covers(
        t,
        ox,
        oy,
        x,
        y,
    ) by {
        if crate::frame::run_covers(t, ox, oy, x, y) {
            let j = choose|j: int|
                0 <= j < t.len() && crate::frame::glyph_covers(t[j], ox + 8 * j, oy, x, y);
            assert(8 * j + 8 <= 8 * t.len());
            assert(false);
        }
    }
}

/// Law: a stroked line whose pen stays fully outside the buffer leaves every
/// pixel of the buffer unchanged.
pub proof fn lemma_line_outside_unchanged(
    pre: GrayFrame,
    post: GrayFrame,
    x0: int,
    y0: int,
    x1: int,
    y1: int,
    stroke: int,
    level: int,
)
    requires
        line_drawn(pre, post, x0, y0, x1, y1, stroke, level),
        imin(x0, x1) >= pre.width || imax(x0, x1) + stroke <= 0 || imin(y0, y1) >= pre.height
            || imax(y0, y1) + stroke <= 0,
    ensures
        forall|x: int, y: int| pre.in_bounds(x, y) ==> post.pix(x, y) == pre.pix(x, y),
        post.high@ == pre.high@,
        post.low@ == pre.low@,
{
    lemma_line_connected(x0, y0, x1, y1);
    assert forall|x: int, y: int| pre.in_bounds(x, y) implies !line_covers(
        x0,
        y0,
        x1,
        y1,
        stroke,
        x,
        y,
    ) by {
        if line_covers(x0, y0, x1, y1, stroke, x, y) {
            let s = line_pts(x0, y0, x1, y1);
            let k = choose|k: int|
                0 <= k < s.len() && rect_covers((#[trigger] s[k]).0, s[k].1, stroke, stroke, x, y);
            assert(imin(x0, x1) <= s[k].0 <= imax(x0, x1));
            assert(imin(y0, y1) <= s[k].1 <= imax(y0, y1));
            assert(false);
        }
    }
}

/// Law: a bitmap blit that lies fully outside the buffer leaves every pixel
/// of the buffer unchanged.
pub proof fn lemma_blit_outside_unchanged(
    pre: GrayFrame,
    post: GrayFrame,
    d: Seq<u8>,
    w: int,
    ox: int,
    oy: int,
)
    requires
        pre.wf(),
        bitmap_blitted(pre, post, d, w, ox, oy),
        ox >= pre.width || ox + w <= 0 || oy >= pre.height || oy + src_rows(d, w) <= 0 || w <= 0,
    ensures
        forall|x: int, y: int| pre.in_bounds(x, y) ==> post.pix(x, y) == pre.pix(x, y),
        post.high@ == pre.high@,
        post.low@ == pre.low@,
{
    assert forall|x: int, y: int| pre.in_bounds(x, y) implies !crate::frame::blit_covers(
        d,
        w,
        ox,
        oy,
        x,
        y,
    ) by {}
    assert forall|x: int, y: int| pre.in_bounds(x, y) implies post.pix(x, y) == pre.pix(x, y) by {
        assert(post.bpr() == pre.bpr());
    }
}

/// Law: filling the same rectangle twice, the second time with another
/// level, is indistinguishable from filling it once with the final level:
/// only the final level is observable.
pub proof fn lemma_refill_last_level_wins(
    f0: GrayFrame,
    f1: GrayFrame,
    f2: GrayFrame,
    f3: GrayFrame,
    x0: int,
    y0: int,
    w: int,
    h: int,
    first: int,
    last: int,
)
    requires
        rect_filled(f0, f1, x0, y0, w, h, first),
        rect_filled(f1, f2, x0, y0, w, h, last),
        rect_filled(f0, f3, x0, y0, w, h, last),
    ensures
        forall|x: int, y: int| f0.in_bounds(x, y) ==> f2.pix(x, y) == f3.pix(x, y),
{
}

/// Law: drawing the same stroked line twice with the same style leaves the
/// second result pixel-identical to the first; the rasterization is a pure
/// function of the endpoints and the style.
pub proof fn lemma_line_redraw_identical(
    f0: GrayFrame,
    f1: GrayFrame,
    f2: GrayFrame,
    x0: int,
    y0: int,
    x1: int,
    y1: int,
    stroke: int,
    level: int,
)
    requires
        line_drawn(f0, f1, x0, y0, x1, y1, stroke, level),
        line_drawn(f1, f2, x0, y0, x1, y1, stroke, level),
    ensures
        forall|x: int, y: int| f0.in_bounds(x, y) ==> f2.pix(x, y) == f1.pix(x, y),
{
}

} // verus!
