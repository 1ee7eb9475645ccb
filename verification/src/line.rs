//! Integer line rasterization.
//!
//! A Bresenham-class walk from one endpoint to the other: an error term
//! decides at each step whether to advance along x, along y, or both, so the
//! plotted cells form an 8-connected path with no gaps. Once one coordinate
//! has reached its target the walk degenerates to an axis walk and the error
//! term is left untouched, which keeps it within fixed bounds.

use vstd::prelude::*;
use crate::frame::GrayFrame;
use crate::frame::rect_covers;

verus! {

/// Absolute value.
pub open spec fn iabs(a: int) -> int {
    if a < 0 {
        -a
    } else {
        a
    }
}

/// Smaller of two integers.
pub open spec fn imin(a: int, b: int) -> int {
    if a < b {
        a
    } else {
        b
    }
}

/// Larger of two integers.
pub open spec fn imax(a: int, b: int) -> int {
    if a < b {
        b
    } else {
        a
    }
}

/// One cell and its successor differ by at most one in each axis and are not
/// the same cell: the successor is one of the 8 neighbours.
pub open spec fn adj8(a: (int, int), b: (int, int)) -> bool {
    iabs(a.0 - b.0) <= 1 && iabs(a.1 - b.1) <= 1 && a != b
}

/// The cells visited walking from `(cx, cy)` to `(x1, y1)`, driven by the
/// error term `err` against the fixed spans `dx = |x1 - x0|` and
/// `dy = -|y1 - y0|` of the whole line.
pub open spec fn line_rec(cx: int, cy: int, x1: int, y1: int, dx: int, dy: int, err: int) -> Seq<
    (int, int),
>
    decreases iabs(x1 - cx) + iabs(y1 - cy),
{
    if cx == x1 && cy == y1 {
        seq![(cx, cy)]
    } else {
        let sx: int = if cx < x1 {
            1
        } else {
            -1
        };
        let sy: int = if cy < y1 {
            1
        } else {
            -1
        };
        let e2 = 2 * err;
        let stepx = cx != x1 && (e2 >= dy || cy == y1);
        let stepy = cy != y1 && (e2 <= dx || cx == x1);
        if !stepx && !stepy {
            seq![(cx, cy)]
        } else {
            let nx = if stepx {
                cx + sx
            } else {
                cx
            };
            let ny = if stepy {
                cy + sy
            } else {
                cy
            };
            let nerr = err + (if stepx && cy != y1 {
                dy
            } else {
                0
            }) + (if stepy && cx != x1 {
                dx
            } else {
                0
            });
            seq![(cx, cy)] + line_rec(nx, ny, x1, y1, dx, dy, nerr)
        }
    }
}

/// The cells of the rasterized line from `(x0, y0)` to `(x1, y1)`.
pub open spec fn line_pts(x0: int, y0: int, x1: int, y1: int) -> Seq<(int, int)> {
    line_rec(
        x0,
        y0,
        x1,
        y1,
        iabs(x1 - x0),
        -iabs(y1 - y0),
        iabs(x1 - x0) - iabs(y1 - y0),
    )
}

/// The walk starts at the current cell, ends at the target, every step is
/// 8-connected, and every cell stays inside the bounding box of the two
/// endpoints.
proof fn lemma_line_rec_props(cx: int, cy: int, x1: int, y1: int, dx: int, dy: int, err: int)
    requires
        dy <= 0 <= dx,
    ensures
        line_rec(cx, cy, x1, y1, dx, dy, err).len() >= 1,
        line_rec(cx, cy, x1, y1, dx, dy, err)[0] == (cx, cy),
        line_rec(cx, cy, x1, y1, dx, dy, err).last() == (x1, y1),
        forall|k: int|
            0 <= k < line_rec(cx, cy, x1, y1, dx, dy, err).len() - 1 ==> adj8(
                #[trigger] line_rec(cx, cy, x1, y1, dx, dy, err)[k],
                line_rec(cx, cy, x1, y1, dx, dy, err)[k + 1],
            ),
        forall|k: int|
            0 <= k < line_rec(cx, cy, x1, y1, dx, dy, err).len() ==> imin(cx, x1) <= #[trigger] line_rec(
                cx,
                cy,
                x1,
                y1,
                dx,
                dy,
                err,
            )[k].0 <= imax(cx, x1) && imin(cy, y1) <= line_rec(cx, cy, x1, y1, dx, dy, err)[k].1
                <= imax(cy, y1),
    decreases iabs(x1 - cx) + iabs(y1 - cy),
{
    let s = line_rec(cx, cy, x1, y1, dx, dy, err);
    if cx == x1 && cy == y1 {
    } else {
        let sx: int = if cx < x1 {
            1
        } else {
            -1
        };
        let sy: int = if cy < y1 {
            1
        } else {
            -1
        };
        let e2 = 2 * err;
        let stepx = cx != x1 && (e2 >= dy || cy == y1);
        let stepy = cy != y1 && (e2 <= dx || cx == x1);
        assert(stepx || stepy);
        let nx = if stepx {
            cx + sx
        } else {
            cx
        };
        let ny = if stepy {
            cy + sy
        } else {
            cy
        };
        let nerr = err + (if stepx && cy != y1 {
            dy
        } else {
            0
        }) + (if stepy && cx != x1 {
            dx
        } else {
            0
        });
        lemma_line_rec_props(nx, ny, x1, y1, dx, dy, nerr);
        let t = line_rec(nx, ny, x1, y1, dx, dy, nerr);
        assert(s == seq![(cx, cy)] + t);
        assert(s[0] == (cx, cy));
        assert(s.last() == t.last());
        assert(adj8((cx, cy), (nx, ny)));
        assert forall|k: int| 0 <= k < s.len() - 1 implies adj8(#[trigger] s[k], s[k + 1]) by {
            if k >= 1 {
                assert(s[k] == t[k - 1]);
                assert(s[k + 1] == t[k]);
            }
        }
    }
}

/// Law: the rasterized line contains both endpoints, its first cell is the
/// start, its last cell is the end, consecutive cells are 8-connected (no
/// gaps), and every cell lies inside the endpoints' bounding box.
pub proof fn lemma_line_connected(x0: int, y0: int, x1: int, y1: int)
    ensures
        line_pts(x0, y0, x1, y1).len() >= 1,
        line_pts(x0, y0, x1, y1)[0] == (x0, y0),
        line_pts(x0, y0, x1, y1).last() == (x1, y1),
        forall|k: int|
            0 <= k < line_pts(x0, y0, x1, y1).len() - 1 ==> adj8(
                #[trigger] line_pts(x0, y0, x1, y1)[k],
                line_pts(x0, y0, x1, y1)[k + 1],
            ),
        forall|k: int|
            0 <= k < line_pts(x0, y0, x1, y1).len() ==> imin(x0, x1) <= #[trigger] line_pts(
                x0,
                y0,
                x1,
                y1,
            )[k].0 <= imax(x0, x1) && imin(y0, y1) <= line_pts(x0, y0, x1, y1)[k].1 <= imax(y0, y1),
{
    lemma_line_rec_props(
        x0,
        y0,
        x1,
        y1,
        iabs(x1 - x0),
        -iabs(y1 - y0),
        iabs(x1 - x0) - iabs(y1 - y0),
    );
}

/// The point `(x, y)` is inked by one of the first `n` cells of the line
/// from `(x0, y0)` to `(x1, y1)` drawn with a `stroke x stroke` pen whose
/// top-left corner rides on each cell.
pub open spec fn line_covers_prefix(
    x0: int,
    y0: int,
    x1: int,
    y1: int,
    stroke: int,
    n: int,
    x: int,
    y: int,
) -> bool {
    exists|k: int|
        0 <= k < n && k < line_pts(x0, y0, x1, y1).len() && rect_covers(
            (#[trigger] line_pts(x0, y0, x1, y1)[k]).0,
            line_pts(x0, y0, x1, y1)[k].1,
            stroke,
            stroke,
            x,
            y,
        )
}

/// The point `(x, y)` is inked by some cell of the stroked line.
pub open spec fn line_covers(
    x0: int,
    y0: int,
    x1: int,
    y1: int,
    stroke: int,
    x: int,
    y: int,
) -> bool {
    line_covers_prefix(x0, y0, x1, y1, stroke, line_pts(x0, y0, x1, y1).len() as int, x, y)
}

/// Effect of one stroked line: every in-bounds pixel under the pen is at
/// `level`, every other in-bounds pixel is unchanged.
pub open spec fn line_drawn(
    pre: GrayFrame,
    post: GrayFrame,
    x0: int,
    y0: int,
    x1: int,
    y1: int,
    stroke: int,
    level: int,
) -> bool {
    &&& post.wf()
    &&& pre.same_dims(post)
    &&& forall|x: int, y: int|
        pre.in_bounds(x, y) ==> post.pix(x, y) == (if line_covers(x0, y0, x1, y1, stroke, x, y) {
            level
        } else {
            pre.pix(x, y)
        })
    &&& (forall|x: int, y: int|
        pre.in_bounds(x, y) ==> !line_covers(x0, y0, x1, y1, stroke, x, y)) ==> (post.high@
        == pre.high@ && post.low@ == pre.low@)
}

impl GrayFrame {
    /// Rasterizes the line from `(x0, y0)` to `(x1, y1)` with a square pen of
    /// side `stroke`, painting the covered pixels at `level`; pixels outside
    /// the buffer are clipped, never a panic.
    pub fn draw_line(&mut self, x0: i32, y0: i32, x1: i32, y1: i32, level: u8, stroke: u32)
        requires
            old(self).wf(),
            level < 4,
            stroke >= 1,
        ensures
            line_drawn(
                *old(self),
                *final(self),
                x0 as int,
                y0 as int,
                x1 as int,
                y1 as int,
                stroke as int,
                level as int,
            ),
    {
        let pts = line_points(x0, y0, x1, y1);
        let ghost s = line_pts(x0 as int, y0 as int, x1 as int, y1 as int);
        let mut k: usize = 0;
        while k < pts.len()
            invariant
                self.wf(),
                old(self).same_dims(*self),
                level < 4,
                stroke >= 1,
                k <= pts@.len(),
                s == line_pts(x0 as int, y0 as int, x1 as int, y1 as int),
                pts_ints(pts@) == s,
                forall|x: int, y: int|
                    old(self).in_bounds(x, y) ==> self.pix(x, y) == (if line_covers_prefix(
                        x0 as int,
                        y0 as int,
                        x1 as int,
                        y1 as int,
                        stroke as int,
                        k as int,
                        x,
                        y,
                    ) {
                        level as int
                    } else {
                        old(self).pix(x, y)
                    }),
                (forall|x: int, y: int|
                    old(self).in_bounds(x, y) ==> !line_covers(
                        x0 as int,
                        y0 as int,
                        x1 as int,
                        y1 as int,
                        stroke as int,
                        x,
                        y,
                    )) ==> (self.high@ == old(self).high@ && self.low@ == old(self).low@),
            decreases pts@.len() - k,
        {
            let p = pts[k];
            proof {
                assert(pts_ints(pts@)[k as int] == (pts@[k as int].0 as int, pts@[k as int].1 as int));
            }
            let prev = Ghost(*self);
            self.fill_rectangle(p.0, p.1, stroke, stroke, level);
            proof {
                if (forall|x: int, y: int|
                    old(self).in_bounds(x, y) ==> !line_covers(
                        x0 as int,
                        y0 as int,
                        x1 as int,
                        y1 as int,
                        stroke as int,
                        x,
                        y,
                    )) {
                    assert forall|x: int, y: int| prev@.in_bounds(x, y) implies !rect_covers(
                        (p.0) as int,
                        (p.1) as int,
                        stroke as int,
                        stroke as int,
                        x,
                        y,
                    ) by {
                        assert(old(self).in_bounds(x, y));
                        if rect_covers((p.0) as int, (p.1) as int, stroke as int, stroke as int, x, y) {
                            assert(rect_covers(
                                (#[trigger] s[k as int]).0,
                                s[k as int].1,
                                stroke as int,
                                stroke as int,
                                x,
                                y,
                            ));
                            assert(line_covers_prefix(
                                x0 as int,
                                y0 as int,
                                x1 as int,
                                y1 as int,
                                stroke as int,
                                s.len() as int,
                                x,
                                y,
                            ));
                        }
                    }
                    assert(self.high@ == prev@.high@ && self.low@ == prev@.low@);
                    assert(prev@.high@ == old(self).high@ && prev@.low@ == old(self).low@);
                }
                assert forall|x: int, y: int| old(self).in_bounds(x, y) implies self.pix(x, y) == (
                if line_covers_prefix(
                    x0 as int,
                    y0 as int,
                    x1 as int,
                    y1 as int,
                    stroke as int,
                    k + 1,
                    x,
                    y,
                ) {
                    level as int
                } else {
                    old(self).pix(x, y)
                }) by {
                    if rect_covers(s[k as int].0, s[k as int].1, stroke as int, stroke as int, x, y) {
                        assert(line_covers_prefix(
                            x0 as int,
                            y0 as int,
                            x1 as int,
                            y1 as int,
                            stroke as int,
                            k + 1,
                            x,
                            y,
                        ));
                    } else {
                        assert(self.pix(x, y) == prev@.pix(x, y));
                        if line_covers_prefix(
                            x0 as int,
                            y0 as int,
                            x1 as int,
                            y1 as int,
                            stroke as int,
                            k + 1,
                            x,
                            y,
                        ) {
                            let j = choose|j: int|
                                0 <= j < k + 1 && j < s.len() && rect_covers(
                                    (#[trigger] s[j]).0,
                                    s[j].1,
                                    stroke as int,
                                    stroke as int,
                                    x,
                                    y,
                                );
                            assert(j < k ==> line_covers_prefix(
                                x0 as int,
                                y0 as int,
                                x1 as int,
                                y1 as int,
                                stroke as int,
                                k as int,
                                x,
                                y,
                            ));
                        }
                    }
                }
            }
            k += 1;
        }
    }
}

/// The integer coordinates of a vector of plotted cells.
pub open spec fn pts_ints(s: Seq<(i32, i32)>) -> Seq<(int, int)> {
    s.map_values(|p: (i32, i32)| (p.0 as int, p.1 as int))
}

/// Computes the cells of the rasterized line from `(x0, y0)` to `(x1, y1)`,
/// in walking order.
pub fn line_points(x0: i32, y0: i32, x1: i32, y1: i32) -> (pts: Vec<(i32, i32)>)
    ensures
        pts_ints(pts@) == line_pts(x0 as int, y0 as int, x1 as int, y1 as int),
{
    let dx: i64 = if x1 >= x0 {
        x1 as i64 - x0 as i64
    } else {
        x0 as i64 - x1 as i64
    };
    let dy: i64 = if y1 >= y0 {
        y0 as i64 - y1 as i64
    } else {
        y1 as i64 - y0 as i64
    };
    let mut err: i64 = dx + dy;
    let mut cx: i64 = x0 as i64;
    let mut cy: i64 = y0 as i64;
    let mut pts: Vec<(i32, i32)> = Vec::new();
    let x1w: i64 = x1 as i64;
    let y1w: i64 = y1 as i64;
    proof {
        assert(pts_ints(pts@) =~= Seq::<(int, int)>::empty());
    }
    while !(cx == x1w && cy == y1w)
        invariant
            x1w == x1 as int,
            y1w == y1 as int,
            dx == iabs(x1 as int - x0 as int),
            dy == -iabs(y1 as int - y0 as int),
            imin(x0 as int, x1 as int) <= cx <= imax(x0 as int, x1 as int),
            imin(y0 as int, y1 as int) <= cy <= imax(y0 as int, y1 as int),
            3 * dy <= 2 * err <= 3 * dx,
            line_pts(x0 as int, y0 as int, x1 as int, y1 as int) == pts_ints(pts@) + line_rec(
                cx as int,
                cy as int,
                x1 as int,
                y1 as int,
                dx as int,
                dy as int,
                err as int,
            ),
        decreases iabs(x1 as int - cx) + iabs(y1 as int - cy),
    {
        let ghost prev_rec = line_rec(
            cx as int,
            cy as int,
            x1 as int,
            y1 as int,
            dx as int,
            dy as int,
            err as int,
        );
        let ghost old_pts = pts@;
        pts.push((cx as i32, cy as i32));
        let sx: i64 = if cx < x1w {
            1
        } else {
            -1
        };
        let sy: i64 = if cy < y1w {
            1
        } else {
            -1
        };
        let e2: i64 = 2 * err;
        let stepx: bool = cx != x1w && (e2 >= dy || cy == y1w);
        let stepy: bool = cy != y1w && (e2 <= dx || cx == x1w);
        proof {
            assert(stepx || stepy);
        }
        let ghost old_cx = cx as int;
        let ghost old_cy = cy as int;
        let bump_x: bool = stepx && cy != y1w;
        let bump_y: bool = stepy && cx != x1w;
        if bump_x {
            err = err + dy;
        }
        if bump_y {
            err = err + dx;
        }
        if stepx {
            cx = cx + sx;
        }
        if stepy {
            cy = cy + sy;
        }
        proof {
            assert(prev_rec == seq![(old_cx, old_cy)] + line_rec(
                cx as int,
                cy as int,
                x1 as int,
                y1 as int,
                dx as int,
                dy as int,
                err as int,
            ));
            assert(pts_ints(pts@) =~= pts_ints(old_pts).push((old_cx, old_cy)));
            assert(pts_ints(old_pts) + prev_rec =~= (pts_ints(old_pts).push((old_cx, old_cy)))
                + line_rec(
                cx as int,
                cy as int,
                x1 as int,
                y1 as int,
                dx as int,
                dy as int,
                err as int,
            ));
        }
    }
    pts.push((cx as i32, cy as i32));
    proof {
        assert(pts_ints(pts@) =~= pts_ints(pts@.drop_last()).push((cx as int, cy as int)));
        assert(line_rec(
            cx as int,
            cy as int,
            x1 as int,
            y1 as int,
            dx as int,
            dy as int,
            err as int,
        ) =~= seq![(cx as int, cy as int)]);
        assert(pts_ints(pts@) =~= line_pts(x0 as int, y0 as int, x1 as int, y1 as int));
    }
    pts
}

} // verus!
