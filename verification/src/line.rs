//! Line segments by integer error stepping.

use vstd::prelude::*;
use crate::fixed::{div_toward_zero, ONE};
use crate::geometry::Vertex;
use crate::target::{lemma_product_grows, lemma_product_splits, RenderSlice};

verus! {

/// The distance between two numbers.
pub open spec fn span(a: int, b: int) -> int {
    if a < b {
        b - a
    } else {
        a - b
    }
}

/// The step that leads from `a` towards `b`.
pub open spec fn direction(a: int, b: int) -> int {
    if a < b {
        1
    } else {
        -1
    }
}

/// The number that lies `steps` steps from `a` in the direction of `b`.
pub open spec fn toward(a: int, b: int, steps: int) -> int {
    if a < b {
        a + steps
    } else {
        a - steps
    }
}

/// The greater of the two extents of a line: the number of steps of its walk.
pub open spec fn line_steps(dx: int, dy: int) -> int {
    if dx >= dy {
        dx
    } else {
        dy
    }
}

/// The walk of a line that extends over `dx` columns and `dy` rows, after `k` steps:
/// the steps made along the columns, the steps made along the rows, and the error
/// term. A step advances along the columns when twice the error is at least `-dy`,
/// along the rows when it is at most `dx`, and along both when both hold.
pub open spec fn line_state(dx: int, dy: int, k: nat) -> (int, int, int)
    decreases k,
{
    if k == 0 {
        (0, 0, dx - dy)
    } else {
        let before = line_state(dx, dy, (k - 1) as nat);
        let along_x = 2 * before.2 >= -dy;
        let along_y = 2 * before.2 <= dx;
        (
            if along_x {
                before.0 + 1
            } else {
                before.0
            },
            if along_y {
                before.1 + 1
            } else {
                before.1
            },
            before.2 + (if along_x {
                -dy
            } else {
                0
            }) + (if along_y {
                dx
            } else {
                0
            }),
        )
    }
}

/// The pixel that the line from (`x0`, `y0`) to (`x1`, `y1`) visits after `k` steps.
pub open spec fn line_point(x0: int, y0: int, x1: int, y1: int, k: nat) -> (int, int) {
    let state = line_state(span(x0, x1), span(y0, y1), k);
    (toward(x0, x1, state.0), toward(y0, y1, state.1))
}

/// Whether one of the first `n` pixels of the line is (`x`, `y`).
pub open spec fn line_reaches(x0: int, y0: int, x1: int, y1: int, n: nat, x: int, y: int) -> bool
    decreases n,
{
    if n == 0 {
        false
    } else {
        line_reaches(x0, y0, x1, y1, (n - 1) as nat, x, y) || line_point(
            x0,
            y0,
            x1,
            y1,
            (n - 1) as nat,
        ) == (x, y)
    }
}

/// Whether the line from (`x0`, `y0`) to (`x1`, `y1`) visits the pixel (`x`, `y`):
/// whether the pixel is one of the points of the walk, from the first (the start)
/// to the one after `line_steps` steps (the end).
pub open spec fn on_line(x0: int, y0: int, x1: int, y1: int, x: int, y: int) -> bool {
    line_reaches(x0, y0, x1, y1, (line_steps(span(x0, x1), span(y0, y1)) + 1) as nat, x, y)
}

/// What holds of the walk at each of its steps: it stays between its ends, it
/// advances along the longer extent at every step, its error term is the one that
/// the steps made so far give, and it never leaves the ideal line by more than half
/// a step along the shorter extent.
pub proof fn lemma_line_walk(dx: int, dy: int, k: nat)
    requires
        dx >= 0,
        dy >= 0,
        k <= line_steps(dx, dy),
    ensures
        0 <= line_state(dx, dy, k).0 <= dx,
        0 <= line_state(dx, dy, k).1 <= dy,
        line_state(dx, dy, k).2 == dx - dy - line_state(dx, dy, k).0 * dy + line_state(dx, dy, k).1
            * dx,
        dx >= dy ==> line_state(dx, dy, k).0 == k,
        dx < dy ==> line_state(dx, dy, k).1 == k,
        dx >= dy ==> -dx <= 2 * (line_state(dx, dy, k).1 * dx - line_state(dx, dy, k).0 * dy) <= dx,
        dx < dy ==> -dy <= 2 * (line_state(dx, dy, k).1 * dx - line_state(dx, dy, k).0 * dy) <= dy,
    decreases k,
{
    if k > 0 {
        lemma_line_walk(dx, dy, (k - 1) as nat);
        let before = line_state(dx, dy, (k - 1) as nat);
        let after = line_state(dx, dy, k);
        let i = before.0;
        let j = before.1;
        lemma_product_splits(i, 1, dy);
        lemma_product_splits(j, 1, dx);
        assert(after.2 == dx - dy - after.0 * dy + after.1 * dx);
        let deviation = after.1 * dx - after.0 * dy;
        if dx >= dy {
            assert(after.0 == k);
            assert(-dx <= 2 * deviation <= dx);
            lemma_minor_bound(deviation, after.1, after.0, dx, dy);
        } else {
            assert(after.1 == k);
            assert(-dy <= 2 * deviation <= dy);
            lemma_minor_bound(-deviation, after.0, after.1, dy, dx);
        }
    }
}

/// A walk that has made `major` of at most `long` steps along the longer extent, and
/// is within half a step of the ideal line, has made at most `short` steps along the
/// shorter one.
proof fn lemma_minor_bound(deviation: int, minor: int, major: int, long: int, short: int)
    requires
        deviation == minor * long - major * short,
        2 * deviation <= long,
        0 <= major <= long,
        0 <= short <= long,
        long > 0,
    ensures
        minor <= short,
{
    if minor > short {
        lemma_product_grows(short + 1, minor, long);
        lemma_product_splits(short, 1, long);
        lemma_product_grows(major, long, short);
        assert(long * short == short * long) by (nonlinear_arith);
    }
}

/// The walk ends where the line ends, and not before.
pub proof fn lemma_line_ends(dx: int, dy: int, k: nat)
    requires
        dx >= 0,
        dy >= 0,
        k <= line_steps(dx, dy),
    ensures
        (line_state(dx, dy, k).0 == dx && line_state(dx, dy, k).1 == dy) <==> k == line_steps(
            dx,
            dy,
        ),
{
    lemma_line_walk(dx, dy, k);
    let state = line_state(dx, dy, k);
    if k == line_steps(dx, dy) {
        if dx >= dy {
            if dx > 0 {
                lemma_minor_exact(state.1 * dx - state.0 * dy, state.1, dx, dy);
            }
        } else {
            lemma_minor_exact(-(state.1 * dx - state.0 * dy), state.0, dy, dx);
        }
    }
}

/// At the end of the longer extent, a walk within half a step of the ideal line is
/// at the end of the shorter extent too.
proof fn lemma_minor_exact(deviation: int, minor: int, long: int, short: int)
    by (nonlinear_arith)
    requires
        deviation == minor * long - long * short,
        -long <= 2 * deviation <= long,
        long > 0,
    ensures
        minor == short,
{
}

/// A pixel that is among the first `n` pixels of a line is among the first `m`, for
/// every `m` from `n` on.
pub proof fn lemma_reaches_more(x0: int, y0: int, x1: int, y1: int, n: nat, m: nat, x: int, y: int)
    requires
        n <= m,
        line_reaches(x0, y0, x1, y1, n, x, y),
    ensures
        line_reaches(x0, y0, x1, y1, m, x, y),
    decreases m,
{
    if n < m {
        lemma_reaches_more(x0, y0, x1, y1, n, (m - 1) as nat, x, y);
    }
}

/// How far a pixel lies from the ideal line through (`x0`, `y0`) and (`x1`, `y1`):
/// twice the difference between its steps along the rows, scaled by the line's
/// extent over the columns, and its steps along the columns, scaled by the extent
/// over the rows. It is zero on the ideal line.
pub open spec fn line_deviation(x0: int, y0: int, x1: int, y1: int, x: int, y: int) -> int {
    2 * (span(y0, y) * span(x0, x1) - span(x0, x) * span(y0, y1))
}

/// A line visits both of its ends. Every pixel that it visits lies between them, in
/// the column range and in the row range of the ends, and within half a step of the
/// ideal line, measured along the shorter extent of the line.
pub proof fn lemma_line_between_ends(x0: int, y0: int, x1: int, y1: int, x: int, y: int)
    ensures
        on_line(x0, y0, x1, y1, x0, y0),
        on_line(x0, y0, x1, y1, x1, y1),
        on_line(x0, y0, x1, y1, x, y) ==> (x0 <= x <= x1 || x1 <= x <= x0) && (y0 <= y <= y1 || y1
            <= y <= y0),
        on_line(x0, y0, x1, y1, x, y) ==> -line_steps(span(x0, x1), span(y0, y1)) <= line_deviation(
            x0,
            y0,
            x1,
            y1,
            x,
            y,
        ) <= line_steps(span(x0, x1), span(y0, y1)),
{
    let dx = span(x0, x1);
    let dy = span(y0, y1);
    let steps = line_steps(dx, dy) as nat;
    assert(line_reaches(x0, y0, x1, y1, 1, x0, y0)) by {
        assert(!line_reaches(x0, y0, x1, y1, 0, x0, y0));
        assert(line_point(x0, y0, x1, y1, 0) == (x0, y0));
    }
    lemma_reaches_more(x0, y0, x1, y1, 1, (steps + 1) as nat, x0, y0);
    lemma_line_ends(dx, dy, steps);
    assert(line_point(x0, y0, x1, y1, steps) == (x1, y1));
    if on_line(x0, y0, x1, y1, x, y) {
        lemma_reached_is_between(x0, y0, x1, y1, (steps + 1) as nat, x, y);
    }
}

proof fn lemma_reached_is_between(x0: int, y0: int, x1: int, y1: int, n: nat, x: int, y: int)
    requires
        n <= line_steps(span(x0, x1), span(y0, y1)) + 1,
        line_reaches(x0, y0, x1, y1, n, x, y),
    ensures
        x0 <= x <= x1 || x1 <= x <= x0,
        y0 <= y <= y1 || y1 <= y <= y0,
        -line_steps(span(x0, x1), span(y0, y1)) <= line_deviation(x0, y0, x1, y1, x, y)
            <= line_steps(span(x0, x1), span(y0, y1)),
    decreases n,
{
    if n > 0 {
        if line_point(x0, y0, x1, y1, (n - 1) as nat) == (x, y) {
            lemma_line_walk(span(x0, x1), span(y0, y1), (n - 1) as nat);
        } else {
            lemma_reached_is_between(x0, y0, x1, y1, (n - 1) as nat, x, y);
        }
    }
}

/// The whole pixels of a coordinate, rounded toward zero.
pub open spec fn spec_whole(value: i32) -> int {
    div_toward_zero(value as int, ONE as int)
}

/// The pixel column or row of a coordinate, rounded toward zero.
pub fn whole(value: i32) -> (r: i32)
    ensures
        r == spec_whole(value),
        -0x8000 <= r < 0x8000,
{
    if value >= 0 {
        value / 65536
    } else {
        let size: i64 = -(value as i64);
        -((size / 65536) as i32)
    }
}

/// Draws the segment between the screen positions of two vertices onto a slice, in
/// one colour and without touching the depths. The positions are taken at whole
/// pixels; the pixels are those of the walk that `line_state` describes, as far as
/// they lie in the slice.
pub fn draw_line(slice: &mut RenderSlice, from: &Vertex, to: &Vertex, color: u32)
    requires
        old(slice).wf(),
    ensures
        final(slice).wf(),
        final(slice).same_window(old(slice)),
        final(final(slice).color_slice)@ == final(old(slice).color_slice)@,
        final(final(slice).depth_slice)@ == final(old(slice).depth_slice)@,
        final(slice).depths() == old(slice).depths(),
        forall|u: int, v: int|
            old(slice).contains(u, v) ==> #[trigger] final(slice).pixel_color(u, v) == (if on_line(
                spec_whole(from.position.x),
                spec_whole(from.position.y),
                spec_whole(to.position.x),
                spec_whole(to.position.y),
                u,
                v,
            ) {
                color
            } else {
                old(slice).pixel_color(u, v)
            }),
{
    let x0: i32 = whole(from.position.x);
    let y0: i32 = whole(from.position.y);
    let x1: i32 = whole(to.position.x);
    let y1: i32 = whole(to.position.y);
    let dx: i32 = if x0 < x1 {
        x1 - x0
    } else {
        x0 - x1
    };
    let dy: i32 = if y0 < y1 {
        y0 - y1
    } else {
        y1 - y0
    };
    let sx: i32 = if x0 < x1 {
        1
    } else {
        -1
    };
    let sy: i32 = if y0 < y1 {
        1
    } else {
        -1
    };
    let mut err: i32 = dx + dy;
    let mut x: i32 = x0;
    let mut y: i32 = y0;
    let ghost mut k: nat = 0;
    let ghost steps = line_steps(dx as int, -dy as int);
    loop
        invariant_except_break
            k <= steps,
            (x as int, y as int) == line_point(x0 as int, y0 as int, x1 as int, y1 as int, k),
            err == line_state(dx as int, -dy, k).2,
            forall|u: int, v: int|
                old(slice).contains(u, v) ==> #[trigger] slice.pixel_color(u, v) == (if line_reaches(
                    x0 as int,
                    y0 as int,
                    x1 as int,
                    y1 as int,
                    k,
                    u,
                    v,
                ) {
                    color
                } else {
                    old(slice).pixel_color(u, v)
                }),
        invariant
            slice.wf(),
            slice.same_window(old(slice)),
            final(slice.color_slice)@ == final(old(slice).color_slice)@,
            final(slice.depth_slice)@ == final(old(slice).depth_slice)@,
            slice.depths() == old(slice).depths(),
            -0x8000 <= x0 < 0x8000,
            -0x8000 <= y0 < 0x8000,
            -0x8000 <= x1 < 0x8000,
            -0x8000 <= y1 < 0x8000,
            dx == span(x0 as int, x1 as int),
            dy == -span(y0 as int, y1 as int),
            sx == direction(x0 as int, x1 as int),
            sy == direction(y0 as int, y1 as int),
            steps == line_steps(dx as int, -dy as int),
        ensures
            forall|u: int, v: int|
                old(slice).contains(u, v) ==> #[trigger] slice.pixel_color(u, v) == (if on_line(
                    x0 as int,
                    y0 as int,
                    x1 as int,
                    y1 as int,
                    u,
                    v,
                ) {
                    color
                } else {
                    old(slice).pixel_color(u, v)
                }),
        decreases steps - k,
    {
        proof {
            lemma_line_walk(dx as int, -dy as int, k);
            lemma_line_ends(dx as int, -dy as int, k);
        }
        if y as i64 >= slice.start as i64 && (y as i64) < slice.end as i64 && x >= 0 && (x as i64)
            < slice.width as i64 {
            slice.set_color(x as u32, y as u32, color);
        }
        proof {
            assert forall|u: int, v: int| old(slice).contains(u, v) implies #[trigger] slice.pixel_color(
                u,
                v,
            ) == (if line_reaches(
                x0 as int,
                y0 as int,
                x1 as int,
                y1 as int,
                (k + 1) as nat,
                u,
                v,
            ) {
                color
            } else {
                old(slice).pixel_color(u, v)
            }) by {
                assert(line_reaches(x0 as int, y0 as int, x1 as int, y1 as int, (k + 1) as nat, u, v)
                    == (line_reaches(x0 as int, y0 as int, x1 as int, y1 as int, k, u, v) || (
                    x as int,
                    y as int,
                ) == (u, v)));
            }
        }
        if x == x1 && y == y1 {
            proof {
                assert(k == steps);
            }
            break ;
        }
        proof {
            assert(k < steps);
            lemma_line_walk(dx as int, -dy as int, (k + 1) as nat);
            crate::fixed::lemma_product_bound(
                line_state(dx as int, -dy as int, k).0,
                -dy as int,
                0x1_0000,
                0x1_0000,
            );
            crate::fixed::lemma_product_bound(
                line_state(dx as int, -dy as int, k).1,
                dx as int,
                0x1_0000,
                0x1_0000,
            );
        }
        let e2: i32 = 2 * err;
        if e2 >= dy {
            err = err + dy;
            x = x + sx;
        }
        if e2 <= dx {
            err = err + dx;
            y = y + sy;
        }
        proof {
            k = k + 1;
        }
    }
}

} // verus!
