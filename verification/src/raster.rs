//! Pixel-level drawing primitives over an RGBA byte buffer.
//!
//! Every primitive is total: a coordinate outside the buffer is clipped, pixel
//! by pixel, and never causes an out-of-range write. Each executable function
//! is proved to produce exactly the buffer described by its spec-level
//! counterpart, so the compositor built on top of them is deterministic.
//!
//! A buffer is row-major, four bytes (R, G, B, A) per pixel, `width` pixels
//! per row; a byte index past `buffer.len()` does not exist, and the last
//! partial pixel of a buffer whose length is not a multiple of four is never
//! written.

use vstd::prelude::*;

verus! {

/// Distance between two integers on the number line.
pub open spec fn dist(a: int, b: int) -> int {
    if a <= b {
        b - a
    } else {
        a - b
    }
}

/// First byte of the pixel at `(x, y)`.
pub open spec fn pixel_index(x: int, y: int, width: int) -> int {
    (y * width + x) * 4
}

/// The pixel at `(x, y)` lies fully inside a buffer of `len` bytes.
pub open spec fn pixel_in_bounds(len: int, x: int, y: int, width: int) -> bool {
    0 <= x < width && 0 <= y && y * width + x < len / 4
}

/// The buffer after overwriting the four channels of the pixel at `(x, y)`
/// with `color`; a pixel out of bounds leaves the buffer unchanged.
pub open spec fn put_pixel_spec(s: Seq<u8>, x: int, y: int, width: int, color: (u8, u8, u8, u8))
    -> Seq<u8> {
    if pixel_in_bounds(s.len() as int, x, y, width) {
        let i = pixel_index(x, y, width);
        s.update(i, color.0).update(i + 1, color.1).update(i + 2, color.2).update(i + 3, color.3)
    } else {
        s
    }
}

/// Overwrites one pixel, clipping instead of writing out of range.
pub fn put_pixel(buf: &mut Vec<u8>, x: usize, y: usize, width: usize, color: (u8, u8, u8, u8))
    ensures
        final(buf)@ == put_pixel_spec(old(buf)@, x as int, y as int, width as int, color),
        final(buf)@.len() == old(buf)@.len(),
{
    let len = buf.len();
    if x < width {
        proof {
            assert((y as u128) * (width as u128) <= 0xffffffffffffffff * 0xffffffffffffffff)
                by (nonlinear_arith)
                requires
                    y <= 0xffffffffffffffff,
                    width <= 0xffffffffffffffff,
            ;
        }
        let pix: u128 = (y as u128) * (width as u128) + (x as u128);
        if pix < (len / 4) as u128 {
            let i: usize = (pix as usize) * 4;
            buf.set(i, color.0);
            buf.set(i + 1, color.1);
            buf.set(i + 2, color.2);
            buf.set(i + 3, color.3);
        }
    }
}

/// One walk of the Bresenham error accumulator from `(x, y)` toward
/// `(x1, y1)`: plot, then step each axis whose error term allows it, one
/// pixel at a time along the dominant axis. `dx` and `dy` are the fixed
/// horizontal span and negated vertical span of the whole segment.
pub open spec fn line_rec(
    s: Seq<u8>,
    x: int,
    y: int,
    x1: int,
    y1: int,
    dx: int,
    dy: int,
    err: int,
    width: int,
    color: (u8, u8, u8, u8),
) -> Seq<u8>
    decreases dist(x, x1) + dist(y, y1),
{
    let s2 = put_pixel_spec(s, x, y, width, color);
    if x == x1 && y == y1 {
        s2
    } else {
        let e2 = 2 * err;
        let step_x = e2 >= dy && x != x1;
        let step_y = e2 <= dx && y != y1;
        let nx = if step_x { if x < x1 { x + 1 } else { x - 1 } } else { x };
        let ny = if step_y { if y < y1 { y + 1 } else { y - 1 } } else { y };
        let nerr = err + (if step_x { dy } else { 0 }) + (if step_y { dx } else { 0 });
        if nx == x && ny == y {
            s2
        } else {
            line_rec(s2, nx, ny, x1, y1, dx, dy, nerr, width, color)
        }
    }
}

/// The buffer after drawing the segment from `(x0, y0)` to `(x1, y1)`.
pub open spec fn draw_line_spec(
    s: Seq<u8>,
    x0: int,
    y0: int,
    x1: int,
    y1: int,
    width: int,
    color: (u8, u8, u8, u8),
) -> Seq<u8> {
    line_rec(
        s,
        x0,
        y0,
        x1,
        y1,
        dist(x0, x1),
        -dist(y0, y1),
        dist(x0, x1) - dist(y0, y1),
        width,
        color,
    )
}

/// Draws a line between two points, one pixel per integer step along the
/// dominant axis, overwriting the destination pixels.
pub fn draw_line(
    buf: &mut Vec<u8>,
    x0: usize,
    y0: usize,
    x1: usize,
    y1: usize,
    width: usize,
    color: (u8, u8, u8, u8),
)
    ensures
        final(buf)@ == draw_line_spec(
            old(buf)@,
            x0 as int,
            y0 as int,
            x1 as int,
            y1 as int,
            width as int,
            color,
        ),
        final(buf)@.len() == old(buf)@.len(),
{
    let ghost buf0 = buf@;
    let dx: i128 = if x1 >= x0 {
        (x1 - x0) as i128
    } else {
        (x0 - x1) as i128
    };
    let dyd: i128 = if y1 >= y0 {
        (y1 - y0) as i128
    } else {
        (y0 - y1) as i128
    };
    let dy: i128 = -dyd;
    let mut err: i128 = dx + dy;
    let mut x: usize = x0;
    let mut y: usize = y0;
    loop
        invariant
            buf@.len() == buf0.len(),
            dx as int == dist(x0 as int, x1 as int),
            dy as int == -dist(y0 as int, y1 as int),
            2 * dy <= err <= 2 * dx,
            draw_line_spec(
                buf0,
                x0 as int,
                y0 as int,
                x1 as int,
                y1 as int,
                width as int,
                color,
            ) == line_rec(
                buf@,
                x as int,
                y as int,
                x1 as int,
                y1 as int,
                dx as int,
                dy as int,
                err as int,
                width as int,
                color,
            ),
        ensures
            buf@ == draw_line_spec(
                buf0,
                x0 as int,
                y0 as int,
                x1 as int,
                y1 as int,
                width as int,
                color,
            ),
            buf@.len() == buf0.len(),
        decreases dist(x as int, x1 as int) + dist(y as int, y1 as int),
    {
        put_pixel(buf, x, y, width, color);
        if x == x1 && y == y1 {
            break;
        }
        let e2: i128 = 2 * err;
        let mut moved = false;
        if e2 >= dy && x != x1 {
            err = err + dy;
            if x < x1 {
                x = x + 1;
            } else {
                x = x - 1;
            }
            moved = true;
        }
        if e2 <= dx && y != y1 {
            err = err + dx;
            if y < y1 {
                y = y + 1;
            } else {
                y = y - 1;
            }
            moved = true;
        }
        if !moved {
            break;
        }
    }
}

/// The buffer after drawing the four border lines of the box with corners
/// `(x0, y0)` and `(x1, y1)`: top, right, bottom, then left.
pub open spec fn draw_rect_borders_spec(
    s: Seq<u8>,
    x0: int,
    y0: int,
    x1: int,
    y1: int,
    width: int,
    color: (u8, u8, u8, u8),
) -> Seq<u8> {
    let top = draw_line_spec(s, x0, y0, x1, y0, width, color);
    let right = draw_line_spec(top, x1, y0, x1, y1, width, color);
    let bottom = draw_line_spec(right, x1, y1, x0, y1, width, color);
    draw_line_spec(bottom, x0, y1, x0, y0, width, color)
}

/// Draws the four edges of the box with corners `(x0, y0)` and `(x1, y1)`.
pub fn draw_rect_borders(
    buf: &mut Vec<u8>,
    x0: usize,
    y0: usize,
    x1: usize,
    y1: usize,
    width: usize,
    color: (u8, u8, u8, u8),
)
    ensures
        final(buf)@ == draw_rect_borders_spec(
            old(buf)@,
            x0 as int,
            y0 as int,
            x1 as int,
            y1 as int,
            width as int,
            color,
        ),
        final(buf)@.len() == old(buf)@.len(),
{
    draw_line(buf, x0, y0, x1, y0, width, color);
    draw_line(buf, x1, y0, x1, y1, width, color);
    draw_line(buf, x1, y1, x0, y1, width, color);
    draw_line(buf, x0, y1, x0, y0, width, color);
}

/// One row of a filled box: the pixels from `x0` to `x1` inclusive at `y`,
/// or nothing when `x0 > x1`.
pub open spec fn fill_row_spec(
    s: Seq<u8>,
    x0: int,
    x1: int,
    y: int,
    width: int,
    color: (u8, u8, u8, u8),
) -> Seq<u8>
    decreases x1 - x0 + 1,
{
    if x0 > x1 {
        s
    } else {
        fill_row_spec(put_pixel_spec(s, x0, y, width, color), x0 + 1, x1, y, width, color)
    }
}

/// The rows `y0` to `y1` of a filled box with ordered corners, top to
/// bottom; nothing when `y0 > y1`.
pub open spec fn fill_rows_spec(
    s: Seq<u8>,
    x0: int,
    y0: int,
    x1: int,
    y1: int,
    width: int,
    color: (u8, u8, u8, u8),
) -> Seq<u8>
    decreases y1 - y0 + 1,
{
    if y0 > y1 {
        s
    } else {
        fill_rows_spec(fill_row_spec(s, x0, x1, y0, width, color), x0, y0 + 1, x1, y1, width, color)
    }
}

/// The buffer after overwriting every pixel of the inclusive box spanned by
/// the two corners. The corners may arrive in either order, as they do while
/// a rectangle is dragged up or left: the box is the same one the border
/// variant outlines.
pub open spec fn fill_rect_spec(
    s: Seq<u8>,
    x0: int,
    y0: int,
    x1: int,
    y1: int,
    width: int,
    color: (u8, u8, u8, u8),
) -> Seq<u8> {
    let lx = if x0 <= x1 { x0 } else { x1 };
    let hx = if x0 <= x1 { x1 } else { x0 };
    let ly = if y0 <= y1 { y0 } else { y1 };
    let hy = if y0 <= y1 { y1 } else { y0 };
    fill_rows_spec(s, lx, ly, hx, hy, width, color)
}

/// Overwrites the pixels of one row, from `x0` to `x1` inclusive.
fn fill_row(buf: &mut Vec<u8>, x0: usize, x1: usize, y: usize, width: usize, color: (u8, u8, u8, u8))
    ensures
        final(buf)@ == fill_row_spec(
            old(buf)@,
            x0 as int,
            x1 as int,
            y as int,
            width as int,
            color,
        ),
        final(buf)@.len() == old(buf)@.len(),
{
    let ghost buf0 = buf@;
    if x0 > x1 {
        return;
    }
    let mut x: usize = x0;
    loop
        invariant_except_break
            fill_row_spec(buf0, x0 as int, x1 as int, y as int, width as int, color)
                == fill_row_spec(buf@, x as int, x1 as int, y as int, width as int, color),
        invariant
            x0 <= x <= x1,
            buf@.len() == buf0.len(),
        ensures
            buf@ == fill_row_spec(buf0, x0 as int, x1 as int, y as int, width as int, color),
            buf@.len() == buf0.len(),
        decreases x1 - x,
    {
        put_pixel(buf, x, y, width, color);
        if x == x1 {
            assert(fill_row_spec(buf@, x1 + 1, x1 as int, y as int, width as int, color) == buf@);
            break;
        }
        x = x + 1;
    }
}

/// Overwrites every pixel of the inclusive box spanned by the two corners,
/// whichever order they arrive in.
pub fn draw_rect_filled(
    buf: &mut Vec<u8>,
    x0: usize,
    y0: usize,
    x1: usize,
    y1: usize,
    width: usize,
    color: (u8, u8, u8, u8),
)
    ensures
        final(buf)@ == fill_rect_spec(
            old(buf)@,
            x0 as int,
            y0 as int,
            x1 as int,
            y1 as int,
            width as int,
            color,
        ),
        final(buf)@.len() == old(buf)@.len(),
{
    let ghost buf0 = buf@;
    let lx = if x0 <= x1 { x0 } else { x1 };
    let hx = if x0 <= x1 { x1 } else { x0 };
    let ly = if y0 <= y1 { y0 } else { y1 };
    let hy = if y0 <= y1 { y1 } else { y0 };
    let mut y: usize = ly;
    loop
        invariant_except_break
            fill_rows_spec(buf0, lx as int, ly as int, hx as int, hy as int, width as int, color)
                == fill_rows_spec(
                buf@,
                lx as int,
                y as int,
                hx as int,
                hy as int,
                width as int,
                color,
            ),
        invariant
            ly <= y <= hy,
            lx <= hx,
            buf@.len() == buf0.len(),
        ensures
            buf@ == fill_rows_spec(
                buf0,
                lx as int,
                ly as int,
                hx as int,
                hy as int,
                width as int,
                color,
            ),
            buf@.len() == buf0.len(),
        decreases hy - y,
    {
        fill_row(buf, lx, hx, y, width, color);
        if y == hy {
            assert(fill_rows_spec(buf@, lx as int, hy + 1, hx as int, hy as int, width as int,
                color) == buf@);
            break;
        }
        y = y + 1;
    }
}

/// Two distinct pixel coordinates of one row-major buffer have distinct
/// pixel numbers.
proof fn lemma_pixel_distinct(x: int, y: int, qx: int, qy: int, width: int)
    requires
        0 <= x < width,
        0 <= qx < width,
        0 <= y,
        0 <= qy,
        (x, y) != (qx, qy),
    ensures
        y * width + x != qy * width + qx,
{
    if y == qy {
        assert(y * width + x != qy * width + qx);
    } else {
        assert(y * width + x != qy * width + qx) by (nonlinear_arith)
            requires
                0 <= x < width,
                0 <= qx < width,
                y != qy,
                0 <= y,
                0 <= qy,
        ;
    }
}

/// Writing one pixel leaves every byte of every other pixel unchanged.
proof fn lemma_put_pixel_other(
    s: Seq<u8>,
    x: int,
    y: int,
    width: int,
    color: (u8, u8, u8, u8),
    qx: int,
    qy: int,
    k: int,
)
    requires
        0 <= qx < width,
        0 <= qy,
        0 <= k < 4,
        pixel_index(qx, qy, width) + k < s.len(),
        (x, y) != (qx, qy),
    ensures
        put_pixel_spec(s, x, y, width, color)[pixel_index(qx, qy, width) + k]
            == s[pixel_index(qx, qy, width) + k],
{
    if pixel_in_bounds(s.len() as int, x, y, width) {
        lemma_pixel_distinct(x, y, qx, qy, width);
        let p = y * width + x;
        let q = qy * width + qx;
        assert(q * 4 + k < p * 4 || q * 4 + k > p * 4 + 3) by (nonlinear_arith)
            requires
                p != q,
                0 <= k < 4,
        ;
    }
}

/// A line never touches a pixel outside the bounding box of its two
/// endpoints.
proof fn lemma_line_rec_outside(
    s: Seq<u8>,
    x: int,
    y: int,
    x1: int,
    y1: int,
    dx: int,
    dy: int,
    err: int,
    width: int,
    color: (u8, u8, u8, u8),
    qx: int,
    qy: int,
    k: int,
)
    requires
        0 <= qx < width,
        0 <= qy,
        0 <= k < 4,
        pixel_index(qx, qy, width) + k < s.len(),
        !(dist(x, qx) + dist(qx, x1) == dist(x, x1) && dist(y, qy) + dist(qy, y1) == dist(y, y1)),
    ensures
        line_rec(s, x, y, x1, y1, dx, dy, err, width, color)[pixel_index(qx, qy, width) + k]
            == s[pixel_index(qx, qy, width) + k],
    decreases dist(x, x1) + dist(y, y1),
{
    lemma_put_pixel_other(s, x, y, width, color, qx, qy, k);
    let s2 = put_pixel_spec(s, x, y, width, color);
    assert(s2.len() == s.len());
    if x == x1 && y == y1 {
    } else {
        let e2 = 2 * err;
        let step_x = e2 >= dy && x != x1;
        let step_y = e2 <= dx && y != y1;
        let nx = if step_x { if x < x1 { x + 1 } else { x - 1 } } else { x };
        let ny = if step_y { if y < y1 { y + 1 } else { y - 1 } } else { y };
        let nerr = err + (if step_x { dy } else { 0 }) + (if step_y { dx } else { 0 });
        if nx == x && ny == y {
        } else {
            lemma_line_rec_outside(s2, nx, ny, x1, y1, dx, dy, nerr, width, color, qx, qy, k);
        }
    }
}

/// A pixel strictly outside the bounding box of a segment's endpoints keeps
/// all four of its bytes when the segment is drawn.
pub proof fn lemma_draw_line_outside(
    s: Seq<u8>,
    x0: int,
    y0: int,
    x1: int,
    y1: int,
    width: int,
    color: (u8, u8, u8, u8),
    qx: int,
    qy: int,
    k: int,
)
    requires
        0 <= qx < width,
        0 <= qy,
        0 <= k < 4,
        pixel_index(qx, qy, width) + k < s.len(),
        !(dist(x0, qx) + dist(qx, x1) == dist(x0, x1) && dist(y0, qy) + dist(qy, y1) == dist(
            y0,
            y1,
        )),
    ensures
        draw_line_spec(s, x0, y0, x1, y1, width, color)[pixel_index(qx, qy, width) + k]
            == s[pixel_index(qx, qy, width) + k],
{
    lemma_line_rec_outside(
        s,
        x0,
        y0,
        x1,
        y1,
        dist(x0, x1),
        -dist(y0, y1),
        dist(x0, x1) - dist(y0, y1),
        width,
        color,
        qx,
        qy,
        k,
    );
}

/// A pixel strictly inside a box keeps all four of its bytes when the box's
/// border is drawn.
pub proof fn lemma_rect_borders_inside_untouched(
    s: Seq<u8>,
    x0: int,
    y0: int,
    x1: int,
    y1: int,
    width: int,
    color: (u8, u8, u8, u8),
    qx: int,
    qy: int,
    k: int,
)
    requires
        0 <= qx < width,
        0 <= qy,
        0 <= k < 4,
        pixel_index(qx, qy, width) + k < s.len(),
        dist(x0, qx) + dist(qx, x1) == dist(x0, x1),
        dist(y0, qy) + dist(qy, y1) == dist(y0, y1),
        qx != x0 && qx != x1 && qy != y0 && qy != y1,
    ensures
        draw_rect_borders_spec(s, x0, y0, x1, y1, width, color)[pixel_index(qx, qy, width) + k]
            == s[pixel_index(qx, qy, width) + k],
{
    let top = draw_line_spec(s, x0, y0, x1, y0, width, color);
    let right = draw_line_spec(top, x1, y0, x1, y1, width, color);
    let bottom = draw_line_spec(right, x1, y1, x0, y1, width, color);
    lemma_draw_line_outside(s, x0, y0, x1, y0, width, color, qx, qy, k);
    lemma_line_len(s, x0, y0, x1, y0, width, color);
    lemma_draw_line_outside(top, x1, y0, x1, y1, width, color, qx, qy, k);
    lemma_line_len(top, x1, y0, x1, y1, width, color);
    lemma_draw_line_outside(right, x1, y1, x0, y1, width, color, qx, qy, k);
    lemma_line_len(right, x1, y1, x0, y1, width, color);
    lemma_draw_line_outside(bottom, x0, y1, x0, y0, width, color, qx, qy, k);
}

/// Drawing a line preserves the buffer's length.
pub proof fn lemma_line_len(
    s: Seq<u8>,
    x0: int,
    y0: int,
    x1: int,
    y1: int,
    width: int,
    color: (u8, u8, u8, u8),
)
    ensures
        draw_line_spec(s, x0, y0, x1, y1, width, color).len() == s.len(),
{
    lemma_line_rec_len(
        s,
        x0,
        y0,
        x1,
        y1,
        dist(x0, x1),
        -dist(y0, y1),
        dist(x0, x1) - dist(y0, y1),
        width,
        color,
    );
}

/// Drawing a rectangle border preserves the buffer's length.
pub proof fn lemma_rect_borders_len(
    s: Seq<u8>,
    x0: int,
    y0: int,
    x1: int,
    y1: int,
    width: int,
    color: (u8, u8, u8, u8),
)
    ensures
        draw_rect_borders_spec(s, x0, y0, x1, y1, width, color).len() == s.len(),
{
    let top = draw_line_spec(s, x0, y0, x1, y0, width, color);
    let right = draw_line_spec(top, x1, y0, x1, y1, width, color);
    let bottom = draw_line_spec(right, x1, y1, x0, y1, width, color);
    lemma_line_len(s, x0, y0, x1, y0, width, color);
    lemma_line_len(top, x1, y0, x1, y1, width, color);
    lemma_line_len(right, x1, y1, x0, y1, width, color);
    lemma_line_len(bottom, x0, y1, x0, y0, width, color);
}

/// Filling one row preserves the buffer's length.
pub proof fn lemma_fill_row_len(
    s: Seq<u8>,
    x0: int,
    x1: int,
    y: int,
    width: int,
    color: (u8, u8, u8, u8),
)
    ensures
        fill_row_spec(s, x0, x1, y, width, color).len() == s.len(),
    decreases x1 - x0 + 1,
{
    if x0 > x1 {
    } else {
        lemma_fill_row_len(put_pixel_spec(s, x0, y, width, color), x0 + 1, x1, y, width, color);
    }
}

/// Filling the rows of a box with ordered corners preserves the buffer's
/// length.
proof fn lemma_fill_rows_len(
    s: Seq<u8>,
    x0: int,
    y0: int,
    x1: int,
    y1: int,
    width: int,
    color: (u8, u8, u8, u8),
)
    ensures
        fill_rows_spec(s, x0, y0, x1, y1, width, color).len() == s.len(),
    decreases y1 - y0 + 1,
{
    if y0 > y1 {
    } else {
        lemma_fill_row_len(s, x0, x1, y0, width, color);
        lemma_fill_rows_len(
            fill_row_spec(s, x0, x1, y0, width, color),
            x0,
            y0 + 1,
            x1,
            y1,
            width,
            color,
        );
    }
}

/// Filling a box preserves the buffer's length.
pub proof fn lemma_fill_rect_len(
    s: Seq<u8>,
    x0: int,
    y0: int,
    x1: int,
    y1: int,
    width: int,
    color: (u8, u8, u8, u8),
)
    ensures
        fill_rect_spec(s, x0, y0, x1, y1, width, color).len() == s.len(),
{
    let lx = if x0 <= x1 { x0 } else { x1 };
    let hx = if x0 <= x1 { x1 } else { x0 };
    let ly = if y0 <= y1 { y0 } else { y1 };
    let hy = if y0 <= y1 { y1 } else { y0 };
    lemma_fill_rows_len(s, lx, ly, hx, hy, width, color);
}

proof fn lemma_line_rec_len(
    s: Seq<u8>,
    x: int,
    y: int,
    x1: int,
    y1: int,
    dx: int,
    dy: int,
    err: int,
    width: int,
    color: (u8, u8, u8, u8),
)
    ensures
        line_rec(s, x, y, x1, y1, dx, dy, err, width, color).len() == s.len(),
    decreases dist(x, x1) + dist(y, y1),
{
    let s2 = put_pixel_spec(s, x, y, width, color);
    if x == x1 && y == y1 {
    } else {
        let e2 = 2 * err;
        let step_x = e2 >= dy && x != x1;
        let step_y = e2 <= dx && y != y1;
        let nx = if step_x { if x < x1 { x + 1 } else { x - 1 } } else { x };
        let ny = if step_y { if y < y1 { y + 1 } else { y - 1 } } else { y };
        let nerr = err + (if step_x { dy } else { 0 }) + (if step_y { dx } else { 0 });
        if nx == x && ny == y {
        } else {
            lemma_line_rec_len(s2, nx, ny, x1, y1, dx, dy, nerr, width, color);
        }
    }
}

} // verus!
