//! Integer rasterisation of preview geometry into a fixed-size RGB canvas.
//!
//! The canvas is the image crate's `RgbImage`.  Its contents are modelled as
//! a map from pixel coordinates to colours; every drawing routine here is
//! proved to paint exactly the pixels of its shape that fall on the canvas
//! and to leave every other pixel alone.

use vstd::prelude::*;
use image::{ImageBuffer, Rgb, RgbImage};

verus! {

/// Width of the preview screenshot, in pixels.
pub const SCREENSHOT_WIDTH: u32 = 1600;

/// Height of the preview screenshot, in pixels.
pub const SCREENSHOT_HEIGHT: u32 = 900;

/// An RGB pixel grid held in the image crate's `RgbImage`.
///
/// The image crate's pixel type cannot be named to the verifier (one of its
/// bounds is a private trait of that crate), so the buffer is kept behind
/// this opaque struct and reached only through the wrappers below.
#[verifier::external_body]
pub struct Raster {
    pub image: RgbImage,
}

/// The (width, height) a raster was made with.
pub uninterp spec fn raster_size(r: Raster) -> (u32, u32);

/// The colour of every pixel of a raster, keyed by its (x, y) position.
pub uninterp spec fn raster_pixels(r: Raster) -> Map<(u32, u32), (u8, u8, u8)>;

/// Whether `(x, y)` lies on a `width` x `height` canvas.
pub open spec fn on_canvas(x: int, y: int, width: u32, height: u32) -> bool {
    0 <= x < width && 0 <= y < height
}

/// The canvas of `size` with every pixel for which `hit` holds painted
/// `color`: the pixels that a drawing routine adds to a raster.
pub open spec fn cover(size: (u32, u32), hit: spec_fn(int, int) -> bool, color: (u8, u8, u8)) -> Map<
    (u32, u32),
    (u8, u8, u8),
> {
    Map::new(
        |p: (u32, u32)| on_canvas(p.0 as int, p.1 as int, size.0, size.1) && hit(p.0 as int, p.1 as int),
        |p: (u32, u32)| color,
    )
}

/// image's `ImageBuffer::from_pixel`: a `width` x `height` buffer whose
/// every pixel is `fill`.  It panics when the byte length overflows
/// `usize`, which the precondition rules out.
#[verifier::external_body]
fn raster_from_pixel(width: u32, height: u32, fill: (u8, u8, u8)) -> (r: Raster)
    requires
        width as int * height as int * 3 <= usize::MAX,
    ensures
        raster_size(r) == (width, height),
        raster_pixels(r) == Map::new(
            |p: (u32, u32)| p.0 < width && p.1 < height,
            |p: (u32, u32)| fill,
        ),
{
    Raster { image: ImageBuffer::from_pixel(width, height, Rgb([fill.0, fill.1, fill.2])) }
}

/// image's `ImageBuffer::width` and `height`: the size the buffer was made
/// with.
#[verifier::external_body]
fn raster_dimensions(r: &Raster) -> (d: (u32, u32))
    ensures
        d == raster_size(*r),
{
    r.image.dimensions()
}

/// image's `ImageBuffer::put_pixel`: sets the pixel at `(x, y)` to `color`
/// and leaves the others and the size as they were.  It panics outside the
/// buffer, which the precondition rules out.
#[verifier::external_body]
fn raster_put_pixel(r: &mut Raster, x: u32, y: u32, color: (u8, u8, u8))
    requires
        x < raster_size(*old(r)).0,
        y < raster_size(*old(r)).1,
    ensures
        raster_size(*final(r)) == raster_size(*old(r)),
        raster_pixels(*final(r)) == raster_pixels(*old(r)).insert((x, y), color),
{
    r.image.put_pixel(x, y, Rgb([color.0, color.1, color.2]));
}

/// The white canvas of the preview screenshot.
pub fn blank_screenshot() -> (r: Raster)
    ensures
        raster_size(r) == (SCREENSHOT_WIDTH, SCREENSHOT_HEIGHT),
        forall|p: (u32, u32)|
            #![trigger raster_pixels(r).dom().contains(p)]
            raster_pixels(r).dom().contains(p) <==> on_canvas(p.0 as int, p.1 as int, SCREENSHOT_WIDTH, SCREENSHOT_HEIGHT),
        forall|p: (u32, u32)|
            raster_pixels(r).dom().contains(p) ==> #[trigger] raster_pixels(r)[p] == (255u8, 255u8, 255u8),
{
    raster_from_pixel(SCREENSHOT_WIDTH, SCREENSHOT_HEIGHT, (255, 255, 255))
}

/// Paints the pixel at `(x, y)` when it lies on the canvas; does nothing
/// otherwise.
pub fn put(img: &mut Raster, x: i32, y: i32, color: (u8, u8, u8))
    ensures
        raster_size(*final(img)) == raster_size(*old(img)),
        raster_pixels(*final(img)) == (if on_canvas(x as int, y as int, raster_size(*old(img)).0, raster_size(*old(img)).1) {
            raster_pixels(*old(img)).insert((x as u32, y as u32), color)
        } else {
            raster_pixels(*old(img))
        }),
{
    if x < 0 || y < 0 {
        return ;
    }
    let (w, h) = raster_dimensions(img);
    let ux = x as u32;
    let uy = y as u32;
    if ux >= w || uy >= h {
        return ;
    }
    raster_put_pixel(img, ux, uy, color);
}

/// Distance between two integers.
pub open spec fn gap(a: int, b: int) -> int {
    if a <= b { b - a } else { a - b }
}

/// One step from `from` toward `to`.
pub open spec fn toward(from: int, to: int) -> int {
    if from < to { from + 1 } else { from - 1 }
}

/// The pixels that the Bresenham walk visits from `(x, y)` with error
/// term `err` toward `(x1, y1)`, for the spans `dx >= 0` and `dy <= 0`:
/// each visited pixel, in order, up to and including the one where the
/// walk stops.
pub open spec fn line_walk(x: int, y: int, err: int, x1: int, y1: int, dx: int, dy: int) -> Seq<(int, int)>
    decreases gap(x, x1) + gap(y, y1),
{
    let e2 = 2 * err;
    let step_x = e2 >= dy;
    let step_y = e2 <= dx;
    if (x == x1 && y == y1) || (step_x && x == x1) || (step_y && y == y1) || (!step_x && !step_y) {
        seq![(x, y)]
    } else {
        let nx = if step_x { toward(x, x1) } else { x };
        let ny = if step_y { toward(y, y1) } else { y };
        let nerr = err + (if step_x { dy } else { 0 }) + (if step_y { dx } else { 0 });
        seq![(x, y)] + line_walk(nx, ny, nerr, x1, y1, dx, dy)
    }
}

/// The pixels of the Bresenham line from `(x0, y0)` to `(x1, y1)`.
pub open spec fn line_points(x0: int, y0: int, x1: int, y1: int) -> Seq<(int, int)> {
    let dx = gap(x0, x1);
    let dy = -gap(y0, y1);
    line_walk(x0, y0, dx + dy, x1, y1, dx, dy)
}

/// Whether `b` is one of the eight pixels around `a`.
pub open spec fn neighbours(a: (int, int), b: (int, int)) -> bool {
    a != b && gap(a.0, b.0) <= 1 && gap(a.1, b.1) <= 1
}

/// Whether `v` lies between `lo` and `hi`, in either order.
pub open spec fn between(lo: int, v: int, hi: int) -> bool {
    (lo <= v <= hi) || (hi <= v <= lo)
}

proof fn lemma_walk_shape(x: int, y: int, err: int, x0: int, y0: int, x1: int, y1: int, dx: int, dy: int)
    requires
        dx == gap(x0, x1),
        dy == -gap(y0, y1),
        between(x0, x, x1),
        between(y0, y, y1),
        err == dx + dy + gap(x0, x) * dy + gap(y0, y) * dx,
    ensures
        line_walk(x, y, err, x1, y1, dx, dy).len() >= 1,
        line_walk(x, y, err, x1, y1, dx, dy)[0] == (x, y),
        line_walk(x, y, err, x1, y1, dx, dy).last() == (x1, y1),
        forall|i: int|
            0 <= i < line_walk(x, y, err, x1, y1, dx, dy).len() - 1 ==> neighbours(
                #[trigger] line_walk(x, y, err, x1, y1, dx, dy)[i],
                line_walk(x, y, err, x1, y1, dx, dy)[i + 1],
            ),
    decreases gap(x, x1) + gap(y, y1),
{
    let e2 = 2 * err;
    let step_x = e2 >= dy;
    let step_y = e2 <= dx;
    let nx0 = gap(x0, x);
    let ny0 = gap(y0, y);
    if x == x1 && y == y1 {
    } else if step_x && x == x1 {
        // Here the error term is at most `dy`, which rules out a step along x.
        assert(nx0 == dx);
        assert(ny0 < -dy);
        assert(dx * (1 + dy + ny0) <= 0) by (nonlinear_arith)
            requires
                dx >= 0,
                1 + dy + ny0 <= 0,
        ;
        assert(err == dx * (1 + dy + ny0) + dy) by (nonlinear_arith)
            requires
                err == dx + dy + nx0 * dy + ny0 * dx,
                nx0 == dx,
        ;
    } else if step_y && y == y1 {
        // Here the error term is at least `dx`, which rules out a step along y.
        assert(ny0 == -dy);
        assert(nx0 < dx);
        assert(dy * (1 + nx0 - dx) >= 0) by (nonlinear_arith)
            requires
                dy <= 0,
                1 + nx0 - dx <= 0,
        ;
        assert(err == dx + dy * (1 + nx0 - dx)) by (nonlinear_arith)
            requires
                err == dx + dy + nx0 * dy + ny0 * dx,
                ny0 == -dy,
        ;
    } else {
        let nx = if step_x { toward(x, x1) } else { x };
        let ny = if step_y { toward(y, y1) } else { y };
        let nerr = err + (if step_x { dy } else { 0 }) + (if step_y { dx } else { 0 });
        assert(gap(x0, nx) == nx0 + (if step_x { 1int } else { 0 }));
        assert(gap(y0, ny) == ny0 + (if step_y { 1int } else { 0 }));
        assert(nerr == dx + dy + gap(x0, nx) * dy + gap(y0, ny) * dx) by (nonlinear_arith)
            requires
                err == dx + dy + nx0 * dy + ny0 * dx,
                nerr == err + (if step_x { dy } else { 0 }) + (if step_y { dx } else { 0 }),
                gap(x0, nx) == nx0 + (if step_x { 1int } else { 0 }),
                gap(y0, ny) == ny0 + (if step_y { 1int } else { 0 }),
        ;
        lemma_walk_shape(nx, ny, nerr, x0, y0, x1, y1, dx, dy);
        let rest = line_walk(nx, ny, nerr, x1, y1, dx, dy);
        let all = line_walk(x, y, err, x1, y1, dx, dy);
        assert(all == seq![(x, y)] + rest);
        assert forall|i: int| 0 <= i < all.len() - 1 implies neighbours(#[trigger] all[i], all[i + 1]) by {
            if i > 0 {
                assert(all[i] == rest[i - 1]);
                assert(all[i + 1] == rest[i]);
            }
        }
    }
}

proof fn lemma_walk_length(x: int, y: int, err: int, x0: int, y0: int, x1: int, y1: int, dx: int, dy: int)
    requires
        dx == gap(x0, x1),
        dy == -gap(y0, y1),
        between(x0, x, x1),
        between(y0, y, y1),
        err == dx + dy + gap(x0, x) * dy + gap(y0, y) * dx,
        ({
            let f = gap(y0, y) * dx + gap(x0, x) * dy;
            if dx >= -dy {
                -dx <= 2 * f <= dx
            } else {
                dy <= 2 * f <= -dy
            }
        }),
    ensures
        line_walk(x, y, err, x1, y1, dx, dy).len() == (if dx >= -dy {
            dx - gap(x0, x) + 1
        } else {
            -dy - gap(y0, y) + 1
        }),
    decreases gap(x, x1) + gap(y, y1),
{
    let e2 = 2 * err;
    let step_x = e2 >= dy;
    let step_y = e2 <= dx;
    let a = gap(x0, x);
    let b = gap(y0, y);
    let f = b * dx + a * dy;
    assert(err == dx + dy + f);
    if x == x1 && y == y1 {
    } else if step_x && x == x1 {
        assert(a == dx);
        assert(b < -dy);
        assert(dx * (1 + dy + b) <= 0) by (nonlinear_arith)
            requires
                dx >= 0,
                1 + dy + b <= 0,
        ;
        assert(err == dx * (1 + dy + b) + dy) by (nonlinear_arith)
            requires
                err == dx + dy + a * dy + b * dx,
                a == dx,
        ;
    } else if step_y && y == y1 {
        assert(b == -dy);
        assert(a < dx);
        assert(dy * (1 + a - dx) >= 0) by (nonlinear_arith)
            requires
                dy <= 0,
                1 + a - dx <= 0,
        ;
        assert(err == dx + dy * (1 + a - dx)) by (nonlinear_arith)
            requires
                err == dx + dy + a * dy + b * dx,
                b == -dy,
        ;
    } else {
        // Along the major axis every step advances.
        assert(dx >= -dy ==> step_x);
        assert(dx < -dy ==> step_y);
        let nx = if step_x { toward(x, x1) } else { x };
        let ny = if step_y { toward(y, y1) } else { y };
        let nerr = err + (if step_x { dy } else { 0 }) + (if step_y { dx } else { 0 });
        let na = gap(x0, nx);
        let nb = gap(y0, ny);
        assert(na == a + (if step_x { 1int } else { 0 }));
        assert(nb == b + (if step_y { 1int } else { 0 }));
        assert(nb * dx + na * dy == f + (if step_y { dx } else { 0 }) + (if step_x { dy } else { 0 })) by (nonlinear_arith)
            requires
                f == b * dx + a * dy,
                na == a + (if step_x { 1int } else { 0 }),
                nb == b + (if step_y { 1int } else { 0 }),
        ;
        assert(nerr == dx + dy + na * dy + nb * dx);
        lemma_walk_length(nx, ny, nerr, x0, y0, x1, y1, dx, dy);
    }
}

/// The Bresenham line from `(x0, y0)` to `(x1, y1)` starts at the first
/// point, ends at the second, steps to one of the eight neighbouring pixels
/// each time, and has one pixel per unit of its longer span.
pub proof fn lemma_line_shape(x0: int, y0: int, x1: int, y1: int)
    ensures
        line_points(x0, y0, x1, y1).len() == (if gap(x0, x1) >= gap(y0, y1) {
            gap(x0, x1)
        } else {
            gap(y0, y1)
        }) + 1,
        line_points(x0, y0, x1, y1)[0] == (x0, y0),
        line_points(x0, y0, x1, y1).last() == (x1, y1),
        forall|i: int|
            0 <= i < line_points(x0, y0, x1, y1).len() - 1 ==> neighbours(
                #[trigger] line_points(x0, y0, x1, y1)[i],
                line_points(x0, y0, x1, y1)[i + 1],
            ),
{
    let dx = gap(x0, x1);
    let dy = -gap(y0, y1);
    assert(dx + dy == dx + dy + gap(x0, x0) * dy + gap(y0, y0) * dx) by (nonlinear_arith)
        requires
            gap(x0, x0) == 0,
            gap(y0, y0) == 0,
    ;
    lemma_walk_shape(x0, y0, dx + dy, x0, y0, x1, y1, dx, dy);
    assert(gap(y0, y0) * dx + gap(x0, x0) * dy == 0) by (nonlinear_arith)
        requires
            gap(x0, x0) == 0,
            gap(y0, y0) == 0,
    ;
    lemma_walk_length(x0, y0, dx + dy, x0, y0, x1, y1, dx, dy);
}

/// Whether `(x, y)` is one of `pts`.
pub open spec fn among(pts: Seq<(int, int)>) -> spec_fn(int, int) -> bool {
    |x: int, y: int| pts.contains((x, y))
}

proof fn lemma_cover_push(
    base: Map<(u32, u32), (u8, u8, u8)>,
    size: (u32, u32),
    pts: Seq<(int, int)>,
    x: int,
    y: int,
    color: (u8, u8, u8),
)
    ensures
        ({
            let before = base.union_prefer_right(cover(size, among(pts), color));
            let after = base.union_prefer_right(cover(size, among(pts.push((x, y))), color));
            after == (if on_canvas(x, y, size.0, size.1) {
                before.insert((x as u32, y as u32), color)
            } else {
                before
            })
        }),
{
    broadcast use vstd::seq_lib::lemma_seq_contains_after_push;

    let before = base.union_prefer_right(cover(size, among(pts), color));
    let after = base.union_prefer_right(cover(size, among(pts.push((x, y))), color));
    if on_canvas(x, y, size.0, size.1) {
        assert(after =~= before.insert((x as u32, y as u32), color));
    } else {
        assert(after =~= before);
    }
}

/// Draws the Bresenham line from `(x0, y0)` to `(x1, y1)`: every pixel of
/// `line_points` that lies on the canvas is painted `color`, and nothing
/// else changes.
pub fn draw_line(img: &mut Raster, x0: i32, y0: i32, x1: i32, y1: i32, color: (u8, u8, u8))
    ensures
        raster_size(*final(img)) == raster_size(*old(img)),
        raster_pixels(*final(img)) == raster_pixels(*old(img)).union_prefer_right(
            cover(raster_size(*old(img)), among(line_points(x0 as int, y0 as int, x1 as int, y1 as int)), color),
        ),
{
    let ghost size = raster_size(*img);
    let ghost base = raster_pixels(*img);
    let ghost full = line_points(x0 as int, y0 as int, x1 as int, y1 as int);
    let wx0: i64 = x0 as i64;
    let wy0: i64 = y0 as i64;
    let wx1: i64 = x1 as i64;
    let wy1: i64 = y1 as i64;
    let dx: i64 = if wx0 <= wx1 { wx1 - wx0 } else { wx0 - wx1 };
    let dy: i64 = if wy0 <= wy1 { wy0 - wy1 } else { wy1 - wy0 };
    let sx: i64 = if wx0 < wx1 { 1 } else { -1 };
    let sy: i64 = if wy0 < wy1 { 1 } else { -1 };
    let mut err: i64 = dx + dy;
    let mut x: i64 = wx0;
    let mut y: i64 = wy0;
    let ghost mut drawn: Seq<(int, int)> = Seq::empty();
    proof {
        assert(base.union_prefer_right(cover(size, among(drawn), color)) =~= base);
        assert(full =~= drawn + line_walk(x as int, y as int, err as int, x1 as int, y1 as int, dx as int, dy as int));
    }
    loop
        invariant_except_break
            full == drawn + line_walk(x as int, y as int, err as int, x1 as int, y1 as int, dx as int, dy as int),
        invariant
            raster_size(*img) == size,
            raster_pixels(*img) == base.union_prefer_right(cover(size, among(drawn), color)),
            wx1 == x1,
            wy1 == y1,
            dx == gap(x0 as int, x1 as int),
            dy == -gap(y0 as int, y1 as int),
            2 * dy <= err <= 2 * dx,
            if x0 < x1 { sx == 1 && x0 <= x <= x1 } else { sx == -1 && x1 <= x <= x0 },
            if y0 < y1 { sy == 1 && y0 <= y <= y1 } else { sy == -1 && y1 <= y <= y0 },
        ensures
            raster_size(*img) == size,
            raster_pixels(*img) == base.union_prefer_right(cover(size, among(full), color)),
        decreases gap(x as int, x1 as int) + gap(y as int, y1 as int),
    {
        proof {
            lemma_cover_push(base, size, drawn, x as int, y as int, color);
        }
        put(img, x as i32, y as i32, color);
        let ghost rest = line_walk(x as int, y as int, err as int, x1 as int, y1 as int, dx as int, dy as int);
        let ghost here = (x as int, y as int);
        proof {
            drawn = drawn.push((x as int, y as int));
        }
        let e2: i64 = 2 * err;
        if (x == wx1 && y == wy1) || (e2 >= dy && x == wx1) || (e2 <= dx && y == wy1) {
            assert(rest =~= seq![(x as int, y as int)]);
            assert(full =~= drawn);
            break;
        }
        if e2 >= dy {
            err = err + dy;
            x = x + sx;
        }
        if e2 <= dx {
            err = err + dx;
            y = y + sy;
        }
        assert(rest =~= seq![here] + line_walk(x as int, y as int, err as int, x1 as int, y1 as int, dx as int, dy as int));
        assert(full =~= drawn + line_walk(x as int, y as int, err as int, x1 as int, y1 as int, dx as int, dy as int));
    }
}

/// The octant points `(x, y)`, `y <= x`, that the midpoint circle walk
/// visits from `(x, y)` with error term `err`, in order.
pub open spec fn circle_walk(x: int, y: int, err: int) -> Seq<(int, int)>
    decreases x - y + 2,
{
    if y > x {
        Seq::empty()
    } else {
        let ny = y + 1;
        let nx = if err < 0 { x } else { x - 1 };
        let nerr = if err < 0 { err + 2 * ny + 1 } else { err + 2 * (ny - nx) + 1 };
        seq![(x, y)] + circle_walk(nx, ny, nerr)
    }
}

/// The octant points of the midpoint circle of radius `r`: the single
/// point at the centre when `r <= 0`.
pub open spec fn circle_points(r: int) -> Seq<(int, int)> {
    if r <= 0 {
        seq![(0int, 0int)]
    } else {
        circle_walk(r, 0, 1 - r)
    }
}

/// Whether `(px, py)` is one of the eight mirror images, about the centre
/// `(cx, cy)`, of the octant point `(x, y)`.
pub open spec fn mirrors(cx: int, cy: int, x: int, y: int, px: int, py: int) -> bool {
    (gap(cx, px) == x && gap(cy, py) == y) || (gap(cx, px) == y && gap(cy, py) == x)
}

/// Whether `(px, py)` mirrors one of the octant points `pts` about
/// `(cx, cy)`.
pub open spec fn circle_hit(pts: Seq<(int, int)>, cx: int, cy: int) -> spec_fn(int, int) -> bool {
    |px: int, py: int|
        pts.contains((gap(cx, px), gap(cy, py))) || pts.contains((gap(cy, py), gap(cx, px)))
}

/// The pixels a circle paints are symmetric about its centre: mirrored in
/// either axis through the centre or in the diagonal, a painted pixel stays
/// painted.
pub proof fn lemma_circle_symmetry(r: int, cx: int, cy: int, px: int, py: int)
    requires
        circle_hit(circle_points(r), cx, cy)(px, py),
    ensures
        circle_hit(circle_points(r), cx, cy)(2 * cx - px, py),
        circle_hit(circle_points(r), cx, cy)(px, 2 * cy - py),
        circle_hit(circle_points(r), cx, cy)(cx + (py - cy), cy + (px - cx)),
{
}

/// Whether the pixel offset `p` from a circle's centre lies within half a
/// pixel of the circle of radius `r`: `(r - 1/2)^2 < x^2 + y^2 < (r + 1/2)^2`,
/// which for integers is `r^2 - r < x^2 + y^2 <= r^2 + r`.
pub open spec fn near_circle(p: (int, int), r: int) -> bool {
    r * r - r < p.0 * p.0 + p.1 * p.1 <= r * r + r
}

proof fn lemma_circle_walk_near(x: int, y: int, err: int, r: int)
    requires
        r > 0,
        0 <= y,
        x <= r,
        err == x * x + y * y - r * r - x + 2 * y + 1,
        y <= x ==> near_circle((x, y), r),
    ensures
        forall|i: int|
            0 <= i < circle_walk(x, y, err).len() ==> near_circle(#[trigger] circle_walk(x, y, err)[i], r),
    decreases x - y + 2,
{
    if y > x {
    } else {
        let ny = y + 1;
        let nx = if err < 0 { x } else { x - 1 };
        let nerr = if err < 0 { err + 2 * ny + 1 } else { err + 2 * (ny - nx) + 1 };
        assert(nerr == nx * nx + ny * ny - r * r - nx + 2 * ny + 1) by (nonlinear_arith)
            requires
                err == x * x + y * y - r * r - x + 2 * y + 1,
                ny == y + 1,
                nx == (if err < 0 { x } else { x - 1 }),
                nerr == (if err < 0 { err + 2 * ny + 1 } else { err + 2 * (ny - nx) + 1 }),
        ;
        if ny <= nx {
            // The midpoint test keeps the next pixel within half a pixel of the circle.
            assert(near_circle((nx, ny), r)) by (nonlinear_arith)
                requires
                    r > 0,
                    0 <= y <= x <= r,
                    ny == y + 1,
                    ny <= nx,
                    nx == (if err < 0 { x } else { x - 1 }),
                    err == x * x + y * y - r * r - x + 2 * y + 1,
                    r * r - r < x * x + y * y <= r * r + r,
            ;
        }
        lemma_circle_walk_near(nx, ny, nerr, r);
        let rest = circle_walk(nx, ny, nerr);
        let all = circle_walk(x, y, err);
        assert(all == seq![(x, y)] + rest);
        assert forall|i: int| 0 <= i < all.len() implies near_circle(#[trigger] all[i], r) by {
            if i > 0 {
                assert(all[i] == rest[i - 1]);
            }
        }
    }
}

/// Every octant point of the midpoint circle of radius `r > 0` lies within
/// half a pixel of the true circle.
pub proof fn lemma_circle_points_near(r: int)
    requires
        r > 0,
    ensures
        forall|i: int|
            0 <= i < circle_points(r).len() ==> near_circle(#[trigger] circle_points(r)[i], r),
{
    assert(near_circle((r, 0), r)) by (nonlinear_arith)
        requires
            r > 0,
    ;
    assert(1 - r == r * r + 0 * 0 - r * r - r + 2 * 0 + 1) by (nonlinear_arith);
    lemma_circle_walk_near(r, 0, 1 - r, r);
}

/// Paints the eight mirror images of the octant point `(x, y)` about
/// `(cx, cy)` that lie on the canvas.
fn put_octants(img: &mut Raster, cx: i32, cy: i32, x: i32, y: i32, color: (u8, u8, u8))
    requires
        0 <= y <= x,
        i32::MIN <= cx - x,
        cx + x <= i32::MAX,
        i32::MIN <= cy - x,
        cy + x <= i32::MAX,
    ensures
        raster_size(*final(img)) == raster_size(*old(img)),
        raster_pixels(*final(img)) == raster_pixels(*old(img)).union_prefer_right(
            cover(
                raster_size(*old(img)),
                |px: int, py: int| mirrors(cx as int, cy as int, x as int, y as int, px, py),
                color,
            ),
        ),
{
    let ghost before = raster_pixels(*img);
    let ghost size = raster_size(*img);
    put(img, cx + x, cy + y, color);
    put(img, cx - x, cy + y, color);
    put(img, cx + x, cy - y, color);
    put(img, cx - x, cy - y, color);
    put(img, cx + y, cy + x, color);
    put(img, cx - y, cy + x, color);
    put(img, cx + y, cy - x, color);
    put(img, cx - y, cy - x, color);
    assert(raster_pixels(*img) =~= before.union_prefer_right(
        cover(size, |px: int, py: int| mirrors(cx as int, cy as int, x as int, y as int, px, py), color),
    ));
}

proof fn lemma_circle_cover_push(
    base: Map<(u32, u32), (u8, u8, u8)>,
    size: (u32, u32),
    pts: Seq<(int, int)>,
    cx: int,
    cy: int,
    x: int,
    y: int,
    color: (u8, u8, u8),
)
    requires
        0 <= y <= x,
    ensures
        base.union_prefer_right(cover(size, circle_hit(pts, cx, cy), color)).union_prefer_right(
            cover(size, |px: int, py: int| mirrors(cx, cy, x, y, px, py), color),
        ) == base.union_prefer_right(cover(size, circle_hit(pts.push((x, y)), cx, cy), color)),
{
    broadcast use vstd::seq_lib::lemma_seq_contains_after_push;

    assert(base.union_prefer_right(cover(size, circle_hit(pts, cx, cy), color)).union_prefer_right(
        cover(size, |px: int, py: int| mirrors(cx, cy, x, y, px, py), color),
    ) =~= base.union_prefer_right(cover(size, circle_hit(pts.push((x, y)), cx, cy), color)));
}

/// Draws the midpoint circle of radius `r` about `(cx, cy)`: every mirror
/// image of `circle_points(r)` that lies on the canvas is painted `color`
/// (only the centre when `r <= 0`), and nothing else changes.
pub fn draw_circle(img: &mut Raster, cx: i32, cy: i32, r: i32, color: (u8, u8, u8))
    requires
        r <= 0 || (i32::MIN <= cx - r && cx + r <= i32::MAX && i32::MIN <= cy - r && cy + r <= i32::MAX),
    ensures
        raster_size(*final(img)) == raster_size(*old(img)),
        raster_pixels(*final(img)) == raster_pixels(*old(img)).union_prefer_right(
            cover(raster_size(*old(img)), circle_hit(circle_points(r as int), cx as int, cy as int), color),
        ),
{
    let ghost size = raster_size(*img);
    let ghost base = raster_pixels(*img);
    if r <= 0 {
        put(img, cx, cy, color);
        proof {
            broadcast use vstd::seq_lib::lemma_seq_contains_after_push;

            assert(seq![(0int, 0int)] =~= Seq::<(int, int)>::empty().push((0int, 0int)));
            assert(raster_pixels(*img) =~= base.union_prefer_right(
                cover(size, circle_hit(circle_points(r as int), cx as int, cy as int), color),
            ));
        }
        return ;
    }
    let wr: i64 = r as i64;
    let mut x: i64 = wr;
    let mut y: i64 = 0;
    let mut err: i64 = 1 - wr;
    let ghost full = circle_points(r as int);
    let ghost mut drawn: Seq<(int, int)> = Seq::empty();
    proof {
        assert(base.union_prefer_right(cover(size, circle_hit(drawn, cx as int, cy as int), color)) =~= base);
        assert(full =~= drawn + circle_walk(x as int, y as int, err as int));
    }
    while y <= x
        invariant
            raster_size(*img) == size,
            raster_pixels(*img) == base.union_prefer_right(cover(size, circle_hit(drawn, cx as int, cy as int), color)),
            full == drawn + circle_walk(x as int, y as int, err as int),
            wr == r,
            0 < r,
            i32::MIN <= cx - r,
            cx + r <= i32::MAX,
            i32::MIN <= cy - r,
            cy + r <= i32::MAX,
            0 <= y,
            y - 2 <= x <= r,
            -(2 * wr + 3) <= err <= 2 * wr + 3 + 5 * y,
        decreases x - y + 2,
    {
        proof {
            lemma_circle_cover_push(base, size, drawn, cx as int, cy as int, x as int, y as int, color);
        }
        put_octants(img, cx, cy, x as i32, y as i32, color);
        let ghost here = (x as int, y as int);
        let ghost rest = circle_walk(x as int, y as int, err as int);
        proof {
            drawn = drawn.push(here);
        }
        y = y + 1;
        if err < 0 {
            err = err + 2 * y + 1;
        } else {
            x = x - 1;
            err = err + 2 * (y - x) + 1;
        }
        assert(rest =~= seq![here] + circle_walk(x as int, y as int, err as int));
        assert(full =~= drawn + circle_walk(x as int, y as int, err as int));
    }
    assert(full =~= drawn);
}

/// Whether `(px, py)` lies on the plus sign of arm length `half` centred
/// on `(cx, cy)`, counting only the offsets below `upto` along each arm.
pub open spec fn cross_arms(cx: int, cy: int, half: int, upto: int) -> spec_fn(int, int) -> bool {
    |px: int, py: int|
        (py == cy && -half <= px - cx < upto) || (px == cx && -half <= py - cy < upto)
}

/// Whether `(px, py)` lies on the plus sign of arm length `half` centred on
/// `(cx, cy)` (no pixel when `half < 0`).
pub open spec fn cross_hit(cx: int, cy: int, half: int) -> spec_fn(int, int) -> bool {
    |px: int, py: int| (py == cy && gap(cx, px) <= half) || (px == cx && gap(cy, py) <= half)
}

/// Draws a plus sign of arm length `half_size` centred on `(cx, cy)`:
/// every pixel of `cross_hit` that lies on the canvas is painted `color`,
/// and nothing else changes.
pub fn draw_cross(img: &mut Raster, cx: i32, cy: i32, half_size: i32, color: (u8, u8, u8))
    requires
        i32::MIN < half_size,
        half_size < 0 || (i32::MIN <= cx - half_size && cx + half_size <= i32::MAX && i32::MIN <= cy - half_size
            && cy + half_size <= i32::MAX),
    ensures
        raster_size(*final(img)) == raster_size(*old(img)),
        raster_pixels(*final(img)) == raster_pixels(*old(img)).union_prefer_right(
            cover(raster_size(*old(img)), cross_hit(cx as int, cy as int, half_size as int), color),
        ),
{
    let ghost size = raster_size(*img);
    let ghost base = raster_pixels(*img);
    let mut i: i64 = -(half_size as i64);
    if half_size < 0 {
        assert(base.union_prefer_right(cover(size, cross_hit(cx as int, cy as int, half_size as int), color)) =~= base);
        return ;
    }
    assert(base.union_prefer_right(cover(size, cross_arms(cx as int, cy as int, half_size as int, i as int), color))
        =~= base);
    while i <= half_size as i64
        invariant
            0 <= half_size,
            i32::MIN <= cx - half_size,
            cx + half_size <= i32::MAX,
            i32::MIN <= cy - half_size,
            cy + half_size <= i32::MAX,
            -half_size <= i <= half_size + 1,
            raster_size(*img) == size,
            raster_pixels(*img) == base.union_prefer_right(
                cover(size, cross_arms(cx as int, cy as int, half_size as int, i as int), color),
            ),
        decreases half_size + 1 - i,
    {
        let ghost before = raster_pixels(*img);
        put(img, (cx as i64 + i) as i32, cy, color);
        put(img, cx, (cy as i64 + i) as i32, color);
        assert(raster_pixels(*img) =~= base.union_prefer_right(
            cover(size, cross_arms(cx as int, cy as int, half_size as int, i + 1), color),
        ));
        i = i + 1;
    }
    assert(raster_pixels(*img) =~= base.union_prefer_right(
        cover(size, cross_hit(cx as int, cy as int, half_size as int), color),
    ));
}

} // verus!
