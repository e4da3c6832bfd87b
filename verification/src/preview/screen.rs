use vstd::prelude::*;
use crate::text::{split_lines, split_on, string_of};

verus! {

/// A line of text on a screen, with the position of its top left corner.
pub struct TextLine {
    pub text: String,
    pub x: u32,
    pub y: u128,
}

/// A recorded pixel.
#[derive(Debug)]
pub struct Pixel {
    pub x: usize,
    pub y: usize,
    pub color: u32,
}

/// A recorded filled rectangle.
#[derive(Debug)]
pub struct Rect {
    pub x: usize,
    pub y: usize,
    pub width: usize,
    pub height: usize,
    pub color: u32,
}

/// A virtual screen that records what is drawn on it.
pub struct VirtualScreen {
    pub width: usize,
    pub height: usize,
    pub text: Vec<TextLine>,
    pub pixels: Vec<Pixel>,
    pub rectangles: Vec<Rect>,
    pub background_color: u32,
}

/// The horizontal position of every text line.
pub const TEXT_X: u32 = 8;

/// The vertical position of the text line at `index`: lines start 8 units
/// from the top and are 16 units apart.
pub open spec fn text_y(index: int) -> int {
    8 + 16 * index
}

/// `pixels` after drawing at (`x`, `y`): the pixel is recorded when it lies on
/// a `width` by `height` screen, and dropped otherwise.
pub open spec fn plot(pixels: Seq<Pixel>, width: usize, height: usize, x: int, y: int, color: u32) -> Seq<Pixel> {
    if 0 <= x < width && 0 <= y < height {
        pixels.push(Pixel { x: x as usize, y: y as usize, color })
    } else {
        pixels
    }
}

/// `pixels` after drawing at each of `points` in order.
pub open spec fn plot_all(pixels: Seq<Pixel>, width: usize, height: usize, points: Seq<(int, int)>, color: u32) -> Seq<Pixel>
    decreases points.len(),
{
    if points.len() == 0 {
        pixels
    } else {
        let p = points.last();
        plot(plot_all(pixels, width, height, points.drop_last(), color), width, height, p.0, p.1, color)
    }
}

/// Drawing one more point after `points`.
pub proof fn lemma_plot_all_push(pixels: Seq<Pixel>, width: usize, height: usize, points: Seq<(int, int)>, p: (int, int), color: u32)
    ensures
        plot_all(pixels, width, height, points.push(p), color) == plot(plot_all(pixels, width, height, points, color), width, height, p.0, p.1, color),
{
    assert(points.push(p).drop_last() =~= points);
}

/// Drawing `a` and then `b` is drawing `a + b`.
pub proof fn lemma_plot_all_append(pixels: Seq<Pixel>, width: usize, height: usize, a: Seq<(int, int)>, b: Seq<(int, int)>, color: u32)
    ensures
        plot_all(pixels, width, height, a + b, color) == plot_all(plot_all(pixels, width, height, a, color), width, height, b, color),
    decreases b.len(),
{
    if b.len() == 0 {
        assert(a + b =~= a);
    } else {
        lemma_plot_all_append(pixels, width, height, a, b.drop_last(), color);
        assert((a + b).drop_last() =~= a + b.drop_last());
    }
}

/// Every point of a drawing that is recorded lies on the screen and has its color.
pub proof fn lemma_plot_all_on_screen(pixels: Seq<Pixel>, width: usize, height: usize, points: Seq<(int, int)>, color: u32)
    ensures
        plot_all(pixels, width, height, points, color).len() >= pixels.len(),
        plot_all(pixels, width, height, points, color).subrange(0, pixels.len() as int) == pixels,
        forall|i: int|
            pixels.len() <= i < plot_all(pixels, width, height, points, color).len() ==> {
                let q = #[trigger] plot_all(pixels, width, height, points, color)[i];
                q.x < width && q.y < height && q.color == color
            },
    decreases points.len(),
{
    if points.len() > 0 {
        lemma_plot_all_on_screen(pixels, width, height, points.drop_last(), color);
        let prev = plot_all(pixels, width, height, points.drop_last(), color);
        assert(prev.subrange(0, pixels.len() as int) == pixels);
        let p = points.last();
        if 0 <= p.0 < width && 0 <= p.1 < height {
            assert(prev.push(Pixel { x: p.0 as usize, y: p.1 as usize, color }).subrange(0, pixels.len() as int) =~= prev.subrange(0, pixels.len() as int));
        }
    }
}

/// The absolute value of `v`.
pub open spec fn abs(v: int) -> int {
    if v < 0 { -v } else { v }
}

/// The points that the error-accumulating line walk visits from (`x`, `y`)
/// to (`x2`, `y2`): `dx` and `dy` are the horizontal distance and the negated
/// vertical distance, `sx`, `sy` the step directions and `error` the
/// accumulated error; `fuel` bounds the number of points.
pub open spec fn line_walk(
    x: int,
    y: int,
    x2: int,
    y2: int,
    dx: int,
    dy: int,
    sx: int,
    sy: int,
    error: int,
    fuel: nat,
) -> Seq<(int, int)>
    decreases fuel,
{
    if fuel == 0 {
        Seq::empty()
    } else if x == x2 && y == y2 {
        seq![(x, y)]
    } else {
        let e2 = 2 * error;
        let e1 = if e2 >= dy { error + dy } else { error };
        let nx = if e2 >= dy { x + sx } else { x };
        let e3 = if e2 <= dx { e1 + dx } else { e1 };
        let ny = if e2 <= dx { y + sy } else { y };
        seq![(x, y)] + line_walk(nx, ny, x2, y2, dx, dy, sx, sy, e3, (fuel - 1) as nat)
    }
}

/// The points of the line from (`x1`, `y1`) to (`x2`, `y2`), both ends
/// included, as the integer line walk visits them. The walk reaches the end
/// within `|x2 - x1| + |y2 - y1| + 1` points, which is the fuel it is given.
pub open spec fn line_points(x1: int, y1: int, x2: int, y2: int) -> Seq<(int, int)> {
    let dx = abs(x2 - x1);
    let dy = -abs(y2 - y1);
    let sx: int = if x1 < x2 { 1 } else { -1 };
    let sy: int = if y1 < y2 { 1 } else { -1 };
    line_walk(x1, y1, x2, y2, dx, dy, sx, sy, dx + dy, (dx - dy + 1) as nat)
}

/// The value a `usize` coordinate takes once reinterpreted as `isize`.
pub open spec fn signed(v: usize) -> int {
    (v as isize) as int
}

/// One step of the line walk, in terms of the numbers of horizontal and
/// vertical steps taken so far: it never passes the end in either direction,
/// it always moves, and the error stays within bounds.
proof fn lemma_line_step(dx: int, dyp: int, steps_x: int, steps_y: int, e: int)
    requires
        0 <= steps_x <= dx,
        0 <= steps_y <= dyp,
        e == dx * (1 + steps_y) - dyp * (1 + steps_x),
        !(steps_x == dx && steps_y == dyp),
    ensures
        2 * e >= -dyp ==> steps_x < dx,
        2 * e <= dx ==> steps_y < dyp,
        2 * e >= -dyp || 2 * e <= dx,
{
    if steps_x == dx {
        assert(2 * e < -dyp) by (nonlinear_arith)
            requires
                steps_x == dx,
                0 <= steps_y < dyp,
                e == dx * (1 + steps_y) - dyp * (1 + steps_x),
                dx >= 0,
        {
            assert(dx * (1 + steps_y) <= dx * dyp);
        }
    }
    if steps_y == dyp {
        assert(2 * e > dx) by (nonlinear_arith)
            requires
                steps_y == dyp,
                0 <= steps_x < dx,
                e == dx * (1 + steps_y) - dyp * (1 + steps_x),
                dyp >= 0,
        {
            assert(dyp * (1 + steps_x) <= dyp * dx);
        }
    }
}

/// The error after one more step in either direction keeps its closed form.
proof fn lemma_line_error(dx: int, dyp: int, steps_x: int, steps_y: int, e: int)
    requires
        e == dx * (1 + steps_y) - dyp * (1 + steps_x),
    ensures
        e - dyp == dx * (1 + steps_y) - dyp * (1 + (steps_x + 1)),
        e + dx == dx * (1 + (steps_y + 1)) - dyp * (1 + steps_x),
        e - dyp + dx == dx * (1 + (steps_y + 1)) - dyp * (1 + (steps_x + 1)),
{
    assert(dyp * (1 + (steps_x + 1)) == dyp * (1 + steps_x) + dyp) by (nonlinear_arith);
    assert(dx * (1 + (steps_y + 1)) == dx * (1 + steps_y) + dx) by (nonlinear_arith);
}

/// The eight points symmetric to (`x`, `y`) about the center, in drawing order.
pub open spec fn octant_points(cx: int, cy: int, x: int, y: int) -> Seq<(int, int)> {
    seq![
        (cx + x, cy + y),
        (cx + y, cy + x),
        (cx - y, cy + x),
        (cx - x, cy + y),
        (cx - x, cy - y),
        (cx - y, cy - x),
        (cx + y, cy - x),
        (cx + x, cy - y),
    ]
}

/// The points the midpoint circle walk visits from (`x`, `y`) with the given
/// error, until `x` falls below `y`.
pub open spec fn circle_walk(cx: int, cy: int, x: int, y: int, error: int) -> Seq<(int, int)>
    decreases x - y + 2,
{
    if x < y {
        Seq::empty()
    } else {
        let ny = y + 1;
        let nx = if error < 0 { x } else { x - 1 };
        let ne = if error < 0 { error + 2 * ny + 1 } else { error + 2 * (ny - nx) + 1 };
        octant_points(cx, cy, x, y) + circle_walk(cx, cy, nx, ny, ne)
    }
}

/// The points of the circle of radius `r` around (`cx`, `cy`), eight per
/// step of the midpoint walk; none when `r` is negative.
pub open spec fn circle_points(cx: int, cy: int, r: int) -> Seq<(int, int)> {
    circle_walk(cx, cy, r, 0, 1 - r)
}

/// The point (`x`, `y`) with each coordinate reinterpreted as a `usize`, as a
/// signed value cast to `usize` is.
pub open spec fn wrap(x: int, y: int) -> (int, int) {
    ((x as usize) as int, (y as usize) as int)
}

/// The variables of the midpoint ellipse walk: the current point, the two
/// slope terms and the decision value.
pub struct EllipseState {
    pub x: int,
    pub y: int,
    pub dx: int,
    pub dy: int,
    pub decision: int,
}

/// The five points drawn per step of the first region, in drawing order.
pub open spec fn first_region_points(cx: int, cy: int, x: int, y: int) -> Seq<(int, int)> {
    seq![
        (cx + x, cy + y),
        (cx - x, cy - y),
        (cx - x, cy - y),
        (cx + x, cy - y),
        (cx - x, cy + y),
    ]
}

/// The five points drawn per step of the second region, in drawing order.
pub open spec fn second_region_points(cx: int, cy: int, x: int, y: int) -> Seq<(int, int)> {
    seq![
        (cx + x, cy + y),
        (cx + x, cy + y),
        (cx - x, cy + y),
        (cx - x, cy - y),
        (cx + x, cy - y),
    ]
}

/// The points with each coordinate reinterpreted as a `usize` (see `wrap`).
pub open spec fn wrapped(points: Seq<(int, int)>) -> Seq<(int, int)> {
    points.map_values(|p: (int, int)| wrap(p.0, p.1))
}

/// The state after one step of the first region: `x` moves on, and `y`
/// moves down when the decision value was not negative.
pub open spec fn first_next(s: EllipseState, rx2: int, ry2: int) -> EllipseState {
    let x = s.x + 1;
    let dx = s.dx + 2 * ry2;
    if s.decision < 0 {
        EllipseState { x, y: s.y, dx, dy: s.dy, decision: s.decision + (dx + ry2) }
    } else {
        let dy = s.dy - 2 * rx2;
        EllipseState { x, y: s.y - 1, dx, dy, decision: s.decision + (dx - dy + ry2) }
    }
}

/// The state after one step of the second region: `y` moves down, and `x`
/// moves on when the decision value was not positive.
pub open spec fn second_next(s: EllipseState, rx2: int, ry2: int) -> EllipseState {
    let y = s.y - 1;
    let dy = s.dy - 2 * rx2;
    if s.decision > 0 {
        EllipseState { x: s.x, y, dx: s.dx, dy, decision: s.decision + (rx2 - dy) }
    } else {
        let dx = s.dx + 2 * ry2;
        EllipseState { x: s.x + 1, y, dx, dy, decision: s.decision + (dx - dy + rx2) }
    }
}

/// The first region of the walk (while the slope term `dx` is below `dy`):
/// the points drawn and the state it ends in. `rx2` and `ry2` are the squared
/// radii.
pub open spec fn first_region(cx: int, cy: int, s: EllipseState, rx2: int, ry2: int) -> (Seq<(int, int)>, EllipseState)
    decreases (if s.dx < s.dy { s.dy - s.dx } else { 0 }),
{
    if ry2 <= 0 || rx2 < 0 || s.dx >= s.dy {
        (Seq::empty(), s)
    } else {
        let rest = first_region(cx, cy, first_next(s, rx2, ry2), rx2, ry2);
        (first_region_points(cx, cy, s.x, s.y) + rest.0, rest.1)
    }
}

/// The second region of the walk (while `y` is not negative): the points drawn.
pub open spec fn second_region(cx: int, cy: int, s: EllipseState, rx2: int, ry2: int) -> Seq<(int, int)>
    decreases s.y + 1,
{
    if s.y < 0 {
        Seq::empty()
    } else {
        second_region_points(cx, cy, s.x, s.y) + second_region(cx, cy, second_next(s, rx2, ry2), rx2, ry2)
    }
}

/// The state the walk starts from, for radii `rx`, `ry`.
pub open spec fn ellipse_start(rx: int, ry: int) -> EllipseState {
    let rx2 = rx * rx;
    let ry2 = ry * ry;
    EllipseState { x: 0, y: ry, dx: 2 * ry2 * 0, dy: 2 * rx2 * ry, decision: ry2 - rx2 * ry + rx2 / 4 }
}

/// The state the second region starts from, after the first region ended in `e`.
pub open spec fn second_start(e: EllipseState, rx2: int, ry2: int) -> EllipseState {
    EllipseState { decision: ry2 * (e.x * e.x + e.x) + rx2 * (e.y * e.y - 2 * e.y + 1) - rx2 * ry2, ..e }
}

/// The points of the ellipse with radii `rx`, `ry` around (`cx`, `cy`), as
/// the two-region midpoint walk draws them; none when a radius is zero.
pub open spec fn ellipse_points(cx: int, cy: int, rx: int, ry: int) -> Seq<(int, int)> {
    if rx == 0 || ry == 0 {
        Seq::empty()
    } else {
        let rx2 = rx * rx;
        let ry2 = ry * ry;
        let first = first_region(cx, cy, ellipse_start(rx, ry), rx2, ry2);
        first.0 + second_region(cx, cy, second_start(first.1, rx2, ry2), rx2, ry2)
    }
}

/// `v` is a value of `isize`.
pub open spec fn fits(v: int) -> bool {
    isize::MIN <= v <= isize::MAX
}

/// The four coordinates drawn around (`cx`, `cy`) at offsets `x`, `y` are `isize` values.
pub open spec fn points_fit(cx: int, cy: int, x: int, y: int) -> bool {
    fits(cx + x) && fits(cx - x) && fits(cy + y) && fits(cy - y)
}

/// The values one step of the first region computes in `isize` fit it.
pub open spec fn first_arith_fits(s: EllipseState, rx2: int, ry2: int) -> bool {
    let n = first_next(s, rx2, ry2);
    &&& fits(n.x)
    &&& fits(n.dx)
    &&& if s.decision < 0 {
        fits(n.dx + ry2)
    } else {
        fits(n.y) && fits(n.dy) && fits(n.dx - n.dy) && fits(n.dx - n.dy + ry2)
    }
    &&& fits(n.decision)
}

/// The values one step of the second region computes in `isize` fit it.
pub open spec fn second_arith_fits(s: EllipseState, rx2: int, ry2: int) -> bool {
    let n = second_next(s, rx2, ry2);
    &&& fits(n.y)
    &&& fits(n.dy)
    &&& if s.decision > 0 {
        fits(rx2 - n.dy)
    } else {
        fits(n.x) && fits(n.dx) && fits(n.dx - n.dy) && fits(n.dx - n.dy + rx2)
    }
    &&& fits(n.decision)
}

/// Every step of the first region from `s` computes only `isize` values.
pub open spec fn first_fits(cx: int, cy: int, s: EllipseState, rx2: int, ry2: int) -> bool
    decreases (if s.dx < s.dy { s.dy - s.dx } else { 0 }),
{
    if ry2 <= 0 || rx2 < 0 || s.dx >= s.dy {
        true
    } else {
        points_fit(cx, cy, s.x, s.y) && first_arith_fits(s, rx2, ry2)
            && first_fits(cx, cy, first_next(s, rx2, ry2), rx2, ry2)
    }
}

/// Every step of the second region from `s` computes only `isize` values.
pub open spec fn second_fits(cx: int, cy: int, s: EllipseState, rx2: int, ry2: int) -> bool
    decreases s.y + 1,
{
    if s.y < 0 {
        true
    } else {
        points_fit(cx, cy, s.x, s.y) && second_arith_fits(s, rx2, ry2)
            && second_fits(cx, cy, second_next(s, rx2, ry2), rx2, ry2)
    }
}

/// The squares, slope terms and first decision value fit `isize`.
pub open spec fn setup_fits(rx: int, ry: int) -> bool {
    let rx2 = rx * rx;
    let ry2 = ry * ry;
    &&& fits(rx2)
    &&& fits(ry2)
    &&& fits(2 * ry2)
    &&& fits(2 * rx2)
    &&& fits(2 * rx2 * ry)
    &&& fits(rx2 * ry)
    &&& fits(ry2 - rx2 * ry)
    &&& fits(ry2 - rx2 * ry + rx2 / 4)
}

/// The terms of the second region's first decision value fit `isize`.
pub open spec fn transition_fits(x: int, y: int, rx2: int, ry2: int) -> bool {
    &&& fits(x * x)
    &&& fits(x * x + x)
    &&& fits(ry2 * (x * x + x))
    &&& fits(y * y)
    &&& fits(2 * y)
    &&& fits(y * y - 2 * y)
    &&& fits(y * y - 2 * y + 1)
    &&& fits(rx2 * (y * y - 2 * y + 1))
    &&& fits(ry2 * (x * x + x) + rx2 * (y * y - 2 * y + 1))
    &&& fits(rx2 * ry2)
    &&& fits(ry2 * (x * x + x) + rx2 * (y * y - 2 * y + 1) - rx2 * ry2)
}

/// The midpoint walk for the ellipse with radii `rx`, `ry` around (`cx`,
/// `cy`) computes only `isize` values, as its arithmetic in `isize` needs: a
/// zero radius draws nothing and computes nothing.
pub open spec fn ellipse_fits(cx: int, cy: int, rx: int, ry: int) -> bool {
    rx == 0 || ry == 0 || {
        let rx2 = rx * rx;
        let ry2 = ry * ry;
        let first = first_region(cx, cy, ellipse_start(rx, ry), rx2, ry2);
        &&& setup_fits(rx, ry)
        &&& first_fits(cx, cy, ellipse_start(rx, ry), rx2, ry2)
        &&& transition_fits(first.1.x, first.1.y, rx2, ry2)
        &&& second_fits(cx, cy, second_start(first.1, rx2, ry2), rx2, ry2)
    }
}

/// `isize` values lie within 64 bits.
proof fn lemma_fits_range(v: int)
    requires
        fits(v),
    ensures
        -0x8000_0000_0000_0000 <= v <= 0x7fff_ffff_ffff_ffff,
{
}

/// The product of two `isize` values lies within 127 bits.
proof fn lemma_fits_product(a: int, b: int)
    requires
        fits(a),
        fits(b),
    ensures
        -0x4000_0000_0000_0000_0000_0000_0000_0000 <= a * b <= 0x4000_0000_0000_0000_0000_0000_0000_0000,
{
    lemma_fits_range(a);
    lemma_fits_range(b);
    assert(-0x4000_0000_0000_0000_0000_0000_0000_0000 <= a * b <= 0x4000_0000_0000_0000_0000_0000_0000_0000) by (nonlinear_arith)
        requires
            -0x8000_0000_0000_0000 <= a <= 0x7fff_ffff_ffff_ffff,
            -0x8000_0000_0000_0000 <= b <= 0x7fff_ffff_ffff_ffff,
    ;
}

/// The square of a nonzero number is positive.
proof fn lemma_square_positive(v: int)
    requires
        v != 0,
    ensures
        v * v > 0,
{
    assert(v * v > 0) by (nonlinear_arith) requires v != 0;
}

/// Whether `v` is a value of `isize`.
fn fits_exec(v: i128) -> (r: bool)
    ensures
        r == fits(v as int),
{
    (isize::MIN as i128) <= v && v <= (isize::MAX as i128)
}

/// The state of the ellipse walk as the code holds it.
struct Walk {
    x: i128,
    y: i128,
    dx: i128,
    dy: i128,
    decision: i128,
}

/// The walk state a `Walk` holds.
spec fn walk_state(w: Walk) -> EllipseState {
    EllipseState { x: w.x as int, y: w.y as int, dx: w.dx as int, dy: w.dy as int, decision: w.decision as int }
}

/// Every variable of the walk is an `isize` value.
spec fn walk_fits(w: Walk) -> bool {
    fits(w.x as int) && fits(w.y as int) && fits(w.dx as int) && fits(w.dy as int) && fits(w.decision as int)
}

/// One step of the first region.
fn first_step(w: &Walk, a: i128, b: i128) -> (n: Walk)
    requires
        walk_fits(*w),
        fits(a as int),
        fits(b as int),
        first_arith_fits(walk_state(*w), a as int, b as int),
    ensures
        walk_state(n) == first_next(walk_state(*w), a as int, b as int),
        walk_fits(n),
{
    let x = w.x + 1;
    let dx = w.dx + 2 * b;
    if w.decision < 0 {
        Walk { x, y: w.y, dx, dy: w.dy, decision: w.decision + (dx + b) }
    } else {
        let dy = w.dy - 2 * a;
        Walk { x, y: w.y - 1, dx, dy, decision: w.decision + (dx - dy + b) }
    }
}

/// One step of the second region.
fn second_step(w: &Walk, a: i128, b: i128) -> (n: Walk)
    requires
        walk_fits(*w),
        fits(a as int),
        fits(b as int),
        second_arith_fits(walk_state(*w), a as int, b as int),
    ensures
        walk_state(n) == second_next(walk_state(*w), a as int, b as int),
        walk_fits(n),
{
    let y = w.y - 1;
    let dy = w.dy - 2 * a;
    if w.decision > 0 {
        Walk { x: w.x, y, dx: w.dx, dy, decision: w.decision + (a - dy) }
    } else {
        let dx = w.dx + 2 * b;
        Walk { x: w.x + 1, y, dx, dy, decision: w.decision + (dx - dy + a) }
    }
}

/// Whether one step of the first region computes only `isize` values.
fn first_step_fits(w: &Walk, a: i128, b: i128) -> (r: bool)
    requires
        walk_fits(*w),
        fits(a as int),
        fits(b as int),
    ensures
        r == first_arith_fits(walk_state(*w), a as int, b as int),
{
    proof {
        lemma_fits_range(w.x as int);
        lemma_fits_range(w.y as int);
        lemma_fits_range(w.dx as int);
        lemma_fits_range(w.dy as int);
        lemma_fits_range(w.decision as int);
        lemma_fits_range(a as int);
        lemma_fits_range(b as int);
    }
    let x = w.x + 1;
    let dx = w.dx + 2 * b;
    if !fits_exec(x) || !fits_exec(dx) {
        return false;
    }
    if w.decision < 0 {
        let t = dx + b;
        if !fits_exec(t) {
            return false;
        }
        fits_exec(w.decision + t)
    } else {
        let y = w.y - 1;
        let dy = w.dy - 2 * a;
        if !fits_exec(y) || !fits_exec(dy) {
            return false;
        }
        let t = dx - dy;
        if !fits_exec(t) {
            return false;
        }
        let u = t + b;
        if !fits_exec(u) {
            return false;
        }
        fits_exec(w.decision + u)
    }
}

/// Whether one step of the second region computes only `isize` values.
fn second_step_fits(w: &Walk, a: i128, b: i128) -> (r: bool)
    requires
        walk_fits(*w),
        fits(a as int),
        fits(b as int),
    ensures
        r == second_arith_fits(walk_state(*w), a as int, b as int),
{
    proof {
        lemma_fits_range(w.x as int);
        lemma_fits_range(w.y as int);
        lemma_fits_range(w.dx as int);
        lemma_fits_range(w.dy as int);
        lemma_fits_range(w.decision as int);
        lemma_fits_range(a as int);
        lemma_fits_range(b as int);
    }
    let y = w.y - 1;
    let dy = w.dy - 2 * a;
    if !fits_exec(y) || !fits_exec(dy) {
        return false;
    }
    if w.decision > 0 {
        let t = a - dy;
        if !fits_exec(t) {
            return false;
        }
        fits_exec(w.decision + t)
    } else {
        let x = w.x + 1;
        let dx = w.dx + 2 * b;
        if !fits_exec(x) || !fits_exec(dx) {
            return false;
        }
        let t = dx - dy;
        if !fits_exec(t) {
            return false;
        }
        let u = t + a;
        if !fits_exec(u) {
            return false;
        }
        fits_exec(w.decision + u)
    }
}

/// Whether the points drawn at offsets `x`, `y` around (`cx`, `cy`) have `isize` coordinates.
fn points_fit_exec(cx: i128, cy: i128, x: i128, y: i128) -> (r: bool)
    requires
        fits(cx as int),
        fits(cy as int),
        fits(x as int),
        fits(y as int),
    ensures
        r == points_fit(cx as int, cy as int, x as int, y as int),
{
    proof {
        lemma_fits_range(cx as int);
        lemma_fits_range(cy as int);
        lemma_fits_range(x as int);
        lemma_fits_range(y as int);
    }
    fits_exec(cx + x) && fits_exec(cx - x) && fits_exec(cy + y) && fits_exec(cy - y)
}

/// Whether the squares, slope terms and first decision value fit `isize`.
fn setup_fits_exec(rx: i128, ry: i128) -> (r: bool)
    requires
        fits(rx as int),
        fits(ry as int),
    ensures
        r == setup_fits(rx as int, ry as int),
{
    proof {
        lemma_fits_product(rx as int, rx as int);
        lemma_fits_product(ry as int, ry as int);
        assert(rx * rx >= 0) by (nonlinear_arith);
    }
    let a = rx * rx;
    let b = ry * ry;
    if !fits_exec(a) || !fits_exec(b) {
        return false;
    }
    proof {
        lemma_fits_range(a as int);
        lemma_fits_range(b as int);
    }
    if !fits_exec(2 * b) || !fits_exec(2 * a) {
        return false;
    }
    proof {
        lemma_fits_product((2 * a) as int, ry as int);
        lemma_fits_product(a as int, ry as int);
    }
    if !fits_exec(2 * a * ry) {
        return false;
    }
    let p = a * ry;
    if !fits_exec(p) {
        return false;
    }
    proof {
        lemma_fits_range(p as int);
    }
    let d = b - p;
    if !fits_exec(d) {
        return false;
    }
    proof {
        lemma_fits_range(d as int);
    }
    fits_exec(d + a / 4)
}

/// Whether the terms of the second region's first decision value fit `isize`.
fn transition_fits_exec(x: i128, y: i128, a: i128, b: i128) -> (r: bool)
    requires
        fits(x as int),
        fits(y as int),
        fits(a as int),
        fits(b as int),
    ensures
        r == transition_fits(x as int, y as int, a as int, b as int),
{
    proof {
        lemma_fits_product(x as int, x as int);
        lemma_fits_product(y as int, y as int);
        lemma_fits_product(a as int, b as int);
        lemma_fits_range(x as int);
        lemma_fits_range(y as int);
    }
    let xx = x * x;
    if !fits_exec(xx) {
        return false;
    }
    proof { lemma_fits_range(xx as int); }
    let xs = xx + x;
    if !fits_exec(xs) {
        return false;
    }
    proof { lemma_fits_product(b as int, xs as int); }
    let p = b * xs;
    if !fits_exec(p) {
        return false;
    }
    let yy = y * y;
    if !fits_exec(yy) || !fits_exec(2 * y) {
        return false;
    }
    proof { lemma_fits_range(yy as int); }
    let t = yy - 2 * y;
    if !fits_exec(t) {
        return false;
    }
    proof { lemma_fits_range(t as int); }
    let u = t + 1;
    if !fits_exec(u) {
        return false;
    }
    proof { lemma_fits_product(a as int, u as int); }
    let q = a * u;
    if !fits_exec(q) {
        return false;
    }
    proof {
        lemma_fits_range(p as int);
        lemma_fits_range(q as int);
    }
    let sum = p + q;
    if !fits_exec(sum) {
        return false;
    }
    let ab = a * b;
    if !fits_exec(ab) {
        return false;
    }
    proof {
        lemma_fits_range(sum as int);
        lemma_fits_range(ab as int);
    }
    fits_exec(sum - ab)
}

/// Whether the midpoint walk for the ellipse with radii `radius_x`,
/// `radius_y` around (`center_x`, `center_y`), all taken as `isize` values,
/// computes only `isize` values (see `ellipse_fits`).
pub fn ellipse_in_range(center_x: usize, center_y: usize, radius_x: usize, radius_y: usize) -> (r: bool)
    ensures
        r == ellipse_fits(signed(center_x), signed(center_y), signed(radius_x), signed(radius_y)),
{
    let cx: i128 = (center_x as isize) as i128;
    let cy: i128 = (center_y as isize) as i128;
    let rx: i128 = (radius_x as isize) as i128;
    let ry: i128 = (radius_y as isize) as i128;
    if rx == 0 || ry == 0 {
        return true;
    }
    if !setup_fits_exec(rx, ry) {
        return false;
    }
    let ghost cxi = cx as int;
    let ghost cyi = cy as int;
    proof {
        lemma_fits_product(rx as int, rx as int);
        lemma_fits_product(ry as int, ry as int);
        lemma_square_positive(rx as int);
        lemma_square_positive(ry as int);
    }
    let a = rx * rx;
    let b = ry * ry;
    proof {
        lemma_fits_range(a as int);
        lemma_fits_product((2 * a) as int, ry as int);
        lemma_fits_product(a as int, ry as int);
    }
    let ghost start = ellipse_start(rx as int, ry as int);
    let ghost first = first_region(cxi, cyi, start, a as int, b as int);
    assert(cxi == signed(center_x) && cyi == signed(center_y));
    assert(rx as int == signed(radius_x) && ry as int == signed(radius_y));
    assert(ellipse_fits(cxi, cyi, rx as int, ry as int) == (first_fits(cxi, cyi, start, a as int, b as int)
        && transition_fits(first.1.x, first.1.y, a as int, b as int)
        && second_fits(cxi, cyi, second_start(first.1, a as int, b as int), a as int, b as int)));
    let mut w = Walk { x: 0, y: ry, dx: 2 * b * 0, dy: 2 * a * ry, decision: b - a * ry + a / 4 };
    assert(walk_state(w) == start);
    while w.dx < w.dy
        invariant
            fits(cxi) && fits(cyi) && fits(a as int) && fits(b as int),
            cxi == cx as int && cyi == cy as int,
            a > 0 && b > 0,
            walk_fits(w),
            first_fits(cxi, cyi, start, a as int, b as int) == first_fits(cxi, cyi, walk_state(w), a as int, b as int),
            ellipse_fits(signed(center_x), signed(center_y), signed(radius_x), signed(radius_y)) == (first_fits(cxi, cyi, start, a as int, b as int)
                && transition_fits(first.1.x, first.1.y, a as int, b as int)
                && second_fits(cxi, cyi, second_start(first.1, a as int, b as int), a as int, b as int)),
            first_region(cxi, cyi, walk_state(w), a as int, b as int).1 == first.1,
            first == first_region(cxi, cyi, start, a as int, b as int),
        decreases (if w.dx < w.dy { w.dy - w.dx } else { 0 }),
    {
        let ghost cur = walk_state(w);
        if !points_fit_exec(cx, cy, w.x, w.y) || !first_step_fits(&w, a, b) {
            assert(!first_fits(cxi, cyi, cur, a as int, b as int));
            return false;
        }
        w = first_step(&w, a, b);
        assert(w.dx as int == cur.dx + 2 * b);
        assert(w.dy <= cur.dy);
    }
    assert(walk_state(w) == first.1);
    if !transition_fits_exec(w.x, w.y, a, b) {
        return false;
    }
    proof {
        lemma_fits_product(w.x as int, w.x as int);
        lemma_fits_product(w.y as int, w.y as int);
        lemma_fits_range(w.x as int);
        lemma_fits_range(w.y as int);
        lemma_fits_product(b as int, (w.x * w.x + w.x) as int);
        lemma_fits_product(a as int, (w.y * w.y - 2 * w.y + 1) as int);
        lemma_fits_product(a as int, b as int);
    }
    let decision = b * (w.x * w.x + w.x) + a * (w.y * w.y - 2 * w.y + 1) - a * b;
    let mut v = Walk { decision, ..w };
    let ghost second = second_start(first.1, a as int, b as int);
    assert(walk_state(v) == second);
    while v.y >= 0
        invariant
            fits(cxi) && fits(cyi) && fits(a as int) && fits(b as int),
            cxi == cx as int && cyi == cy as int,
            walk_fits(v),
            second_fits(cxi, cyi, second, a as int, b as int) == second_fits(cxi, cyi, walk_state(v), a as int, b as int),
            ellipse_fits(signed(center_x), signed(center_y), signed(radius_x), signed(radius_y)) == second_fits(cxi, cyi, second, a as int, b as int),
        decreases v.y + 1,
    {
        let ghost cur = walk_state(v);
        if !points_fit_exec(cx, cy, v.x, v.y) || !second_step_fits(&v, a, b) {
            assert(!second_fits(cxi, cyi, cur, a as int, b as int));
            return false;
        }
        v = second_step(&v, a, b);
        assert(v.y as int == cur.y - 1);
    }
    true
}

/// The mirror image of `p` across the vertical line through `cx`.
pub open spec fn mirror_x(p: (int, int), cx: int) -> (int, int) {
    (2 * cx - p.0, p.1)
}

/// The mirror image of `p` across the horizontal line through `cy`.
pub open spec fn mirror_y(p: (int, int), cy: int) -> (int, int) {
    (p.0, 2 * cy - p.1)
}

/// The mirror image of `p` across the diagonal through (`cx`, `cy`).
pub open spec fn mirror_diagonal(p: (int, int), cx: int, cy: int) -> (int, int) {
    (cx + (p.1 - cy), cy + (p.0 - cx))
}

/// With every point, `points` holds its mirror images across the vertical
/// and the horizontal line through (`cx`, `cy`).
pub open spec fn mirror_closed(points: Seq<(int, int)>, cx: int, cy: int) -> bool {
    forall|p: (int, int)| #[trigger] points.contains(p) ==> points.contains(mirror_x(p, cx)) && points.contains(mirror_y(p, cy))
}

/// With every point, `points` holds its mirror image across the diagonal
/// through (`cx`, `cy`).
pub open spec fn diagonal_closed(points: Seq<(int, int)>, cx: int, cy: int) -> bool {
    forall|p: (int, int)| #[trigger] points.contains(p) ==> points.contains(mirror_diagonal(p, cx, cy))
}

/// Joining two sequences closed under the mirrors keeps them closed.
proof fn lemma_closed_concat(s: Seq<(int, int)>, t: Seq<(int, int)>, cx: int, cy: int)
    ensures
        mirror_closed(s, cx, cy) && mirror_closed(t, cx, cy) ==> mirror_closed(s + t, cx, cy),
        diagonal_closed(s, cx, cy) && diagonal_closed(t, cx, cy) ==> diagonal_closed(s + t, cx, cy),
{
    let u = s + t;
    assert forall|p: (int, int)| #[trigger] u.contains(p) implies (s.contains(p) || t.contains(p)) by {
        let i = choose|i: int| 0 <= i < u.len() && u[i] == p;
        if i < s.len() {
            assert(s[i] == p);
        } else {
            assert(t[i - s.len()] == p);
        }
    }
    assert forall|q: (int, int)| s.contains(q) implies #[trigger] u.contains(q) by {
        let i = choose|i: int| 0 <= i < s.len() && s[i] == q;
        assert(u[i] == q);
    }
    assert forall|q: (int, int)| t.contains(q) implies #[trigger] u.contains(q) by {
        let i = choose|i: int| 0 <= i < t.len() && t[i] == q;
        assert(u[i + s.len()] == q);
    }
}

/// The eight points of one step of the circle walk are closed under the
/// mirrors and the diagonal.
proof fn lemma_octant_closed(cx: int, cy: int, x: int, y: int)
    ensures
        mirror_closed(octant_points(cx, cy, x, y), cx, cy),
        diagonal_closed(octant_points(cx, cy, x, y), cx, cy),
{
    let o = octant_points(cx, cy, x, y);
    assert forall|p: (int, int)| #[trigger] o.contains(p) implies o.contains(mirror_x(p, cx)) && o.contains(mirror_y(p, cy))
        && o.contains(mirror_diagonal(p, cx, cy)) by {
        let k = choose|k: int| 0 <= k < o.len() && o[k] == p;
        assert(o[0] == (cx + x, cy + y));
        assert(o[1] == (cx + y, cy + x));
        assert(o[2] == (cx - y, cy + x));
        assert(o[3] == (cx - x, cy + y));
        assert(o[4] == (cx - x, cy - y));
        assert(o[5] == (cx - y, cy - x));
        assert(o[6] == (cx + y, cy - x));
        assert(o[7] == (cx + x, cy - y));
    }
}

/// The points of a circle walk are closed under the mirrors and the diagonal.
proof fn lemma_circle_walk_closed(cx: int, cy: int, x: int, y: int, error: int)
    ensures
        mirror_closed(circle_walk(cx, cy, x, y, error), cx, cy),
        diagonal_closed(circle_walk(cx, cy, x, y, error), cx, cy),
    decreases x - y + 2,
{
    if x >= y {
        let ny = y + 1;
        let nx = if error < 0 { x } else { x - 1 };
        let ne = if error < 0 { error + 2 * ny + 1 } else { error + 2 * (ny - nx) + 1 };
        lemma_circle_walk_closed(cx, cy, nx, ny, ne);
        lemma_octant_closed(cx, cy, x, y);
        lemma_closed_concat(octant_points(cx, cy, x, y), circle_walk(cx, cy, nx, ny, ne), cx, cy);
    }
}

/// A drawn circle is symmetric: with each point it holds its mirror images
/// across the vertical and the horizontal line through the center and across
/// the diagonal through it.
pub proof fn lemma_circle_symmetric(cx: int, cy: int, r: int)
    ensures
        mirror_closed(circle_points(cx, cy, r), cx, cy),
        diagonal_closed(circle_points(cx, cy, r), cx, cy),
{
    lemma_circle_walk_closed(cx, cy, r, 0, 1 - r);
}

/// The five points of a step of either ellipse region are closed under the mirrors.
proof fn lemma_region_points_closed(cx: int, cy: int, x: int, y: int)
    ensures
        mirror_closed(first_region_points(cx, cy, x, y), cx, cy),
        mirror_closed(second_region_points(cx, cy, x, y), cx, cy),
{
    let f = first_region_points(cx, cy, x, y);
    assert forall|p: (int, int)| #[trigger] f.contains(p) implies f.contains(mirror_x(p, cx)) && f.contains(mirror_y(p, cy)) by {
        let k = choose|k: int| 0 <= k < f.len() && f[k] == p;
        assert(f[0] == (cx + x, cy + y));
        assert(f[1] == (cx - x, cy - y));
        assert(f[3] == (cx + x, cy - y));
        assert(f[4] == (cx - x, cy + y));
    }
    let g = second_region_points(cx, cy, x, y);
    assert forall|p: (int, int)| #[trigger] g.contains(p) implies g.contains(mirror_x(p, cx)) && g.contains(mirror_y(p, cy)) by {
        let k = choose|k: int| 0 <= k < g.len() && g[k] == p;
        assert(g[0] == (cx + x, cy + y));
        assert(g[2] == (cx - x, cy + y));
        assert(g[3] == (cx - x, cy - y));
        assert(g[4] == (cx + x, cy - y));
    }
}

proof fn lemma_first_region_closed(cx: int, cy: int, s: EllipseState, rx2: int, ry2: int)
    ensures
        mirror_closed(first_region(cx, cy, s, rx2, ry2).0, cx, cy),
    decreases (if s.dx < s.dy { s.dy - s.dx } else { 0 }),
{
    if !(ry2 <= 0 || rx2 < 0 || s.dx >= s.dy) {
        let n = first_next(s, rx2, ry2);
        lemma_first_region_closed(cx, cy, n, rx2, ry2);
        lemma_region_points_closed(cx, cy, s.x, s.y);
        lemma_closed_concat(first_region_points(cx, cy, s.x, s.y), first_region(cx, cy, n, rx2, ry2).0, cx, cy);
    } else {
        assert(first_region(cx, cy, s, rx2, ry2).0 =~= Seq::<(int, int)>::empty());
    }
}

proof fn lemma_second_region_closed(cx: int, cy: int, s: EllipseState, rx2: int, ry2: int)
    ensures
        mirror_closed(second_region(cx, cy, s, rx2, ry2), cx, cy),
    decreases s.y + 1,
{
    if s.y >= 0 {
        let n = second_next(s, rx2, ry2);
        lemma_second_region_closed(cx, cy, n, rx2, ry2);
        lemma_region_points_closed(cx, cy, s.x, s.y);
        lemma_closed_concat(second_region_points(cx, cy, s.x, s.y), second_region(cx, cy, n, rx2, ry2), cx, cy);
    } else {
        assert(second_region(cx, cy, s, rx2, ry2) =~= Seq::<(int, int)>::empty());
    }
}

/// A drawn ellipse is symmetric about both axes through its center: with each
/// point it holds its mirror images across the vertical and the horizontal
/// line through the center.
pub proof fn lemma_ellipse_symmetric(cx: int, cy: int, rx: int, ry: int)
    ensures
        mirror_closed(ellipse_points(cx, cy, rx, ry), cx, cy),
{
    if rx != 0 && ry != 0 {
        let rx2 = rx * rx;
        let ry2 = ry * ry;
        let first = first_region(cx, cy, ellipse_start(rx, ry), rx2, ry2);
        lemma_first_region_closed(cx, cy, ellipse_start(rx, ry), rx2, ry2);
        lemma_second_region_closed(cx, cy, second_start(first.1, rx2, ry2), rx2, ry2);
        lemma_closed_concat(first.0, second_region(cx, cy, second_start(first.1, rx2, ry2), rx2, ry2), cx, cy);
    } else {
        assert(ellipse_points(cx, cy, rx, ry) =~= Seq::<(int, int)>::empty());
    }
}

/// The abstract state of a screen.
pub struct ScreenModel {
    pub width: usize,
    pub height: usize,
    pub text: Seq<Seq<char>>,
    pub pixels: Seq<Pixel>,
    pub rectangles: Seq<Rect>,
    pub background_color: u32,
}

/// Every line sits at the position its index gives it.
pub open spec fn lines_placed(lines: Seq<TextLine>) -> bool {
    forall|i: int| 0 <= i < lines.len() ==> #[trigger] lines[i].x == TEXT_X && lines[i].y == text_y(i)
}

/// The texts of a sequence of lines.
pub open spec fn line_texts(lines: Seq<TextLine>) -> Seq<Seq<char>> {
    lines.map_values(|l: TextLine| l.text@)
}

impl View for VirtualScreen {
    type V = ScreenModel;

    open spec fn view(&self) -> ScreenModel {
        ScreenModel {
            width: self.width,
            height: self.height,
            text: line_texts(self.text@),
            pixels: self.pixels@,
            rectangles: self.rectangles@,
            background_color: self.background_color,
        }
    }
}

impl VirtualScreen {
    /// Every text line sits at the position its index gives it.
    pub open spec fn wf(&self) -> bool {
        lines_placed(self.text@)
    }

    /// An empty black screen of the given size.
    pub fn new(width: usize, height: usize) -> (s: Self)
        ensures
            s.wf(),
            s@ == (ScreenModel {
                width,
                height,
                text: Seq::empty(),
                pixels: Seq::empty(),
                rectangles: Seq::empty(),
                background_color: 0,
            }),
    {
        let s = VirtualScreen {
            width,
            height,
            text: Vec::new(),
            pixels: Vec::new(),
            rectangles: Vec::new(),
            background_color: 0x000000,
        };
        assert(line_texts(s.text@) =~= Seq::<Seq<char>>::empty());
        s
    }

    /// Fills the screen with `color`, forgetting everything drawn and written.
    pub fn clear(&mut self, color: u32)
        ensures
            final(self).wf(),
            final(self)@ == (ScreenModel {
                background_color: color,
                pixels: Seq::empty(),
                rectangles: Seq::empty(),
                text: Seq::empty(),
                ..old(self)@
            }),
    {
        self.background_color = color;
        self.pixels.clear();
        self.rectangles.clear();
        self.text.clear();
        assert(line_texts(self.text@) =~= Seq::<Seq<char>>::empty());
    }

    /// Records a pixel when it lies on the screen.
    pub fn draw_pixel(&mut self, x: usize, y: usize, color: u32)
        ensures
            final(self)@ == (ScreenModel {
                pixels: plot(old(self).pixels@, old(self).width, old(self).height, x as int, y as int, color),
                ..old(self)@
            }),
            final(self).text@ == old(self).text@,
            final(self).wf() == old(self).wf(),
    {
        if x >= self.width || y >= self.height {
            return;
        }
        self.pixels.push(Pixel { x, y, color });
    }

    /// Draws the line from (`x1`, `y1`) to (`x2`, `y2`), both ends included.
    /// The coordinates are taken as signed values; points with a negative
    /// coordinate or off the screen are not recorded.
    #[verifier::spinoff_prover]
    pub fn draw_line(&mut self, x1: usize, y1: usize, x2: usize, y2: usize, color: u32)
        ensures
            final(self)@ == (ScreenModel {
                pixels: plot_all(
                    old(self).pixels@,
                    old(self).width,
                    old(self).height,
                    line_points(signed(x1), signed(y1), signed(x2), signed(y2)),
                    color,
                ),
                ..old(self)@
            }),
            final(self).text@ == old(self).text@,
            final(self).wf() == old(self).wf(),
    {
        let ax: i128 = (x1 as isize) as i128;
        let ay: i128 = (y1 as isize) as i128;
        let bx: i128 = (x2 as isize) as i128;
        let by: i128 = (y2 as isize) as i128;
        let dx: i128 = if bx >= ax { bx - ax } else { ax - bx };
        let sx: i128 = if ax < bx { 1 } else { -1 };
        let dy: i128 = if by >= ay { ay - by } else { by - ay };
        let sy: i128 = if ay < by { 1 } else { -1 };
        let mut cx: i128 = ax;
        let mut cy: i128 = ay;
        let mut error: i128 = dx + dy;
        let ghost dyp: int = -dy;
        let ghost mut steps_x: int = 0;
        let ghost mut steps_y: int = 0;
        let ghost mut done: Seq<(int, int)> = Seq::empty();
        let ghost mut fuel: nat = (dx - dy + 1) as nat;
        let ghost all = line_points(ax as int, ay as int, bx as int, by as int);
        let ghost width = self.width;
        let ghost height = self.height;
        assert(done + line_walk(cx as int, cy as int, bx as int, by as int, dx as int, dy as int, sx as int, sy as int, error as int, (dx - dy + 1) as nat) =~= all);
        assert(error == dx * (1 + steps_y) - dyp * (1 + steps_x)) by (nonlinear_arith)
            requires
                steps_x == 0,
                steps_y == 0,
                error == dx - dyp,
        ;
        loop
            invariant_except_break
                isize::MIN <= ax <= isize::MAX,
                isize::MIN <= ay <= isize::MAX,
                isize::MIN <= bx <= isize::MAX,
                isize::MIN <= by <= isize::MAX,
                dx == abs(bx - ax),
                dyp == abs(by - ay),
                dy == -dyp,
                sx == (if ax < bx { 1int } else { -1int }),
                sy == (if ay < by { 1int } else { -1int }),
                0 <= steps_x <= dx,
                0 <= steps_y <= dyp,
                cx == (if sx == 1 { ax + steps_x } else { ax - steps_x }),
                cy == (if sy == 1 { ay + steps_y } else { ay - steps_y }),
                error == dx * (1 + steps_y) - dyp * (1 + steps_x),
                -2 * dyp <= error <= 2 * dx,
                fuel >= dx - steps_x + dyp - steps_y + 1,
                done + line_walk(cx as int, cy as int, bx as int, by as int, dx as int, dy as int, sx as int, sy as int, error as int, fuel) == all,
                self.pixels@ == plot_all(old(self).pixels@, width, height, done, color),
                self.width == width,
                self.height == height,
                width == old(self).width,
                height == old(self).height,
                self.text@ == old(self).text@,
                self.rectangles@ == old(self).rectangles@,
                self.background_color == old(self).background_color,
            ensures
                self.pixels@ == plot_all(old(self).pixels@, width, height, all, color),
                self.width == old(self).width,
                self.height == old(self).height,
                self.text@ == old(self).text@,
                self.rectangles@ == old(self).rectangles@,
                self.background_color == old(self).background_color,
            decreases dx - steps_x + dyp - steps_y,
        {
            let ghost prev_done = done;
            let ghost walk = line_walk(cx as int, cy as int, bx as int, by as int, dx as int, dy as int, sx as int, sy as int, error as int, fuel);
            proof {
                lemma_plot_all_push(old(self).pixels@, width, height, done, (cx as int, cy as int), color);
            }
            if cx >= 0 && cy >= 0 {
                self.draw_pixel(cx as usize, cy as usize, color);
            }
            proof {
                done = done.push((cx as int, cy as int));
            }
            if cx == bx && cy == by {
                assert(walk == seq![(cx as int, cy as int)]);
                assert(done =~= prev_done + walk);
                break;
            }
            proof {
                lemma_line_step(dx as int, dyp, steps_x, steps_y, error as int);
                lemma_line_error(dx as int, dyp, steps_x, steps_y, error as int);
            }
            let e2: i128 = 2 * error;
            let ghost old_cx = cx;
            let ghost old_cy = cy;
            let ghost old_error = error;
            if e2 >= dy {
                error = error + dy;
                cx = cx + sx;
                proof {
                    steps_x = steps_x + 1;
                }
            }
            if e2 <= dx {
                error = error + dx;
                cy = cy + sy;
                proof {
                    steps_y = steps_y + 1;
                }
            }
            assert(walk == seq![(old_cx as int, old_cy as int)] + line_walk(cx as int, cy as int, bx as int, by as int, dx as int, dy as int, sx as int, sy as int, error as int, (fuel - 1) as nat));
            assert(done + line_walk(cx as int, cy as int, bx as int, by as int, dx as int, dy as int, sx as int, sy as int, error as int, (fuel - 1) as nat) =~= prev_done + walk);
            proof {
                fuel = (fuel - 1) as nat;
            }
        }
    }

    /// Draws the point (`x`, `y`) when both coordinates are non-negative.
    fn plot_signed(&mut self, x: i128, y: i128, color: u32)
        requires
            x <= usize::MAX,
            y <= usize::MAX,
        ensures
            final(self)@ == (ScreenModel {
                pixels: plot(old(self).pixels@, old(self).width, old(self).height, x as int, y as int, color),
                ..old(self)@
            }),
            final(self).text@ == old(self).text@,
            final(self).wf() == old(self).wf(),
    {
        if x >= 0 && y >= 0 {
            self.draw_pixel(x as usize, y as usize, color);
        }
    }

    /// Draws the circle of radius `radius` around (`center_x`, `center_y`)
    /// with the midpoint walk, eight symmetric points per step. The values are
    /// taken as signed; points with a negative coordinate or off the screen
    /// are not recorded.
    #[verifier::spinoff_prover]
    #[verifier::rlimit(40)]
    pub fn draw_circle(&mut self, center_x: usize, center_y: usize, radius: usize, color: u32)
        ensures
            final(self)@ == (ScreenModel {
                pixels: plot_all(
                    old(self).pixels@,
                    old(self).width,
                    old(self).height,
                    circle_points(signed(center_x), signed(center_y), signed(radius)),
                    color,
                ),
                ..old(self)@
            }),
            final(self).text@ == old(self).text@,
            final(self).wf() == old(self).wf(),
    {
        let cx: i128 = (center_x as isize) as i128;
        let cy: i128 = (center_y as isize) as i128;
        let r: i128 = (radius as isize) as i128;
        let mut x: i128 = r;
        let mut y: i128 = 0;
        let mut error: i128 = 1 - r;
        let ghost mut done: Seq<(int, int)> = Seq::empty();
        let ghost all = circle_points(cx as int, cy as int, r as int);
        let ghost width = self.width;
        let ghost height = self.height;
        assert(done + circle_walk(cx as int, cy as int, x as int, y as int, error as int) =~= all);
        while x >= y
            invariant
                isize::MIN <= cx <= isize::MAX,
                isize::MIN <= cy <= isize::MAX,
                isize::MIN <= r <= isize::MAX,
                x <= r,
                0 <= y,
                r < 0 ==> x < y,
                r >= 0 ==> x >= y - 2,
                r >= 0 ==> y <= r + 1,
                r >= 0 ==> error >= -2 * x + 1,
                r >= 0 ==> error <= 2 * y + 7,
                r >= 0 && x >= y ==> error <= 2 * y + 4,
                done + circle_walk(cx as int, cy as int, x as int, y as int, error as int) == all,
                self.pixels@ == plot_all(old(self).pixels@, width, height, done, color),
                self.width == width,
                self.height == height,
                width == old(self).width,
                height == old(self).height,
                self.text@ == old(self).text@,
                self.rectangles@ == old(self).rectangles@,
                self.background_color == old(self).background_color,
            decreases x - y + 2,
        {
            let ghost prev_done = done;
            let ghost pts = octant_points(cx as int, cy as int, x as int, y as int);
            let ghost d0 = plot_all(old(self).pixels@, width, height, done, color);
            assert(isize::MAX + isize::MAX <= usize::MAX);
            self.plot_signed(cx + x, cy + y, color);
            self.plot_signed(cx + y, cy + x, color);
            self.plot_signed(cx - y, cy + x, color);
            self.plot_signed(cx - x, cy + y, color);
            self.plot_signed(cx - x, cy - y, color);
            self.plot_signed(cx - y, cy - x, color);
            self.plot_signed(cx + y, cy - x, color);
            self.plot_signed(cx + x, cy - y, color);
            proof {
                reveal_with_fuel(plot_all, 9);
                lemma_plot_all_append(old(self).pixels@, width, height, prev_done, pts, color);
                done = prev_done + pts;
            }
            let ghost old_x = x;
            let ghost old_y = y;
            let ghost old_error = error;
            y = y + 1;
            if error < 0 {
                error = error + 2 * y + 1;
            } else {
                x = x - 1;
                error = error + 2 * (y - x) + 1;
            }
            assert(circle_walk(cx as int, cy as int, old_x as int, old_y as int, old_error as int) == pts + circle_walk(cx as int, cy as int, x as int, y as int, error as int));
            assert(done + circle_walk(cx as int, cy as int, x as int, y as int, error as int) =~= prev_done + (pts + circle_walk(cx as int, cy as int, x as int, y as int, error as int)));
        }
        assert(circle_walk(cx as int, cy as int, x as int, y as int, error as int) =~= Seq::<(int, int)>::empty());
        assert(done =~= all);
    }

    /// Draws at (`x`, `y`) with both coordinates cast to `usize`.
    fn plot_wrapped(&mut self, x: i128, y: i128, color: u32)
        ensures
            final(self)@ == (ScreenModel {
                pixels: plot(old(self).pixels@, old(self).width, old(self).height, wrap(x as int, y as int).0, wrap(x as int, y as int).1, color),
                ..old(self)@
            }),
            final(self).text@ == old(self).text@,
            final(self).wf() == old(self).wf(),
    {
        self.draw_pixel(x as usize, y as usize, color);
    }

    /// Draws the ellipse with radii `radius_x` and `radius_y` around
    /// (`center_x`, `center_y`) with the two-region midpoint walk; nothing is
    /// drawn when a radius is zero. All four values are taken as `isize`
    /// values, the walk's arithmetic is done in `isize`, and each point is
    /// cast to `usize` coordinates and recorded when it lies on the screen.
    #[verifier::spinoff_prover]
    #[verifier::rlimit(80)]
    pub fn draw_ellipse(&mut self, center_x: usize, center_y: usize, radius_x: usize, radius_y: usize, color: u32)
        requires
            ellipse_fits(signed(center_x), signed(center_y), signed(radius_x), signed(radius_y)),
        ensures
            final(self)@ == (ScreenModel {
                pixels: plot_all(
                    old(self).pixels@,
                    old(self).width,
                    old(self).height,
                    wrapped(ellipse_points(signed(center_x), signed(center_y), signed(radius_x), signed(radius_y))),
                    color,
                ),
                ..old(self)@
            }),
            final(self).text@ == old(self).text@,
            final(self).wf() == old(self).wf(),
    {
        let cx: i128 = (center_x as isize) as i128;
        let cy: i128 = (center_y as isize) as i128;
        let rx: i128 = (radius_x as isize) as i128;
        let ry: i128 = (radius_y as isize) as i128;
        if rx == 0 || ry == 0 {
            assert(wrapped(Seq::<(int, int)>::empty()) =~= Seq::<(int, int)>::empty());
            assert(plot_all(old(self).pixels@, self.width, self.height, Seq::<(int, int)>::empty(), color) == old(self).pixels@);
            return;
        }
        let ghost width = self.width;
        let ghost height = self.height;
        let ghost cxi = cx as int;
        let ghost cyi = cy as int;
        proof {
            lemma_fits_product(rx as int, rx as int);
            lemma_fits_product(ry as int, ry as int);
            lemma_square_positive(rx as int);
            lemma_square_positive(ry as int);
        }
        let a: i128 = rx * rx;
        let b: i128 = ry * ry;
        proof {
            lemma_fits_range(a as int);
            lemma_fits_product((2 * a) as int, ry as int);
            lemma_fits_product(a as int, ry as int);
        }
        let ghost start = ellipse_start(rx as int, ry as int);
        let ghost first = first_region(cxi, cyi, start, a as int, b as int);
        let mut w = Walk { x: 0, y: ry, dx: 2 * b * 0, dy: 2 * a * ry, decision: b - a * ry + a / 4 };
        let ghost mut done: Seq<(int, int)> = Seq::empty();
        assert(walk_state(w) == start);
        assert(wrapped(done) =~= Seq::<(int, int)>::empty());
        assert(done + first_region(cxi, cyi, walk_state(w), a as int, b as int).0 =~= first.0);
        while w.dx < w.dy
            invariant
                fits(cxi) && fits(cyi) && fits(a as int) && fits(b as int),
                cxi == cx as int && cyi == cy as int,
                a > 0 && b > 0,
                walk_fits(w),
                first_fits(cxi, cyi, walk_state(w), a as int, b as int),
                done + first_region(cxi, cyi, walk_state(w), a as int, b as int).0 == first.0,
                first_region(cxi, cyi, walk_state(w), a as int, b as int).1 == first.1,
                first == first_region(cxi, cyi, start, a as int, b as int),
                self.pixels@ == plot_all(old(self).pixels@, width, height, wrapped(done), color),
                self.width == width,
                self.height == height,
                width == old(self).width,
                height == old(self).height,
                self.text@ == old(self).text@,
                self.rectangles@ == old(self).rectangles@,
                self.background_color == old(self).background_color,
            decreases (if w.dx < w.dy { w.dy - w.dx } else { 0 }),
        {
            let ghost cur = walk_state(w);
            let ghost pts = first_region_points(cxi, cyi, cur.x, cur.y);
            let ghost prev_done = done;
            proof {
                lemma_fits_range(cxi);
                lemma_fits_range(cyi);
                lemma_fits_range(w.x as int);
                lemma_fits_range(w.y as int);
            }
            self.plot_wrapped(cx + w.x, cy + w.y, color);
            self.plot_wrapped(cx - w.x, cy - w.y, color);
            self.plot_wrapped(cx - w.x, cy - w.y, color);
            self.plot_wrapped(cx + w.x, cy - w.y, color);
            self.plot_wrapped(cx - w.x, cy + w.y, color);
            proof {
                let wpts = wrapped(pts);
                assert(wpts =~= seq![
                    wrap(cxi + cur.x, cyi + cur.y),
                    wrap(cxi - cur.x, cyi - cur.y),
                    wrap(cxi - cur.x, cyi - cur.y),
                    wrap(cxi + cur.x, cyi - cur.y),
                    wrap(cxi - cur.x, cyi + cur.y),
                ]);
                reveal_with_fuel(plot_all, 6);
                lemma_plot_all_append(old(self).pixels@, width, height, wrapped(prev_done), wpts, color);
                assert(wrapped(prev_done + pts) =~= wrapped(prev_done) + wpts);
                done = prev_done + pts;
            }
            w = first_step(&w, a, b);
            let ghost next = walk_state(w);
            assert(w.dx as int == cur.dx + 2 * b);
            assert(w.dy <= cur.dy);
            assert(first_region(cxi, cyi, cur, a as int, b as int) == (pts + first_region(cxi, cyi, next, a as int, b as int).0, first_region(cxi, cyi, next, a as int, b as int).1));
            assert(done + first_region(cxi, cyi, next, a as int, b as int).0 =~= prev_done + (pts + first_region(cxi, cyi, next, a as int, b as int).0));
        }
        assert(walk_state(w) == first.1);
        assert(done =~= first.0);
        proof {
            lemma_fits_product(w.x as int, w.x as int);
            lemma_fits_product(w.y as int, w.y as int);
            lemma_fits_range(w.x as int);
            lemma_fits_range(w.y as int);
            lemma_fits_product(b as int, (w.x * w.x + w.x) as int);
            lemma_fits_product(a as int, (w.y * w.y - 2 * w.y + 1) as int);
            lemma_fits_product(a as int, b as int);
            lemma_fits_range((b * (w.x * w.x + w.x)) as int);
            lemma_fits_range((a * (w.y * w.y - 2 * w.y + 1)) as int);
            lemma_fits_range((b * (w.x * w.x + w.x) + a * (w.y * w.y - 2 * w.y + 1)) as int);
            lemma_fits_range((a * b) as int);
        }
        let decision = b * (w.x * w.x + w.x) + a * (w.y * w.y - 2 * w.y + 1) - a * b;
        let mut v = Walk { decision, ..w };
        let ghost second = second_start(first.1, a as int, b as int);
        let ghost first_done = done;
        let ghost mut done2: Seq<(int, int)> = Seq::empty();
        assert(walk_state(v) == second);
        assert(done2 + second_region(cxi, cyi, second, a as int, b as int) =~= second_region(cxi, cyi, second, a as int, b as int));
        assert(first_done + done2 =~= first_done);
        while v.y >= 0
            invariant
                fits(cxi) && fits(cyi) && fits(a as int) && fits(b as int),
                cxi == cx as int && cyi == cy as int,
                walk_fits(v),
                second_fits(cxi, cyi, walk_state(v), a as int, b as int),
                done2 + second_region(cxi, cyi, walk_state(v), a as int, b as int) == second_region(cxi, cyi, second, a as int, b as int),
                self.pixels@ == plot_all(old(self).pixels@, width, height, wrapped(first_done + done2), color),
                self.width == width,
                self.height == height,
                width == old(self).width,
                height == old(self).height,
                self.text@ == old(self).text@,
                self.rectangles@ == old(self).rectangles@,
                self.background_color == old(self).background_color,
            decreases v.y + 1,
        {
            let ghost cur = walk_state(v);
            let ghost pts = second_region_points(cxi, cyi, cur.x, cur.y);
            let ghost prev_done = done2;
            proof {
                lemma_fits_range(cxi);
                lemma_fits_range(cyi);
                lemma_fits_range(v.x as int);
                lemma_fits_range(v.y as int);
            }
            self.plot_wrapped(cx + v.x, cy + v.y, color);
            self.plot_wrapped(cx + v.x, cy + v.y, color);
            self.plot_wrapped(cx - v.x, cy + v.y, color);
            self.plot_wrapped(cx - v.x, cy - v.y, color);
            self.plot_wrapped(cx + v.x, cy - v.y, color);
            proof {
                let wpts = wrapped(pts);
                assert(wpts =~= seq![
                    wrap(cxi + cur.x, cyi + cur.y),
                    wrap(cxi + cur.x, cyi + cur.y),
                    wrap(cxi - cur.x, cyi + cur.y),
                    wrap(cxi - cur.x, cyi - cur.y),
                    wrap(cxi + cur.x, cyi - cur.y),
                ]);
                reveal_with_fuel(plot_all, 6);
                lemma_plot_all_append(old(self).pixels@, width, height, wrapped(first_done + prev_done), wpts, color);
                assert(first_done + prev_done + pts =~= first_done + (prev_done + pts));
                assert(wrapped(first_done + prev_done + pts) =~= wrapped(first_done + prev_done) + wpts);
                done2 = prev_done + pts;
            }
            v = second_step(&v, a, b);
            let ghost next = walk_state(v);
            assert(second_region(cxi, cyi, cur, a as int, b as int) == pts + second_region(cxi, cyi, next, a as int, b as int));
            assert(done2 + second_region(cxi, cyi, next, a as int, b as int) =~= prev_done + (pts + second_region(cxi, cyi, next, a as int, b as int)));
        }
        assert(second_region(cxi, cyi, walk_state(v), a as int, b as int) =~= Seq::<(int, int)>::empty());
        assert(ellipse_points(cxi, cyi, rx as int, ry as int) == first.0 + second_region(cxi, cyi, second, a as int, b as int));
    }

    /// Draws the outline of the triangle with corners (`x1`, `y1`),
    /// (`x2`, `y2`), (`x3`, `y3`): the three lines from each corner to the next.
    pub fn draw_triangle(&mut self, x1: usize, y1: usize, x2: usize, y2: usize, x3: usize, y3: usize, color: u32)
        ensures
            final(self)@ == (ScreenModel {
                pixels: plot_all(
                    old(self).pixels@,
                    old(self).width,
                    old(self).height,
                    line_points(signed(x1), signed(y1), signed(x2), signed(y2))
                        + line_points(signed(x2), signed(y2), signed(x3), signed(y3))
                        + line_points(signed(x3), signed(y3), signed(x1), signed(y1)),
                    color,
                ),
                ..old(self)@
            }),
            final(self).text@ == old(self).text@,
            final(self).wf() == old(self).wf(),
    {
        let ghost w = self.width;
        let ghost h = self.height;
        self.draw_line(x1, y1, x2, y2, color);
        self.draw_line(x2, y2, x3, y3, color);
        self.draw_line(x3, y3, x1, y1, color);
        proof {
            let l1 = line_points(signed(x1), signed(y1), signed(x2), signed(y2));
            let l2 = line_points(signed(x2), signed(y2), signed(x3), signed(y3));
            let l3 = line_points(signed(x3), signed(y3), signed(x1), signed(y1));
            lemma_plot_all_append(old(self).pixels@, w, h, l1, l2, color);
            lemma_plot_all_append(old(self).pixels@, w, h, l1 + l2, l3, color);
        }
    }

    /// Records a rectangle when its top left corner lies on the screen.
    pub fn draw_rect(&mut self, x: usize, y: usize, width: usize, height: usize, color: u32)
        ensures
            final(self)@ == (ScreenModel {
                rectangles: if x < old(self).width && y < old(self).height {
                    old(self).rectangles@.push(Rect { x, y, width, height, color })
                } else {
                    old(self).rectangles@
                },
                ..old(self)@
            }),
            final(self).text@ == old(self).text@,
            final(self).wf() == old(self).wf(),
    {
        if x >= self.width || y >= self.height {
            return;
        }
        self.rectangles.push(Rect { x, y, width, height, color });
    }

    /// Records a filled rectangle when its top left corner lies on the screen
    /// (every recorded rectangle is drawn filled).
    pub fn fill_rect(&mut self, x: usize, y: usize, width: usize, height: usize, color: u32)
        ensures
            final(self)@ == (ScreenModel {
                rectangles: if x < old(self).width && y < old(self).height {
                    old(self).rectangles@.push(Rect { x, y, width, height, color })
                } else {
                    old(self).rectangles@
                },
                ..old(self)@
            }),
            final(self).text@ == old(self).text@,
            final(self).wf() == old(self).wf(),
    {
        self.draw_rect(x, y, width, height, color);
    }

    /// Writes `text` below what is already written, one line per piece
    /// between newline characters.
    pub fn write_text(&mut self, text: &str)
        requires
            old(self).wf(),
        ensures
            final(self).wf(),
            final(self)@ == (ScreenModel {
                text: old(self)@.text + split_on(text@, '\n'),
                ..old(self)@
            }),
    {
        let lines = split_lines(text);
        let ghost start = self.text@;
        let mut i: usize = 0;
        while i < lines.len()
            invariant
                self.wf(),
                i <= lines@.len(),
                lines@.len() == split_on(text@, '\n').len(),
                forall|j: int| 0 <= j < lines@.len() ==> #[trigger] lines@[j]@ == split_on(text@, '\n')[j],
                line_texts(self.text@) == line_texts(start) + split_on(text@, '\n').take(i as int),
                self.text@.len() == start.len() + i,
                self.width == old(self).width,
                self.height == old(self).height,
                self.pixels@ == old(self).pixels@,
                self.rectangles@ == old(self).rectangles@,
                self.background_color == old(self).background_color,
                start == old(self).text@,
            decreases lines@.len() - i,
        {
            let y: u128 = 8 + 16 * (self.text.len() as u128);
            let line = TextLine { text: string_of(lines[i].as_slice()), x: TEXT_X, y };
            let ghost before = self.text@;
            self.text.push(line);
            i = i + 1;
            assert(line_texts(self.text@) =~= line_texts(before).push(split_on(text@, '\n')[i - 1]));
            assert(split_on(text@, '\n').take(i as int) =~= split_on(text@, '\n').take(i - 1).push(split_on(text@, '\n')[i - 1]));
        }
        assert(split_on(text@, '\n').take(i as int) =~= split_on(text@, '\n'));
    }

    /// The recorded pixels, in the order they were drawn.
    pub fn pixels(&self) -> (r: &[Pixel])
        ensures
            r@ == self.pixels@,
    {
        self.pixels.as_slice()
    }

    /// The recorded rectangles, in the order they were drawn.
    pub fn rectangles(&self) -> (r: &[Rect])
        ensures
            r@ == self.rectangles@,
    {
        self.rectangles.as_slice()
    }

    /// The color the screen was last cleared with.
    pub fn background_color(&self) -> (r: u32)
        ensures
            r == self.background_color,
    {
        self.background_color
    }
}

} // verus!
