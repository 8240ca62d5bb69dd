//! Drawing into RGBA images: four bytes a pixel, row by row from the top.

use vstd::prelude::*;

verus! {

/// Where the bytes of the pixel in column `x` of row `y` begin.
pub open spec fn offset(width: int, x: int, y: int) -> int {
    (y * width + x) * 4
}

/// The four bytes of a pixel.
pub open spec fn pixel(image: Seq<u8>, width: int, x: int, y: int) -> Seq<u8> {
    image.subrange(offset(width, x, y), offset(width, x, y) + 4)
}

/// Whether every pixel of a frame begins at a place that fits in 32 bits, and the bytes of
/// all of them can be counted.
pub open spec fn addressable(width: u32, height: u32) -> bool {
    &&& width * height <= 0x4000_0000
    &&& width * height * 4 <= usize::MAX
}

/// Whether `image` holds just the pixels of an addressable frame.
pub open spec fn frames(image: Seq<u8>, width: u32, height: u32) -> bool {
    image.len() == width * height * 4 && addressable(width, height)
}

pub open spec fn in_frame(width: u32, height: u32, x: int, y: int) -> bool {
    0 <= x < width && 0 <= y < height
}

/// Whether `after` is `before` with the pixels that `covers` picks set to `rgba`.
pub open spec fn painted(
    before: Seq<u8>,
    after: Seq<u8>,
    width: u32,
    height: u32,
    rgba: Seq<u8>,
    covers: spec_fn(int, int) -> bool,
) -> bool {
    &&& after.len() == before.len()
    &&& forall|x: int, y: int|
        #![trigger pixel(after, width as int, x, y)]
        in_frame(width, height, x, y) ==> pixel(after, width as int, x, y) == if covers(x, y) {
            rgba
        } else {
            pixel(before, width as int, x, y)
        }
}

/// The bytes of a pixel of the frame lie in the image.
pub proof fn lemma_offset(width: int, height: int, x: int, y: int)
    by (nonlinear_arith)
    requires
        0 <= x < width,
        0 <= y < height,
    ensures
        0 <= offset(width, x, y),
        offset(width, x, y) + 4 <= width * height * 4,
{
}

proof fn lemma_row_order(width: int, x: int, y: int, u: int, v: int)
    by (nonlinear_arith)
    requires
        0 <= x < width,
        0 <= u < width,
        y < v,
    ensures
        offset(width, x, y) + 4 <= offset(width, u, v),
{
}

proof fn lemma_apart(width: int, x: int, y: int, u: int, v: int)
    requires
        0 <= x < width,
        0 <= u < width,
        x != u || y != v,
    ensures
        offset(width, x, y) + 4 <= offset(width, u, v) || offset(width, u, v) + 4 <= offset(
            width,
            x,
            y,
        ),
{
    if y < v {
        lemma_row_order(width, x, y, u, v);
    } else if v < y {
        lemma_row_order(width, u, v, x, y);
    }
}

/// Sets one pixel of the frame.
pub fn set_pixel(image: &mut Vec<u8>, width: u32, height: u32, x: u32, y: u32, rgba: [u8; 4])
    requires
        frames(old(image)@, width, height),
        x < width,
        y < height,
    ensures
        frames(final(image)@, width, height),
        painted(
            old(image)@,
            final(image)@,
            width,
            height,
            rgba@,
            |px: int, py: int| px == x && py == y,
        ),
{
    proof {
        lemma_offset(width as int, height as int, x as int, y as int);
        assert(y * width + x >= y * width >= 0) by (nonlinear_arith)
            requires
                y >= 0,
                width >= 0,
                x >= 0,
        ;
    }
    let at: usize = ((y * width + x) * 4) as usize;
    let ghost before = image@;
    image[at] = rgba[0];
    image[at + 1] = rgba[1];
    image[at + 2] = rgba[2];
    image[at + 3] = rgba[3];
    proof {
        let w = width as int;
        assert(pixel(image@, w, x as int, y as int) =~= rgba@);
        assert forall|u: int, v: int|
            #![trigger pixel(image@, w, u, v)]
            in_frame(width, height, u, v) && !(u == x && v == y) implies pixel(image@, w, u, v)
            == pixel(before, w, u, v) by {
            lemma_offset(w, height as int, u, v);
            lemma_apart(w, x as int, y as int, u, v);
            assert(pixel(image@, w, u, v) =~= pixel(before, w, u, v));
        }
    }
}

/// Draws column `x` from top to bottom.
pub fn draw_vline(image: &mut Vec<u8>, width: u32, height: u32, x: u32, rgba: [u8; 4])
    requires
        frames(old(image)@, width, height),
        height > 0 ==> x < width,
    ensures
        frames(final(image)@, width, height),
        painted(old(image)@, final(image)@, width, height, rgba@, |px: int, py: int| px == x),
{
    let ghost before = image@;
    let mut y: u32 = 0;
    while y < height
        invariant
            y <= height,
            height > 0 ==> x < width,
            frames(image@, width, height),
            painted(before, image@, width, height, rgba@, |px: int, py: int| px == x && py < y),
        decreases height - y,
    {
        let ghost mid = image@;
        set_pixel(image, width, height, x, y, rgba);
        proof {
            assert forall|u: int, v: int|
                #![trigger pixel(image@, width as int, u, v)]
                in_frame(width, height, u, v) implies pixel(image@, width as int, u, v) == (if u
                == x && v < y + 1 {
                rgba@
            } else {
                pixel(before, width as int, u, v)
            }) by {
                assert(pixel(mid, width as int, u, v) == if u == x && v < y {
                    rgba@
                } else {
                    pixel(before, width as int, u, v)
                });
            }
        }
        y += 1;
    }
}

/// Draws row `y` from left to right, where the frame has such a row.
pub fn draw_hline(image: &mut Vec<u8>, width: u32, height: u32, y: u32, rgba: [u8; 4])
    requires
        frames(old(image)@, width, height),
    ensures
        frames(final(image)@, width, height),
        painted(old(image)@, final(image)@, width, height, rgba@, |px: int, py: int| py == y),
{
    if y >= height {
        return;
    }
    let ghost before = image@;
    let mut x: u32 = 0;
    while x < width
        invariant
            x <= width,
            y < height,
            frames(image@, width, height),
            painted(before, image@, width, height, rgba@, |px: int, py: int| py == y && px < x),
        decreases width - x,
    {
        let ghost mid = image@;
        set_pixel(image, width, height, x, y, rgba);
        proof {
            assert forall|u: int, v: int|
                #![trigger pixel(image@, width as int, u, v)]
                in_frame(width, height, u, v) implies pixel(image@, width as int, u, v) == (if v
                == y && u < x + 1 {
                rgba@
            } else {
                pixel(before, width as int, u, v)
            }) by {
                assert(pixel(mid, width as int, u, v) == if v == y && u < x {
                    rgba@
                } else {
                    pixel(before, width as int, u, v)
                });
            }
        }
        x += 1;
    }
}

/// Sets a pixel, if it lies in the frame.
pub fn put_px(image: &mut Vec<u8>, width: u32, height: u32, x: i32, y: i32, rgba: [u8; 4])
    requires
        frames(old(image)@, width, height),
    ensures
        frames(final(image)@, width, height),
        painted(
            old(image)@,
            final(image)@,
            width,
            height,
            rgba@,
            |px: int, py: int| px == x && py == y,
        ),
{
    if x < 0 || y < 0 || x as i64 >= width as i64 || y as i64 >= height as i64 {
        return;
    }
    set_pixel(image, width, height, x as u32, y as u32, rgba);
}

// ---------------------------------------------------------------------------
// Lines
// ---------------------------------------------------------------------------

/// The distance of two coordinates.
pub open spec fn span(a: int, b: int) -> int {
    if a < b {
        b - a
    } else {
        a - b
    }
}

/// The direction from one coordinate to another.
pub open spec fn toward(a: int, b: int) -> int {
    if a < b {
        1
    } else {
        -1
    }
}

/// Twice the error of a line that goes `dx` to the side and `dy` up, after `i`
/// steps to the side and `j` steps up.
pub open spec fn error2(dx: int, dy: int, i: int, j: int) -> int {
    2 * ((j + 1) * dx - (i + 1) * dy)
}

/// Whether the line takes a step to the side there.
pub open spec fn steps_side(dx: int, dy: int, i: int, j: int) -> bool {
    error2(dx, dy, i, j) >= -dy
}

/// Whether the line takes a step up there.
pub open spec fn steps_up(dx: int, dy: int, i: int, j: int) -> bool {
    error2(dx, dy, i, j) <= dx
}

/// The steps that a line has taken at each of its points, from the given ones on.
pub open spec fn line_steps(dx: int, dy: int, i: int, j: int) -> Seq<(int, int)>
    decreases (dx - i) + (dy - j),
    when 0 <= i <= dx && 0 <= j <= dy
    via line_steps_shrink
{
    if i == dx && j == dy {
        seq![(i, j)]
    } else {
        seq![(i, j)] + line_steps(
            dx,
            dy,
            if steps_side(dx, dy, i, j) {
                i + 1
            } else {
                i
            },
            if steps_up(dx, dy, i, j) {
                j + 1
            } else {
                j
            },
        )
    }
}

#[via_fn]
proof fn line_steps_shrink(dx: int, dy: int, i: int, j: int) {
    if 0 <= i <= dx && 0 <= j <= dy && !(i == dx && j == dy) {
        lemma_step(dx, dy, i, j);
    }
}

/// Short of its end a line takes a step, and no step leads past the end.
proof fn lemma_step(dx: int, dy: int, i: int, j: int)
    requires
        0 <= i <= dx,
        0 <= j <= dy,
        !(i == dx && j == dy),
    ensures
        steps_side(dx, dy, i, j) || steps_up(dx, dy, i, j),
        i == dx ==> !steps_side(dx, dy, i, j),
        j == dy ==> !steps_up(dx, dy, i, j),
{
    if i == dx {
        assert((j + 1) * dx - (dx + 1) * dy <= -dy) by (nonlinear_arith)
            requires
                0 <= dx,
                j + 1 <= dy,
        ;
    }
    if j == dy {
        assert((dy + 1) * dx - (i + 1) * dy >= dx) by (nonlinear_arith)
            requires
                0 <= dy,
                i + 1 <= dx,
        ;
    }
}

/// The points of the line from one point to another.
pub open spec fn line_points(x0: int, y0: int, x1: int, y1: int) -> Seq<(int, int)> {
    line_steps(span(x0, x1), span(y0, y1), 0, 0).map_values(
        |s: (int, int)| (x0 + toward(x0, x1) * s.0, y0 + toward(y0, y1) * s.1),
    )
}

proof fn lemma_line_steps(dx: int, dy: int, i: int, j: int)
    requires
        0 <= i <= dx,
        0 <= j <= dy,
    ensures
        ({
            let steps = line_steps(dx, dy, i, j);
            &&& steps.len() > 0
            &&& steps[0] == (i, j)
            &&& steps.last() == (dx, dy)
            &&& forall|k: int|
                0 <= k < steps.len() - 1 ==> {
                    let a = #[trigger] steps[k];
                    let b = steps[k + 1];
                    &&& a.0 <= b.0 <= a.0 + 1
                    &&& a.1 <= b.1 <= a.1 + 1
                    &&& a != b
                }
        }),
    decreases (dx - i) + (dy - j),
{
    if !(i == dx && j == dy) {
        lemma_step(dx, dy, i, j);
        let u = if steps_side(dx, dy, i, j) {
            i + 1
        } else {
            i
        };
        let v = if steps_up(dx, dy, i, j) {
            j + 1
        } else {
            j
        };
        lemma_line_steps(dx, dy, u, v);
        let rest = line_steps(dx, dy, u, v);
        let steps = line_steps(dx, dy, i, j);
        assert(steps =~= seq![(i, j)] + rest);
        assert(steps.last() == rest.last());
        assert forall|k: int| 0 <= k < steps.len() - 1 implies {
            let a = #[trigger] steps[k];
            let b = steps[k + 1];
            &&& a.0 <= b.0 <= a.0 + 1
            &&& a.1 <= b.1 <= a.1 + 1
            &&& a != b
        } by {
            if k > 0 {
                assert(steps[k] == rest[k - 1]);
                assert(steps[k + 1] == rest[k]);
            } else {
                assert(steps[1] == rest[0]);
            }
        }
    }
}

/// A line starts at its first point, ends at its last, and each of its points
/// is a neighbour of the one before it.
pub proof fn line_joins_its_ends(x0: int, y0: int, x1: int, y1: int)
    ensures
        ({
            let points = line_points(x0, y0, x1, y1);
            &&& points.len() > 0
            &&& points[0] == (x0, y0)
            &&& points.last() == (x1, y1)
            &&& forall|k: int|
                0 <= k < points.len() - 1 ==> {
                    let a = #[trigger] points[k];
                    let b = points[k + 1];
                    &&& span(a.0, b.0) <= 1
                    &&& span(a.1, b.1) <= 1
                    &&& a != b
                }
        }),
{
    let dx = span(x0, x1);
    let dy = span(y0, y1);
    let sx = toward(x0, x1);
    let sy = toward(y0, y1);
    lemma_line_steps(dx, dy, 0, 0);
    let steps = line_steps(dx, dy, 0, 0);
    let points = line_points(x0, y0, x1, y1);
    assert forall|k: int| 0 <= k < points.len() - 1 implies {
        let a = #[trigger] points[k];
        let b = points[k + 1];
        &&& span(a.0, b.0) <= 1
        &&& span(a.1, b.1) <= 1
        &&& a != b
    } by {
        let a = steps[k];
        let b = steps[k + 1];
        assert(points[k] == (x0 + sx * a.0, y0 + sy * a.1));
        assert(points[k + 1] == (x0 + sx * b.0, y0 + sy * b.1));
    }
}

/// Twice the distance, in units of the longer side, of a point of the line from
/// the true line.
pub open spec fn stray2(dx: int, dy: int, i: int, j: int) -> int {
    2 * (j * dx - i * dy)
}

proof fn lemma_stray(dx: int, dy: int, i: int, j: int)
    requires
        0 <= i <= dx,
        0 <= j <= dy,
        span(0, stray2(dx, dy, i, j)) <= dx || span(0, stray2(dx, dy, i, j)) <= dy,
    ensures
        forall|k: int|
            0 <= k < line_steps(dx, dy, i, j).len() ==> {
                let s = #[trigger] line_steps(dx, dy, i, j)[k];
                span(0, stray2(dx, dy, s.0, s.1)) <= dx || span(0, stray2(dx, dy, s.0, s.1)) <= dy
            },
    decreases (dx - i) + (dy - j),
{
    if !(i == dx && j == dy) {
        lemma_step(dx, dy, i, j);
        let u = if steps_side(dx, dy, i, j) {
            i + 1
        } else {
            i
        };
        let v = if steps_up(dx, dy, i, j) {
            j + 1
        } else {
            j
        };
        assert((j + 1) * dx == j * dx + dx) by (nonlinear_arith);
        assert((i + 1) * dy == i * dy + dy) by (nonlinear_arith);
        lemma_stray(dx, dy, u, v);
        let rest = line_steps(dx, dy, u, v);
        let steps = line_steps(dx, dy, i, j);
        assert forall|k: int| 0 <= k < steps.len() implies {
            let s = #[trigger] steps[k];
            span(0, stray2(dx, dy, s.0, s.1)) <= dx || span(0, stray2(dx, dy, s.0, s.1)) <= dy
        } by {
            if k > 0 {
                assert(steps[k] == rest[k - 1]);
            }
        }
    }
}

/// No point of a line strays from the true line by more than half a step along
/// its longer side.
pub proof fn line_stays_close(dx: int, dy: int, k: int)
    requires
        0 <= dx,
        0 <= dy,
        0 <= k < line_steps(dx, dy, 0, 0).len(),
    ensures
        ({
            let s = line_steps(dx, dy, 0, 0)[k];
            span(0, stray2(dx, dy, s.0, s.1)) <= dx || span(0, stray2(dx, dy, s.0, s.1)) <= dy
        }),
{
    lemma_stray(dx, dy, 0, 0);
}

/// Draws the line from one point to another, as far as it lies in the frame.
pub fn draw_line(
    image: &mut Vec<u8>,
    width: u32,
    height: u32,
    x0: i32,
    y0: i32,
    x1: i32,
    y1: i32,
    rgba: [u8; 4],
)
    requires
        frames(old(image)@, width, height),
    ensures
        frames(final(image)@, width, height),
        painted(
            old(image)@,
            final(image)@,
            width,
            height,
            rgba@,
            |px: int, py: int|
                line_points(x0 as int, y0 as int, x1 as int, y1 as int).contains((px, py)),
        ),
{
    let ghost before = image@;
    let right: bool = x0 < x1;
    let down: bool = y0 < y1;
    let dx: i64 = if right {
        x1 as i64 - x0 as i64
    } else {
        x0 as i64 - x1 as i64
    };
    let dy: i64 = if down {
        y1 as i64 - y0 as i64
    } else {
        y0 as i64 - y1 as i64
    };
    let ghost sx = toward(x0 as int, x1 as int);
    let ghost sy = toward(y0 as int, y1 as int);
    let ghost points = line_points(x0 as int, y0 as int, x1 as int, y1 as int);
    let ghost steps = line_steps(dx as int, dy as int, 0, 0);
    let mut x: i32 = x0;
    let mut y: i32 = y0;
    let mut err: i64 = dx - dy;
    let ghost mut i: int = 0;
    let ghost mut j: int = 0;
    let ghost mut done: int = 0;
    proof {
        lemma_stray(dx as int, dy as int, 0, 0);
        assert(steps.skip(0) =~= steps);
        assert(points.len() == steps.len());
    }
    loop
        invariant_except_break
            frames(image@, width, height),
            right == (x0 < x1),
            down == (y0 < y1),
            dx == span(x0 as int, x1 as int),
            dy == span(y0 as int, y1 as int),
            sx == toward(x0 as int, x1 as int),
            sy == toward(y0 as int, y1 as int),
            points == line_points(x0 as int, y0 as int, x1 as int, y1 as int),
            steps == line_steps(dx as int, dy as int, 0, 0),
            points.len() == steps.len(),
            0 <= i <= dx,
            0 <= j <= dy,
            x == x0 + sx * i,
            y == y0 + sy * j,
            err == (j + 1) * dx - (i + 1) * dy,
            span(0, stray2(dx as int, dy as int, i, j)) <= dx || span(
                0,
                stray2(dx as int, dy as int, i, j),
            ) <= dy,
            0 <= done < steps.len(),
            steps.skip(done) == line_steps(dx as int, dy as int, i, j),
            painted(
                before,
                image@,
                width,
                height,
                rgba@,
                |px: int, py: int| points.take(done).contains((px, py)),
            ),
        ensures
            frames(image@, width, height),
            painted(
                before,
                image@,
                width,
                height,
                rgba@,
                |px: int, py: int| points.contains((px, py)),
            ),
        decreases (dx - i) + (dy - j),
    {
        let ghost mid = image@;
        put_px(image, width, height, x, y, rgba);
        proof {
            lemma_line_steps(dx as int, dy as int, i, j);
            assert(steps.skip(done)[0] == steps[done]);
            assert(points[done] == (x as int, y as int));
            lemma_painted_one_more(before, mid, image@, width, height, rgba@, points, done);
        }
        if x == x1 && y == y1 {
            proof {
                assert(i == dx && j == dy);
                assert(steps.skip(done).len() == 1);
                assert(points.take(done + 1) =~= points);
            }
            break;
        }
        assert(!(i == dx && j == dy));
        proof {
            lemma_step(dx as int, dy as int, i, j);
            assert((j + 1) * dx == j * dx + dx) by (nonlinear_arith);
            assert((i + 1) * dy == i * dy + dy) by (nonlinear_arith);
            assert((j + 2) * dx == j * dx + 2 * dx) by (nonlinear_arith);
            assert((i + 2) * dy == i * dy + 2 * dy) by (nonlinear_arith);
            let rest = steps.skip(done);
            assert(rest.skip(1) =~= steps.skip(done + 1));
        }
        let e2: i64 = err * 2;
        let side: bool = e2 >= -dy;
        let up: bool = e2 <= dx;
        assert(side == steps_side(dx as int, dy as int, i, j));
        assert(up == steps_up(dx as int, dy as int, i, j));
        proof {
            let u = if side {
                i + 1
            } else {
                i
            };
            let v = if up {
                j + 1
            } else {
                j
            };
            let next = line_steps(dx as int, dy as int, u, v);
            assert(steps.skip(done) =~= seq![(i, j)] + next);
            assert(steps.skip(done + 1) =~= next);
            lemma_line_steps(dx as int, dy as int, u, v);
        }
        if side {
            err -= dy;
            x = if right {
                x + 1
            } else {
                x - 1
            };
            proof {
                i = i + 1;
            }
        }
        if up {
            err += dx;
            y = if down {
                y + 1
            } else {
                y - 1
            };
            proof {
                j = j + 1;
            }
        }
        proof {
            done = done + 1;
        }
    }
}

proof fn lemma_painted_one_more(
    before: Seq<u8>,
    mid: Seq<u8>,
    after: Seq<u8>,
    width: u32,
    height: u32,
    rgba: Seq<u8>,
    points: Seq<(int, int)>,
    done: int,
)
    requires
        0 <= done < points.len(),
        painted(
            before,
            mid,
            width,
            height,
            rgba,
            |px: int, py: int| points.take(done).contains((px, py)),
        ),
        painted(mid, after, width, height, rgba, |px: int, py: int| (px, py) == points[done]),
    ensures
        painted(
            before,
            after,
            width,
            height,
            rgba,
            |px: int, py: int| points.take(done + 1).contains((px, py)),
        ),
{
    let few = points.take(done);
    let more = points.take(done + 1);
    assert(more =~= few.push(points[done]));
    assert forall|u: int, v: int|
        #![trigger pixel(after, width as int, u, v)]
        in_frame(width, height, u, v) implies pixel(after, width as int, u, v) == (
    if more.contains((u, v)) {
        rgba
    } else {
        pixel(before, width as int, u, v)
    }) by {
        assert(pixel(mid, width as int, u, v) == if few.contains((u, v)) {
            rgba
        } else {
            pixel(before, width as int, u, v)
        });
        if more.contains((u, v)) {
            let k = choose|k: int| 0 <= k < more.len() && more[k] == (u, v);
            if k < done {
                assert(few[k] == (u, v));
            }
        }
        if few.contains((u, v)) {
            let k = choose|k: int| 0 <= k < few.len() && few[k] == (u, v);
            assert(more[k] == (u, v));
        }
        if (u, v) == points[done] {
            assert(more[done] == (u, v));
        }
    }
}

/// Pixels lie row by row from the top left, four bytes each, without gaps: the next one to the
/// right begins where one ends, and the first of a row where the last of the row above ends.
pub proof fn pixels_lie_row_by_row(width: int, x: int, y: int)
    ensures
        offset(width, 0, 0) == 0,
        offset(width, x + 1, y) == offset(width, x, y) + 4,
        offset(width, 0, y + 1) == offset(width, width, y),
        offset(width, x, y + 1) == offset(width, x, y) + 4 * width,
{
    assert((y + 1) * width == y * width + width) by (nonlinear_arith);
    assert(0 * width == 0);
}

/// What is painted is painted just where it is meant to be.
pub proof fn painting_leaves_the_rest(
    before: Seq<u8>,
    after: Seq<u8>,
    width: u32,
    height: u32,
    rgba: Seq<u8>,
    covers: spec_fn(int, int) -> bool,
    x: int,
    y: int,
)
    requires
        painted(before, after, width, height, rgba, covers),
        0 <= x < width,
        0 <= y < height,
        before.len() == width * height * 4,
    ensures
        after.len() == before.len(),
        covers(x, y) && rgba.len() == 4 ==> forall|k: int|
            0 <= k < 4 ==> after[(y * width + x) * 4 + k] == #[trigger] rgba[k],
        !covers(x, y) ==> forall|k: int|
            0 <= k < 4 ==> #[trigger] after[(y * width + x) * 4 + k] == before[(y * width + x) * 4
                + k],
{
    lemma_offset(width as int, height as int, x, y);
    let at = offset(width as int, x, y);
    let shown = pixel(after, width as int, x, y);
    if covers(x, y) && rgba.len() == 4 {
        assert forall|k: int| 0 <= k < 4 implies after[at + k] == #[trigger] rgba[k] by {
            assert(shown[k] == after[at + k]);
        }
    }
    if !covers(x, y) {
        let was = pixel(before, width as int, x, y);
        assert forall|k: int| 0 <= k < 4 implies #[trigger] after[at + k] == before[at + k] by {
            assert(shown[k] == after[at + k]);
            assert(was[k] == before[at + k]);
        }
    }
}

/// A line is the same whichever way its sides are called: swapping them swaps the steps of
/// each of its points. It starts at the steps that it is given.
pub proof fn lines_know_no_sides(dx: int, dy: int, i: int, j: int)
    requires
        0 <= i <= dx,
        0 <= j <= dy,
    ensures
        line_steps(dy, dx, j, i).len() == line_steps(dx, dy, i, j).len(),
        forall|k: int|
            0 <= k < line_steps(dx, dy, i, j).len() ==> (#[trigger] line_steps(
                dy,
                dx,
                j,
                i,
            )[k]) == (line_steps(dx, dy, i, j)[k].1, line_steps(dx, dy, i, j)[k].0),
        line_steps(dx, dy, i, j)[0] == (i, j),
    decreases (dx - i) + (dy - j),
{
    let own = line_steps(dx, dy, i, j);
    let other = line_steps(dy, dx, j, i);
    if !(i == dx && j == dy) {
        lemma_step(dx, dy, i, j);
        assert(error2(dy, dx, j, i) == -error2(dx, dy, i, j)) by (nonlinear_arith);
        let i2 = if steps_side(dx, dy, i, j) {
            i + 1
        } else {
            i
        };
        let j2 = if steps_up(dx, dy, i, j) {
            j + 1
        } else {
            j
        };
        assert(steps_up(dy, dx, j, i) == steps_side(dx, dy, i, j));
        assert(steps_side(dy, dx, j, i) == steps_up(dx, dy, i, j));
        lines_know_no_sides(dx, dy, i2, j2);
        let rest = line_steps(dx, dy, i2, j2);
        let rest_other = line_steps(dy, dx, j2, i2);
        assert(own == seq![(i, j)] + rest);
        assert(other == seq![(j, i)] + rest_other);
        assert forall|k: int| 0 <= k < own.len() implies (#[trigger] other[k]) == (
            own[k].1,
            own[k].0,
        ) by {
            if k > 0 {
                assert(own[k] == rest[k - 1]);
                assert(other[k] == rest_other[k - 1]);
            }
        }
    }
}

} // verus!
