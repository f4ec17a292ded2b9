//! The tray icon: the shapes it is drawn from, the integer geometry of its
//! circles and rounded rectangles, colour shading, pixel addressing in an
//! RGBA canvas, and the box filter that shrinks the canvas to icon size.
use vstd::prelude::*;
use crate::state::{MySqlState, state_color};
use vstd::arithmetic::div_mod::lemma_fundamental_div_mod_converse;

verus! {

/// Side of the finished icon, in pixels.
pub const ICON_SIZE: u32 = 32;

/// How many canvas pixels make one icon pixel along each side.
pub const ICON_SCALE: u32 = 4;

/// Side of the canvas the icon is drawn on.
pub const CANVAS_SIZE: u32 = 128;

// ----------------------------------------------------------------------
// Colours
// ----------------------------------------------------------------------

/// `a + b`, held at 255.
pub open spec fn sat_add(a: u8, b: u8) -> u8 {
    if a + b > 255 {
        255
    } else {
        (a + b) as u8
    }
}

/// `a - b`, held at 0.
pub open spec fn sat_sub(a: u8, b: u8) -> u8 {
    if a < b {
        0
    } else {
        (a - b) as u8
    }
}

/// `color` with `amount` added to each colour channel, alpha kept.
pub open spec fn lighten_spec(color: [u8; 4], amount: u8) -> [u8; 4] {
    [
        sat_add(color[0], amount),
        sat_add(color[1], amount),
        sat_add(color[2], amount),
        color[3],
    ]
}

/// `color` with `amount` taken from each colour channel, alpha kept.
pub open spec fn darken_spec(color: [u8; 4], amount: u8) -> [u8; 4] {
    [
        sat_sub(color[0], amount),
        sat_sub(color[1], amount),
        sat_sub(color[2], amount),
        color[3],
    ]
}

/// Brightens the colour channels of `color` by `amount`, stopping at 255.
pub fn lighten(color: [u8; 4], amount: u8) -> (c: [u8; 4])
    ensures
        c == lighten_spec(color, amount),
{
    let c = [
        color[0].saturating_add(amount),
        color[1].saturating_add(amount),
        color[2].saturating_add(amount),
        color[3],
    ];
    assert(c =~= lighten_spec(color, amount));
    c
}

/// Darkens the colour channels of `color` by `amount`, stopping at 0.
pub fn darken(color: [u8; 4], amount: u8) -> (c: [u8; 4])
    ensures
        c == darken_spec(color, amount),
{
    let c = [
        color[0].saturating_sub(amount),
        color[1].saturating_sub(amount),
        color[2].saturating_sub(amount),
        color[3],
    ];
    assert(c =~= darken_spec(color, amount));
    c
}

// ----------------------------------------------------------------------
// Pixel addressing
// ----------------------------------------------------------------------

/// `(x, y)` lies on a square canvas of side `width`.
pub open spec fn pixel_in_canvas(width: u32, x: i32, y: i32) -> bool {
    0 <= x && 0 <= y && width <= i32::MAX && x < width && y < width
}

/// Where the four bytes of pixel `(x, y)` start in an RGBA canvas of side
/// `width`; `None` for a pixel off the canvas.
pub fn pixel_offset(width: u32, x: i32, y: i32) -> (r: Option<usize>)
    requires
        pixel_in_canvas(width, x, y) ==> (y * width + x) * 4 <= u32::MAX,
    ensures
        match r {
            Some(offset) => pixel_in_canvas(width, x, y) && offset == (y * width + x) * 4,
            None => !pixel_in_canvas(width, x, y),
        },
{
    if x < 0 || y < 0 || width > 2147483647 {
        return None;
    }
    let ux = x as u32;
    let uy = y as u32;
    if ux >= width || uy >= width {
        return None;
    }
    assert(uy * width <= (y * width + x) * 4) by (nonlinear_arith)
        requires
            uy == y,
            0 <= y,
            0 <= x,
    ;
    let offset = (uy * width + ux) * 4;
    Some(offset as usize)
}

// ----------------------------------------------------------------------
// Integer geometry
// ----------------------------------------------------------------------

/// `p` comes before the position `(x, y)` when the canvas is read row by
/// row, left to right.
pub open spec fn row_major_before(p: (i32, i32), x: int, y: int) -> bool {
    p.1 < y || (p.1 == y && p.0 < x)
}

/// The pixels `v` are in reading order, each once.
pub open spec fn in_reading_order(v: Seq<(i32, i32)>) -> bool {
    forall|i: int, j: int| 0 <= i < j < v.len() ==> row_major_before(v[i], v[j].0 as int, v[j].1 as int)
}

/// Pixel `(x, y)` lies in the disc of radius `radius` around `(cx, cy)`.
pub open spec fn in_disc(cx: i32, cy: i32, radius: i32, x: int, y: int) -> bool {
    (x - cx) * (x - cx) + (y - cy) * (y - cy) <= radius * radius
}

/// The disc test is made on the pixels of its bounding square.
pub open spec fn in_disc_box(cx: i32, cy: i32, radius: i32, p: (i32, i32)) -> bool {
    &&& cx - radius <= p.0 <= cx + radius
    &&& cy - radius <= p.1 <= cy + radius
    &&& in_disc(cx, cy, radius, p.0 as int, p.1 as int)
}

/// The integer arithmetic of the disc test stays within `i32`.
pub open spec fn disc_fits(cx: i32, cy: i32, radius: i32) -> bool {
    &&& i32::MIN <= cx - radius <= i32::MAX
    &&& i32::MIN <= cx + radius <= i32::MAX
    &&& i32::MIN <= cy - radius <= i32::MAX
    &&& i32::MIN <= cy + radius <= i32::MAX
    &&& radius * radius <= i32::MAX
    &&& radius >= 0 ==> 2 * radius * radius <= i32::MAX
}

/// Adding the pixel at the reading position `(x, y)` to the pixels before
/// it gives the pixels before the next position.
proof fn lemma_extend_reading(
    before: Seq<(i32, i32)>,
    after: Seq<(i32, i32)>,
    x: i32,
    y: i32,
    shape: spec_fn((i32, i32)) -> bool,
)
    requires
        forall|p: (i32, i32)|
            before.contains(p) <==> (shape(p) && row_major_before(p, x as int, y as int)),
        forall|k: int|
            0 <= k < before.len() ==> row_major_before(#[trigger] before[k], x as int, y as int),
        in_reading_order(before),
        shape((x, y)) ==> after == before.push((x, y)),
        !shape((x, y)) ==> after == before,
    ensures
        forall|p: (i32, i32)|
            after.contains(p) <==> (shape(p) && row_major_before(p, x + 1, y as int)),
        forall|k: int|
            0 <= k < after.len() ==> row_major_before(#[trigger] after[k], x + 1, y as int),
        in_reading_order(after),
{
    let q = (x, y);
    assert forall|p: (i32, i32)|
        after.contains(p) <==> (shape(p) && row_major_before(p, x + 1, y as int)) by {
        assert(row_major_before(p, x + 1, y as int) <==> (row_major_before(p, x as int, y as int)
            || p == q));
        if shape(q) {
            assert(after.len() == before.len() + 1);
            if after.contains(p) && p != q {
                let k = choose|k: int| 0 <= k < after.len() && after[k] == p;
                assert(after[before.len() as int] == q);
                assert(k < before.len());
                assert(before[k] == p);
                assert(before.contains(p));
            }
            if shape(p) && row_major_before(p, x as int, y as int) {
                assert(before.contains(p));
                let k = choose|k: int| 0 <= k < before.len() && before[k] == p;
                assert(after[k] == p);
            }
            if p == q {
                assert(after[after.len() - 1] == p);
            }
        } else {
            assert(after.contains(p) == before.contains(p));
        }
    }
    assert forall|k: int| 0 <= k < after.len() implies row_major_before(
        #[trigger] after[k],
        x + 1,
        y as int,
    ) by {
        if k < before.len() {
            assert(after[k] == before[k]);
        }
    }
    assert forall|i: int, j: int| 0 <= i < j < after.len() implies row_major_before(
        after[i],
        after[j].0 as int,
        after[j].1 as int,
    ) by {
        if j < before.len() {
            assert(after[i] == before[i]);
            assert(after[j] == before[j]);
        } else {
            assert(after[i] == before[i]);
            assert(after[j] == q);
        }
    }
}

/// Finishing row `y` leaves the pixels before the start of row `y + 1`.
proof fn lemma_next_row(
    pixels: Seq<(i32, i32)>,
    x: int,
    y: int,
    row_end: int,
    shape: spec_fn((i32, i32)) -> bool,
)
    requires
        x > row_end,
        forall|p: (i32, i32)| #[trigger] shape(p) ==> p.0 <= row_end,
        forall|p: (i32, i32)|
            pixels.contains(p) <==> (shape(p) && row_major_before(p, x, y)),
        forall|k: int| 0 <= k < pixels.len() ==> row_major_before(#[trigger] pixels[k], x, y),
    ensures
        forall|p: (i32, i32)| pixels.contains(p) <==> (shape(p) && p.1 < y + 1),
        forall|k: int| 0 <= k < pixels.len() ==> (#[trigger] pixels[k]).1 < y + 1,
{
    assert forall|p: (i32, i32)| pixels.contains(p) <==> (shape(p) && p.1 < y + 1) by {
        if shape(p) && p.1 == y {
            assert(row_major_before(p, x, y));
        }
    }
}

/// Collects, in reading order, the pixels of the box `x_lo..=x_hi` by
/// `y_lo..=y_hi` that `inside` accepts.
fn collect_pixels<F: Fn(i32, i32) -> bool>(
    x_lo: i32,
    x_hi: i32,
    y_lo: i32,
    y_hi: i32,
    inside: F,
    Ghost(shape): Ghost<spec_fn((i32, i32)) -> bool>,
) -> (pixels: Vec<(i32, i32)>)
    requires
        forall|x: i32, y: i32|
            x_lo <= x <= x_hi && y_lo <= y <= y_hi ==> call_requires(inside, (x, y)),
        forall|x: i32, y: i32, b: bool|
            x_lo <= x <= x_hi && y_lo <= y <= y_hi && call_ensures(inside, (x, y), b) ==> b
                == shape((x, y)),
        forall|p: (i32, i32)| #[trigger] shape(p) ==> x_lo <= p.0 <= x_hi && y_lo <= p.1 <= y_hi,
    ensures
        in_reading_order(pixels@),
        forall|p: (i32, i32)| pixels@.contains(p) <==> shape(p),
{
    if x_lo > x_hi || y_lo > y_hi {
        let pixels: Vec<(i32, i32)> = Vec::new();
        assert forall|p: (i32, i32)| !#[trigger] shape(p) by {}
        return pixels;
    }
    let mut pixels: Vec<(i32, i32)> = Vec::new();
    let mut y: i64 = y_lo as i64;
    while y <= y_hi as i64
        invariant
            forall|x: i32, y: i32|
                x_lo <= x <= x_hi && y_lo <= y <= y_hi ==> call_requires(inside, (x, y)),
            forall|x: i32, y: i32, b: bool|
                x_lo <= x <= x_hi && y_lo <= y <= y_hi && call_ensures(inside, (x, y), b) ==> b
                    == shape((x, y)),
            forall|p: (i32, i32)| #[trigger] shape(p) ==> x_lo <= p.0 <= x_hi && y_lo <= p.1 <= y_hi,
            x_lo <= x_hi,
            y_lo <= y_hi,
            y_lo <= y <= y_hi + 1,
            in_reading_order(pixels@),
            forall|k: int| 0 <= k < pixels.len() ==> (#[trigger] pixels@[k]).1 < y,
            forall|p: (i32, i32)| pixels@.contains(p) <==> (shape(p) && p.1 < y),
        decreases y_hi + 1 - y,
    {
        let mut x: i64 = x_lo as i64;
        assert forall|p: (i32, i32)| pixels@.contains(p) <==> (shape(p) && row_major_before(
            p,
            x as int,
            y as int,
        )) by {}
        while x <= x_hi as i64
            invariant
                forall|x: i32, y: i32|
                    x_lo <= x <= x_hi && y_lo <= y <= y_hi ==> call_requires(inside, (x, y)),
                forall|x: i32, y: i32, b: bool|
                    x_lo <= x <= x_hi && y_lo <= y <= y_hi && call_ensures(inside, (x, y), b)
                        ==> b == shape((x, y)),
                forall|p: (i32, i32)| #[trigger] shape(p) ==> x_lo <= p.0 <= x_hi && y_lo <= p.1 <= y_hi,
                x_lo <= x_hi,
                y_lo <= y <= y_hi,
                x_lo <= x <= x_hi + 1,
                in_reading_order(pixels@),
                forall|k: int|
                    0 <= k < pixels.len() ==> row_major_before(
                        #[trigger] pixels@[k],
                        x as int,
                        y as int,
                    ),
                forall|p: (i32, i32)|
                    pixels@.contains(p) <==> (shape(p) && row_major_before(p, x as int, y as int)),
            decreases x_hi + 1 - x,
        {
            let ghost before = pixels@;
            let xi = x as i32;
            let yi = y as i32;
            if inside(xi, yi) {
                pixels.push((xi, yi));
            }
            proof {
                lemma_extend_reading(before, pixels@, xi, yi, shape);
            }
            x = x + 1;
        }
        proof {
            lemma_next_row(pixels@, x as int, y as int, x_hi as int, shape);
        }
        y = y + 1;
    }
    pixels
}

/// The disc test on one pixel, as computed in `i32`.
fn disc_test(cx: i32, cy: i32, radius: i32, x: i32, y: i32) -> (b: bool)
    requires
        disc_fits(cx, cy, radius),
        radius >= 0,
        cx - radius <= x <= cx + radius,
        cy - radius <= y <= cy + radius,
    ensures
        b == in_disc(cx, cy, radius, x as int, y as int),
{
    let dx = x - cx;
    let dy = y - cy;
    assert(dx * dx <= radius * radius) by (nonlinear_arith)
        requires
            -radius <= dx <= radius,
    ;
    assert(dy * dy <= radius * radius) by (nonlinear_arith)
        requires
            -radius <= dy <= radius,
    ;
    assert(0 <= dx * dx) by (nonlinear_arith);
    assert(0 <= dy * dy) by (nonlinear_arith);
    assert(2 * radius * radius == radius * radius + radius * radius) by (nonlinear_arith);
    dx * dx + dy * dy <= radius * radius
}

/// The pixels of the filled circle of radius `radius` around `(cx, cy)`, in
/// reading order: those of its bounding square whose distance to the centre
/// is at most the radius.
pub fn circle_pixels(cx: i32, cy: i32, radius: i32) -> (pixels: Vec<(i32, i32)>)
    requires
        disc_fits(cx, cy, radius),
    ensures
        in_reading_order(pixels@),
        forall|p: (i32, i32)| pixels@.contains(p) <==> in_disc_box(cx, cy, radius, p),
{
    if radius < 0 {
        let pixels: Vec<(i32, i32)> = Vec::new();
        assert forall|p: (i32, i32)| !in_disc_box(cx, cy, radius, p) by {}
        return pixels;
    }
    let ghost shape = |p: (i32, i32)| in_disc_box(cx, cy, radius, p);
    let inside = |x: i32, y: i32| -> (b: bool)
        requires
            disc_fits(cx, cy, radius),
            radius >= 0,
            cx - radius <= x <= cx + radius,
            cy - radius <= y <= cy + radius,
        ensures
            b == in_disc(cx, cy, radius, x as int, y as int),
        { disc_test(cx, cy, radius, x, y) };
    let pixels = collect_pixels(
        cx - radius,
        cx + radius,
        cy - radius,
        cy + radius,
        inside,
        Ghost(shape),
    );
    assert forall|p: (i32, i32)| pixels@.contains(p) <==> in_disc_box(cx, cy, radius, p) by {
        assert(shape(p) == in_disc_box(cx, cy, radius, p));
    }
    pixels
}

/// `v` held within `lo..=hi`.
pub open spec fn clamp_int(v: int, lo: int, hi: int) -> int {
    if v < lo {
        lo
    } else if v > hi {
        hi
    } else {
        v
    }
}

/// Pixel `(x, y)` lies in the rectangle from `(left, top)` to
/// `(right, bottom)` whose corners are rounded with radius `radius`.
pub open spec fn in_rounded_rect(
    left: i32,
    top: i32,
    right: i32,
    bottom: i32,
    radius: i32,
    p: (i32, i32),
) -> bool {
    let nx = clamp_int(p.0 as int, left + radius, right - radius);
    let ny = clamp_int(p.1 as int, top + radius, bottom - radius);
    &&& left <= p.0 <= right
    &&& top <= p.1 <= bottom
    &&& (p.0 - nx) * (p.0 - nx) + (p.1 - ny) * (p.1 - ny) <= radius * radius
}

/// The rectangle's corner arithmetic is defined and stays within `i32`;
/// an empty rectangle asks nothing.
pub open spec fn rounded_rect_fits(
    left: i32,
    top: i32,
    right: i32,
    bottom: i32,
    radius: i32,
) -> bool {
    left <= right && top <= bottom ==> {
        &&& i32::MIN <= left + radius <= i32::MAX
        &&& i32::MIN <= right - radius <= i32::MAX
        &&& i32::MIN <= top + radius <= i32::MAX
        &&& i32::MIN <= bottom - radius <= i32::MAX
        &&& left + radius <= right - radius
        &&& top + radius <= bottom - radius
        &&& radius * radius <= i32::MAX
        &&& radius >= 0 ==> 2 * radius * radius <= i32::MAX
    }
}

/// The rounded-rectangle test on one pixel, as computed in `i32`.
fn rounded_rect_test(
    left: i32,
    top: i32,
    right: i32,
    bottom: i32,
    radius: i32,
    x: i32,
    y: i32,
) -> (b: bool)
    requires
        rounded_rect_fits(left, top, right, bottom, radius),
        left <= x <= right,
        top <= y <= bottom,
    ensures
        b == in_rounded_rect(left, top, right, bottom, radius, (x, y)),
{
    let (x_lo, x_hi) = (left + radius, right - radius);
    let (y_lo, y_hi) = (top + radius, bottom - radius);
    let nearest_x = if x < x_lo {
        x_lo
    } else if x > x_hi {
        x_hi
    } else {
        x
    };
    let nearest_y = if y < y_lo {
        y_lo
    } else if y > y_hi {
        y_hi
    } else {
        y
    };
    let dx = x - nearest_x;
    let dy = y - nearest_y;
    let r_abs: i32 = if radius >= 0 {
        radius
    } else {
        0
    };
    assert(dx * dx <= r_abs * r_abs) by (nonlinear_arith)
        requires
            -r_abs <= dx <= r_abs,
    ;
    assert(dy * dy <= r_abs * r_abs) by (nonlinear_arith)
        requires
            -r_abs <= dy <= r_abs,
    ;
    assert(0 <= dx * dx) by (nonlinear_arith);
    assert(0 <= dy * dy) by (nonlinear_arith);
    if radius >= 0 {
        assert(r_abs * r_abs + r_abs * r_abs <= i32::MAX) by (nonlinear_arith)
            requires
                r_abs == radius,
                2 * radius * radius <= i32::MAX,
        ;
    }
    assert(0 <= radius * radius) by (nonlinear_arith);
    dx * dx + dy * dy <= radius * radius
}

/// The pixels of the rounded rectangle from `(left, top)` to
/// `(right, bottom)` with corner radius `radius`, in reading order.
pub fn rounded_rect_pixels(left: i32, top: i32, right: i32, bottom: i32, radius: i32) -> (pixels:
    Vec<(i32, i32)>)
    requires
        rounded_rect_fits(left, top, right, bottom, radius),
    ensures
        in_reading_order(pixels@),
        forall|p: (i32, i32)|
            pixels@.contains(p) <==> in_rounded_rect(left, top, right, bottom, radius, p),
{
    if left > right || top > bottom {
        let pixels: Vec<(i32, i32)> = Vec::new();
        assert forall|p: (i32, i32)| !in_rounded_rect(left, top, right, bottom, radius, p) by {}
        return pixels;
    }
    let ghost shape = |p: (i32, i32)| in_rounded_rect(left, top, right, bottom, radius, p);
    let inside = |x: i32, y: i32| -> (b: bool)
        requires
            rounded_rect_fits(left, top, right, bottom, radius),
            left <= x <= right,
            top <= y <= bottom,
        ensures
            b == in_rounded_rect(left, top, right, bottom, radius, (x, y)),
        { rounded_rect_test(left, top, right, bottom, radius, x, y) };
    let pixels = collect_pixels(left, right, top, bottom, inside, Ghost(shape));
    assert forall|p: (i32, i32)|
        pixels@.contains(p) <==> in_rounded_rect(left, top, right, bottom, radius, p) by {
        assert(shape(p) == in_rounded_rect(left, top, right, bottom, radius, p));
    }
    pixels
}

// ----------------------------------------------------------------------
// Shrinking the canvas
// ----------------------------------------------------------------------

/// Where the canvas pixel sampled at offset `(dx, dy)` for icon pixel
/// `(ox, oy)` starts in the source canvas.
pub open spec fn sample_offset(source_size: int, scale: int, ox: int, oy: int, dx: int, dy: int) -> int {
    ((oy * scale + dy) * source_size + ox * scale + dx) * 4
}

/// Channel `ch` summed over the first `n` samples of row `dy` of the block
/// of icon pixel `(ox, oy)`.
pub open spec fn row_sum(
    src: Seq<u8>,
    source_size: int,
    scale: int,
    ox: int,
    oy: int,
    dy: int,
    ch: int,
    n: int,
) -> int
    decreases n,
{
    if n <= 0 {
        0
    } else {
        row_sum(src, source_size, scale, ox, oy, dy, ch, n - 1) + src[sample_offset(
            source_size,
            scale,
            ox,
            oy,
            n - 1,
            dy,
        ) + ch] as int
    }
}

/// Channel `ch` summed over the first `m` rows of the block of icon pixel
/// `(ox, oy)`.
pub open spec fn block_sum(
    src: Seq<u8>,
    source_size: int,
    scale: int,
    ox: int,
    oy: int,
    ch: int,
    m: int,
) -> int
    decreases m,
{
    if m <= 0 {
        0
    } else {
        block_sum(src, source_size, scale, ox, oy, ch, m - 1) + row_sum(
            src,
            source_size,
            scale,
            ox,
            oy,
            m - 1,
            ch,
            scale,
        )
    }
}

/// Channel `ch` of icon pixel `(ox, oy)`: the mean, rounded down, of that
/// channel over the `scale` by `scale` block of the canvas it covers.
pub open spec fn block_mean(
    src: Seq<u8>,
    source_size: int,
    scale: int,
    ox: int,
    oy: int,
    ch: int,
) -> int {
    block_sum(src, source_size, scale, ox, oy, ch, scale) / (scale * scale)
}

/// Byte `k` of the shrunk image: channel `k % 4` of pixel `k / 4`.
pub open spec fn shrunk_byte(
    src: Seq<u8>,
    source_size: int,
    output_size: int,
    scale: int,
    k: int,
) -> int {
    block_mean(src, source_size, scale, (k / 4) % output_size, (k / 4) / output_size, k % 4)
}

/// The canvas holds every sample read and the `u32` index arithmetic of
/// the shrinking stays in range.
pub open spec fn downsample_fits(len: int, source_size: int, output_size: int, scale: int) -> bool {
    output_size == 0 || {
        &&& scale > 0
        &&& output_size * output_size * 4 <= u32::MAX
        &&& scale * scale <= u32::MAX
        &&& ((output_size * scale - 1) * source_size + output_size * scale - 1) * 4 + 4 <= len
        &&& ((output_size * scale - 1) * source_size + output_size * scale - 1) * 4 <= u32::MAX
    }
}

/// Every channel sum over a block fits the `u32` it is added up in.
pub open spec fn block_sums_fit(src: Seq<u8>, source_size: int, output_size: int, scale: int) -> bool {
    forall|oy: int, ox: int, ch: int|
        0 <= oy < output_size && 0 <= ox < output_size && 0 <= ch < 4 ==> #[trigger] block_sum(
            src,
            source_size,
            scale,
            ox,
            oy,
            ch,
            scale,
        ) <= u32::MAX
}

proof fn lemma_sample_in_range(
    source_size: int,
    output_size: int,
    scale: int,
    ox: int,
    oy: int,
    dx: int,
    dy: int,
)
    requires
        source_size >= 0,
        0 <= ox < output_size,
        0 <= oy < output_size,
        0 <= dx < scale,
        0 <= dy < scale,
    ensures
        0 <= ox * scale + dx <= output_size * scale - 1,
        0 <= oy * scale + dy <= output_size * scale - 1,
        0 <= (oy * scale + dy) * source_size <= (output_size * scale - 1) * source_size,
        0 <= sample_offset(source_size, scale, ox, oy, dx, dy) <= ((output_size * scale - 1)
            * source_size + output_size * scale - 1) * 4,
{
    assert(0 <= ox * scale + dx <= output_size * scale - 1) by (nonlinear_arith)
        requires
            0 <= ox < output_size,
            0 <= dx < scale,
    ;
    assert(0 <= oy * scale + dy <= output_size * scale - 1) by (nonlinear_arith)
        requires
            0 <= oy < output_size,
            0 <= dy < scale,
    ;
    let sy = oy * scale + dy;
    assert(0 <= sy * source_size <= (output_size * scale - 1) * source_size) by (nonlinear_arith)
        requires
            0 <= sy <= output_size * scale - 1,
            source_size >= 0,
    ;
}

/// Channel `ch` summed over the block of icon pixel `(ox, oy)`.
fn block_total(
    source: &[u8],
    source_size: u32,
    output_size: u32,
    scale: u32,
    ox: u32,
    oy: u32,
    ch: u32,
) -> (total: u64)
    requires
        downsample_fits(source@.len() as int, source_size as int, output_size as int, scale as int),
        ox < output_size,
        oy < output_size,
        ch < 4,
    ensures
        total == block_sum(source@, source_size as int, scale as int, ox as int, oy as int, ch as int, scale as int),
        total <= scale * scale * 255,
{
    let mut total: u64 = 0;
    let mut dy: u32 = 0;
    while dy < scale
        invariant
            downsample_fits(source@.len() as int, source_size as int, output_size as int, scale as int),
            ox < output_size,
            oy < output_size,
            ch < 4,
            dy <= scale,
            total == block_sum(source@, source_size as int, scale as int, ox as int, oy as int, ch as int, dy as int),
            total <= dy * scale * 255,
        decreases scale - dy,
    {
        let mut dx: u32 = 0;
        let ghost rows = total as int;
        while dx < scale
            invariant
                downsample_fits(source@.len() as int, source_size as int, output_size as int, scale as int),
                ox < output_size,
                oy < output_size,
                ch < 4,
                dy < scale,
                dx <= scale,
                rows == block_sum(source@, source_size as int, scale as int, ox as int, oy as int, ch as int, dy as int),
                rows <= dy * scale * 255,
                total == rows + row_sum(source@, source_size as int, scale as int, ox as int, oy as int, dy as int, ch as int, dx as int),
                total <= dy * scale * 255 + dx * 255,
            decreases scale - dx,
        {
            proof {
                lemma_sample_in_range(source_size as int, output_size as int, scale as int, ox as int, oy as int, dx as int, dy as int);
                assert(dy * scale * 255 + dx * 255 + 255 <= scale * scale * 255) by (nonlinear_arith)
                    requires
                        dy < scale,
                        dx < scale,
                ;
                assert(scale * scale * 255 <= 0xffff_ffff * 255) by (nonlinear_arith)
                    requires
                        scale * scale <= 0xffff_ffff,
                ;
            }
            let source_x = ox * scale + dx;
            let source_y = oy * scale + dy;
            let index = ((source_y * source_size + source_x) * 4) as usize;
            let value = source[index + ch as usize];
            total = total + value as u64;
            dx = dx + 1;
        }
        proof {
            assert(dy * scale * 255 + scale * 255 == (dy + 1) * scale * 255) by (nonlinear_arith);
        }
        dy = dy + 1;
    }
    proof {
        assert(dy * scale * 255 == scale * scale * 255);
    }
    total
}

/// Whether shrinking `source` reads only bytes it holds and keeps its
/// `u32` arithmetic, the channel sums included, in range.
pub fn downsample_fits_check(source: &[u8], source_size: u32, output_size: u32, scale: u32) -> (ok:
    bool)
    ensures
        ok == (downsample_fits(source@.len() as int, source_size as int, output_size as int, scale as int)
            && block_sums_fit(source@, source_size as int, output_size as int, scale as int)),
{
    if output_size == 0 {
        return true;
    }
    if scale == 0 {
        return false;
    }
    let os = output_size as u128;
    let ss = source_size as u128;
    let sc = scale as u128;
    let max = 0xffff_ffffu128;
    assert(os * os <= 0xffff_ffff_ffff_ffff_ffff_ffff) by (nonlinear_arith)
        requires
            os < 0x1_0000_0000,
    ;
    assert(sc * sc <= 0xffff_ffff_ffff_ffff_ffff_ffff) by (nonlinear_arith)
        requires
            sc < 0x1_0000_0000,
    ;
    assert(1 <= os * sc < 0x1_0000_0000_0000_0000) by (nonlinear_arith)
        requires
            1 <= os < 0x1_0000_0000,
            1 <= sc < 0x1_0000_0000,
    ;
    let n = os * sc - 1;
    assert(n * ss < 0x1_0000_0000_0000_0000_0000_0000) by (nonlinear_arith)
        requires
            n < 0x1_0000_0000_0000_0000,
            ss < 0x1_0000_0000,
    ;
    let last = n * ss + n;
    let layout_ok = os * os * 4 <= max && sc * sc <= max && last * 4 + 4 <= source.len() as u128
        && last * 4 <= max;
    if !layout_ok {
        return false;
    }
    let mut oy: u32 = 0;
    while oy < output_size
        invariant
            downsample_fits(source@.len() as int, source_size as int, output_size as int, scale as int),
            oy <= output_size,
            forall|y: int, x: int, c: int|
                0 <= y < oy && 0 <= x < output_size && 0 <= c < 4 ==> #[trigger] block_sum(
                    source@,
                    source_size as int,
                    scale as int,
                    x,
                    y,
                    c,
                    scale as int,
                ) <= u32::MAX,
        decreases output_size - oy,
    {
        let mut ox: u32 = 0;
        while ox < output_size
            invariant
                downsample_fits(source@.len() as int, source_size as int, output_size as int, scale as int),
                oy < output_size,
                ox <= output_size,
                forall|y: int, x: int, c: int|
                    0 <= c < 4 && ((0 <= y < oy && 0 <= x < output_size) || (y == oy && 0 <= x < ox))
                        ==> #[trigger] block_sum(
                        source@,
                        source_size as int,
                        scale as int,
                        x,
                        y,
                        c,
                        scale as int,
                    ) <= u32::MAX,
            decreases output_size - ox,
        {
            let mut ch: u32 = 0;
            while ch < 4
                invariant
                    downsample_fits(source@.len() as int, source_size as int, output_size as int, scale as int),
                    oy < output_size,
                    ox < output_size,
                    ch <= 4,
                    forall|y: int, x: int, c: int|
                        ((0 <= c < 4 && ((0 <= y < oy && 0 <= x < output_size) || (y == oy && 0
                            <= x < ox))) || (y == oy && x == ox && 0 <= c < ch)) ==> #[trigger] block_sum(
                            source@,
                            source_size as int,
                            scale as int,
                            x,
                            y,
                            c,
                            scale as int,
                        ) <= u32::MAX,
                decreases 4 - ch,
            {
                if block_total(source, source_size, output_size, scale, ox, oy, ch) > 0xffff_ffff {
                    return false;
                }
                ch = ch + 1;
            }
            ox = ox + 1;
        }
        oy = oy + 1;
    }
    true
}

/// Shrinks a square RGBA canvas of side `source_size` to side `output_size`
/// by averaging each `scale` by `scale` block of pixels, channel by channel,
/// rounding down.
pub fn downsample_rgba(source: &[u8], source_size: u32, output_size: u32, scale: u32) -> (output:
    Vec<u8>)
    requires
        downsample_fits(source@.len() as int, source_size as int, output_size as int, scale as int),
        block_sums_fit(source@, source_size as int, output_size as int, scale as int),
    ensures
        output@.len() == output_size * output_size * 4,
        forall|oy: int, ox: int, ch: int|
            0 <= oy < output_size && 0 <= ox < output_size && 0 <= ch < 4 ==> output@[(oy
                * output_size + ox) * 4 + ch] == block_mean(
                source@,
                source_size as int,
                scale as int,
                ox,
                oy,
                ch,
            ),
{
    let mut output: Vec<u8> = Vec::new();
    if output_size == 0 {
        return output;
    }
    let samples = scale * scale;
    let mut oy: u32 = 0;
    while oy < output_size
        invariant
            downsample_fits(source@.len() as int, source_size as int, output_size as int, scale as int),
            block_sums_fit(source@, source_size as int, output_size as int, scale as int),
            output_size > 0,
            samples == scale * scale,
            oy <= output_size,
            output@.len() == oy * output_size * 4,
            forall|k: int|
                0 <= k < output@.len() ==> #[trigger] output@[k] == shrunk_byte(
                    source@,
                    source_size as int,
                    output_size as int,
                    scale as int,
                    k,
                ),
        decreases output_size - oy,
    {
        let mut ox: u32 = 0;
        while ox < output_size
            invariant
                downsample_fits(source@.len() as int, source_size as int, output_size as int, scale as int),
                block_sums_fit(source@, source_size as int, output_size as int, scale as int),
                output_size > 0,
                samples == scale * scale,
                oy < output_size,
                ox <= output_size,
                output@.len() == (oy * output_size + ox) * 4,
                forall|k: int|
                    0 <= k < output@.len() ==> #[trigger] output@[k] == shrunk_byte(
                        source@,
                        source_size as int,
                        output_size as int,
                        scale as int,
                        k,
                    ),
            decreases output_size - ox,
        {
            let mut ch: u32 = 0;
            while ch < 4
                invariant
                    downsample_fits(source@.len() as int, source_size as int, output_size as int, scale as int),
                    block_sums_fit(source@, source_size as int, output_size as int, scale as int),
                    output_size > 0,
                    samples == scale * scale,
                    oy < output_size,
                    ox < output_size,
                    ch <= 4,
                    output@.len() == (oy * output_size + ox) * 4 + ch,
                    forall|k: int|
                        0 <= k < output@.len() ==> #[trigger] output@[k] == shrunk_byte(
                            source@,
                            source_size as int,
                            output_size as int,
                            scale as int,
                            k,
                        ),
                decreases 4 - ch,
            {
                let wide = block_total(source, source_size, output_size, scale, ox, oy, ch);
                assert(wide <= u32::MAX);
                let total = wide as u32;
                proof {
                    assert(scale > 0);
                    assert(samples > 0) by (nonlinear_arith)
                        requires
                            samples == scale * scale,
                            scale > 0,
                    ;
                    assert(total / samples <= 255) by (nonlinear_arith)
                        requires
                            total <= samples * 255,
                            samples > 0,
                    ;
                    let k = (oy * output_size + ox) * 4 + ch;
                    let q = oy * output_size + ox;
                    lemma_fundamental_div_mod_converse(k, 4, q, ch as int);
                    lemma_fundamental_div_mod_converse(q, output_size as int, oy as int, ox as int);
                }
                let ghost before = output@;
                output.push((total / samples) as u8);
                assert forall|k: int|
                    0 <= k < output@.len() implies #[trigger] output@[k] == shrunk_byte(
                        source@,
                        source_size as int,
                        output_size as int,
                        scale as int,
                        k,
                    ) by {
                    if k < before.len() {
                        assert(output@[k] == before[k]);
                    }
                }
                ch = ch + 1;
            }
            ox = ox + 1;
        }
        proof {
            assert((oy * output_size + output_size) * 4 == (oy + 1) * output_size * 4) by (nonlinear_arith);
        }
        oy = oy + 1;
    }
    assert forall|oy: int, ox: int, ch: int|
        0 <= oy < output_size && 0 <= ox < output_size && 0 <= ch < 4 implies output@[(oy
            * output_size + ox) * 4 + ch] == block_mean(
            source@,
            source_size as int,
            scale as int,
            ox,
            oy,
            ch,
        ) by {
        let q = oy * output_size + ox;
        let k = q * 4 + ch;
        assert(0 <= q < output_size * output_size) by (nonlinear_arith)
            requires
                0 <= oy < output_size,
                0 <= ox < output_size,
                q == oy * output_size + ox,
        ;
        lemma_fundamental_div_mod_converse(k, 4, q, ch);
        lemma_fundamental_div_mod_converse(q, output_size as int, oy, ox);
        assert(output@[k] == shrunk_byte(source@, source_size as int, output_size as int, scale as int, k));
    }
    output
}

// ----------------------------------------------------------------------
// The picture
// ----------------------------------------------------------------------

/// A shape painted on the canvas, in canvas pixels.
#[derive(Clone, Copy, Debug)]
pub enum Shape {
    /// A database cylinder: a body between two ellipses of the given height.
    Database { left: i32, top: i32, right: i32, bottom: i32, ellipse_height: i32, color: [u8; 4] },
    /// A filled ellipse in the given box.
    Ellipse { left: i32, top: i32, right: i32, bottom: i32, color: [u8; 4] },
    /// The lower half of the ellipse in the given box, drawn `thickness` thick.
    Arc { left: i32, top: i32, right: i32, bottom: i32, color: [u8; 4], thickness: i32 },
    /// A filled rectangle with rounded corners.
    RoundedRect { left: i32, top: i32, right: i32, bottom: i32, radius: i32, color: [u8; 4] },
    /// A filled circle.
    Circle { center_x: i32, center_y: i32, radius: i32, color: [u8; 4] },
    /// A line of round dots `thickness` wide.
    ThickLine { start_x: i32, start_y: i32, end_x: i32, end_y: i32, thickness: i32, color: [u8; 4] },
}

/// Opaque white, for the status symbols.
pub open spec fn symbol_white() -> [u8; 4] {
    [255u8, 255u8, 255u8, 255u8]
}

/// The symbol in the status badge: a check mark when running, a square
/// when stopped, three dots while changing, two bars when paused, and an
/// exclamation mark when the service cannot be read.
pub open spec fn symbol_shapes(state: MySqlState) -> Seq<Shape> {
    let w = symbol_white();
    match state {
        MySqlState::Running => seq![
            Shape::ThickLine { start_x: 87, start_y: 99, end_x: 95, end_y: 107, thickness: 5, color: w },
            Shape::ThickLine { start_x: 95, start_y: 107, end_x: 109, end_y: 90, thickness: 5, color: w },
        ],
        MySqlState::Stopped => seq![
            Shape::RoundedRect { left: 89, top: 90, right: 107, bottom: 108, radius: 3, color: w },
        ],
        MySqlState::Starting | MySqlState::Stopping | MySqlState::Pending => seq![
            Shape::Circle { center_x: 89, center_y: 99, radius: 3, color: w },
            Shape::Circle { center_x: 98, center_y: 99, radius: 3, color: w },
            Shape::Circle { center_x: 107, center_y: 99, radius: 3, color: w },
        ],
        MySqlState::Paused => seq![
            Shape::RoundedRect { left: 89, top: 89, right: 95, bottom: 109, radius: 2, color: w },
            Shape::RoundedRect { left: 101, top: 89, right: 107, bottom: 109, radius: 2, color: w },
        ],
        MySqlState::NotFound | MySqlState::Error(_) => seq![
            Shape::RoundedRect { left: 95, top: 87, right: 101, bottom: 103, radius: 2, color: w },
            Shape::Circle { center_x: 98, center_y: 110, radius: 3, color: w },
        ],
    }
}

/// The badge's symbol follows the state's colour: states drawn in the same
/// colour get the same symbol and states in different colours different
/// symbols; the check mark, drawn with lines, is for a running service only.
pub proof fn lemma_symbol_follows_colour(s: MySqlState, t: MySqlState)
    ensures
        (state_color(s) == state_color(t)) <==> (symbol_shapes(s) == symbol_shapes(t)),
        symbol_shapes(s).len() > 0,
        (symbol_shapes(s)[0] is ThickLine) <==> (s is Running),
{
    let a = symbol_shapes(s);
    let b = symbol_shapes(t);
    if state_color(s) != state_color(t) {
        assert(state_color(s)[0] != state_color(t)[0] || state_color(s)[1] != state_color(t)[1]
            || state_color(s)[2] != state_color(t)[2]);
        if a.len() == b.len() {
            assert(a[0] != b[0] || a[1] != b[1]);
        }
    } else {
        assert(state_color(s)@ =~= state_color(t)@);
        assert(a =~= b);
    }
}

/// The whole icon for a state, in painting order: a white-edged dark
/// database drum filled with the state's colour, a lighter top, two
/// highlight arcs and a gloss stripe, then a status badge in a darker shade
/// of the colour holding the state's symbol.
pub open spec fn icon_shapes(state: MySqlState) -> Seq<Shape> {
    let color = state_color(state);
    let dark = [15u8, 23u8, 42u8, 255u8];
    let white = [248u8, 250u8, 252u8, 255u8];
    let highlight = [255u8, 255u8, 255u8, 115u8];
    seq![
        Shape::Database { left: 8, top: 9, right: 119, bottom: 119, ellipse_height: 31, color: white },
        Shape::Database { left: 13, top: 14, right: 114, bottom: 114, ellipse_height: 27, color: dark },
        Shape::Database { left: 20, top: 21, right: 107, bottom: 107, ellipse_height: 22, color: color },
        Shape::Ellipse { left: 28, top: 25, right: 99, bottom: 53, color: lighten_spec(color, 38) },
        Shape::Arc { left: 21, top: 50, right: 106, bottom: 76, color: highlight, thickness: 5 },
        Shape::Arc { left: 21, top: 76, right: 106, bottom: 102, color: highlight, thickness: 5 },
        Shape::RoundedRect { left: 28, top: 42, right: 34, bottom: 91, radius: 3, color: [255u8, 255u8, 255u8, 70u8] },
        Shape::Circle { center_x: 98, center_y: 99, radius: 27, color: white },
        Shape::Circle { center_x: 98, center_y: 99, radius: 21, color: darken_spec(color, 12) },
    ] + symbol_shapes(state)
}

/// The shapes of the status symbol for `state`.
pub fn status_symbol_shapes(state: &MySqlState) -> (shapes: Vec<Shape>)
    ensures
        shapes@ == symbol_shapes(*state),
{
    let w = [255u8, 255u8, 255u8, 255u8];
    let mut shapes: Vec<Shape> = Vec::new();
    match state {
        MySqlState::Running => {
            shapes.push(Shape::ThickLine { start_x: 87, start_y: 99, end_x: 95, end_y: 107, thickness: 5, color: w });
            shapes.push(Shape::ThickLine { start_x: 95, start_y: 107, end_x: 109, end_y: 90, thickness: 5, color: w });
        },
        MySqlState::Stopped => {
            shapes.push(Shape::RoundedRect { left: 89, top: 90, right: 107, bottom: 108, radius: 3, color: w });
        },
        MySqlState::Starting | MySqlState::Stopping | MySqlState::Pending => {
            shapes.push(Shape::Circle { center_x: 89, center_y: 99, radius: 3, color: w });
            shapes.push(Shape::Circle { center_x: 98, center_y: 99, radius: 3, color: w });
            shapes.push(Shape::Circle { center_x: 107, center_y: 99, radius: 3, color: w });
        },
        MySqlState::Paused => {
            shapes.push(Shape::RoundedRect { left: 89, top: 89, right: 95, bottom: 109, radius: 2, color: w });
            shapes.push(Shape::RoundedRect { left: 101, top: 89, right: 107, bottom: 109, radius: 2, color: w });
        },
        MySqlState::NotFound | MySqlState::Error(_) => {
            shapes.push(Shape::RoundedRect { left: 95, top: 87, right: 101, bottom: 103, radius: 2, color: w });
            shapes.push(Shape::Circle { center_x: 98, center_y: 110, radius: 3, color: w });
        },
    }
    assert(shapes@ =~= symbol_shapes(*state));
    shapes
}

/// The shapes of the icon for `state`, in painting order, on a canvas of
/// side `CANVAS_SIZE`.
pub fn status_icon_shapes(state: &MySqlState) -> (shapes: Vec<Shape>)
    ensures
        shapes@ == icon_shapes(*state),
{
    let color = state.color();
    let dark = [15u8, 23u8, 42u8, 255u8];
    let white = [248u8, 250u8, 252u8, 255u8];
    let highlight = [255u8, 255u8, 255u8, 115u8];
    let mut shapes: Vec<Shape> = Vec::new();
    shapes.push(Shape::Database { left: 8, top: 9, right: 119, bottom: 119, ellipse_height: 31, color: white });
    shapes.push(Shape::Database { left: 13, top: 14, right: 114, bottom: 114, ellipse_height: 27, color: dark });
    shapes.push(Shape::Database { left: 20, top: 21, right: 107, bottom: 107, ellipse_height: 22, color: color });
    shapes.push(Shape::Ellipse { left: 28, top: 25, right: 99, bottom: 53, color: lighten(color, 38) });
    shapes.push(Shape::Arc { left: 21, top: 50, right: 106, bottom: 76, color: highlight, thickness: 5 });
    shapes.push(Shape::Arc { left: 21, top: 76, right: 106, bottom: 102, color: highlight, thickness: 5 });
    shapes.push(Shape::RoundedRect { left: 28, top: 42, right: 34, bottom: 91, radius: 3, color: [255, 255, 255, 70] });
    shapes.push(Shape::Circle { center_x: 98, center_y: 99, radius: 27, color: white });
    shapes.push(Shape::Circle { center_x: 98, center_y: 99, radius: 21, color: darken(color, 12) });
    let mut symbol = status_symbol_shapes(state);
    shapes.append(&mut symbol);
    assert(shapes@ =~= icon_shapes(*state));
    shapes
}

/// Whether the integer arithmetic of a circle stays within `i32`.
pub fn circle_fits(center_x: i32, center_y: i32, radius: i32) -> (ok: bool)
    ensures
        ok == disc_fits(center_x, center_y, radius),
{
    let cx = center_x as i64;
    let cy = center_y as i64;
    let r = radius as i64;
    let min = i32::MIN as i64;
    let max = i32::MAX as i64;
    assert(r * r <= 0x4000_0000_0000_0000) by (nonlinear_arith)
        requires
            -0x8000_0000 <= r < 0x8000_0000,
    ;
    assert(0 <= r * r) by (nonlinear_arith);
    assert(2 * r * r == r * r + r * r) by (nonlinear_arith);
    assert(radius * radius == r * r);
    min <= cx - r && cx - r <= max && min <= cx + r && cx + r <= max && min <= cy - r && cy - r <= max
        && min <= cy + r && cy + r <= max && r * r <= max && (r < 0 || r * r <= max - r * r)
}

/// Whether a rounded rectangle's corner arithmetic is defined and stays
/// within `i32`.
pub fn rounded_rect_fits_check(left: i32, top: i32, right: i32, bottom: i32, radius: i32) -> (ok:
    bool)
    ensures
        ok == rounded_rect_fits(left, top, right, bottom, radius),
{
    if left > right || top > bottom {
        return true;
    }
    let l = left as i64;
    let t = top as i64;
    let rt = right as i64;
    let b = bottom as i64;
    let r = radius as i64;
    let min = i32::MIN as i64;
    let max = i32::MAX as i64;
    assert(r * r <= 0x4000_0000_0000_0000) by (nonlinear_arith)
        requires
            -0x8000_0000 <= r < 0x8000_0000,
    ;
    assert(0 <= r * r) by (nonlinear_arith);
    assert(2 * r * r == r * r + r * r) by (nonlinear_arith);
    assert(radius * radius == r * r);
    min <= l + r && l + r <= max && min <= rt - r && rt - r <= max && min <= t + r && t + r <= max
        && min <= b - r && b - r <= max && l + r <= rt - r && t + r <= b - r && r * r <= max && (r
        < 0 || r * r <= max - r * r)
}

} // verus!
