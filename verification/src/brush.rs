//! The brush: how one stamp and a whole stroke change the pixels of a layer.
//!
//! A stamp is a disc around a pixel. Its radius follows the pressure, and
//! its colour fades towards the rim: the softness of a pixel at distance `d`
//! from the centre of a disc of radius `r` is `1 - d / r`. All quantities are
//! fixed-point numbers; each formula is evaluated exactly and rounded down
//! once, at its end.

use vstd::prelude::*;
use crate::buffer::{lemma_crop_index, lemma_pixel_coords, lemma_pixel_in_frame, pixel_offset};
use crate::commands::{BlendMode, BrushColor, BrushSettings, BrushType, MAX_PRESSURE, MIN_PRESSURE, ONE};
use crate::stroke::{interpolate_line, is_line};

verus! {

/// The square of the fixed-point one.
pub const ONE_SQUARED: u64 = 4294967296;

/// The denominator of channels that are blended through a product of bytes.
pub const BYTE_ONE: i64 = 16711680;

/// Pressure as the brush counts it: between a tenth and two.
pub open spec fn clamp_pressure(pressure: int) -> int {
    if pressure < MIN_PRESSURE {
        MIN_PRESSURE as int
    } else if pressure > MAX_PRESSURE {
        MAX_PRESSURE as int
    } else {
        pressure
    }
}

/// A fraction as the brush counts it: at most one.
pub open spec fn unit(v: int) -> int {
    if v > ONE {
        ONE as int
    } else {
        v
    }
}

/// The radius of a stamp in pixels: the brush size times the pressure,
/// rounded down.
pub open spec fn brush_radius(size: int, pressure: int) -> int {
    (size * clamp_pressure(pressure)) / (ONE_SQUARED as int)
}

/// Whether `q / ONE` is at least `sqrt(d2) / r`.
pub open spec fn reaches(q: int, d2: int, r: int) -> bool {
    (q * r) * (q * r) >= ONE_SQUARED * d2
}

/// Whether `q` is the fixed-point distance of a pixel from the centre, as a
/// fraction of the radius, rounded up: the smallest `q` that reaches it.
pub open spec fn is_edge_distance(q: int, d2: int, r: int) -> bool {
    0 <= q <= ONE && reaches(q, d2, r) && (q > 0 ==> !reaches(q - 1, d2, r))
}

/// The fixed-point distance of a pixel from the centre, as a fraction of
/// the radius, rounded up.
pub open spec fn edge_distance(d2: int, r: int) -> int {
    choose|q: int| is_edge_distance(q, d2, r)
}

/// The softness of a pixel whose squared distance from the centre is `d2`:
/// one minus the distance as a fraction of the radius, rounded down. A disc
/// of radius zero is its centre pixel, at full strength.
pub open spec fn edge_softness(d2: int, r: int) -> int {
    if r <= 0 {
        ONE as int
    } else {
        ONE - edge_distance(d2, r)
    }
}

/// The alpha that a stamp has at a pixel: opacity times pressure times
/// softness, rounded down.
pub open spec fn brush_alpha(opacity: int, pressure: int, d2: int, r: int) -> int {
    (unit(opacity) * clamp_pressure(pressure) * edge_softness(d2, r)) / (ONE_SQUARED as int)
}

/// A quotient as a byte: rounded down and kept between 0 and 255.
pub open spec fn quantize(n: int, d: int) -> int {
    if n <= 0 {
        0
    } else if n / d > 255 {
        255
    } else {
        n / d
    }
}

/// A fixed-point colour channel as a byte.
pub open spec fn channel_byte(c: int) -> int {
    (unit(c) * 255) / (ONE as int)
}

/// The overlay of two bytes, over 255.
pub open spec fn overlay_numerator(src: int, dst: int) -> int {
    if dst < 128 {
        2 * src * dst
    } else {
        255 * 255 - 2 * (255 - src) * (255 - dst)
    }
}

/// What a colour byte becomes under the brush, before rounding: the
/// numerator of a fraction over `paint_denominator`.
pub open spec fn paint_numerator(mode: BlendMode, src: int, dst: int, alpha: int) -> int {
    match mode {
        BlendMode::Normal => src * alpha + dst * (ONE - alpha),
        BlendMode::Multiply => src * dst * alpha + 255 * dst * (ONE - alpha),
        BlendMode::Screen => (255 * 255 - (255 - src) * (255 - dst)) * alpha + 255 * dst * (ONE - alpha),
        BlendMode::Overlay => overlay_numerator(src, dst) * alpha + 255 * dst * (ONE - alpha),
    }
}

/// The denominator that goes with `paint_numerator`.
pub open spec fn paint_denominator(mode: BlendMode) -> int {
    match mode {
        BlendMode::Normal => ONE as int,
        _ => BYTE_ONE as int,
    }
}

/// A colour byte after the brush has painted over it with the given alpha.
pub open spec fn painted_channel(mode: BlendMode, src: int, dst: int, alpha: int) -> int {
    quantize(paint_numerator(mode, src, dst, alpha), paint_denominator(mode))
}

/// An alpha byte after the brush has painted over it: the alpha of the
/// stamp as a byte, plus what the stamp lets through of the alpha below.
pub open spec fn painted_alpha(dst_a: int, alpha: int) -> int {
    quantize(quantize(alpha * 255, ONE as int) * ONE + dst_a * (ONE - alpha), ONE as int)
}

/// An alpha byte after the eraser has gone over it.
pub open spec fn erased_alpha(dst_a: int, alpha: int) -> int {
    quantize(dst_a * (ONE - alpha), ONE as int)
}

/// The colour of the brush in channel `c`, as a byte.
pub open spec fn color_byte(color: BrushColor, c: int) -> int {
    if c == 0 {
        channel_byte(color.r as int)
    } else if c == 1 {
        channel_byte(color.g as int)
    } else {
        channel_byte(color.b as int)
    }
}

/// Channel `c` of a pixel after the brush has touched it with the given
/// alpha. The eraser lowers the alpha and leaves the colours; the other
/// brushes blend their colour in.
pub open spec fn painted_byte(brush: BrushSettings, alpha: int, dst: (u8, u8, u8, u8), c: int) -> int {
    let below: int = if c == 0 {
        dst.0 as int
    } else if c == 1 {
        dst.1 as int
    } else if c == 2 {
        dst.2 as int
    } else {
        dst.3 as int
    };
    if brush.brush_type == BrushType::Eraser {
        if c == 3 {
            erased_alpha(below, alpha)
        } else {
            below
        }
    } else {
        if c == 3 {
            painted_alpha(below, alpha)
        } else {
            painted_channel(brush.blend_mode, color_byte(brush.color, c), below, alpha)
        }
    }
}

/// The column of the pixel that byte `k` belongs to.
pub open spec fn pixel_x(width: int, k: int) -> int {
    (k / 4) % width
}

/// The row of the pixel that byte `k` belongs to.
pub open spec fn pixel_y(width: int, k: int) -> int {
    (k / 4) / width
}

/// Squared distance between two pixels.
pub open spec fn dist_sq(x: int, y: int, cx: int, cy: int) -> int {
    (x - cx) * (x - cx) + (y - cy) * (y - cy)
}

/// Whether pixel `(x, y)` lies in the disc of radius `r` around `(cx, cy)`.
pub open spec fn in_stamp(x: int, y: int, cx: int, cy: int, r: int) -> bool {
    cx - r <= x <= cx + r && cy - r <= y <= cy + r && dist_sq(x, y, cx, cy) <= r * r
}

/// Byte `k` of a layer after one stamp of the brush at `(cx, cy)`.
pub open spec fn stamped_byte(
    data: Seq<u8>,
    width: int,
    cx: int,
    cy: int,
    pressure: int,
    brush: BrushSettings,
    k: int,
) -> u8 {
    let x = pixel_x(width, k);
    let y = pixel_y(width, k);
    let r = brush_radius(brush.size as int, pressure);
    if in_stamp(x, y, cx, cy, r) {
        let o = (k / 4) * 4;
        painted_byte(
            brush,
            brush_alpha(brush.opacity as int, pressure, dist_sq(x, y, cx, cy), r),
            (data[o], data[o + 1], data[o + 2], data[o + 3]),
            k % 4,
        ) as u8
    } else {
        data[k]
    }
}

/// A layer after one stamp of the brush at `(cx, cy)`.
pub open spec fn stamped(data: Seq<u8>, width: int, cx: int, cy: int, pressure: int, brush: BrushSettings) -> Seq<
    u8,
> {
    Seq::new(data.len(), |k: int| stamped_byte(data, width, cx, cy, pressure, brush, k))
}

/// The pressure at point `i` of a segment of `n` points: it goes evenly from
/// the pressure at the first point to the pressure at the last one, rounded
/// down. A segment of one point has the pressure of its start.
pub open spec fn stroke_pressure(from_pressure: int, to_pressure: int, i: int, n: int) -> int {
    if n <= 1 {
        from_pressure
    } else {
        (from_pressure * (n - 1 - i) + to_pressure * i) / (n - 1)
    }
}

/// The first point of a segment has the pressure of its start, and the last
/// point of a segment of two or more has the pressure of its end.
pub proof fn lemma_stroke_pressure_ends(from_pressure: int, to_pressure: int, n: int)
    requires
        1 <= n,
    ensures
        stroke_pressure(from_pressure, to_pressure, 0, n) == from_pressure,
        n >= 2 ==> stroke_pressure(from_pressure, to_pressure, n - 1, n) == to_pressure,
{
    if n >= 2 {
        let m = n - 1;
        assert((from_pressure * m + to_pressure * 0) / m == from_pressure) by (nonlinear_arith)
            requires
                m >= 1,
        ;
        assert((from_pressure * (m - m) + to_pressure * m) / m == to_pressure) by (nonlinear_arith)
            requires
                m >= 1,
        ;
    }
}

/// A layer after the first `n` points of a segment have been stamped, in
/// order.
pub open spec fn stroked(
    data: Seq<u8>,
    width: int,
    points: Seq<(i32, i32)>,
    from_pressure: int,
    to_pressure: int,
    brush: BrushSettings,
    n: int,
) -> Seq<u8>
    decreases n,
{
    if n <= 0 {
        data
    } else {
        stamped(
            stroked(data, width, points, from_pressure, to_pressure, brush, n - 1),
            width,
            points[n - 1].0 as int,
            points[n - 1].1 as int,
            stroke_pressure(from_pressure, to_pressure, n - 1, points.len() as int),
            brush,
        )
    }
}

/// A stamp keeps the size of the buffer.
pub proof fn lemma_stroked_len(
    data: Seq<u8>,
    width: int,
    points: Seq<(i32, i32)>,
    from_pressure: int,
    to_pressure: int,
    brush: BrushSettings,
    n: int,
)
    ensures
        stroked(data, width, points, from_pressure, to_pressure, brush, n).len() == data.len(),
    decreases n,
{
    if n > 0 {
        lemma_stroked_len(data, width, points, from_pressure, to_pressure, brush, n - 1);
    }
}

/// A stamp without alpha changes nothing: in every blend mode a colour
/// byte painted with alpha zero is the byte below, and so is the alpha byte.
pub proof fn lemma_zero_alpha_keeps_pixel(mode: BlendMode, src: int, dst: int)
    requires
        0 <= src <= 255,
        0 <= dst <= 255,
    ensures
        painted_channel(mode, src, dst, 0) == dst,
        painted_alpha(dst, 0) == dst,
        erased_alpha(dst, 0) == dst,
{
    assert((dst * 65536) / 65536 == dst);
    assert(255 * dst * 65536 == dst * 16711680) by (nonlinear_arith);
    assert((dst * 16711680) / 16711680 == dst);
    assert(src * 0 == 0 && src * dst * 0 == 0 && overlay_numerator(src, dst) * 0 == 0 && (255 * 255 - (255 - src)
        * (255 - dst)) * 0 == 0) by (nonlinear_arith);
    assert(dst * (ONE - 0) == dst * 65536);
    assert(255 * dst * (ONE - 0) == dst * 16711680) by (nonlinear_arith);
}

/// A larger `q` reaches whatever a smaller one reaches.
proof fn lemma_reaches_monotonic(q1: int, q2: int, d2: int, r: int)
    requires
        0 <= q1 <= q2,
        0 <= r,
        reaches(q1, d2, r),
    ensures
        reaches(q2, d2, r),
{
    assert(0 <= q1 * r <= q2 * r) by (nonlinear_arith)
        requires
            0 <= q1 <= q2,
            0 <= r,
    ;
    let a = q1 * r;
    let b = q2 * r;
    assert(a * a <= b * b) by (nonlinear_arith)
        requires
            0 <= a <= b,
    ;
}

/// There is only one edge distance.
pub proof fn lemma_edge_distance_unique(q: int, d2: int, r: int)
    requires
        0 <= r,
        is_edge_distance(q, d2, r),
    ensures
        edge_distance(d2, r) == q,
{
    let p = edge_distance(d2, r);
    assert(is_edge_distance(p, d2, r));
    if p < q {
        lemma_reaches_monotonic(p, q - 1, d2, r);
    } else if q < p {
        lemma_reaches_monotonic(q, p - 1, d2, r);
    }
}

/// The edge distance of a pixel in a disc, by bisection.
fn edge_distance_exec(d2: u64, r: u64) -> (q: u32)
    requires
        0 < r <= 131071,
        d2 <= r * r,
    ensures
        q == edge_distance(d2 as int, r as int),
        q <= ONE,
{
    proof {
        assert(r * r <= 131071 * 131071) by (nonlinear_arith)
            requires
                0 < r <= 131071,
        ;
        assert(0 <= ONE_SQUARED * d2 <= 4294967296 * 17179607041) by (nonlinear_arith)
            requires
                0 <= d2 <= 17179607041,
                ONE_SQUARED == 4294967296,
        ;
    }
    let target: u128 = ONE_SQUARED as u128 * d2 as u128;
    let mut lo: u64 = 0;
    let mut hi: u64 = ONE as u64;
    proof {
        let a = ONE * r;
        assert(a * a == ONE_SQUARED * (r * r)) by (nonlinear_arith)
            requires
                a == 65536 * r,
                ONE_SQUARED == 4294967296,
        ;
        assert(ONE_SQUARED * (r * r) >= ONE_SQUARED * d2) by (nonlinear_arith)
            requires
                d2 <= r * r,
                ONE_SQUARED == 4294967296,
        ;
    }
    while lo < hi
        invariant
            0 <= lo <= hi <= ONE,
            0 < r <= 131071,
            target == ONE_SQUARED * d2,
            reaches(hi as int, d2 as int, r as int),
            lo > 0 ==> !reaches(lo - 1, d2 as int, r as int),
        decreases hi - lo,
    {
        let mid: u64 = (lo + hi) / 2;
        assert(0 <= mid * r <= 65536 * 131071) by (nonlinear_arith)
            requires
                0 <= mid <= 65536,
                0 < r <= 131071,
        ;
        let side: u128 = (mid * r) as u128;
        assert(side * side <= 8589869056 * 8589869056) by (nonlinear_arith)
            requires
                0 <= side <= 8589869056,
        ;
        if side * side >= target {
            hi = mid;
        } else {
            lo = mid + 1;
        }
    }
    proof {
        lemma_edge_distance_unique(lo as int, d2 as int, r as int);
    }
    lo as u32
}

/// The pressure that the brush counts with.
pub fn clamped_pressure(pressure: u32) -> (p: u32)
    ensures
        p == clamp_pressure(pressure as int),
        MIN_PRESSURE <= p <= MAX_PRESSURE,
{
    if pressure < MIN_PRESSURE {
        MIN_PRESSURE
    } else if pressure > MAX_PRESSURE {
        MAX_PRESSURE
    } else {
        pressure
    }
}

/// The radius of the stamp of a brush of the given size under the given
/// pressure.
pub fn stamp_radius(size: u32, pressure: u32) -> (r: u32)
    ensures
        r == brush_radius(size as int, pressure as int),
        r <= 131071,
{
    let p = clamped_pressure(pressure) as u64;
    assert(0 <= size * p <= 4294967295 * 131072) by (nonlinear_arith)
        requires
            0 <= size <= 4294967295,
            0 <= p <= 131072,
    ;
    let radius: u64 = (size as u64 * p) / ONE_SQUARED;
    radius as u32
}

/// The alpha of a stamp at a pixel whose squared distance from the centre of
/// the disc is `d2`.
pub fn stamp_alpha(opacity: u32, pressure: u32, d2: u64, r: u32) -> (alpha: u32)
    requires
        r <= 131071,
        d2 <= r * r,
    ensures
        alpha == brush_alpha(opacity as int, pressure as int, d2 as int, r as int),
        alpha <= 2 * ONE,
{
    let softness: u64 = if r == 0 {
        ONE as u64
    } else {
        (ONE - edge_distance_exec(d2, r as u64)) as u64
    };
    let op: u64 = if opacity > ONE { ONE as u64 } else { opacity as u64 };
    let p: u64 = clamped_pressure(pressure) as u64;
    assert(0 <= op * p <= 65536 * 131072) by (nonlinear_arith)
        requires
            0 <= op <= 65536,
            0 <= p <= 131072,
    ;
    let weight: u64 = op * p;
    assert(0 <= weight * softness <= 8589934592 * 65536) by (nonlinear_arith)
        requires
            0 <= weight <= 8589934592,
            0 <= softness <= 65536,
    ;
    ((weight * softness) / ONE_SQUARED) as u32
}

/// A quotient as a byte.
fn quantize_exec(n: i64, d: i64) -> (q: u8)
    requires
        d > 0,
    ensures
        q == quantize(n as int, d as int),
{
    if n <= 0 {
        0
    } else {
        let v: i64 = n / d;
        if v > 255 {
            255
        } else {
            v as u8
        }
    }
}

/// A fixed-point colour channel as a byte.
pub fn channel_to_byte(c: u32) -> (b: u8)
    ensures
        b == channel_byte(c as int),
{
    let v: u64 = if c > ONE { ONE as u64 } else { c as u64 };
    ((v * 255) / (ONE as u64)) as u8
}

/// A product is no larger than the product of the bounds of its factors.
proof fn lemma_product_bound(a: int, b: int, amax: int, bmax: int)
    requires
        -amax <= a <= amax,
        -bmax <= b <= bmax,
    ensures
        -(amax * bmax) <= a * b <= amax * bmax,
{
    assert(-(amax * bmax) <= a * b <= amax * bmax) by (nonlinear_arith)
        requires
            -amax <= a <= amax,
            -bmax <= b <= bmax,
    ;
}

/// A colour byte after the brush has painted over it with the given alpha.
fn paint_channel(mode: BlendMode, src: u8, dst: u8, alpha: u32) -> (out: u8)
    ensures
        out == painted_channel(mode, src as int, dst as int, alpha as int),
{
    let s: i64 = src as i64;
    let d: i64 = dst as i64;
    let a: i64 = alpha as i64;
    let inv: i64 = ONE as i64 - a;
    proof {
        lemma_product_bound(s as int, a as int, 255, 4294967296);
        lemma_product_bound(d as int, inv as int, 255, 4294967296);
        lemma_product_bound(s as int, d as int, 255, 255);
        lemma_product_bound(255 - s, 255 - d, 255, 255);
        lemma_product_bound(s * d, a as int, 65025, 4294967296);
        lemma_product_bound(65025 - (255 - s) * (255 - d), a as int, 65025, 4294967296);
        lemma_product_bound(2 * (s * d), a as int, 130050, 4294967296);
        lemma_product_bound(65025 - 2 * ((255 - s) * (255 - d)), a as int, 195075, 4294967296);
        assert(0 <= s * d) by (nonlinear_arith)
            requires
                0 <= s,
                0 <= d,
        ;
        assert(0 <= (255 - s) * (255 - d)) by (nonlinear_arith)
            requires
                0 <= 255 - s,
                0 <= 255 - d,
        ;
    }
    let through: i64 = d * inv;
    assert(255 * d * inv == 255 * through) by (nonlinear_arith)
        requires
            through == d * inv,
    ;
    match mode {
        BlendMode::Normal => quantize_exec(s * a + through, ONE as i64),
        BlendMode::Multiply => {
            let product: i64 = s * d;
            quantize_exec(product * a + 255 * through, BYTE_ONE)
        },
        BlendMode::Screen => {
            let screen: i64 = 65025 - (255 - s) * (255 - d);
            quantize_exec(screen * a + 255 * through, BYTE_ONE)
        },
        BlendMode::Overlay => {
            let over: i64 = if d < 128 {
                2 * (s * d)
            } else {
                65025 - 2 * ((255 - s) * (255 - d))
            };
            assert(over == overlay_numerator(s as int, d as int)) by (nonlinear_arith)
                requires
                    over == (if d < 128 {
                        2 * (s * d)
                    } else {
                        65025 - 2 * ((255 - s) * (255 - d))
                    }),
            ;
            quantize_exec(over * a + 255 * through, BYTE_ONE)
        },
    }
}

/// Blends the colour of the brush into a pixel with the given alpha.
pub fn blend_pixel(dst: (u8, u8, u8, u8), src_color: BrushColor, alpha: u32, blend_mode: BlendMode) -> (out: (
    u8,
    u8,
    u8,
    u8,
))
    ensures
        out.0 == painted_channel(blend_mode, channel_byte(src_color.r as int), dst.0 as int, alpha as int),
        out.1 == painted_channel(blend_mode, channel_byte(src_color.g as int), dst.1 as int, alpha as int),
        out.2 == painted_channel(blend_mode, channel_byte(src_color.b as int), dst.2 as int, alpha as int),
        out.3 == painted_alpha(dst.3 as int, alpha as int),
{
    let r = paint_channel(blend_mode, channel_to_byte(src_color.r), dst.0, alpha);
    let g = paint_channel(blend_mode, channel_to_byte(src_color.g), dst.1, alpha);
    let b = paint_channel(blend_mode, channel_to_byte(src_color.b), dst.2, alpha);
    let a: i64 = alpha as i64;
    proof {
        lemma_product_bound(a as int, 255, 4294967296, 255);
        lemma_product_bound(dst.3 as int, ONE - a, 255, 4294967296);
    }
    let src_a: i64 = quantize_exec(a * 255, ONE as i64) as i64;
    let out_a = quantize_exec(src_a * (ONE as i64) + dst.3 as i64 * (ONE as i64 - a), ONE as i64);
    (r, g, b, out_a)
}

/// Lowers the alpha of a pixel by the given alpha of the eraser.
pub fn erase_pixel(dst: (u8, u8, u8, u8), alpha: u32) -> (out: (u8, u8, u8, u8))
    ensures
        out == (dst.0, dst.1, dst.2, erased_alpha(dst.3 as int, alpha as int) as u8),
{
    let a: i64 = alpha as i64;
    proof {
        lemma_product_bound(dst.3 as int, ONE - a, 255, 4294967296);
    }
    (dst.0, dst.1, dst.2, quantize_exec(dst.3 as i64 * (ONE as i64 - a), ONE as i64))
}

/// What the brush makes of a pixel with the given alpha.
pub fn paint_pixel(dst: (u8, u8, u8, u8), brush: &BrushSettings, alpha: u32) -> (out: (u8, u8, u8, u8))
    ensures
        out.0 == painted_byte(*brush, alpha as int, dst, 0),
        out.1 == painted_byte(*brush, alpha as int, dst, 1),
        out.2 == painted_byte(*brush, alpha as int, dst, 2),
        out.3 == painted_byte(*brush, alpha as int, dst, 3),
{
    match brush.brush_type {
        BrushType::Eraser => erase_pixel(dst, alpha),
        _ => blend_pixel(dst, brush.color, alpha, brush.blend_mode),
    }
}

/// Whether the scan of a stamp, row by row, has passed the pixel at offset
/// `(ox, oy)` from the centre when it stands at offset `(dx, dy)`.
spec fn passed(ox: int, oy: int, dx: int, dy: int) -> bool {
    oy < dy || (oy == dy && ox < dx)
}

/// What holds of the buffer while a stamp is being made: pixels that the
/// scan has passed are as the stamp leaves them, the others are untouched.
spec fn stamp_progress(
    orig: Seq<u8>,
    cur: Seq<u8>,
    width: int,
    cx: int,
    cy: int,
    pressure: int,
    brush: BrushSettings,
    dx: int,
    dy: int,
) -> bool {
    &&& cur.len() == orig.len()
    &&& forall|k: int|
        0 <= k < cur.len() ==> #[trigger] cur[k] == (if passed(
            pixel_x(width, k) - cx,
            pixel_y(width, k) - cy,
            dx,
            dy,
        ) {
            stamped_byte(orig, width, cx, cy, pressure, brush, k)
        } else {
            orig[k]
        })
}

/// Before the scan starts nothing is passed that lies in the disc.
proof fn lemma_stamp_begin(orig: Seq<u8>, width: int, cx: int, cy: int, pressure: int, brush: BrushSettings)
    requires
        brush_radius(brush.size as int, pressure) >= 0,
    ensures
        stamp_progress(
            orig,
            orig,
            width,
            cx,
            cy,
            pressure,
            brush,
            -brush_radius(brush.size as int, pressure),
            -brush_radius(brush.size as int, pressure),
        ),
{
}

/// The end of a row and the start of the next pass only pixels outside the
/// disc.
proof fn lemma_stamp_next_row(
    orig: Seq<u8>,
    cur: Seq<u8>,
    width: int,
    cx: int,
    cy: int,
    pressure: int,
    brush: BrushSettings,
    dy: int,
)
    requires
        brush_radius(brush.size as int, pressure) >= 0,
        stamp_progress(orig, cur, width, cx, cy, pressure, brush, brush_radius(brush.size as int, pressure) + 1, dy),
    ensures
        stamp_progress(orig, cur, width, cx, cy, pressure, brush, -brush_radius(brush.size as int, pressure), dy + 1),
{
}

/// After the last row every pixel is as the stamp leaves it.
proof fn lemma_stamp_end(
    orig: Seq<u8>,
    cur: Seq<u8>,
    width: int,
    cx: int,
    cy: int,
    pressure: int,
    brush: BrushSettings,
)
    requires
        brush_radius(brush.size as int, pressure) >= 0,
        stamp_progress(
            orig,
            cur,
            width,
            cx,
            cy,
            pressure,
            brush,
            -brush_radius(brush.size as int, pressure),
            brush_radius(brush.size as int, pressure) + 1,
        ),
    ensures
        cur == stamped(orig, width, cx, cy, pressure, brush),
{
    assert(cur =~= stamped(orig, width, cx, cy, pressure, brush));
}

/// Passing a pixel that is outside the layer or outside the disc changes
/// nothing.
proof fn lemma_stamp_skip(
    orig: Seq<u8>,
    cur: Seq<u8>,
    width: int,
    height: int,
    cx: int,
    cy: int,
    pressure: int,
    brush: BrushSettings,
    dx: int,
    dy: int,
)
    requires
        0 < width,
        orig.len() == width * height * 4,
        stamp_progress(orig, cur, width, cx, cy, pressure, brush, dx, dy),
        !(0 <= cx + dx < width && 0 <= cy + dy < height) || !in_stamp(
            cx + dx,
            cy + dy,
            cx,
            cy,
            brush_radius(brush.size as int, pressure),
        ),
    ensures
        stamp_progress(orig, cur, width, cx, cy, pressure, brush, dx + 1, dy),
{
    assert forall|k: int| 0 <= k < cur.len() implies #[trigger] cur[k] == (if passed(
        pixel_x(width, k) - cx,
        pixel_y(width, k) - cy,
        dx + 1,
        dy,
    ) {
        stamped_byte(orig, width, cx, cy, pressure, brush, k)
    } else {
        orig[k]
    }) by {
        lemma_pixel_coords(width, height, k);
    }
}

/// Painting the pixel under the scan and passing it keeps the rest as it was.
proof fn lemma_stamp_write(
    orig: Seq<u8>,
    before: Seq<u8>,
    after: Seq<u8>,
    width: int,
    height: int,
    cx: int,
    cy: int,
    pressure: int,
    brush: BrushSettings,
    dx: int,
    dy: int,
    out: (u8, u8, u8, u8),
)
    requires
        0 < width,
        orig.len() == width * height * 4,
        stamp_progress(orig, before, width, cx, cy, pressure, brush, dx, dy),
        0 <= cx + dx < width && 0 <= cy + dy < height,
        in_stamp(cx + dx, cy + dy, cx, cy, brush_radius(brush.size as int, pressure)),
        after.len() == before.len(),
        ({
            let o = pixel_offset(width, cx + dx, cy + dy);
            let alpha = brush_alpha(
                brush.opacity as int,
                pressure,
                dist_sq(cx + dx, cy + dy, cx, cy),
                brush_radius(brush.size as int, pressure),
            );
            let dst = (before[o], before[o + 1], before[o + 2], before[o + 3]);
            &&& out.0 == painted_byte(brush, alpha, dst, 0)
            &&& out.1 == painted_byte(brush, alpha, dst, 1)
            &&& out.2 == painted_byte(brush, alpha, dst, 2)
            &&& out.3 == painted_byte(brush, alpha, dst, 3)
            &&& after[o] == out.0
            &&& after[o + 1] == out.1
            &&& after[o + 2] == out.2
            &&& after[o + 3] == out.3
            &&& forall|k: int| 0 <= k < before.len() && !(o <= k < o + 4) ==> after[k] == before[k]
        }),
    ensures
        stamp_progress(orig, after, width, cx, cy, pressure, brush, dx + 1, dy),
{
    let px = cx + dx;
    let py = cy + dy;
    let o = pixel_offset(width, px, py);
    lemma_pixel_in_frame(width, height, px, py);
    lemma_crop_index(width, px, py, 0);
    lemma_crop_index(width, px, py, 1);
    lemma_crop_index(width, px, py, 2);
    lemma_crop_index(width, px, py, 3);
    assert(before[o] == orig[o] && before[o + 1] == orig[o + 1] && before[o + 2] == orig[o + 2] && before[o + 3]
        == orig[o + 3]);
    assert forall|k: int| 0 <= k < after.len() implies #[trigger] after[k] == (if passed(
        pixel_x(width, k) - cx,
        pixel_y(width, k) - cy,
        dx + 1,
        dy,
    ) {
        stamped_byte(orig, width, cx, cy, pressure, brush, k)
    } else {
        orig[k]
    }) by {
        lemma_pixel_coords(width, height, k);
        if o <= k < o + 4 {
            assert((k / 4) * 4 == o);
            assert(pixel_x(width, k) == px && pixel_y(width, k) == py);
        } else {
            assert(after[k] == before[k]);
            assert(!(pixel_x(width, k) == px && pixel_y(width, k) == py));
        }
    }
}

/// One stamp of the brush at pixel `(x, y)`: every pixel of the layer in
/// the disc around it is painted, with an alpha that fades towards the rim.
/// Parts of the disc outside the layer are ignored.
pub fn draw_brush_point(
    layer_data: &mut Vec<u8>,
    width: u32,
    height: u32,
    x: i32,
    y: i32,
    pressure: u32,
    brush: &BrushSettings,
)
    requires
        old(layer_data)@.len() == width * height * 4,
    ensures
        final(layer_data)@ == stamped(old(layer_data)@, width as int, x as int, y as int, pressure as int, *brush),
{
    let ghost orig = layer_data@;
    if width == 0 || height == 0 {
        assert(width * height * 4 == 0) by (nonlinear_arith)
            requires
                width == 0 || height == 0,
        ;
        assert(layer_data@ =~= stamped(orig, width as int, x as int, y as int, pressure as int, *brush));
        return ;
    }
    let len: usize = layer_data.len();
    let radius: u32 = stamp_radius(brush.size, pressure);
    let half: i64 = radius as i64;
    let cx: i64 = x as i64;
    let cy: i64 = y as i64;
    let w: i64 = width as i64;
    let h: i64 = height as i64;
    proof {
        lemma_stamp_begin(orig, width as int, x as int, y as int, pressure as int, *brush);
        assert(half * half <= 131071 * 131071) by (nonlinear_arith)
            requires
                0 <= half <= 131071,
        ;
    }
    let mut dy: i64 = -half;
    while dy <= half
        invariant
            -half <= dy <= half + 1,
            0 <= half <= 131071,
            half == brush_radius(brush.size as int, pressure as int),
            radius == half,
            cx == x,
            cy == y,
            w == width,
            h == height,
            0 < width,
            0 < height,
            len == layer_data@.len(),
            orig.len() == width * height * 4,
            stamp_progress(orig, layer_data@, width as int, x as int, y as int, pressure as int, *brush, -half, dy as int),
        decreases half + 1 - dy,
    {
        let mut dx: i64 = -half;
        while dx <= half
            invariant
                -half <= dx <= half + 1,
                -half <= dy <= half,
                0 <= half <= 131071,
                half == brush_radius(brush.size as int, pressure as int),
                radius == half,
                cx == x,
                cy == y,
                w == width,
                h == height,
                0 < width,
                0 < height,
                len == layer_data@.len(),
                orig.len() == width * height * 4,
                stamp_progress(
                    orig,
                    layer_data@,
                    width as int,
                    x as int,
                    y as int,
                    pressure as int,
                    *brush,
                    dx as int,
                    dy as int,
                ),
            decreases half + 1 - dx,
        {
            let px: i64 = cx + dx;
            let py: i64 = cy + dy;
            proof {
                assert(0 <= dx * dx <= 131071 * 131071) by (nonlinear_arith)
                    requires
                        -131071 <= dx <= 131071,
                ;
                assert(0 <= dy * dy <= 131071 * 131071) by (nonlinear_arith)
                    requires
                        -131071 <= dy <= 131071,
                ;
                assert(half * half <= 131071 * 131071) by (nonlinear_arith)
                    requires
                        0 <= half <= 131071,
                ;
            }
            let d2: i64 = dx * dx + dy * dy;
            if px >= 0 && py >= 0 && px < w && py < h && d2 <= half * half {
                proof {
                    lemma_pixel_in_frame(width as int, height as int, px as int, py as int);
                }
                let alpha = stamp_alpha(brush.opacity, pressure, d2 as u64, radius);
                let o: usize = ((py as usize) * (width as usize) + (px as usize)) * 4;
                let ghost before = layer_data@;
                let dst = (layer_data[o], layer_data[o + 1], layer_data[o + 2], layer_data[o + 3]);
                let out = paint_pixel(dst, brush, alpha);
                layer_data.set(o, out.0);
                layer_data.set(o + 1, out.1);
                layer_data.set(o + 2, out.2);
                layer_data.set(o + 3, out.3);
                proof {
                    lemma_stamp_write(
                        orig,
                        before,
                        layer_data@,
                        width as int,
                        height as int,
                        x as int,
                        y as int,
                        pressure as int,
                        *brush,
                        dx as int,
                        dy as int,
                        out,
                    );
                }
            } else {
                proof {
                    lemma_stamp_skip(
                        orig,
                        layer_data@,
                        width as int,
                        height as int,
                        x as int,
                        y as int,
                        pressure as int,
                        *brush,
                        dx as int,
                        dy as int,
                    );
                }
            }
            dx = dx + 1;
        }
        proof {
            lemma_stamp_next_row(orig, layer_data@, width as int, x as int, y as int, pressure as int, *brush, dy as int);
        }
        dy = dy + 1;
    }
    proof {
        lemma_stamp_end(orig, layer_data@, width as int, x as int, y as int, pressure as int, *brush);
    }
}

/// The pressure at point `i` of a segment of `n` points.
pub fn pressure_at(pressure0: u32, pressure1: u32, i: usize, n: usize) -> (p: u32)
    requires
        i < n,
    ensures
        p == stroke_pressure(pressure0 as int, pressure1 as int, i as int, n as int),
{
    if n <= 1 {
        return pressure0;
    }
    let last: u128 = (n - 1) as u128;
    let rest: u128 = (n - 1 - i) as u128;
    assert(0 <= pressure0 * rest <= 4294967295 * 0xffff_ffff_ffff_ffff) by (nonlinear_arith)
        requires
            0 <= pressure0 <= 4294967295,
            0 <= rest <= 0xffff_ffff_ffff_ffff,
    ;
    assert(0 <= pressure1 * i <= 4294967295 * 0xffff_ffff_ffff_ffff) by (nonlinear_arith)
        requires
            0 <= pressure1 <= 4294967295,
            0 <= i <= 0xffff_ffff_ffff_ffff,
    ;
    let sum: u128 = pressure0 as u128 * rest + pressure1 as u128 * i as u128;
    assert(sum <= 4294967295 * last) by (nonlinear_arith)
        requires
            sum == pressure0 * (last - i) + pressure1 * i,
            0 <= pressure0 <= 4294967295,
            0 <= pressure1 <= 4294967295,
            0 <= i <= last,
    ;
    assert(sum / last <= 4294967295) by (nonlinear_arith)
        requires
            0 <= sum <= 4294967295 * last,
            last > 0,
    ;
    (sum / last) as u32
}

/// Draws the segment of a stroke from `(x0, y0)` to `(x1, y1)`: every pixel
/// of the line between the two is stamped, in order, with a pressure that
/// goes evenly from `pressure0` at the first pixel to `pressure1` at the last.
pub fn draw_brush_stroke(
    layer_data: &mut Vec<u8>,
    width: u32,
    height: u32,
    x0: i32,
    y0: i32,
    x1: i32,
    y1: i32,
    pressure0: u32,
    pressure1: u32,
    brush: &BrushSettings,
)
    requires
        old(layer_data)@.len() == width * height * 4,
    ensures
        final(layer_data)@.len() == old(layer_data)@.len(),
        exists|points: Seq<(i32, i32)>|
            is_line(points, x0 as int, y0 as int, x1 as int, y1 as int) && final(layer_data)@ == #[trigger] stroked(
                old(layer_data)@,
                width as int,
                points,
                pressure0 as int,
                pressure1 as int,
                *brush,
                points.len() as int,
            ),
{
    let points = interpolate_line(x0, y0, x1, y1);
    let n: usize = points.len();
    let ghost orig = layer_data@;
    let mut i: usize = 0;
    while i < n
        invariant
            i <= n,
            n == points@.len(),
            orig.len() == width * height * 4,
            layer_data@ == stroked(
                orig,
                width as int,
                points@,
                pressure0 as int,
                pressure1 as int,
                *brush,
                i as int,
            ),
        decreases n - i,
    {
        proof {
            lemma_stroked_len(orig, width as int, points@, pressure0 as int, pressure1 as int, *brush, i as int);
        }
        let pressure = pressure_at(pressure0, pressure1, i, n);
        let point = points[i];
        draw_brush_point(layer_data, width, height, point.0, point.1, pressure, brush);
        i = i + 1;
    }
    proof {
        lemma_stroked_len(orig, width as int, points@, pressure0 as int, pressure1 as int, *brush, n as int);
    }
}

} // verus!
