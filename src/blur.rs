//! Iterated, edge-clamped box blur over an RGBA8 buffer.
use vstd::arithmetic::div_mod::lemma_fundamental_div_mod_converse;
use crate::params::{json_u64_at, read_u64_field};
use vstd::prelude::*;

verus! {

/// Sum of channel `c` over the pixels `lo <= x < hi` of row `y`.
pub open spec fn row_sum(s: Seq<u8>, w: int, y: int, c: int, lo: int, hi: int) -> int
    decreases hi - lo,
{
    if hi <= lo {
        0
    } else {
        row_sum(s, w, y, c, lo, hi - 1) + s[(y * w + hi - 1) * 4 + c] as int
    }
}

/// Sum of channel `c` over the rectangle `[xlo, xhi) x [ylo, yhi)`.
pub open spec fn rect_sum(s: Seq<u8>, w: int, c: int, xlo: int, xhi: int, ylo: int, yhi: int) -> int
    decreases yhi - ylo,
{
    if yhi <= ylo {
        0
    } else {
        rect_sum(s, w, c, xlo, xhi, ylo, yhi - 1) + row_sum(s, w, yhi - 1, c, xlo, xhi)
    }
}

/// First coordinate of the window around `p` that lies in the image.
pub open spec fn window_lo(p: int, r: int) -> int {
    if p - r < 0 { 0 } else { p - r }
}

/// One past the last coordinate of the window around `p` that lies in `[0, n)`.
pub open spec fn window_hi(p: int, r: int, n: int) -> int {
    if p + r + 1 > n { n } else { p + r + 1 }
}

/// Number of image pixels in the window of radius `r` around `(x, y)`.
pub open spec fn window_count(w: int, h: int, r: int, x: int, y: int) -> int {
    (window_hi(x, r, w) - window_lo(x, r)) * (window_hi(y, r, h) - window_lo(y, r))
}

/// Mean of channel `c` over the window of radius `r` around `(x, y)`,
/// truncated toward zero.
pub open spec fn blurred_channel(s: Seq<u8>, w: int, h: int, r: int, x: int, y: int, c: int) -> u8 {
    (rect_sum(s, w, c, window_lo(x, r), window_hi(x, r, w), window_lo(y, r), window_hi(y, r, h))
        / window_count(w, h, r, x, y)) as u8
}

/// Byte `i` of the buffer after one blur pass over `s`.
pub open spec fn blur_pass(s: Seq<u8>, w: int, h: int, r: int) -> Seq<u8> {
    Seq::new(s.len(), |i: int| blurred_channel(s, w, h, r, (i / 4) % w, (i / 4) / w, i % 4))
}

/// The buffer after `n` blur passes, each reading the result of the one before.
pub open spec fn blur_iterated(s: Seq<u8>, w: int, h: int, r: int, n: nat) -> Seq<u8>
    decreases n,
{
    if n == 0 {
        s
    } else {
        blur_pass(blur_iterated(s, w, h, r, (n - 1) as nat), w, h, r)
    }
}

/// A buffer of `w * h` RGBA pixels whose byte count fits the blur's `i32` arithmetic.
pub open spec fn blur_dims_ok(w: int, h: int) -> bool {
    0 <= w && 0 <= h && w * h * 4 <= i32::MAX
}

/// Pixel `(x, y)` of a `w x h` image, and all four of its bytes, lie in the image.
proof fn lemma_pixel_in_bounds(w: int, h: int, x: int, y: int)
    requires
        0 <= x < w,
        0 <= y < h,
    ensures
        0 <= y * w + x < w * h,
        0 <= y * w <= y * w + x,
        (y * w + x) * 4 + 3 < w * h * 4,
{
    assert(0 <= y * w + x < w * h) by (nonlinear_arith)
        requires
            0 <= x < w,
            0 <= y < h,
    ;
    assert(0 <= y * w) by (nonlinear_arith)
        requires
            0 <= x < w,
            0 <= y < h,
    ;
}

/// Sum of channel `c` of `src` over the rectangle `[xlo, xhi) x [ylo, yhi)`.
fn window_sum(src: &[u8], width: i64, height: i64, c: usize, xlo: i64, xhi: i64, ylo: i64, yhi: i64) -> (r: u64)
    requires
        0 <= width,
        0 <= height,
        width * height * 4 <= i32::MAX,
        src@.len() == width * height * 4,
        c < 4,
        0 <= xlo <= xhi <= width,
        0 <= ylo <= yhi <= height,
    ensures
        r == rect_sum(src@, width as int, c as int, xlo as int, xhi as int, ylo as int, yhi as int),
        r <= 255 * (xhi - xlo) * (yhi - ylo),
{
    let ghost s = src@;
    let ghost span = xhi - xlo;
    proof {
        assert(span * (yhi - ylo) <= width * height) by (nonlinear_arith)
            requires
                0 <= yhi - ylo <= height,
                0 <= span <= width,
        ;
    }
    let mut sum: u64 = 0;
    let mut ny: i64 = ylo;
    while ny < yhi
        invariant
            0 <= ylo <= ny <= yhi <= height,
            0 <= xlo <= xhi <= width,
            span == xhi - xlo,
            s == src@,
            c < 4,
            src@.len() == width * height * 4,
            width * height * 4 <= i32::MAX,
            span * (yhi - ylo) <= width * height,
            sum == rect_sum(s, width as int, c as int, xlo as int, xhi as int, ylo as int, ny as int),
            sum <= 255 * (span * (ny - ylo)),
        decreases yhi - ny,
    {
        let ghost before = sum as int;
        proof {
            assert(span * (ny - ylo) + span == span * (ny + 1 - ylo)) by (nonlinear_arith);
            assert(span * (ny + 1 - ylo) <= span * (yhi - ylo)) by (nonlinear_arith)
                requires
                    ny + 1 <= yhi,
                    0 <= span,
            ;
        }
        let mut nx: i64 = xlo;
        while nx < xhi
            invariant
                0 <= ylo <= ny < yhi <= height,
                0 <= xlo <= nx <= xhi <= width,
                span == xhi - xlo,
                s == src@,
                c < 4,
                src@.len() == width * height * 4,
                width * height * 4 <= i32::MAX,
                span * (ny + 1 - ylo) <= width * height,
                before == rect_sum(s, width as int, c as int, xlo as int, xhi as int, ylo as int, ny as int),
                before <= 255 * (span * (ny - ylo)),
                sum == before + row_sum(s, width as int, ny as int, c as int, xlo as int, nx as int),
                sum <= before + 255 * (nx - xlo),
            decreases xhi - nx,
        {
            proof {
                lemma_pixel_in_bounds(width as int, height as int, nx as int, ny as int);
                assert(span * (ny - ylo) + span == span * (ny + 1 - ylo)) by (nonlinear_arith);
                assert(sum + 255 <= 255 * (width * height));
            }
            let idx: usize = ((ny * width + nx) * 4) as usize + c;
            sum = sum + src[idx] as u64;
            nx = nx + 1;
        }
        ny = ny + 1;
    }
    proof {
        assert(255 * (span * (yhi - ylo)) == 255 * span * (yhi - ylo)) by (nonlinear_arith);
    }
    sum
}

/// Writes into `dst` the mean of each channel of `src` over the window of
/// radius `radius` around pixel `(x, y)`; every other byte is left as it was.
#[verifier::rlimit(40)]
fn blur_pixel(x: i32, y: i32, width: i32, height: i32, src: &[u8], dst: &mut Vec<u8>, radius: i32)
    requires
        blur_dims_ok(width as int, height as int),
        0 <= x < width,
        0 <= y < height,
        0 <= radius,
        src@.len() == width * height * 4,
        old(dst)@.len() == src@.len(),
    ensures
        final(dst)@.len() == old(dst)@.len(),
        forall|i: int|
            0 <= i < old(dst)@.len() ==> #[trigger] final(dst)@[i] == if i / 4 == y * width + x {
                blurred_channel(src@, width as int, height as int, radius as int, x as int, y as int, i % 4)
            } else {
                old(dst)@[i]
            },
{
    let w: i64 = width as i64;
    let h: i64 = height as i64;
    let r: i64 = radius as i64;
    let xi: i64 = x as i64;
    let yi: i64 = y as i64;
    let xlo: i64 = if xi - r < 0 { 0 } else { xi - r };
    let xhi: i64 = if xi + r + 1 > w { w } else { xi + r + 1 };
    let ylo: i64 = if yi - r < 0 { 0 } else { yi - r };
    let yhi: i64 = if yi + r + 1 > h { h } else { yi + r + 1 };
    proof {
        assert(0 < (xhi - xlo) * (yhi - ylo) <= w * h) by (nonlinear_arith)
            requires
                0 < yhi - ylo <= h,
                0 < xhi - xlo <= w,
        ;
    }
    let count: u64 = ((xhi - xlo) * (yhi - ylo)) as u64;
    let sum_r = window_sum(src, w, h, 0, xlo, xhi, ylo, yhi);
    let sum_g = window_sum(src, w, h, 1, xlo, xhi, ylo, yhi);
    let sum_b = window_sum(src, w, h, 2, xlo, xhi, ylo, yhi);
    let sum_a = window_sum(src, w, h, 3, xlo, xhi, ylo, yhi);
    proof {
        lemma_pixel_in_bounds(w as int, h as int, x as int, y as int);
    }
    let idx: usize = ((yi * w + xi) * 4) as usize;
    dst.set(idx, (sum_r / count) as u8);
    dst.set(idx + 1, (sum_g / count) as u8);
    dst.set(idx + 2, (sum_b / count) as u8);
    dst.set(idx + 3, (sum_a / count) as u8);
    proof {
        assert forall|i: int| 0 <= i < old(dst)@.len() && #[trigger] (i / 4) == y * width + x implies i
            == idx + i % 4 by {}
    }
}

/// Pixel `p` of a `w`-wide image lies at column `p % w` and row `p / w`.
proof fn lemma_pixel_coords(w: int, x: int, y: int)
    requires
        0 <= x < w,
        0 <= y,
    ensures
        (y * w + x) % w == x,
        (y * w + x) / w == y,
{
    lemma_fundamental_div_mod_converse(y * w + x, w, y, x);
}

/// One blur pass: every pixel of `dst` becomes the window mean of `temp_buffer`.
fn box_blur(width: i32, height: i32, temp_buffer: &[u8], dst: &mut Vec<u8>, r: i32)
    requires
        blur_dims_ok(width as int, height as int),
        0 <= r,
        temp_buffer@.len() == width * height * 4,
        old(dst)@.len() == temp_buffer@.len(),
    ensures
        final(dst)@ == blur_pass(temp_buffer@, width as int, height as int, r as int),
        (width == 0 || height == 0) ==> final(dst)@ == old(dst)@,
        r == 0 ==> final(dst)@ == temp_buffer@,
{
    proof {
        if r == 0 {
            lemma_pass_radius_zero(temp_buffer@, width as int, height as int);
        }
        if width == 0 || height == 0 {
            assert(temp_buffer@.len() == 0) by (nonlinear_arith)
                requires
                    width == 0 || height == 0,
                    temp_buffer@.len() == width * height * 4,
            ;
            assert(old(dst)@ =~= blur_pass(temp_buffer@, width as int, height as int, r as int));
        }
    }
    let ghost s = temp_buffer@;
    let ghost start = dst@;
    let ghost w = width as int;
    let ghost h = height as int;
    let mut y: i32 = 0;
    while y < height
        invariant
            0 <= y <= height,
            blur_dims_ok(w, h),
            w == width,
            h == height,
            0 <= r,
            s == temp_buffer@,
            s.len() == w * h * 4,
            dst@.len() == s.len(),
            start.len() == s.len(),
            forall|i: int|
                0 <= i < s.len() ==> #[trigger] dst@[i] == if i / 4 < y * w {
                    blur_pass(s, w, h, r as int)[i]
                } else {
                    start[i]
                },
        decreases height - y,
    {
        let mut x: i32 = 0;
        while x < width
            invariant
                0 <= x <= width,
                0 <= y < height,
                blur_dims_ok(w, h),
                w == width,
                h == height,
                0 <= r,
                s == temp_buffer@,
                s.len() == w * h * 4,
                dst@.len() == s.len(),
                start.len() == s.len(),
                forall|i: int|
                    0 <= i < s.len() ==> #[trigger] dst@[i] == if i / 4 < y * w + x {
                        blur_pass(s, w, h, r as int)[i]
                    } else {
                        start[i]
                    },
            decreases width - x,
        {
            let ghost before = dst@;
            blur_pixel(x, y, width, height, temp_buffer, dst, r);
            proof {
                lemma_pixel_coords(w, x as int, y as int);
                assert forall|i: int|
                    0 <= i < s.len() implies #[trigger] dst@[i] == if i / 4 < y * w + x + 1 {
                        blur_pass(s, w, h, r as int)[i]
                    } else {
                        start[i]
                    } by {
                    if i / 4 == y * w + x {
                        assert(dst@[i] == blurred_channel(s, w, h, r as int, x as int, y as int, i % 4));
                    } else {
                        assert(dst@[i] == before[i]);
                    }
                }
            }
            x = x + 1;
        }
        proof {
            assert(y * w + w == (y + 1) * w) by (nonlinear_arith);
        }
        y = y + 1;
    }
    proof {
        assert(y * w == w * h) by (nonlinear_arith)
            requires
                y == h,
        ;
        assert forall|i: int| 0 <= i < s.len() implies #[trigger] (i / 4) < y * w by {}
        assert(dst@ =~= blur_pass(s, w, h, r as int));
    }
}

/// Byte count of a `width x height` RGBA image in the blur's `i32` arithmetic,
/// or `None` where a product leaves the `i32` range.
pub fn get_size(width: i32, height: i32) -> (r: Option<i32>)
    ensures
        r == (if i32::MIN <= width * height <= i32::MAX && i32::MIN <= width * height * 4 <= i32::MAX {
            Some((width * height * 4) as i32)
        } else {
            None::<i32>
        }),
{
    match width.checked_mul(height) {
        Some(p) => p.checked_mul(4),
        None => None,
    }
}

/// Settings of the box blur.
#[derive(Clone, Copy, Debug, PartialEq, Eq, Structural)]
pub struct BlurParams {
    /// Half the side of the square window, in pixels.
    pub radius: u32,
    /// Number of passes; each one reads the result of the one before.
    pub iterations: usize,
}

/// The blur settings made of a radius and a pass count as read, where both
/// were read and fit their types.
pub open spec fn blur_params_of(radius: Option<u64>, iterations: Option<u64>) -> Option<BlurParams> {
    match (radius, iterations) {
        (Some(r), Some(n)) => if r <= u32::MAX && n <= usize::MAX {
            Some(BlurParams { radius: r as u32, iterations: n as usize })
        } else {
            None
        },
        _ => None,
    }
}

/// The blur settings that the JSON object `text` gives in its fields
/// `radius` and `iterations`.
pub open spec fn blur_params_in(text: Seq<char>) -> Option<BlurParams> {
    blur_params_of(json_u64_at(text, "radius"@), json_u64_at(text, "iterations"@))
}

impl BlurParams {
    /// Builds the settings from a radius and a pass count as read; `None`
    /// where one is missing or does not fit its type.
    pub fn from_fields(radius: Option<u64>, iterations: Option<u64>) -> (r: Option<BlurParams>)
        ensures
            r == blur_params_of(radius, iterations),
    {
        match (radius, iterations) {
            (Some(rad), Some(n)) => {
                if rad <= u32::MAX as u64 && n <= usize::MAX as u64 {
                    Some(BlurParams { radius: rad as u32, iterations: n as usize })
                } else {
                    None
                }
            },
            _ => None,
        }
    }

    /// Reads the settings from a JSON object with the unsigned integer fields
    /// `radius` and `iterations`; `None` where the text is malformed.
    pub fn parse_json(json: &str) -> (r: Option<BlurParams>)
        ensures
            r == blur_params_in(json@),
    {
        let radius = read_u64_field(json, "radius");
        let iterations = read_u64_field(json, "iterations");
        BlurParams::from_fields(radius, iterations)
    }
}

/// Whether `blur_image` accepts a `width x height` image held in `len` bytes:
/// the buffer holds four bytes for each pixel, and the byte count fits `i32`
/// unless the image has no pixels.
pub open spec fn blur_accepts(width: u32, height: u32, len: int) -> bool {
    len == width * height * 4 && (width == 0 || height == 0 || width * height * 4 <= i32::MAX)
}

/// Copies the bytes of `v` into a new vector.
fn snapshot(v: &Vec<u8>) -> (r: Vec<u8>)
    ensures
        r@ == v@,
{
    let mut r: Vec<u8> = Vec::with_capacity(v.len());
    let mut i: usize = 0;
    while i < v.len()
        invariant
            i <= v@.len(),
            r@ == v@.subrange(0, i as int),
        decreases v@.len() - i,
    {
        r.push(v[i]);
        i = i + 1;
        assert(r@ =~= v@.subrange(0, i as int));
    }
    assert(r@ =~= v@);
    r
}

/// Blurs `rgba`, a `width x height` RGBA image, in place: `iterations` passes of
/// the window mean of radius `radius`, each over a snapshot of the buffer taken
/// before it. An image without pixels is left as it is. A radius that reaches
/// past every edge acts as one that just covers the image. Returns `0` on
/// success. Returns `-1`, and leaves `rgba` as it was, where the byte count of
/// an image with pixels overflows `i32`, or where `rgba` does not hold exactly
/// four bytes for each pixel.
pub fn blur_image(width: u32, height: u32, rgba: &mut Vec<u8>, params: &BlurParams) -> (r: i32)
    ensures
        r == 0 || r == -1,
        r == 0 <==> blur_accepts(width, height, old(rgba)@.len() as int),
        r == 0 ==> final(rgba)@ == blur_iterated(
            old(rgba)@,
            width as int,
            height as int,
            params.radius as int,
            params.iterations as nat,
        ),
        r != 0 ==> final(rgba)@ == old(rgba)@,
        (width == 0 || height == 0) ==> final(rgba)@ == old(rgba)@,
        params.radius == 0 ==> final(rgba)@ == old(rgba)@,
{
    if width == 0 || height == 0 {
        if rgba.len() != 0 {
            return -1;
        }
        proof {
            lemma_blur_iterated_len(rgba@, width as int, height as int, params.radius as int, params.iterations as nat);
            assert(rgba@ =~= blur_iterated(rgba@, width as int, height as int, params.radius as int, params.iterations as nat));
        }
        return 0;
    }
    if width > i32::MAX as u32 || height > i32::MAX as u32 {
        proof {
            assert(width * height * 4 > i32::MAX) by (nonlinear_arith)
                requires
                    width >= 1,
                    height >= 1,
                    width > i32::MAX || height > i32::MAX,
            ;
        }
        return -1;
    }
    let radius: i32 = if params.radius > i32::MAX as u32 { i32::MAX } else { params.radius as i32 };
    let w: i32 = width as i32;
    let h: i32 = height as i32;
    let size: i32 = match get_size(w, h) {
        Some(s) => s,
        None => {
            proof {
                if w * h <= i32::MAX {
                    assert(0 <= w * h) by (nonlinear_arith)
                        requires
                            0 <= w,
                            0 <= h,
                    ;
                }
            }
            return -1;
        },
    };
    proof {
        assert(0 <= w * h) by (nonlinear_arith)
            requires
                0 <= w,
                0 <= h,
        ;
    }
    if rgba.len() != size as usize {
        return -1;
    }
    let ghost start = rgba@;
    let mut k: usize = 0;
    while k < params.iterations
        invariant
            k <= params.iterations,
            blur_dims_ok(w as int, h as int),
            w == width,
            h == height,
            0 <= radius <= params.radius,
            radius == params.radius || radius == i32::MAX,
            w >= 1,
            h >= 1,
            rgba@.len() == w * h * 4,
            rgba@ == blur_iterated(start, w as int, h as int, params.radius as int, k as nat),
        decreases params.iterations - k,
    {
        let temp_buffer = snapshot(rgba);
        box_blur(w, h, temp_buffer.as_slice(), rgba, radius);
        proof {
            if radius != params.radius {
                assert(w <= radius && h <= radius) by (nonlinear_arith)
                    requires
                        w * h * 4 <= i32::MAX,
                        w >= 1,
                        h >= 1,
                        radius == i32::MAX,
                ;
                lemma_pass_wide_radius(temp_buffer@, w as int, h as int, radius as int, params.radius as int);
            }
        }
        k = k + 1;
    }
    proof {
        lemma_blur_iterated_len(start, w as int, h as int, params.radius as int, k as nat);
        if radius == 0 {
            lemma_blur_radius_zero_identity(start, w as int, h as int, k as nat);
        }
        if w == 0 || h == 0 {
            assert(start.len() == 0) by (nonlinear_arith)
                requires
                    w == 0 || h == 0,
                    start.len() == w * h * 4,
            ;
            assert(rgba@ =~= start);
        }
    }
    0
}

/// What blurring `before`, a `width x height` RGBA image, with the settings of
/// the JSON object `params` gives: status `0` and the blurred image where the
/// settings are well formed and `blur_image` accepts them, else status `-1` and
/// the image as it was.
pub open spec fn blur_outcome(width: u32, height: u32, before: Seq<u8>, params: Seq<char>, status: i32, after: Seq<u8>) -> bool {
    &&& status == 0 || status == -1
    &&& status == 0 <==> match blur_params_in(params) {
        Some(p) => blur_accepts(width, height, before.len() as int),
        None => false,
    }
    &&& status == 0 ==> after == blur_iterated(
        before,
        width as int,
        height as int,
        blur_params_in(params).unwrap().radius as int,
        blur_params_in(params).unwrap().iterations as nat,
    )
    &&& status != 0 ==> after == before
    &&& after.len() == before.len()
}

/// Blurs `rgba` in place with the settings of the JSON object `params`.
/// Returns `-1`, and leaves `rgba` as it was, where `params` is malformed;
/// otherwise does what `blur_image` does with those settings.
pub fn process_image(width: u32, height: u32, rgba: &mut Vec<u8>, params: &str) -> (r: i32)
    ensures
        blur_outcome(width, height, old(rgba)@, params@, r, final(rgba)@),
{
    match BlurParams::parse_json(params) {
        Some(p) => {
            let r = blur_image(width, height, rgba, &p);
            proof {
                lemma_blur_iterated_len(old(rgba)@, width as int, height as int, p.radius as int, p.iterations as nat);
            }
            r
        },
        None => -1,
    }
}

/// Once a window reaches past every edge of the image, a wider one gives the
/// same blur pass.
pub proof fn lemma_pass_wide_radius(s: Seq<u8>, w: int, h: int, r1: int, r2: int)
    requires
        0 <= w <= r1,
        0 <= h <= r1,
        r1 <= r2,
        s.len() == w * h * 4,
    ensures
        blur_pass(s, w, h, r1) == blur_pass(s, w, h, r2),
{
    assert forall|i: int| 0 <= i < s.len() implies #[trigger] blur_pass(s, w, h, r1)[i] == blur_pass(
        s,
        w,
        h,
        r2,
    )[i] by {
        assert(w > 0) by (nonlinear_arith)
            requires
                0 <= i < w * h * 4,
                0 <= h,
        ;
        let q = i / 4;
        vstd::arithmetic::div_mod::lemma_div_pos_is_pos(i, 4);
        vstd::arithmetic::div_mod::lemma_mod_pos_bound(q, w);
        vstd::arithmetic::div_mod::lemma_div_pos_is_pos(q, w);
        let x = q % w;
        let y = q / w;
        vstd::arithmetic::div_mod::lemma_fundamental_div_mod(i, 4);
        vstd::arithmetic::div_mod::lemma_fundamental_div_mod(q, w);
        assert(y < h) by (nonlinear_arith)
            requires
                q == w * y + x,
                q < w * h,
                0 <= x,
                w > 0,
        ;
        assert(window_lo(x, r1) == 0 && window_lo(x, r2) == 0);
        assert(window_hi(x, r1, w) == w && window_hi(x, r2, w) == w);
        assert(window_lo(y, r1) == 0 && window_lo(y, r2) == 0);
        assert(window_hi(y, r1, h) == h && window_hi(y, r2, h) == h);
        assert(window_count(w, h, r1, x, y) == window_count(w, h, r2, x, y));
    }
    assert(blur_pass(s, w, h, r1) =~= blur_pass(s, w, h, r2));
}

/// One blur pass of radius zero leaves the image as it was: a pixel's window
/// of radius zero is the pixel alone.
pub proof fn lemma_pass_radius_zero(s: Seq<u8>, w: int, h: int)
    requires
        0 <= w,
        0 <= h,
        s.len() == w * h * 4,
    ensures
        blur_pass(s, w, h, 0) == s,
{
    assert forall|i: int| 0 <= i < s.len() implies #[trigger] blur_pass(s, w, h, 0)[i] == s[i] by {
        let p = i / 4;
        let c = i % 4;
        assert(w > 0) by (nonlinear_arith)
            requires
                0 <= i < w * h * 4,
                0 <= h,
        ;
        let x = p % w;
        let y = p / w;
        vstd::arithmetic::div_mod::lemma_fundamental_div_mod(i, 4);
        vstd::arithmetic::div_mod::lemma_fundamental_div_mod(p, w);
        vstd::arithmetic::div_mod::lemma_mod_pos_bound(p, w);
        assert(p == y * w + x) by (nonlinear_arith)
            requires
                p == w * y + x,
        ;
        assert(y < h) by (nonlinear_arith)
            requires
                y * w + x == p,
                p < w * h,
                0 <= x,
                w > 0,
        ;
        assert(y >= 0) by (nonlinear_arith)
            requires
                y * w + x == p,
                p >= 0,
                x < w,
                w > 0,
        ;
        assert(window_lo(x, 0) == x && window_hi(x, 0, w) == x + 1);
        assert(window_lo(y, 0) == y && window_hi(y, 0, h) == y + 1);
        let a = window_hi(x, 0, w) - window_lo(x, 0);
        let b = window_hi(y, 0, h) - window_lo(y, 0);
        assert(a * b == 1) by (nonlinear_arith)
            requires
                a == 1,
                b == 1,
        ;
        assert(window_count(w, h, 0, x, y) == 1);
        assert(row_sum(s, w, y, c, x, x) == 0);
        assert(rect_sum(s, w, c, x, x + 1, y, y) == 0);
        assert(row_sum(s, w, y, c, x, x + 1) == s[(y * w + x) * 4 + c]);
        assert(rect_sum(s, w, c, x, x + 1, y, y + 1) == s[i]);
    }
    assert(blur_pass(s, w, h, 0) =~= s);
}

/// A box blur of radius zero, run any number of times, leaves the image as it was.
pub proof fn lemma_blur_radius_zero_identity(s: Seq<u8>, w: int, h: int, n: nat)
    requires
        0 <= w,
        0 <= h,
        s.len() == w * h * 4,
    ensures
        blur_iterated(s, w, h, 0, n) == s,
    decreases n,
{
    if n > 0 {
        lemma_blur_radius_zero_identity(s, w, h, (n - 1) as nat);
        lemma_pass_radius_zero(s, w, h);
    }
}

/// The buffer `s` with channel `c` of each pixel taken from its channel `p[c]`.
pub open spec fn permute_channels(s: Seq<u8>, p: Seq<int>) -> Seq<u8> {
    Seq::new(s.len(), |i: int| s[i - i % 4 + p[i % 4]])
}

/// `p` maps each of the four channels to one of the four channels.
pub open spec fn is_channel_map(p: Seq<int>) -> bool {
    p.len() == 4 && forall|c: int| 0 <= c < 4 ==> 0 <= #[trigger] p[c] < 4
}

proof fn lemma_row_sum_permuted(s: Seq<u8>, p: Seq<int>, w: int, h: int, y: int, c: int, lo: int, hi: int)
    requires
        0 <= w,
        0 <= y < h,
        s.len() == w * h * 4,
        is_channel_map(p),
        0 <= c < 4,
        0 <= lo,
        hi <= w,
    ensures
        row_sum(permute_channels(s, p), w, y, c, lo, hi) == row_sum(s, w, y, p[c], lo, hi),
    decreases hi - lo,
{
    if lo < hi {
        lemma_row_sum_permuted(s, p, w, h, y, c, lo, hi - 1);
        let q = y * w + hi - 1;
        lemma_pixel_in_bounds(w, h, hi - 1, y);
        lemma_fundamental_div_mod_converse(q * 4 + c, 4, q, c);
    }
}

proof fn lemma_rect_sum_permuted(s: Seq<u8>, p: Seq<int>, w: int, h: int, c: int, xlo: int, xhi: int, ylo: int, yhi: int)
    requires
        0 <= w,
        s.len() == w * h * 4,
        is_channel_map(p),
        0 <= c < 4,
        0 <= xlo,
        xhi <= w,
        0 <= ylo,
        yhi <= h,
    ensures
        rect_sum(permute_channels(s, p), w, c, xlo, xhi, ylo, yhi) == rect_sum(s, w, p[c], xlo, xhi, ylo, yhi),
    decreases yhi - ylo,
{
    if ylo < yhi {
        lemma_rect_sum_permuted(s, p, w, h, c, xlo, xhi, ylo, yhi - 1);
        lemma_row_sum_permuted(s, p, w, h, yhi - 1, c, xlo, xhi);
    }
}

/// One blur pass treats the channels alike.
pub proof fn lemma_pass_permuted(s: Seq<u8>, p: Seq<int>, w: int, h: int, r: int)
    requires
        0 <= w,
        0 <= h,
        0 <= r,
        s.len() == w * h * 4,
        is_channel_map(p),
    ensures
        blur_pass(permute_channels(s, p), w, h, r) == permute_channels(blur_pass(s, w, h, r), p),
{
    let ps = permute_channels(s, p);
    assert forall|i: int| 0 <= i < s.len() implies #[trigger] blur_pass(ps, w, h, r)[i]
        == permute_channels(blur_pass(s, w, h, r), p)[i] by {
        let q = i / 4;
        let c = i % 4;
        let j = i - c + p[c];
        vstd::arithmetic::div_mod::lemma_fundamental_div_mod(i, 4);
        lemma_fundamental_div_mod_converse(j, 4, q, p[c]);
        assert(w > 0) by (nonlinear_arith)
            requires
                0 <= i < w * h * 4,
                0 <= h,
        ;
        let x = q % w;
        let y = q / w;
        vstd::arithmetic::div_mod::lemma_fundamental_div_mod(q, w);
        vstd::arithmetic::div_mod::lemma_mod_pos_bound(q, w);
        assert(q == y * w + x) by (nonlinear_arith)
            requires
                q == w * y + x,
        ;
        assert(0 <= y < h) by (nonlinear_arith)
            requires
                y * w + x == q,
                0 <= q < w * h,
                0 <= x < w,
                w > 0,
        ;
        assert(0 <= j < s.len()) by (nonlinear_arith)
            requires
                j == q * 4 + p[c],
                0 <= p[c] < 4,
                0 <= q < w * h,
                s.len() == w * h * 4,
        ;
        lemma_rect_sum_permuted(s, p, w, h, c, window_lo(x, r), window_hi(x, r, w), window_lo(y, r), window_hi(y, r, h));
    }
    assert(blur_pass(ps, w, h, r) =~= permute_channels(blur_pass(s, w, h, r), p));
}

/// The box blur treats the channels alike: blurring an image whose channels
/// were rearranged gives the blurred image with its channels rearranged the
/// same way.
pub proof fn lemma_blur_channel_independent(s: Seq<u8>, p: Seq<int>, w: int, h: int, r: int, n: nat)
    requires
        0 <= w,
        0 <= h,
        0 <= r,
        s.len() == w * h * 4,
        is_channel_map(p),
    ensures
        blur_iterated(permute_channels(s, p), w, h, r, n) == permute_channels(blur_iterated(s, w, h, r, n), p),
    decreases n,
{
    if n > 0 {
        let prev = blur_iterated(s, w, h, r, (n - 1) as nat);
        lemma_blur_channel_independent(s, p, w, h, r, (n - 1) as nat);
        lemma_blur_iterated_len(s, w, h, r, (n - 1) as nat);
        lemma_pass_permuted(prev, p, w, h, r);
    }
}

/// Blurring keeps the buffer's length.
pub proof fn lemma_blur_iterated_len(s: Seq<u8>, w: int, h: int, r: int, n: nat)
    ensures
        blur_iterated(s, w, h, r, n).len() == s.len(),
    decreases n,
{
    if n > 0 {
        lemma_blur_iterated_len(s, w, h, r, (n - 1) as nat);
    }
}

} // verus!
