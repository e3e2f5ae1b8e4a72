//! In-place horizontal and vertical mirroring of an RGBA8 buffer.
use vstd::arithmetic::div_mod::{
    lemma_fundamental_div_mod,
    lemma_fundamental_div_mod_converse,
    lemma_mod_pos_bound,
};
use crate::params::{json_bool_at, read_bool_field};
use vstd::prelude::*;

verus! {

/// Column of the pixel that holds byte `i` in a `w`-wide image.
pub open spec fn col_of(i: int, w: int) -> int {
    (i / 4) % w
}

/// Row of the pixel that holds byte `i` in a `w`-wide image.
pub open spec fn row_of(i: int, w: int) -> int {
    (i / 4) / w
}

/// `s` with each row reversed pixel by pixel; the four bytes of a pixel stay together.
pub open spec fn hflip(s: Seq<u8>, w: int) -> Seq<u8> {
    Seq::new(s.len(), |i: int| s[(row_of(i, w) * w + (w - 1 - col_of(i, w))) * 4 + i % 4])
}

/// `s` with its `h` rows in reverse order.
pub open spec fn vflip(s: Seq<u8>, w: int, h: int) -> Seq<u8> {
    Seq::new(s.len(), |i: int| s[((h - 1 - row_of(i, w)) * w + col_of(i, w)) * 4 + i % 4])
}

/// Byte `i` of a `w x h` image splits into its pixel's column and row and its channel.
proof fn lemma_byte_coords(i: int, w: int, h: int)
    requires
        0 <= w,
        0 <= h,
        0 <= i < w * h * 4,
    ensures
        w > 0,
        0 <= col_of(i, w) < w,
        0 <= row_of(i, w) < h,
        0 <= i % 4 < 4,
        i == (row_of(i, w) * w + col_of(i, w)) * 4 + i % 4,
{
    assert(w > 0) by (nonlinear_arith)
        requires
            0 <= i < w * h * 4,
            0 <= h,
    ;
    let p = i / 4;
    lemma_fundamental_div_mod(i, 4);
    lemma_fundamental_div_mod(p, w);
    lemma_mod_pos_bound(p, w);
    let x = p % w;
    let y = p / w;
    assert(p == y * w + x) by (nonlinear_arith)
        requires
            p == w * y + x,
    ;
    assert(0 <= y < h) by (nonlinear_arith)
        requires
            y * w + x == p,
            0 <= p < w * h,
            0 <= x < w,
            w > 0,
    ;
}

/// The byte of channel `c` of pixel `(x, y)` lies in a `w x h` image and
/// splits back into `x`, `y` and `c`.
proof fn lemma_coords_byte(x: int, y: int, c: int, w: int, h: int)
    requires
        0 <= x < w,
        0 <= y < h,
        0 <= c < 4,
    ensures
        0 <= (y * w + x) * 4 + c < w * h * 4,
        col_of((y * w + x) * 4 + c, w) == x,
        row_of((y * w + x) * 4 + c, w) == y,
        ((y * w + x) * 4 + c) % 4 == c,
{
    assert(0 <= y * w + x < w * h) by (nonlinear_arith)
        requires
            0 <= x < w,
            0 <= y < h,
    ;
    lemma_fundamental_div_mod_converse((y * w + x) * 4 + c, 4, y * w + x, c);
    lemma_fundamental_div_mod_converse(y * w + x, w, y, x);
}

/// Exchanges the four bytes of pixel `a` with those of pixel `b`.
fn swap_pixel(v: &mut Vec<u8>, a: usize, b: usize)
    requires
        a != b,
        a * 4 + 4 <= old(v)@.len(),
        b * 4 + 4 <= old(v)@.len(),
    ensures
        final(v)@.len() == old(v)@.len(),
        forall|i: int|
            0 <= i < old(v)@.len() ==> #[trigger] final(v)@[i] == if i / 4 == a {
                old(v)@[b * 4 + i % 4]
            } else if i / 4 == b {
                old(v)@[a * 4 + i % 4]
            } else {
                old(v)@[i]
            },
{
    let n: usize = v.len();
    let mut k: usize = 0;
    while k < 4
        invariant
            k <= 4,
            n == old(v)@.len(),
            a != b,
            a * 4 + 4 <= old(v)@.len(),
            b * 4 + 4 <= old(v)@.len(),
            v@.len() == old(v)@.len(),
            forall|i: int|
                0 <= i < old(v)@.len() ==> #[trigger] v@[i] == if i / 4 == a && i % 4 < k {
                    old(v)@[b * 4 + i % 4]
                } else if i / 4 == b && i % 4 < k {
                    old(v)@[a * 4 + i % 4]
                } else {
                    old(v)@[i]
                },
        decreases 4 - k,
    {
        let left: u8 = v[a * 4 + k];
        let right: u8 = v[b * 4 + k];
        v.set(a * 4 + k, right);
        v.set(b * 4 + k, left);
        k = k + 1;
    }
}

/// Byte count of a `width x height` RGBA image, or `None` where it overflows `u32`.
pub fn get_size(width: u32, height: u32) -> (r: Option<u32>)
    ensures
        r == (if width * height * 4 <= u32::MAX {
            Some((width * height * 4) as u32)
        } else {
            None::<u32>
        }),
{
    proof {
        assert(width * height <= width * height * 4) by (nonlinear_arith)
            requires
                0 <= width,
                0 <= height,
        ;
    }
    match width.checked_mul(height) {
        Some(p) => p.checked_mul(4),
        None => None,
    }
}

/// Whether a flip accepts a `width x height` image held in `len` bytes.
pub open spec fn flip_accepts(width: u32, height: u32, len: int) -> bool {
    width * height * 4 <= u32::MAX && len == width * height * 4
}

/// Byte `i` already holds its mirrored value once rows before `y`, and the
/// outer `x` pixels at each end of row `y`, have been exchanged.
spec fn hflip_done(i: int, w: int, y: int, x: int) -> bool {
    row_of(i, w) < y || (row_of(i, w) == y && (col_of(i, w) < x || col_of(i, w) >= w - x))
}

/// Mirrors each row of `rgba`, a `width x height` RGBA image, in place. An
/// image without pixels is left as it is and counts as success. Otherwise
/// returns `None`, and leaves `rgba` as it was, where the byte count overflows
/// `u32` or `rgba` does not hold exactly that many bytes.
pub fn flip_horizontal(width: u32, height: u32, rgba: &mut Vec<u8>) -> (r: Option<()>)
    ensures
        r is Some <==> (width == 0 || height == 0 || flip_accepts(width, height, old(rgba)@.len() as int)),
        (width == 0 || height == 0) ==> final(rgba)@ == old(rgba)@,
        flip_accepts(width, height, old(rgba)@.len() as int) ==> final(rgba)@ == hflip(old(rgba)@, width as int),
        r is None ==> final(rgba)@ == old(rgba)@,
{
    if width == 0 || height == 0 {
        proof {
            if rgba@.len() == width * height * 4 {
                lemma_flip_zero_area(rgba@, width as int, height as int);
            }
        }
        return Some(());
    }
    let size = get_size(width, height);
    if size.is_none() || rgba.len() != size.unwrap() as usize {
        return None;
    }
    let ghost start = rgba@;
    let ghost w = width as int;
    let ghost h = height as int;
    let mut y: u32 = 0;
    while y < height
        invariant
            0 <= y <= height,
            w == width,
            h == height,
            w * h * 4 <= u32::MAX,
            start.len() == w * h * 4,
            rgba@.len() == start.len(),
            forall|i: int|
                0 <= i < start.len() ==> #[trigger] rgba@[i] == if row_of(i, w) < y {
                    hflip(start, w)[i]
                } else {
                    start[i]
                },
        decreases height - y,
    {
        let mut x: u32 = 0;
        while x < width / 2
            invariant
                0 <= x <= width / 2,
                0 <= y < height,
                w == width,
                h == height,
                w * h * 4 <= u32::MAX,
                start.len() == w * h * 4,
                rgba@.len() == start.len(),
                forall|i: int|
                    0 <= i < start.len() ==> #[trigger] rgba@[i] == if hflip_done(i, w, y as int, x as int) {
                        hflip(start, w)[i]
                    } else {
                        start[i]
                    },
            decreases width / 2 - x,
        {
            let ghost before = rgba@;
            proof {
                lemma_coords_byte(x as int, y as int, 0, w, h);
                lemma_coords_byte(w - 1 - x, y as int, 0, w, h);
            }
            let left: usize = (y * width + x) as usize;
            let right: usize = (y * width + (width - 1 - x)) as usize;
            swap_pixel(rgba, left, right);
            proof {
                assert forall|i: int| 0 <= i < start.len() implies #[trigger] rgba@[i] == if hflip_done(
                    i,
                    w,
                    y as int,
                    x + 1,
                ) {
                    hflip(start, w)[i]
                } else {
                    start[i]
                } by {
                    lemma_byte_coords(i, w, h);
                    let c = i % 4;
                    if i / 4 == left {
                        lemma_coords_byte(w - 1 - x, y as int, c, w, h);
                    } else if i / 4 == right {
                        lemma_coords_byte(x as int, y as int, c, w, h);
                    } else {
                        assert(rgba@[i] == before[i]);
                    }
                }
            }
            x = x + 1;
        }
        proof {
            assert forall|i: int| 0 <= i < start.len() implies #[trigger] rgba@[i] == if row_of(i, w) < y + 1 {
                hflip(start, w)[i]
            } else {
                start[i]
            } by {
                lemma_byte_coords(i, w, h);
                if row_of(i, w) == y && !hflip_done(i, w, y as int, x as int) {
                    assert(col_of(i, w) == w - 1 - col_of(i, w));
                }
            }
        }
        y = y + 1;
    }
    proof {
        assert forall|i: int| 0 <= i < start.len() implies #[trigger] rgba@[i] == hflip(start, w)[i] by {
            lemma_byte_coords(i, w, h);
        }
        assert(rgba@ =~= hflip(start, w));
    }
    Some(())
}

/// Byte `i` already holds its mirrored value once the outer `y` rows at each
/// end, and the first `x` pixels of rows `y` and `h - 1 - y`, have been exchanged.
spec fn vflip_done(i: int, w: int, h: int, y: int, x: int) -> bool {
    row_of(i, w) < y || row_of(i, w) >= h - y || ((row_of(i, w) == y || row_of(i, w) == h - 1 - y)
        && col_of(i, w) < x)
}

/// Reverses the order of the rows of `rgba`, a `width x height` RGBA image, in
/// place. An image without pixels is left as it is and counts as success.
/// Otherwise returns `None`, and leaves `rgba` as it was, where the byte count
/// overflows `u32` or `rgba` does not hold exactly that many bytes.
pub fn flip_vertical(width: u32, height: u32, rgba: &mut Vec<u8>) -> (r: Option<()>)
    ensures
        r is Some <==> (width == 0 || height == 0 || flip_accepts(width, height, old(rgba)@.len() as int)),
        (width == 0 || height == 0) ==> final(rgba)@ == old(rgba)@,
        flip_accepts(width, height, old(rgba)@.len() as int) ==> final(rgba)@ == vflip(old(rgba)@, width as int, height as int),
        r is None ==> final(rgba)@ == old(rgba)@,
{
    if width == 0 || height == 0 {
        proof {
            if rgba@.len() == width * height * 4 {
                lemma_flip_zero_area(rgba@, width as int, height as int);
            }
        }
        return Some(());
    }
    let size = get_size(width, height);
    if size.is_none() || rgba.len() != size.unwrap() as usize {
        return None;
    }
    let ghost start = rgba@;
    let ghost w = width as int;
    let ghost h = height as int;
    proof {
        assert forall|i: int| 0 <= i < start.len() implies !#[trigger] vflip_done(i, w, h, 0, 0) by {
            lemma_byte_coords(i, w, h);
        }
    }
    let mut y: u32 = 0;
    while y < height / 2
        invariant
            0 <= y <= height / 2,
            w == width,
            h == height,
            w * h * 4 <= u32::MAX,
            start.len() == w * h * 4,
            rgba@.len() == start.len(),
            forall|i: int|
                0 <= i < start.len() ==> #[trigger] rgba@[i] == if vflip_done(i, w, h, y as int, 0) {
                    vflip(start, w, h)[i]
                } else {
                    start[i]
                },
        decreases height / 2 - y,
    {
        let mut x: u32 = 0;
        while x < width
            invariant
                0 <= x <= width,
                0 <= y < height / 2,
                w == width,
                h == height,
                w * h * 4 <= u32::MAX,
                start.len() == w * h * 4,
                rgba@.len() == start.len(),
                forall|i: int|
                    0 <= i < start.len() ==> #[trigger] rgba@[i] == if vflip_done(i, w, h, y as int, x as int) {
                        vflip(start, w, h)[i]
                    } else {
                        start[i]
                    },
            decreases width - x,
        {
            let ghost before = rgba@;
            proof {
                lemma_coords_byte(x as int, y as int, 0, w, h);
                lemma_coords_byte(x as int, h - 1 - y, 0, w, h);
            }
            let top: usize = (y * width + x) as usize;
            let bottom: usize = ((height - 1 - y) * width + x) as usize;
            swap_pixel(rgba, top, bottom);
            proof {
                assert forall|i: int| 0 <= i < start.len() implies #[trigger] rgba@[i] == if vflip_done(
                    i,
                    w,
                    h,
                    y as int,
                    x + 1,
                ) {
                    vflip(start, w, h)[i]
                } else {
                    start[i]
                } by {
                    lemma_byte_coords(i, w, h);
                    let c = i % 4;
                    if i / 4 == top {
                        lemma_coords_byte(x as int, h - 1 - y, c, w, h);
                    } else if i / 4 == bottom {
                        lemma_coords_byte(x as int, y as int, c, w, h);
                    } else {
                        assert(rgba@[i] == before[i]);
                    }
                }
            }
            x = x + 1;
        }
        proof {
            assert forall|i: int| 0 <= i < start.len() implies #[trigger] rgba@[i] == if vflip_done(
                i,
                w,
                h,
                y + 1,
                0,
            ) {
                vflip(start, w, h)[i]
            } else {
                start[i]
            } by {
                lemma_byte_coords(i, w, h);
            }
        }
        y = y + 1;
    }
    proof {
        assert forall|i: int| 0 <= i < start.len() implies #[trigger] rgba@[i] == vflip(start, w, h)[i] by {
            lemma_byte_coords(i, w, h);
            if !vflip_done(i, w, h, y as int, 0) {
                assert(row_of(i, w) == h - 1 - row_of(i, w));
            }
        }
        assert(rgba@ =~= vflip(start, w, h));
    }
    Some(())
}

/// Mirroring each row twice gives back the image.
pub proof fn lemma_hflip_involutive(s: Seq<u8>, w: int, h: int)
    requires
        0 <= w,
        0 <= h,
        s.len() == w * h * 4,
    ensures
        hflip(hflip(s, w), w) == s,
{
    assert forall|i: int| 0 <= i < s.len() implies #[trigger] hflip(hflip(s, w), w)[i] == s[i] by {
        lemma_byte_coords(i, w, h);
        lemma_coords_byte(w - 1 - col_of(i, w), row_of(i, w), i % 4, w, h);
    }
    assert(hflip(hflip(s, w), w) =~= s);
}

/// Reversing the order of the rows twice gives back the image.
pub proof fn lemma_vflip_involutive(s: Seq<u8>, w: int, h: int)
    requires
        0 <= w,
        0 <= h,
        s.len() == w * h * 4,
    ensures
        vflip(vflip(s, w, h), w, h) == s,
{
    assert forall|i: int| 0 <= i < s.len() implies #[trigger] vflip(vflip(s, w, h), w, h)[i] == s[i] by {
        lemma_byte_coords(i, w, h);
        lemma_coords_byte(col_of(i, w), h - 1 - row_of(i, w), i % 4, w, h);
    }
    assert(vflip(vflip(s, w, h), w, h) =~= s);
}

/// An image without pixels is its own mirror image, both ways.
pub proof fn lemma_flip_zero_area(s: Seq<u8>, w: int, h: int)
    requires
        w == 0 || h == 0,
        s.len() == w * h * 4,
    ensures
        hflip(s, w) == s,
        vflip(s, w, h) == s,
{
    assert(s.len() == 0) by (nonlinear_arith)
        requires
            w == 0 || h == 0,
            s.len() == w * h * 4,
    ;
    assert(hflip(s, w) =~= s);
    assert(vflip(s, w, h) =~= s);
}

/// Which mirrorings to apply.
#[derive(Clone, Copy, Debug, PartialEq, Eq, Structural)]
pub struct MirrorParams {
    /// Reverse the order of the rows.
    pub vertical: bool,
    /// Reverse each row.
    pub horizontal: bool,
}

/// The image `s` after the mirrorings that `params` selects: the vertical one
/// first, then the horizontal one on its result.
pub open spec fn mirrored(s: Seq<u8>, w: int, h: int, params: MirrorParams) -> Seq<u8> {
    let v = if params.vertical { vflip(s, w, h) } else { s };
    if params.horizontal { hflip(v, w) } else { v }
}

/// Applies the mirrorings that `params` selects to `rgba`, a `width x height`
/// RGBA image, in place. An image without pixels is left as it is and counts as
/// success. Returns `0` on success; returns `-1`, and leaves `rgba` as it was,
/// where the byte count overflows `u32` or `rgba` does not hold exactly that
/// many bytes.
pub fn mirror_image(width: u32, height: u32, rgba: &mut Vec<u8>, params: &MirrorParams) -> (r: i32)
    ensures
        r == 0 || r == -1,
        r == 0 <==> (width == 0 || height == 0 || flip_accepts(width, height, old(rgba)@.len() as int)),
        (width == 0 || height == 0) ==> final(rgba)@ == old(rgba)@,
        r == 0 && width > 0 && height > 0 ==> final(rgba)@ == mirrored(
            old(rgba)@,
            width as int,
            height as int,
            *params,
        ),
        r != 0 ==> final(rgba)@ == old(rgba)@,
{
    if width == 0 || height == 0 {
        return 0;
    }
    let size = get_size(width, height);
    if size.is_none() || rgba.len() != size.unwrap() as usize {
        return -1;
    }
    if params.vertical {
        let _ = flip_vertical(width, height, rgba);
    }
    if params.horizontal {
        let _ = flip_horizontal(width, height, rgba);
    }
    0
}

/// The mirror settings made of the two flags as read, where both were read.
pub open spec fn mirror_params_of(vertical: Option<bool>, horizontal: Option<bool>) -> Option<MirrorParams> {
    match (vertical, horizontal) {
        (Some(v), Some(h)) => Some(MirrorParams { vertical: v, horizontal: h }),
        _ => None,
    }
}

/// The mirror settings that the JSON object `text` gives in its boolean
/// fields `vertical` and `horizontal`.
pub open spec fn mirror_params_in(text: Seq<char>) -> Option<MirrorParams> {
    mirror_params_of(json_bool_at(text, "vertical"@), json_bool_at(text, "horizontal"@))
}

impl MirrorParams {
    /// Builds the settings from the two flags as read; `None` where one is missing.
    pub fn from_fields(vertical: Option<bool>, horizontal: Option<bool>) -> (r: Option<MirrorParams>)
        ensures
            r == mirror_params_of(vertical, horizontal),
    {
        match (vertical, horizontal) {
            (Some(v), Some(h)) => Some(MirrorParams { vertical: v, horizontal: h }),
            _ => None,
        }
    }

    /// Reads the settings from a JSON object with the boolean fields
    /// `vertical` and `horizontal`; `None` where the text is malformed.
    pub fn parse_json(json: &str) -> (r: Option<MirrorParams>)
        ensures
            r == mirror_params_in(json@),
    {
        let vertical = read_bool_field(json, "vertical");
        let horizontal = read_bool_field(json, "horizontal");
        MirrorParams::from_fields(vertical, horizontal)
    }
}

/// What mirroring `before`, a `width x height` RGBA image, as the JSON object
/// `params` asks gives: an image without pixels stays as it is with status `0`;
/// otherwise status `0` and the mirrored image where the byte count fits `u32`,
/// `before` holds exactly that many bytes and `params` is well formed, else
/// status `-1` and the image as it was.
pub open spec fn mirror_outcome(width: u32, height: u32, before: Seq<u8>, params: Seq<char>, status: i32, after: Seq<u8>) -> bool {
    &&& status == 0 || status == -1
    &&& status == 0 <==> (width == 0 || height == 0 || (flip_accepts(width, height, before.len() as int)
        && mirror_params_in(params) is Some))
    &&& status == 0 && width > 0 && height > 0 ==> after == mirrored(
        before,
        width as int,
        height as int,
        mirror_params_in(params).unwrap(),
    )
    &&& status != 0 || width == 0 || height == 0 ==> after == before
    &&& after.len() == before.len()
}

/// Mirrors `rgba` in place as the JSON object `params` asks (see `mirror_outcome`).
pub fn process_image(width: u32, height: u32, rgba: &mut Vec<u8>, params: &str) -> (r: i32)
    ensures
        mirror_outcome(width, height, old(rgba)@, params@, r, final(rgba)@),
{
    if width == 0 || height == 0 {
        return 0;
    }
    let size = get_size(width, height);
    if size.is_none() || rgba.len() != size.unwrap() as usize {
        return -1;
    }
    match MirrorParams::parse_json(params) {
        Some(p) => mirror_image(width, height, rgba, &p),
        None => -1,
    }
}

} // verus!
