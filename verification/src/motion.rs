//! Motion scoring on grayscale frames.
//!
//! A frame is reduced to a small grayscale image and compared with a rolling background. The
//! library computes the grayscale sampling and the whole-frame and per-tile change counts; the
//! floating-point background model that marks which pixels changed runs in the application.

use vstd::prelude::*;
use crate::ffmpeg::{VideoFrame, frame_is_complete};

verus! {

/// `image::ImageError`, from JPEG encoding.
#[verifier::external_type_specification]
#[verifier::external_body]
pub struct ExImageError(image::ImageError);

/// The JPEG that `image`'s `JpegEncoder` produces for an RGB8 image at a quality.
pub uninterp spec fn jpeg_rgb8(rgb: Seq<u8>, width: u32, height: u32, quality: u8) -> Seq<u8>;

/// `image::codecs::jpeg::JpegEncoder::new_with_quality(..).encode(.., ExtendedColorType::Rgb8)`
/// into a byte vector. The encoder panics unless the buffer holds `width * height * 3` bytes;
/// it refuses (with an error) a width or height of zero or above 65535; writing into a vector
/// cannot fail otherwise. Its output begins with the JPEG start-of-image marker `FF D8`. The
/// bytes themselves are named, not described.
#[verifier::external_body]
fn encode_jpeg_rgb8(rgb: &[u8], width: u32, height: u32, quality: u8) -> (r: Result<Vec<u8>, image::ImageError>)
    requires
        rgb@.len() == width * height * 3,
    ensures
        r is Ok <==> (1 <= width <= 65535 && 1 <= height <= 65535),
        r matches Ok(bytes) ==> (bytes@ == jpeg_rgb8(rgb@, width, height, quality) && bytes@.len()
            >= 2 && bytes@[0] == 0xFF && bytes@[1] == 0xD8),
{
    let mut output = Vec::new();
    let mut encoder = image::codecs::jpeg::JpegEncoder::new_with_quality(&mut output, quality);
    encoder.encode(rgb, width, height, image::ExtendedColorType::Rgb8)?;
    Ok(output)
}

/// The frame as a JPEG at `quality`, for snapshots. Fails when the encoder refuses the frame
/// size (zero, or above 65535, in either direction).
pub fn encode_snapshot_jpeg(frame: &VideoFrame, quality: u8) -> (r: Result<Vec<u8>, image::ImageError>)
    requires
        frame_is_complete(frame),
    ensures
        r is Ok <==> (1 <= frame.width <= 65535 && 1 <= frame.height <= 65535),
        r matches Ok(bytes) ==> (bytes@ == jpeg_rgb8(frame.rgb@, frame.width, frame.height, quality)
            && bytes@.len() >= 2 && bytes@[0] == 0xFF && bytes@[1] == 0xD8),
{
    encode_jpeg_rgb8(frame.rgb.as_slice(), frame.width, frame.height, quality)
}


/// An exact fraction `numerator / denominator` of pixels.
#[derive(Clone, Copy, Debug, PartialEq, Eq, Structural)]
pub struct Ratio {
    pub numerator: u64,
    pub denominator: u64,
}

/// The scores carried by a motion event: the changed fraction of the whole frame and of the most
/// changed tile.
#[derive(Clone, Copy, Debug, PartialEq, Eq, Structural)]
pub struct MotionEvent {
    pub motion_ratio: Ratio,
    pub local_motion_ratio: Ratio,
}

/// The verdict on one frame: its scores and which thresholds they reached.
#[derive(Clone, Copy, Debug, PartialEq, Eq, Structural)]
pub struct MotionAnalysis {
    pub motion_ratio: Ratio,
    pub local_motion_ratio: Ratio,
    pub global_triggered: bool,
    pub local_triggered: bool,
}

impl MotionAnalysis {
    pub open spec fn spec_is_motion_active(self) -> bool {
        self.global_triggered || self.local_triggered
    }

    pub open spec fn spec_event(self) -> MotionEvent {
        MotionEvent { motion_ratio: self.motion_ratio, local_motion_ratio: self.local_motion_ratio }
    }

    /// A frame counts as active when either the whole-frame or the local threshold was reached.
    pub fn is_motion_active(self) -> (r: bool)
        ensures
            r == self.spec_is_motion_active(),
    {
        self.global_triggered || self.local_triggered
    }

    pub fn event(self) -> (r: MotionEvent)
        ensures
            r == self.spec_event(),
    {
        MotionEvent { motion_ratio: self.motion_ratio, local_motion_ratio: self.local_motion_ratio }
    }
}


// ---------------------------------------------------------------------------------------------
// Grayscale sampling
// ---------------------------------------------------------------------------------------------

/// Integer luma of one RGB pixel: `(77 r + 150 g + 29 b) >> 8`.
pub open spec fn luma(r: u8, g: u8, b: u8) -> int {
    (77 * r + 150 * g + 29 * b) / 256
}

/// Law: the grayscale weights sum to one: a gray pixel keeps its value, and every luma is a
/// byte value that grows with each channel.
pub proof fn law_luma_keeps_gray_and_grows(v: u8, r: u8, g: u8, b: u8, r2: u8, g2: u8, b2: u8)
    ensures
        luma(v, v, v) == v,
        0 <= luma(r, g, b) <= 255,
        (r <= r2 && g <= g2 && b <= b2) ==> luma(r, g, b) <= luma(r2, g2, b2),
{
    assert(77 * v + 150 * v + 29 * v == 256 * v);
    vstd::arithmetic::div_mod::lemma_div_multiples_vanish(v as int, 256);
    assert(256 * v == v * 256) by (nonlinear_arith);
    assert(77 * r + 150 * g + 29 * b <= 256 * 255);
    vstd::arithmetic::div_mod::lemma_div_is_ordered(77 * r + 150 * g + 29 * b, 65280int, 256);
    vstd::arithmetic::div_mod::lemma_div_multiples_vanish(255int, 256int);
    assert(256 * 255 == 255 * 256);
    if r <= r2 && g <= g2 && b <= b2 {
        vstd::arithmetic::div_mod::lemma_div_is_ordered(
            77 * r + 150 * g + 29 * b,
            77 * r2 + 150 * g2 + 29 * b2,
            256,
        );
    }
    vstd::arithmetic::div_mod::lemma_div_pos_is_pos(77 * r + 150 * g + 29 * b, 256);
}

/// The luma of source pixel `(x, y)` of a packed RGB image `width` pixels wide.
pub open spec fn pixel_luma(rgb: Seq<u8>, width: int, x: int, y: int) -> int {
    let i = (y * width + x) * 3;
    luma(rgb[i], rgb[i + 1], rgb[i + 2])
}

/// The sum of the lumas of pixels `x0..x1` of row `y`.
pub open spec fn row_luma_sum(rgb: Seq<u8>, width: int, y: int, x0: int, x1: int) -> int
    decreases x1 - x0,
{
    if x1 <= x0 {
        0
    } else {
        row_luma_sum(rgb, width, y, x0, x1 - 1) + pixel_luma(rgb, width, x1 - 1, y)
    }
}

/// The sum of the lumas of the block `x0..x1` by `y0..y1`.
pub open spec fn block_luma_sum(rgb: Seq<u8>, width: int, x0: int, x1: int, y0: int, y1: int) -> int
    decreases y1 - y0,
{
    if y1 <= y0 {
        0
    } else {
        block_luma_sum(rgb, width, x0, x1, y0, y1 - 1) + row_luma_sum(rgb, width, y1 - 1, x0, x1)
    }
}

/// The first source coordinate covered by target coordinate `t` when `source` pixels are spread
/// over `target` pixels.
pub open spec fn span_start(t: int, source: int, target: int) -> int {
    t * source / target
}

/// One past the last source coordinate covered by target coordinate `t`; every target pixel
/// covers at least one source pixel.
pub open spec fn span_end(t: int, source: int, target: int) -> int {
    let start = span_start(t, source, target);
    let end = (t + 1) * source / target;
    if end > start + 1 {
        end
    } else {
        start + 1
    }
}

/// The average luma of the source block under target pixel `(tx, ty)`, rounded down.
pub open spec fn sampled_luma(
    rgb: Seq<u8>,
    sw: int,
    sh: int,
    tw: int,
    th: int,
    tx: int,
    ty: int,
) -> int {
    let x0 = span_start(tx, sw, tw);
    let x1 = span_end(tx, sw, tw);
    let y0 = span_start(ty, sh, th);
    let y1 = span_end(ty, sh, th);
    block_luma_sum(rgb, sw, x0, x1, y0, y1) / ((x1 - x0) * (y1 - y0))
}

/// The grayscale image, row by row, that results from averaging the source lumas under each of
/// the `tw * th` target pixels; empty when any dimension is zero.
pub open spec fn sampled_image(rgb: Seq<u8>, sw: int, sh: int, tw: int, th: int) -> Seq<u8> {
    if sw == 0 || sh == 0 || tw == 0 || th == 0 {
        Seq::empty()
    } else {
        Seq::new((tw * th) as nat, |i: int| sampled_luma(rgb, sw, sh, tw, th, i % tw, i / tw) as u8)
    }
}

proof fn lemma_span_bounds(t: int, source: int, target: int)
    requires
        0 <= t < target,
        source >= 1,
    ensures
        0 <= span_start(t, source, target) < span_end(t, source, target) <= source,
{
    assert(t * source >= 0) by (nonlinear_arith)
        requires
            t >= 0,
            source >= 1,
    ;
    assert((t + 1) * source <= target * source) by (nonlinear_arith)
        requires
            t + 1 <= target,
            source >= 1,
    ;
    assert(t * source < target * source) by (nonlinear_arith)
        requires
            t < target,
            source >= 1,
    ;
    vstd::arithmetic::div_mod::lemma_div_is_ordered((t + 1) * source, target * source, target);
    vstd::arithmetic::div_mod::lemma_div_multiples_vanish(source, target);
    assert(target * source == source * target) by (nonlinear_arith);
    vstd::arithmetic::div_mod::lemma_fundamental_div_mod(t * source, target);
    let q = t * source / target;
    let m = t * source % target;
    vstd::arithmetic::div_mod::lemma_mod_bound(t * source, target);
    assert(q < source) by (nonlinear_arith)
        requires
            t * source == target * q + m,
            m >= 0,
            t * source < target * source,
            target > 0,
    ;
    vstd::arithmetic::div_mod::lemma_div_pos_is_pos(t * source, target);
}

proof fn lemma_luma_bound(r: u8, g: u8, b: u8)
    ensures
        0 <= luma(r, g, b) <= 255,
{
    assert(77 * r + 150 * g + 29 * b <= 256 * 255);
    vstd::arithmetic::div_mod::lemma_div_is_ordered(77 * r + 150 * g + 29 * b, 256 * 255 as int, 256);
    vstd::arithmetic::div_mod::lemma_div_pos_is_pos(77 * r + 150 * g + 29 * b, 256);
}

proof fn lemma_pixel_in_bounds(width: int, height: int, x: int, y: int)
    requires
        0 <= x < width,
        0 <= y < height,
    ensures
        0 <= (y * width + x) * 3,
        (y * width + x) * 3 + 2 < width * height * 3,
{
    assert(0 <= y * width) by (nonlinear_arith)
        requires
            y >= 0,
            width >= 0,
    ;
    assert(y * width + x < width * height) by (nonlinear_arith)
        requires
            0 <= x < width,
            0 <= y < height,
    ;
}

/// Converts a packed RGB frame of `source_width` by `source_height` pixels into a grayscale image
/// of `target_width` by `target_height` pixels, averaging the luma of the source block that each
/// target pixel covers.
pub fn sample_rgb_to_luma(
    rgb: &[u8],
    source_width: u32,
    source_height: u32,
    target_width: u32,
    target_height: u32,
) -> (r: Vec<u8>)
    requires
        source_width as int * source_height as int * 3 <= rgb@.len(),
        target_width as int * target_height as int <= usize::MAX,
    ensures
        r@ == sampled_image(
            rgb@,
            source_width as int,
            source_height as int,
            target_width as int,
            target_height as int,
        ),
{
    if source_width == 0 || source_height == 0 || target_width == 0 || target_height == 0 {
        return Vec::new();
    }
    let rgb_len = rgb.len();
    assert(rgb@.len() <= usize::MAX);
    let sw = source_width as u64;
    let sh = source_height as u64;
    let tw = target_width as u64;
    let th = target_height as u64;
    let ghost image = sampled_image(rgb@, sw as int, sh as int, tw as int, th as int);
    let mut grayscale: Vec<u8> = Vec::new();

    let mut target_y: u64 = 0;
    while target_y < th
        invariant
            1 <= sw <= u32::MAX,
            1 <= sh <= u32::MAX,
            1 <= tw <= u32::MAX,
            1 <= th <= u32::MAX,
            sw * sh * 3 <= rgb@.len(),
                    rgb@.len() <= usize::MAX,
            tw * th <= usize::MAX,
            image == sampled_image(rgb@, sw as int, sh as int, tw as int, th as int),
            target_y <= th,
            grayscale@.len() == target_y * tw,
            forall|i: int| 0 <= i < grayscale@.len() ==> grayscale@[i] == image[i],
        decreases th - target_y,
    {
        proof {
            lemma_span_bounds(target_y as int, sh as int, th as int);
            assert(target_y * sh <= u32::MAX * u32::MAX) by (nonlinear_arith)
                requires target_y <= u32::MAX, sh <= u32::MAX;
            assert((target_y + 1) * sh <= u32::MAX * u32::MAX) by (nonlinear_arith)
                requires target_y + 1 <= u32::MAX + 1, sh <= u32::MAX, target_y < th, th <= u32::MAX;
        }
        let source_y = target_y * sh / th;
        let next_y = (target_y + 1) * sh / th;
        let source_y_end = if next_y > source_y + 1 { next_y } else { source_y + 1 };
        let mut target_x: u64 = 0;
        while target_x < tw
            invariant
                1 <= sw <= u32::MAX,
                1 <= sh <= u32::MAX,
                1 <= tw <= u32::MAX,
                1 <= th <= u32::MAX,
                sw * sh * 3 <= rgb@.len(),
                    rgb@.len() <= usize::MAX,
                tw * th <= usize::MAX,
                image == sampled_image(rgb@, sw as int, sh as int, tw as int, th as int),
                target_y < th,
                source_y == span_start(target_y as int, sh as int, th as int),
                source_y_end == span_end(target_y as int, sh as int, th as int),
                0 <= source_y < source_y_end <= sh,
                target_x <= tw,
                grayscale@.len() == target_y * tw + target_x,
                forall|i: int| 0 <= i < grayscale@.len() ==> grayscale@[i] == image[i],
            decreases tw - target_x,
        {
            proof {
                lemma_span_bounds(target_x as int, sw as int, tw as int);
                assert(target_x * sw <= u32::MAX * u32::MAX) by (nonlinear_arith)
                    requires target_x <= u32::MAX, sw <= u32::MAX;
                assert((target_x + 1) * sw <= u32::MAX * u32::MAX) by (nonlinear_arith)
                    requires target_x < tw, tw <= u32::MAX, sw <= u32::MAX;
            }
            let source_x = target_x * sw / tw;
            let next_x = (target_x + 1) * sw / tw;
            let source_x_end = if next_x > source_x + 1 { next_x } else { source_x + 1 };

            let mut luma_sum: u128 = 0;
            let mut y = source_y;
            while y < source_y_end
                invariant
                    1 <= sw <= u32::MAX,
                    1 <= sh <= u32::MAX,
                    sw * sh * 3 <= rgb@.len(),
                    rgb@.len() <= usize::MAX,
                    0 <= source_y <= y <= source_y_end <= sh,
                    0 <= source_x < source_x_end <= sw,
                    luma_sum == block_luma_sum(
                        rgb@,
                        sw as int,
                        source_x as int,
                        source_x_end as int,
                        source_y as int,
                        y as int,
                    ),
                    0 <= luma_sum <= 255 * (source_x_end - source_x) * (y - source_y),
                decreases source_y_end - y,
            {
                let mut row_sum: u128 = 0;
                let mut x = source_x;
                while x < source_x_end
                    invariant
                        1 <= sw <= u32::MAX,
                        1 <= sh <= u32::MAX,
                        sw * sh * 3 <= rgb@.len(),
                    rgb@.len() <= usize::MAX,
                        y < sh,
                        0 <= source_x <= x <= source_x_end <= sw,
                        row_sum == row_luma_sum(rgb@, sw as int, y as int, source_x as int, x as int),
                        0 <= row_sum <= 255 * (x - source_x),
                    decreases source_x_end - x,
                {
                    proof {
                        lemma_pixel_in_bounds(sw as int, sh as int, x as int, y as int);
                        assert((y * sw + x) * 3 + 2 < rgb@.len());
                        assert(y * sw <= (u32::MAX as int) * (u32::MAX as int)) by (nonlinear_arith)
                            requires y < sh, sh <= u32::MAX, sw <= u32::MAX;
                    }
                    let index = ((y * sw + x) * 3) as usize;
                    let r = rgb[index] as u128;
                    let g = rgb[index + 1] as u128;
                    let b = rgb[index + 2] as u128;
                    let pixel = (77 * r + 150 * g + 29 * b) / 256;
                    proof {
                        lemma_luma_bound(rgb@[index as int], rgb@[index + 1], rgb@[index + 2]);
                    }
                    row_sum = row_sum + pixel;
                    x = x + 1;
                }
                proof {
                    assert(255 * (source_x_end - source_x) * (y - source_y) + 255 * (source_x_end
                        - source_x) == 255 * (source_x_end - source_x) * (y + 1 - source_y))
                        by (nonlinear_arith);
                    assert(255 * (source_x_end - source_x) * (y + 1 - source_y) <= 255 * sw * sh)
                        by (nonlinear_arith)
                        requires
                            source_x_end - source_x <= sw,
                            y + 1 - source_y <= sh,
                            source_x < source_x_end,
                            source_y <= y,
                    ;
                    assert(255 * sw * sh <= 255 * (u32::MAX as int) * (u32::MAX as int))
                        by (nonlinear_arith)
                        requires
                            1 <= sw <= u32::MAX,
                            1 <= sh <= u32::MAX,
                    ;
                }
                luma_sum = luma_sum + row_sum;
                y = y + 1;
            }
            let width = source_x_end - source_x;
            let height = source_y_end - source_y;
            proof {
                assert(width * height <= sw * sh) by (nonlinear_arith)
                    requires 1 <= width <= sw, 1 <= height <= sh;
                assert(width * height <= u32::MAX * u32::MAX) by (nonlinear_arith)
                    requires width * height <= sw * sh, sw <= u32::MAX, sh <= u32::MAX;
                assert(width * height >= 1) by (nonlinear_arith)
                    requires 1 <= width, 1 <= height;
            }
            let pixel_count = (width * height) as u128;
            let average = luma_sum / pixel_count;
            proof {
                assert(255 * width * height == 255 * (width * height)) by (nonlinear_arith);
                vstd::arithmetic::div_mod::lemma_div_is_ordered(
                    luma_sum as int,
                    255 * (width * height),
                    (width * height) as int,
                );
                vstd::arithmetic::div_mod::lemma_div_multiples_vanish(255, (width * height) as int);
                assert(average <= 255);
                let i = grayscale@.len() as int;
                assert(i == target_y * tw + target_x);
                assert(i < tw * th) by (nonlinear_arith)
                    requires i == target_y * tw + target_x, target_x < tw, target_y < th;
                assert(i % (tw as int) == target_x as int && i / (tw as int) == target_y as int) by {
                    vstd::arithmetic::div_mod::lemma_fundamental_div_mod_converse(
                        i,
                        tw as int,
                        target_y as int,
                        target_x as int,
                    );
                }
                assert(image[i] == sampled_luma(rgb@, sw as int, sh as int, tw as int, th as int, target_x as int, target_y as int) as u8);
            }
            grayscale.push(average as u8);
            target_x = target_x + 1;
        }
        target_y = target_y + 1;
        proof {
            assert(target_y * tw == (target_y - 1) * tw + tw) by (nonlinear_arith);
        }
    }
    proof {
        assert(grayscale@.len() == tw * th) by (nonlinear_arith)
            requires grayscale@.len() == target_y * tw, target_y == th;
        assert(grayscale@ =~= image);
    }
    grayscale
}


// ---------------------------------------------------------------------------------------------
// Whole-frame and tile scores
// ---------------------------------------------------------------------------------------------

/// `ceil(a / b)` for `b > 0`.
pub open spec fn div_ceil(a: int, b: int) -> int {
    (a + b - 1) / b
}

/// Tiles are a tenth of the frame in each direction, rounded up, and at least one pixel.
pub open spec fn tile_size(n: int) -> int {
    let t = div_ceil(n, 10);
    if t >= 1 {
        t
    } else {
        1
    }
}

/// The tile grid of a `width` by `height` frame: tile width and height, tiles per row and per
/// column.
pub open spec fn tiles_across(width: int) -> int {
    div_ceil(width, tile_size(width))
}

pub open spec fn tiles_down(height: int) -> int {
    div_ceil(height, tile_size(height))
}

/// The tile that holds pixel `i` of a row-major `width` by `height` frame.
pub open spec fn tile_of(i: int, width: int, height: int) -> int {
    (i / width / tile_size(height)) * tiles_across(width) + (i % width) / tile_size(width)
}

/// The number of marked pixels among the first `n`.
pub open spec fn count_marked(mask: Seq<bool>, n: int) -> int
    decreases n,
{
    if n <= 0 {
        0
    } else {
        count_marked(mask, n - 1) + if mask[n - 1] {
            1int
        } else {
            0
        }
    }
}

/// The number of marked pixels of tile `k` among the first `n`.
pub open spec fn tile_marked(mask: Seq<bool>, width: int, height: int, k: int, n: int) -> int
    decreases n,
{
    if n <= 0 {
        0
    } else {
        tile_marked(mask, width, height, k, n - 1) + if mask[n - 1] && tile_of(
            n - 1,
            width,
            height,
        ) == k {
            1int
        } else {
            0
        }
    }
}

/// The number of pixels of tile `k` among the first `n`.
pub open spec fn tile_pixels(width: int, height: int, k: int, n: int) -> int
    decreases n,
{
    if n <= 0 {
        0
    } else {
        tile_pixels(width, height, k, n - 1) + if tile_of(n - 1, width, height) == k {
            1int
        } else {
            0
        }
    }
}

/// The marked fraction of tile `k` of the frame.
pub open spec fn tile_ratio(mask: Seq<bool>, width: int, height: int, k: int) -> Ratio {
    Ratio {
        numerator: tile_marked(mask, width, height, k, width * height) as u64,
        denominator: tile_pixels(width, height, k, width * height) as u64,
    }
}

/// `a / b < c / d`, for positive denominators.
pub open spec fn ratio_less(a: Ratio, c: Ratio) -> bool {
    a.numerator * c.denominator < c.numerator * a.denominator
}

/// `local` is the ratio of the most changed tile (the first of them on a tie), among the tiles
/// that hold at least one pixel.
pub open spec fn is_strongest_tile(mask: Seq<bool>, width: int, height: int, local: Ratio) -> bool {
    exists|k: int|
        0 <= k < tiles_across(width) * tiles_down(height) && local == tile_ratio(mask, width, height, k)
            && local.denominator > 0 && (forall|j: int|
            0 <= j < tiles_across(width) * tiles_down(height) && tile_ratio(mask, width, height, j).denominator > 0
                ==> !ratio_less(local, #[trigger] tile_ratio(mask, width, height, j))) && (forall|j: int|
            0 <= j < k && tile_ratio(mask, width, height, j).denominator > 0 ==> ratio_less(
                #[trigger] tile_ratio(mask, width, height, j),
                local,
            ))
}

proof fn lemma_div_below_ceil(v: int, n: int, t: int)
    requires
        0 <= v < n,
        t >= 1,
    ensures
        v / t < div_ceil(n, t),
{
    vstd::arithmetic::div_mod::lemma_fundamental_div_mod(v, t);
    vstd::arithmetic::div_mod::lemma_mod_bound(v, t);
    vstd::arithmetic::div_mod::lemma_fundamental_div_mod(n + t - 1, t);
    vstd::arithmetic::div_mod::lemma_mod_bound(n + t - 1, t);
    let q = v / t;
    let q2 = (n + t - 1) / t;
    let r = v % t;
    let r2 = (n + t - 1) % t;
    assert(q < q2) by (nonlinear_arith)
        requires
            v == t * q + r,
            0 <= r < t,
            n + t - 1 == t * q2 + r2,
            0 <= r2 < t,
            v < n,
            t >= 1,
    ;
}

proof fn lemma_tile_of_bounds(i: int, width: int, height: int)
    requires
        width >= 1,
        height >= 1,
        0 <= i < width * height,
    ensures
        0 <= tile_of(i, width, height) < tiles_across(width) * tiles_down(height),
        tile_size(width) >= 1,
        tile_size(height) >= 1,
{
    let tw = tile_size(width);
    let th = tile_size(height);
    let tx = tiles_across(width);
    let ty = tiles_down(height);
    let row = i / width;
    let col = i % width;
    vstd::arithmetic::div_mod::lemma_fundamental_div_mod(i, width);
    vstd::arithmetic::div_mod::lemma_mod_bound(i, width);
    vstd::arithmetic::div_mod::lemma_div_pos_is_pos(i, width);
    assert(row < height) by (nonlinear_arith)
        requires
            i == width * row + col,
            0 <= col,
            i < width * height,
            width >= 1,
    ;
    lemma_div_below_ceil(row, height, th);
    lemma_div_below_ceil(col, width, tw);
    let a = row / th;
    let b = col / tw;
    assert(a < ty);
    assert(b < tx);
    vstd::arithmetic::div_mod::lemma_div_pos_is_pos(row, th);
    vstd::arithmetic::div_mod::lemma_div_pos_is_pos(col, tw);
    assert(0 <= a * tx + b < tx * ty) by (nonlinear_arith)
        requires
            0 <= a < ty,
            0 <= b < tx,
    ;
}

proof fn lemma_ratio_chain(a: Ratio, b: Ratio, c: Ratio)
    requires
        a.denominator > 0,
        b.denominator > 0,
        c.denominator > 0,
        !ratio_less(b, a),
        ratio_less(b, c),
    ensures
        ratio_less(a, c),
{
    let (an, ad, bn, bd, cn, cd) = (
        a.numerator as int,
        a.denominator as int,
        b.numerator as int,
        b.denominator as int,
        c.numerator as int,
        c.denominator as int,
    );
    assert(an * cd < cn * ad) by (nonlinear_arith)
        requires
            ad > 0,
            bd > 0,
            cd > 0,
            an >= 0,
            bn >= 0,
            cn >= 0,
            an * bd <= bn * ad,
            bn * cd < cn * bd,
    ;
}

/// `t` is a tenth of `n`, rounded up: `10 (t - 1) < n <= 10 t`.
pub open spec fn is_tenth_rounded_up(n: int, t: int) -> bool {
    10 * (t - 1) < n && n <= 10 * t
}

proof fn lemma_tile_size_is_tenth(n: int)
    requires
        n >= 1,
    ensures
        is_tenth_rounded_up(n, tile_size(n)),
{
    vstd::arithmetic::div_mod::lemma_fundamental_div_mod(n + 9, 10);
    vstd::arithmetic::div_mod::lemma_mod_bound(n + 9, 10);
}

/// Law: tiles are a tenth of the frame in each direction, rounded up: for a `width` by
/// `height` frame, with `tw` and `th` the tenths of `width` and `height` rounded up, a tile is
/// `tw` pixels wide and `th` pixels high, at most ten tiles span each direction and together
/// they cover it, and pixel `i` (row-major) lies in the tile of its column band `x / tw` and row
/// band `y / th`.
pub proof fn law_tiles_are_a_tenth_of_the_frame(width: int, height: int, tw: int, th: int)
    requires
        width >= 1,
        height >= 1,
        is_tenth_rounded_up(width, tw),
        is_tenth_rounded_up(height, th),
    ensures
        tile_size(width) == tw,
        tile_size(height) == th,
        1 <= tiles_across(width) <= 10,
        1 <= tiles_down(height) <= 10,
        (tiles_across(width) - 1) * tw < width <= tiles_across(width) * tw,
        (tiles_down(height) - 1) * th < height <= tiles_down(height) * th,
        forall|i: int|
            0 <= i < width * height ==> #[trigger] tile_of(i, width, height) == (i / width / th)
                * tiles_across(width) + (i % width) / tw,
{
    lemma_tile_size_is_tenth(width);
    lemma_tile_size_is_tenth(height);
    assert(tile_size(width) == tw);
    assert(tile_size(height) == th);
    assert(tw >= 1 && th >= 1);
    lemma_grid_band_count(width, tw);
    lemma_grid_band_count(height, th);
}

/// `ceil(n / t)` bands of `t` pixels cover `n` pixels, and there are at most ten of them when
/// `t` is a tenth of `n` rounded up.
proof fn lemma_grid_band_count(n: int, t: int)
    requires
        n >= 1,
        t >= 1,
        is_tenth_rounded_up(n, t),
    ensures
        1 <= div_ceil(n, t) <= 10,
        (div_ceil(n, t) - 1) * t < n <= div_ceil(n, t) * t,
{
    let q = div_ceil(n, t);
    vstd::arithmetic::div_mod::lemma_fundamental_div_mod(n + t - 1, t);
    vstd::arithmetic::div_mod::lemma_mod_bound(n + t - 1, t);
    let r = (n + t - 1) % t;
    assert(n + t - 1 == t * q + r);
    assert(q * t == t * q) by (nonlinear_arith);
    assert((q - 1) * t == q * t - t) by (nonlinear_arith);
    assert(q >= 1) by (nonlinear_arith)
        requires
            n + t - 1 == t * q + r,
            0 <= r < t,
            n >= 1,
            t >= 1,
    ;
    assert(q <= 10) by (nonlinear_arith)
        requires
            n + t - 1 == t * q + r,
            0 <= r < t,
            n <= 10 * t,
            t >= 1,
    ;
}

/// The whole-frame and strongest-tile change scores of a frame.
pub struct ChangeScores {
    pub motion_ratio: Ratio,
    pub local_motion_ratio: Ratio,
}

fn tile_size_exec(n: u64) -> (r: u64)
    requires
        n >= 1,
        n <= u32::MAX,
    ensures
        r == tile_size(n as int),
        r >= 1,
        r <= n,
{
    let t = (n + 9) / 10;
    if t >= 1 {
        t
    } else {
        1
    }
}

/// Scores a change mask of a `width` by `height` frame (row-major, `true` for a changed pixel):
/// the changed fraction of the whole frame, and the changed fraction of the most changed tile,
/// where tiles are a tenth of the frame each way, rounded up.
pub fn score_changes(changed: &Vec<bool>, width: u32, height: u32) -> (r: ChangeScores)
    requires
        width >= 1,
        height >= 1,
        changed@.len() == width * height,
    ensures
        r.motion_ratio == (Ratio {
            numerator: count_marked(changed@, width * height) as u64,
            denominator: (width * height) as u64,
        }),
        is_strongest_tile(changed@, width as int, height as int, r.local_motion_ratio),
{
    let ghost mask = changed@;
    let ghost w = width as int;
    let ghost h = height as int;
    let w64 = width as u64;
    let h64 = height as u64;
    let tile_width = tile_size_exec(w64);
    let tile_height = tile_size_exec(h64);
    let tiles_x = (w64 + tile_width - 1) / tile_width;
    let tiles_y = (h64 + tile_height - 1) / tile_height;
    proof {
        assert(tiles_x <= w64) by {
            assert(w64 + tile_width - 1 <= w64 * tile_width) by (nonlinear_arith)
                requires w64 >= 1, tile_width >= 1;
            vstd::arithmetic::div_mod::lemma_div_is_ordered((w64 + tile_width - 1) as int, (w64 * tile_width) as int, tile_width as int);
            vstd::arithmetic::div_mod::lemma_div_multiples_vanish(w64 as int, tile_width as int);
            assert(w64 * tile_width == tile_width * w64) by (nonlinear_arith);
        }
        assert(tiles_y <= h64) by {
            assert(h64 + tile_height - 1 <= h64 * tile_height) by (nonlinear_arith)
                requires h64 >= 1, tile_height >= 1;
            vstd::arithmetic::div_mod::lemma_div_is_ordered((h64 + tile_height - 1) as int, (h64 * tile_height) as int, tile_height as int);
            vstd::arithmetic::div_mod::lemma_div_multiples_vanish(h64 as int, tile_height as int);
            assert(h64 * tile_height == tile_height * h64) by (nonlinear_arith);
        }
        assert(tiles_x * tiles_y <= w64 * h64) by (nonlinear_arith)
            requires tiles_x <= w64, tiles_y <= h64;
        assert(w * h >= 1) by (nonlinear_arith) requires w >= 1, h >= 1;
        lemma_tile_of_bounds(0, w, h);
    }
    let total = changed.len();
    assert(tiles_x * tiles_y <= total);
    let tile_count = (tiles_x * tiles_y) as usize;
    let mut tile_changed: Vec<u64> = Vec::new();
    let mut tile_total: Vec<u64> = Vec::new();
    let mut k: usize = 0;
    while k < tile_count
        invariant
            k <= tile_count,
            tile_changed@.len() == k,
            tile_total@.len() == k,
            forall|j: int| 0 <= j < k ==> tile_changed@[j] == 0 && tile_total@[j] == 0,
        decreases tile_count - k,
    {
        tile_changed.push(0);
        tile_total.push(0);
        k = k + 1;
    }

    let mut changed_pixels: u64 = 0;
    let mut i: usize = 0;
    while i < total
        invariant
            mask == changed@,
            total == w * h,
            total == changed@.len(),
            w == width,
            h == height,
            w >= 1,
            h >= 1,
            w64 == width,
            tile_width == tile_size(w),
            tile_height == tile_size(h),
            tiles_x == tiles_across(w),
            tiles_y == tiles_down(h),
            tile_count == tiles_x * tiles_y,
            i <= total,
            tile_changed@.len() == tile_count,
            tile_total@.len() == tile_count,
            changed_pixels == count_marked(mask, i as int),
            changed_pixels <= i,
            forall|j: int|
                0 <= j < tile_count ==> #[trigger] tile_changed@[j] == tile_marked(mask, w, h, j, i as int)
                    && tile_changed@[j] <= i,
            forall|j: int|
                0 <= j < tile_count ==> #[trigger] tile_total@[j] == tile_pixels(w, h, j, i as int) && tile_total@[j] <= i,
        decreases total - i,
    {
        proof {
            lemma_tile_of_bounds(i as int, w, h);
        }
        let row = (i as u64) / w64;
        let column = (i as u64) % w64;
        let tile_index = ((row / tile_height) * tiles_x + column / tile_width) as usize;
        assert(tile_index == tile_of(i as int, w, h));
        let t = tile_total[tile_index];
        tile_total.set(tile_index, t + 1);
        if changed[i] {
            let c = tile_changed[tile_index];
            tile_changed.set(tile_index, c + 1);
            changed_pixels = changed_pixels + 1;
        }
        i = i + 1;
    }

    // The most changed tile, first on a tie.
    let mut best: usize = 0;
    let mut j: usize = 1;
    proof {
        lemma_tile_zero_holds_pixel(w, h);
    }
    while j < tile_count
        invariant
            mask == changed@,
            w == width,
            h == height,
            w >= 1,
            h >= 1,
            tile_count == tiles_across(w) * tiles_down(h),
            1 <= j <= tile_count,
            best < j,
            tile_changed@.len() == tile_count,
            tile_total@.len() == tile_count,
            forall|q: int|
                0 <= q < tile_count ==> tile_ratio(mask, w, h, q) == (Ratio {
                    numerator: #[trigger] tile_changed@[q],
                    denominator: tile_total@[q],
                }),
            tile_total@[best as int] > 0,
            forall|q: int|
                0 <= q < j && #[trigger] tile_total@[q] > 0 ==> !ratio_less(
                    tile_ratio(mask, w, h, best as int),
                    tile_ratio(mask, w, h, q),
                ),
            forall|q: int|
                0 <= q < best && #[trigger] tile_total@[q] > 0 ==> ratio_less(
                    tile_ratio(mask, w, h, q),
                    tile_ratio(mask, w, h, best as int),
                ),
        decreases tile_count - j,
    {
        let candidate_changed = tile_changed[j] as u128;
        let candidate_total = tile_total[j] as u128;
        let best_changed = tile_changed[best] as u128;
        let best_total = tile_total[best] as u128;
        proof {
            assert(candidate_changed * best_total <= u64::MAX as int * u64::MAX as int) by (nonlinear_arith)
                requires candidate_changed <= u64::MAX, best_total <= u64::MAX;
            assert(best_changed * candidate_total <= u64::MAX as int * u64::MAX as int) by (nonlinear_arith)
                requires best_changed <= u64::MAX, candidate_total <= u64::MAX;
        }
        if candidate_total > 0 && candidate_changed * best_total > best_changed * candidate_total {
            let ghost old_best = best as int;
            proof {
                let c = tile_ratio(mask, w, h, j as int);
                let b = tile_ratio(mask, w, h, old_best);
                assert(ratio_less(b, c));
                assert(tile_changed@[old_best] == tile_changed@[old_best]);
                assert(tile_changed@[j as int] == tile_changed@[j as int]);
                assert forall|q: int| 0 <= q < j + 1 && #[trigger] tile_total@[q] > 0 implies !ratio_less(c, tile_ratio(mask, w, h, q)) by {
                    assert(0 <= q < tile_count);
                    assert(tile_ratio(mask, w, h, q) == (Ratio { numerator: tile_changed@[q], denominator: tile_total@[q] }));
                    assert(tile_ratio(mask, w, h, q).denominator == tile_total@[q]);
                    if q != j {
                        lemma_ratio_chain(tile_ratio(mask, w, h, q), b, c);
                        let qq = tile_ratio(mask, w, h, q);
                        assert(qq.numerator * c.denominator < c.numerator * qq.denominator);
                    } else {
                    }
                }
                assert forall|q: int| 0 <= q < j && #[trigger] tile_total@[q] > 0 implies ratio_less(tile_ratio(mask, w, h, q), c) by {
                    assert(0 <= q < tile_count);
                    assert(tile_ratio(mask, w, h, q) == (Ratio { numerator: tile_changed@[q], denominator: tile_total@[q] }));
                    assert(b.denominator > 0);
                    assert(c.denominator > 0);
                    lemma_ratio_chain(tile_ratio(mask, w, h, q), b, c);
                }
            }
            best = j;
        }
        j = j + 1;
    }
    let motion_ratio = Ratio { numerator: changed_pixels, denominator: total as u64 };
    let local_motion_ratio = Ratio { numerator: tile_changed[best], denominator: tile_total[best] };
    proof {
        let k = best as int;
        assert(tile_changed@[k] == tile_changed@[k]);
        assert(local_motion_ratio == tile_ratio(mask, w, h, k));
        assert forall|q: int|
            0 <= q < tiles_across(w) * tiles_down(h) && tile_ratio(mask, w, h, q).denominator > 0
                implies !ratio_less(local_motion_ratio, #[trigger] tile_ratio(mask, w, h, q)) by {
            assert(tile_changed@[q] == tile_changed@[q]);
            assert(tile_total@[q] > 0);
        }
        assert forall|q: int|
            0 <= q < k && tile_ratio(mask, w, h, q).denominator > 0 implies ratio_less(
                #[trigger] tile_ratio(mask, w, h, q),
                local_motion_ratio,
            ) by {
            assert(tile_changed@[q] == tile_changed@[q]);
            assert(tile_total@[q] > 0);
        }
        assert(is_strongest_tile(mask, w, h, local_motion_ratio));
    }
    ChangeScores { motion_ratio, local_motion_ratio }
}

proof fn lemma_tile_zero_holds_pixel(w: int, h: int)
    requires
        w >= 1,
        h >= 1,
    ensures
        tile_pixels(w, h, 0, w * h) > 0,
{
    assert(w * h >= 1) by (nonlinear_arith) requires w >= 1, h >= 1;
    assert(tile_of(0, w, h) == 0) by {
        lemma_tile_of_bounds(0, w, h);
        vstd::arithmetic::div_mod::lemma_div_of0(w);
        vstd::arithmetic::div_mod::lemma_small_mod(0, w as nat);
        vstd::arithmetic::div_mod::lemma_div_of0(tile_size(h));
        vstd::arithmetic::div_mod::lemma_div_of0(tile_size(w));
    }
    assert(tile_pixels(w, h, 0, 0) == 0);
    assert(tile_pixels(w, h, 0, 1) == 1);
    lemma_tile_pixels_monotone(w, h, 0, 1, w * h);
}

proof fn lemma_tile_pixels_monotone(w: int, h: int, k: int, a: int, b: int)
    requires
        0 <= a <= b,
    ensures
        tile_pixels(w, h, k, a) <= tile_pixels(w, h, k, b),
    decreases b - a,
{
    if a < b {
        lemma_tile_pixels_monotone(w, h, k, a, b - 1);
    }
}

} // verus!
