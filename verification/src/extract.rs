//! Patch extraction: the samples of the window round a point of an image, or
//! a refusal where the window does not lie inside the image.

use vstd::prelude::*;
use vstd::arithmetic::div_mod::lemma_fundamental_div_mod_converse;
use image::DynamicImage;
use crate::config::{lemma_valid_shape_bounds, patch_len, window_side};
use crate::error::SearchError;
use crate::patch::ImagePatch;
use crate::raster::{image_height, image_rgba, image_width, pixel_rgba};
use crate::rounding::{lemma_quotient_remainder, round_half_away, round_nearest};
use crate::view::Pixel;

verus! {

/// A point of the image plane with the rational coordinates `x / scale` and
/// `y / scale`. A value whose `scale` is zero names no point.
#[derive(Clone, Copy, Debug, PartialEq, Eq, Structural)]
pub struct SubPixel {
    pub x: i128,
    pub y: i128,
    pub scale: u64,
}

impl SubPixel {
    /// The column of the pixel nearest to the point.
    pub open spec fn column(&self) -> int {
        round_half_away(self.x as int, self.scale as int)
    }

    /// The row of the pixel nearest to the point.
    pub open spec fn row(&self) -> int {
        round_half_away(self.y as int, self.scale as int)
    }

    /// The point in the middle of a pixel.
    pub open spec fn middle_of(pixel: Pixel) -> SubPixel {
        SubPixel { x: pixel.x as i128, y: pixel.y as i128, scale: 1 }
    }

    /// The point in the middle of a pixel.
    pub fn at(pixel: Pixel) -> (point: SubPixel)
        ensures
            point == SubPixel::middle_of(pixel),
            point.column() == pixel.x,
            point.row() == pixel.y,
    {
        SubPixel { x: pixel.x as i128, y: pixel.y as i128, scale: 1 }
    }
}

/// Whether the window of radius `radius` round the pixel `(cx, cy)` lies
/// inside an image of the given size. A window that reaches column 0 or the
/// last column does; one that needs column -1 does not.
pub open spec fn window_fits(width: int, height: int, cx: int, cy: int, radius: int) -> bool {
    &&& 0 <= cx - radius
    &&& cx + radius < width
    &&& 0 <= cy - radius
    &&& cy + radius < height
}

/// Whether the window round the pixel nearest to `center` lies inside `image`.
pub open spec fn window_visible(image: DynamicImage, center: SubPixel, radius: int) -> bool {
    &&& center.scale > 0
    &&& window_fits(
        image_width(image) as int,
        image_height(image) as int,
        center.column(),
        center.row(),
        radius,
    )
}

/// The sample `i` of the window round `(cx, cy)`: the window's pixels are
/// counted row after row, and within a pixel the channels in their order.
pub open spec fn window_sample(
    image: DynamicImage,
    cx: int,
    cy: int,
    radius: int,
    channels: int,
    i: int,
) -> u8 {
    let pixel = i / channels;
    let x = cx - radius + pixel % window_side(radius);
    let y = cy - radius + pixel / window_side(radius);
    image_rgba(image, x as u32, y as u32)[i % channels]
}

/// All samples of the window round `(cx, cy)`, in patch order.
pub open spec fn window_samples(
    image: DynamicImage,
    cx: int,
    cy: int,
    radius: int,
    channels: int,
) -> Seq<u8> {
    Seq::new(
        patch_len(radius, channels) as nat,
        |i: int| window_sample(image, cx, cy, radius, channels, i),
    )
}

/// A window whose middle pixel is at least `radius` pixels from every edge of
/// the image lies inside it, and its patch has one sample for each channel of
/// each of its pixels.
pub proof fn lemma_inner_window_is_visible(
    image: DynamicImage,
    center: SubPixel,
    radius: int,
    channels: int,
)
    requires
        center.scale > 0,
        0 <= radius,
        0 <= channels,
        radius <= center.column() <= image_width(image) - 1 - radius,
        radius <= center.row() <= image_height(image) - 1 - radius,
    ensures
        window_visible(image, center, radius),
        window_samples(image, center.column(), center.row(), radius, channels).len()
            == channels * ((2 * radius + 1) * (2 * radius + 1)),
{
    assert(0 <= channels * ((2 * radius + 1) * (2 * radius + 1))) by (nonlinear_arith)
        requires
            0 <= radius,
            0 <= channels,
    ;
}

/// A window is refused exactly where one of its four edges lies outside the
/// image: left of column 0, above row 0, or beyond the last column or row.
pub proof fn lemma_window_refused_iff_crossing(image: DynamicImage, center: SubPixel, radius: int)
    requires
        center.scale > 0,
    ensures
        !window_visible(image, center, radius) <==> (center.column() - radius < 0 || center.row()
            - radius < 0 || center.column() + radius > image_width(image) - 1 || center.row()
            + radius > image_height(image) - 1),
{
}

/// For a window inside an image of the given size: the pixel nearest to
/// `center`. `None` where the window round that pixel leaves the image, or
/// `center` names no point.
pub fn window_in_image(width: u32, height: u32, center: &SubPixel, radius: u32) -> (pixel: Option<
    Pixel,
>)
    ensures
        pixel is Some <==> center.scale > 0 && window_fits(
            width as int,
            height as int,
            center.column(),
            center.row(),
            radius as int,
        ),
        pixel matches Some(p) ==> p.x == center.column() && p.y == center.row(),
{
    if center.scale == 0 {
        return None;
    }
    let cx: i128 = round_nearest(center.x, center.scale);
    let cy: i128 = round_nearest(center.y, center.scale);
    let r: i128 = radius as i128;
    if cx < r || cy < r {
        return None;
    }
    if cx >= width as i128 || cy >= height as i128 {
        return None;
    }
    if cx + r >= width as i128 || cy + r >= height as i128 {
        return None;
    }
    Some(Pixel { x: cx as u32, y: cy as u32 })
}

/// The samples of `patch` after the pixel `slot` of its window was given the
/// colour `rgba`: the first samples of `rgba`, one for each channel, stand at
/// the places of that pixel, and all other samples are as before.
pub open spec fn with_pixel(patch: Seq<u8>, channels: int, slot: int, rgba: Seq<u8>) -> Seq<u8> {
    Seq::new(
        patch.len(),
        |i: int|
            if slot * channels <= i < (slot + 1) * channels {
                rgba[i - slot * channels]
            } else {
                patch[i]
            },
    )
}

/// Stores the colour of one pixel of the window: the pixel `slot` in row-major
/// order takes the first samples of `rgba`, one for each channel of the patch.
/// Returns `false`, and writes nothing, where the window has no such pixel.
pub fn store_pixel(out: &mut ImagePatch, slot: usize, rgba: &[u8; 4]) -> (stored: bool)
    ensures
        final(out).spec_radius() == old(out).spec_radius(),
        final(out).spec_channels() == old(out).spec_channels(),
        stored <==> (slot + 1) * old(out).spec_channels() <= old(out)@.len(),
        stored ==> final(out)@ == with_pixel(
            old(out)@,
            old(out).spec_channels() as int,
            slot as int,
            rgba@,
        ),
        !stored ==> final(out)@ == old(out)@,
{
    let channels: usize = out.channels() as usize;
    let len: usize = out.samples().len();
    proof {
        lemma_quotient_remainder(len as int, channels as int);
    }
    if slot >= len / channels {
        assert(!((slot + 1) * channels <= len)) by (nonlinear_arith)
            requires
                slot >= len / channels,
                channels > 0,
                len == (len / channels) * channels + len % channels,
                len % channels < channels,
        ;
        return false;
    }
    assert(0 <= slot * channels && slot * channels + channels <= len && (slot + 1) * channels
        == slot * channels + channels) by (nonlinear_arith)
        requires
            0 <= slot < len / channels,
            channels > 0,
            len == (len / channels) * channels + len % channels,
            0 <= len % channels,
    ;
    let base: usize = slot * channels;
    let mut c: usize = 0;
    while c < channels
        invariant
            c <= channels <= 4,
            base == slot * channels,
            base + channels <= len,
            len == old(out)@.len(),
            out@.len() == len,
            out.spec_radius() == old(out).spec_radius(),
            out.spec_channels() == old(out).spec_channels(),
            forall|i: int|
                0 <= i < len ==> out@[i] == (if base <= i < base + c {
                    rgba@[i - base]
                } else {
                    old(out)@[i]
                }),
        decreases channels - c,
    {
        out.set_sample(base + c, rgba[c]);
        c += 1;
    }
    assert(out@ =~= with_pixel(old(out)@, channels as int, slot as int, rgba@));
    true
}

/// The place of a sample in the window: sample `c` of the pixel in row `row`
/// and column `col` is sample `((row * side) + col) * channels + c` of the patch.
pub proof fn lemma_sample_place(side: int, channels: int, row: int, col: int, c: int)
    requires
        0 < side,
        0 < channels,
        0 <= row,
        0 <= col < side,
        0 <= c < channels,
    ensures
        ({
            let i = (row * side + col) * channels + c;
            &&& 0 <= i
            &&& i / channels == row * side + col
            &&& i % channels == c
            &&& (i / channels) % side == col
            &&& (i / channels) / side == row
        }),
{
    let slot = row * side + col;
    let i = slot * channels + c;
    assert(0 <= slot && 0 <= i) by (nonlinear_arith)
        requires
            0 <= row,
            0 < side,
            0 <= col,
            slot == row * side + col,
            i == slot * channels + c,
            0 < channels,
            0 <= c,
    ;
    lemma_fundamental_div_mod_converse(i, channels, slot, c);
    lemma_fundamental_div_mod_converse(slot, side, row, col);
}

/// Samples the window round the pixel nearest to `center` into `out`, whose
/// shape gives the radius of the window and the channels read from each pixel.
///
/// Where the window does not lie inside the image the call fails with
/// `OutOfBounds` and leaves `out` as it was.
pub fn extract(image: &DynamicImage, center: &SubPixel, out: &mut ImagePatch) -> (result: Result<
    (),
    SearchError,
>)
    ensures
        final(out).spec_radius() == old(out).spec_radius(),
        final(out).spec_channels() == old(out).spec_channels(),
        final(out)@.len() == old(out)@.len(),
        final(out).shaped(),
        result is Ok <==> window_visible(*image, *center, old(out).spec_radius() as int),
        result is Ok ==> final(out)@ == window_samples(
            *image,
            center.column(),
            center.row(),
            old(out).spec_radius() as int,
            old(out).spec_channels() as int,
        ),
        result matches Err(e) ==> e == SearchError::OutOfBounds && final(out)@ == old(out)@,
{
    let radius: u32 = out.radius();
    let channels: u8 = out.channels();
    proof {
        lemma_valid_shape_bounds(radius as int, channels as int);
    }
    let width: u32 = image.width();
    let height: u32 = image.height();
    let middle = match window_in_image(width, height, center, radius) {
        Some(p) => p,
        None => {
            return Err(SearchError::OutOfBounds);
        },
    };
    let side: u32 = 2 * radius + 1;
    let left: u32 = middle.x - radius;
    let top: u32 = middle.y - radius;
    let ghost cx: int = center.column();
    let ghost cy: int = center.row();
    let ghost r: int = radius as int;
    let ghost ch: int = channels as int;
    let mut slot: usize = 0;
    let mut row: u32 = 0;
    while row < side
        invariant
            row <= side,
            side == window_side(r),
            1 <= side <= 65535,
            1 <= ch <= 4,
            ch == out.spec_channels(),
            r == out.spec_radius(),
            r == old(out).spec_radius(),
            ch == old(out).spec_channels(),
            out@.len() == old(out)@.len(),
            out@.len() == patch_len(r, ch),
            slot == row * side,
            left == cx - r,
            top == cy - r,
            left + side <= image_width(*image),
            top + side <= image_height(*image),
            forall|i: int| 0 <= i < slot * ch ==> out@[i] == window_sample(*image, cx, cy, r, ch, i),
        decreases side - row,
    {
        let mut col: u32 = 0;
        while col < side
            invariant
                row < side,
                col <= side,
                side == window_side(r),
                1 <= side <= 65535,
                1 <= ch <= 4,
                ch == out.spec_channels(),
                r == out.spec_radius(),
                out@.len() == old(out)@.len(),
                out@.len() == patch_len(r, ch),
                slot == row * side + col,
                left == cx - r,
                top == cy - r,
                left + side <= image_width(*image),
                top + side <= image_height(*image),
                forall|i: int|
                    0 <= i < slot * ch ==> out@[i] == window_sample(*image, cx, cy, r, ch, i),
            decreases side - col,
        {
            let rgba = pixel_rgba(image, left + col, top + row);
            proof {
                assert((slot + 1) * ch <= patch_len(r, ch)) by (nonlinear_arith)
                    requires
                        slot == row * side + col,
                        0 <= row < side,
                        0 <= col < side,
                        patch_len(r, ch) == ch * (side * side),
                        0 < ch,
                ;
                assert(slot + 1 <= side * side && side * side <= 65535 * 65535) by (nonlinear_arith)
                    requires
                        slot == row * side + col,
                        0 <= row < side,
                        0 <= col < side,
                        side <= 65535,
                ;
            }
            let ghost before = out@;
            let stored = store_pixel(out, slot, &rgba);
            assert(stored);
            proof {
                assert forall|i: int| 0 <= i < (slot + 1) * ch implies out@[i] == window_sample(
                    *image,
                    cx,
                    cy,
                    r,
                    ch,
                    i,
                ) by {
                    assert(slot * ch <= (slot + 1) * ch) by (nonlinear_arith)
                        requires
                            0 <= ch,
                    ;
                    if i >= slot * ch {
                        let c = i - slot * ch;
                        assert((slot + 1) * ch == slot * ch + ch) by (nonlinear_arith);
                        lemma_sample_place(side as int, ch, row as int, col as int, c);
                        assert(i == (row * side + col) * ch + c);
                    } else {
                        assert(out@[i] == before[i]);
                    }
                }
            }
            slot = slot + 1;
            col = col + 1;
        }
        row = row + 1;
        assert(slot == row * side) by (nonlinear_arith)
            requires
                slot == (row - 1) * side + side,
        ;
    }
    assert(slot * ch == patch_len(r, ch)) by (nonlinear_arith)
        requires
            slot == side * side,
            patch_len(r, ch) == ch * (side * side),
    ;
    assert(out@ =~= window_samples(*image, cx, cy, r, ch));
    Ok(())
}

} // verus!
