//! What the library takes on trust from the `image` crate: the size of a
//! decoded image and the colour of each of its pixels.

use vstd::prelude::*;
use image::DynamicImage;

verus! {

/// `image::DynamicImage`, a decoded image of any pixel format. The library
/// sees nothing inside it and reads it through the items below.
#[verifier::external_type_specification]
#[verifier::external_body]
pub struct ExDynamicImage(image::DynamicImage);

/// The number of pixel columns of an image.
pub uninterp spec fn image_width(image: DynamicImage) -> u32;

/// The number of pixel rows of an image.
pub uninterp spec fn image_height(image: DynamicImage) -> u32;

/// The number of channels that the image stores for each pixel.
pub uninterp spec fn image_channel_count(image: DynamicImage) -> u8;

/// The colour of the pixel in column `x` and row `y`, as the `image` crate
/// renders it in 8-bit RGBA: four samples, in the order red, green, blue, alpha.
pub uninterp spec fn image_rgba(image: DynamicImage, x: u32, y: u32) -> Seq<u8>;

/// `DynamicImage::width` returns the width of the underlying pixel buffer. It is
/// a function of the image alone; the contract gives that number its name.
pub assume_specification[ DynamicImage::width ](image: &DynamicImage) -> (width: u32)
    ensures
        width == image_width(*image),
;

/// `DynamicImage::height` returns the height of the underlying pixel buffer. It
/// is a function of the image alone; the contract gives that number its name.
pub assume_specification[ DynamicImage::height ](image: &DynamicImage) -> (height: u32)
    ensures
        height == image_height(*image),
;

/// `DynamicImage::color` followed by `ColorType::channel_count`: the number of
/// channels of the image's pixel format. It is a function of the image alone;
/// the contract gives that number its name and claims nothing else of it.
#[verifier::external_body]
pub(crate) fn channel_count(image: &DynamicImage) -> (count: u8)
    ensures
        count == image_channel_count(*image),
{
    image.color().channel_count()
}

/// `GenericImageView::get_pixel` on a `DynamicImage`: the pixel at `(x, y)`
/// converted to 8-bit RGBA. The call panics outside the image, which the
/// precondition excludes. Inside it the result is a function of the image and
/// the two coordinates; the contract gives it its name, and the array type
/// gives the four samples.
#[verifier::external_body]
pub(crate) fn pixel_rgba(image: &DynamicImage, x: u32, y: u32) -> (rgba: [u8; 4])
    requires
        x < image_width(*image),
        y < image_height(*image),
    ensures
        rgba@ == image_rgba(*image, x, y),
{
    image::GenericImageView::get_pixel(image, x, y).0
}

} // verus!
