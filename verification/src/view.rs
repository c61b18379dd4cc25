//! The views of a light field: a camera position and the image taken from it.

use vstd::prelude::*;
use image::DynamicImage;

verus! {

/// A camera position on the camera plane, in a fixed-point unit that is the
/// same for all views of one light field.
#[derive(Clone, Copy, Debug, PartialEq, Eq, Structural)]
pub struct Position {
    pub x: i64,
    pub y: i64,
}

/// A pixel of an image: its column and its row.
#[derive(Clone, Copy, Debug, PartialEq, Eq, Structural)]
pub struct Pixel {
    pub x: u32,
    pub y: u32,
}

/// One view of the scene.
pub struct CameraView {
    pub pos: Position,
    pub image: DynamicImage,
}

/// The camera positions of a sequence of views, in their order.
pub open spec fn positions(views: Seq<CameraView>) -> Seq<Position> {
    views.map_values(|v: CameraView| v.pos)
}

} // verus!
