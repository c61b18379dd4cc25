//! The query: for a pixel of a reference view, the best candidate in every
//! other view of the light field.

use vstd::prelude::*;
use image::DynamicImage;
use crate::config::SearchConfig;
use crate::error::SearchError;
use crate::extract::{extract, window_samples, window_visible, SubPixel};
use crate::patch::ImagePatch;
use crate::raster::{channel_count, image_channel_count, image_height, image_width};
use crate::search::{
    sampled_pixels, search_step, search_view, step_between, view_result, walk_pixels, ViewResult,
};
use crate::view::{CameraView, Pixel};

verus! {

/// The size of an image and the number of channels that it stores.
#[derive(Clone, Copy, Debug, PartialEq, Eq, Structural)]
pub struct ImageGeometry {
    pub width: u32,
    pub height: u32,
    pub channels: u8,
}

/// The geometry of an image.
pub open spec fn geometry(image: DynamicImage) -> ImageGeometry {
    ImageGeometry {
        width: image_width(image),
        height: image_height(image),
        channels: image_channel_count(image),
    }
}

/// The geometries of the images of a sequence of views, in their order.
pub open spec fn geometries(views: Seq<CameraView>) -> Seq<ImageGeometry> {
    Seq::new(views.len(), |i: int| geometry(views[i].image))
}

/// Whether all geometries of a sequence are the same.
pub open spec fn uniform(all: Seq<ImageGeometry>) -> bool {
    forall|i: int| 0 <= i < all.len() ==> #[trigger] all[i] == all[0]
}

/// Whether all views have images of one width, height and channel count.
pub open spec fn consistent(views: Seq<CameraView>) -> bool {
    uniform(geometries(views))
}

/// The geometry of an image.
pub fn geometry_of(image: &DynamicImage) -> (g: ImageGeometry)
    ensures
        g == geometry(*image),
{
    ImageGeometry { width: image.width(), height: image.height(), channels: channel_count(image) }
}

/// Whether all geometries are the same.
pub fn is_uniform(all: &Vec<ImageGeometry>) -> (same: bool)
    ensures
        same == uniform(all@),
{
    let mut i: usize = 1;
    while i < all.len()
        invariant
            1 <= i,
            forall|j: int| 0 <= j < i && j < all@.len() ==> #[trigger] all@[j] == all@[0],
        decreases all.len() - i,
    {
        if all[i] != all[0] {
            return false;
        }
        i += 1;
    }
    true
}

/// Checks a collection of views before it is searched: `EmptyViewSet` where it
/// has no view, `InconsistentViewGeometry` where its views differ in width,
/// height or channel count.
pub fn validate_views(views: &Vec<CameraView>) -> (result: Result<(), SearchError>)
    ensures
        result == (if views@.len() == 0 {
            Err::<(), SearchError>(SearchError::EmptyViewSet)
        } else if !consistent(views@) {
            Err::<(), SearchError>(SearchError::InconsistentViewGeometry)
        } else {
            Ok::<(), SearchError>(())
        }),
{
    if views.len() == 0 {
        return Err(SearchError::EmptyViewSet);
    }
    let mut all: Vec<ImageGeometry> = Vec::with_capacity(views.len());
    let mut i: usize = 0;
    while i < views.len()
        invariant
            i <= views@.len(),
            all@.len() == i,
            forall|j: int| 0 <= j < i ==> all@[j] == geometry(views@[j].image),
        decreases views.len() - i,
    {
        all.push(geometry_of(&views[i].image));
        i += 1;
    }
    assert(all@ =~= geometries(views@));
    if is_uniform(&all) {
        Ok(())
    } else {
        Err(SearchError::InconsistentViewGeometry)
    }
}

/// What a query found: for each view other than the reference view, in the
/// order of the views, the result of the search in it.
#[derive(Clone, Debug)]
pub struct CorrespondenceRecord {
    pub reference_pixel: Pixel,
    pub results: Vec<ViewResult>,
}

/// The index of the view that result `j` of a record belongs to: the views
/// are counted without the reference view.
pub open spec fn searched_view(reference: int, j: int) -> int {
    if j < reference {
        j
    } else {
        j + 1
    }
}

/// The results that a query for `pixel` of the view `reference` gives.
pub open spec fn expected_results(
    views: Seq<CameraView>,
    reference: int,
    pixel: Pixel,
    radius: int,
    channels: int,
    cap: nat,
) -> Seq<ViewResult> {
    Seq::new(
        (views.len() - 1) as nat,
        |j: int|
            view_result(
                views[reference].pos,
                window_samples(
                    views[reference].image,
                    pixel.x as int,
                    pixel.y as int,
                    radius,
                    channels,
                ),
                radius,
                channels,
                views[searched_view(reference, j)],
                pixel,
                cap,
            ),
    )
}

/// Searches every view but the reference view for the place that corresponds
/// to `pixel` of the reference view.
///
/// Fails with `EmptyViewSet` where there is no view, with
/// `InconsistentViewGeometry` where the views differ in width, height or
/// channel count, and with `OutOfBounds` where the window round `pixel` does
/// not lie inside the reference image. A target view in which nothing is found
/// does not fail the query: its result says so.
///
/// `reference` is the index of a view of the set.
pub fn find_correspondences(
    views: &Vec<CameraView>,
    reference: usize,
    pixel: Pixel,
    cfg: &SearchConfig,
) -> (result: Result<CorrespondenceRecord, SearchError>)
    requires
        views@.len() > 0 ==> reference < views@.len(),
    ensures
        match result {
            Ok(record) => {
                &&& views@.len() > 0
                &&& consistent(views@)
                &&& window_visible(
                    views@[reference as int].image,
                    SubPixel::middle_of(pixel),
                    cfg.spec_patch_radius() as int,
                )
                &&& record.reference_pixel == pixel
                &&& record.results@ == expected_results(
                    views@,
                    reference as int,
                    pixel,
                    cfg.spec_patch_radius() as int,
                    cfg.spec_channels() as int,
                    cfg.spec_max_walk_steps() as nat,
                )
            },
            Err(e) => if views@.len() == 0 {
                e == SearchError::EmptyViewSet
            } else if !consistent(views@) {
                e == SearchError::InconsistentViewGeometry
            } else {
                &&& e == SearchError::OutOfBounds
                &&& !window_visible(
                    views@[reference as int].image,
                    SubPixel::middle_of(pixel),
                    cfg.spec_patch_radius() as int,
                )
            },
        },
{
    match validate_views(views) {
        Err(e) => {
            return Err(e);
        },
        Ok(()) => {},
    }
    let origin = &views[reference];
    let mut patch = ImagePatch::new(cfg);
    let middle = SubPixel::at(pixel);
    match extract(&origin.image, &middle, &mut patch) {
        Err(e) => {
            return Err(e);
        },
        Ok(()) => {},
    }
    let cap: u32 = cfg.max_walk_steps();
    let ghost radius: int = cfg.spec_patch_radius() as int;
    let ghost channels: int = cfg.spec_channels() as int;
    let ghost expected = expected_results(
        views@,
        reference as int,
        pixel,
        radius,
        channels,
        cap as nat,
    );
    let mut results: Vec<ViewResult> = Vec::new();
    let mut i: usize = 0;
    while i < views.len()
        invariant
            i <= views@.len(),
            reference < views@.len(),
            *origin == views@[reference as int],
            radius == patch.spec_radius(),
            channels == patch.spec_channels(),
            patch@ == window_samples(
                origin.image,
                pixel.x as int,
                pixel.y as int,
                radius,
                channels,
            ),
            expected == expected_results(
                views@,
                reference as int,
                pixel,
                radius,
                channels,
                cap as nat,
            ),
            results@.len() == (if i <= reference {
                i as int
            } else {
                i - 1
            }),
            forall|j: int| 0 <= j < results@.len() ==> results@[j] == expected[j],
        decreases views.len() - i,
    {
        if i != reference {
            let found = search_view(&origin.pos, &patch, &views[i], pixel, cap);
            proof {
                assert(searched_view(reference as int, results@.len() as int) == i);
            }
            results.push(found);
        }
        i += 1;
    }
    assert(results@ =~= expected);
    Ok(CorrespondenceRecord { reference_pixel: pixel, results })
}

/// The pixels that a query samples in the view `index`: in the reference view
/// the queried pixel alone, in a view whose camera stands where the
/// reference's does none, and in every other view those of its walk.
pub open spec fn view_pixels(
    views: Seq<CameraView>,
    reference: int,
    index: int,
    pixel: Pixel,
    radius: int,
    cap: nat,
) -> Seq<Pixel> {
    if index == reference {
        seq![pixel]
    } else if views[reference].pos == views[index].pos {
        Seq::empty()
    } else {
        walk_pixels(
            views[index].image,
            radius,
            pixel,
            step_between(views[reference].pos, views[index].pos),
            cap,
        )
    }
}

/// A view whose camera stands where the reference's does is not searched: the
/// query samples no pixel in it, and its result is `DegenerateGeometry`.
pub proof fn lemma_degenerate_view_is_not_sampled(
    views: Seq<CameraView>,
    reference: int,
    index: int,
    pixel: Pixel,
    patch: Seq<u8>,
    radius: int,
    channels: int,
    cap: nat,
)
    requires
        index != reference,
        views[reference].pos == views[index].pos,
    ensures
        view_pixels(views, reference, index, pixel, radius, cap).len() == 0,
        view_result(views[reference].pos, patch, radius, channels, views[index], pixel, cap)
            == ViewResult::DegenerateGeometry,
{
}

/// For an observer that marks what a query looks at: for each view, in the
/// order of the views, the pixels that the query samples in it. The entry of
/// the reference view holds the queried pixel.
pub fn query_samples(
    views: &Vec<CameraView>,
    reference: usize,
    pixel: Pixel,
    cfg: &SearchConfig,
) -> (samples: Vec<Vec<Pixel>>)
    requires
        views@.len() > 0 ==> reference < views@.len(),
    ensures
        samples@.len() == views@.len(),
        forall|i: int|
            0 <= i < views@.len() ==> (#[trigger] samples@[i])@ == view_pixels(
                views@,
                reference as int,
                i,
                pixel,
                cfg.spec_patch_radius() as int,
                cfg.spec_max_walk_steps() as nat,
            ),
{
    let radius: u32 = cfg.patch_radius();
    let cap: u32 = cfg.max_walk_steps();
    let mut samples: Vec<Vec<Pixel>> = Vec::new();
    let mut i: usize = 0;
    while i < views.len()
        invariant
            i <= views@.len(),
            views@.len() > 0 ==> reference < views@.len(),
            samples@.len() == i,
            forall|j: int|
                0 <= j < i ==> (#[trigger] samples@[j])@ == view_pixels(
                    views@,
                    reference as int,
                    j,
                    pixel,
                    radius as int,
                    cap as nat,
                ),
        decreases views.len() - i,
    {
        let mut seen: Vec<Pixel> = Vec::new();
        if i == reference {
            seen.push(pixel);
            assert(seen@ =~= seq![pixel]);
        } else {
            match search_step(&views[reference].pos, &views[i].pos) {
                None => {
                    assert(seen@ =~= Seq::<Pixel>::empty());
                },
                Some(step) => {
                    seen = sampled_pixels(&views[i].image, radius, pixel, &step, cap);
                },
            }
        }
        samples.push(seen);
        i += 1;
    }
    samples
}

} // verus!
