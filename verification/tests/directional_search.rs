use image::{DynamicImage, GrayImage, Luma};
use lightfield_search::config::SearchConfig;
use lightfield_search::correspondence::{find_correspondences, query_samples};
use lightfield_search::error::SearchError;
use lightfield_search::extract::{extract, SubPixel};
use lightfield_search::patch::ImagePatch;
use lightfield_search::search::{
    candidate_at, offer, sampled_pixels, search_step, search_view, walk, MatchCandidate,
    ViewResult,
};
use lightfield_search::view::{CameraView, Pixel, Position};

/// An image in which no two windows of a row or of a column look alike, moved
/// by `(shift_x, shift_y)` pixels.
fn pattern(width: u32, height: u32, shift_x: i64, shift_y: i64) -> DynamicImage {
    DynamicImage::ImageLuma8(GrayImage::from_fn(width, height, |x, y| {
        let u: i64 = i64::from(x) + 1000 - shift_x;
        let v: i64 = i64::from(y) + 1000 - shift_y;
        Luma([((u * 7 + v * 13) % 251) as u8])
    }))
}

fn flat(width: u32, height: u32) -> DynamicImage {
    DynamicImage::ImageLuma8(GrayImage::from_fn(width, height, |_, _| Luma([90])))
}

fn view(x: i64, y: i64, image: DynamicImage) -> CameraView {
    CameraView { pos: Position { x, y }, image }
}

fn patch_at(image: &DynamicImage, x: u32, y: u32, radius: u32) -> ImagePatch {
    let cfg = SearchConfig::new(radius, 1, 16).unwrap();
    let mut patch = ImagePatch::new(&cfg);
    extract(image, &SubPixel::at(Pixel { x, y }), &mut patch).unwrap();
    patch
}

#[test]
fn step_along_x_is_one_pixel() {
    let step = search_step(&Position { x: 11, y: 2 }, &Position { x: 7, y: 2 }).unwrap();
    assert_eq!(step.dx(), 4);
    assert_eq!(step.dy(), 0);
    assert_eq!(step.scale(), 4);
    let x: f64 = step.dx() as f64 / step.scale() as f64;
    let y: f64 = step.dy() as f64 / step.scale() as f64;
    assert!((x - 1.0).abs() < 1e-6);
    assert!(y.abs() < 1e-6);
}

#[test]
fn step_is_scaled_by_the_greater_magnitude() {
    let a = search_step(&Position { x: 2, y: -5 }, &Position { x: 0, y: 0 }).unwrap();
    assert_eq!((a.dx(), a.dy(), a.scale()), (2, -5, 5));
    let b = search_step(&Position { x: 0, y: 0 }, &Position { x: 3, y: 3 }).unwrap();
    assert_eq!((b.dx(), b.dy(), b.scale()), (-3, -3, 3));
    let c = search_step(&Position { x: -9, y: 1 }, &Position { x: 0, y: 0 }).unwrap();
    assert_eq!((c.dx(), c.dy(), c.scale()), (-9, 1, 9));
    let d = search_step(&Position { x: 0, y: 0 }, &Position { x: 0, y: 10 }).unwrap();
    assert_eq!((d.dx(), d.dy(), d.scale()), (0, -10, 10));
}

#[test]
fn step_between_the_ends_of_the_range() {
    let far = search_step(
        &Position { x: i64::MAX, y: i64::MIN },
        &Position { x: i64::MIN, y: i64::MAX },
    )
    .unwrap();
    assert_eq!(far.dx(), 18446744073709551615);
    assert_eq!(far.dy(), -18446744073709551615);
    assert_eq!(far.scale(), u64::MAX);
}

#[test]
fn same_position_gives_no_step() {
    assert_eq!(search_step(&Position { x: 5, y: -5 }, &Position { x: 5, y: -5 }), None);
    assert!(search_step(&Position { x: 5, y: -5 }, &Position { x: 5, y: -4 }).is_some());
}

#[test]
fn same_position_is_degenerate() {
    let image = pattern(20, 20, 0, 0);
    let patch = patch_at(&image, 10, 10, 1);
    let target = view(3, 3, pattern(20, 20, 0, 0));
    let result = search_view(&Position { x: 3, y: 3 }, &patch, &target, Pixel { x: 10, y: 10 }, 50);
    assert_eq!(result, ViewResult::DegenerateGeometry);
}

#[test]
fn candidates_lie_on_the_line() {
    let step = search_step(&Position { x: 2, y: -5 }, &Position { x: 0, y: 0 }).unwrap();
    let start = candidate_at(Pixel { x: 10, y: 20 }, &step, 0);
    assert_eq!(start, SubPixel { x: 50, y: 100, scale: 5 });
    let third = candidate_at(Pixel { x: 10, y: 20 }, &step, 3);
    assert_eq!(third, SubPixel { x: 56, y: 85, scale: 5 });
    let far = search_step(
        &Position { x: i64::MAX, y: i64::MIN },
        &Position { x: i64::MIN, y: i64::MAX },
    )
    .unwrap();
    let last = candidate_at(Pixel { x: u32::MAX, y: u32::MAX }, &far, u32::MAX);
    assert_eq!(last.x, 2 * 4294967295 * 18446744073709551615);
    assert_eq!(last.y, 0);
}

#[test]
fn vertical_walk_advances_one_row_per_step() {
    let image = flat(100, 100);
    let step = search_step(&Position { x: 0, y: 0 }, &Position { x: 0, y: 10 }).unwrap();
    let pixels = sampled_pixels(&image, 3, Pixel { x: 50, y: 50 }, &step, 1000);
    assert!(pixels.len() <= 50);
    assert_eq!(pixels.len(), 48);
    for (k, p) in pixels.iter().enumerate() {
        assert_eq!(p.x, 50);
        assert_eq!(p.y, 50 - u32::try_from(k).unwrap());
    }
    let down = search_step(&Position { x: 0, y: 10 }, &Position { x: 0, y: 0 }).unwrap();
    let below = sampled_pixels(&image, 0, Pixel { x: 50, y: 50 }, &down, 1000);
    assert_eq!(below.len(), 50);
    assert_eq!(below[0], Pixel { x: 50, y: 50 });
    assert_eq!(below[49], Pixel { x: 50, y: 99 });
}

#[test]
fn sloped_walk_samples_the_nearest_pixels() {
    let image = flat(30, 30);
    let up = search_step(&Position { x: 1, y: 2 }, &Position { x: 0, y: 0 }).unwrap();
    let pixels = sampled_pixels(&image, 0, Pixel { x: 10, y: 10 }, &up, 5);
    assert_eq!(
        pixels,
        vec![
            Pixel { x: 10, y: 10 },
            Pixel { x: 11, y: 11 },
            Pixel { x: 11, y: 12 },
            Pixel { x: 12, y: 13 },
            Pixel { x: 12, y: 14 },
        ]
    );
    let back = search_step(&Position { x: 0, y: 0 }, &Position { x: 1, y: 2 }).unwrap();
    let pixels = sampled_pixels(&image, 0, Pixel { x: 10, y: 10 }, &back, 5);
    assert_eq!(
        pixels,
        vec![
            Pixel { x: 10, y: 10 },
            Pixel { x: 10, y: 9 },
            Pixel { x: 9, y: 8 },
            Pixel { x: 9, y: 7 },
            Pixel { x: 8, y: 6 },
        ]
    );
}

#[test]
fn walk_ends_at_the_edge_or_at_the_cap() {
    let image = flat(12, 9);
    let right = search_step(&Position { x: 1, y: 0 }, &Position { x: 0, y: 0 }).unwrap();
    let all = sampled_pixels(&image, 1, Pixel { x: 4, y: 4 }, &right, 100);
    assert_eq!(all.len(), 7);
    assert_eq!(all[6], Pixel { x: 10, y: 4 });
    let capped = sampled_pixels(&image, 1, Pixel { x: 4, y: 4 }, &right, 3);
    assert_eq!(capped.len(), 3);
    assert_eq!(capped[2], Pixel { x: 6, y: 4 });
    let none = sampled_pixels(&image, 1, Pixel { x: 4, y: 4 }, &right, 0);
    assert!(none.is_empty());
    let outside = sampled_pixels(&image, 1, Pixel { x: 0, y: 4 }, &right, 100);
    assert!(outside.is_empty());
}

#[test]
fn walk_finds_the_shifted_patch() {
    let reference = pattern(40, 30, 0, 0);
    let target = pattern(40, 30, 5, 0);
    let patch = patch_at(&reference, 10, 10, 1);
    let step = search_step(&Position { x: 4, y: 0 }, &Position { x: 0, y: 0 }).unwrap();
    let result = walk(&target, &patch, Pixel { x: 10, y: 10 }, &step, 1000);
    let expected = MatchCandidate { position: SubPixel { x: 60, y: 40, scale: 4 }, score: 0 };
    assert_eq!(result, ViewResult::Match(expected));
}

#[test]
fn walk_keeps_the_least_score_where_none_is_zero() {
    // the target is the reference moved by five columns and one row: the walk
    // along the row never meets the patch itself
    let reference = pattern(40, 30, 0, 0);
    let target = pattern(40, 30, 5, 1);
    let patch = patch_at(&reference, 10, 10, 1);
    let step = search_step(&Position { x: 4, y: 0 }, &Position { x: 0, y: 0 }).unwrap();
    let result = walk(&target, &patch, Pixel { x: 10, y: 10 }, &step, 1000);
    let mut least: Option<(u32, u64)> = None;
    for k in 0u32..28 {
        let score = patch.cmp(&patch_at(&target, 10 + k, 10, 1));
        if least.map_or(true, |(_, s)| score < s) {
            least = Some((k, score));
        }
    }
    let (k, score) = least.unwrap();
    assert!(score > 0);
    let position = candidate_at(Pixel { x: 10, y: 10 }, &step, k);
    assert_eq!(result, ViewResult::Match(MatchCandidate { position, score }));
}

#[test]
fn first_candidate_wins_a_tie() {
    let image = flat(20, 20);
    let patch = patch_at(&image, 5, 5, 1);
    let step = search_step(&Position { x: 0, y: 3 }, &Position { x: 0, y: 0 }).unwrap();
    let result = walk(&image, &patch, Pixel { x: 5, y: 5 }, &step, 1000);
    let expected = MatchCandidate { position: SubPixel { x: 15, y: 15, scale: 3 }, score: 0 };
    assert_eq!(result, ViewResult::Match(expected));
}

#[test]
fn walk_without_a_candidate_finds_no_match() {
    let image = pattern(20, 20, 0, 0);
    let patch = patch_at(&image, 10, 10, 1);
    let step = search_step(&Position { x: 4, y: 0 }, &Position { x: 0, y: 0 }).unwrap();
    assert_eq!(walk(&image, &patch, Pixel { x: 10, y: 10 }, &step, 0), ViewResult::NoMatchFound);
    let small = view(0, 0, pattern(2, 2, 0, 0));
    let result = search_view(&Position { x: 4, y: 0 }, &patch, &small, Pixel { x: 10, y: 10 }, 50);
    assert_eq!(result, ViewResult::NoMatchFound);
}

#[test]
fn walk_stops_at_the_cap() {
    let reference = pattern(40, 30, 0, 0);
    let target = pattern(40, 30, 5, 0);
    let patch = patch_at(&reference, 10, 10, 1);
    let step = search_step(&Position { x: 4, y: 0 }, &Position { x: 0, y: 0 }).unwrap();
    // the patch itself is the sixth candidate
    let short = walk(&target, &patch, Pixel { x: 10, y: 10 }, &step, 5);
    let full = walk(&target, &patch, Pixel { x: 10, y: 10 }, &step, 6);
    match (short, full) {
        (ViewResult::Match(a), ViewResult::Match(b)) => {
            assert!(a.score > 0);
            assert_eq!(b.score, 0);
            assert_eq!(b.position, SubPixel { x: 60, y: 40, scale: 4 });
        },
        _ => panic!("both walks have candidates"),
    }
}

#[test]
fn offered_candidate_replaces_only_a_worse_one() {
    let first = MatchCandidate { position: SubPixel { x: 1, y: 1, scale: 1 }, score: 10 };
    let equal = MatchCandidate { position: SubPixel { x: 2, y: 1, scale: 1 }, score: 10 };
    let better = MatchCandidate { position: SubPixel { x: 3, y: 1, scale: 1 }, score: 9 };
    let worse = MatchCandidate { position: SubPixel { x: 4, y: 1, scale: 1 }, score: 11 };
    assert_eq!(offer(ViewResult::NoMatchFound, first), ViewResult::Match(first));
    assert_eq!(offer(ViewResult::DegenerateGeometry, first), ViewResult::Match(first));
    assert_eq!(offer(ViewResult::Match(first), equal), ViewResult::Match(first));
    assert_eq!(offer(ViewResult::Match(first), better), ViewResult::Match(better));
    assert_eq!(offer(ViewResult::Match(first), worse), ViewResult::Match(first));
}

#[test]
fn query_collects_one_result_for_each_other_view() {
    let views = vec![
        view(0, 0, pattern(40, 30, 5, 0)),
        view(4, 0, pattern(40, 30, 0, 0)),
        view(4, 0, pattern(40, 30, 9, 9)),
        view(4, 8, pattern(40, 30, 0, -3)),
    ];
    let cfg = SearchConfig::new(1, 1, 1000).unwrap();
    let record = find_correspondences(&views, 1, Pixel { x: 10, y: 10 }, &cfg).unwrap();
    assert_eq!(record.reference_pixel, Pixel { x: 10, y: 10 });
    assert_eq!(
        record.results,
        vec![
            ViewResult::Match(MatchCandidate {
                position: SubPixel { x: 60, y: 40, scale: 4 },
                score: 0,
            }),
            ViewResult::DegenerateGeometry,
            ViewResult::Match(MatchCandidate {
                position: SubPixel { x: 80, y: 56, scale: 8 },
                score: 0,
            }),
        ]
    );
}

#[test]
fn query_keeps_the_order_of_the_views() {
    let views = vec![
        view(0, 0, pattern(40, 30, 0, 0)),
        view(-2, 0, pattern(40, 30, 2, 0)),
        view(-3, 0, pattern(40, 30, 3, 0)),
    ];
    let cfg = SearchConfig::new(1, 1, 1000).unwrap();
    let record = find_correspondences(&views, 0, Pixel { x: 10, y: 10 }, &cfg).unwrap();
    assert_eq!(
        record.results,
        vec![
            ViewResult::Match(MatchCandidate {
                position: SubPixel { x: 24, y: 20, scale: 2 },
                score: 0,
            }),
            ViewResult::Match(MatchCandidate {
                position: SubPixel { x: 39, y: 30, scale: 3 },
                score: 0,
            }),
        ]
    );
    let last = find_correspondences(&views, 2, Pixel { x: 10, y: 10 }, &cfg).unwrap();
    assert_eq!(last.results.len(), 2);
    let alone = vec![view(0, 0, pattern(40, 30, 0, 0))];
    let record = find_correspondences(&alone, 0, Pixel { x: 10, y: 10 }, &cfg).unwrap();
    assert!(record.results.is_empty());
}

#[test]
fn query_with_a_zero_cap_finds_nothing() {
    let views = vec![view(0, 0, pattern(40, 30, 0, 0)), view(1, 0, pattern(40, 30, 0, 0))];
    let cfg = SearchConfig::new(1, 1, 0).unwrap();
    let record = find_correspondences(&views, 0, Pixel { x: 10, y: 10 }, &cfg).unwrap();
    assert_eq!(record.results, vec![ViewResult::NoMatchFound]);
}

#[test]
fn query_fails_where_the_reference_pixel_has_no_patch() {
    let views = vec![view(0, 0, pattern(40, 30, 0, 0)), view(1, 0, pattern(40, 30, 0, 0))];
    let cfg = SearchConfig::new(2, 1, 100).unwrap();
    for (x, y) in [(1u32, 10u32), (10, 1), (38, 10), (10, 28), (40, 30)] {
        let result = find_correspondences(&views, 0, Pixel { x, y }, &cfg);
        assert_eq!(result.err(), Some(SearchError::OutOfBounds));
    }
    assert!(find_correspondences(&views, 0, Pixel { x: 2, y: 2 }, &cfg).is_ok());
    assert!(find_correspondences(&views, 1, Pixel { x: 37, y: 27 }, &cfg).is_ok());
}

#[test]
fn query_fails_where_the_views_differ() {
    let views = vec![view(0, 0, pattern(40, 30, 0, 0)), view(1, 0, pattern(40, 31, 0, 0))];
    let cfg = SearchConfig::new(1, 1, 100).unwrap();
    let result = find_correspondences(&views, 0, Pixel { x: 10, y: 10 }, &cfg);
    assert_eq!(result.err(), Some(SearchError::InconsistentViewGeometry));
    // the views are checked before the reference pixel is
    let result = find_correspondences(&views, 0, Pixel { x: 0, y: 0 }, &cfg);
    assert_eq!(result.err(), Some(SearchError::InconsistentViewGeometry));
}

#[test]
fn query_of_no_view_fails() {
    let views: Vec<CameraView> = Vec::new();
    let cfg = SearchConfig::new(1, 1, 100).unwrap();
    let result = find_correspondences(&views, 0, Pixel { x: 10, y: 10 }, &cfg);
    assert_eq!(result.err(), Some(SearchError::EmptyViewSet));
    assert!(query_samples(&views, 0, Pixel { x: 10, y: 10 }, &cfg).is_empty());
}

#[test]
fn query_samples_each_view_along_its_line() {
    let views = vec![
        view(0, 0, flat(12, 9)),
        view(4, 0, flat(12, 9)),
        view(4, 0, flat(12, 9)),
        view(4, 8, flat(12, 9)),
    ];
    let cfg = SearchConfig::new(1, 1, 4).unwrap();
    let samples = query_samples(&views, 1, Pixel { x: 6, y: 4 }, &cfg);
    assert_eq!(
        samples,
        vec![
            vec![
                Pixel { x: 6, y: 4 },
                Pixel { x: 7, y: 4 },
                Pixel { x: 8, y: 4 },
                Pixel { x: 9, y: 4 },
            ],
            vec![Pixel { x: 6, y: 4 }],
            vec![],
            vec![Pixel { x: 6, y: 4 }, Pixel { x: 6, y: 3 }, Pixel { x: 6, y: 2 }, Pixel { x: 6, y: 1 }],
        ]
    );
}
