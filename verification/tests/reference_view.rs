use image::{DynamicImage, GrayImage, RgbImage};
use lightfield_search::correspondence::{geometry_of, is_uniform, validate_views, ImageGeometry};
use lightfield_search::error::SearchError;
use lightfield_search::geometry::{average_position, closest_view, is_nearer};
use lightfield_search::view::{CameraView, Position};

fn view(x: i64, y: i64) -> CameraView {
    CameraView { pos: Position { x, y }, image: DynamicImage::ImageLuma8(GrayImage::new(4, 4)) }
}

#[test]
fn mean_of_no_view_fails() {
    let views: Vec<CameraView> = Vec::new();
    assert_eq!(average_position(&views), Err(SearchError::EmptyViewSet));
}

#[test]
fn mean_of_a_single_view_is_its_position() {
    let views = vec![view(-17, 4242)];
    assert_eq!(average_position(&views), Ok(Position { x: -17, y: 4242 }));
    let far = vec![view(i64::MIN, i64::MAX)];
    assert_eq!(average_position(&far), Ok(Position { x: i64::MIN, y: i64::MAX }));
}

#[test]
fn mean_of_identical_positions_is_that_position() {
    let views = vec![view(3, -7), view(3, -7), view(3, -7), view(3, -7), view(3, -7)];
    assert_eq!(average_position(&views), Ok(Position { x: 3, y: -7 }));
    let far = vec![view(i64::MAX, i64::MIN), view(i64::MAX, i64::MIN), view(i64::MAX, i64::MIN)];
    assert_eq!(average_position(&far), Ok(Position { x: i64::MAX, y: i64::MIN }));
}

#[test]
fn mean_is_exact_where_it_divides() {
    let views = vec![view(0, 0), view(10, 0), view(5, 9)];
    assert_eq!(average_position(&views), Ok(Position { x: 5, y: 3 }));
}

#[test]
fn mean_is_rounded_to_the_nearest_unit() {
    // 3 / 2 and -3 / 2: a half rounds away from zero
    let halves = vec![view(1, -1), view(2, -2)];
    assert_eq!(average_position(&halves), Ok(Position { x: 2, y: -2 }));
    // 4 / 3 and -5 / 3
    let thirds = vec![view(1, -1), view(1, -2), view(2, -2)];
    assert_eq!(average_position(&thirds), Ok(Position { x: 1, y: -2 }));
}

#[test]
fn closest_of_no_view_fails() {
    let views: Vec<CameraView> = Vec::new();
    assert_eq!(closest_view(&views, &Position { x: 0, y: 0 }), Err(SearchError::EmptyViewSet));
}

#[test]
fn closest_view_is_the_nearest() {
    let views = vec![view(0, 0), view(10, 0), view(10, 10), view(0, 10)];
    assert_eq!(closest_view(&views, &Position { x: 9, y: 8 }), Ok(2));
    assert_eq!(closest_view(&views, &Position { x: 1, y: 8 }), Ok(3));
    assert_eq!(closest_view(&views, &Position { x: 6, y: -20 }), Ok(1));
}

#[test]
fn closest_view_of_an_exact_position_is_that_view() {
    let views = vec![view(0, 0), view(10, 0), view(10, 10), view(0, 10)];
    assert_eq!(closest_view(&views, &Position { x: 10, y: 10 }), Ok(2));
    assert_eq!(closest_view(&views, &Position { x: 0, y: 0 }), Ok(0));
}

#[test]
fn lowest_index_wins_a_tie() {
    let views = vec![view(0, 0), view(10, 0), view(10, 10), view(0, 10)];
    assert_eq!(closest_view(&views, &Position { x: 5, y: 5 }), Ok(0));
    assert_eq!(closest_view(&views, &Position { x: 10, y: 5 }), Ok(1));
    let twins = vec![view(7, 7), view(1, 1), view(1, 1), view(7, 7)];
    assert_eq!(closest_view(&twins, &Position { x: 1, y: 1 }), Ok(1));
    assert_eq!(closest_view(&twins, &Position { x: 7, y: 7 }), Ok(0));
}

#[test]
fn closest_view_at_the_ends_of_the_range() {
    let views = vec![view(i64::MAX, i64::MAX), view(i64::MIN, i64::MIN), view(0, 0)];
    assert_eq!(closest_view(&views, &Position { x: i64::MIN, y: i64::MIN }), Ok(1));
    assert_eq!(closest_view(&views, &Position { x: i64::MAX, y: i64::MAX }), Ok(0));
    assert_eq!(closest_view(&views, &Position { x: -1, y: 1 }), Ok(2));
    let far = vec![view(i64::MAX, i64::MAX), view(i64::MAX, i64::MAX - 1)];
    assert_eq!(closest_view(&far, &Position { x: i64::MIN, y: i64::MIN }), Ok(1));
}

#[test]
fn nearer_compares_squared_distances() {
    let target = Position { x: 0, y: 0 };
    assert!(is_nearer(&Position { x: 3, y: 4 }, &Position { x: 0, y: 6 }, &target));
    assert!(!is_nearer(&Position { x: 3, y: 4 }, &Position { x: 5, y: 0 }, &target));
    assert!(!is_nearer(&Position { x: 0, y: 6 }, &Position { x: 3, y: 4 }, &target));
    let corner = Position { x: i64::MIN, y: i64::MIN };
    let a = Position { x: i64::MAX, y: i64::MAX - 1 };
    let b = Position { x: i64::MAX, y: i64::MAX };
    assert!(is_nearer(&a, &b, &corner));
    assert!(!is_nearer(&b, &a, &corner));
    assert!(!is_nearer(&b, &b, &corner));
    assert!(is_nearer(&target, &b, &corner));
}

#[test]
fn geometry_of_an_image() {
    let grey = DynamicImage::ImageLuma8(GrayImage::new(12, 5));
    assert_eq!(geometry_of(&grey), ImageGeometry { width: 12, height: 5, channels: 1 });
    let colour = DynamicImage::ImageRgb8(RgbImage::new(3, 8));
    assert_eq!(geometry_of(&colour), ImageGeometry { width: 3, height: 8, channels: 3 });
    let alpha = DynamicImage::new_rgba8(1, 2);
    assert_eq!(geometry_of(&alpha), ImageGeometry { width: 1, height: 2, channels: 4 });
}

#[test]
fn uniform_geometries() {
    let g = ImageGeometry { width: 4, height: 3, channels: 3 };
    let wider = ImageGeometry { width: 5, height: 3, channels: 3 };
    let taller = ImageGeometry { width: 4, height: 4, channels: 3 };
    let grey = ImageGeometry { width: 4, height: 3, channels: 1 };
    assert!(is_uniform(&vec![]));
    assert!(is_uniform(&vec![g]));
    assert!(is_uniform(&vec![g, g, g]));
    assert!(!is_uniform(&vec![g, wider]));
    assert!(!is_uniform(&vec![g, g, taller]));
    assert!(!is_uniform(&vec![grey, g, g]));
}

#[test]
fn validation_of_view_sets() {
    let none: Vec<CameraView> = Vec::new();
    assert_eq!(validate_views(&none), Err(SearchError::EmptyViewSet));
    assert_eq!(validate_views(&vec![view(0, 0)]), Ok(()));
    assert_eq!(validate_views(&vec![view(0, 0), view(1, 0), view(0, 0)]), Ok(()));
    let wider = CameraView {
        pos: Position { x: 1, y: 1 },
        image: DynamicImage::ImageLuma8(GrayImage::new(5, 4)),
    };
    assert_eq!(
        validate_views(&vec![view(0, 0), wider]),
        Err(SearchError::InconsistentViewGeometry)
    );
    let taller = CameraView {
        pos: Position { x: 1, y: 1 },
        image: DynamicImage::ImageLuma8(GrayImage::new(4, 5)),
    };
    assert_eq!(
        validate_views(&vec![view(0, 0), view(2, 2), taller]),
        Err(SearchError::InconsistentViewGeometry)
    );
    let colour = CameraView {
        pos: Position { x: 1, y: 1 },
        image: DynamicImage::ImageRgb8(RgbImage::new(4, 4)),
    };
    assert_eq!(
        validate_views(&vec![colour, view(0, 0)]),
        Err(SearchError::InconsistentViewGeometry)
    );
}
