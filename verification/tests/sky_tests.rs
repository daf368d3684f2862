use stars::raster::GrayPlane;
use stars::sky::{background_levels, detect_horizon_y, order_statistic};

fn plane_from(width: u32, height: u32, f: impl Fn(u32, u32) -> u8) -> GrayPlane {
    let mut px = Vec::with_capacity((width * height) as usize);
    for y in 0..height {
        for x in 0..width {
            px.push(f(x, y));
        }
    }
    GrayPlane::from_raw(width, height, px).unwrap()
}

#[test]
fn short_frames_have_no_horizon() {
    let img = plane_from(20, 99, |_, y| if y > 50 { 200 } else { 0 });
    assert_eq!(detect_horizon_y(&img), None);
}

#[test]
fn dark_sky_has_no_horizon() {
    let img = plane_from(20, 100, |_, _| 5);
    assert_eq!(detect_horizon_y(&img), None);
}

#[test]
fn horizon_is_the_lowest_edge_row() {
    // ground from row 80 down: the first row scanned upwards whose vertical
    // step to two rows above is large is row 81
    let img = plane_from(20, 100, |_, y| if y >= 80 { 200 } else { 0 });
    assert_eq!(detect_horizon_y(&img), Some(81));
}

#[test]
fn horizon_from_bright_and_rough_rows() {
    // rows from 60 down alternate columns of 0 and 255 (mean > 32, variance
    // > 110) with no vertical step: row 89, the first scanned, is landscape
    let img = plane_from(30, 100, |x, y| if y >= 60 && (x / 4) % 2 == 0 { 255 } else if y >= 60 { 0 } else { 3 });
    assert_eq!(detect_horizon_y(&img), Some(89));
}

#[test]
fn horizon_search_stops_at_two_fifths() {
    // the only edge is at row 30, above the search range starting at row 40
    let img = plane_from(20, 100, |_, y| if y >= 29 { 200 } else { 0 });
    assert_eq!(detect_horizon_y(&img), None);
}

#[test]
fn order_statistic_of_small_lists() {
    assert_eq!(order_statistic(&vec![5, 1, 4, 2, 3], 2), 3);
    assert_eq!(order_statistic(&vec![5, 1, 4, 2, 3], 0), 1);
    assert_eq!(order_statistic(&vec![5, 1, 4, 2, 3], 4), 5);
    assert_eq!(order_statistic(&vec![7, 7, 0, 7], 1), 7);
    assert_eq!(order_statistic(&vec![255, 0], 1), 255);
}

#[test]
fn background_median_and_mad() {
    let img = plane_from(6, 6, |x, y| match (x, y) {
        (0, 0) => 10,
        (3, 0) => 20,
        (0, 3) => 30,
        (3, 3) => 40,
        _ => 99,
    });
    assert_eq!(background_levels(&img, 6), Some((30, 10)));
    // only row 0 is sampled: [10, 20] -> median 20, deviations [10, 0] -> 10
    assert_eq!(background_levels(&img, 1), Some((20, 10)));
    assert_eq!(background_levels(&img, 0), None);
}

#[test]
fn narrow_frames_have_no_horizon() {
    // an edge at row 80 that a wider frame would report
    let img = plane_from(14, 100, |_, y| if y >= 80 { 200 } else { 0 });
    assert_eq!(detect_horizon_y(&img), None);
    let img = plane_from(15, 100, |_, y| if y >= 80 { 200 } else { 0 });
    assert_eq!(detect_horizon_y(&img), Some(81));
    let img = plane_from(3, 120, |_, y| if y >= 80 { 200 } else { 0 });
    assert_eq!(detect_horizon_y(&img), None);
}
