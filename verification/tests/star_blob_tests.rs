use stars::raster::GrayPlane;
use stars::star_blobs::{label_star_blobs, select_blobs_by_area, StarBlob};

fn plane(width: u32, height: u32, set: &[(u32, u32, u8)]) -> GrayPlane {
    let mut px = vec![0u8; (width * height) as usize];
    for &(x, y, v) in set {
        px[(y * width + x) as usize] = v;
    }
    GrayPlane::from_raw(width, height, px).unwrap()
}

fn sorted(b: &StarBlob) -> Vec<(u32, u32, u8)> {
    let mut p = b.pixels.clone();
    p.sort();
    p
}

fn sample() -> GrayPlane {
    plane(
        20,
        20,
        &[
            // a blob seeded at (5, 5), grown over 8-neighbours
            (5, 5, 200),
            (6, 5, 120),
            (6, 6, 100),
            (7, 7, 95),
            // a single-pixel blob
            (10, 10, 160),
            // bright enough to grow but not to seed, and isolated
            (12, 14, 100),
            // outside the search region
            (1, 5, 255),
            (8, 18, 255),
            (18, 8, 255),
        ],
    )
}

#[test]
fn blobs_are_connected_components_in_scan_order() {
    let blobs = label_star_blobs(&sample(), 20, 150, 90);
    assert_eq!(blobs.len(), 2);
    assert_eq!(blobs[0].pixels, vec![(5, 5, 200), (6, 5, 120), (6, 6, 100), (7, 7, 95)]);
    assert_eq!(blobs[0].peak, 200);
    assert_eq!(blobs[1].pixels, vec![(10, 10, 160)]);
    assert_eq!(blobs[1].peak, 160);
}

#[test]
fn pixels_come_in_breadth_first_order() {
    // a plus shape around (5, 5) and a tail to the lower right
    let img = plane(
        12,
        12,
        &[(5, 5, 200), (5, 4, 100), (4, 5, 100), (6, 5, 100), (5, 6, 100), (7, 6, 100), (8, 7, 100)],
    );
    let blobs = label_star_blobs(&img, 12, 150, 90);
    assert_eq!(blobs.len(), 1);
    assert_eq!(
        blobs[0].pixels,
        vec![(5, 5, 200), (5, 4, 100), (4, 5, 100), (6, 5, 100), (5, 6, 100), (7, 6, 100), (8, 7, 100)]
    );
}

#[test]
fn growth_level_limits_the_blob() {
    let blobs = label_star_blobs(&sample(), 20, 150, 110);
    assert_eq!(blobs.len(), 2);
    assert_eq!(sorted(&blobs[0]), vec![(5, 5, 200), (6, 5, 120)]);
}

#[test]
fn effective_height_masks_lower_rows() {
    // rows at or below effective_height - 2 are not searched
    let blobs = label_star_blobs(&sample(), 12, 150, 90);
    assert_eq!(blobs.len(), 1);
    assert_eq!(blobs[0].pixels[0], (5, 5, 200));
    let blobs = label_star_blobs(&sample(), 13, 150, 90);
    assert_eq!(blobs.len(), 2);
}

#[test]
fn two_seeds_of_one_region_make_one_blob() {
    let img = plane(10, 10, &[(3, 3, 200), (4, 3, 180), (5, 4, 210)]);
    let blobs = label_star_blobs(&img, 10, 150, 150);
    assert_eq!(blobs.len(), 1);
    assert_eq!(blobs[0].pixels[0], (3, 3, 200));
    assert_eq!(blobs[0].pixels.len(), 3);
    assert_eq!(blobs[0].peak, 210);
}

#[test]
fn dark_frame_has_no_blobs() {
    let img = plane(8, 8, &[]);
    assert!(label_star_blobs(&img, 8, 1, 1).is_empty());
    // level zero lights the whole search region: one blob of 4 x 4 pixels
    let blobs = label_star_blobs(&img, 8, 0, 0);
    assert_eq!(blobs.len(), 1);
    assert_eq!(blobs[0].pixels.len(), 16);
    assert_eq!(blobs[0].pixels[0], (2, 2, 0));
}

#[test]
fn area_selection_keeps_order_and_counts_rejections() {
    let blob = |n: u32| StarBlob { pixels: (0..n).map(|i| (i, 0, 1)).collect(), peak: 1 };
    let blobs = vec![blob(1), blob(3), blob(12), blob(2), blob(10)];
    let (kept, rejected) = select_blobs_by_area(blobs, 2, 10);
    let areas: Vec<usize> = kept.iter().map(|b| b.pixels.len()).collect();
    assert_eq!(areas, vec![3, 2, 10]);
    assert_eq!(rejected, 2);
}

#[test]
fn area_selection_on_labelled_blobs() {
    let blobs = label_star_blobs(&sample(), 20, 150, 90);
    let (kept, rejected) = select_blobs_by_area(blobs, 2, 50);
    assert_eq!(kept.len(), 1);
    assert_eq!(kept[0].peak, 200);
    assert_eq!(rejected, 1);
}

#[test]
fn tiny_frames_have_no_blobs() {
    let one = GrayPlane::from_raw(1, 1, vec![255]).unwrap();
    assert!(label_star_blobs(&one, 1, 0, 0).is_empty());
    assert!(label_star_blobs(&one, 0, 0, 0).is_empty());
    let thin = plane(4, 20, &[(2, 8, 255)]);
    assert!(label_star_blobs(&thin, 20, 0, 0).is_empty());
}

#[test]
fn frames_without_search_rows_have_no_blobs() {
    let narrow = GrayPlane::from_raw(1, 4, vec![255; 4]).unwrap();
    assert!(label_star_blobs(&narrow, 4, 0, 0).is_empty());
    let empty = GrayPlane::from_raw(0, 3, vec![]).unwrap();
    assert!(label_star_blobs(&empty, 2, 10, 5).is_empty());
    let low = plane(8, 4, &[(3, 2, 255)]);
    assert!(label_star_blobs(&low, 4, 100, 100).is_empty());
}
