use stars::raster::GrayPlane;
use stars::satellites::{collect_streak_pixels, fetch_tle, get_satellite_database, STREAK_THRESHOLD};

#[test]
fn database_lists_four_satellites_in_order() {
    let db = get_satellite_database();
    let ids: Vec<u32> = db.iter().map(|t| t.norad_id).collect();
    assert_eq!(ids, vec![25544, 20580, 48274, 44713]);
    assert_eq!(db[0].name, "ISS (ZARYA)");
    assert_eq!(db[3].name, "STARLINK-1007");
}

#[test]
fn fetch_tle_finds_the_iss() {
    let tle = fetch_tle(25544).expect("ISS is in the database");
    assert_eq!(tle.name, "ISS (ZARYA)");
    assert!(tle.line1.starts_with("1 25544U"));
    assert!(tle.line2.starts_with("2 25544"));
}

#[test]
fn fetch_tle_finds_hubble() {
    let tle = fetch_tle(20580).expect("Hubble is in the database");
    assert_eq!(tle.name, "HST (HUBBLE)");
}

#[test]
fn fetch_tle_unknown_id_is_none() {
    assert!(fetch_tle(12345).is_none());
    assert!(fetch_tle(0).is_none());
}

#[test]
fn fetch_tle_agrees_with_database() {
    for t in get_satellite_database() {
        let found = fetch_tle(t.norad_id).unwrap();
        assert_eq!(found.name, t.name);
        assert_eq!(found.line1, t.line1);
        assert_eq!(found.line2, t.line2);
    }
}

fn plane(width: u32, height: u32, set: &[(u32, u32, u8)]) -> GrayPlane {
    let mut px = vec![0u8; (width * height) as usize];
    for &(x, y, v) in set {
        px[(y * width + x) as usize] = v;
    }
    GrayPlane::from_raw(width, height, px).unwrap()
}

#[test]
fn streak_candidates_sample_every_other_pixel() {
    assert_eq!(STREAK_THRESHOLD, 140);
    let img = plane(6, 4, &[(2, 0, 200), (3, 0, 255), (0, 1, 255), (4, 2, 141), (0, 2, 140)]);
    assert_eq!(collect_streak_pixels(&img, 4), vec![(2, 0), (4, 2)]);
    assert_eq!(collect_streak_pixels(&img, 2), vec![(2, 0)]);
    assert_eq!(collect_streak_pixels(&img, 0), Vec::<(u32, u32)>::new());
}

#[test]
fn streak_candidates_in_scan_order() {
    let img = plane(5, 5, &[(4, 4, 250), (0, 4, 250), (2, 2, 250), (4, 0, 250)]);
    assert_eq!(collect_streak_pixels(&img, 5), vec![(4, 0), (2, 2), (0, 4), (4, 4)]);
}

#[test]
fn streak_search_past_an_odd_bottom_row() {
    // rows 0, 2 and 4 of a five-row frame are sampled for heights up to 6
    let img = plane(3, 5, &[(0, 4, 200), (2, 2, 201)]);
    assert_eq!(collect_streak_pixels(&img, 6), vec![(2, 2), (0, 4)]);
    assert_eq!(collect_streak_pixels(&img, 5), vec![(2, 2), (0, 4)]);
    assert_eq!(collect_streak_pixels(&img, 4), vec![(2, 2)]);
}
