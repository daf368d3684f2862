use stars::raster::{GrayPlane, RgbPlane};

#[test]
fn gray_plane_reads_back_its_pixels() {
    let px: Vec<u8> = (0..12).collect();
    let img = GrayPlane::from_raw(4, 3, px.clone()).unwrap();
    assert_eq!(img.width(), 4);
    assert_eq!(img.height(), 3);
    assert_eq!(img.as_raw(), &px);
    assert_eq!(img.pixel(1, 2), 9);
    assert_eq!(img.get_pixel(3, 0), Some(3));
    assert_eq!(img.get_pixel(4, 0), None);
    assert_eq!(img.get_pixel(0, 3), None);
}

#[test]
fn gray_plane_rejects_wrong_buffer_length() {
    assert!(GrayPlane::from_raw(4, 3, vec![0; 11]).is_none());
    assert!(GrayPlane::from_raw(4, 3, vec![0; 13]).is_none());
    assert!(GrayPlane::from_raw(0, 5, vec![]).is_some());
}

#[test]
fn rgb_plane_reads_back_its_pixels() {
    let data: Vec<u8> = (0..18).collect();
    let img = RgbPlane::from_raw(3, 2, data.clone()).unwrap();
    assert_eq!(img.width(), 3);
    assert_eq!(img.height(), 2);
    assert_eq!(img.as_raw(), &data);
    assert_eq!(img.get_pixel(1, 1), Some((12, 13, 14)));
    assert_eq!(img.get_pixel(3, 1), None);
    assert!(RgbPlane::from_raw(3, 2, vec![0; 17]).is_none());
}
