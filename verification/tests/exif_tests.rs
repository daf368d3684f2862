use stars::exif_metadata::{metadata_from_exif, parse_exif_bytes, ExifMetadata, GpsCoordinate, Ratio};

#[test]
fn test_dummy_iphone_metadata() {
    let meta = ExifMetadata::dummy_iphone_metadata();
    assert_eq!(meta.make.as_deref(), Some("Apple"));
    assert_eq!(meta.model.as_deref(), Some("iPhone 15 Pro"));
    let lat = meta.latitude.unwrap();
    assert_eq!(lat.degrees.num as f64 / lat.degrees.denom as f64, 48.137154);
    assert!(!lat.negative);
    let lon = meta.longitude.unwrap();
    assert_eq!(lon.degrees.num as f64 / lon.degrees.denom as f64, 11.576124);
    let heading = meta.heading_deg.unwrap();
    assert_eq!(heading.num as f64 / heading.denom as f64, 180.0);
}

#[test]
fn test_parse_empty_bytes() {
    let meta = parse_exif_bytes(&[]);
    assert_eq!(meta, ExifMetadata::default());
}

#[test]
fn default_metadata_has_no_tags() {
    let d = ExifMetadata::default();
    assert!(d.make.is_none() && d.latitude.is_none() && d.timestamp_utc.is_none());
    assert!(d.image_width.is_none() && d.image_height.is_none());
}

#[test]
fn dummy_metadata_sample_values() {
    let meta = ExifMetadata::dummy_iphone_metadata();
    assert_eq!(meta.timestamp_utc, Some(1785969000));
    assert_eq!(meta.datetime_original.as_deref(), Some("2026:08:05 22:30:00"));
    assert_eq!(meta.focal_length_in_35mm, Some(26));
    assert_eq!(meta.iso, Some(1600));
    assert_eq!(meta.exposure_time, Some(Ratio { num: 1, denom: 3 }));
    assert_eq!(meta.image_width, Some(4032));
    assert_eq!(meta.image_height, Some(3024));
}

#[test]
fn garbage_bytes_give_empty_metadata() {
    assert_eq!(parse_exif_bytes(b"not an image at all"), ExifMetadata::default());
}

const ASCII: u16 = 2;
const SHORT: u16 = 3;
const LONG: u16 = 4;
const RATIONAL: u16 = 5;

fn push16(b: &mut Vec<u8>, v: u16) {
    b.extend_from_slice(&v.to_le_bytes());
}

fn push32(b: &mut Vec<u8>, v: u32) {
    b.extend_from_slice(&v.to_le_bytes());
}

fn entry(b: &mut Vec<u8>, tag: u16, typ: u16, count: u32, value: u32) {
    push16(b, tag);
    push16(b, typ);
    push32(b, count);
    push32(b, value);
}

/// A little-endian TIFF file with camera, exposure, time and GPS tags.
fn sample_tiff() -> Vec<u8> {
    let mut b = vec![0x49, 0x49, 0x2a, 0x00];
    push32(&mut b, 8);
    // IFD0 at 8, four entries, ends at 62
    push16(&mut b, 4);
    entry(&mut b, 0x010f, ASCII, 6, 62);
    entry(&mut b, 0x0112, SHORT, 1, 1);
    entry(&mut b, 0x8769, LONG, 1, 68);
    entry(&mut b, 0x8825, LONG, 1, 138);
    push32(&mut b, 0);
    assert_eq!(b.len(), 62);
    b.extend_from_slice(b"Apple\0");
    // Exif IFD at 68, three entries, ends at 110
    push16(&mut b, 3);
    entry(&mut b, 0x8827, SHORT, 1, 1600);
    entry(&mut b, 0x9003, ASCII, 20, 110);
    entry(&mut b, 0x920a, RATIONAL, 1, 130);
    push32(&mut b, 0);
    assert_eq!(b.len(), 110);
    b.extend_from_slice(b"2026:08:05 22:30:00\0");
    push32(&mut b, 57);
    push32(&mut b, 10);
    // GPS IFD at 138, three entries, ends at 180
    assert_eq!(b.len(), 138);
    push16(&mut b, 3);
    push16(&mut b, 0x0001);
    push16(&mut b, ASCII);
    push32(&mut b, 2);
    b.extend_from_slice(b"S\0\0\0");
    entry(&mut b, 0x0002, RATIONAL, 3, 180);
    entry(&mut b, 0x0011, RATIONAL, 1, 204);
    push32(&mut b, 0);
    assert_eq!(b.len(), 180);
    for (n, d) in [(48u32, 1u32), (8, 1), (1354, 100), (180, 1)] {
        push32(&mut b, n);
        push32(&mut b, d);
    }
    b
}

#[test]
fn tiff_tags_are_read() {
    let meta = parse_exif_bytes(&sample_tiff());
    assert_eq!(meta.make.as_deref(), Some("Apple"));
    assert_eq!(meta.orientation, Some(1));
    assert_eq!(meta.iso, Some(1600));
    assert_eq!(meta.focal_length_mm, Some(Ratio { num: 57, denom: 10 }));
    assert_eq!(meta.heading_deg, Some(Ratio { num: 180, denom: 1 }));
    assert_eq!(
        meta.latitude,
        Some(GpsCoordinate {
            degrees: Ratio { num: 48, denom: 1 },
            minutes: Ratio { num: 8, denom: 1 },
            seconds: Ratio { num: 1354, denom: 100 },
            negative: true,
        })
    );
    assert!(meta.longitude.is_none());
    assert!(meta.model.is_none());
    assert!(meta.altitude.is_none());
}

#[test]
fn tiff_capture_time_is_parsed_as_utc() {
    let meta = parse_exif_bytes(&sample_tiff());
    // the exif crate shows the date with hyphens; both layouts are accepted
    assert_eq!(meta.datetime_original.as_deref(), Some("2026-08-05 22:30:00"));
    assert_eq!(meta.timestamp_utc, Some(1785969000));
}

#[test]
fn metadata_from_a_read_exif_block() {
    let bytes = sample_tiff();
    let e = exif::Reader::new()
        .read_from_container(&mut std::io::Cursor::new(&bytes[..]))
        .expect("the sample is a valid TIFF file");
    let meta = metadata_from_exif(&e);
    assert_eq!(meta, parse_exif_bytes(&bytes));
    assert_eq!(meta.iso, Some(1600));
    assert!(meta.image_width.is_none());
}
