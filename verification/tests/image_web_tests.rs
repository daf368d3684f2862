use base64::Engine;
use stars::image_loader::{load_decoded_image, load_image_from_bytes, ImageLoadError};
use stars::web::{encode_image_data_url, jpeg_data_url_text, load_upload, UploadAnalysis, UploadForm};

fn png_bytes() -> Vec<u8> {
    let mut img = image::RgbImage::new(4, 3);
    for (x, y, p) in img.enumerate_pixels_mut() {
        *p = image::Rgb([(x * 60) as u8, (y * 100) as u8, 17]);
    }
    let mut out = std::io::Cursor::new(Vec::new());
    img.write_to(&mut out, image::ImageFormat::Png).unwrap();
    out.into_inner()
}

#[test]
fn png_is_loaded_with_planes_and_size() {
    let bytes = png_bytes();
    let loaded = load_image_from_bytes("frame.png", &bytes).expect("png decodes");
    assert_eq!(loaded.name, "frame.png");
    assert_eq!((loaded.width, loaded.height), (4, 3));
    assert_eq!(loaded.gray.width(), 4);
    assert_eq!(loaded.gray.height(), 3);
    assert_eq!(loaded.rgb.get_pixel(2, 1), Some((120, 100, 17)));
    assert_eq!(loaded.rgb.get_pixel(0, 0), Some((0, 0, 17)));
    let expected_gray = image::load_from_memory(&bytes).unwrap().to_luma8().into_raw();
    assert_eq!(loaded.gray.as_raw(), &expected_gray);
    assert_eq!(loaded.exif.image_width, Some(4));
    assert_eq!(loaded.exif.image_height, Some(3));
    assert!(loaded.exif.make.is_none());
}

#[test]
fn undecodable_bytes_name_the_file() {
    match load_image_from_bytes("broken.jpg", b"definitely not a picture") {
        Err(ImageLoadError::Decode { name }) => assert_eq!(name, "broken.jpg"),
        Ok(_) => panic!("garbage must not decode"),
    }
}

#[test]
fn data_url_holds_a_jpeg() {
    let loaded = load_image_from_bytes("frame.png", &png_bytes()).unwrap();
    let url = encode_image_data_url(&loaded);
    let prefix = "data:image/jpeg;base64,";
    assert!(url.starts_with(prefix));
    let jpeg = base64::engine::general_purpose::STANDARD.decode(&url[prefix.len()..]).unwrap();
    assert_eq!(&jpeg[..2], &[0xff, 0xd8]);
    let back = image::load_from_memory(&jpeg).unwrap();
    assert_eq!((back.width(), back.height()), (4, 3));
}

#[test]
fn upload_form_gathers_parts() {
    let mut form = UploadForm::new();
    assert_eq!(form.filename, "uploaded.jpg");
    assert!(form.bytes.is_empty());
    form.add_part(None, Some(&[1, 2]));
    form.add_part(Some("night.png"), None);
    form.add_part(None, Some(&[3]));
    assert_eq!(form.filename, "night.png");
    assert_eq!(form.bytes, vec![1, 2, 3]);
}

#[test]
fn empty_upload_analyses_the_sample() {
    let form = UploadForm::new();
    assert!(matches!(load_upload(&form), UploadAnalysis::Sample));
}

#[test]
fn garbage_upload_is_undecodable() {
    let mut form = UploadForm::new();
    form.add_part(Some("x.jpg"), Some(b"xyz"));
    match load_upload(&form) {
        UploadAnalysis::Undecodable(ImageLoadError::Decode { name }) => assert_eq!(name, "x.jpg"),
        _ => panic!("garbage upload must be undecodable"),
    }
}

#[test]
fn png_upload_is_loaded() {
    let mut form = UploadForm::new();
    let bytes = png_bytes();
    let (a, b) = bytes.split_at(10);
    form.add_part(Some("sky.png"), Some(a));
    form.add_part(None, Some(b));
    match load_upload(&form) {
        UploadAnalysis::Loaded(img) => {
            assert_eq!(img.name, "sky.png");
            assert_eq!((img.width, img.height), (4, 3));
        }
        _ => panic!("png upload must load"),
    }
}

#[test]
fn data_url_text_is_standard_base64() {
    assert_eq!(jpeg_data_url_text(Some(b"abc")), "data:image/jpeg;base64,YWJj");
    assert_eq!(jpeg_data_url_text(Some(b"Ma")), "data:image/jpeg;base64,TWE=");
    assert_eq!(jpeg_data_url_text(Some(b"M")), "data:image/jpeg;base64,TQ==");
    assert_eq!(jpeg_data_url_text(Some(&[0xfb, 0xff])), "data:image/jpeg;base64,+/8=");
    assert_eq!(jpeg_data_url_text(Some(&[])), "data:image/jpeg;base64,");
    assert_eq!(jpeg_data_url_text(None), "");
}

#[test]
fn decoded_buffers_become_planes() {
    let decoded = Some((2, 1, vec![10, 20], vec![1, 2, 3, 4, 5, 6]));
    let img = load_decoded_image("a.png", b"no exif here", decoded).expect("consistent buffers");
    assert_eq!(img.name, "a.png");
    assert_eq!((img.width, img.height), (2, 1));
    assert_eq!(img.gray.pixel(1, 0), 20);
    assert_eq!(img.rgb.get_pixel(1, 0), Some((4, 5, 6)));
    assert_eq!(img.exif.image_width, Some(2));
    assert_eq!(img.exif.image_height, Some(1));
    assert!(img.exif.make.is_none());
}

#[test]
fn inconsistent_decoded_buffers_are_refused() {
    let short_gray = Some((2, 2, vec![0; 3], vec![0; 12]));
    assert!(matches!(
        load_decoded_image("b.png", &[], short_gray),
        Err(ImageLoadError::Decode { ref name }) if name == "b.png"
    ));
    let short_rgb = Some((2, 2, vec![0; 4], vec![0; 11]));
    assert!(load_decoded_image("b.png", &[], short_rgb).is_err());
    assert!(load_decoded_image("c.png", &[], None).is_err());
}
