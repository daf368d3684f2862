//! Decoding photographs into pixel planes together with their EXIF metadata.
use vstd::prelude::*;
use image::GenericImageView;
use crate::raster::{GrayPlane, GrayView, RgbPlane, RgbView};
use crate::exif_metadata::{ExifMetadata, ExifMetadataView, exif_metadata_of, parse_exif_bytes};

verus! {

/// What `image::load_from_memory` decodes from a file: its width and height,
/// and the bytes of `to_luma8` and of `to_rgb8`; `None` where decoding fails.
pub uninterp spec fn image_decode(bytes: Seq<u8>) -> Option<(u32, u32, Seq<u8>, Seq<u8>)>;

/// Decodes an image file with `image::load_from_memory` and converts it to
/// 8-bit grayscale and 8-bit RGB buffers. Trusted: the result is what
/// `image_decode` names for the same bytes, and, as `to_luma8` and `to_rgb8`
/// build buffers of the image's own size, the grayscale buffer holds one byte
/// per pixel and the RGB buffer three.
#[verifier::external_body]
fn decode_image(bytes: &[u8]) -> (r: Option<(u32, u32, Vec<u8>, Vec<u8>)>)
    ensures
        r is Some <==> image_decode(bytes@) is Some,
        r matches Some(d) ==> image_decode(bytes@) == Some((d.0, d.1, d.2@, d.3@)),
        r matches Some(d) ==> decode_consistent((d.0, d.1, d.2@, d.3@)),
{
    let img = image::load_from_memory(bytes).ok()?;
    let (width, height) = img.dimensions();
    Some((width, height, img.to_luma8().into_raw(), img.to_rgb8().into_raw()))
}

/// A photograph ready for analysis.
pub struct LoadedImage {
    pub name: String,
    pub width: u32,
    pub height: u32,
    pub gray: GrayPlane,
    pub rgb: RgbPlane,
    pub exif: ExifMetadata,
}

/// Why a photograph could not be loaded.
#[derive(Clone, Debug, PartialEq)]
pub enum ImageLoadError {
    /// The bytes of the named file are not an image that can be decoded.
    Decode { name: String },
}

/// The metadata of a loaded photograph: that of its file, with the decoded
/// size as image width and height.
pub open spec fn loaded_metadata(bytes: Seq<u8>, width: u32, height: u32) -> ExifMetadataView {
    ExifMetadataView {
        image_width: Some(width),
        image_height: Some(height),
        ..exif_metadata_of(bytes)
    }
}

/// The decoded buffers fit the decoded size.
pub open spec fn decode_consistent(d: (u32, u32, Seq<u8>, Seq<u8>)) -> bool {
    &&& d.2.len() == d.0 * d.1
    &&& d.3.len() == 3 * (d.0 * d.1)
}

/// The file `bytes` can be loaded: the `image` crate decodes it.
pub open spec fn decodable(bytes: Seq<u8>) -> bool {
    image_decode(bytes) is Some
}

/// `img` is the photograph that the file `name` with contents `bytes` gives.
pub open spec fn loaded_from(img: LoadedImage, name: Seq<char>, bytes: Seq<u8>) -> bool {
    loaded_as(img, name, bytes, image_decode(bytes)->0)
}

/// `img` is the photograph of the file `name` with contents `bytes` that
/// decodes to `d`.
pub open spec fn loaded_as(img: LoadedImage, name: Seq<char>, bytes: Seq<u8>, d: (u32, u32, Seq<u8>, Seq<u8>)) -> bool {
    &&& img.name@ == name
    &&& img.width == d.0
    &&& img.height == d.1
    &&& img.gray@ == (GrayView { width: d.0 as nat, height: d.1 as nat, pixels: d.2 })
    &&& img.rgb@ == (RgbView { width: d.0 as nat, height: d.1 as nat, data: d.3 })
    &&& img.exif@ == loaded_metadata(bytes, d.0, d.1)
}

/// A loaded photograph keeps the EXIF metadata of its file: every tag equals
/// what `parse_exif_bytes` reads from the same bytes (`exif_metadata_of`),
/// and the image width and height are the decoded size.
pub proof fn lemma_loaded_metadata_is_file_metadata(
    img: LoadedImage,
    name: Seq<char>,
    bytes: Seq<u8>,
    d: (u32, u32, Seq<u8>, Seq<u8>),
)
    requires
        loaded_as(img, name, bytes, d),
    ensures
        img.exif@.datetime_original == exif_metadata_of(bytes).datetime_original,
        img.exif@.timestamp_utc == exif_metadata_of(bytes).timestamp_utc,
        img.exif@.latitude == exif_metadata_of(bytes).latitude,
        img.exif@.longitude == exif_metadata_of(bytes).longitude,
        img.exif@.altitude == exif_metadata_of(bytes).altitude,
        img.exif@.heading_deg == exif_metadata_of(bytes).heading_deg,
        img.exif@.focal_length_mm == exif_metadata_of(bytes).focal_length_mm,
        img.exif@.focal_length_in_35mm == exif_metadata_of(bytes).focal_length_in_35mm,
        img.exif@.make == exif_metadata_of(bytes).make,
        img.exif@.model == exif_metadata_of(bytes).model,
        img.exif@.lens_model == exif_metadata_of(bytes).lens_model,
        img.exif@.orientation == exif_metadata_of(bytes).orientation,
        img.exif@.iso == exif_metadata_of(bytes).iso,
        img.exif@.exposure_time == exif_metadata_of(bytes).exposure_time,
        img.exif@.f_number == exif_metadata_of(bytes).f_number,
        img.exif@.image_width == Some(d.0),
        img.exif@.image_height == Some(d.1),
        img.width == d.0 && img.height == d.1,
{
}

/// The decoded image as plain values.
pub open spec fn decoded_view(d: Option<(u32, u32, Vec<u8>, Vec<u8>)>) -> Option<(u32, u32, Seq<u8>, Seq<u8>)> {
    match d {
        Some(t) => Some((t.0, t.1, t.2@, t.3@)),
        None => None,
    }
}

/// Builds the photograph of the file `name` with contents `bytes` from what
/// the decoder gave for it: its size and its grayscale and RGB buffers.
pub fn load_decoded_image(
    name: &str,
    bytes: &[u8],
    decoded: Option<(u32, u32, Vec<u8>, Vec<u8>)>,
) -> (r: Result<LoadedImage, ImageLoadError>)
    ensures
        r is Ok <==> (decoded is Some && decode_consistent(decoded_view(decoded)->0)),
        r matches Ok(img) ==> loaded_as(img, name@, bytes@, decoded_view(decoded)->0),
        r matches Err(ImageLoadError::Decode { name: n }) ==> n@ == name@,
{
    let (width, height, gray_bytes, rgb_bytes) = match decoded {
        Some(d) => d,
        None => {
            return Err(ImageLoadError::Decode { name: String::from_str(name) });
        },
    };
    let gray = match GrayPlane::from_raw(width, height, gray_bytes) {
        Some(g) => g,
        None => {
            return Err(ImageLoadError::Decode { name: String::from_str(name) });
        },
    };
    let rgb = match RgbPlane::from_raw(width, height, rgb_bytes) {
        Some(c) => c,
        None => {
            return Err(ImageLoadError::Decode { name: String::from_str(name) });
        },
    };
    let mut exif = parse_exif_bytes(bytes);
    exif.image_width = Some(width);
    exif.image_height = Some(height);
    Ok(LoadedImage { name: String::from_str(name), width, height, gray, rgb, exif })
}

/// Decodes the photograph `bytes` of the file `name`, with its metadata.
pub fn load_image_from_bytes(name: &str, bytes: &[u8]) -> (r: Result<LoadedImage, ImageLoadError>)
    ensures
        r is Ok <==> decodable(bytes@),
        r matches Ok(img) ==> loaded_from(img, name@, bytes@),
        r matches Err(ImageLoadError::Decode { name: n }) ==> n@ == name@,
{
    load_decoded_image(name, bytes, decode_image(bytes))
}

} // verus!
