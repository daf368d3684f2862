//! What the web front end computes: the JPEG data URL of a photograph and
//! the gathering of an uploaded file from the parts of a multipart form.
use vstd::prelude::*;
use base64::Engine;
use crate::raster::RgbPlane;
use crate::image_loader::{LoadedImage, ImageLoadError, load_image_from_bytes, decodable, loaded_from};

verus! {

/// State shared by the request handlers of the web server (none is needed).
#[derive(Clone, Debug)]
pub struct AppState {}

/// The character of the standard base64 alphabet for a six-bit value.
pub open spec fn base64_digit(i: int) -> char {
    if i < 26 {
        (65 + i) as char
    } else if i < 52 {
        (97 + i - 26) as char
    } else if i < 62 {
        (48 + i - 52) as char
    } else if i == 62 {
        '+'
    } else {
        '/'
    }
}

/// Standard base64 (RFC 4648, section 4) with `=` padding: each group of
/// three bytes becomes four characters.
pub open spec fn base64_standard(s: Seq<u8>) -> Seq<char>
    decreases s.len(),
{
    if s.len() == 0 {
        Seq::empty()
    } else {
        let b0 = s[0] as int;
        let b1 = if s.len() > 1 { s[1] as int } else { 0 };
        let b2 = if s.len() > 2 { s[2] as int } else { 0 };
        let c0 = base64_digit(b0 / 4);
        let c1 = base64_digit((b0 % 4) * 16 + b1 / 16);
        let c2 = if s.len() > 1 { base64_digit((b1 % 16) * 4 + b2 / 64) } else { '=' };
        let c3 = if s.len() > 2 { base64_digit(b2 % 64) } else { '=' };
        if s.len() <= 3 {
            seq![c0, c1, c2, c3]
        } else {
            seq![c0, c1, c2, c3] + base64_standard(s.subrange(3, s.len() as int))
        }
    }
}

/// Encodes with `base64::engine::general_purpose::STANDARD`. Trusted: the
/// text is the standard padded base64 encoding of the bytes, which the
/// crate's engine produces with the standard alphabet and padding.
#[verifier::external_body]
fn encode_base64(data: &[u8]) -> (r: String)
    requires
        data@.len() <= isize::MAX,
    ensures
        r@ == base64_standard(data@),
{
    base64::engine::general_purpose::STANDARD.encode(data)
}

/// The JPEG file that the `image` crate's encoder writes for an RGB image of
/// the given size, or `None` where it fails.
pub uninterp spec fn jpeg_encoding(width: u32, height: u32, data: Seq<u8>) -> Option<Seq<u8>>;

/// Writes the image as JPEG with `ImageBuffer::write_to`. Trusted: the result
/// is what `jpeg_encoding` names for the same image, and, being a `Vec`, no
/// longer than `isize::MAX` bytes.
#[verifier::external_body]
fn encode_jpeg(rgb: &RgbPlane) -> (r: Option<Vec<u8>>)
    ensures
        r is Some <==> jpeg_encoding(rgb@.width as u32, rgb@.height as u32, rgb@.data) is Some,
        r matches Some(j) ==> j@ == jpeg_encoding(rgb@.width as u32, rgb@.height as u32, rgb@.data)->0
            && j@.len() <= isize::MAX,
{
    let img = image::RgbImage::from_raw(rgb.width(), rgb.height(), rgb.as_raw().clone())?;
    let mut out = std::io::Cursor::new(Vec::new());
    img.write_to(&mut out, image::ImageFormat::Jpeg).ok()?;
    Some(out.into_inner())
}

/// The data URL of a JPEG file, or the empty text when there is none.
pub open spec fn jpeg_data_url(jpeg: Option<Seq<u8>>) -> Seq<char> {
    match jpeg {
        Some(j) => "data:image/jpeg;base64,"@ + base64_standard(j),
        None => Seq::empty(),
    }
}

/// The bytes of an optional JPEG file.
pub open spec fn jpeg_view(jpeg: Option<&[u8]>) -> Option<Seq<u8>> {
    match jpeg {
        Some(j) => Some(j@),
        None => None,
    }
}

/// The data URL of a JPEG file: `data:image/jpeg;base64,` and the file in
/// base64; the empty text when there is no file.
pub fn jpeg_data_url_text(jpeg: Option<&[u8]>) -> (r: String)
    requires
        jpeg matches Some(j) ==> j@.len() <= isize::MAX,
    ensures
        r@ == jpeg_data_url(jpeg_view(jpeg)),
{
    match jpeg {
        Some(j) => {
            let b64 = encode_base64(j);
            String::from_str("data:image/jpeg;base64,").concat(b64.as_str())
        },
        None => String::new(),
    }
}

/// The photograph as a JPEG data URL for the browser; empty when it cannot
/// be encoded.
pub fn encode_image_data_url(loaded: &LoadedImage) -> (r: String)
    ensures
        r@ == jpeg_data_url(jpeg_encoding(loaded.rgb@.width as u32, loaded.rgb@.height as u32, loaded.rgb@.data)),
{
    match encode_jpeg(&loaded.rgb) {
        Some(jpeg) => jpeg_data_url_text(Some(jpeg.as_slice())),
        None => jpeg_data_url_text(None),
    }
}

/// The file of an upload form, gathered from its parts: the last file name
/// given (`uploaded.jpg` when none is) and the bytes of all parts in turn.
pub struct UploadForm {
    pub filename: String,
    pub bytes: Vec<u8>,
}

impl UploadForm {
    /// A form with no part yet.
    pub fn new() -> (r: UploadForm)
        ensures
            r.filename@ == "uploaded.jpg"@,
            r.bytes@ == Seq::<u8>::empty(),
    {
        UploadForm { filename: String::from_str("uploaded.jpg"), bytes: Vec::new() }
    }

    /// Takes in one part: its file name, if it has one, and its bytes, if
    /// they could be read.
    pub fn add_part(&mut self, file_name: Option<&str>, data: Option<&[u8]>)
        ensures
            final(self).filename@ == match file_name {
                Some(n) => n@,
                None => old(self).filename@,
            },
            final(self).bytes@ == old(self).bytes@ + match data {
                Some(d) => d@,
                None => Seq::<u8>::empty(),
            },
    {
        if let Some(n) = file_name {
            self.filename = String::from_str(n);
        }
        if let Some(d) = data {
            let ghost before = self.bytes@;
            self.bytes.extend_from_slice(d);
            assert(self.bytes@ =~= before + d@);
        }
    }
}

/// What an upload gives the analysis.
pub enum UploadAnalysis {
    /// No bytes were uploaded: the built-in sample frame is analysed.
    Sample,
    /// The uploaded photograph.
    Loaded(LoadedImage),
    /// The upload is not a photograph that can be decoded: the sample frame
    /// is analysed instead.
    Undecodable(ImageLoadError),
}

/// Decides what an upload form gives the analysis.
pub fn load_upload(form: &UploadForm) -> (r: UploadAnalysis)
    ensures
        form.bytes@.len() == 0 <==> r is Sample,
        r matches UploadAnalysis::Loaded(img) ==> decodable(form.bytes@) && loaded_from(img, form.filename@, form.bytes@),
        r matches UploadAnalysis::Undecodable(ImageLoadError::Decode { name }) ==> !decodable(form.bytes@) && name@ == form.filename@,
        form.bytes@.len() > 0 ==> (r is Loaded <==> decodable(form.bytes@)),
{
    if form.bytes.len() == 0 {
        return UploadAnalysis::Sample;
    }
    match load_image_from_bytes(form.filename.as_str(), form.bytes.as_slice()) {
        Ok(img) => UploadAnalysis::Loaded(img),
        Err(e) => UploadAnalysis::Undecodable(e),
    }
}

} // verus!
