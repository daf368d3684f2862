//! EXIF metadata of a photograph: the camera, lens, exposure, time and GPS
//! tags, read from the image bytes with the `exif` crate and kept as exact
//! integer ratios.
use vstd::prelude::*;
use chrono::TimeZone;
use crate::text::{trim_quotes, trim_quotes_str, contains_char};

verus! {

/// An unsigned EXIF rational `num / denom`.
#[derive(Clone, Copy, Debug, PartialEq, Eq)]
pub struct Ratio {
    pub num: u32,
    pub denom: u32,
}

/// A tag as the `exif` crate addresses it: its directory (0 TIFF, 1 Exif,
/// 2 GPS) and its number.
#[derive(Clone, Copy, Debug, PartialEq, Eq)]
pub struct TagKey {
    pub context: u8,
    pub number: u16,
}

/// The tags that the metadata reads.
#[derive(Clone, Copy, Debug, PartialEq, Eq)]
pub enum ExifTag {
    Make,
    Model,
    LensModel,
    Orientation,
    FocalLength,
    FocalLengthIn35mmFilm,
    PhotographicSensitivity,
    ExposureTime,
    FNumber,
    DateTimeOriginal,
    GpsLatitudeRef,
    GpsLatitude,
    GpsLongitudeRef,
    GpsLongitude,
    GpsAltitude,
    GpsImgDirection,
}

/// The directory and number of each tag.
pub open spec fn tag_key(t: ExifTag) -> TagKey {
    match t {
        ExifTag::Make => TagKey { context: 0, number: 0x10f },
        ExifTag::Model => TagKey { context: 0, number: 0x110 },
        ExifTag::Orientation => TagKey { context: 0, number: 0x112 },
        ExifTag::ExposureTime => TagKey { context: 1, number: 0x829a },
        ExifTag::FNumber => TagKey { context: 1, number: 0x829d },
        ExifTag::PhotographicSensitivity => TagKey { context: 1, number: 0x8827 },
        ExifTag::DateTimeOriginal => TagKey { context: 1, number: 0x9003 },
        ExifTag::FocalLength => TagKey { context: 1, number: 0x920a },
        ExifTag::FocalLengthIn35mmFilm => TagKey { context: 1, number: 0xa405 },
        ExifTag::LensModel => TagKey { context: 1, number: 0xa434 },
        ExifTag::GpsLatitudeRef => TagKey { context: 2, number: 0x1 },
        ExifTag::GpsLatitude => TagKey { context: 2, number: 0x2 },
        ExifTag::GpsLongitudeRef => TagKey { context: 2, number: 0x3 },
        ExifTag::GpsLongitude => TagKey { context: 2, number: 0x4 },
        ExifTag::GpsAltitude => TagKey { context: 2, number: 0x6 },
        ExifTag::GpsImgDirection => TagKey { context: 2, number: 0x11 },
    }
}

impl ExifTag {
    /// The directory and number of this tag.
    pub fn key(self) -> (k: TagKey)
        ensures
            k == tag_key(self),
            k.context < 3,
    {
        match self {
            ExifTag::Make => TagKey { context: 0, number: 0x10f },
            ExifTag::Model => TagKey { context: 0, number: 0x110 },
            ExifTag::Orientation => TagKey { context: 0, number: 0x112 },
            ExifTag::ExposureTime => TagKey { context: 1, number: 0x829a },
            ExifTag::FNumber => TagKey { context: 1, number: 0x829d },
            ExifTag::PhotographicSensitivity => TagKey { context: 1, number: 0x8827 },
            ExifTag::DateTimeOriginal => TagKey { context: 1, number: 0x9003 },
            ExifTag::FocalLength => TagKey { context: 1, number: 0x920a },
            ExifTag::FocalLengthIn35mmFilm => TagKey { context: 1, number: 0xa405 },
            ExifTag::LensModel => TagKey { context: 1, number: 0xa434 },
            ExifTag::GpsLatitudeRef => TagKey { context: 2, number: 0x1 },
            ExifTag::GpsLatitude => TagKey { context: 2, number: 0x2 },
            ExifTag::GpsLongitudeRef => TagKey { context: 2, number: 0x3 },
            ExifTag::GpsLongitude => TagKey { context: 2, number: 0x4 },
            ExifTag::GpsAltitude => TagKey { context: 2, number: 0x6 },
            ExifTag::GpsImgDirection => TagKey { context: 2, number: 0x11 },
        }
    }
}

/// The value of a field, as far as the metadata reads it.
pub enum ExifValue {
    Short(Vec<u16>),
    Rational(Vec<Ratio>),
    Other,
}

/// What a field value holds.
pub enum ExifValueView {
    Short(Seq<u16>),
    Rational(Seq<Ratio>),
    Other,
}

impl View for ExifValue {
    type V = ExifValueView;

    open spec fn view(&self) -> ExifValueView {
        match self {
            ExifValue::Short(v) => ExifValueView::Short(v@),
            ExifValue::Rational(v) => ExifValueView::Rational(v@),
            ExifValue::Other => ExifValueView::Other,
        }
    }
}

/// A field of the primary image: its value as the `exif` crate displays it,
/// and the value itself.
pub struct ExifField {
    pub display: String,
    pub value: ExifValue,
}

/// What a field holds.
pub struct ExifFieldView {
    pub display: Seq<char>,
    pub value: ExifValueView,
}

impl View for ExifField {
    type V = ExifFieldView;

    open spec fn view(&self) -> ExifFieldView {
        ExifFieldView { display: self.display@, value: self.value@ }
    }
}

#[verifier::external_type_specification]
#[verifier::external_body]
pub struct ExExif(exif::Exif);

/// The fields of the primary image that an `exif::Exif` holds, by tag.
pub uninterp spec fn exif_fields(e: exif::Exif) -> Map<TagKey, ExifFieldView>;

/// The fields of the primary image that `exif::Reader::read_from_container`
/// finds in an image file, or `None` where it fails.
pub uninterp spec fn exif_container_fields(bytes: Seq<u8>) -> Option<Map<TagKey, ExifFieldView>>;

/// Calls `exif::Reader::read_from_container` on the bytes of an image file.
/// Trusted: the result is `Some` exactly where the reader succeeds, and its
/// fields are those that `exif_container_fields` names for the same bytes;
/// empty input matches no container signature, so the reader refuses it.
#[verifier::external_body]
fn read_exif_container(bytes: &[u8]) -> (r: Option<exif::Exif>)
    ensures
        r is Some <==> exif_container_fields(bytes@) is Some,
        bytes@.len() == 0 ==> r is None,
        r matches Some(e) ==> exif_fields(e) == exif_container_fields(bytes@)->0,
{
    exif::Reader::new().read_from_container(&mut std::io::Cursor::new(bytes)).ok()
}

/// Calls `exif::Exif::get_field` for the tag in the primary image, and hands
/// the field out as its displayed text and its short or rational values.
/// Trusted: the result is the field that `exif_fields` holds under the tag.
#[verifier::external_body]
fn exif_primary_field(e: &exif::Exif, key: TagKey) -> (r: Option<ExifField>)
    requires
        key.context < 3,
    ensures
        r is Some <==> exif_fields(*e).contains_key(key),
        r matches Some(f) ==> f@ == exif_fields(*e)[key],
{
    let ctx = [exif::Context::Tiff, exif::Context::Exif, exif::Context::Gps][key.context as usize];
    let f = e.get_field(exif::Tag(ctx, key.number), exif::In::PRIMARY)?;
    let value = match &f.value {
        exif::Value::Short(v) => ExifValue::Short(v.clone()),
        exif::Value::Rational(v) => ExifValue::Rational(v.iter().map(|r| Ratio { num: r.num, denom: r.denom }).collect()),
        _ => ExifValue::Other,
    };
    Some(ExifField { display: f.display_value().to_string(), value })
}

/// The UNIX time that `chrono::NaiveDateTime::parse_from_str` followed by
/// `Utc.from_utc_datetime(..).timestamp()` gives for a text and a format, or
/// `None` where the parse fails.
pub uninterp spec fn chrono_utc_timestamp(text: Seq<char>, format: Seq<char>) -> Option<i64>;

/// Parses `text` with the `chrono` format `format` as a UTC date and time.
/// Trusted: the result is what `chrono_utc_timestamp` names for the same
/// text and format.
#[verifier::external_body]
fn parse_utc_timestamp(text: &str, format: &str) -> (r: Option<i64>)
    ensures
        r == chrono_utc_timestamp(text@, format@),
{
    match chrono::NaiveDateTime::parse_from_str(text, format) {
        Ok(ndt) => Some(chrono::Utc.from_utc_datetime(&ndt).timestamp()),
        Err(_) => None,
    }
}

/// A GPS latitude or longitude: degrees, minutes and seconds as EXIF
/// rationals, and whether it lies south or west.
#[derive(Clone, Copy, Debug, PartialEq, Eq)]
pub struct GpsCoordinate {
    pub degrees: Ratio,
    pub minutes: Ratio,
    pub seconds: Ratio,
    pub negative: bool,
}

/// The metadata of a photograph. Rational tags keep their exact numerator
/// and denominator (never zero).
#[derive(Clone, Debug, PartialEq)]
pub struct ExifMetadata {
    pub datetime_original: Option<String>,
    pub timestamp_utc: Option<i64>,
    pub latitude: Option<GpsCoordinate>,
    pub longitude: Option<GpsCoordinate>,
    pub altitude: Option<Ratio>,
    pub heading_deg: Option<Ratio>,
    pub focal_length_mm: Option<Ratio>,
    pub focal_length_in_35mm: Option<u16>,
    pub make: Option<String>,
    pub model: Option<String>,
    pub lens_model: Option<String>,
    pub orientation: Option<u32>,
    pub iso: Option<u32>,
    pub exposure_time: Option<Ratio>,
    pub f_number: Option<Ratio>,
    pub image_width: Option<u32>,
    pub image_height: Option<u32>,
}

/// What the metadata holds, with its texts as character sequences.
pub struct ExifMetadataView {
    pub datetime_original: Option<Seq<char>>,
    pub timestamp_utc: Option<i64>,
    pub latitude: Option<GpsCoordinate>,
    pub longitude: Option<GpsCoordinate>,
    pub altitude: Option<Ratio>,
    pub heading_deg: Option<Ratio>,
    pub focal_length_mm: Option<Ratio>,
    pub focal_length_in_35mm: Option<u16>,
    pub make: Option<Seq<char>>,
    pub model: Option<Seq<char>>,
    pub lens_model: Option<Seq<char>>,
    pub orientation: Option<u32>,
    pub iso: Option<u32>,
    pub exposure_time: Option<Ratio>,
    pub f_number: Option<Ratio>,
    pub image_width: Option<u32>,
    pub image_height: Option<u32>,
}

/// The character sequence of an optional text.
pub open spec fn text_view(t: Option<String>) -> Option<Seq<char>> {
    match t {
        Some(s) => Some(s@),
        None => None,
    }
}

impl View for ExifMetadata {
    type V = ExifMetadataView;

    open spec fn view(&self) -> ExifMetadataView {
        ExifMetadataView {
            datetime_original: text_view(self.datetime_original),
            timestamp_utc: self.timestamp_utc,
            latitude: self.latitude,
            longitude: self.longitude,
            altitude: self.altitude,
            heading_deg: self.heading_deg,
            focal_length_mm: self.focal_length_mm,
            focal_length_in_35mm: self.focal_length_in_35mm,
            make: text_view(self.make),
            model: text_view(self.model),
            lens_model: text_view(self.lens_model),
            orientation: self.orientation,
            iso: self.iso,
            exposure_time: self.exposure_time,
            f_number: self.f_number,
            image_width: self.image_width,
            image_height: self.image_height,
        }
    }
}

/// Metadata with no tag set.
pub open spec fn empty_metadata() -> ExifMetadataView {
    ExifMetadataView {
        datetime_original: None,
        timestamp_utc: None,
        latitude: None,
        longitude: None,
        altitude: None,
        heading_deg: None,
        focal_length_mm: None,
        focal_length_in_35mm: None,
        make: None,
        model: None,
        lens_model: None,
        orientation: None,
        iso: None,
        exposure_time: None,
        f_number: None,
        image_width: None,
        image_height: None,
    }
}

impl Default for ExifMetadata {
    fn default() -> (r: ExifMetadata)
        ensures
            r@ == empty_metadata(),
    {
        ExifMetadata {
            datetime_original: None,
            timestamp_utc: None,
            latitude: None,
            longitude: None,
            altitude: None,
            heading_deg: None,
            focal_length_mm: None,
            focal_length_in_35mm: None,
            make: None,
            model: None,
            lens_model: None,
            orientation: None,
            iso: None,
            exposure_time: None,
            f_number: None,
            image_width: None,
            image_height: None,
        }
    }
}

/// The field stored under tag `t`, if any.
pub open spec fn field_of(m: Map<TagKey, ExifFieldView>, t: ExifTag) -> Option<ExifFieldView> {
    if m.contains_key(tag_key(t)) { Some(m[tag_key(t)]) } else { None }
}

/// A text tag: its displayed value without surrounding double quotes.
pub open spec fn text_tag(m: Map<TagKey, ExifFieldView>, t: ExifTag) -> Option<Seq<char>> {
    match field_of(m, t) {
        Some(f) => Some(trim_quotes(f.display)),
        None => None,
    }
}

/// A short tag: its first value, when it holds shorts.
pub open spec fn short_tag(m: Map<TagKey, ExifFieldView>, t: ExifTag) -> Option<u16> {
    match field_of(m, t) {
        Some(f) => match f.value {
            ExifValueView::Short(v) => if v.len() > 0 { Some(v[0]) } else { None },
            _ => None,
        },
        None => None,
    }
}

/// A rational tag: its first value, when it holds rationals and that one
/// has a non-zero denominator.
pub open spec fn ratio_tag(m: Map<TagKey, ExifFieldView>, t: ExifTag) -> Option<Ratio> {
    match field_of(m, t) {
        Some(f) => match f.value {
            ExifValueView::Rational(v) => if v.len() > 0 && v[0].denom != 0 { Some(v[0]) } else { None },
            _ => None,
        },
        None => None,
    }
}

/// A GPS coordinate: present when both the value and its reference tag are,
/// the value holds at least three rationals with non-zero denominators; it
/// is negative when the displayed reference holds `negative_ref`.
pub open spec fn gps_tag(
    m: Map<TagKey, ExifFieldView>,
    value_tag: ExifTag,
    ref_tag: ExifTag,
    negative_ref: char,
) -> Option<GpsCoordinate> {
    match (field_of(m, value_tag), field_of(m, ref_tag)) {
        (Some(f), Some(rf)) => match f.value {
            ExifValueView::Rational(v) =>
                if v.len() >= 3 && v[0].denom != 0 && v[1].denom != 0 && v[2].denom != 0 {
                    Some(GpsCoordinate {
                        degrees: v[0],
                        minutes: v[1],
                        seconds: v[2],
                        negative: rf.display.contains(negative_ref),
                    })
                } else {
                    None
                },
            _ => None,
        },
        _ => None,
    }
}

/// The time of `DateTimeOriginal`: its displayed value without quotes,
/// parsed first as `%Y:%m:%d %H:%M:%S`, then as `%Y-%m-%d %H:%M:%S`.
pub open spec fn capture_timestamp(m: Map<TagKey, ExifFieldView>) -> Option<i64> {
    match field_of(m, ExifTag::DateTimeOriginal) {
        Some(f) => {
            let t = trim_quotes(f.display);
            match chrono_utc_timestamp(t, "%Y:%m:%d %H:%M:%S"@) {
                Some(x) => Some(x),
                None => chrono_utc_timestamp(t, "%Y-%m-%d %H:%M:%S"@),
            }
        },
        None => None,
    }
}

/// The metadata that the fields of the primary image give.
pub open spec fn metadata_from_fields(m: Map<TagKey, ExifFieldView>) -> ExifMetadataView {
    ExifMetadataView {
        datetime_original: match field_of(m, ExifTag::DateTimeOriginal) {
            Some(f) => Some(f.display),
            None => None,
        },
        timestamp_utc: capture_timestamp(m),
        latitude: gps_tag(m, ExifTag::GpsLatitude, ExifTag::GpsLatitudeRef, 'S'),
        longitude: gps_tag(m, ExifTag::GpsLongitude, ExifTag::GpsLongitudeRef, 'W'),
        altitude: ratio_tag(m, ExifTag::GpsAltitude),
        heading_deg: ratio_tag(m, ExifTag::GpsImgDirection),
        focal_length_mm: ratio_tag(m, ExifTag::FocalLength),
        focal_length_in_35mm: short_tag(m, ExifTag::FocalLengthIn35mmFilm),
        make: text_tag(m, ExifTag::Make),
        model: text_tag(m, ExifTag::Model),
        lens_model: text_tag(m, ExifTag::LensModel),
        orientation: match short_tag(m, ExifTag::Orientation) {
            Some(v) => Some(v as u32),
            None => None,
        },
        iso: match short_tag(m, ExifTag::PhotographicSensitivity) {
            Some(v) => Some(v as u32),
            None => None,
        },
        exposure_time: ratio_tag(m, ExifTag::ExposureTime),
        f_number: ratio_tag(m, ExifTag::FNumber),
        image_width: None,
        image_height: None,
    }
}

/// The hemisphere of a GPS position follows its reference tags: where the
/// GPS directory holds a latitude (tag 2) and longitude (tag 4) of three
/// rationals with non-zero denominators, together with their reference tags
/// (1 and 3), the metadata keeps the three rationals, and the latitude is
/// south (negative) exactly when its displayed reference holds `S`, the
/// longitude west exactly when its displayed reference holds `W`.
pub proof fn lemma_gps_hemispheres(m: Map<TagKey, ExifFieldView>, lat: Seq<Ratio>, lon: Seq<Ratio>)
    requires
        m.contains_key(TagKey { context: 2, number: 1 }),
        m.contains_key(TagKey { context: 2, number: 2 }),
        m.contains_key(TagKey { context: 2, number: 3 }),
        m.contains_key(TagKey { context: 2, number: 4 }),
        m[TagKey { context: 2, number: 2 }].value == ExifValueView::Rational(lat),
        m[TagKey { context: 2, number: 4 }].value == ExifValueView::Rational(lon),
        lat.len() >= 3,
        lat[0].denom != 0 && lat[1].denom != 0 && lat[2].denom != 0,
        lon.len() >= 3,
        lon[0].denom != 0 && lon[1].denom != 0 && lon[2].denom != 0,
    ensures
        metadata_from_fields(m).latitude == Some(GpsCoordinate {
            degrees: lat[0],
            minutes: lat[1],
            seconds: lat[2],
            negative: exists|i: int| 0 <= i < m[TagKey { context: 2, number: 1 }].display.len()
                && m[TagKey { context: 2, number: 1 }].display[i] == 'S',
        }),
        metadata_from_fields(m).longitude == Some(GpsCoordinate {
            degrees: lon[0],
            minutes: lon[1],
            seconds: lon[2],
            negative: exists|i: int| 0 <= i < m[TagKey { context: 2, number: 3 }].display.len()
                && m[TagKey { context: 2, number: 3 }].display[i] == 'W',
        }),
{
}

/// A reference `W` makes a longitude west and a reference `E` east; a
/// reference `S` makes a latitude south and a reference `N` north.
pub proof fn lemma_gps_reference_letters(m: Map<TagKey, ExifFieldView>)
    requires
        m.contains_key(TagKey { context: 2, number: 1 }),
        m.contains_key(TagKey { context: 2, number: 2 }),
        m.contains_key(TagKey { context: 2, number: 3 }),
        m.contains_key(TagKey { context: 2, number: 4 }),
        metadata_from_fields(m).latitude is Some,
        metadata_from_fields(m).longitude is Some,
    ensures
        m[TagKey { context: 2, number: 1 }].display == seq!['S'] ==> metadata_from_fields(m).latitude->0.negative,
        m[TagKey { context: 2, number: 1 }].display == seq!['N'] ==> !metadata_from_fields(m).latitude->0.negative,
        m[TagKey { context: 2, number: 3 }].display == seq!['W'] ==> metadata_from_fields(m).longitude->0.negative,
        m[TagKey { context: 2, number: 3 }].display == seq!['E'] ==> !metadata_from_fields(m).longitude->0.negative,
{
    let la = m[TagKey { context: 2, number: 1 }].display;
    let lo = m[TagKey { context: 2, number: 3 }].display;
    if la == seq!['S'] {
        assert(la.contains('S')) by { assert(la[0] == 'S'); }
    }
    if lo == seq!['W'] {
        assert(lo.contains('W')) by { assert(lo[0] == 'W'); }
    }
}

/// The metadata of an image file: that of its primary image, or none where
/// no EXIF block can be read.
pub open spec fn exif_metadata_of(bytes: Seq<u8>) -> ExifMetadataView {
    match exif_container_fields(bytes) {
        Some(m) => metadata_from_fields(m),
        None => empty_metadata(),
    }
}

fn read_text_tag(e: &exif::Exif, t: ExifTag) -> (r: Option<String>)
    ensures
        text_view(r) == text_tag(exif_fields(*e), t),
{
    match exif_primary_field(e, t.key()) {
        Some(f) => {
            let trimmed = trim_quotes_str(f.display.as_str());
            Some(String::from_str(trimmed))
        },
        None => None,
    }
}

fn read_short_tag(e: &exif::Exif, t: ExifTag) -> (r: Option<u16>)
    ensures
        r == short_tag(exif_fields(*e), t),
{
    match exif_primary_field(e, t.key()) {
        Some(f) => match f.value {
            ExifValue::Short(v) => if v.len() > 0 { Some(v[0]) } else { None },
            _ => None,
        },
        None => None,
    }
}

fn read_ratio_tag(e: &exif::Exif, t: ExifTag) -> (r: Option<Ratio>)
    ensures
        r == ratio_tag(exif_fields(*e), t),
{
    match exif_primary_field(e, t.key()) {
        Some(f) => match f.value {
            ExifValue::Rational(v) => if v.len() > 0 && v[0].denom != 0 { Some(v[0]) } else { None },
            _ => None,
        },
        None => None,
    }
}

fn read_gps_tag(e: &exif::Exif, value_tag: ExifTag, ref_tag: ExifTag, negative_ref: char) -> (r: Option<GpsCoordinate>)
    ensures
        r == gps_tag(exif_fields(*e), value_tag, ref_tag, negative_ref),
{
    let rf = exif_primary_field(e, ref_tag.key());
    let f = exif_primary_field(e, value_tag.key());
    match (f, rf) {
        (Some(f), Some(rf)) => match f.value {
            ExifValue::Rational(v) => {
                if v.len() >= 3 && v[0].denom != 0 && v[1].denom != 0 && v[2].denom != 0 {
                    let negative = contains_char(rf.display.as_str(), negative_ref);
                    Some(GpsCoordinate { degrees: v[0], minutes: v[1], seconds: v[2], negative })
                } else {
                    None
                }
            },
            _ => None,
        },
        _ => None,
    }
}

fn read_capture_time(e: &exif::Exif) -> (r: (Option<String>, Option<i64>))
    ensures
        text_view(r.0) == metadata_from_fields(exif_fields(*e)).datetime_original,
        r.1 == capture_timestamp(exif_fields(*e)),
{
    match exif_primary_field(e, ExifTag::DateTimeOriginal.key()) {
        Some(f) => {
            let trimmed = trim_quotes_str(f.display.as_str());
            let ts = match parse_utc_timestamp(trimmed, "%Y:%m:%d %H:%M:%S") {
                Some(x) => Some(x),
                None => parse_utc_timestamp(trimmed, "%Y-%m-%d %H:%M:%S"),
            };
            (Some(f.display), ts)
        },
        None => (None, None),
    }
}

/// The metadata that the fields of the primary image of `e` give.
pub fn metadata_from_exif(e: &exif::Exif) -> (meta: ExifMetadata)
    ensures
        meta@ == metadata_from_fields(exif_fields(*e)),
{
    let (datetime_original, timestamp_utc) = read_capture_time(e);
    let orientation = match read_short_tag(e, ExifTag::Orientation) {
        Some(v) => Some(v as u32),
        None => None,
    };
    let iso = match read_short_tag(e, ExifTag::PhotographicSensitivity) {
        Some(v) => Some(v as u32),
        None => None,
    };
    ExifMetadata {
        datetime_original,
        timestamp_utc,
        latitude: read_gps_tag(e, ExifTag::GpsLatitude, ExifTag::GpsLatitudeRef, 'S'),
        longitude: read_gps_tag(e, ExifTag::GpsLongitude, ExifTag::GpsLongitudeRef, 'W'),
        altitude: read_ratio_tag(e, ExifTag::GpsAltitude),
        heading_deg: read_ratio_tag(e, ExifTag::GpsImgDirection),
        focal_length_mm: read_ratio_tag(e, ExifTag::FocalLength),
        focal_length_in_35mm: read_short_tag(e, ExifTag::FocalLengthIn35mmFilm),
        make: read_text_tag(e, ExifTag::Make),
        model: read_text_tag(e, ExifTag::Model),
        lens_model: read_text_tag(e, ExifTag::LensModel),
        orientation,
        iso,
        exposure_time: read_ratio_tag(e, ExifTag::ExposureTime),
        f_number: read_ratio_tag(e, ExifTag::FNumber),
        image_width: None,
        image_height: None,
    }
}

/// Reads the EXIF metadata of an image file held in memory; where no EXIF
/// block can be read, every tag is absent.
pub fn parse_exif_bytes(bytes: &[u8]) -> (meta: ExifMetadata)
    ensures
        meta@ == exif_metadata_of(bytes@),
        bytes@.len() == 0 ==> meta@ == empty_metadata(),
{
    match read_exif_container(bytes) {
        Some(e) => metadata_from_exif(&e),
        None => ExifMetadata::default(),
    }
}

/// The metadata of a typical iPhone 15 Pro night shot taken in Munich,
/// facing south, at 2026-08-05 22:30:00 UTC.
pub open spec fn iphone_sample_metadata() -> ExifMetadataView {
    ExifMetadataView {
        datetime_original: Some("2026:08:05 22:30:00"@),
        timestamp_utc: Some(1785969000),
        latitude: Some(GpsCoordinate {
            degrees: Ratio { num: 48137154, denom: 1000000 },
            minutes: Ratio { num: 0, denom: 1 },
            seconds: Ratio { num: 0, denom: 1 },
            negative: false,
        }),
        longitude: Some(GpsCoordinate {
            degrees: Ratio { num: 11576124, denom: 1000000 },
            minutes: Ratio { num: 0, denom: 1 },
            seconds: Ratio { num: 0, denom: 1 },
            negative: false,
        }),
        altitude: Some(Ratio { num: 520, denom: 1 }),
        heading_deg: Some(Ratio { num: 180, denom: 1 }),
        focal_length_mm: Some(Ratio { num: 57, denom: 10 }),
        focal_length_in_35mm: Some(26),
        make: Some("Apple"@),
        model: Some("iPhone 15 Pro"@),
        lens_model: Some("iPhone 15 Pro back camera 6.86mm f/1.78"@),
        orientation: Some(1),
        iso: Some(1600),
        exposure_time: Some(Ratio { num: 1, denom: 3 }),
        f_number: Some(Ratio { num: 178, denom: 100 }),
        image_width: Some(4032),
        image_height: Some(3024),
    }
}

impl ExifMetadata {
    /// Sample metadata of an iPhone night shot, for synthetic frames.
    pub fn dummy_iphone_metadata() -> (r: ExifMetadata)
        ensures
            r@ == iphone_sample_metadata(),
    {
        ExifMetadata {
            datetime_original: Some(String::from_str("2026:08:05 22:30:00")),
            timestamp_utc: Some(1785969000),
            latitude: Some(GpsCoordinate {
                degrees: Ratio { num: 48137154, denom: 1000000 },
                minutes: Ratio { num: 0, denom: 1 },
                seconds: Ratio { num: 0, denom: 1 },
                negative: false,
            }),
            longitude: Some(GpsCoordinate {
                degrees: Ratio { num: 11576124, denom: 1000000 },
                minutes: Ratio { num: 0, denom: 1 },
                seconds: Ratio { num: 0, denom: 1 },
                negative: false,
            }),
            altitude: Some(Ratio { num: 520, denom: 1 }),
            heading_deg: Some(Ratio { num: 180, denom: 1 }),
            focal_length_mm: Some(Ratio { num: 57, denom: 10 }),
            focal_length_in_35mm: Some(26),
            make: Some(String::from_str("Apple")),
            model: Some(String::from_str("iPhone 15 Pro")),
            lens_model: Some(String::from_str("iPhone 15 Pro back camera 6.86mm f/1.78")),
            orientation: Some(1),
            iso: Some(1600),
            exposure_time: Some(Ratio { num: 1, denom: 3 }),
            f_number: Some(Ratio { num: 178, denom: 100 }),
            image_width: Some(4032),
            image_height: Some(3024),
        }
    }
}

} // verus!
