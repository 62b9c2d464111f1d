//! Recovery of embedded raster images from a PDF's object graph, for the
//! scanned-PDF fallback path.
//!
//! The PDF is parsed by the `lopdf` crate behind trusted accessors. What a
//! content stream holds — subtype, dimensions, bit depth, filter chain,
//! colour space, raw and decompressed bytes — is named by one uninterpreted
//! function per stream ([`stream_info_of`]) and one for the whole document
//! ([`pdf_stream_infos`]); every accessor's contract speaks of those names,
//! and the recovery itself is verified exactly against them: which streams
//! become candidate images, that JPEG and JPEG 2000 streams pass through
//! verbatim, and that raw rasters are re-encoded as PNG. Recognition of the
//! rebuilt images stays with the caller.

use vstd::prelude::*;

use crate::index::contains_string;
use crate::text;

verus! {

#[verifier::external_type_specification]
#[verifier::external_body]
pub struct ExLopdfStream(lopdf::Stream);

/// The raw shape of a stream's `ColorSpace` entry: a direct name, an array
/// headed by a name, or anything else (an indirect reference included).
#[derive(Debug, Clone)]
pub enum ColorSpaceRaw {
    /// A direct colour-space name.
    Named(String),
    /// An array whose first element is a name, as `Indexed` and `ICCBased`
    /// spaces are written.
    ArrayHead(String),
    /// Anything else, a missing entry or an indirect reference included.
    OtherCs,
}

/// What one PDF content stream holds, as the trusted accessors read it: the
/// direct dictionary entries the recovery path consults, the raw stream
/// bytes, and the bytes with the filter chain decoded (when decoding
/// succeeds).
pub struct StreamInfoModel {
    /// The `Subtype` entry, when it is a direct name.
    pub subtype: Option<Seq<char>>,
    /// The `Width` entry, when it is a direct integer.
    pub width: Option<int>,
    /// The `Height` entry, when it is a direct integer.
    pub height: Option<int>,
    /// The `BitsPerComponent` entry, when it is a direct integer.
    pub bits_per_component: Option<int>,
    /// The filter names: one for a direct name, each named element for an
    /// array, none otherwise.
    pub filters: Seq<Seq<char>>,
    /// The shape of the `ColorSpace` entry.
    pub color_space: ColorSpaceRaw,
    /// The raw stream bytes.
    pub content: Seq<u8>,
    /// The stream bytes with its filter chain decoded, when decoding
    /// succeeds.
    pub decompressed: Option<Seq<u8>>,
}

/// What the stream holds. A `lopdf::Stream` is a record of dictionary
/// entries and content bytes that this crate reads only through the trusted
/// accessors below, each of whose contracts speaks of this one name; the
/// reads are deterministic in the stream value.
pub uninterp spec fn stream_info_of(s: lopdf::Stream) -> StreamInfoModel;

/// What each accessor names, over a whole stream sequence.
pub open spec fn infos_of_streams(ss: Seq<lopdf::Stream>) -> Seq<StreamInfoModel> {
    ss.map_values(|st: lopdf::Stream| stream_info_of(st))
}

/// The content streams of the PDF's object graph, in ascending object-id
/// order, as [`stream_info_of`] reads them; `None` when the bytes do not
/// parse as a PDF. A function of the bytes alone.
pub uninterp spec fn pdf_stream_infos(bytes: Seq<u8>) -> Option<Seq<StreamInfoModel>>;

/// Relies on `lopdf::Document::load_mem` and the `objects` table: parses the
/// PDF and hands out every content stream of its object graph, in ascending
/// object-id order; parsing succeeds or fails as a function of the bytes
/// alone, and the error string describes a parse failure.
#[verifier::external_body]
fn pdf_streams(data: &Vec<u8>) -> (r: Result<Vec<lopdf::Stream>, String>)
    ensures
        r matches Ok(ss) ==> pdf_stream_infos(data@) == Some(infos_of_streams(ss@)),
        r is Err ==> pdf_stream_infos(data@) is None,
{
    match lopdf::Document::load_mem(data) {
        Ok(doc) => Ok(
            doc.objects.into_values().filter_map(
                |o| match o {
                    lopdf::Object::Stream(s) => Some(s),
                    _ => None,
                },
            ).collect(),
        ),
        Err(e) => Err(e.to_string()),
    }
}

/// Relies on `lopdf::Dictionary::get` with key `Subtype`: the stream's
/// subtype name, when it is a direct name.
#[verifier::external_body]
fn stream_subtype(s: &lopdf::Stream) -> (r: Option<String>)
    ensures
        r matches Some(n) ==> stream_info_of(*s).subtype == Some(n@),
        r is None ==> stream_info_of(*s).subtype is None,
{
    match s.dict.get(b"Subtype") {
        Ok(lopdf::Object::Name(n)) => Some(String::from_utf8_lossy(n).into_owned()),
        _ => None,
    }
}

/// Relies on `lopdf::Dictionary::get` with key `Width`: the stream's image
/// width, when it is a direct integer.
#[verifier::external_body]
fn stream_width(s: &lopdf::Stream) -> (r: Option<i64>)
    ensures
        r matches Some(w) ==> stream_info_of(*s).width == Some(w as int),
        r is None ==> stream_info_of(*s).width is None,
{
    match s.dict.get(b"Width") {
        Ok(lopdf::Object::Integer(w)) => Some(*w),
        _ => None,
    }
}

/// Relies on `lopdf::Dictionary::get` with key `Height`: the stream's image
/// height, when it is a direct integer.
#[verifier::external_body]
fn stream_height(s: &lopdf::Stream) -> (r: Option<i64>)
    ensures
        r matches Some(h) ==> stream_info_of(*s).height == Some(h as int),
        r is None ==> stream_info_of(*s).height is None,
{
    match s.dict.get(b"Height") {
        Ok(lopdf::Object::Integer(h)) => Some(*h),
        _ => None,
    }
}

/// Relies on `lopdf::Dictionary::get` with key `BitsPerComponent`: the
/// stream's bit depth, when it is a direct integer.
#[verifier::external_body]
fn stream_bits_per_component(s: &lopdf::Stream) -> (r: Option<i64>)
    ensures
        r matches Some(b) ==> stream_info_of(*s).bits_per_component == Some(b as int),
        r is None ==> stream_info_of(*s).bits_per_component is None,
{
    match s.dict.get(b"BitsPerComponent") {
        Ok(lopdf::Object::Integer(b)) => Some(*b),
        _ => None,
    }
}

/// Relies on `lopdf::Dictionary::get` with key `Filter`: the stream's filter
/// names — one for a direct name, each named element for an array, none
/// otherwise.
#[verifier::external_body]
fn stream_filters(s: &lopdf::Stream) -> (r: Vec<String>)
    ensures
        r.deep_view() == stream_info_of(*s).filters,
{
    match s.dict.get(b"Filter") {
        Ok(lopdf::Object::Name(n)) => vec![String::from_utf8_lossy(n).into_owned()],
        Ok(lopdf::Object::Array(arr)) => arr.iter().filter_map(
            |o| match o {
                lopdf::Object::Name(n) => Some(String::from_utf8_lossy(n).into_owned()),
                _ => None,
            },
        ).collect(),
        _ => Vec::new(),
    }
}

/// Relies on `lopdf::Dictionary::get` with key `ColorSpace`: the raw shape
/// of the stream's colour-space entry.
#[verifier::external_body]
fn stream_colorspace(s: &lopdf::Stream) -> (r: ColorSpaceRaw)
    ensures
        r == stream_info_of(*s).color_space,
{
    match s.dict.get(b"ColorSpace") {
        Ok(lopdf::Object::Name(n)) => ColorSpaceRaw::Named(String::from_utf8_lossy(n).into_owned()),
        Ok(lopdf::Object::Array(arr)) => match arr.first() {
            Some(lopdf::Object::Name(n)) => ColorSpaceRaw::ArrayHead(
                String::from_utf8_lossy(n).into_owned(),
            ),
            _ => ColorSpaceRaw::OtherCs,
        },
        _ => ColorSpaceRaw::OtherCs,
    }
}

/// Relies on the `content` field of `lopdf::Stream`: the stream's raw bytes.
#[verifier::external_body]
fn stream_content_bytes(s: &lopdf::Stream) -> (r: Vec<u8>)
    ensures
        r@ == stream_info_of(*s).content,
{
    s.content.clone()
}

/// Relies on `lopdf::Stream::decompressed_content`: the stream's bytes with
/// its filter chain decoded, when decoding succeeds.
#[verifier::external_body]
fn stream_decompressed(s: &lopdf::Stream) -> (r: Option<Vec<u8>>)
    ensures
        r matches Some(b) ==> stream_info_of(*s).decompressed == Some(b@),
        r is None ==> stream_info_of(*s).decompressed is None,
{
    s.decompressed_content().ok()
}

/// The PNG encoding of a `width x height` 8-bit grayscale raster built from
/// `pixels`, when the raster can be assembled and encoded.
pub uninterp spec fn png_gray_of(width: int, height: int, pixels: Seq<u8>) -> Option<Seq<u8>>;

/// The PNG encoding of a `width x height` 8-bit RGB raster built from
/// `pixels`, when the raster can be assembled and encoded.
pub uninterp spec fn png_rgb_of(width: int, height: int, pixels: Seq<u8>) -> Option<Seq<u8>>;

/// Relies on `image::GrayImage::from_raw` and
/// `image::DynamicImage::write_to`: assembles an 8-bit grayscale raster from
/// raw pixels and encodes it losslessly as PNG, in memory; a function of the
/// dimensions and pixels alone.
#[verifier::external_body]
fn encode_png_gray(width: u32, height: u32, pixels: Vec<u8>) -> (r: Option<Vec<u8>>)
    ensures
        r matches Some(b) ==> png_gray_of(width as int, height as int, pixels@) == Some(b@),
        r is None ==> png_gray_of(width as int, height as int, pixels@) is None,
{
    let img = image::GrayImage::from_raw(width, height, pixels)?;
    let mut buf = std::io::Cursor::new(Vec::new());
    image::DynamicImage::ImageLuma8(img).write_to(&mut buf, image::ImageFormat::Png).ok()?;
    Some(buf.into_inner())
}

/// Relies on `image::RgbImage::from_raw` and
/// `image::DynamicImage::write_to`: assembles an 8-bit RGB raster from raw
/// pixels and encodes it losslessly as PNG, in memory; a function of the
/// dimensions and pixels alone.
#[verifier::external_body]
fn encode_png_rgb(width: u32, height: u32, pixels: Vec<u8>) -> (r: Option<Vec<u8>>)
    ensures
        r matches Some(b) ==> png_rgb_of(width as int, height as int, pixels@) == Some(b@),
        r is None ==> png_rgb_of(width as int, height as int, pixels@) is None,
{
    let img = image::RgbImage::from_raw(width, height, pixels)?;
    let mut buf = std::io::Cursor::new(Vec::new());
    image::DynamicImage::ImageRgb8(img).write_to(&mut buf, image::ImageFormat::Png).ok()?;
    Some(buf.into_inner())
}

/// The container format of a recovered image.
#[derive(Debug, Clone, Copy, PartialEq, Eq, Structural)]
pub enum ImageEncoding {
    /// A verbatim JPEG container (a `DCTDecode` stream).
    Jpeg,
    /// A verbatim JPEG 2000 container (a `JPXDecode` stream).
    Jp2,
    /// A PNG assembled here from raw pixel data.
    Png,
}

/// The mathematical model of a [`RecoveredImage`].
pub struct RecoveredModel {
    /// The container format of `bytes`.
    pub encoding: ImageEncoding,
    /// The complete image file contents.
    pub bytes: Seq<u8>,
    /// Image width in pixels.
    pub width: int,
    /// Image height in pixels.
    pub height: int,
}

/// One self-contained image recovered from a PDF stream, ready for optical
/// recognition.
#[derive(Debug, Clone)]
pub struct RecoveredImage {
    /// The container format of `bytes`.
    pub encoding: ImageEncoding,
    /// The complete image file contents.
    pub bytes: Vec<u8>,
    /// Image width in pixels.
    pub width: u32,
    /// Image height in pixels.
    pub height: u32,
}

impl View for RecoveredImage {
    type V = RecoveredModel;

    open spec fn view(&self) -> RecoveredModel {
        RecoveredModel {
            encoding: self.encoding,
            bytes: self.bytes@,
            width: self.width as int,
            height: self.height as int,
        }
    }
}

impl DeepView for RecoveredImage {
    type V = RecoveredModel;

    open spec fn deep_view(&self) -> RecoveredModel {
        self.view()
    }
}

/// Minimum width and height of an image worth recognising; smaller images
/// are icons or thumbnails and are skipped.
pub const MIN_IMAGE_DIM: i64 = 100;

/// The compression classes the recovery path distinguishes.
#[derive(Debug, Clone, Copy, PartialEq, Eq, Structural)]
pub enum FilterClass {
    /// `DCTDecode`: the stream bytes are a complete JPEG container.
    Dct,
    /// `JPXDecode`: the stream bytes are a complete JPEG 2000 container.
    Jpx,
    /// `FlateDecode` or no filter at all: raw pixels to be reassembled.
    Plain,
    /// Any other filter (CCITT fax, JBIG2, ...): not recovered.
    Unsupported,
}

/// The class of a filter chain: `DCTDecode` wins, then `JPXDecode`, then
/// `FlateDecode` or the empty chain; everything else is unsupported.
pub open spec fn filter_class_of(fs: Seq<Seq<char>>) -> FilterClass {
    if fs.contains("DCTDecode"@) {
        FilterClass::Dct
    } else if fs.contains("JPXDecode"@) {
        FilterClass::Jpx
    } else if fs.contains("FlateDecode"@) || fs.len() == 0 {
        FilterClass::Plain
    } else {
        FilterClass::Unsupported
    }
}

/// Classify a stream's filter chain.
pub fn classify_filters(filters: &Vec<String>) -> (r: FilterClass)
    ensures
        r == filter_class_of(filters.deep_view()),
{
    if contains_string(filters, "DCTDecode") {
        FilterClass::Dct
    } else if contains_string(filters, "JPXDecode") {
        FilterClass::Jpx
    } else if contains_string(filters, "FlateDecode") || filters.len() == 0 {
        proof {
            if filters@.len() == 0 {
                assert(filters.deep_view().len() == 0);
            }
        }
        FilterClass::Plain
    } else {
        proof {
            assert(filters.deep_view().len() != 0);
        }
        FilterClass::Unsupported
    }
}

/// The channel count a colour space implies: gray and palette-based spaces
/// give one channel, RGB-like spaces three, CMYK four; unrecognised spaces
/// default to three.
pub open spec fn channels_of(cs: ColorSpaceRaw) -> int {
    match cs {
        ColorSpaceRaw::Named(n) => if n@ == "DeviceGray"@ || n@ == "CalGray"@ {
            1
        } else if n@ == "DeviceRGB"@ || n@ == "CalRGB"@ {
            3
        } else if n@ == "DeviceCMYK"@ {
            4
        } else {
            3
        },
        ColorSpaceRaw::ArrayHead(n) => if n@ == "ICCBased"@ {
            3
        } else if n@ == "Indexed"@ {
            1
        } else if n@ == "CalGray"@ {
            1
        } else if n@ == "CalRGB"@ {
            3
        } else {
            3
        },
        ColorSpaceRaw::OtherCs => 3,
    }
}

/// The number of colour channels a `ColorSpace` entry implies.
pub fn get_color_channels(cs: &ColorSpaceRaw) -> (r: u8)
    ensures
        r as int == channels_of(*cs),
        1 <= r <= 4,
{
    match cs {
        ColorSpaceRaw::Named(n) => {
            if text::str_eq(n.as_str(), "DeviceGray") || text::str_eq(n.as_str(), "CalGray") {
                1
            } else if text::str_eq(n.as_str(), "DeviceRGB") || text::str_eq(n.as_str(), "CalRGB") {
                3
            } else if text::str_eq(n.as_str(), "DeviceCMYK") {
                4
            } else {
                3
            }
        },
        ColorSpaceRaw::ArrayHead(n) => {
            if text::str_eq(n.as_str(), "ICCBased") {
                3
            } else if text::str_eq(n.as_str(), "Indexed") {
                1
            } else if text::str_eq(n.as_str(), "CalGray") {
                1
            } else if text::str_eq(n.as_str(), "CalRGB") {
                3
            } else {
                3
            }
        },
        ColorSpaceRaw::OtherCs => 3,
    }
}

/// Whether a raw pixel buffer of `len` bytes suffices for a
/// `width x height` raster with `channels` bytes per pixel.
pub fn raw_buffer_sufficient(width: u32, height: u32, channels: u8, len: usize) -> (r: bool)
    ensures
        r == (len >= width * height * channels),
{
    proof {
        assert((width as int) * (height as int) <= 0xFFFFFFFF * 0xFFFFFFFF && (width as int) * (
        height as int) * (channels as int) <= 0xFFFFFFFF * 0xFFFFFFFF * 0xFF) by (nonlinear_arith)
            requires
                width <= 0xFFFFFFFF,
                height <= 0xFFFFFFFF,
                channels <= 0xFF,
        ;
    }
    let expected: u128 = (width as u128) * (height as u128) * (channels as u128);
    (len as u128) >= expected
}

/// What recovery yields for one stream: only an image stream (`Subtype`
/// `Image`) with direct integer dimensions, each at least [`MIN_IMAGE_DIM`]
/// and at most `u32::MAX`, is a candidate. A JPEG or JPEG 2000 stream passes
/// its content bytes through verbatim; a flate-compressed or unfiltered
/// stream must decode, carry 8 bits per component and a pixel buffer of at
/// least `width * height * channels` bytes, and is re-encoded as PNG with
/// the channel count its colour space implies (one or three channels; four
/// is not reconstructed). Anything else is skipped.
pub open spec fn recover_spec(info: StreamInfoModel) -> Option<RecoveredModel> {
    if info.subtype != Some("Image"@) {
        None
    } else {
        match (info.width, info.height) {
            (Some(w), Some(h)) => {
                if w < MIN_IMAGE_DIM || h < MIN_IMAGE_DIM || w > u32::MAX || h > u32::MAX {
                    None
                } else {
                    match filter_class_of(info.filters) {
                        FilterClass::Dct => Some(
                            RecoveredModel {
                                encoding: ImageEncoding::Jpeg,
                                bytes: info.content,
                                width: w,
                                height: h,
                            },
                        ),
                        FilterClass::Jpx => Some(
                            RecoveredModel {
                                encoding: ImageEncoding::Jp2,
                                bytes: info.content,
                                width: w,
                                height: h,
                            },
                        ),
                        FilterClass::Plain => match info.decompressed {
                            None => None,
                            Some(raw) => {
                                let bpc = match info.bits_per_component {
                                    Some(b) => b,
                                    None => 8,
                                };
                                let ch = channels_of(info.color_space);
                                if bpc != 8 {
                                    None
                                } else if raw.len() < w * h * ch {
                                    None
                                } else if ch == 1 {
                                    match png_gray_of(w, h, raw) {
                                        Some(b) => Some(
                                            RecoveredModel {
                                                encoding: ImageEncoding::Png,
                                                bytes: b,
                                                width: w,
                                                height: h,
                                            },
                                        ),
                                        None => None,
                                    }
                                } else if ch == 3 {
                                    match png_rgb_of(w, h, raw) {
                                        Some(b) => Some(
                                            RecoveredModel {
                                                encoding: ImageEncoding::Png,
                                                bytes: b,
                                                width: w,
                                                height: h,
                                            },
                                        ),
                                        None => None,
                                    }
                                } else {
                                    None
                                }
                            },
                        },
                        FilterClass::Unsupported => None,
                    }
                }
            },
            _ => None,
        }
    }
}

/// The view of an optional recovered image.
pub open spec fn recovered_view(r: Option<RecoveredImage>) -> Option<RecoveredModel> {
    match r {
        Some(img) => Some(img@),
        None => None,
    }
}

/// The images recovery yields over a stream sequence, in order.
pub open spec fn recovered_of(infos: Seq<StreamInfoModel>) -> Seq<RecoveredModel>
    decreases infos.len(),
{
    if infos.len() == 0 {
        Seq::empty()
    } else {
        (match recover_spec(infos.first()) {
            Some(m) => seq![m],
            None => Seq::empty(),
        }) + recovered_of(infos.drop_first())
    }
}

/// Rebuild a self-contained image file from one PDF content stream, exactly
/// as [`recover_spec`] describes over what the stream holds.
pub fn recover_stream_image(s: &lopdf::Stream) -> (r: Option<RecoveredImage>)
    ensures
        recovered_view(r) == recover_spec(stream_info_of(*s)),
{
    let ghost info = stream_info_of(*s);
    let subtype = match stream_subtype(s) {
        Some(n) => n,
        None => {
            return None;
        },
    };
    if !text::str_eq(subtype.as_str(), "Image") {
        return None;
    }
    let w64 = match stream_width(s) {
        Some(w) => w,
        None => {
            return None;
        },
    };
    let h64 = match stream_height(s) {
        Some(h) => h,
        None => {
            return None;
        },
    };
    if w64 < MIN_IMAGE_DIM || h64 < MIN_IMAGE_DIM {
        return None;
    }
    if w64 > u32::MAX as i64 || h64 > u32::MAX as i64 {
        return None;
    }
    let width = w64 as u32;
    let height = h64 as u32;
    let filters = stream_filters(s);
    match classify_filters(&filters) {
        FilterClass::Dct => Some(
            RecoveredImage {
                encoding: ImageEncoding::Jpeg,
                bytes: stream_content_bytes(s),
                width,
                height,
            },
        ),
        FilterClass::Jpx => Some(
            RecoveredImage {
                encoding: ImageEncoding::Jp2,
                bytes: stream_content_bytes(s),
                width,
                height,
            },
        ),
        FilterClass::Plain => {
            let raw = match stream_decompressed(s) {
                Some(b) => b,
                None => {
                    return None;
                },
            };
            let bpc = match stream_bits_per_component(s) {
                Some(b) => b,
                None => 8,
            };
            if bpc != 8 {
                return None;
            }
            let cs = stream_colorspace(s);
            let channels = get_color_channels(&cs);
            if !raw_buffer_sufficient(width, height, channels, raw.len()) {
                return None;
            }
            if channels == 1 {
                match encode_png_gray(width, height, raw) {
                    Some(bytes) => Some(
                        RecoveredImage { encoding: ImageEncoding::Png, bytes, width, height },
                    ),
                    None => None,
                }
            } else if channels == 3 {
                match encode_png_rgb(width, height, raw) {
                    Some(bytes) => Some(
                        RecoveredImage { encoding: ImageEncoding::Png, bytes, width, height },
                    ),
                    None => None,
                }
            } else {
                None
            }
        },
        FilterClass::Unsupported => None,
    }
}

/// Recover every usable embedded image from a PDF: walk all content streams
/// of the parsed object graph and rebuild, in object order, exactly the
/// images [`recover_spec`] yields per stream. A PDF that does not parse
/// gives an error naming the parse failure.
pub fn recover_pdf_images(data: &Vec<u8>) -> (r: Result<Vec<RecoveredImage>, String>)
    ensures
        r matches Ok(imgs) ==> (pdf_stream_infos(data@) matches Some(infos) && imgs.deep_view()
            == recovered_of(infos)),
        r matches Err(m) ==> pdf_stream_infos(data@) is None
            && "Failed to parse PDF for OCR: "@.is_prefix_of(m@),
{
    let streams = match pdf_streams(data) {
        Ok(ss) => ss,
        Err(e) => {
            let mut msg = "Failed to parse PDF for OCR: ".to_owned();
            msg.append(e.as_str());
            proof {
                assert("Failed to parse PDF for OCR: "@.is_prefix_of(msg@)) by {
                    assert(msg@.take("Failed to parse PDF for OCR: "@.len() as int)
                        =~= "Failed to parse PDF for OCR: "@);
                }
            }
            return Err(msg);
        },
    };
    let ghost infos = infos_of_streams(streams@);
    let mut out: Vec<RecoveredImage> = Vec::new();
    let mut i: usize = 0;
    proof {
        assert(infos.skip(0) =~= infos);
        assert(out.deep_view() + recovered_of(infos) =~= recovered_of(infos));
    }
    while i < streams.len()
        invariant
            i <= streams@.len(),
            infos == infos_of_streams(streams@),
            infos.len() == streams@.len(),
            recovered_of(infos) == out.deep_view() + recovered_of(infos.skip(i as int)),
        decreases streams@.len() - i,
    {
        proof {
            assert(infos.skip(i as int).first() == infos[i as int]);
            assert(infos.skip(i as int).drop_first() =~= infos.skip(i + 1));
            assert(infos[i as int] == stream_info_of(streams@[i as int]));
        }
        let recovered = recover_stream_image(&streams[i]);
        match recovered {
            Some(img) => {
                let ghost old_out = out.deep_view();
                let ghost m = img@;
                out.push(img);
                proof {
                    assert(out.deep_view() =~~= old_out + seq![m]);
                    assert((old_out + seq![m]) + recovered_of(infos.skip(i + 1)) =~= old_out + (
                    seq![m] + recovered_of(infos.skip(i + 1))));
                }
            },
            None => {},
        }
        i = i + 1;
    }
    proof {
        assert(infos.skip(streams@.len() as int) =~= Seq::<StreamInfoModel>::empty());
        assert(out.deep_view() =~= recovered_of(infos));
    }
    Ok(out)
}

} // verus!
