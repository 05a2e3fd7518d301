//! Everything that is taken on trust: calls into the standard library and
//! into other crates, each with what is claimed of it.
use crate::names;
use crate::text;
use base64::Engine;
use vstd::prelude::*;

verus! {

/// `String::push` of the standard library: one more character at the end.
pub assume_specification[ String::push ](s: &mut String, c: char)
    ensures
        final(s)@ == old(s)@.push(c),
;

/// What `str::to_lowercase` of the standard library gives for a text.
pub uninterp spec fn unicode_lowercase(s: Seq<char>) -> Seq<char>;

/// Calls `str::to_lowercase` of the standard library. Its result is a
/// function of the text; nothing else is claimed of it.
#[verifier::external_body]
pub(crate) fn unicode_lower(s: &str) -> (r: String)
    ensures
        r@ == unicode_lowercase(s@),
{
    s.to_lowercase()
}

/// Reads the clock of the machine with `std::time::SystemTime`: the
/// milliseconds since the start of 1970, zero before it. Nothing is claimed of
/// the time but the bound that the seconds of a `Duration` set.
#[verifier::external_body]
pub fn now_millis() -> (r: u128)
    ensures
        r <= 18446744073709551615999,
{
    std::time::SystemTime::now().duration_since(std::time::UNIX_EPOCH).unwrap_or_default().as_millis()
}

/// What follows the last slash of a name.
pub open spec fn last_part(name: Seq<char>) -> Seq<char>
    decreases name.len(),
{
    if name.len() == 0 || name.last() == '/' {
        Seq::<char>::empty()
    } else {
        last_part(name.drop_last()).push(name.last())
    }
}

/// Whether every platform takes a name for a path to the same file: it holds
/// nothing that separates on one platform alone, it does not begin with the two
/// slashes that name a server and a share on one of them, and its last part
/// names a file.
pub open spec fn same_everywhere(name: Seq<char>) -> bool {
    &&& !(name.len() >= 2 && name[0] == '/' && name[1] == '/')
    &&& forall|i: int| 0 <= i < name.len() ==> #[trigger] name[i] != '\\' && name[i] != ':'
    &&& last_part(name).len() > 0
    &&& last_part(name) != "."@
}

/// Calls `Path::extension` of the standard library on a name as a path. For a
/// name that is the same path on every platform it is what follows the last
/// dot of its last part. For another name it depends on the platform, and
/// nothing is claimed.
#[verifier::external_body]
pub(crate) fn path_extension(name: &str) -> (r: Option<String>)
    ensures
        same_everywhere(name@) ==> text::opt_text(r) == names::extension(last_part(name@)),
{
    std::path::Path::new(name).extension().and_then(|e| e.to_str()).map(|e| e.to_owned())
}

/// The hexadecimal digit for a number below sixteen, in capitals.
pub open spec fn percent_digit(n: u8) -> char {
    if n < 10 {
        (48 + n) as u8 as char
    } else {
        (55 + n) as u8 as char
    }
}

/// Bytes as they stand in a link: letters, digits, `-`, `_`, `.` and `~` as
/// they are, any other byte as `%` and two hexadecimal digits.
pub open spec fn percent_encoded(bytes: Seq<u8>) -> Seq<char>
    decreases bytes.len(),
{
    if bytes.len() == 0 {
        Seq::<char>::empty()
    } else {
        let before = percent_encoded(bytes.drop_last());
        let b = bytes.last();
        let c = b as char;
        if names::name_char(c) || c == '~' {
            before.push(c)
        } else {
            before + seq!['%', percent_digit(b / 16), percent_digit(b % 16)]
        }
    }
}

/// Calls `urlencoding::encode`: every byte of the text in UTF-8 is
/// percent-encoded, except letters, digits, `-`, `_`, `.` and `~`.
#[verifier::external_body]
pub(crate) fn encode_link(s: &str) -> (r: String)
    ensures
        r@ == percent_encoded(vstd::utf8::encode_utf8(s@)),
{
    urlencoding::encode(s).into_owned()
}

/// What the first group of a pattern holds at the first match in a text; or
/// what the `regex` crate says of a pattern that is none.
pub uninterp spec fn first_group(pattern: Seq<char>, s: Seq<char>) -> Result<Option<Seq<char>>, Seq<char>>;

pub open spec fn group_view(r: Result<Option<String>, String>) -> Result<Option<Seq<char>>, Seq<char>> {
    match r {
        Ok(o) => Ok(text::opt_text(o)),
        Err(e) => Err(e@),
    }
}

/// Calls `Regex::new` and `Regex::captures` of the `regex` crate. The result
/// is a function of the pattern and the text; nothing else is claimed of it.
#[verifier::external_body]
pub(crate) fn capture_first_group(pattern: &str, s: &str) -> (r: Result<Option<String>, String>)
    ensures
        group_view(r) == first_group(pattern@, s@),
{
    let re = regex::Regex::new(pattern).map_err(|e| e.to_string())?;
    Ok(re.captures(s).and_then(|c| c.get(1)).map(|m| m.as_str().to_owned()))
}

/// The bytes that a text in Base64 stands for; or what the `base64` crate
/// says of a text that is none.
pub uninterp spec fn base64_bytes(s: Seq<char>) -> Result<Seq<u8>, Seq<char>>;

pub open spec fn bytes_view(r: Result<Vec<u8>, String>) -> Result<Seq<u8>, Seq<char>> {
    match r {
        Ok(v) => Ok(v@),
        Err(e) => Err(e@),
    }
}

/// Calls `decode` of the standard engine of the `base64` crate. The result is
/// a function of the text; nothing else is claimed of it.
#[verifier::external_body]
pub(crate) fn decode_base64(s: &str) -> (r: Result<Vec<u8>, String>)
    ensures
        bytes_view(r) == base64_bytes(s@),
{
    base64::engine::general_purpose::STANDARD.decode(s).map_err(|e| e.to_string())
}

/// The drawing in SVG of the QR code for some bytes; or what the `qrcode`
/// crate says of bytes that fit none.
pub uninterp spec fn qr_drawing(
    data: Seq<u8>,
    side: u32,
    dark: Seq<char>,
    light: Seq<char>,
) -> Result<Seq<char>, Seq<char>>;

pub open spec fn text_view(r: Result<String, String>) -> Result<Seq<char>, Seq<char>> {
    match r {
        Ok(s) => Ok(s@),
        Err(e) => Err(e@),
    }
}

/// Calls `QrCode::new` of the `qrcode` crate and draws the code in SVG, with
/// its quiet zone. The result is a function of the bytes, the least side and
/// the two colours; nothing else is claimed of it. The sum of a larger side
/// and the width of the code would not fit.
#[verifier::external_body]
pub(crate) fn draw_qr(data: &[u8], side: u32, dark: &str, light: &str) -> (r: Result<String, String>)
    requires
        side <= 0x7fff_ffff,
    ensures
        text_view(r) == qr_drawing(data@, side, dark@, light@),
{
    let code = qrcode::QrCode::new(data).map_err(|e| e.to_string())?;
    let mut drawing = code.render::<qrcode::render::svg::Color>();
    drawing.min_dimensions(side, side).quiet_zone(true);
    drawing.dark_color(qrcode::render::svg::Color(dark));
    drawing.light_color(qrcode::render::svg::Color(light));
    Ok(drawing.build())
}

/// Two bytes as a number, the higher first.
pub open spec fn wide(v: Seq<u8>, i: int) -> int {
    v[i] * 256 + v[i + 1]
}

/// By how much the brightness of a block is divided at some quality.
pub open spec fn brightness_step(quality: u8) -> int {
    let scale = if quality < 50 {
        5000int / (quality as int)
    } else {
        200 - 2 * quality
    };
    let step = (16 * scale + 50) / 100;
    if step < 1 {
        1
    } else if step > 255 {
        255
    } else {
        step
    }
}

/// Whether bytes start and end as a JPEG, whose frame fits and whose first
/// table is that of the quality.
pub open spec fn fitted_jpeg(v: Seq<u8>, width: u32, height: u32, quality: u8) -> bool {
    &&& v.len() > 46
    &&& v[0] == 0xff && v[1] == 0xd8
    &&& v[v.len() - 2] == 0xff && v[v.len() - 1] == 0xd9
    &&& 0 < wide(v, 25) <= height
    &&& 0 < wide(v, 27) <= width
    &&& v[44] == brightness_step(quality)
}

/// The image of the `image` crate, as it was decoded.
#[verifier::external_type_specification]
#[verifier::external_body]
pub struct ExDynamicImage(image::DynamicImage);

/// Calls `load_from_memory` of the `image` crate. Which pixels a JPEG holds
/// depends on the instructions that the machine offers, so nothing is claimed
/// of the image, nor of which bytes are one.
#[verifier::external_body]
pub(crate) fn load_image(bytes: &[u8]) -> (r: Result<image::DynamicImage, String>) {
    image::load_from_memory(bytes).map_err(|e| e.to_string())
}

/// The width and the height of an image, the bits of one of its pixels and the
/// samples that one is made of.
pub uninterp spec fn image_shape(img: image::DynamicImage) -> (u32, u32, u16, u8);

/// Calls `width`, `height` and `color` of an image of the `image` crate, and
/// `bits_per_pixel` and `channel_count` of the colour. The four numbers depend
/// on the image alone.
#[verifier::external_body]
pub(crate) fn measure_image(img: &image::DynamicImage) -> (r: (u32, u32, u16, u8))
    ensures
        r == image_shape(*img),
{
    let color = img.color();
    (img.width(), img.height(), color.bits_per_pixel(), color.channel_count())
}

/// How many pixels of an image may go into one, when it is fitted into a
/// frame. Along the side that fills the frame it is the part of that side that
/// falls to one pixel, with what the rounding of coordinates may add; along the
/// other side at most twice as many, and no more than there are.
pub open spec fn most_pixels(width: u32, height: u32, frame_width: u32, frame_height: u32) -> int {
    let by_width = width * frame_height >= height * frame_width;
    let long = if by_width {
        width as int
    } else {
        height as int
    };
    let short = if by_width {
        height as int
    } else {
        width as int
    };
    let frame = if by_width {
        frame_width as int
    } else {
        frame_height as int
    };
    let along = long / frame + long / (100 * frame) + 3;
    let across = if 2 * along < short {
        2 * along
    } else {
        short
    };
    along * across
}

/// Whether the samples of an image have 16 bits.
pub open spec fn is_deep(shape: (u32, u32, u16, u8)) -> bool {
    shape.2 == 16 * shape.3
}

/// Whether 32 bits hold the sums of as many samples of eight bits as go into
/// one.
pub open spec fn size_fits(width: u32, height: u32, frame_width: u32, frame_height: u32) -> bool {
    most_pixels(width, height, frame_width, frame_height) <= 16800000
}

/// Whether the sums of the samples that go into one stay within 32 bits:
/// there is room for 65536 samples of 16 bits, and for many more of eight.
pub open spec fn sums_fit(shape: (u32, u32, u16, u8), frame_width: u32, frame_height: u32) -> bool {
    &&& size_fits(shape.0, shape.1, frame_width, frame_height)
    &&& is_deep(shape) ==> most_pixels(shape.0, shape.1, frame_width, frame_height) <= 65536
}

/// An image with samples of 16 bits, fitted into a frame with wide sums.
pub uninterp spec fn widely_fitted(
    img: image::DynamicImage,
    width: u32,
    height: u32,
) -> image::DynamicImage;

/// Fits an image with samples of 16 bits into a frame, with `thumbnail` of
/// `image::imageops` on samples of 32 bits, which it adds up in 64. The samples
/// go there and back as they are, and the size is the one that `thumbnail`
/// gives to an empty image as large as this one; so the pixels are those that
/// `thumbnail` makes of the image itself, wherever its sums fit. What comes out
/// is a function of the image and the frame: an image of red, green, blue and
/// alpha with samples of 16 bits, not empty and within the frame. That the
/// pixels are the same is not stated.
#[verifier::external_body]
pub(crate) fn fit_widely(img: &image::DynamicImage, width: u32, height: u32) -> (r: image::DynamicImage)
    requires
        0 < width <= 65535,
        0 < height <= 65535,
        is_deep(image_shape(*img)),
        size_fits(image_shape(*img).0, image_shape(*img).1, width, height),
    ensures
        r == widely_fitted(*img, width, height),
        0 < image_shape(r).0 <= width,
        0 < image_shape(r).1 <= height,
        image_shape(r).2 == 64 && image_shape(r).3 == 4,
{
    let (w, h) = (img.width(), img.height());
    let size = image::DynamicImage::new_luma8(w, h).thumbnail(width, height);
    let wide = img.to_rgba16().into_raw().into_iter().map(u32::from).collect();
    let wide = image::ImageBuffer::<image::Rgba<u32>, Vec<u32>>::from_raw(w, h, wide).unwrap_or_default();
    let small = image::imageops::thumbnail(&wide, size.width(), size.height());
    let narrow = small.into_raw().into_iter().map(|s| s as u16).collect();
    let small = image::ImageBuffer::from_raw(size.width(), size.height(), narrow);
    image::DynamicImage::ImageRgba16(small.unwrap_or_default())
}

/// The JPEG of an image that was fitted into a frame, at some quality.
pub uninterp spec fn small_jpeg(
    img: image::DynamicImage,
    width: u32,
    height: u32,
    quality: u8,
) -> Seq<u8>;

/// Fits an image into a frame with `thumbnail` of the `image` crate and
/// encodes it with `JpegEncoder`. Every image has such a JPEG: the frame gives
/// it sides that the encoder takes, and writing to memory does not fail. The
/// bytes are a function of the image, the frame and the quality. They start and
/// end with the markers of a JPEG; the height and the width in its header are
/// within the frame, and its first table is that of the quality. Nothing else
/// is claimed of the pixels. `thumbnail` adds up samples of eight and of 16 bits
/// in 32, so an image for which the sums might not fit is left out.
#[verifier::external_body]
pub(crate) fn fit_image(
    img: &image::DynamicImage,
    width: u32,
    height: u32,
    quality: u8,
) -> (r: Result<Vec<u8>, String>)
    requires
        0 < width <= 65535,
        0 < height <= 65535,
        0 < quality <= 100,
        sums_fit(image_shape(*img), width, height),
    ensures
        r is Ok,
        r matches Ok(v) ==> v@ == small_jpeg(*img, width, height, quality),
        r matches Ok(v) ==> fitted_jpeg(v@, width, height, quality),
{
    let rgb = img.thumbnail(width, height).to_rgb8();
    let mut out = std::io::Cursor::new(Vec::new());
    let mut encoder = image::codecs::jpeg::JpegEncoder::new_with_quality(&mut out, quality);
    let (w, h) = (rgb.width(), rgb.height());
    encoder.encode(rgb.as_raw(), w, h, image::ExtendedColorType::Rgb8).map_err(|e| e.to_string())?;
    Ok(out.into_inner())
}

} // verus!
