//! Clipboard images are normalized to PNG and carried inline with a user message.
//! The codecs are those of the `image` and `base64` crates; the bounds that an
//! attachment must respect, and the order in which they are checked, are proved here.
use vstd::prelude::*;
use base64::Engine;
use image::ImageEncoder;
use crate::llm::ImageAttachment;
use crate::text::{byte_len, chars_of, copy_chars, matches_at, string_of, push_str, utf8_len};

verus! {

pub const MAX_IMAGES: usize = 4;
pub const MAX_IMAGE_BYTES: usize = 5242880;
pub const MAX_PIXELS: usize = 16777216;
/// The longest base64 text that can decode to at most `MAX_IMAGE_BYTES` bytes.
pub const MAX_ENCODED_BYTES: usize = 6990508;
/// The allocation bound handed to the PNG decoder.
pub const DECODE_ALLOC_LIMIT: u64 = 134217728;

pub const PNG_DATA_PREFIX: &'static str = "data:image/png;base64,";

/// The PNG file that `image`'s `PngEncoder` writes for 8-bit RGBA pixels of the
/// given size, or the text of its error.
pub uninterp spec fn png_encoding(rgba: Seq<u8>, width: u32, height: u32) -> Result<Seq<u8>, Seq<char>>;

/// The character of the standard base64 alphabet for a six-bit value:
/// `A`-`Z`, `a`-`z`, `0`-`9`, `+` and `/`.
pub open spec fn base64_digit(v: int) -> char {
    if v < 26 {
        (65 + v) as char
    } else if v < 52 {
        (97 + v - 26) as char
    } else if v < 62 {
        (48 + v - 52) as char
    } else if v == 62 {
        '+'
    } else {
        '/'
    }
}

/// The padded standard-alphabet base64 text of some bytes: each group of three
/// bytes gives four characters of six bits each, and a last group of one or two
/// bytes gives two or three characters padded with `=` to four.
pub open spec fn base64_text(bytes: Seq<u8>) -> Seq<char>
    decreases bytes.len(),
{
    if bytes.len() == 0 {
        Seq::empty()
    } else if bytes.len() == 1 {
        let a = bytes[0] as int;
        seq![base64_digit(a / 4), base64_digit((a % 4) * 16), '=', '=']
    } else if bytes.len() == 2 {
        let a = bytes[0] as int;
        let b = bytes[1] as int;
        seq![base64_digit(a / 4), base64_digit((a % 4) * 16 + b / 16), base64_digit((b % 16) * 4), '=']
    } else {
        let a = bytes[0] as int;
        let b = bytes[1] as int;
        let c = bytes[2] as int;
        seq![
            base64_digit(a / 4),
            base64_digit((a % 4) * 16 + b / 16),
            base64_digit((b % 16) * 4 + c / 64),
            base64_digit(c % 64),
        ] + base64_text(bytes.skip(3))
    }
}

/// The bytes that `base64`'s standard engine decodes from a text, or its error text.
pub uninterp spec fn base64_decoding(text: Seq<char>) -> Result<Seq<u8>, Seq<char>>;

/// The size that `image` reports for PNG data decoded under the given width,
/// height and allocation limits, or its error text.
pub uninterp spec fn png_dimensions(png: Seq<u8>, width: u32, height: u32, max_alloc: u64) -> Result<(u32, u32), Seq<char>>;

pub open spec fn bytes_view(r: Result<Vec<u8>, String>) -> Result<Seq<u8>, Seq<char>> {
    match r {
        Ok(b) => Ok(b@),
        Err(e) => Err(e@),
    }
}

pub open spec fn dims_view(r: Result<(u32, u32), String>) -> Result<(u32, u32), Seq<char>> {
    match r {
        Ok(d) => Ok(d),
        Err(e) => Err(e@),
    }
}

pub open spec fn unit_view(r: Result<(), String>) -> Result<(), Seq<char>> {
    match r {
        Ok(_) => Ok(()),
        Err(e) => Err(e@),
    }
}

/// `PngEncoder::write_image` on 8-bit RGBA pixels; the encoder panics unless the
/// buffer holds exactly four bytes per pixel, which `requires` asks.
#[verifier::external_body]
fn encode_png(rgba: &[u8], width: u32, height: u32) -> (r: Result<Vec<u8>, String>)
    requires
        rgba@.len() == width as int * height as int * 4,
    ensures
        bytes_view(r) == png_encoding(rgba@, width, height),
{
    let mut png = Vec::new();
    let encoder = image::codecs::png::PngEncoder::new(&mut png);
    match encoder.write_image(rgba, width, height, image::ExtendedColorType::Rgba8) {
        Ok(()) => Ok(png),
        Err(e) => Err(e.to_string()),
    }
}

/// `base64::engine::general_purpose::STANDARD.encode`: the standard alphabet
/// with `=` padding, as `base64_text` states it; it panics only when the output
/// length overflows `usize`, which the bound in `requires` rules out.
#[verifier::external_body]
fn encode_base64(bytes: &[u8]) -> (r: String)
    requires
        bytes@.len() <= MAX_IMAGE_BYTES,
    ensures
        r@ == base64_text(bytes@),
{
    base64::engine::general_purpose::STANDARD.encode(bytes)
}

/// `base64::engine::general_purpose::STANDARD.decode`, with the error as text.
#[verifier::external_body]
fn decode_base64(text: &str) -> (r: Result<Vec<u8>, String>)
    ensures
        bytes_view(r) == base64_decoding(text@),
{
    base64::engine::general_purpose::STANDARD.decode(text).map_err(|e| e.to_string())
}

/// `ImageReader::with_format(.., ImageFormat::Png)` under `Limits` that cap the
/// width, height and allocation, then `decode`; the result is the decoded size.
#[verifier::external_body]
fn decode_png(png: &[u8], width: u32, height: u32, max_alloc: u64) -> (r: Result<(u32, u32), String>)
    ensures
        dims_view(r) == png_dimensions(png@, width, height, max_alloc),
{
    let mut reader = image::ImageReader::with_format(std::io::Cursor::new(png), image::ImageFormat::Png);
    let mut limits = image::Limits::default();
    limits.max_image_width = Some(width);
    limits.max_image_height = Some(height);
    limits.max_alloc = Some(max_alloc);
    reader.limits(limits);
    match reader.decode() {
        Ok(decoded) => Ok((decoded.width(), decoded.height())),
        Err(e) => Err(e.to_string()),
    }
}

/// The check of a clipboard size against its pixel buffer.
pub open spec fn rgba_check(width: int, height: int, len: int) -> Result<(), Seq<char>> {
    if !(0 < width * height <= MAX_PIXELS) {
        Err("Image must contain between 1 and 16 million pixels"@)
    } else if width * height * 4 != len {
        Err("Invalid RGBA image buffer"@)
    } else {
        Ok(())
    }
}

/// Whether a clipboard of `width` by `height` pixels can hold `len` bytes of RGBA.
pub fn check_rgba(width: usize, height: usize, len: usize) -> (r: Result<(), String>)
    ensures
        unit_view(r) == rgba_check(width as int, height as int, len as int),
{
    let pixels = match width.checked_mul(height) {
        Some(n) => n,
        None => {
            proof {
                assert(width * height > MAX_PIXELS) by (nonlinear_arith)
                    requires width * height > usize::MAX, usize::MAX >= MAX_PIXELS;
            }
            return Err("Image must contain between 1 and 16 million pixels".to_owned());
        },
    };
    if pixels == 0 || pixels > MAX_PIXELS {
        return Err("Image must contain between 1 and 16 million pixels".to_owned());
    }
    if pixels * 4 != len {
        return Err("Invalid RGBA image buffer".to_owned());
    }
    Ok(())
}

/// What an attachment built from a PNG holds: the inline data URL, or the size error.
pub open spec fn png_attachment_ok(png: Seq<u8>, width: u32, height: u32, r: Result<ImageAttachment, String>) -> bool {
    if png.len() > MAX_IMAGE_BYTES {
        r matches Err(e) && e@ == "Image exceeds the 5 MiB PNG limit"@
    } else {
        r matches Ok(img) && img.data_url@ == PNG_DATA_PREFIX@ + base64_text(png)
            && img.width == width && img.height == height
    }
}

/// An attachment that carries the given PNG inline, refused when the PNG is larger
/// than `MAX_IMAGE_BYTES`.
pub fn png_attachment(png: &[u8], width: u32, height: u32) -> (r: Result<ImageAttachment, String>)
    ensures
        png_attachment_ok(png@, width, height, r),
{
    if png.len() > MAX_IMAGE_BYTES {
        return Err("Image exceeds the 5 MiB PNG limit".to_owned());
    }
    let mut data_url = PNG_DATA_PREFIX.to_owned();
    let encoded = encode_base64(png);
    push_str(&mut data_url, encoded.as_str());
    Ok(ImageAttachment { data_url, width, height })
}

/// What `from_rgba` returns for a clipboard buffer.
pub open spec fn from_rgba_ok(width: usize, height: usize, bytes: Seq<u8>, r: Result<ImageAttachment, String>) -> bool {
    match rgba_check(width as int, height as int, bytes.len() as int) {
        Err(e) => r matches Err(x) && x@ == e,
        Ok(_) => match png_encoding(bytes, width as u32, height as u32) {
            Err(e) => r matches Err(x) && x@ == e,
            Ok(png) => png_attachment_ok(png, width as u32, height as u32, r),
        },
    }
}

/// Turns clipboard RGBA pixels into a self-contained PNG attachment.
pub fn from_rgba(width: usize, height: usize, bytes: &[u8]) -> (r: Result<ImageAttachment, String>)
    ensures
        from_rgba_ok(width, height, bytes@, r),
{
    match check_rgba(width, height, bytes.len()) {
        Err(e) => return Err(e),
        Ok(()) => {},
    }
    proof {
        assert(width <= width * height && height <= width * height) by (nonlinear_arith)
            requires 0 < width * height, width >= 0, height >= 0;
    }
    let w = width as u32;
    let h = height as u32;
    match encode_png(bytes, w, h) {
        Err(e) => Err(e),
        Ok(png) => png_attachment(png.as_slice(), w, h),
    }
}

/// The check of one attachment, in the order the bounds are tried.
pub open spec fn image_check(img: ImageAttachment) -> Result<(), Seq<char>> {
    let url = img.data_url@;
    let p = PNG_DATA_PREFIX@;
    let pixels = img.width as int * img.height as int;
    if !(p.len() <= url.len() && url.take(p.len() as int) == p) {
        Err("Only inline PNG images are supported"@)
    } else if utf8_len(url.skip(p.len() as int)) > MAX_ENCODED_BYTES {
        Err("Image exceeds the 5 MiB PNG limit"@)
    } else if pixels == 0 || pixels > MAX_PIXELS {
        Err("Image must contain between 1 and 16 million pixels"@)
    } else {
        match base64_decoding(url.skip(p.len() as int)) {
            Err(e) => Err(e),
            Ok(png) => if png.len() > MAX_IMAGE_BYTES {
                Err("Image exceeds the 5 MiB PNG limit"@)
            } else {
                match png_dimensions(png, img.width, img.height, DECODE_ALLOC_LIMIT) {
                    Err(e) => Err(e),
                    Ok(d) => if d != (img.width, img.height) {
                        Err("Image dimensions do not match its PNG data"@)
                    } else {
                        Ok(())
                    },
                }
            },
        }
    }
}

/// The first error among attachments, in their order.
pub open spec fn first_image_error(imgs: Seq<ImageAttachment>) -> Result<(), Seq<char>>
    decreases imgs.len(),
{
    if imgs.len() == 0 {
        Ok(())
    } else {
        match image_check(imgs[0]) {
            Err(e) => Err(e),
            Ok(_) => first_image_error(imgs.skip(1)),
        }
    }
}

/// The check of the attachments of one message.
pub open spec fn images_check(imgs: Seq<ImageAttachment>) -> Result<(), Seq<char>> {
    if imgs.len() > MAX_IMAGES {
        Err("At most 4 images can be sent per message"@)
    } else {
        first_image_error(imgs)
    }
}

fn check_image(img: &ImageAttachment) -> (r: Result<(), String>)
    ensures
        unit_view(r) == image_check(*img),
{
    let url = chars_of(img.data_url.as_str());
    let p = chars_of(PNG_DATA_PREFIX);
    if !(p.len() <= url.len() && matches_at(url.as_slice(), p.as_slice(), 0)) {
        proof {
            if p@.len() <= url@.len() {
                assert(url@.take(p@.len() as int) =~= url@.subrange(0, p@.len() as int));
            }
        }
        return Err("Only inline PNG images are supported".to_owned());
    }
    proof {
        assert(url@.take(p@.len() as int) =~= url@.subrange(0, p@.len() as int));
    }
    let rest = copy_chars(url.as_slice(), p.len(), url.len());
    proof {
        assert(rest@ =~= url@.skip(p@.len() as int));
    }
    let encoded = string_of(rest.as_slice());
    if byte_len(encoded.as_str()) > MAX_ENCODED_BYTES {
        return Err("Image exceeds the 5 MiB PNG limit".to_owned());
    }
    proof {
        let (w, h) = (img.width as int, img.height as int);
        assert(w * h <= 0xffff_ffff * 0xffff_ffff) by (nonlinear_arith)
            requires 0 <= w <= 0xffff_ffff, 0 <= h <= 0xffff_ffff;
    }
    let pixels = img.width as u64 * img.height as u64;
    if pixels == 0 || pixels > MAX_PIXELS as u64 {
        return Err("Image must contain between 1 and 16 million pixels".to_owned());
    }
    let png = match decode_base64(encoded.as_str()) {
        Ok(b) => b,
        Err(e) => return Err(e),
    };
    if png.len() > MAX_IMAGE_BYTES {
        return Err("Image exceeds the 5 MiB PNG limit".to_owned());
    }
    let dims = match decode_png(png.as_slice(), img.width, img.height, DECODE_ALLOC_LIMIT) {
        Ok(d) => d,
        Err(e) => return Err(e),
    };
    if dims.0 != img.width || dims.1 != img.height {
        return Err("Image dimensions do not match its PNG data".to_owned());
    }
    Ok(())
}

/// Validates attachments before they enter history or the work journal.
pub fn validate(images: &Vec<ImageAttachment>) -> (r: Result<(), String>)
    ensures
        unit_view(r) == images_check(images@),
{
    if images.len() > MAX_IMAGES {
        return Err("At most 4 images can be sent per message".to_owned());
    }
    let mut i: usize = 0;
    proof {
        assert(images@.skip(0) =~= images@);
    }
    while i < images.len()
        invariant
            i <= images@.len(),
            images@.len() <= MAX_IMAGES,
            first_image_error(images@) == first_image_error(images@.skip(i as int)),
        decreases images@.len() - i,
    {
        let r = check_image(&images[i]);
        proof {
            assert(images@.skip(i as int)[0] == images@[i as int]);
            assert(images@.skip(i as int).skip(1) =~= images@.skip(i as int + 1));
        }
        match r {
            Err(e) => return Err(e),
            Ok(()) => {},
        }
        i = i + 1;
    }
    proof {
        assert(images@.skip(i as int).len() == 0);
    }
    Ok(())
}

} // verus!
