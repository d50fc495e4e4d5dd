//! SVG export: the flattened image, encoded as PNG, embedded as a base64 data URI.

use vstd::prelude::*;
use vstd::string::StringExecFns;
use crate::io::base64::{b64, base64_encode, push_char};
use crate::pixel_buffer::PixelBuffer;

verus! {

#[verifier::external_type_specification]
#[verifier::external_body]
pub struct ExImageError(image::ImageError);

/// The bytes that the `image` crate's PNG encoder writes for a `width` by `height` RGBA8
/// image with pixel bytes `rgba`.
pub uninterp spec fn png_encoding(width: u32, height: u32, rgba: Seq<u8>) -> Seq<u8>;

/// Encodes `rgba` as PNG with `image::RgbaImage::from_raw` and `DynamicImage::write_to` into
/// memory. `from_raw` gives no image when `rgba` holds fewer than `width * height * 4` bytes
/// (more would make the PNG encoder panic, so they are not admitted); with exactly that many,
/// the encoder fails on a zero width or height and otherwise succeeds, and its bytes depend on
/// the arguments alone.
#[verifier::external_body]
fn encode_png(width: u32, height: u32, rgba: &[u8]) -> (r: Option<Result<Vec<u8>, image::ImageError>>)
    requires
        rgba@.len() <= width * height * 4,
    ensures
        r is None <==> rgba@.len() < width * height * 4,
        rgba@.len() == width * height * 4 && width > 0 && height > 0 ==> r matches Some(Ok(_)),
        rgba@.len() == width * height * 4 && (width == 0 || height == 0) ==> r matches Some(Err(_)),
        r matches Some(Ok(bytes)) ==> bytes@ == png_encoding(width, height, rgba@),
{
    match image::RgbaImage::from_raw(width, height, rgba.to_vec()) {
        None => None,
        Some(img) => {
            let mut bytes: Vec<u8> = Vec::new();
            let res = image::DynamicImage::ImageRgba8(img).write_to(
                &mut std::io::Cursor::new(&mut bytes),
                image::ImageFormat::Png,
            );
            match res {
                Ok(()) => Some(Ok(bytes)),
                Err(e) => Some(Err(e)),
            }
        },
    }
}

/// The decimal digits of `n`, most significant first.
pub open spec fn decimal(n: nat) -> Seq<char>
    decreases n,
{
    if n < 10 {
        seq![(48 + n) as char]
    } else {
        decimal(n / 10).push((48 + n % 10) as char)
    }
}

fn push_decimal(s: &mut String, n: u32)
    ensures
        final(s)@ == old(s)@ + decimal(n as nat),
    decreases n,
{
    if n >= 10 {
        push_decimal(s, n / 10);
    }
    let d: u32 = n % 10;
    push_char(s, (48 + d) as u8 as char);
    assert(final(s)@ =~= old(s)@ + decimal(n as nat));
}

/// The SVG document: an XML declaration, then an `svg` element of view box and size
/// `width` by `height` holding one `image` of that size whose `href` is the PNG data URI
/// with base64 text `data`.
pub open spec fn svg_text(width: u32, height: u32, data: Seq<char>) -> Seq<char> {
    "<?xml version=\"1.0\" encoding=\"UTF-8\"?>\n<svg xmlns=\"http://www.w3.org/2000/svg\" viewBox=\"0 0 "@
        + decimal(width as nat) + " "@ + decimal(height as nat) + "\" width=\""@ + decimal(width as nat)
        + "\" height=\""@ + decimal(height as nat) + "\">\n<image href=\"data:image/png;base64,"@ + data
        + "\" width=\""@ + decimal(width as nat) + "\" height=\""@ + decimal(height as nat) + "\"/>\n</svg>"@
}

/// The SVG text for a `width` by `height` image whose PNG bytes are `png`.
pub fn svg_document(width: u32, height: u32, png: &[u8]) -> (s: String)
    ensures
        s@ == svg_text(width, height, b64(png@)),
{
    let data = base64_encode(png);
    let mut s = String::new();
    s.append("<?xml version=\"1.0\" encoding=\"UTF-8\"?>\n<svg xmlns=\"http://www.w3.org/2000/svg\" viewBox=\"0 0 ");
    push_decimal(&mut s, width);
    s.append(" ");
    push_decimal(&mut s, height);
    s.append("\" width=\"");
    push_decimal(&mut s, width);
    s.append("\" height=\"");
    push_decimal(&mut s, height);
    s.append("\">\n<image href=\"data:image/png;base64,");
    s.append(data.as_str());
    s.append("\" width=\"");
    push_decimal(&mut s, width);
    s.append("\" height=\"");
    push_decimal(&mut s, height);
    s.append("\"/>\n</svg>");
    s
}

/// Why an export produced no file content.
#[derive(Debug)]
pub enum ExportError {
    /// The pixel bytes do not make a `width` by `height` RGBA image.
    Conversion,
    /// The PNG encoder failed.
    Encode(image::ImageError),
}

/// The SVG export of the flattened image `flat`: its PNG encoding wrapped by `svg_document`;
/// an empty image (zero width or height) gives the encoder's error.
pub fn export_svg(flat: &PixelBuffer) -> (r: Result<String, ExportError>)
    requires
        flat.wf(),
    ensures
        r is Ok <==> flat.spec_width() > 0 && flat.spec_height() > 0,
        r matches Ok(s) ==> s@ == svg_text(
            flat.spec_width() as u32,
            flat.spec_height() as u32,
            b64(png_encoding(flat.spec_width() as u32, flat.spec_height() as u32, flat.bytes())),
        ),
        r matches Err(e) ==> e is Encode,
{
    let w = flat.width();
    let h = flat.height();
    match encode_png(w, h, flat.as_slice()) {
        Some(Ok(png)) => Ok(svg_document(w, h, png.as_slice())),
        Some(Err(e)) => Err(ExportError::Encode(e)),
        None => Err(ExportError::Conversion),
    }
}

} // verus!
