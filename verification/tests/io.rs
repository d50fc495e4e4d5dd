use artflow::color::Rgba8;
use artflow::document::Document;
use artflow::io::base64::base64_encode;
use artflow::io::formats::{format_for_extension, FlatFormat};
use artflow::io::project::{project_body, project_bytes, ProjectError};
use artflow::io::psd::psd_bytes;
use artflow::io::svg::{export_svg, svg_document};
use artflow::pixel_buffer::PixelBuffer;

#[test]
fn base64_known_vectors() {
    assert_eq!(base64_encode(b""), "");
    assert_eq!(base64_encode(b"M"), "TQ==");
    assert_eq!(base64_encode(b"Ma"), "TWE=");
    assert_eq!(base64_encode(b"Man"), "TWFu");
    assert_eq!(base64_encode(b"foobar"), "Zm9vYmFy");
    assert_eq!(base64_encode(&[0xff, 0xfe]), "//4=");
}

#[test]
fn base64_length_is_four_per_started_triple() {
    for n in 0..10usize {
        let data = vec![7u8; n];
        assert_eq!(base64_encode(&data).len(), (n + 2) / 3 * 4);
    }
}

#[test]
fn project_round_trip() {
    let body = b"{\"name\":\"x\"}".to_vec();
    let file = project_bytes(&body);
    assert_eq!(&file[..8], b"ARTFLOW1");
    assert_eq!(&file[8..16], &(body.len() as u64).to_le_bytes());
    assert_eq!(project_body(&file), Ok(body));
}

#[test]
fn project_errors() {
    assert_eq!(project_body(b"ARTFLOW1"), Err(ProjectError::Truncated));
    assert_eq!(project_body(b"NOTAFLOW\0\0\0\0\0\0\0\0"), Err(ProjectError::NotAProject));
}

#[test]
fn project_ignores_trailing_bytes() {
    let mut file = project_bytes(b"ab");
    file.extend_from_slice(b"zz");
    assert_eq!(project_body(&file), Ok(b"ab".to_vec()));
}

#[test]
fn psd_header_and_pixels() {
    let doc = Document::new("d".to_string(), 2, 1, Rgba8::new(1, 2, 3, 4));
    let bytes = psd_bytes(&doc);
    assert_eq!(&bytes[..4], b"8BPS");
    assert_eq!(&bytes[4..6], &[0, 1]);
    assert!(bytes[6..12].iter().all(|&b| b == 0));
    assert_eq!(&bytes[12..14], &[0, 1]);
    assert_eq!(&bytes[14..18], &1u32.to_be_bytes());
    assert_eq!(&bytes[18..22], &2u32.to_be_bytes());
    assert_eq!(&bytes[22..26], &[0, 16, 0, 3]);
    assert_eq!(bytes.len(), 40 + 8);
    assert!(bytes[26..40].iter().all(|&b| b == 0));
    assert_eq!(&bytes[40..], &[1, 2, 3, 4, 1, 2, 3, 4]);
}

#[test]
fn svg_document_text() {
    let s = svg_document(2, 3, b"Man");
    assert_eq!(
        s,
        "<?xml version=\"1.0\" encoding=\"UTF-8\"?>\n<svg xmlns=\"http://www.w3.org/2000/svg\" viewBox=\"0 0 2 3\" width=\"2\" height=\"3\">\n<image href=\"data:image/png;base64,TWFu\" width=\"2\" height=\"3\"/>\n</svg>"
    );
}

#[test]
fn svg_export_embeds_png() {
    let mut flat = PixelBuffer::new(12, 10);
    flat.clear(Rgba8::new(10, 20, 30, 255));
    let svg = export_svg(&flat).expect("encodes");
    assert!(svg.contains("viewBox=\"0 0 12 10\""));
    // The PNG signature, base64 encoded.
    assert!(svg.contains("base64,iVBORw0KGgo"));
}

#[test]
fn export_svg_of_an_empty_image_is_an_encoder_error() {
    let flat = PixelBuffer::new(0, 0);
    assert!(matches!(export_svg(&flat), Err(artflow::io::svg::ExportError::Encode(_))));
}

#[test]
fn formats_by_extension() {
    assert_eq!(format_for_extension("png"), FlatFormat::Png);
    assert_eq!(format_for_extension("JPG"), FlatFormat::Jpeg);
    assert_eq!(format_for_extension("Jpeg"), FlatFormat::Jpeg);
    assert_eq!(format_for_extension("tif"), FlatFormat::Tiff);
    assert_eq!(format_for_extension("TIFF"), FlatFormat::Tiff);
    assert_eq!(format_for_extension("webp"), FlatFormat::WebP);
    assert_eq!(format_for_extension("exr"), FlatFormat::Exr);
    assert_eq!(format_for_extension("txt"), FlatFormat::FromPath);
    assert_eq!(format_for_extension(""), FlatFormat::FromPath);
    assert_eq!(format_for_extension("pñg"), FlatFormat::FromPath);
}
