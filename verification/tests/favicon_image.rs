use webapps_manager::image::{
    detect_format, largest_ico_frame, measure, measure_side, Dimensions, ImageFormat, VECTOR_SIDE,
};

fn png_header(width: u32, height: u32) -> Vec<u8> {
    let mut bytes = b"\x89PNG\r\n\x1a\n".to_vec();
    bytes.extend_from_slice(&13u32.to_be_bytes());
    bytes.extend_from_slice(b"IHDR");
    bytes.extend_from_slice(&width.to_be_bytes());
    bytes.extend_from_slice(&height.to_be_bytes());
    bytes.extend_from_slice(&[8, 6, 0, 0, 0]);
    bytes
}

fn ico_with_sides(sides: &[u8]) -> Vec<u8> {
    let count = sides.len();
    let mut bytes = vec![0, 0, 1, 0];
    bytes.extend_from_slice(&(count as u16).to_le_bytes());
    let payload_start = 6 + count * 16;
    for (index, side) in sides.iter().enumerate() {
        bytes.extend_from_slice(&[*side, *side, 0, 0, 1, 0, 32, 0]);
        bytes.extend_from_slice(&4u32.to_le_bytes());
        bytes.extend_from_slice(&((payload_start + index * 4) as u32).to_le_bytes());
    }
    bytes.extend_from_slice(&vec![0u8; count * 4]);
    bytes
}

#[test]
fn detects_and_measures_png() {
    let bytes = png_header(512, 512);
    assert_eq!(detect_format(&bytes), ImageFormat::Png);
    assert_eq!(measure_side(&bytes, ImageFormat::Png), Some(512));
}

#[test]
fn png_side_uses_shorter_edge() {
    let bytes = png_header(1024, 512);
    assert_eq!(measure_side(&bytes, ImageFormat::Png), Some(512));
}

#[test]
fn png_with_zero_dimension_is_rejected() {
    assert_eq!(measure_side(&png_header(0, 32), ImageFormat::Png), None);
}

#[test]
fn truncated_png_header_is_none() {
    let bytes = b"\x89PNG\r\n\x1a\n\x00\x00\x00\x0dIHDR\x00\x00".to_vec();
    assert_eq!(measure_side(&bytes, ImageFormat::Png), None);
}

#[test]
fn detects_svg_behind_xml_declaration() {
    let bytes = br#"<?xml version="1.0"?><!-- c --><svg width="16"></svg>"#;
    assert_eq!(detect_format(bytes), ImageFormat::Svg);
    assert_eq!(measure_side(bytes, ImageFormat::Svg), Some(VECTOR_SIDE));
    assert!(ImageFormat::Svg.is_vector());
}

#[test]
fn square_ish_gate_separates_icons_from_share_banners() {
    let square = Dimensions::new(512, 512).unwrap();
    let wordmark = Dimensions::new(120, 100).unwrap();
    let og_banner = Dimensions::new(1200, 630).unwrap();
    let tall = Dimensions::new(400, 1200).unwrap();

    assert!(square.is_square_ish());
    assert!(wordmark.is_square_ish(), "1.2:1 logos are still icons");
    assert!(!og_banner.is_square_ish(), "1.9:1 is an og:image card");
    assert!(!tall.is_square_ish());

    assert_eq!(og_banner.side(), 630);
    assert_eq!(tall.side(), 400);
}

#[test]
fn svg_aspect_comes_from_width_height_then_viewbox() {
    let square = br#"<svg width="24" height="24" viewBox="0 0 24 24"/>"#;
    assert!(measure(square, ImageFormat::Svg).unwrap().is_square_ish());

    let square_px = br#"<svg width="48px" height="48px"/>"#;
    assert!(measure(square_px, ImageFormat::Svg).unwrap().is_square_ish());

    let wide = br#"<svg width="1200" height="630"/>"#;
    assert!(!measure(wide, ImageFormat::Svg).unwrap().is_square_ish());

    let via_view_box = br#"<svg viewBox="0 0 1200 400" fill="none"/>"#;
    assert!(!measure(via_view_box, ImageFormat::Svg).unwrap().is_square_ish());

    let bare = br#"<svg xmlns="http://www.w3.org/2000/svg"><path/></svg>"#;
    let bare = measure(bare, ImageFormat::Svg).unwrap();
    assert!(bare.is_square_ish());
    assert_eq!(bare.side(), VECTOR_SIDE);
}

#[test]
fn svg_reports_vector_resolution_even_when_declared_tiny() {
    let tiny = br#"<svg width="16" height="16" viewBox="0 0 16 16"/>"#;
    assert_eq!(measure_side(tiny, ImageFormat::Svg), Some(VECTOR_SIDE));
}

#[test]
fn xml_that_is_not_svg_is_unknown() {
    let bytes = br#"<?xml version="1.0"?><rss><channel/></rss>"#;
    assert_eq!(detect_format(bytes), ImageFormat::Unknown);
}

#[test]
fn detects_and_measures_gif() {
    let mut bytes = b"GIF89a".to_vec();
    bytes.extend_from_slice(&128u16.to_le_bytes());
    bytes.extend_from_slice(&96u16.to_le_bytes());
    assert_eq!(detect_format(&bytes), ImageFormat::Gif);
    assert_eq!(measure_side(&bytes, ImageFormat::Gif), Some(96));
}

#[test]
fn detects_and_measures_webp_vp8x() {
    let mut bytes = b"RIFF\x00\x00\x00\x00WEBPVP8X".to_vec();
    bytes.extend_from_slice(&[0; 8]);
    bytes.truncate(24);
    bytes.extend_from_slice(&[255, 0, 0]);
    bytes.extend_from_slice(&[127, 0, 0]);
    assert_eq!(detect_format(&bytes), ImageFormat::WebP);
    assert_eq!(measure_side(&bytes, ImageFormat::WebP), Some(128));
}

#[test]
fn detects_and_measures_jpeg_skipping_app_segments() {
    let mut bytes = vec![0xff, 0xd8];
    bytes.extend_from_slice(&[0xff, 0xe0, 0x00, 0x10]);
    bytes.extend_from_slice(&[0; 14]);
    bytes.extend_from_slice(&[0xff, 0xc0, 0x00, 0x11, 0x08]);
    bytes.extend_from_slice(&300u16.to_be_bytes());
    bytes.extend_from_slice(&200u16.to_be_bytes());
    assert_eq!(detect_format(&bytes), ImageFormat::Jpeg);
    assert_eq!(measure_side(&bytes, ImageFormat::Jpeg), Some(200));
}

#[test]
fn jpeg_without_sof_terminates() {
    let bytes = vec![0xff, 0xd8, 0xff, 0xe0, 0x00, 0x04, 0x00, 0x00];
    assert_eq!(measure_side(&bytes, ImageFormat::Jpeg), None);
}

#[test]
fn largest_ico_frame_picks_biggest_not_first() {
    let bytes = ico_with_sides(&[16, 48, 32]);
    assert_eq!(detect_format(&bytes), ImageFormat::Ico);
    let frame = largest_ico_frame(&bytes).expect("frame");
    assert_eq!(frame.side, 48);
    assert_eq!(frame.index, 1);
    assert_eq!(measure_side(&bytes, ImageFormat::Ico), Some(48));
}

#[test]
fn ico_zero_width_byte_means_256() {
    let bytes = ico_with_sides(&[48, 0]);
    let frame = largest_ico_frame(&bytes).expect("frame");
    assert_eq!(frame.side, 256, "a stored 0 encodes 256 px");
    assert_eq!(frame.index, 1);
}

#[test]
fn ico_embedded_png_is_exposed_and_trusted_over_directory() {
    let png = png_header(256, 256);
    let mut bytes = vec![0, 0, 1, 0, 1, 0];
    bytes.extend_from_slice(&[32, 32, 0, 0, 1, 0, 32, 0]);
    bytes.extend_from_slice(&(png.len() as u32).to_le_bytes());
    bytes.extend_from_slice(&22u32.to_le_bytes());
    bytes.extend_from_slice(&png);
    let frame = largest_ico_frame(&bytes).expect("frame");
    assert_eq!(frame.embedded_png.map(<[u8]>::len), Some(png.len()));
}

#[test]
fn ico_entry_with_out_of_range_offset_is_skipped() {
    let mut bytes = vec![0, 0, 1, 0, 1, 0];
    bytes.extend_from_slice(&[32, 32, 0, 0, 1, 0, 32, 0]);
    bytes.extend_from_slice(&9999u32.to_le_bytes());
    bytes.extend_from_slice(&22u32.to_le_bytes());
    bytes.extend_from_slice(&[0; 16]);
    let frame = largest_ico_frame(&bytes).expect("frame");
    assert!(frame.embedded_png.is_none());
}

#[test]
fn zero_count_ico_is_not_an_ico() {
    let bytes = vec![0u8; 32];
    assert_eq!(detect_format(&bytes), ImageFormat::Unknown);
    assert!(largest_ico_frame(&bytes).is_none());
}

#[test]
fn extension_matches_container() {
    assert_eq!(ImageFormat::Png.extension(), "png");
    assert_eq!(ImageFormat::Jpeg.extension(), "jpg");
    assert_eq!(ImageFormat::WebP.extension(), "webp");
    assert_eq!(ImageFormat::Gif.extension(), "gif");
    assert_eq!(ImageFormat::Svg.extension(), "svg");
    assert_eq!(ImageFormat::Ico.extension(), "ico");
    assert_eq!(ImageFormat::Unknown.extension(), "png");
}

// Own tests.

#[test]
fn dimensions_need_both_edges() {
    assert!(Dimensions::new(0, 10).is_none());
    assert!(Dimensions::new(10, 0).is_none());
    let d = Dimensions::new(10, 12).unwrap();
    assert_eq!((d.width, d.height), (10, 12));
    assert_eq!(d.side(), 10);
}

#[test]
fn square_ish_boundary_is_five_to_four() {
    assert!(Dimensions::new(125, 100).unwrap().is_square_ish());
    assert!(!Dimensions::new(126, 100).unwrap().is_square_ish());
    assert!(Dimensions::new(100, 125).unwrap().is_square_ish());
}

#[test]
fn largest_ico_frame_keeps_the_last_of_equal_sides() {
    let bytes = ico_with_sides(&[32, 32, 16]);
    let frame = largest_ico_frame(&bytes).expect("frame");
    assert_eq!(frame.side, 32);
    assert_eq!(frame.index, 1);
}

#[test]
fn svg_with_wide_viewbox_measures_wide_extent() {
    let wide = br#"<svg viewBox="0 0 200 100"/>"#;
    let d = measure(wide, ImageFormat::Svg).unwrap();
    assert_eq!(d.width, 2 * VECTOR_SIDE);
    assert_eq!(d.height, VECTOR_SIDE);
    assert_eq!(d.side(), VECTOR_SIDE);
    let tall = br#"<svg width="10" height="40"/>"#;
    let d = measure(tall, ImageFormat::Svg).unwrap();
    assert_eq!(d.width, VECTOR_SIDE);
    assert_eq!(d.height, 4 * VECTOR_SIDE);
}

#[test]
fn short_or_unknown_bytes_are_unknown() {
    assert_eq!(detect_format(b""), ImageFormat::Unknown);
    assert_eq!(detect_format(b"GIF8"), ImageFormat::Unknown);
    assert_eq!(measure(b"hello", ImageFormat::Unknown), None);
}

#[test]
fn embedded_png_header_outranks_its_directory_entry() {
    // Frame 0: a 48 px BMP frame. Frame 1: the directory claims 256 px (a
    // stored 0), but the embedded PNG's own header says 16 px.
    let png = png_header(16, 16);
    let mut bytes = vec![0, 0, 1, 0, 2, 0];
    bytes.extend_from_slice(&[48, 48, 0, 0, 1, 0, 32, 0]);
    bytes.extend_from_slice(&4u32.to_le_bytes());
    bytes.extend_from_slice(&38u32.to_le_bytes());
    bytes.extend_from_slice(&[0, 0, 0, 0, 1, 0, 32, 0]);
    bytes.extend_from_slice(&(png.len() as u32).to_le_bytes());
    bytes.extend_from_slice(&42u32.to_le_bytes());
    bytes.extend_from_slice(&[0, 0, 0, 0]);
    bytes.extend_from_slice(&png);
    let frame = largest_ico_frame(&bytes).expect("frame");
    assert_eq!(frame.index, 0);
    assert_eq!(frame.side, 48);
    assert!(frame.embedded_png.is_none());
}
