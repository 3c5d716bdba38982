use std::path::PathBuf;

use webapps_manager::download::{
    assess_decoded_image, best_side, check_icon_response, decimal_chars, guess_extension, plan_ico_store,
    stored_icon, stored_icon_file_name,
    rank_by_measured_resolution, reject_non_image, similar_pixels, DownloadError, DownloadedIcon,
    IcoError, IcoPlan, ImageRejection, MIN_ACCEPTABLE_SIDE,
};
use webapps_manager::html::IconSource;
use webapps_manager::image::{Dimensions, ImageFormat, VECTOR_SIDE};

fn icon(path: &str, side: Option<u32>, is_vector: bool) -> DownloadedIcon {
    sourced_icon(path, side, side, is_vector, IconSource::Icon)
}

fn sourced_icon(
    path: &str,
    width: Option<u32>,
    height: Option<u32>,
    is_vector: bool,
    source: IconSource,
) -> DownloadedIcon {
    DownloadedIcon {
        path: PathBuf::from(path),
        url: String::new(),
        dimensions: width
            .zip(height)
            .map(|(width, height)| Dimensions { width, height }),
        is_vector,
        source,
    }
}

fn png_header(width: u32, height: u32) -> Vec<u8> {
    let mut png = b"\x89PNG\r\n\x1a\n".to_vec();
    png.extend_from_slice(&13u32.to_be_bytes());
    png.extend_from_slice(b"IHDR");
    png.extend_from_slice(&width.to_be_bytes());
    png.extend_from_slice(&height.to_be_bytes());
    png.extend_from_slice(&[8, 6, 0, 0, 0]);
    png
}

#[test]
fn content_type_allowlist() {
    assert!(reject_non_image("image/png").is_ok());
    assert!(reject_non_image("IMAGE/SVG+XML").is_ok());
    assert!(reject_non_image("application/octet-stream").is_ok());
    assert!(reject_non_image("application/octet-stream; charset=binary").is_ok());
    assert!(reject_non_image("application/vnd.microsoft.icon").is_ok());
    assert!(reject_non_image("text/html").is_err());
    assert!(reject_non_image("application/json").is_err());
}

#[test]
fn effective_side_ranks_unmeasured_last() {
    let measured = DownloadedIcon {
        path: PathBuf::new(),
        url: String::new(),
        dimensions: Some(Dimensions {
            width: 64,
            height: 64,
        }),
        is_vector: false,
        source: IconSource::Icon,
    };
    let unmeasured = DownloadedIcon {
        path: PathBuf::new(),
        url: String::new(),
        dimensions: None,
        is_vector: false,
        source: IconSource::Icon,
    };
    assert!(measured.effective_side() > unmeasured.effective_side());
}

#[test]
fn ranking_puts_highest_measured_resolution_first() {
    let mut icons = vec![
        icon("small.png", Some(32), false),
        icon("huge.png", Some(1024), false),
        icon("medium.png", Some(180), false),
    ];
    rank_by_measured_resolution(&mut icons);
    assert_eq!(
        icons
            .iter()
            .map(|icon| icon.path.to_string_lossy().into_owned())
            .collect::<Vec<_>>(),
        vec!["huge.png", "medium.png", "small.png"]
    );
}

#[test]
fn ranking_sinks_unmeasurable_icons_below_measured_ones() {
    let mut icons = vec![icon("mystery.png", None, false), icon("tiny.png", Some(16), false)];
    rank_by_measured_resolution(&mut icons);
    assert_eq!(icons[0].path, PathBuf::from("tiny.png"));
}

#[test]
fn ranking_prefers_vector_when_effective_sides_tie() {
    let mut icons = vec![
        icon("raster.png", Some(VECTOR_SIDE), false),
        icon("vector.svg", Some(VECTOR_SIDE), true),
    ];
    rank_by_measured_resolution(&mut icons);
    assert_eq!(icons[0].path, PathBuf::from("vector.svg"));
}

#[test]
fn ranking_rejects_og_image_banner_in_favour_of_smaller_square_icon() {
    let mut icons = vec![
        sourced_icon("banner.png", Some(1200), Some(630), false, IconSource::OgImage),
        sourced_icon("icon-512.png", Some(512), Some(512), false, IconSource::Manifest),
    ];
    rank_by_measured_resolution(&mut icons);
    assert_eq!(icons[0].path, PathBuf::from("icon-512.png"));
}

#[test]
fn ranking_rejects_square_og_image_in_favour_of_smaller_real_icon() {
    let mut icons = vec![
        sourced_icon("square-banner.png", Some(1024), Some(1024), false, IconSource::OgImage),
        sourced_icon("icon-64.png", Some(64), Some(64), false, IconSource::Icon),
    ];
    rank_by_measured_resolution(&mut icons);
    assert_eq!(icons[0].path, PathBuf::from("icon-64.png"));
}

#[test]
fn ranking_sinks_monochrome_mask_icon_svg_below_a_small_colour_icon() {
    let mut icons = vec![
        sourced_icon(
            "mask.svg",
            Some(VECTOR_SIDE),
            Some(VECTOR_SIDE),
            true,
            IconSource::MaskIcon,
        ),
        sourced_icon("icon-32.png", Some(32), Some(32), false, IconSource::Icon),
    ];
    rank_by_measured_resolution(&mut icons);
    assert_eq!(icons[0].path, PathBuf::from("icon-32.png"));
}

#[test]
fn ranking_still_accepts_a_banner_when_it_is_all_there_is() {
    let mut icons = vec![sourced_icon(
        "banner.png",
        Some(1200),
        Some(630),
        false,
        IconSource::OgImage,
    )];
    rank_by_measured_resolution(&mut icons);
    assert_eq!(icons[0].path, PathBuf::from("banner.png"));
}

#[test]
fn best_side_ignores_banners_so_probing_still_runs() {
    assert_eq!(best_side(&[]), 0);
    assert_eq!(best_side(&[icon("x.png", None, false)]), 0);
    assert!(best_side(&[icon("x.png", Some(32), false)]) < MIN_ACCEPTABLE_SIDE);
    assert!(best_side(&[icon("x.png", Some(512), false)]) >= MIN_ACCEPTABLE_SIDE);
    let banner = sourced_icon("banner.png", Some(1200), Some(630), false, IconSource::OgImage);
    assert_eq!(best_side(&[banner]), 0);
}

// Own tests.

#[test]
fn ranking_keeps_download_order_between_equal_icons() {
    let mut icons = vec![
        icon("a.png", Some(64), false),
        icon("b.png", Some(128), false),
        icon("c.png", Some(64), false),
    ];
    rank_by_measured_resolution(&mut icons);
    let order: Vec<String> = icons
        .iter()
        .map(|icon| icon.path.to_string_lossy().into_owned())
        .collect();
    assert_eq!(order, vec!["b.png", "a.png", "c.png"]);
}

#[test]
fn best_side_is_the_largest_usable_side() {
    let icons = [
        icon("a.png", Some(48), false),
        icon("b.png", Some(180), false),
        sourced_icon("m.svg", Some(VECTOR_SIDE), Some(VECTOR_SIDE), true, IconSource::MaskIcon),
        icon("c.png", Some(96), false),
    ];
    assert_eq!(best_side(&icons), VECTOR_SIDE);
    let icons = [icon("a.png", Some(48), false), icon("b.png", Some(180), false)];
    assert_eq!(best_side(&icons), 180);
}

#[test]
fn similar_pixels_threshold_is_six_per_byte() {
    assert!(similar_pixels(&[10, 10], &[16, 16]));
    assert!(similar_pixels(&[0, 0], &[12, 0]));
    assert!(!similar_pixels(&[0, 0], &[13, 0]));
    assert!(!similar_pixels(&[], &[]));
    assert!(!similar_pixels(&[1, 2], &[1]));
}

#[test]
fn icon_response_needs_success_and_image_type() {
    assert!(matches!(check_icon_response(404, Some("image/png")), Err(DownloadError::HttpStatus(404))));
    assert!(check_icon_response(200, None).is_ok());
    assert!(check_icon_response(204, Some("Image/PNG")).is_ok());
    match check_icon_response(200, Some("Text/HTML")) {
        Err(DownloadError::NotAnImage(ct)) => assert_eq!(ct, "text/html"),
        other => panic!("unexpected {other:?}"),
    }
}

#[test]
fn decoded_images_are_gated_by_shape_size_and_raster_content() {
    let png = png_header(64, 64);
    assert_eq!(assess_decoded_image(&png, ImageFormat::Png, Some((64, 64))), Ok(Dimensions { width: 64, height: 64 }));
    assert_eq!(assess_decoded_image(&png, ImageFormat::Png, Some((63, 63))), Err(ImageRejection::BelowMinimum));
    assert_eq!(assess_decoded_image(&png, ImageFormat::Png, Some((1200, 630))), Err(ImageRejection::NotIconShaped));
    assert_eq!(assess_decoded_image(&png, ImageFormat::Png, Some((5000, 5000))), Err(ImageRejection::TooLarge));
    assert_eq!(assess_decoded_image(&png, ImageFormat::Png, None), Err(ImageRejection::Invalid));
    assert_eq!(assess_decoded_image(b"x", ImageFormat::Unknown, Some((64, 64))), Err(ImageRejection::UnknownFormat));
    let svg = br#"<svg viewBox="0 0 32 32"><rect width="32" height="32"/></svg>"#;
    assert_eq!(
        assess_decoded_image(svg, ImageFormat::Svg, Some((32, 32))),
        Ok(Dimensions { width: VECTOR_SIDE, height: VECTOR_SIDE })
    );
    let raster = br#"<svg width="512" height="512"><IMAGE href="tiny.png"/></svg>"#;
    assert_eq!(assess_decoded_image(raster, ImageFormat::Svg, Some((512, 512))), Err(ImageRejection::RasterInSvg));
}

#[test]
fn store_ico_lifts_embedded_png_without_imagemagick() {
    let png = png_header(256, 256);
    let mut ico = vec![0, 0, 1, 0, 1, 0];
    ico.extend_from_slice(&[0, 0, 0, 0, 1, 0, 32, 0]);
    ico.extend_from_slice(&(png.len() as u32).to_le_bytes());
    ico.extend_from_slice(&22u32.to_le_bytes());
    ico.extend_from_slice(&png);
    match plan_ico_store(&ico).expect("plan") {
        IcoPlan::EmbeddedPng { png: lifted, dimensions } => {
            assert_eq!(lifted, png);
            assert_eq!(dimensions, Some(Dimensions { width: 256, height: 256 }));
            let name = stored_icon_file_name(3, ImageFormat::Ico);
            assert_eq!(name, "icon_3.png");
            let stored = stored_icon(PathBuf::from("/cache").join(&name), "u".into(), dimensions.unwrap(), ImageFormat::Ico, IconSource::Icon);
            assert_eq!(stored.path, PathBuf::from("/cache/icon_3.png"));
            assert_eq!(stored.effective_side(), 256);
            assert!(!stored.is_vector);
        }
        other => panic!("unexpected {other:?}"),
    }
}

#[test]
fn stored_names_carry_index_and_container() {
    assert_eq!(stored_icon_file_name(0, ImageFormat::Svg), "icon_0.svg");
    assert_eq!(stored_icon_file_name(20, ImageFormat::Jpeg), "icon_20.jpg");
    assert_eq!(stored_icon_file_name(107, ImageFormat::Unknown), "icon_107.png");
    assert_eq!(decimal_chars(9050).into_iter().collect::<String>(), "9050");
    let svg = stored_icon(PathBuf::from("a.svg"), "u".into(), Dimensions { width: 4096, height: 4096 }, ImageFormat::Svg, IconSource::Manifest);
    assert!(svg.is_vector);
}

#[test]
fn ico_plan_cuts_bmp_frame_into_single_frame_ico() {
    let mut ico = vec![0, 0, 1, 0, 2, 0];
    ico.extend_from_slice(&[16, 16, 0, 0, 1, 0, 32, 0]);
    ico.extend_from_slice(&4u32.to_le_bytes());
    ico.extend_from_slice(&38u32.to_le_bytes());
    ico.extend_from_slice(&[48, 48, 0, 0, 1, 0, 32, 0]);
    ico.extend_from_slice(&4u32.to_le_bytes());
    ico.extend_from_slice(&42u32.to_le_bytes());
    ico.extend_from_slice(&[1, 2, 3, 4, 5, 6, 7, 8]);
    match plan_ico_store(&ico).expect("plan") {
        IcoPlan::Decode { single_frame, side } => {
            assert_eq!(side, 48);
            let mut expected = vec![0, 0, 1, 0, 1, 0, 48, 48, 0, 0, 1, 0, 32, 0, 4, 0, 0, 0, 22, 0, 0, 0];
            expected.extend_from_slice(&[5, 6, 7, 8]);
            assert_eq!(single_frame, expected);
        }
        other => panic!("unexpected {other:?}"),
    }
    assert!(matches!(plan_ico_store(b"not an ico"), Err(IcoError::InvalidDirectory)));
}

#[test]
fn guessed_extension_follows_magic_then_url() {
    assert_eq!(guess_extension("https://x/a.ico", &png_header(16, 16)), "png");
    assert_eq!(guess_extension("https://x/a.SVG?x=1", b"<svg/>"), "svg");
}

#[test]
fn native_quality_boundary_and_shape_are_enforced() {
    for side in [16u32, 32, 48, 63] {
        let png = png_header(side, side);
        let s = side as i32;
        assert!(assess_decoded_image(&png, ImageFormat::Png, Some((s, s))).is_err());
    }
    for side in [64u32, 128, 180, 255, 256, 512, 1024] {
        let png = png_header(side, side);
        let s = side as i32;
        assert_eq!(
            assess_decoded_image(&png, ImageFormat::Png, Some((s, s))).unwrap().side(),
            side
        );
    }
    let banner = png_header(1200, 630);
    assert!(assess_decoded_image(&banner, ImageFormat::Png, Some((1200, 630))).is_err());
}

#[test]
fn malformed_images_and_raster_svg_are_rejected() {
    let mut bytes = png_header(512, 512);
    bytes.truncate(20);
    assert!(assess_decoded_image(&bytes, ImageFormat::Png, None).is_err());
    assert!(assess_decoded_image(b"not image", ImageFormat::Unknown, None).is_err());
    let svg = br#"<svg xmlns="http://www.w3.org/2000/svg" viewBox="0 0 32 32"><rect width="32" height="32" fill="green"/></svg>"#;
    assert!(assess_decoded_image(svg, ImageFormat::Svg, Some((32, 32))).is_ok());
    let raster = br#"<svg xmlns="http://www.w3.org/2000/svg" width="512" height="512"><image href="tiny.png" width="512" height="512"/></svg>"#;
    assert!(assess_decoded_image(raster, ImageFormat::Svg, Some((512, 512))).is_err());
}
