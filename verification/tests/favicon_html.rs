use webapps_manager::html::{
    extract_icon_candidates, extract_manifest_urls, extract_title, icon_source_from_rel,
    is_vector_hint, largest_declared_size, merge_candidates, push_best_candidate, resolve_url,
    sort_icon_candidates, IconCandidate, IconSource,
};

fn extract_icon_urls(html: &str, base_url: &str) -> Vec<String> {
    extract_icon_candidates(html, Some(base_url))
        .into_iter()
        .map(|candidate| candidate.url)
        .collect()
}

#[test]
fn extract_title_basic() {
    let html = "<html><head><title>My Site</title></head></html>";
    assert_eq!(extract_title(html), Some("My Site".into()));
}

#[test]
fn extract_title_empty() {
    let html = "<html><head><title></title></head></html>";
    assert_eq!(extract_title(html), None);
}

#[test]
fn extract_title_missing() {
    let html = "<html><head></head></html>";
    assert_eq!(extract_title(html), None);
}

#[test]
fn extract_title_whitespace() {
    let html = "<html><head><title>  Hello World  </title></head></html>";
    assert_eq!(extract_title(html), Some("Hello World".into()));
}

#[test]
fn icon_source_priority_orders_manifest_high_ogimage_zero() {
    assert!(IconSource::Manifest.priority() > IconSource::AppleTouch.priority());
    assert!(IconSource::AppleTouch.priority() > IconSource::Icon.priority());
    assert!(IconSource::Icon.priority() > IconSource::MaskIcon.priority());
    assert!(IconSource::MaskIcon.priority() > IconSource::OgImage.priority());
    assert_eq!(IconSource::OgImage.priority(), 0);
}

#[test]
fn mask_icon_svg_does_not_outrank_full_colour_png() {
    let mut candidates = vec![
        IconCandidate::new("mask.svg".into(), None, IconSource::MaskIcon, true),
        IconCandidate::new("icon-512.png".into(), Some(512), IconSource::Icon, false),
    ];
    sort_icon_candidates(&mut candidates);
    assert_eq!(candidates[0].url, "icon-512.png");
}

#[test]
fn merge_candidates_dedupes_by_url_keeping_best() {
    let mut candidates = vec![IconCandidate::new(
        "same.png".into(),
        Some(32),
        IconSource::Icon,
        false,
    )];
    merge_candidates(
        &mut candidates,
        vec![
            IconCandidate::new("same.png".into(), Some(512), IconSource::Manifest, false),
            IconCandidate::new("other.png".into(), Some(64), IconSource::Manifest, false),
        ],
    );
    assert_eq!(candidates.len(), 2);
    let same = candidates
        .iter()
        .find(|candidate| candidate.url == "same.png")
        .expect("merged entry");
    assert_eq!(same.declared_size, Some(512));
}

#[test]
fn resolve_url_absolute_and_relative() {
    let base = Some("https://example.com/page/");
    assert_eq!(
        resolve_url("http://cdn.test/i.png", base).as_deref(),
        Some("http://cdn.test/i.png")
    );
    assert_eq!(
        resolve_url("/icon.png", base).as_deref(),
        Some("https://example.com/icon.png")
    );
    assert_eq!(
        resolve_url("rel.png", base).as_deref(),
        Some("https://example.com/page/rel.png")
    );
    assert_eq!(
        resolve_url("https://abs.test/i.png", None).as_deref(),
        Some("https://abs.test/i.png")
    );
    assert_eq!(resolve_url("/rel.png", None), None);
}

#[test]
fn icon_source_from_rel_classifies_each_kind() {
    assert_eq!(icon_source_from_rel("apple-touch-icon"), Some(IconSource::AppleTouch));
    assert_eq!(
        icon_source_from_rel("apple-touch-icon-precomposed"),
        Some(IconSource::AppleTouch)
    );
    assert_eq!(icon_source_from_rel("mask-icon"), Some(IconSource::MaskIcon));
    assert_eq!(icon_source_from_rel("icon"), Some(IconSource::Icon));
    assert_eq!(icon_source_from_rel("shortcut icon"), Some(IconSource::Icon));
    assert_eq!(icon_source_from_rel("stylesheet"), None);
}

#[test]
fn is_vector_hint_detects_svg_any_and_mime() {
    assert!(is_vector_hint("/i.svg", "", ""));
    assert!(is_vector_hint("/i.svg?v=2", "", ""));
    assert!(is_vector_hint("/i.png", "any", ""));
    assert!(is_vector_hint("/i.png", "", "image/svg+xml"));
    assert!(!is_vector_hint("/i.png", "32x32", "image/png"));
}

#[test]
fn push_best_candidate_keeps_highest_quality_per_url() {
    let mut candidates = Vec::new();
    push_best_candidate(
        &mut candidates,
        IconCandidate::new("u".into(), Some(32), IconSource::Icon, false),
    );
    push_best_candidate(
        &mut candidates,
        IconCandidate::new("u".into(), Some(128), IconSource::Icon, false),
    );
    assert_eq!(candidates.len(), 1);
    assert_eq!(candidates[0].declared_size, Some(128));
    push_best_candidate(
        &mut candidates,
        IconCandidate::new("u".into(), Some(16), IconSource::Icon, false),
    );
    assert_eq!(candidates[0].declared_size, Some(128));
}

#[test]
fn extract_icon_urls_link_rel() {
    let html = r#"<html><head><link rel="icon" href="/favicon.png"></head></html>"#;
    let urls = extract_icon_urls(html, "https://example.com");
    assert_eq!(urls, vec!["https://example.com/favicon.png"]);
}

#[test]
fn extract_icon_urls_absolute() {
    let html = r#"<html><head><link rel="shortcut icon" href="https://cdn.example.com/icon.png"></head></html>"#;
    let urls = extract_icon_urls(html, "https://example.com");
    assert_eq!(urls, vec!["https://cdn.example.com/icon.png"]);
}

#[test]
fn extract_icon_urls_og_image() {
    let html = r#"<html><head><meta property="og:image" content="https://example.com/og.png"></head></html>"#;
    let urls = extract_icon_urls(html, "https://example.com");
    assert_eq!(urls, vec!["https://example.com/og.png"]);
}

#[test]
fn extract_icon_candidates_prioritizes_large_icons() {
    let html = r#"<html><head>
            <link rel="icon" sizes="16x16" href="/favicon-16.png">
            <link rel="icon" sizes="512x512" href="/icon-512.png">
            <link rel="apple-touch-icon" sizes="180x180" href="/apple.png">
        </head></html>"#;
    let urls = extract_icon_urls(html, "https://example.com");
    assert_eq!(
        urls,
        vec![
            "https://example.com/icon-512.png",
            "https://example.com/apple.png",
            "https://example.com/favicon-16.png"
        ]
    );
}

#[test]
fn extract_manifest_urls_finds_webmanifest() {
    let html = r#"<html><head><link rel="manifest" href="/site.webmanifest"></head></html>"#;
    assert_eq!(
        extract_manifest_urls(html, Some("https://example.com/app/")),
        vec!["https://example.com/site.webmanifest"]
    );
}

#[test]
fn largest_declared_size_uses_biggest_square_side() {
    assert_eq!(largest_declared_size("16x16 192x192 512x512"), Some(512));
    assert_eq!(largest_declared_size("1024x512"), Some(512));
    assert_eq!(largest_declared_size("any"), Some(1024));
}

#[test]
fn resolve_url_absolute() {
    let base = Some("https://example.com");
    assert_eq!(
        resolve_url("https://cdn.example.com/icon.png", base),
        Some("https://cdn.example.com/icon.png".into())
    );
}

#[test]
fn resolve_url_relative() {
    let base = Some("https://example.com/page/");
    assert_eq!(
        resolve_url("../favicon.ico", base),
        Some("https://example.com/favicon.ico".into())
    );
}

#[test]
fn resolve_url_no_base() {
    assert_eq!(resolve_url("/favicon.ico", None), None);
}

// Own tests.

#[test]
fn merged_candidates_hold_each_url_once() {
    let mut candidates = vec![
        IconCandidate::new("a.png".into(), Some(16), IconSource::Icon, false),
        IconCandidate::new("b.png".into(), Some(32), IconSource::Icon, false),
    ];
    merge_candidates(
        &mut candidates,
        vec![
            IconCandidate::new("b.png".into(), Some(8), IconSource::Icon, false),
            IconCandidate::new("a.png".into(), Some(64), IconSource::AppleTouch, false),
            IconCandidate::new("c.png".into(), None, IconSource::OgImage, false),
            IconCandidate::new("c.png".into(), None, IconSource::OgImage, false),
        ],
    );
    let mut urls: Vec<&str> = candidates.iter().map(|c| c.url.as_str()).collect();
    urls.sort();
    assert_eq!(urls, vec!["a.png", "b.png", "c.png"]);
    let a = candidates.iter().find(|c| c.url == "a.png").unwrap();
    assert_eq!(a.source, IconSource::AppleTouch);
    let b = candidates.iter().find(|c| c.url == "b.png").unwrap();
    assert_eq!(b.declared_size, Some(32));
}

#[test]
fn sorting_keeps_equal_candidates_in_their_order() {
    let mut candidates = vec![
        IconCandidate::new("first.png".into(), Some(32), IconSource::Icon, false),
        IconCandidate::new("big.png".into(), Some(64), IconSource::Icon, false),
        IconCandidate::new("second.png".into(), Some(32), IconSource::Icon, false),
    ];
    sort_icon_candidates(&mut candidates);
    let urls: Vec<&str> = candidates.iter().map(|c| c.url.as_str()).collect();
    assert_eq!(urls, vec!["big.png", "first.png", "second.png"]);
}

#[test]
fn quality_key_orders_vector_bonus_then_size_then_priority() {
    let manifest = IconCandidate::new("m".into(), Some(16), IconSource::Manifest, false);
    let icon = IconCandidate::new("i".into(), Some(512), IconSource::Icon, false);
    assert!(icon.quality_key() > manifest.quality_key());
    assert_eq!(manifest.quality_key(), (0, 16, 6));
    let vector = IconCandidate::new("v".into(), Some(32), IconSource::Icon, true);
    let raster = IconCandidate::new("r".into(), Some(32), IconSource::Icon, false);
    assert!(vector.quality_key() > raster.quality_key());
    let mask = IconCandidate::new("k".into(), Some(32), IconSource::MaskIcon, true);
    assert_eq!(mask.quality_key(), (0, 32, 1));
}

#[test]
fn declared_size_handles_uppercase_separator_and_garbage() {
    assert_eq!(largest_declared_size("48X64"), None);
    assert_eq!(largest_declared_size("48x64 garbage 32x+40"), Some(48));
    assert_eq!(largest_declared_size("ANY"), Some(1024));
    assert_eq!(largest_declared_size("big"), None);
    assert_eq!(largest_declared_size(""), None);
}

#[test]
fn extract_title_trims_and_joins_text() {
    assert_eq!(
        extract_title("<title>\n  Inbox (3) - Mail \n</title>"),
        Some("Inbox (3) - Mail".into())
    );
}

#[test]
fn extract_icon_candidates_follow_base_and_skip_non_icons() {
    let html = r#"<html><head>
            <link rel="stylesheet" href="/style.css">
            <link rel="icon" href="favicon.ico">
            <link rel="mask-icon" href="/mask.svg">
        </head></html>"#;
    let candidates = extract_icon_candidates(html, Some("https://example.com/app/"));
    let urls: Vec<&str> = candidates.iter().map(|c| c.url.as_str()).collect();
    assert_eq!(
        urls,
        vec!["https://example.com/app/favicon.ico", "https://example.com/mask.svg"]
    );
    assert!(candidates[1].vector_hint);
    assert_eq!(candidates[1].source, IconSource::MaskIcon);
}
