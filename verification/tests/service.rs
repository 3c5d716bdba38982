use std::path::PathBuf;

use webapps_manager::appfile::{app_file_candidate_name, app_file_name, first_free_candidate, generate_app_file};
use webapps_manager::archive::{
    check_import_limits, dedupe_imports, icon_extraction_plan, parse_archive_listing, prepare_imported_app,
    read_archive_entry_to_string, restored_icon_path,
    ArchiveEntry, ImportError, MAX_ARCHIVE_TOTAL_BYTES, MAX_EXTRACTED_FILE_BYTES,
};
use webapps_manager::browser_url::{
    cached_resolved_url, derive_accept_language, display_url, is_redirectable_url,
    redirect_probe_headers, resolve_browser_url, resolved_url_from, store_resolved_url,
    ResolvedUrlCache,
};
use webapps_manager::browsers::{
    default_browser_desktop, detect_browsers, installed_browsers, resolve_default_id, BrowserDef,
};
use webapps_manager::download::DownloadedIcon;
use webapps_manager::html::{IconCandidate, IconSource};
use webapps_manager::http::{
    check_request_headers, finish_capped, http_get_bytes_capped, http_get_stream_with_extra_headers, request_header_pairs, ByteResponse, HttpError, RequestHeaders, StreamResponse,
};
use webapps_manager::icons::{choose_icon_path, icon_search_paths, name_fallback_chain, resolve_icon_path};
use webapps_manager::image::Dimensions;
use webapps_manager::journal::{Journal, RestoreStep};
use webapps_manager::legacy::{
    collect_legacy_webapps, is_desktop_file_name, is_legacy_big_webapps_entry, parse_exec_line,
    parse_legacy_desktop, shell_split, AppMode, WebApp,
};
use webapps_manager::shell::build_with_title;
use webapps_manager::site::{
    accept_manifest, accept_page, dedupe_by_fingerprint, derive_title, page_base_url, FetchError, fallback_title_from_host, is_generic_title,
    manifest_icon_candidate, needs_well_known_probe, normalize_http_url, retain_preferred,
    select_download_candidates, to_site_icon, well_known_icon_paths, ManifestIcon, UrlError,
};
use webapps_manager::validation::{
    detection_update, next_generation, normalize_app_url, should_auto_detect, SaveValidationError,
};

// ---------------------------------------------------------------------------
// Icons

#[test]
fn empty_input_returns_generic() {
    assert_eq!(resolve_icon_path("", "/nonexistent"), "webapp-manager-generic");
}

#[test]
fn name_fallback_chain_walks_suffixes() {
    assert_eq!(
        name_fallback_chain("google-chrome-stable"),
        vec!["google-chrome-stable", "google-chrome", "google"]
    );
    assert_eq!(name_fallback_chain("firefox"), vec!["firefox"]);
}

#[test]
fn absolute_existing_path_is_returned_verbatim() {
    let tmp = tempfile::TempDir::new().unwrap();
    let file = tempfile::Builder::new()
        .prefix("custom")
        .suffix(".png")
        .rand_bytes(0)
        .tempfile_in(tmp.path())
        .unwrap();
    let result = resolve_icon_path(file.path().to_str().unwrap(), "/nonexistent");
    assert_eq!(result, file.path().to_string_lossy());
}

#[test]
fn unresolved_name_falls_through_unchanged() {
    let tmp = tempfile::TempDir::new().unwrap();
    let result = resolve_icon_path("zzz-nonexistent-icon-xyz", tmp.path().to_str().unwrap());
    assert_eq!(result, "zzz-nonexistent-icon-xyz");
}

#[test]
fn progressively_strips_suffix_until_match() {
    let tmp = tempfile::TempDir::new().unwrap();
    let icon = tempfile::Builder::new()
        .prefix("zzz-nonexistent-chrome")
        .suffix(".svg")
        .rand_bytes(0)
        .tempfile_in(tmp.path())
        .unwrap();
    let result = resolve_icon_path("zzz-nonexistent-chrome-stable", tmp.path().to_str().unwrap());
    assert_eq!(result, icon.path().to_string_lossy());
}

#[test]
fn search_paths_follow_the_documented_order() {
    let paths = icon_search_paths("a-b", Some("/home/u/.local/share"), "/pkg");
    assert_eq!(paths.len(), 2 * 45);
    assert_eq!(paths[0], "/home/u/.local/share/icons/a-b.svg");
    assert_eq!(paths[1], "/home/u/.local/share/icons/a-b.png");
    assert_eq!(paths[2], "/home/u/.local/share/icons/a-b.xpm");
    assert_eq!(paths[3], "/home/u/.local/share/icons/hicolor/scalable/apps/a-b.svg");
    assert_eq!(paths[5], "/usr/share/icons/hicolor/scalable/apps/a-b.svg");
    assert_eq!(paths[7], "/home/u/.local/share/icons/hicolor/64x64/apps/a-b.png");
    assert_eq!(paths[8], "/home/u/.local/share/icons/hicolor/64x64/apps/a-b.svg");
    assert_eq!(paths[9], "/usr/share/icons/hicolor/64x64/apps/a-b.png");
    assert_eq!(paths[43], "/pkg/a-b.svg");
    assert_eq!(paths[44], "/pkg/a-b.png");
    assert_eq!(paths[45], "/home/u/.local/share/icons/a.svg");
    let fallback = icon_search_paths("x", None, "/pkg/");
    assert_eq!(fallback[0], "/tmp/icons/x.svg");
    assert_eq!(fallback[44], "/pkg/x.png");
}

#[test]
fn choosing_takes_absolute_file_then_first_existing_path() {
    let paths = vec!["/a/x.svg".to_string(), "/b/x.png".to_string(), "/c/x.png".to_string()];
    assert_eq!(choose_icon_path("", true, &paths, &[true, true, true]), "webapp-manager-generic");
    assert_eq!(choose_icon_path("/tmp/x.png", true, &paths, &[false, true, true]), "/tmp/x.png");
    assert_eq!(choose_icon_path("/tmp/x.png", false, &paths, &[false, true, true]), "/b/x.png");
    assert_eq!(choose_icon_path("x", true, &paths, &[false, false, true]), "/c/x.png");
    assert_eq!(choose_icon_path("x", false, &paths, &[false, false, false]), "x");
    assert_eq!(choose_icon_path("x", false, &[], &[]), "x");
}

#[test]
fn fallback_chain_keeps_empty_parts() {
    assert_eq!(name_fallback_chain("a--b"), vec!["a--b", "a-", "a"]);
    assert_eq!(name_fallback_chain(""), vec![""]);
}

// ---------------------------------------------------------------------------
// Browser URL

#[test]
fn display_url_drops_oauth_query_and_scheme() {
    assert_eq!(
        display_url(
            "https://accounts.google.com/v3/signin/identifier?continue=https://calendar.google.com/calendar&service=cl&flowName=GlifWebSignIn"
        ),
        "accounts.google.com/v3/signin/identifier"
    );
}

#[test]
fn display_url_shows_bare_host_for_root() {
    assert_eq!(display_url("https://calendar.google.com/"), "calendar.google.com");
    assert_eq!(display_url("https://www.notion.so/"), "notion.so");
}

#[test]
fn display_url_keeps_meaningful_path() {
    assert_eq!(display_url("https://notion.so/myworkspace"), "notion.so/myworkspace");
}

#[test]
fn display_url_falls_back_on_unparseable() {
    assert_eq!(display_url("not-a-url"), "not-a-url");
}

#[test]
fn accept_language_handles_pt_br() {
    assert_eq!(derive_accept_language("pt_BR.UTF-8"), "pt-BR,pt;q=0.9,en;q=0.8");
}

#[test]
fn accept_language_handles_primary_only() {
    assert_eq!(derive_accept_language("en.UTF-8"), "en,en;q=0.8");
}

#[test]
fn accept_language_skips_c_locale() {
    assert!(derive_accept_language("C").is_empty());
    assert!(derive_accept_language("POSIX").is_empty());
    assert!(derive_accept_language("").is_empty());
}

#[test]
fn redirectable_url_accepts_http_and_https_only() {
    assert!(is_redirectable_url("https://open.spotify.com/"));
    assert!(is_redirectable_url("http://127.0.0.1:8080/app"));
    assert!(!is_redirectable_url("file:///tmp/index.html"));
    assert!(!is_redirectable_url("spotify:track:1"));
    assert!(!is_redirectable_url("not-a-url"));
}

#[test]
fn accept_language_is_case_blind_for_posix_names() {
    assert!(derive_accept_language("c.UTF-8").is_empty());
    assert!(derive_accept_language("posix").is_empty());
    assert_eq!(derive_accept_language("de_DE@euro"), "de-DE@euro,de;q=0.9,en;q=0.8");
}

#[test]
fn display_url_strips_every_trailing_slash_and_keeps_port_free_host() {
    assert_eq!(display_url("https://example.com/a/b///"), "example.com/a/b");
    assert_eq!(display_url("mailto:someone@example.com"), "mailto:someone@example.com");
}

#[test]
fn cache_gives_back_what_was_stored() {
    let mut cache = ResolvedUrlCache::new();
    assert_eq!(cached_resolved_url(&cache, "k"), None);
    store_resolved_url(&mut cache, "k".to_string(), "https://a/".to_string());
    store_resolved_url(&mut cache, "j".to_string(), "https://b/".to_string());
    assert_eq!(cached_resolved_url(&cache, "k").as_deref(), Some("https://a/"));
    store_resolved_url(&mut cache, "k".to_string(), "https://c/".to_string());
    assert_eq!(cached_resolved_url(&cache, "k").as_deref(), Some("https://c/"));
    assert_eq!(cached_resolved_url(&cache, "j").as_deref(), Some("https://b/"));
}

#[test]
fn non_http_urls_are_not_resolved_or_cached() {
    let mut cache = ResolvedUrlCache::new();
    assert_eq!(resolve_browser_url("file:///srv/app.html", "pt_BR.UTF-8", &mut cache), "file:///srv/app.html");
    assert_eq!(cached_resolved_url(&cache, "pt-BR,pt;q=0.9,en;q=0.8\0file:///srv/app.html"), None);
}

#[test]
fn cached_resolution_is_used_without_a_request() {
    let mut cache = ResolvedUrlCache::new();
    let url = "https://open.spotify.com/";
    store_resolved_url(&mut cache, format!("en,en;q=0.8\0{url}"), "https://open.spotify.com/intl-en/".into());
    assert_eq!(resolve_browser_url(url, "en.UTF-8", &mut cache), "https://open.spotify.com/intl-en/");
}

#[test]
fn probe_sends_language_only_when_there_is_one() {
    assert!(redirect_probe_headers("").is_empty());
    assert_eq!(redirect_probe_headers("pt-BR,pt;q=0.9"), vec![("Accept-Language", "pt-BR,pt;q=0.9")]);
}

#[test]
fn probe_outcome_gives_final_url_or_original() {
    let ok = Ok(StreamResponse { status: 200, final_url: "https://b/".into() });
    assert_eq!(resolved_url_from("https://a/", ok), "https://b/");
    let err = Err(HttpError::Client("no tls".into()));
    assert_eq!(resolved_url_from("https://a/", err), "https://a/");
}

// ---------------------------------------------------------------------------
// Legacy desktop entries

#[test]
fn shell_split_simple_tokens() {
    assert_eq!(shell_split("a b c"), vec!["a", "b", "c"]);
}

#[test]
fn shell_split_quoted_strings() {
    assert_eq!(
        shell_split(r#"cmd --opt="hello world" arg"#),
        vec!["cmd", "--opt=hello world", "arg"]
    );
}

#[test]
fn shell_split_single_quotes() {
    assert_eq!(shell_split("cmd 'one two' three"), vec!["cmd", "one two", "three"]);
}

#[test]
fn shell_split_empty_input() {
    assert!(shell_split("").is_empty());
}

#[test]
fn shell_split_extra_spaces() {
    assert_eq!(shell_split("  a   b  "), vec!["a", "b"]);
}

#[test]
fn shell_split_keeps_other_quote_inside_quotes() {
    assert_eq!(shell_split(r#"a "it's" 'say "hi"'"#), vec!["a", "it's", r#"say "hi""#]);
    assert_eq!(shell_split(r#""""#), Vec::<String>::new());
}

#[test]
fn parse_exec_viewer_mode() {
    let exec = r#"big-webapps-viewer --url="https://youtube.com" --name="YouTube" --icon="/path/icon.png" --app-id="yt""#;
    let mut app = WebApp::default();
    parse_exec_line(exec, &mut app);
    assert_eq!(app.app_mode, AppMode::App);
    assert_eq!(app.browser, "__viewer__");
    assert_eq!(app.app_url, "https://youtube.com");
    assert_eq!(app.app_icon, "/path/icon.png");
}

#[test]
fn parse_exec_browser_mode() {
    let exec = r#"big-webapps-exec filename="test.desktop" google-chrome --class="WebApp" --profile-directory=Profile1 --app="https://gmail.com""#;
    let mut app = WebApp::default();
    parse_exec_line(exec, &mut app);
    assert_eq!(app.app_mode, AppMode::Browser);
    assert_eq!(app.browser, "google-chrome");
    assert_eq!(app.app_url, "https://gmail.com");
    assert_eq!(app.app_profile, "Profile1");
    assert_eq!(app.app_file, "test.desktop");
}

#[test]
fn parse_exec_unknown_prefix() {
    let exec = "some-other-command --url=test";
    let mut app = WebApp::default();
    parse_exec_line(exec, &mut app);
    assert_eq!(app.app_url, "");
    assert_eq!(app.browser, "");
}

#[test]
fn parse_legacy_desktop_basic() {
    let content = "[Desktop Entry]\nName=Test App\nIcon=test-icon\nCategories=Network;\nExec=big-webapps-viewer --url=\"https://example.com\"\n";
    let app = parse_legacy_desktop("test.desktop", content).unwrap();
    assert_eq!(app.app_name, "Test App");
    assert_eq!(app.app_icon, "test-icon");
    assert_eq!(app.app_categories, "Network;");
    assert_eq!(app.app_url, "https://example.com");
    assert_eq!(app.app_file, "test.desktop");
}

#[test]
fn parse_legacy_desktop_missing_name() {
    let content = "[Desktop Entry]\nIcon=test-icon\nExec=big-webapps-viewer --url=\"https://example.com\"\n";
    let result = parse_legacy_desktop("test.desktop", content);
    assert!(result.is_none() || result.unwrap().app_name.is_empty());
}

#[test]
fn parse_legacy_desktop_stops_at_actions_once_named() {
    let content = "# comment\r\n[Desktop Entry]\r\n  Name=Mail  \r\nComment=Read mail\r\nExec=big-webapps-exec filename=\"m.desktop\" brave --app=\"https://mail.example\"\r\n[Desktop Action new]\r\nName=New message\r\nExec=big-webapps-exec --app=\"https://other\"\r\n";
    let app = parse_legacy_desktop("x.desktop", content).unwrap();
    assert_eq!(app.app_name, "Mail");
    assert_eq!(app.comment, "Read mail");
    assert_eq!(app.app_url, "https://mail.example");
    assert_eq!(app.app_file, "m.desktop");
    assert_eq!(app.browser, "brave");
    assert_eq!(app.app_mode, AppMode::Browser);
}

#[test]
fn parse_legacy_desktop_without_url_is_none() {
    assert!(parse_legacy_desktop("a.desktop", "[Desktop Entry]\nName=A\n").is_none());
}

#[test]
fn viewer_icon_is_kept_when_exec_icon_is_empty() {
    let mut app = WebApp::default();
    app.app_icon = "old".into();
    parse_exec_line(r#"big-webapps-viewer --icon="" --url=x"#, &mut app);
    assert_eq!(app.app_icon, "old");
    assert_eq!(app.app_url, "x");
}

#[test]
fn legacy_scan_keeps_only_parsable_launcher_entries() {
    let files = vec![
        ("a.desktop".to_string(), "[Desktop Entry]\nName=A\nExec=big-webapps-viewer --url=https://a\n".to_string()),
        ("b.txt".to_string(), "[Desktop Entry]\nName=B\nExec=big-webapps-viewer --url=https://b\n".to_string()),
        ("c.desktop".to_string(), "[Desktop Entry]\nName=C\nExec=firefox https://c\n".to_string()),
        ("d.desktop".to_string(), "[Desktop Entry]\nExec=big-webapps-viewer --url=https://d\n".to_string()),
    ];
    let apps = collect_legacy_webapps(&files);
    assert_eq!(apps.len(), 1);
    assert_eq!(apps[0].app_name, "A");
    assert_eq!(apps[0].app_file, "a.desktop");
    assert!(is_legacy_big_webapps_entry("Exec=big-webapps-exec x"));
    assert!(!is_legacy_big_webapps_entry("Exec=big-webapps x"));
    assert!(is_desktop_file_name("x.desktop"));
    assert!(!is_desktop_file_name("x.desktop~"));
}

// ---------------------------------------------------------------------------
// Dialog validation

#[test]
fn should_auto_detect_requires_hostname_like_text() {
    assert!(should_auto_detect("example.com"));
    assert!(!should_auto_detect("ab"));
    assert!(!should_auto_detect("localhost"));
}

#[test]
fn should_auto_detect_accepts_schemed_local_urls() {
    assert!(should_auto_detect("http://localhost:8080"));
    assert!(should_auto_detect("https://intranet/dash"));
    assert!(should_auto_detect("file:///srv/app"));
}

#[test]
fn should_auto_detect_ignores_leading_whitespace() {
    assert!(should_auto_detect("  example.com  "));
    assert!(!should_auto_detect("    "));
}

#[test]
fn should_auto_detect_counts_bytes_not_chars() {
    assert!(!should_auto_detect("a.b"));
    assert!(should_auto_detect("é.b"));
}

// ---------------------------------------------------------------------------
// Default browser

fn def(id: &str, pattern: &str, aliases: &[&str], flatpak: Option<(&str, &str)>) -> BrowserDef {
    BrowserDef {
        id: id.to_string(),
        native_paths: Vec::new(),
        desktop_pattern: pattern.to_string(),
        desktop_aliases: aliases.iter().map(|a| a.to_string()).collect(),
        flatpak_app_id: flatpak.map(|f| f.0.to_string()),
        flatpak_id: flatpak.map(|f| f.1.to_string()),
    }
}

fn sample_defs() -> Vec<BrowserDef> {
    vec![
        def("brave", "brave-browser", &[], Some(("com.brave.Browser", "flatpak-brave"))),
        def("brave-beta", "brave-browser-beta", &[], None),
        def("google-chrome-stable", "google-chrome-stable", &["google-chrome"], Some(("com.google.Chrome", "flatpak-chrome"))),
        def("google-chrome-beta", "google-chrome-beta", &[], None),
        def("firefox", "firefox", &[], Some(("org.mozilla.firefox", "flatpak-firefox"))),
        def("microsoft-edge-stable", "microsoft-edge-stable", &["microsoft-edge"], None),
        def("vivaldi-stable", "vivaldi-stable", &["vivaldi"], None),
    ]
}

#[test]
fn chrome_desktop_resolves_to_stable_via_alias() {
    let id = resolve_default_id(&sample_defs(), "google-chrome.desktop");
    assert_eq!(id.as_deref(), Some("google-chrome-stable"));
}

#[test]
fn edge_desktop_resolves_to_stable_via_alias() {
    let id = resolve_default_id(&sample_defs(), "microsoft-edge.desktop");
    assert_eq!(id.as_deref(), Some("microsoft-edge-stable"));
}

#[test]
fn vivaldi_desktop_resolves_to_stable_via_alias() {
    let id = resolve_default_id(&sample_defs(), "vivaldi.desktop");
    assert_eq!(id.as_deref(), Some("vivaldi-stable"));
}

#[test]
fn chrome_beta_desktop_prefers_specific_pattern() {
    let id = resolve_default_id(&sample_defs(), "google-chrome-beta.desktop");
    assert_eq!(id.as_deref(), Some("google-chrome-beta"));
}

#[test]
fn brave_beta_desktop_prefers_specific_pattern() {
    let id = resolve_default_id(&sample_defs(), "brave-browser-beta.desktop");
    assert_eq!(id.as_deref(), Some("brave-beta"));
}

#[test]
fn flatpak_firefox_desktop_returns_flatpak_id() {
    let id = resolve_default_id(&sample_defs(), "org.mozilla.firefox.desktop");
    assert_eq!(id.as_deref(), Some("flatpak-firefox"));
}

#[test]
fn unknown_desktop_returns_none() {
    let id = resolve_default_id(&sample_defs(), "some-other-browser.desktop");
    assert!(id.is_none());
}

#[test]
fn flatpak_app_id_is_matched_lowercased() {
    let id = resolve_default_id(&sample_defs(), "com.google.chrome.desktop");
    assert_eq!(id.as_deref(), Some("flatpak-chrome"));
}

#[test]
fn default_desktop_output_is_trimmed_and_lowercased() {
    assert_eq!(default_browser_desktop(" Firefox.desktop\n").as_deref(), Some("firefox.desktop"));
    assert_eq!(default_browser_desktop(" \n"), None);
}

#[test]
fn installed_browsers_are_native_then_flatpak() {
    let tmp = tempfile::TempDir::new().unwrap();
    let exe = tempfile::Builder::new().prefix("brave").rand_bytes(0).tempfile_in(tmp.path()).unwrap();
    let mut defs = sample_defs();
    defs[0].native_paths = vec!["/nonexistent/brave".to_string(), exe.path().to_string_lossy().into_owned()];
    defs[4].native_paths = vec!["/nonexistent/firefox".to_string()];
    let listing = "org.mozilla.firefox\n  com.google.Chrome  \ncom.brave.Browser.Beta\n";
    let ids = detect_browsers(&defs, Some(listing));
    assert_eq!(ids, vec!["brave", "flatpak-chrome", "flatpak-firefox"]);
    assert_eq!(detect_browsers(&defs, None), vec!["brave"]);
}

// ---------------------------------------------------------------------------
// Import archives

const LISTING: &str = "7-Zip 23.01\r\n\r\nListing archive: x.zip\r\n--\r\nPath = x.zip\r\nType = zip\r\n\r\n----------\r\nPath = webapps.json\r\nSize = 120\r\nFolder = -\r\n\r\nPath = icons/0.png\r\nSize = 4096\r\n\r\nPath = icons\r\nSize = 0\r\n";

#[test]
fn archive_listing_reads_path_and_size_of_each_entry() {
    let entries = parse_archive_listing(LISTING);
    let seen: Vec<(&str, u64)> = entries.iter().map(|e| (e.path.as_str(), e.size)).collect();
    assert_eq!(seen, vec![("webapps.json", 120), ("icons/0.png", 4096), ("icons", 0)]);
}

#[test]
fn archive_listing_takes_bad_sizes_as_zero() {
    let entries = parse_archive_listing("----------\nPath = a\nSize = lots\nPath = b\nSize = +7\n----------\n");
    let seen: Vec<(&str, u64)> = entries.iter().map(|e| (e.path.as_str(), e.size)).collect();
    assert_eq!(seen, vec![("a", 0), ("b", 7)]);
    assert!(parse_archive_listing("Path = before-section\n").is_empty());
}

fn entry(path: &str, size: u64) -> ArchiveEntry {
    ArchiveEntry { path: path.to_string(), size }
}

#[test]
fn import_limits_are_checked_in_order() {
    assert_eq!(check_import_limits(1001, &[]), Err(ImportError::TooManyApps));
    let many: Vec<ArchiveEntry> = (0..2001).map(|i| entry(&format!("f{i}"), 0)).collect();
    assert_eq!(check_import_limits(1, &many), Err(ImportError::TooManyEntries));
    assert_eq!(
        check_import_limits(1, &[entry("a", u64::MAX), entry("b", 1)]),
        Err(ImportError::SizeOverflow)
    );
    assert_eq!(
        check_import_limits(1, &[entry("a", MAX_ARCHIVE_TOTAL_BYTES), entry("b", 1)]),
        Err(ImportError::TooLarge)
    );
    assert_eq!(check_import_limits(1000, &[entry("a", MAX_ARCHIVE_TOTAL_BYTES)]), Ok(()));
}

#[test]
fn icon_plan_takes_safe_icons_only() {
    let plan = icon_extraction_plan(&[
        entry("webapps.json", 10),
        entry("icons/", 0),
        entry("icons/0.png", 10),
        entry("icons/1.svg", 10),
    ])
    .unwrap();
    assert_eq!(
        plan,
        vec![
            ("0.png".to_string(), "icons/0.png".to_string()),
            ("1.svg".to_string(), "icons/1.svg".to_string())
        ]
    );
    assert_eq!(icon_extraction_plan(&[entry("icons/../x", 1)]), Err(ImportError::UnsafeIconPath));
    assert_eq!(icon_extraction_plan(&[entry("icons/a/b", 1)]), Err(ImportError::UnsafeIconPath));
    assert_eq!(icon_extraction_plan(&[entry("icons/*.png", 1)]), Err(ImportError::UnsafeIconPath));
    assert_eq!(
        icon_extraction_plan(&[entry("icons/big.png", MAX_EXTRACTED_FILE_BYTES + 1)]),
        Err(ImportError::OversizedIcon)
    );
    assert_eq!(
        icon_extraction_plan(&[entry("icons/a.png", 1), entry("icons/a.png", 2)]),
        Err(ImportError::DuplicateIcon)
    );
}

#[test]
fn archive_text_is_capped_and_utf8() {
    assert_eq!(read_archive_entry_to_string(b"[]".to_vec(), 2, 10), Ok("[]".to_string()));
    assert_eq!(read_archive_entry_to_string(b"[]".to_vec(), 11, 10), Err(ImportError::EntryTooLarge));
    assert_eq!(read_archive_entry_to_string(vec![0xff, 0xfe], 2, 10), Err(ImportError::NotText));
}

// ---------------------------------------------------------------------------
// HTTP

#[test]
fn browser_headers_look_like_chromium() {
    let headers = RequestHeaders::browser();
    assert_eq!(
        headers.user_agent(),
        "Mozilla/5.0 (X11; Linux x86_64) AppleWebKit/537.36 Chrome/120 Safari/537.36"
    );
    assert!(headers.accept().starts_with("text/html,"));
}

#[test]
fn extra_headers_are_appended_and_replace_by_name() {
    let headers = RequestHeaders::browser();
    let pairs = request_header_pairs(&headers, &[("Accept-Language", "pt-BR"), ("ACCEPT", "*/*"), ("accept-language", "en")]);
    assert_eq!(pairs.len(), 3);
    assert_eq!(pairs[0].0, "user-agent");
    assert_eq!(pairs[1], ("accept".to_string(), "*/*".to_string()));
    assert_eq!(pairs[2], ("Accept-Language".to_string(), "en".to_string()));
}

#[test]
fn capped_read_refuses_longer_bodies() {
    let ok = finish_capped(200, "https://a/".into(), Some("text/html".into()), vec![1, 2, 3], 3).unwrap();
    assert_eq!(ok.bytes, vec![1, 2, 3]);
    assert_eq!(ok.content_type.as_deref(), Some("text/html"));
    assert!(matches!(finish_capped(200, "https://a/".into(), None, vec![1, 2, 3, 4], 3), Err(HttpError::TooLarge(3))));
}

// ---------------------------------------------------------------------------
// Window shell

#[test]
fn shell_has_default_size() {
    let spec = build_with_title("Gerenciador de WebApps".to_string());
    assert_eq!((spec.default_width, spec.default_height), (820, 680));
    assert_eq!(spec.title, "Gerenciador de WebApps");
}

// ---------------------------------------------------------------------------
// Site detection

#[test]
fn generic_titles_fall_back_to_host() {
    assert!(is_generic_title("  Loading "));
    assert!(is_generic_title("ab"));
    assert!(!is_generic_title("Slack"));
    assert_eq!(fallback_title_from_host("https://www.slack.com/x"), "Slack.com");
    assert_eq!(derive_title("<title>Redirect</title>", "https://example.org/"), "Example.org");
    assert_eq!(derive_title("<title>My Mail</title>", "https://example.org/"), "My Mail");
}

#[test]
fn urls_default_to_https_and_must_be_http() {
    assert_eq!(normalize_http_url("example.com").unwrap(), "https://example.com");
    assert!(matches!(normalize_http_url("ftp://example.com"), Err(UrlError::BlockedScheme(s)) if s == "ftp"));
    assert!(matches!(normalize_http_url("http://[::1"), Err(UrlError::Invalid)));
}

#[test]
fn downloads_take_real_icons_only_and_at_most_ten() {
    let mut candidates = vec![IconCandidate::new("og".into(), None, IconSource::OgImage, false)];
    for i in 0..12 {
        candidates.push(IconCandidate::new(format!("i{i}"), None, IconSource::Icon, false));
    }
    let chosen = select_download_candidates(&candidates);
    assert_eq!(chosen.len(), 10);
    assert_eq!(chosen[0].url, "i0");
    assert_eq!(well_known_icon_paths().last(), Some(&"/favicon.ico"));
}

fn downloaded(side: Option<u32>) -> DownloadedIcon {
    DownloadedIcon {
        path: PathBuf::from("p"),
        url: "u".into(),
        dimensions: side.map(|s| Dimensions { width: s, height: s }),
        is_vector: false,
        source: IconSource::Icon,
    }
}

#[test]
fn small_icons_are_dropped_once_a_good_one_exists() {
    assert!(needs_well_known_probe(&[downloaded(Some(128))]));
    assert!(!needs_well_known_probe(&[downloaded(Some(256))]));
    let kept = retain_preferred(vec![downloaded(Some(32)), downloaded(Some(512)), downloaded(None)]);
    assert_eq!(kept.len(), 1);
    let kept = retain_preferred(vec![downloaded(Some(32)), downloaded(None)]);
    assert_eq!(kept.len(), 2);
    let icon = to_site_icon(downloaded(None));
    assert_eq!((icon.width, icon.height, icon.scalable), (0, 0, false));
    assert_eq!(icon.path, PathBuf::from("p"));
    assert_eq!(icon.url, "u");
}

#[test]
fn fingerprints_drop_unreadable_and_near_duplicates() {
    let prints = vec![Some(vec![10, 10]), None, Some(vec![12, 12]), Some(vec![100, 100])];
    assert_eq!(dedupe_by_fingerprint(&prints), vec![true, false, false, true]);
}

#[test]
fn manifest_icons_resolve_against_the_manifest_url() {
    let icon = ManifestIcon { src: "img/a.svg?x".into(), sizes: Some("192x192".into()), mime_type: None };
    let c = manifest_icon_candidate(&icon, Some("https://site.org/app/site.webmanifest")).unwrap();
    assert_eq!(c.url, "https://site.org/app/img/a.svg?x");
    assert_eq!(c.declared_size, Some(192));
    assert_eq!(c.source, IconSource::Manifest);
    assert!(c.vector_hint);
    assert!(manifest_icon_candidate(&icon, None).is_none());
}

#[test]
fn pages_need_success_and_are_decoded_leniently() {
    let page = accept_page(ByteResponse {
        status: 200,
        final_url: "https://a.example/".into(),
        content_type: None,
        bytes: vec![b'h', b'i', 0xff],
    })
    .unwrap();
    assert_eq!(page.html, "hi\u{fffd}");
    assert_eq!(page.final_url, "https://a.example/");
    let refused = accept_page(ByteResponse {
        status: 503,
        final_url: String::new(),
        content_type: None,
        bytes: Vec::new(),
    });
    assert!(matches!(refused, Err(FetchError::Status(503))));
}

#[test]
fn base_href_moves_relative_references() {
    let html = r#"<html><head><base href="/static/"></head></html>"#;
    assert_eq!(page_base_url(html, "https://a.example/app/page"), "https://a.example/static/");
    assert_eq!(page_base_url("<html></html>", "https://a.example/app/page"), "https://a.example/app/page");
}

#[test]
fn saving_needs_a_name_and_a_parsable_url() {
    assert_eq!(normalize_app_url("  ", "https://example.com"), Err(SaveValidationError::EmptyName));
    assert_eq!(normalize_app_url("Example", " \t"), Err(SaveValidationError::EmptyUrl));
    assert_eq!(normalize_app_url("Example", " example.com "), Ok("https://example.com".to_string()));
    assert_eq!(normalize_app_url("Example", "file:///srv/app"), Ok("file:///srv/app".to_string()));
    assert_eq!(normalize_app_url("Example", "http://[::1"), Err(SaveValidationError::InvalidUrl));
}

fn pair(name: &str, url: &str) -> (String, String) {
    (name.to_string(), url.to_string())
}

#[test]
fn imports_skip_registered_and_repeated_apps() {
    let existing = vec![pair("Mail", "https://mail.example")];
    let imported = vec![
        pair("Mail", "https://mail.example"),
        pair("Chat", "https://chat.example"),
        pair("Chat", "https://chat.example"),
        pair("Mail", "https://other.example"),
    ];
    let (take, skipped) = dedupe_imports(&existing, &imported);
    assert_eq!(take, vec![1, 3]);
    assert_eq!(skipped, 2);
    assert_eq!(dedupe_imports(&[], &[]), (vec![], 0));
}

#[test]
fn app_file_names_follow_the_shell_tools_scheme() {
    assert_eq!(
        app_file_name("google-chrome", "https://mail.google.com/mail/u/0?tab=rm"),
        "chrome-mail.google.com__mail__u__0-Default.desktop"
    );
    assert_eq!(app_file_name("firefox", "https://example.com"), "firefox-example.com__-Default.desktop");
    assert_eq!(app_file_name("__viewer__", "http://a.example/x"), "viewer-a.example__x-Default.desktop");
    assert_eq!(app_file_name("Brave", "https://b.example/"), "brave-b.example__-Default.desktop");
    assert_eq!(app_file_name("microsoft-edge", "c.example"), "msedge-c.example__-Default.desktop");
    assert_eq!(
        app_file_candidate_name("firefox-example.com__-Default.desktop", 1),
        "firefox-example.com__-Default-BigWebApp2.desktop"
    );
    assert_eq!(app_file_candidate_name("x.desktop", 0), "x.desktop");
}

#[test]
fn app_file_skips_names_already_taken() {
    let tmp = tempfile::TempDir::new().unwrap();
    let dir = tmp.path().to_str().unwrap();
    assert_eq!(generate_app_file("firefox", "https://example.com", dir), "firefox-example.com__-Default.desktop");
    let _taken = tempfile::Builder::new()
        .prefix("firefox-example.com__-Default.desktop")
        .rand_bytes(0)
        .tempfile_in(tmp.path())
        .unwrap();
    assert_eq!(
        generate_app_file("firefox", "https://example.com", dir),
        "firefox-example.com__-Default-BigWebApp2.desktop"
    );
}

fn describe(steps: &[RestoreStep]) -> Vec<String> {
    steps
        .iter()
        .map(|s| match s {
            RestoreStep::RenameBack { from, to } => format!("rename {from} -> {to}"),
            RestoreStep::WriteBack { path, bytes } => format!("write {path} {}", String::from_utf8_lossy(bytes)),
            RestoreStep::Delete { path } => format!("delete {path}"),
        })
        .collect()
}

#[test]
fn uncommitted_journal_undoes_renames_latest_first_then_restores_first_snapshots() {
    let mut j = Journal::new();
    j.record_original("/a/webapps.json".to_string(), Some(b"old".to_vec()));
    j.record_original("/a/new.desktop".to_string(), None);
    // A second snapshot of the same file is ignored: the first one wins.
    j.record_original("/a/webapps.json".to_string(), Some(b"changed".to_vec()));
    assert!(j.is_captured("/a/webapps.json"));
    assert!(!j.is_captured("/a/other.desktop"));
    j.record_rename("/a/one".to_string(), "/b/one".to_string());
    j.record_rename("/a/two".to_string(), "/b/two".to_string());
    assert_eq!(
        describe(&j.rollback_plan()),
        vec![
            "rename /b/two -> /a/two".to_string(),
            "rename /b/one -> /a/one".to_string(),
            "write /a/webapps.json old".to_string(),
            "delete /a/new.desktop".to_string(),
        ]
    );
}

#[test]
fn committed_journal_undoes_nothing() {
    let mut j = Journal::new();
    j.record_original("/a/webapps.json".to_string(), Some(b"old".to_vec()));
    j.record_rename("/a/one".to_string(), "/b/one".to_string());
    j.commit();
    assert!(j.rollback_plan().is_empty());
}

#[test]
fn manifests_need_a_success_status_and_are_kept_as_sent() {
    let kept = accept_manifest(ByteResponse {
        status: 204,
        final_url: "https://a.example/m.json".into(),
        content_type: Some("application/json".into()),
        bytes: b"{}".to_vec(),
    })
    .unwrap();
    assert_eq!(kept.status, 204);
    assert_eq!(kept.bytes, b"{}".to_vec());
    assert_eq!(kept.final_url, "https://a.example/m.json");
    let refused = accept_manifest(ByteResponse {
        status: 404,
        final_url: String::new(),
        content_type: None,
        bytes: b"{}".to_vec(),
    });
    assert!(matches!(refused, Err(FetchError::Status(404))));
}

#[test]
fn header_names_and_values_are_checked_before_sending() {
    let headers = RequestHeaders::browser();
    assert!(check_request_headers(&headers, &[]).is_ok());
    assert!(check_request_headers(&headers, &[("Accept-Language", "pt-BR,pt;q=0.9"), ("X-Tab", "a\tb")]).is_ok());
    assert!(matches!(
        check_request_headers(&headers, &[("Accept-Language", "en"), ("Bad Name", "x")]),
        Err(HttpError::InvalidHeader(name)) if name == "Bad Name"
    ));
    assert!(matches!(
        check_request_headers(&headers, &[("X-Line", "a\nb")]),
        Err(HttpError::InvalidHeader(name)) if name == "X-Line"
    ));
    assert!(matches!(check_request_headers(&headers, &[("", "x")]), Err(HttpError::InvalidHeader(_))));
}

#[test]
fn invalid_extra_header_fails_without_a_request() {
    let headers = RequestHeaders::browser();
    let r = http_get_stream_with_extra_headers(
        "http://127.0.0.1:9/",
        &headers,
        &[("Accept\r\nLanguage", "en")],
        std::time::Duration::from_secs(1),
    );
    assert!(matches!(r, Err(HttpError::InvalidHeader(name)) if name == "Accept\r\nLanguage"));
    let r = http_get_bytes_capped("http://127.0.0.1:9/", &headers, 16, std::time::Duration::from_secs(1));
    assert!(!matches!(r, Err(HttpError::InvalidHeader(_))));
}

#[test]
fn installed_browsers_follow_the_probe_answers() {
    let defs = sample_defs();
    let mut present = vec![false; defs.len()];
    assert!(installed_browsers(&defs, &present, None).is_empty());
    present[0] = true;
    present[4] = true;
    assert_eq!(installed_browsers(&defs, &present, None), vec![defs[0].id.clone(), defs[4].id.clone()]);
    let listing = "com.google.Chrome\n";
    assert_eq!(
        installed_browsers(&defs, &present, Some(listing)),
        vec![defs[0].id.clone(), defs[4].id.clone(), "flatpak-chrome".to_string()]
    );
}

#[test]
fn first_free_candidate_takes_the_first_free_name() {
    let base = "firefox-example.com__-Default.desktop";
    assert_eq!(first_free_candidate(base, &[true]), base);
    assert_eq!(first_free_candidate(base, &[false, false, true]), "firefox-example.com__-Default-BigWebApp3.desktop");
    assert_eq!(first_free_candidate(base, &[false, true, true]), "firefox-example.com__-Default-BigWebApp2.desktop");
    assert_eq!(first_free_candidate(base, &[false]), "firefox-example.com__-Default-BigWebApp2.desktop");
    assert_eq!(first_free_candidate(base, &[]), base);
}

fn imported_app(icon: &str) -> WebApp {
    WebApp {
        app_file: "firefox-a.example__-Default.desktop".into(),
        app_name: "A".into(),
        app_url: "https://a.example/".into(),
        app_icon: icon.into(),
        app_categories: "Network;".into(),
        mime_types: String::new(),
        comment: String::new(),
        browser: "firefox".into(),
        app_profile: "Default".into(),
        app_mode: AppMode::Browser,
    }
}

#[test]
fn imported_icons_are_restored_from_the_archive() {
    let extracted = vec![
        ("a.png".to_string(), "/stage/a.png".to_string()),
        ("b.svg".to_string(), "/stage/b.svg".to_string()),
    ];
    assert_eq!(restored_icon_path("/home/u/icons/b.svg", &extracted).unwrap().as_deref(), Some("/stage/b.svg"));
    assert_eq!(restored_icon_path("icons/a.png", &extracted).unwrap().as_deref(), Some("/stage/a.png"));
    assert_eq!(restored_icon_path("firefox", &extracted).unwrap(), None);
    assert_eq!(restored_icon_path("/x/missing.png", &extracted).unwrap_err().name, "missing.png");
    let app = prepare_imported_app(imported_app("icons/a.png"), &extracted).unwrap();
    assert_eq!(app.app_file, "");
    assert_eq!(app.app_icon, "/stage/a.png");
    assert_eq!(app.app_name, "A");
    assert_eq!(app.app_profile, "Default");
    let kept = prepare_imported_app(imported_app("web-browser"), &extracted).unwrap();
    assert_eq!(kept.app_icon, "web-browser");
    assert_eq!(kept.app_file, "");
    assert!(prepare_imported_app(imported_app("/old/gone.png"), &extracted).is_err());
}

#[test]
fn detection_results_apply_only_while_current() {
    assert_eq!(next_generation(4), 5);
    assert_eq!(next_generation(u64::MAX), 0);
    let stale = detection_update(6, 5, "", "", "Title", 2, "", "");
    assert!(stale.stale && stale.name.is_none() && !stale.take_first_icon);
    let fresh = detection_update(5, 5, "", "", "Title", 2, "old", "old");
    assert!(!fresh.stale);
    assert_eq!(fresh.name.as_deref(), Some("Title"));
    assert!(fresh.take_first_icon);
    let typed = detection_update(5, 5, "", "Mine", "Title", 0, "old", "chosen");
    assert!(typed.name.is_none());
    assert!(!typed.take_first_icon);
    let named = detection_update(5, 5, "Old", "", "Title", 1, "old", "old");
    assert!(named.name.is_none());
    assert!(named.take_first_icon);
}

#[test]
fn pages_whose_final_url_does_not_parse_are_refused() {
    let r = accept_page(ByteResponse {
        status: 200,
        final_url: "not a url".into(),
        content_type: None,
        bytes: b"hi".to_vec(),
    });
    assert!(matches!(r, Err(FetchError::FinalUrl(u)) if u == "not a url"));
}
