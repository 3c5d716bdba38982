//! Site-level decisions of the icon search: URL normalisation, the page
//! title, which candidates to fetch, manifest icons, when to probe
//! well-known paths, and which downloaded icons to keep.

use vstd::prelude::*;
use vstd::utf8::encode_utf8;
use crate::download::{
    best_side, best_side_spec, effective_side_of, similar_pixels, similar_pixels_spec,
    DownloadedIcon,
};
use crate::html::{
    candidate_views, declared_size_spec, extract_title, is_vector_hint, largest_declared_size,
    opt_str_view, resolve_url, resolve_url_spec, tier_of, title_spec, vector_hint_spec,
    CandidateView, IconCandidate, IconSource,
};
use crate::text::{
    char_to_uppercase, chars_of, contains, contains_chars, has_prefix, starts_with,
    string_from, to_lowercase, trim, trimmed, unicode_lowercase, unicode_uppercase, chars_equal,
};
use crate::weburl::{join_url, opt_view, parse_url, url_host, url_join_result, url_parse_ok, url_scheme};
use crate::htmldoc::{base_href, html_base_href};
use crate::http::{http_get_bytes_capped, ByteResponse, HttpError, RequestHeaders};
use crate::text::{decode_utf8_lossy, utf8_lossy};
use std::time::Duration;

verus! {

/// An icon offered to the user.
#[derive(Debug)]
pub struct SiteIcon {
    pub path: std::path::PathBuf,
    pub url: String,
    pub width: u32,
    pub height: u32,
    pub scalable: bool,
}

/// Ceiling on how many declared candidates are fetched.
pub const MAX_CANDIDATE_DOWNLOADS: usize = 10;

/// Side that counts as a good icon; below it well-known paths are probed.
pub const PREFERRED_SIDE: u32 = 256;

// ---------------------------------------------------------------------------
// URL normalisation

#[derive(Debug)]
pub enum UrlError {
    /// `url::Url::parse` rejected the address.
    Invalid,
    /// The scheme is neither `http` nor `https`; carries it.
    BlockedScheme(String),
}

/// A scheme-less address is taken as `https://`.
pub open spec fn with_default_scheme(raw: Seq<char>) -> Seq<char> {
    if contains(raw, "://"@) {
        raw
    } else {
        "https://"@ + raw
    }
}

pub open spec fn is_http_scheme(s: Seq<char>) -> bool {
    s == "http"@ || s == "https"@
}

pub fn normalize_http_url(raw_url: &str) -> (r: Result<String, UrlError>)
    ensures
        ({
            let n = with_default_scheme(raw_url@);
            &&& r is Ok <==> url_parse_ok(n) && is_http_scheme(url_scheme(n))
            &&& r matches Ok(s) ==> s@ == n
            &&& (r matches Err(UrlError::Invalid)) <==> !url_parse_ok(n)
            &&& r matches Err(UrlError::BlockedScheme(s)) ==> s@ == url_scheme(n)
        }),
{
    let raw = chars_of(raw_url);
    let normalized = if !contains_chars(&raw, &chars_of("://")) {
        let mut text = chars_of("https://");
        let mut i: usize = 0;
        let ghost prefix = text@;
        while i < raw.len()
            invariant
                i <= raw@.len(),
                text@ == prefix + raw@.take(i as int),
            decreases raw.len() - i,
        {
            text.push(raw[i]);
            assert(raw@.take(i + 1) =~= raw@.take(i as int).push(raw@[i as int]));
            assert(prefix + raw@.take(i + 1) =~= (prefix + raw@.take(i as int)).push(raw@[i as int]));
            i = i + 1;
        }
        assert(raw@.take(raw@.len() as int) =~= raw@);
        string_from(&text)
    } else {
        raw_url.to_owned()
    };
    match parse_url(normalized.as_str()) {
        None => Err(UrlError::Invalid),
        Some(parts) => {
            let scheme = chars_of(parts.scheme.as_str());
            if chars_equal(&scheme, &chars_of("http")) || chars_equal(&scheme, &chars_of("https")) {
                Ok(normalized)
            } else {
                Err(UrlError::BlockedScheme(parts.scheme))
            }
        },
    }
}

// ---------------------------------------------------------------------------
// Titles

pub open spec fn generic_titles() -> Seq<Seq<char>> {
    seq!["ok"@, "loading"@, "redirect"@, "please wait"@, ""@]
}

/// Placeholder titles served while a page redirects or loads (compared after
/// trimming and lowercasing), and titles shorter than 3 bytes.
pub open spec fn is_generic_title_spec(title: Seq<char>) -> bool {
    generic_titles().contains(unicode_lowercase(trim(title))) || encode_utf8(title).len() < 3
}

pub fn is_generic_title(title: &str) -> (r: bool)
    ensures
        r == is_generic_title_spec(title@),
{
    let lowered = to_lowercase(&trimmed(&chars_of(title)));
    let generic = chars_equal(&lowered, &chars_of("ok")) || chars_equal(&lowered, &chars_of("loading"))
        || chars_equal(&lowered, &chars_of("redirect")) || chars_equal(
        &lowered,
        &chars_of("please wait"),
    ) || chars_equal(&lowered, &chars_of(""));
    proof {
        let g = generic_titles();
        assert(g[0] == "ok"@ && g[1] == "loading"@ && g[2] == "redirect"@ && g[3] == "please wait"@
            && g[4] == ""@);
        if generic {
            if lowered@ == "ok"@ {
                assert(g[0] == lowered@);
            } else if lowered@ == "loading"@ {
                assert(g[1] == lowered@);
            } else if lowered@ == "redirect"@ {
                assert(g[2] == lowered@);
            } else if lowered@ == "please wait"@ {
                assert(g[3] == lowered@);
            } else {
                assert(g[4] == lowered@);
            }
        } else {
            assert forall|k: int| 0 <= k < g.len() implies g[k] != lowered@ by {}
        }
    }
    if generic {
        return true;
    }
    title.as_bytes().len() < 3
}

/// A title is a placeholder exactly when, trimmed and lowercased, it reads
/// `ok`, `loading`, `redirect`, `please wait` or nothing at all, or when it
/// is shorter than 3 bytes.
pub proof fn lemma_placeholder_titles(title: Seq<char>)
    ensures
        is_generic_title_spec(title) <==> ({
            let l = unicode_lowercase(trim(title));
            ||| l == "ok"@
            ||| l == "loading"@
            ||| l == "redirect"@
            ||| l == "please wait"@
            ||| l == ""@
            ||| encode_utf8(title).len() < 3
        }),
{
    let g = generic_titles();
    let l = unicode_lowercase(trim(title));
    assert(g[0] == "ok"@ && g[1] == "loading"@ && g[2] == "redirect"@ && g[3] == "please wait"@ && g[4] == ""@);
    if g.contains(l) {
        let k = choose|k: int| 0 <= k < g.len() && g[k] == l;
        assert(k == 0 || k == 1 || k == 2 || k == 3 || k == 4);
    }
    if l == "ok"@ {
        assert(g[0] == l);
    } else if l == "loading"@ {
        assert(g[1] == l);
    } else if l == "redirect"@ {
        assert(g[2] == l);
    } else if l == "please wait"@ {
        assert(g[3] == l);
    } else if l == ""@ {
        assert(g[4] == l);
    }
}

/// `host` without a leading `www.`, its first character uppercased.
pub open spec fn capitalized_host(host: Seq<char>) -> Seq<char> {
    let clean = if starts_with(host, "www."@) {
        host.skip(4)
    } else {
        host
    };
    if clean.len() == 0 {
        clean
    } else {
        unicode_uppercase(clean[0]) + clean.skip(1)
    }
}

/// A title made from the URL's host, or empty when it has none.
pub open spec fn fallback_title_spec(url: Seq<char>) -> Seq<char> {
    if url_parse_ok(url) {
        match url_host(url) {
            Some(h) => capitalized_host(h),
            None => Seq::empty(),
        }
    } else {
        Seq::empty()
    }
}

pub fn fallback_title_from_host(url: &str) -> (r: String)
    ensures
        r@ == fallback_title_spec(url@),
{
    let host = match parse_url(url) {
        Some(parts) => match parts.host {
            Some(h) => chars_of(h.as_str()),
            None => return String::new(),
        },
        None => return String::new(),
    };
    let start: usize = if has_prefix(&host, &chars_of("www.")) {
        4
    } else {
        0
    };
    proof {
        reveal_strlit("www.");
    }
    if start >= host.len() {
        assert(host@.skip(start as int) =~= Seq::<char>::empty());
        return String::new();
    }
    let mut out = char_to_uppercase(host[start]);
    let ghost head = out@;
    let mut i = start + 1;
    while i < host.len()
        invariant
            start + 1 <= i <= host@.len(),
            out@ == head + host@.subrange(start + 1, i as int),
        decreases host.len() - i,
    {
        out.push(host[i]);
        assert(host@.subrange(start + 1, i + 1) =~= host@.subrange(start + 1, i as int).push(
            host@[i as int],
        ));
        assert(head + host@.subrange(start + 1, i + 1) =~= (head + host@.subrange(
            start + 1,
            i as int,
        )).push(host@[i as int]));
        i = i + 1;
    }
    let ghost clean = host@.skip(start as int);
    assert(clean[0] == host@[start as int]);
    assert(clean.skip(1) =~= host@.subrange(start + 1, host@.len() as int));
    string_from(&out)
}

/// The page title, or a host-derived one when the page's is a placeholder.
pub open spec fn derive_title_spec(html: Seq<char>, url: Seq<char>) -> Seq<char> {
    let title = match title_spec(html) {
        Some(t) => t,
        None => Seq::empty(),
    };
    if is_generic_title_spec(title) {
        fallback_title_spec(url)
    } else {
        title
    }
}

/// A page whose title is a placeholder (see [`lemma_placeholder_titles`]),
/// such as "Please wait" or "Loading", or that has no title, is named after
/// its host; any other title is kept as it is.
pub proof fn lemma_placeholder_title_falls_back_to_host(html: Seq<char>, url: Seq<char>)
    ensures
        ({
            let title = match title_spec(html) {
                Some(t) => t,
                None => Seq::empty(),
            };
            let l = unicode_lowercase(trim(title));
            &&& (l == "ok"@ || l == "loading"@ || l == "redirect"@ || l == "please wait"@ || l == ""@
                || encode_utf8(title).len() < 3) ==> derive_title_spec(html, url) == fallback_title_spec(url)
            &&& !(l == "ok"@ || l == "loading"@ || l == "redirect"@ || l == "please wait"@ || l == ""@
                || encode_utf8(title).len() < 3) ==> derive_title_spec(html, url) == title
        }),
{
    let title = match title_spec(html) {
        Some(t) => t,
        None => Seq::empty(),
    };
    lemma_placeholder_titles(title);
}

/// `url` is the text of the page's final URL.
pub fn derive_title(html: &str, url: &str) -> (r: String)
    ensures
        r@ == derive_title_spec(html@, url@),
{
    let title = match extract_title(html) {
        Some(t) => t,
        None => String::new(),
    };
    if is_generic_title(title.as_str()) {
        fallback_title_from_host(url)
    } else {
        title
    }
}

// ---------------------------------------------------------------------------
// What to fetch

pub fn clone_candidate(c: &IconCandidate) -> (r: IconCandidate)
    ensures
        r == *c,
{
    IconCandidate {
        url: c.url.clone(),
        declared_size: c.declared_size,
        source: c.source,
        vector_hint: c.vector_hint,
    }
}

/// The first `MAX_CANDIDATE_DOWNLOADS` candidates of the top tier (real app
/// icons), in order.
pub open spec fn download_selection(v: Seq<CandidateView>) -> Seq<CandidateView>
    decreases v.len(),
{
    if v.len() == 0 {
        Seq::empty()
    } else {
        let prev = download_selection(v.drop_last());
        if tier_of(v.last().source) == 2 && prev.len() < 10 {
            prev.push(v.last())
        } else {
            prev
        }
    }
}

/// Candidates to download; the `k`-th one is stored under index `k`.
pub fn select_download_candidates(candidates: &[IconCandidate]) -> (r: Vec<IconCandidate>)
    ensures
        candidate_views(r@) == download_selection(candidate_views(candidates@)),
{
    let ghost all = candidate_views(candidates@);
    let mut out: Vec<IconCandidate> = Vec::new();
    let mut i: usize = 0;
    assert(candidate_views(out@) =~= Seq::<CandidateView>::empty());
    while i < candidates.len()
        invariant
            i <= candidates@.len(),
            all == candidate_views(candidates@),
            candidate_views(out@) == download_selection(all.take(i as int)),
        decreases candidates.len() - i,
    {
        assert(all.take(i + 1).drop_last() =~= all.take(i as int));
        assert(all.take(i + 1).last() == candidates@[i as int]@);
        if candidates[i].source.rank_tier() == 2 && out.len() < MAX_CANDIDATE_DOWNLOADS {
            let ghost before = candidate_views(out@);
            out.push(clone_candidate(&candidates[i]));
            assert(candidate_views(out@) =~= before.push(candidates@[i as int]@));
        }
        i = i + 1;
    }
    assert(all.take(all.len() as int) =~= all);
    out
}

/// Conventional icon locations probed when nothing declared is big enough;
/// the `k`-th is stored under index `20 + k`.
pub open spec fn well_known_paths() -> Seq<Seq<char>> {
    seq![
        "/apple-touch-icon.png"@,
        "/apple-touch-icon-precomposed.png"@,
        "/apple-touch-icon-180x180.png"@,
        "/icon.png"@,
        "/logo.png"@,
        "/favicon.ico"@,
    ]
}

pub fn well_known_icon_paths() -> (r: Vec<&'static str>)
    ensures
        r@.map_values(|s: &str| s@) == well_known_paths(),
{
    let mut v: Vec<&'static str> = Vec::new();
    v.push("/apple-touch-icon.png");
    v.push("/apple-touch-icon-precomposed.png");
    v.push("/apple-touch-icon-180x180.png");
    v.push("/icon.png");
    v.push("/logo.png");
    v.push("/favicon.ico");
    assert(v@.map_values(|s: &str| s@) =~= well_known_paths());
    v
}

/// Whether the declared candidates left no good icon, so that well-known
/// paths must be probed.
pub fn needs_well_known_probe(icons: &[DownloadedIcon]) -> (r: bool)
    ensures
        r == (best_side_spec(icons@) < PREFERRED_SIDE),
{
    best_side(icons) < PREFERRED_SIDE
}

/// When a good icon exists, only icons at least `PREFERRED_SIDE` wide stay.
pub open spec fn retained(icons: Seq<DownloadedIcon>) -> Seq<DownloadedIcon> {
    if best_side_spec(icons) >= PREFERRED_SIDE {
        icons.filter(|i: DownloadedIcon| effective_side_of(i) >= PREFERRED_SIDE)
    } else {
        icons
    }
}

pub fn retain_preferred(icons: Vec<DownloadedIcon>) -> (r: Vec<DownloadedIcon>)
    ensures
        r@ == retained(icons@),
{
    if best_side(&icons) < PREFERRED_SIDE {
        return icons;
    }
    let ghost all = icons@;
    let ghost pred = |i: DownloadedIcon| effective_side_of(i) >= PREFERRED_SIDE;
    let mut rest = icons;
    let mut out: Vec<DownloadedIcon> = Vec::new();
    let ghost mut done: int = 0;
    assert(all.take(0).filter(pred) =~= Seq::<DownloadedIcon>::empty());
    while rest.len() > 0
        invariant
            0 <= done <= all.len(),
            rest@ == all.skip(done),
            out@ == all.take(done).filter(pred),
            pred == (|i: DownloadedIcon| effective_side_of(i) >= PREFERRED_SIDE),
        decreases rest.len(),
    {
        let icon = rest.remove(0);
        proof {
            assert(icon == all[done]);
            assert(all.take(done + 1) =~= all.take(done).push(all[done]));
            all.take(done).lemma_filter_push(all[done], pred);
            assert(all.skip(done).drop_first() =~= all.skip(done + 1));
        }
        if icon.effective_side() >= PREFERRED_SIDE {
            out.push(icon);
        }
        proof {
            done = done + 1;
        }
    }
    assert(all.take(done) =~= all);
    out
}

pub open spec fn similar_to(o: Option<Seq<u8>>, p: Seq<u8>) -> bool {
    match o {
        Some(q) => similar_pixels_spec(q, p),
        None => false,
    }
}

/// Keep flags for the ranked icons: an icon whose thumbnail could not be
/// loaded (`None`) is dropped, and so is one whose thumbnail is similar to an
/// already kept one.
pub open spec fn keep_flags(prints: Seq<Option<Seq<u8>>>) -> Seq<bool>
    decreases prints.len(),
{
    if prints.len() == 0 {
        Seq::empty()
    } else {
        let prev = keep_flags(prints.drop_last());
        match prints.last() {
            None => prev.push(false),
            Some(p) => prev.push(
                !exists|j: int|
                    0 <= j < prev.len() && prev[j] && similar_to(prints[j], p),
            ),
        }
    }
}

pub open spec fn print_views(v: Seq<Option<Vec<u8>>>) -> Seq<Option<Seq<u8>>> {
    v.map_values(
        |o: Option<Vec<u8>>|
            match o {
                Some(b) => Some(b@),
                None => None,
            },
    )
}

proof fn lemma_keep_flags_len(prints: Seq<Option<Seq<u8>>>)
    ensures
        keep_flags(prints).len() == prints.len(),
    decreases prints.len(),
{
    if prints.len() > 0 {
        lemma_keep_flags_len(prints.drop_last());
    }
}

pub fn dedupe_by_fingerprint(prints: &Vec<Option<Vec<u8>>>) -> (r: Vec<bool>)
    ensures
        r@ == keep_flags(print_views(prints@)),
{
    let ghost all = print_views(prints@);
    let mut keep: Vec<bool> = Vec::new();
    let mut i: usize = 0;
    assert(all.take(0) =~= Seq::<Option<Seq<u8>>>::empty());
    while i < prints.len()
        invariant
            i <= prints@.len(),
            all == print_views(prints@),
            keep@ == keep_flags(all.take(i as int)),
            keep@.len() == i,
        decreases prints.len() - i,
    {
        let ghost t = all.take(i + 1);
        assert(t.drop_last() =~= all.take(i as int));
        match &prints[i] {
            None => {
                keep.push(false);
            },
            Some(p) => {
                assert(all[i as int] == Some(p@));
                let mut similar = false;
                let mut j: usize = 0;
                while j < i
                    invariant
                        j <= i < prints@.len(),
                        keep@.len() == i,
                        all == print_views(prints@),
                        all[i as int] == Some(p@),
                        similar <==> exists|k: int|
                            0 <= k < j && keep@[k] && similar_to(all[k], p@),
                    decreases i - j,
                {
                    if keep[j] {
                        if let Some(q) = &prints[j] {
                            if similar_pixels(q, p) {
                                similar = true;
                            }
                        }
                    }
                    j = j + 1;
                }
                proof {
                    assert forall|k: int| 0 <= k < i implies t[k] == all[k] by {}
                }
                keep.push(!similar);
            },
        }
        i = i + 1;
    }
    assert(all.take(all.len() as int) =~= all);
    keep
}

/// The icon offered for a kept download: its measured extent (0 when
/// unmeasured) and whether it is a vector.
pub fn to_site_icon(icon: DownloadedIcon) -> (r: SiteIcon)
    ensures
        r.url == icon.url,
        r.width == (match icon.dimensions {
            Some(d) => d.width,
            None => 0,
        }),
        r.height == (match icon.dimensions {
            Some(d) => d.height,
            None => 0,
        }),
        r.scalable == icon.is_vector,
        r.path == icon.path,
{
    let width = match icon.dimensions {
        Some(d) => d.width,
        None => 0,
    };
    let height = match icon.dimensions {
        Some(d) => d.height,
        None => 0,
    };
    SiteIcon { path: icon.path, url: icon.url, width, height, scalable: icon.is_vector }
}

// ---------------------------------------------------------------------------
// Web-app manifests

/// One entry of a manifest's `icons` array.
#[derive(Debug)]
pub struct ManifestIcon {
    pub src: String,
    pub sizes: Option<String>,
    pub mime_type: Option<String>,
}

/// The candidate a manifest icon contributes, resolved against the
/// manifest's own final URL; its vector hint looks at the resolved URL.
pub open spec fn manifest_candidate_spec(
    src: Seq<char>,
    sizes: Option<Seq<char>>,
    mime: Option<Seq<char>>,
    base: Option<Seq<char>>,
) -> Option<CandidateView> {
    match resolve_url_spec(src, base) {
        None => None,
        Some(abs) => {
            let s = match sizes {
                Some(x) => x,
                None => Seq::empty(),
            };
            let m = match mime {
                Some(x) => x,
                None => Seq::empty(),
            };
            Some(
                CandidateView {
                    url: abs,
                    declared_size: declared_size_spec(s),
                    source: IconSource::Manifest,
                    vector_hint: vector_hint_spec(abs, s, m),
                },
            )
        },
    }
}

/// `base` is the text of the manifest's final URL, when it parsed.
pub fn manifest_icon_candidate(icon: &ManifestIcon, base: Option<&str>) -> (r: Option<
    IconCandidate,
>)
    ensures
        match r {
            Some(c) => manifest_candidate_spec(
                icon.src@,
                opt_view(icon.sizes),
                opt_view(icon.mime_type),
                opt_str_view(base),
            ) == Some(c@),
            None => manifest_candidate_spec(
                icon.src@,
                opt_view(icon.sizes),
                opt_view(icon.mime_type),
                opt_str_view(base),
            ) is None,
        },
{
    let abs = match resolve_url(icon.src.as_str(), base) {
        Some(a) => a,
        None => return None,
    };
    let sizes = match &icon.sizes {
        Some(s) => s.clone(),
        None => String::new(),
    };
    let mime = match &icon.mime_type {
        Some(m) => m.clone(),
        None => String::new(),
    };
    let vector = is_vector_hint(abs.as_str(), sizes.as_str(), mime.as_str());
    let declared = largest_declared_size(sizes.as_str());
    Some(IconCandidate::new(abs, declared, IconSource::Manifest, vector))
}

// ---------------------------------------------------------------------------
// Fetching the page and its manifests

/// Largest page read, in bytes (4 MiB); the cap stops a hostile server from
/// streaming an unbounded body into memory.
pub const MAX_PAGE_BYTES: u64 = 4194304;

/// Largest web-app manifest read, in bytes (512 KiB).
pub const MAX_MANIFEST_BYTES: u64 = 524288;

/// Why a page or manifest could not be fetched.
#[derive(Debug)]
pub enum FetchError {
    /// The address is not an `http`/`https` URL.
    Url(UrlError),
    /// The request failed.
    Http(HttpError),
    /// The server answered with a status outside 200..300.
    Status(u16),
    /// The URL the request ended up at does not parse.
    FinalUrl(String),
}

/// A fetched page: where the request ended up, and its text.
#[derive(Debug)]
pub struct Page {
    pub final_url: String,
    pub html: String,
}

/// What a page fetch makes of the response: a 2xx response whose final URL
/// parses gives that URL and its body decoded as UTF-8 (invalid sequences
/// replaced).
pub fn accept_page(response: ByteResponse) -> (r: Result<Page, FetchError>)
    ensures
        !(200 <= response.status < 300) ==> (r matches Err(FetchError::Status(s)) && s
            == response.status),
        200 <= response.status < 300 && !url_parse_ok(response.final_url@) ==> (r matches Err(
            FetchError::FinalUrl(u),
        ) && u == response.final_url),
        200 <= response.status < 300 && url_parse_ok(response.final_url@) ==> (r matches Ok(p)
            && p.final_url == response.final_url && p.html@ == utf8_lossy(response.bytes@)),
{
    if !(200 <= response.status && response.status < 300) {
        return Err(FetchError::Status(response.status));
    }
    if parse_url(response.final_url.as_str()).is_none() {
        return Err(FetchError::FinalUrl(response.final_url));
    }
    let text = string_from(decode_utf8_lossy(response.bytes.as_slice()).as_slice());
    Ok(Page { final_url: response.final_url, html: text })
}

/// Fetches the page a web app is created for, its address normalised by
/// [`normalize_http_url`]; at most [`MAX_PAGE_BYTES`] of it are read.
pub fn fetch_page(url: &str, timeout: Duration) -> (r: Result<Page, FetchError>)
    ensures
        (r matches Err(FetchError::Url(_))) <==> !(url_parse_ok(with_default_scheme(url@))
            && is_http_scheme(url_scheme(with_default_scheme(url@)))),
        r matches Err(FetchError::Status(s)) ==> !(200 <= s < 300),
        r matches Ok(p) ==> url_parse_ok(p.final_url@) && exists|b: Seq<u8>| b.len() <= MAX_PAGE_BYTES
            && p.html@ == utf8_lossy(b),
        r matches Err(FetchError::FinalUrl(u)) ==> !url_parse_ok(u@),
        r matches Err(FetchError::Http(HttpError::TooLarge(m))) ==> m == MAX_PAGE_BYTES,
        r matches Err(FetchError::Http(HttpError::Transport { url: u, .. })) ==> u@ == with_default_scheme(
            url@,
        ),
{
    let normalized = match normalize_http_url(url) {
        Ok(n) => n,
        Err(e) => return Err(FetchError::Url(e)),
    };
    match http_get_bytes_capped(normalized.as_str(), &RequestHeaders::browser(), MAX_PAGE_BYTES, timeout) {
        Ok(response) => {
            let ghost body = response.bytes@;
            let r = accept_page(response);
            proof {
                if r is Ok {
                    assert(body.len() <= MAX_PAGE_BYTES);
                }
            }
            r
        },
        Err(e) => Err(FetchError::Http(e)),
    }
}

/// The URL that relative references on a page resolve against: its
/// `<base href>` joined onto the page URL when that works, else the page URL.
pub open spec fn page_base_spec(html: Seq<char>, page_url: Seq<char>) -> Seq<char> {
    match html_base_href(html) {
        Some(href) => match url_join_result(page_url, href) {
            Some(joined) => joined,
            None => page_url,
        },
        None => page_url,
    }
}

pub fn page_base_url(html: &str, page_url: &str) -> (r: String)
    ensures
        r@ == page_base_spec(html@, page_url@),
{
    match base_href(html) {
        Some(href) => match join_url(page_url, href.as_str()) {
            Some(joined) => joined,
            None => page_url.to_string(),
        },
        None => page_url.to_string(),
    }
}

/// What a manifest fetch makes of the response: a 2xx response is kept as
/// it is, any other status is an error.
pub fn accept_manifest(response: ByteResponse) -> (r: Result<ByteResponse, FetchError>)
    ensures
        (200 <= response.status < 300) <==> r is Ok,
        r matches Ok(kept) ==> kept == response,
        r matches Err(e) ==> (e matches FetchError::Status(s) && s == response.status),
{
    if 200 <= response.status && response.status < 300 {
        Ok(response)
    } else {
        Err(FetchError::Status(response.status))
    }
}

/// Fetches a web-app manifest: at most [`MAX_MANIFEST_BYTES`] of it, and only
/// a response that [`accept_manifest`] keeps.
pub fn fetch_manifest_bytes(url: &str, timeout: Duration) -> (r: Result<ByteResponse, FetchError>)
    ensures
        r matches Ok(resp) ==> 200 <= resp.status < 300 && resp.bytes@.len() <= MAX_MANIFEST_BYTES,
        r matches Err(e) ==> !(e is Url),
        r matches Err(FetchError::Status(s)) ==> !(200 <= s < 300),
        r matches Err(FetchError::Http(HttpError::TooLarge(m))) ==> m == MAX_MANIFEST_BYTES,
        r matches Err(FetchError::Http(HttpError::Transport { url: u, .. })) ==> u@ == url@,
{
    match http_get_bytes_capped(url, &RequestHeaders::browser(), MAX_MANIFEST_BYTES, timeout) {
        Ok(response) => accept_manifest(response),
        Err(e) => Err(FetchError::Http(e)),
    }
}


/// At most `MAX_CANDIDATE_DOWNLOADS` candidates are fetched, all of them real
/// app icons (top tier), each one of the offered candidates.
pub proof fn lemma_download_selection_bounds(v: Seq<CandidateView>)
    ensures
        download_selection(v).len() <= MAX_CANDIDATE_DOWNLOADS,
        forall|k: int| 0 <= k < download_selection(v).len() ==> tier_of(#[trigger] download_selection(v)[k].source) == 2,
        forall|k: int| 0 <= k < download_selection(v).len() ==> v.contains(#[trigger] download_selection(v)[k]),
    decreases v.len(),
{
    if v.len() > 0 {
        let prev = download_selection(v.drop_last());
        lemma_download_selection_bounds(v.drop_last());
        assert forall|k: int| 0 <= k < download_selection(v).len() implies v.contains(#[trigger] download_selection(v)[k]) by {
            if k < prev.len() {
                assert(download_selection(v)[k] == prev[k]);
                let j = choose|j: int| 0 <= j < v.drop_last().len() && v.drop_last()[j] == prev[k];
                assert(v[j] == prev[k]);
            } else {
                assert(download_selection(v)[k] == v[v.len() - 1]);
            }
        }
        assert forall|k: int| 0 <= k < download_selection(v).len() implies tier_of(#[trigger] download_selection(v)[k].source) == 2 by {
            if k < prev.len() {
                assert(download_selection(v)[k] == prev[k]);
            }
        }
    }
}

proof fn lemma_keep_flags_prefix(prints: Seq<Option<Seq<u8>>>, m: int)
    requires
        0 <= m <= prints.len(),
    ensures
        keep_flags(prints.take(m)).len() == m,
        forall|k: int| 0 <= k < m ==> #[trigger] keep_flags(prints.take(m))[k] == keep_flags(prints)[k],
    decreases prints.len() - m,
{
    lemma_keep_flags_len(prints.take(m));
    if m < prints.len() {
        lemma_keep_flags_prefix(prints, m + 1);
        let t = prints.take(m + 1);
        assert(t.drop_last() =~= prints.take(m));
        assert forall|k: int| 0 <= k < m implies #[trigger] keep_flags(prints.take(m))[k] == keep_flags(prints)[k] by {
            assert(keep_flags(t)[k] == keep_flags(t.drop_last())[k]);
        }
    } else {
        assert(prints.take(m) =~= prints);
    }
}

/// Among the icons kept, no two thumbnails are similar, and every kept icon
/// had a readable thumbnail.
pub proof fn lemma_kept_icons_differ(prints: Seq<Option<Seq<u8>>>, i: int, j: int)
    requires
        0 <= i < j < prints.len(),
        keep_flags(prints)[i],
        keep_flags(prints)[j],
    ensures
        prints[j] is Some,
        prints[i] is Some,
        !similar_to(prints[i], prints[j]->0),
{
    lemma_keep_flags_prefix(prints, j + 1);
    lemma_keep_flags_prefix(prints, j);
    lemma_keep_flags_prefix(prints, i + 1);
    let t = prints.take(j + 1);
    assert(t.drop_last() =~= prints.take(j));
    assert(t.last() == prints[j]);
    assert(keep_flags(t)[j] == keep_flags(prints)[j]);
    let prev = keep_flags(prints.take(j));
    assert(prev[i] == keep_flags(prints)[i]);
    assert(t[i] == prints[i]);
    let u = prints.take(i + 1);
    assert(u.drop_last() =~= prints.take(i));
    assert(u.last() == prints[i]);
    assert(keep_flags(u)[i] == keep_flags(prints)[i]);
    lemma_keep_flags_len(prints.take(i));
}

} // verus!
