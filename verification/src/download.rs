//! Downloaded icons: the content-type allowlist, the checks applied to a
//! decoded image, the ICO frame extraction plan, and the ranking of what was
//! fetched by shape, provenance and measured resolution.

use vstd::prelude::*;
use crate::html::{tier_of, IconSource};
use crate::image::{
    extension_of, has_png_signature, ico_best_frame, ico_entry, ico_frame_offset,
    ico_frame_side, ico_frame_size, ico_embedded_png, ico_payload, largest_ico_frame, measure,
    measured, side_of, square_ish, Dimensions, ImageFormat, VECTOR_SIDE,
};
use crate::rank::{stable_sort_by_rank_desc, stable_sort_of, Ranked};
use crate::http::{http_get_bytes_capped, ByteResponse, HttpError, RequestHeaders};
use crate::weburl::opt_view;
use std::time::Duration;
use crate::text::{
    chars_of, contains, contains_chars, decode_utf8_lossy, has_prefix, starts_with,
    all_ascii, ascii_lowercase, chars_equal, string_from, to_lowercase, unicode_lowercase, utf8_lossy,
};

verus! {

/// `std::path::PathBuf`, carried opaquely.
#[verifier::external_type_specification]
#[verifier::external_body]
pub struct ExPathBuf(std::path::PathBuf);

/// An icon fetched to the cache, with its resolution measured from the bytes.
#[derive(Debug)]
pub struct DownloadedIcon {
    pub path: std::path::PathBuf,
    pub url: String,
    /// Measured extent; `None` when the container header was unparseable.
    pub dimensions: Option<Dimensions>,
    pub is_vector: bool,
    /// Where the URL was advertised, kept so that a `mask-icon` silhouette and
    /// an `og:image` banner stay demoted however many pixels they have.
    pub source: IconSource,
}

/// Resolution used for ranking; unmeasurable assets count as 0.
pub open spec fn effective_side_of(i: DownloadedIcon) -> u32 {
    match i.dimensions {
        Some(d) => side_of(d),
        None => 0,
    }
}

/// Unmeasurable assets get the benefit of the doubt.
pub open spec fn icon_shaped(i: DownloadedIcon) -> bool {
    match i.dimensions {
        Some(d) => square_ish(d),
        None => true,
    }
}

/// Final ranking key `(icon-shaped, source tier, measured side, is vector)`,
/// compared lexicographically.
pub open spec fn ranking_key(i: DownloadedIcon) -> (u8, u8, u32, u8) {
    (
        if icon_shaped(i) {
            1u8
        } else {
            0u8
        },
        tier_of(i.source),
        effective_side_of(i),
        if i.is_vector {
            1u8
        } else {
            0u8
        },
    )
}

pub open spec fn ranking_value(k: (u8, u8, u32, u8)) -> int {
    k.0 * 0x1_0000_0000_0000 + k.1 * 0x100_0000_0000 + k.2 * 0x100 + k.3
}

/// Ordering by `ranking_value` is the lexicographic order of the key.
pub proof fn lemma_ranking_value_orders(a: (u8, u8, u32, u8), b: (u8, u8, u32, u8))
    ensures
        ranking_value(a) > ranking_value(b) <==> (a.0 > b.0 || (a.0 == b.0 && (a.1 > b.1 || (a.1
            == b.1 && (a.2 > b.2 || (a.2 == b.2 && a.3 > b.3)))))),
        ranking_value(a) == ranking_value(b) <==> a == b,
{
}

impl DownloadedIcon {
    pub fn effective_side(&self) -> (r: u32)
        ensures
            r == effective_side_of(*self),
    {
        match self.dimensions {
            Some(d) => d.side(),
            None => 0,
        }
    }

    pub fn is_icon_shaped(&self) -> (r: bool)
        ensures
            r == icon_shaped(*self),
    {
        match self.dimensions {
            Some(d) => d.is_square_ish(),
            None => true,
        }
    }
}

impl Ranked for DownloadedIcon {
    open spec fn rank(&self) -> int {
        ranking_value(ranking_key(*self))
    }

    fn rank_value(&self) -> (r: u128) {
        let shaped: u128 = if self.is_icon_shaped() {
            1
        } else {
            0
        };
        let vector: u128 = if self.is_vector {
            1
        } else {
            0
        };
        shaped * 0x1_0000_0000_0000 + (self.source.rank_tier() as u128) * 0x100_0000_0000
            + (self.effective_side() as u128) * 0x100 + vector
    }
}

/// Final ranking, most preferred first: shape and provenance gate the
/// comparison, and resolution decides among candidates that look like icons;
/// ties keep their download order.
pub fn rank_by_measured_resolution(icons: &mut Vec<DownloadedIcon>)
    ensures
        stable_sort_of(final(icons)@, old(icons)@),
        final(icons)@.len() == old(icons)@.len(),
{
    stable_sort_by_rank_desc(icons);
}

/// An icon a site publishes as its app icon: from its web-app manifest, an
/// `apple-touch-icon` or a `<link rel="icon">`.
pub open spec fn published_app_icon(i: DownloadedIcon) -> bool {
    i.source is Manifest || i.source is AppleTouch || i.source is Icon
}

/// A raster measured as an exact square of a non-zero side.
pub open spec fn measured_square(i: DownloadedIcon, side: u32) -> bool {
    !i.is_vector && side > 0 && i.dimensions == Some(Dimensions { width: side, height: side })
}

/// Resolution decides between published app icons, whatever published them:
/// of two square rasters the larger ranks strictly higher and equal sides
/// rank the same. A square published app icon also ranks strictly above a
/// square `mask-icon` silhouette or `og:image` banner of any size, and a
/// silhouette above a banner.
pub proof fn lemma_published_icons_rank_by_side(a: DownloadedIcon, b: DownloadedIcon, sa: u32, sb: u32)
    requires
        measured_square(a, sa),
        measured_square(b, sb),
    ensures
        published_app_icon(a) && published_app_icon(b) ==> (sa > sb <==> a.rank() > b.rank()),
        published_app_icon(a) && published_app_icon(b) ==> (sa == sb <==> a.rank() == b.rank()),
        published_app_icon(a) && (b.source is MaskIcon || b.source is OgImage) ==> a.rank() > b.rank(),
        a.source is MaskIcon && b.source is OgImage ==> a.rank() > b.rank(),
{
    lemma_ranking_value_orders(ranking_key(a), ranking_key(b));
    lemma_ranking_value_orders(ranking_key(b), ranking_key(a));
}

/// In the ranked list, among square published app icons the larger comes
/// first, and every square published app icon comes before every square
/// silhouette or banner.
pub proof fn lemma_ranked_list_puts_larger_app_icons_first(
    ranked: Seq<DownloadedIcon>,
    original: Seq<DownloadedIcon>,
    i: int,
    j: int,
    si: u32,
    sj: u32,
)
    requires
        stable_sort_of(ranked, original),
        0 <= i < j < ranked.len(),
        measured_square(ranked[i], si),
        measured_square(ranked[j], sj),
    ensures
        published_app_icon(ranked[i]) && published_app_icon(ranked[j]) ==> si >= sj,
        !(published_app_icon(ranked[j]) && (ranked[i].source is MaskIcon || ranked[i].source is OgImage)),
{
    lemma_published_icons_rank_by_side(ranked[j], ranked[i], sj, si);
}

/// Best measured side among icon-shaped candidates that are not share
/// banners (tier 0); 0 when there is none.
pub open spec fn best_side_spec(icons: Seq<DownloadedIcon>) -> u32
    decreases icons.len(),
{
    if icons.len() == 0 {
        0
    } else {
        let prev = best_side_spec(icons.drop_last());
        let i = icons.last();
        if icon_shaped(i) && tier_of(i.source) > 0 && effective_side_of(i) > prev {
            effective_side_of(i)
        } else {
            prev
        }
    }
}

pub fn best_side(icons: &[DownloadedIcon]) -> (r: u32)
    ensures
        r == best_side_spec(icons@),
{
    let mut best: u32 = 0;
    let mut i: usize = 0;
    while i < icons.len()
        invariant
            i <= icons@.len(),
            best == best_side_spec(icons@.take(i as int)),
        decreases icons.len() - i,
    {
        assert(icons@.take(i + 1).drop_last() =~= icons@.take(i as int));
        let icon = &icons[i];
        if icon.is_icon_shaped() && icon.source.rank_tier() > 0 && icon.effective_side() > best {
            best = icon.effective_side();
        }
        i = i + 1;
    }
    assert(icons@.take(icons@.len() as int) =~= icons@);
    best
}

/// `best_side` bounds the side of every icon it counts.
pub proof fn lemma_best_side_is_max(icons: Seq<DownloadedIcon>)
    ensures
        forall|j: int|
            0 <= j < icons.len() && icon_shaped(icons[j]) && tier_of(icons[j].source) > 0
                ==> effective_side_of(icons[j]) <= best_side_spec(icons),
        best_side_spec(icons) == 0 || exists|j: int|
            0 <= j < icons.len() && icon_shaped(icons[j]) && tier_of(icons[j].source) > 0
                && effective_side_of(icons[j]) == best_side_spec(icons),
    decreases icons.len(),
{
    if icons.len() > 0 {
        let init = icons.drop_last();
        lemma_best_side_is_max(init);
        assert(forall|j: int| 0 <= j < init.len() ==> init[j] == icons[j]);
        if best_side_spec(icons) != 0 && best_side_spec(icons) == best_side_spec(init) {
            let j = choose|j: int|
                0 <= j < init.len() && icon_shaped(init[j]) && tier_of(init[j].source) > 0
                    && effective_side_of(init[j]) == best_side_spec(init);
            assert(icons[j] == init[j]);
        }
    }
}

/// Pixel fingerprints closer than an average of 6 per byte count as the same
/// picture.
pub open spec fn abs_diff_sum(a: Seq<u8>, b: Seq<u8>) -> int
    decreases a.len(),
{
    if a.len() == 0 || b.len() == 0 {
        0
    } else {
        abs_diff_sum(a.drop_last(), b.drop_last()) + if a.last() >= b.last() {
            a.last() - b.last()
        } else {
            b.last() - a.last()
        }
    }
}

pub open spec fn similar_pixels_spec(a: Seq<u8>, b: Seq<u8>) -> bool {
    a.len() == b.len() && a.len() > 0 && abs_diff_sum(a, b) <= 6 * a.len()
}

pub fn similar_pixels(left: &[u8], right: &[u8]) -> (r: bool)
    ensures
        r == similar_pixels_spec(left@, right@),
{
    if left.len() != right.len() || left.len() == 0 {
        return false;
    }
    let mut sum: u128 = 0;
    let mut i: usize = 0;
    while i < left.len()
        invariant
            left@.len() == right@.len(),
            left@.len() == left.len(),
            i <= left@.len(),
            sum == abs_diff_sum(left@.take(i as int), right@.take(i as int)),
            sum <= 255 * i,
        decreases left.len() - i,
    {
        assert(left@.take(i + 1).drop_last() =~= left@.take(i as int));
        assert(right@.take(i + 1).drop_last() =~= right@.take(i as int));
        let a = left[i];
        let b = right[i];
        let d: u128 = if a >= b {
            (a - b) as u128
        } else {
            (b - a) as u128
        };
        sum = sum + d;
        i = i + 1;
    }
    assert(left@.take(left@.len() as int) =~= left@);
    assert(right@.take(right@.len() as int) =~= right@);
    sum <= (left.len() as u128) * 6
}

// ---------------------------------------------------------------------------
// Content type

#[derive(Debug)]
pub enum DownloadError {
    /// The server answered with a status outside 200..300.
    HttpStatus(u16),
    /// The declared content type is not an image; carries it lowercased.
    NotAnImage(String),
    /// The body was empty.
    EmptyResponse,
    /// The request itself failed.
    Http(HttpError),
}

/// Strict allowlist on the lowercased content type: `image/*`, plus
/// `application/octet-stream` (alone or with parameters) and
/// `application/vnd.microsoft.icon`.
pub open spec fn acceptable_content_type(lower: Seq<char>) -> bool {
    ||| starts_with(lower, "image/"@)
    ||| lower == "application/octet-stream"@
    ||| starts_with(lower, "application/octet-stream;"@)
    ||| starts_with(lower, "application/vnd.microsoft.icon"@)
}

pub fn reject_non_image(content_type: &str) -> (r: Result<(), DownloadError>)
    ensures
        r is Ok <==> acceptable_content_type(unicode_lowercase(content_type@)),
        r matches Err(DownloadError::NotAnImage(s)) ==> s@ == unicode_lowercase(content_type@),
        r is Err ==> r matches Err(DownloadError::NotAnImage(_)),
        all_ascii(content_type@) ==> (r is Ok <==> acceptable_content_type(ascii_lowercase(content_type@))),
{
    let lower = to_lowercase(&chars_of(content_type));
    let acceptable = has_prefix(&lower, &chars_of("image/")) || chars_equal(
        &lower,
        &chars_of("application/octet-stream"),
    ) || has_prefix(&lower, &chars_of("application/octet-stream;")) || has_prefix(
        &lower,
        &chars_of("application/vnd.microsoft.icon"),
    );
    if acceptable {
        Ok(())
    } else {
        Err(DownloadError::NotAnImage(string_from(&lower)))
    }
}

/// Whether a response may be taken as an icon before its bytes are read:
/// a 2xx status, and an image content type when one is declared.
pub fn check_icon_response(status: u16, content_type: Option<&str>) -> (r: Result<
    (),
    DownloadError,
>)
    ensures
        !(200 <= status < 300) ==> r == Err::<(), DownloadError>(DownloadError::HttpStatus(status)),
        200 <= status < 300 ==> (r is Ok <==> match content_type {
            Some(ct) => acceptable_content_type(unicode_lowercase(ct@)),
            None => true,
        }),
        200 <= status < 300 ==> (r matches Err(e) ==> e matches DownloadError::NotAnImage(_)),
{
    if !(200 <= status && status < 300) {
        return Err(DownloadError::HttpStatus(status));
    }
    match content_type {
        Some(ct) => reject_non_image(ct),
        None => Ok(()),
    }
}

/// Largest icon body read, in bytes (8 MiB): a 1024 px photographic PNG app
/// icon can weigh several megabytes, and the read is capped mid-stream.
pub const MAX_ICON_BYTES: u64 = 8388608;

pub open spec fn opt_content_type(o: Option<String>) -> Option<Seq<char>> {
    opt_view(o)
}

/// Whether a fetched response is kept as an icon: a 2xx status, an image
/// content type when one is declared, and a non-empty body, checked in that
/// order.
pub fn accept_icon_response(response: ByteResponse) -> (r: Result<ByteResponse, DownloadError>)
    ensures
        !(200 <= response.status < 300) ==> r == Err::<ByteResponse, DownloadError>(
            DownloadError::HttpStatus(response.status),
        ),
        200 <= response.status < 300 ==> (r is Ok <==> (match response.content_type {
            Some(ct) => acceptable_content_type(unicode_lowercase(ct@)),
            None => true,
        }) && response.bytes@.len() > 0),
        r matches Ok(kept) ==> kept == response,
        200 <= response.status < 300 && (match response.content_type {
            Some(ct) => acceptable_content_type(unicode_lowercase(ct@)),
            None => true,
        }) && response.bytes@.len() == 0 ==> r == Err::<ByteResponse, DownloadError>(
            DownloadError::EmptyResponse,
        ),
        200 <= response.status < 300 ==> (r matches Err(e) ==> (e matches DownloadError::NotAnImage(_)
            || e == DownloadError::EmptyResponse)),
{
    let checked = match &response.content_type {
        Some(ct) => check_icon_response(response.status, Some(ct.as_str())),
        None => check_icon_response(response.status, None),
    };
    match checked {
        Err(e) => Err(e),
        Ok(()) => {
            if response.bytes.len() == 0 {
                Err(DownloadError::EmptyResponse)
            } else {
                Ok(response)
            }
        },
    }
}

/// Fetches a candidate icon: at most [`MAX_ICON_BYTES`] of it, and only a
/// response that [`accept_icon_response`] keeps.
pub fn fetch_icon_bytes(url: &str, timeout: Duration) -> (r: Result<ByteResponse, DownloadError>)
    ensures
        r matches Ok(resp) ==> 200 <= resp.status < 300 && 0 < resp.bytes@.len() <= MAX_ICON_BYTES
            && (match resp.content_type {
            Some(ct) => acceptable_content_type(unicode_lowercase(ct@)),
            None => true,
        }),
        r matches Err(DownloadError::HttpStatus(s)) ==> !(200 <= s < 300),
        r matches Err(DownloadError::Http(HttpError::TooLarge(m))) ==> m == MAX_ICON_BYTES,
{
    match http_get_bytes_capped(url, &RequestHeaders::browser(), MAX_ICON_BYTES, timeout) {
        Ok(response) => accept_icon_response(response),
        Err(e) => Err(DownloadError::Http(e)),
    }
}

// ---------------------------------------------------------------------------
// Stored files

/// The decimal digit `d` as a character.
pub open spec fn digit_char(d: int) -> char {
    ((48 + d) as u8) as char
}

/// `n` written in decimal, without leading zeros.
pub open spec fn decimal(n: nat) -> Seq<char>
    decreases n,
{
    if n < 10 {
        seq![digit_char(n as int)]
    } else {
        decimal(n / 10).push(digit_char((n % 10) as int))
    }
}

pub fn decimal_chars(n: usize) -> (r: Vec<char>)
    ensures
        r@ == decimal(n as nat),
    decreases n,
{
    let d = ((48 + n % 10) as u8) as char;
    if n < 10 {
        let mut v: Vec<char> = Vec::new();
        v.push(d);
        assert(v@ =~= seq![digit_char(n as int)]);
        v
    } else {
        let mut v = decimal_chars(n / 10);
        v.push(d);
        v
    }
}

/// File name an icon is stored under in the cache: `icon_<index>.<ext>`,
/// where an ICO is stored as the PNG of its largest frame.
pub open spec fn stored_name(index: nat, format: ImageFormat) -> Seq<char> {
    "icon_"@ + decimal(index) + "."@ + (if format == ImageFormat::Ico {
        extension_of(ImageFormat::Png)
    } else {
        extension_of(format)
    })
}

pub fn stored_icon_file_name(index: usize, format: ImageFormat) -> (r: String)
    ensures
        r@ == stored_name(index as nat, format),
{
    let ext = if format == ImageFormat::Ico {
        ImageFormat::Png.extension()
    } else {
        format.extension()
    };
    let mut v: Vec<char> = chars_of("icon_");
    let ghost a = v@;
    v.extend_from_slice(decimal_chars(index).as_slice());
    let ghost b = v@;
    v.extend_from_slice(chars_of(".").as_slice());
    let ghost c = v@;
    v.extend_from_slice(chars_of(ext).as_slice());
    assert(v@ =~= "icon_"@ + decimal(index as nat) + "."@ + ext@);
    string_from(v.as_slice())
}

/// The record of an icon stored at `path`: the URL it came from, its accepted
/// extent, whether it is a vector, and where it was advertised. An ICO is
/// stored as a PNG, so it is never a vector.
pub fn stored_icon(
    path: std::path::PathBuf,
    url: String,
    dimensions: Dimensions,
    format: ImageFormat,
    source: IconSource,
) -> (r: DownloadedIcon)
    ensures
        r.path == path,
        r.url == url,
        r.dimensions == Some(dimensions),
        r.is_vector == (format == ImageFormat::Svg),
        r.source == source,
{
    DownloadedIcon { path, url, dimensions: Some(dimensions), is_vector: format.is_vector(), source }
}

// ---------------------------------------------------------------------------
// Decoded-image checks

/// Why a decoded image is not accepted as an icon.
#[derive(Debug, Clone, Copy, PartialEq, Eq, Structural)]
pub enum ImageRejection {
    UnknownFormat,
    Invalid,
    NotIconShaped,
    RasterInSvg,
    TooLarge,
    BelowMinimum,
}

/// Smallest acceptable native raster side.
pub const MIN_ACCEPTABLE_SIDE: u32 = 64;

pub open spec fn image_tag() -> Seq<char> {
    seq!['<', 'i', 'm', 'a', 'g', 'e']
}

/// An SVG that embeds a raster (`<image`, any case) is not a real vector.
pub open spec fn embeds_raster(bytes: Seq<u8>) -> bool {
    contains(unicode_lowercase(utf8_lossy(bytes)), image_tag())
}

/// The verdict on a decoded asset, given its format and the original extent
/// the decoder reported (`None` when decoding failed).
pub open spec fn assess_spec(
    bytes: Seq<u8>,
    format: ImageFormat,
    decoded: Option<(i32, i32)>,
) -> Result<Dimensions, ImageRejection> {
    if format == ImageFormat::Unknown {
        Err(ImageRejection::UnknownFormat)
    } else {
        match decoded {
            None => Err(ImageRejection::Invalid),
            Some((w, h)) => if w <= 0 || h <= 0 {
                Err(ImageRejection::Invalid)
            } else {
                let d = Dimensions { width: w as u32, height: h as u32 };
                if !square_ish(d) {
                    Err(ImageRejection::NotIconShaped)
                } else if format == ImageFormat::Svg {
                    if embeds_raster(bytes) {
                        Err(ImageRejection::RasterInSvg)
                    } else {
                        Ok(Dimensions { width: VECTOR_SIDE, height: VECTOR_SIDE })
                    }
                } else if w > 4096 || h > 4096 {
                    Err(ImageRejection::TooLarge)
                } else if side_of(d) < MIN_ACCEPTABLE_SIDE {
                    Err(ImageRejection::BelowMinimum)
                } else {
                    Ok(d)
                }
            },
        }
    }
}

fn image_tag_chars() -> (v: Vec<char>)
    ensures
        v@ == image_tag(),
{
    let mut v: Vec<char> = Vec::new();
    v.push('<');
    v.push('i');
    v.push('m');
    v.push('a');
    v.push('g');
    v.push('e');
    assert(v@ =~= image_tag());
    v
}

/// Accepts a decoded asset as an icon: non-empty, icon-shaped; an SVG must not
/// embed a raster and then reports vector resolution; a raster must fit in
/// 4096 px and reach the minimum side.
pub fn assess_decoded_image(
    bytes: &[u8],
    format: ImageFormat,
    decoded: Option<(i32, i32)>,
) -> (r: Result<Dimensions, ImageRejection>)
    ensures
        r == assess_spec(bytes@, format, decoded),
{
    if format == ImageFormat::Unknown {
        return Err(ImageRejection::UnknownFormat);
    }
    let (w, h) = match decoded {
        Some(pair) => pair,
        None => return Err(ImageRejection::Invalid),
    };
    if w <= 0 || h <= 0 {
        return Err(ImageRejection::Invalid);
    }
    let d = Dimensions { width: w as u32, height: h as u32 };
    if !d.is_square_ish() {
        return Err(ImageRejection::NotIconShaped);
    }
    if format.is_vector() {
        let text = to_lowercase(&decode_utf8_lossy(bytes));
        if contains_chars(&text, &image_tag_chars()) {
            return Err(ImageRejection::RasterInSvg);
        }
        return Ok(Dimensions { width: VECTOR_SIDE, height: VECTOR_SIDE });
    }
    if w > 4096 || h > 4096 {
        return Err(ImageRejection::TooLarge);
    }
    if d.side() < MIN_ACCEPTABLE_SIDE {
        return Err(ImageRejection::BelowMinimum);
    }
    Ok(d)
}

// ---------------------------------------------------------------------------
// ICO extraction

/// How an ICO is turned into a PNG of its largest frame.
#[derive(Debug)]
pub enum IcoPlan {
    /// The largest frame is a complete embedded PNG: store it byte for byte.
    EmbeddedPng { png: Vec<u8>, dimensions: Option<Dimensions> },
    /// The largest frame is BMP-encoded: decode this single-frame ICO, whose
    /// frame is known to be `side` pixels square.
    Decode { single_frame: Vec<u8>, side: u32 },
}

#[derive(Debug, Clone, Copy, PartialEq, Eq, Structural)]
pub enum IcoError {
    InvalidDirectory,
    Overflow,
    TruncatedFrame,
}

/// A one-entry ICO holding directory entry `i` of `b`: header `00 00 01 00
/// 01 00`, the first 12 bytes of the entry, the payload offset 22, then the
/// payload.
pub open spec fn single_frame_ico(b: Seq<u8>, i: int) -> Seq<u8> {
    seq![0u8, 0u8, 1u8, 0u8, 1u8, 0u8] + b.subrange(ico_entry(i), ico_entry(i) + 12) + seq![
        22u8,
        0u8,
        0u8,
        0u8,
    ] + ico_payload(b, i)
}

pub open spec fn ico_plan_spec(b: Seq<u8>) -> Result<(bool, Seq<u8>, int), IcoError> {
    match ico_best_frame(b) {
        None => Err(IcoError::InvalidDirectory),
        Some(i) => if ico_embedded_png(b, i) {
            Ok((true, ico_payload(b, i), ico_frame_side(b, i)))
        } else if ico_frame_offset(b, i) + ico_frame_size(b, i) > b.len() {
            Err(IcoError::TruncatedFrame)
        } else {
            Ok((false, single_frame_ico(b, i), ico_frame_side(b, i)))
        },
    }
}

fn copy_range(b: &[u8], from: usize, to: usize, out: &mut Vec<u8>)
    requires
        from <= to <= b@.len(),
    ensures
        final(out)@ == old(out)@ + b@.subrange(from as int, to as int),
{
    let ghost start = out@;
    let mut i = from;
    while i < to
        invariant
            from <= i <= to <= b@.len(),
            out@ == start + b@.subrange(from as int, i as int),
        decreases to - i,
    {
        out.push(b[i]);
        assert(b@.subrange(from as int, i + 1) =~= b@.subrange(from as int, i as int).push(
            b@[i as int],
        ));
        assert(start + b@.subrange(from as int, i + 1) =~= (start + b@.subrange(
            from as int,
            i as int,
        )).push(b@[i as int]));
        i = i + 1;
    }
}

/// Plan the PNG conversion of an ICO's largest frame: lift an embedded PNG out
/// verbatim, or cut the frame into a one-entry ICO for a decoder.
pub fn plan_ico_store(bytes: &[u8]) -> (r: Result<IcoPlan, IcoError>)
    ensures
        r is Ok <==> ico_plan_spec(bytes@) is Ok,
        r matches Err(e) ==> ico_plan_spec(bytes@) == Err::<(bool, Seq<u8>, int), IcoError>(e),
        r matches Ok(IcoPlan::EmbeddedPng { png, dimensions }) ==> ico_plan_spec(bytes@)->Ok_0
            == (true, png@, ico_plan_spec(bytes@)->Ok_0.2) && dimensions == measured(
            png@,
            ImageFormat::Png,
        ),
        r matches Ok(IcoPlan::Decode { single_frame, side }) ==> ico_plan_spec(bytes@)->Ok_0 == (
            false,
            single_frame@,
            side as int,
        ),
{
    let frame = match largest_ico_frame(bytes) {
        Some(f) => f,
        None => return Err(IcoError::InvalidDirectory),
    };
    let ghost i = ico_best_frame(bytes@)->0;
    proof {
        crate::image::lemma_ico_best_is_largest(bytes@, crate::image::ico_count(bytes@));
    }
    if let Some(png) = frame.embedded_png {
        let mut copy: Vec<u8> = Vec::new();
        copy_range(png, 0, png.len(), &mut copy);
        assert(copy@ =~= png@);
        let dimensions = measure(&copy, ImageFormat::Png);
        return Ok(IcoPlan::EmbeddedPng { png: copy, dimensions });
    }
    let header = 6 + frame.index * 16;
    let length = (bytes[header + 8] as u32) + 256 * (bytes[header + 9] as u32) + 65536 * (
    bytes[header + 10] as u32) + 16777216 * (bytes[header + 11] as u32);
    let offset = (bytes[header + 12] as u32) + 256 * (bytes[header + 13] as u32) + 65536 * (
    bytes[header + 14] as u32) + 16777216 * (bytes[header + 15] as u32);
    let offset = offset as usize;
    let end = match offset.checked_add(length as usize) {
        Some(e) => e,
        None => return Err(IcoError::Overflow),
    };
    if end > bytes.len() {
        return Err(IcoError::TruncatedFrame);
    }
    let mut single: Vec<u8> = Vec::new();
    single.push(0);
    single.push(0);
    single.push(1);
    single.push(0);
    single.push(1);
    single.push(0);
    copy_range(bytes, header, header + 12, &mut single);
    single.push(22);
    single.push(0);
    single.push(0);
    single.push(0);
    copy_range(bytes, offset, end, &mut single);
    assert(single@ =~= single_frame_ico(bytes@, i));
    Ok(IcoPlan::Decode { single_frame: single, side: frame.side })
}

// ---------------------------------------------------------------------------
// Extension guessing for cached assets

/// Extension chosen from magic bytes, then from the URL.
pub open spec fn guessed_extension(url: Seq<char>, b: Seq<u8>) -> Seq<char> {
    if b.len() >= 4 && b[0] == 0x89 && b[1] == 0x50 && b[2] == 0x4e && b[3] == 0x47 {
        "png"@
    } else if (b.len() >= 4 && b[0] == 0x3c && b[1] == 0x73 && b[2] == 0x76 && b[3] == 0x67) || (
    b.len() >= 5 && b[0] == 0x3c && b[1] == 0x3f && b[2] == 0x78 && b[3] == 0x6d && b[4] == 0x6c) {
        "svg"@
    } else if b.len() >= 4 && b[0] == 0 && b[1] == 0 && (b[2] == 1 || b[2] == 2) && b[3] == 0 {
        "ico"@
    } else if contains(url, ".svg"@) {
        "svg"@
    } else if contains(url, ".ico"@) {
        "ico"@
    } else {
        "png"@
    }
}

pub fn guess_extension(url: &str, bytes: &[u8]) -> (r: &'static str)
    ensures
        r@ == guessed_extension(url@, bytes@),
{
    if bytes.len() >= 4 && bytes[0] == 0x89 && bytes[1] == 0x50 && bytes[2] == 0x4e && bytes[3]
        == 0x47 {
        return "png";
    }
    if (bytes.len() >= 4 && bytes[0] == 0x3c && bytes[1] == 0x73 && bytes[2] == 0x76 && bytes[3]
        == 0x67) || (bytes.len() >= 5 && bytes[0] == 0x3c && bytes[1] == 0x3f && bytes[2] == 0x78
        && bytes[3] == 0x6d && bytes[4] == 0x6c) {
        return "svg";
    }
    if bytes.len() >= 4 && bytes[0] == 0 && bytes[1] == 0 && (bytes[2] == 1 || bytes[2] == 2)
        && bytes[3] == 0 {
        return "ico";
    }
    let u = chars_of(url);
    if contains_chars(&u, &chars_of(".svg")) {
        return "svg";
    }
    if contains_chars(&u, &chars_of(".ico")) {
        return "ico";
    }
    "png"
}


proof fn lemma_abs_diff_sum_symmetric(a: Seq<u8>, b: Seq<u8>)
    ensures
        abs_diff_sum(a, b) == abs_diff_sum(b, a),
    decreases a.len(),
{
    if a.len() > 0 && b.len() > 0 {
        lemma_abs_diff_sum_symmetric(a.drop_last(), b.drop_last());
    }
}

/// Pixel similarity is symmetric: which of two thumbnails came first does
/// not change whether they count as the same picture.
pub proof fn lemma_similar_pixels_symmetric(a: Seq<u8>, b: Seq<u8>)
    ensures
        similar_pixels_spec(a, b) == similar_pixels_spec(b, a),
{
    lemma_abs_diff_sum_symmetric(a, b);
}

} // verus!
