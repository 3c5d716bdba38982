//! Header-level image inspection for downloaded icon candidates.
//!
//! Ranking runs on measured pixel dimensions rather than on the `sizes` hints
//! a page declares, so every candidate is decoded just far enough to read its
//! real extent from the container header (PNG, GIF, WebP, JPEG, ICO, SVG).

use vstd::prelude::*;
use crate::svg::{svg_dimensions, svg_dims};
use crate::text::{
    all_ascii, ascii_lowercase, contains, contains_chars, decode_utf8_lossy, to_lowercase, unicode_lowercase, utf8_lossy,
};

verus! {

/// Raster formats that can be measured, plus `Svg` for resolution-independent
/// input.
#[derive(Debug, Clone, Copy, PartialEq, Eq, Structural)]
pub enum ImageFormat {
    Png,
    Svg,
    Ico,
    Jpeg,
    WebP,
    Gif,
    Unknown,
}

/// File extension an asset of the given format is stored under.
pub open spec fn extension_of(f: ImageFormat) -> Seq<char> {
    match f {
        ImageFormat::Png | ImageFormat::Unknown => seq!['p', 'n', 'g'],
        ImageFormat::Svg => seq!['s', 'v', 'g'],
        ImageFormat::Ico => seq!['i', 'c', 'o'],
        ImageFormat::Jpeg => seq!['j', 'p', 'g'],
        ImageFormat::WebP => seq!['w', 'e', 'b', 'p'],
        ImageFormat::Gif => seq!['g', 'i', 'f'],
    }
}

impl ImageFormat {
    /// Extension matching the real container, so a JPEG is never stored as
    /// `.png`. Unmeasurable bytes default to `png`.
    pub fn extension(self) -> (r: &'static str)
        ensures
            r@ == extension_of(self),
    {
        match self {
            ImageFormat::Png | ImageFormat::Unknown => {
                proof {
                    reveal_strlit("png");
                }
                "png"
            },
            ImageFormat::Svg => {
                proof {
                    reveal_strlit("svg");
                }
                "svg"
            },
            ImageFormat::Ico => {
                proof {
                    reveal_strlit("ico");
                }
                "ico"
            },
            ImageFormat::Jpeg => {
                proof {
                    reveal_strlit("jpg");
                }
                "jpg"
            },
            ImageFormat::WebP => {
                proof {
                    reveal_strlit("webp");
                }
                "webp"
            },
            ImageFormat::Gif => {
                proof {
                    reveal_strlit("gif");
                }
                "gif"
            },
        }
    }

    pub fn is_vector(self) -> (b: bool)
        ensures
            b == (self == ImageFormat::Svg),
    {
        matches!(self, ImageFormat::Svg)
    }
}

/// Effective resolution of a vector: it outranks every realistic raster
/// without being treated as literally infinite.
pub const VECTOR_SIDE: u32 = 4096;

// ---------------------------------------------------------------------------
// Integer fields

pub open spec fn le16(b: Seq<u8>, i: int) -> int {
    b[i] + 256 * b[i + 1]
}

pub open spec fn be16(b: Seq<u8>, i: int) -> int {
    256 * b[i] + b[i + 1]
}

pub open spec fn be32(b: Seq<u8>, i: int) -> int {
    16777216 * b[i] + 65536 * b[i + 1] + 256 * b[i + 2] + b[i + 3]
}

pub open spec fn le32(b: Seq<u8>, i: int) -> int {
    b[i] + 256 * b[i + 1] + 65536 * b[i + 2] + 16777216 * b[i + 3]
}

fn read_le16(b: &[u8], i: usize) -> (r: u32)
    requires
        i + 1 < b@.len(),
    ensures
        r == le16(b@, i as int),
{
    (b[i] as u32) + 256 * (b[i + 1] as u32)
}

fn read_be16(b: &[u8], i: usize) -> (r: u32)
    requires
        i + 1 < b@.len(),
    ensures
        r == be16(b@, i as int),
{
    256 * (b[i] as u32) + (b[i + 1] as u32)
}

fn read_le32(b: &[u8], i: usize) -> (r: u32)
    requires
        i + 3 < b@.len(),
    ensures
        r == le32(b@, i as int),
{
    (b[i] as u32) + 256 * (b[i + 1] as u32) + 65536 * (b[i + 2] as u32) + 16777216 * (b[i
        + 3] as u32)
}

/// Big-endian `u32` at `at`, or `None` when fewer than four bytes remain.
pub fn read_u32_be(bytes: &[u8], at: usize) -> (r: Option<u32>)
    requires
        at + 4 <= usize::MAX,
    ensures
        r == (if at + 4 <= bytes@.len() {
            Some(be32(bytes@, at as int) as u32)
        } else {
            None::<u32>
        }),
{
    if at + 4 > bytes.len() {
        return None;
    }
    Some(16777216 * (bytes[at] as u32) + 65536 * (bytes[at + 1] as u32) + 256 * (bytes[at
        + 2] as u32) + (bytes[at + 3] as u32))
}

// ---------------------------------------------------------------------------
// Signatures

pub open spec fn has_png_signature(b: Seq<u8>) -> bool {
    &&& b.len() >= 8
    &&& b[0] == 0x89 && b[1] == 0x50 && b[2] == 0x4e && b[3] == 0x47
    &&& b[4] == 0x0d && b[5] == 0x0a && b[6] == 0x1a && b[7] == 0x0a
}

pub fn png_signature(b: &[u8]) -> (r: bool)
    ensures
        r == has_png_signature(b@),
{
    b.len() >= 8 && b[0] == 0x89 && b[1] == 0x50 && b[2] == 0x4e && b[3] == 0x47 && b[4]
        == 0x0d && b[5] == 0x0a && b[6] == 0x1a && b[7] == 0x0a
}

pub open spec fn has_jpeg_signature(b: Seq<u8>) -> bool {
    b.len() >= 3 && b[0] == 0xff && b[1] == 0xd8 && b[2] == 0xff
}

/// `GIF87a` or `GIF89a`.
pub open spec fn has_gif_signature(b: Seq<u8>) -> bool {
    &&& b.len() >= 6
    &&& b[0] == 0x47 && b[1] == 0x49 && b[2] == 0x46 && b[3] == 0x38
    &&& (b[4] == 0x37 || b[4] == 0x39)
    &&& b[5] == 0x61
}

/// `RIFF....WEBP`.
pub open spec fn has_webp_signature(b: Seq<u8>) -> bool {
    &&& b.len() >= 12
    &&& b[0] == 0x52 && b[1] == 0x49 && b[2] == 0x46 && b[3] == 0x46
    &&& b[8] == 0x57 && b[9] == 0x45 && b[10] == 0x42 && b[11] == 0x50
}

pub open spec fn ico_count(b: Seq<u8>) -> int {
    le16(b, 4)
}

/// An ICO/CUR header is `00 00 <01|02> 00 <count:u16>` with a non-zero count
/// and a directory of `count` 16-byte entries that fits in the data.
pub open spec fn is_ico_header(b: Seq<u8>) -> bool {
    &&& b.len() >= 22
    &&& b[0] == 0 && b[1] == 0 && b[3] == 0
    &&& (b[2] == 1 || b[2] == 2)
    &&& ico_count(b) > 0
    &&& b.len() >= 6 + 16 * ico_count(b)
}

pub fn is_ico(bytes: &[u8]) -> (r: bool)
    ensures
        r == is_ico_header(bytes@),
{
    if bytes.len() < 22 || bytes[0] != 0 || bytes[1] != 0 || bytes[3] != 0 {
        return false;
    }
    if bytes[2] != 1 && bytes[2] != 2 {
        return false;
    }
    let count = read_le16(bytes, 4) as usize;
    count > 0 && bytes.len() >= 6 + count * 16
}

pub open spec fn svg_tag() -> Seq<char> {
    seq!['<', 's', 'v', 'g']
}

fn svg_tag_chars() -> (v: Vec<char>)
    ensures
        v@ == svg_tag(),
{
    let mut v: Vec<char> = Vec::new();
    v.push('<');
    v.push('s');
    v.push('v');
    v.push('g');
    assert(v@ =~= svg_tag());
    v
}

pub open spec fn min_int(a: int, b: int) -> int {
    if a <= b {
        a
    } else {
        b
    }
}

/// SVG detection tolerates an XML declaration, doctype, comments and a BOM
/// before the root element: the first 1024 bytes, decoded and lowercased,
/// must contain `<svg`.
pub open spec fn looks_like_svg_spec(b: Seq<u8>) -> bool {
    contains(
        unicode_lowercase(utf8_lossy(b.subrange(0, min_int(b.len() as int, 1024)))),
        svg_tag(),
    )
}

pub fn looks_like_svg(bytes: &[u8]) -> (r: bool)
    ensures
        r == looks_like_svg_spec(bytes@),
        ({
            let head = utf8_lossy(bytes@.subrange(0, min_int(bytes@.len() as int, 1024)));
            all_ascii(head) ==> r == contains(ascii_lowercase(head), svg_tag())
        }),
{
    let probe_len = if bytes.len() < 1024 {
        bytes.len()
    } else {
        1024
    };
    let head = to_lowercase(&decode_utf8_lossy(&bytes[0..probe_len]));
    let tag = svg_tag_chars();
    contains_chars(&head, &tag)
}

/// Container format recognised from the leading bytes.
pub open spec fn detected_format(b: Seq<u8>) -> ImageFormat {
    if has_png_signature(b) {
        ImageFormat::Png
    } else if has_jpeg_signature(b) {
        ImageFormat::Jpeg
    } else if has_gif_signature(b) {
        ImageFormat::Gif
    } else if has_webp_signature(b) {
        ImageFormat::WebP
    } else if is_ico_header(b) {
        ImageFormat::Ico
    } else if looks_like_svg_spec(b) {
        ImageFormat::Svg
    } else {
        ImageFormat::Unknown
    }
}

pub fn detect_format(bytes: &[u8]) -> (f: ImageFormat)
    ensures
        f == detected_format(bytes@),
{
    if png_signature(bytes) {
        return ImageFormat::Png;
    }
    if bytes.len() >= 3 && bytes[0] == 0xff && bytes[1] == 0xd8 && bytes[2] == 0xff {
        return ImageFormat::Jpeg;
    }
    if bytes.len() >= 6 && bytes[0] == 0x47 && bytes[1] == 0x49 && bytes[2] == 0x46 && bytes[3]
        == 0x38 && (bytes[4] == 0x37 || bytes[4] == 0x39) && bytes[5] == 0x61 {
        return ImageFormat::Gif;
    }
    if bytes.len() >= 12 && bytes[0] == 0x52 && bytes[1] == 0x49 && bytes[2] == 0x46
        && bytes[3] == 0x46 && bytes[8] == 0x57 && bytes[9] == 0x45 && bytes[10] == 0x42
        && bytes[11] == 0x50 {
        return ImageFormat::WebP;
    }
    if is_ico(bytes) {
        return ImageFormat::Ico;
    }
    if looks_like_svg(bytes) {
        return ImageFormat::Svg;
    }
    ImageFormat::Unknown
}

// ---------------------------------------------------------------------------
// Dimensions

/// Measured extent of an asset.
#[derive(Debug, Clone, Copy, PartialEq, Eq, Structural)]
pub struct Dimensions {
    pub width: u32,
    pub height: u32,
}

/// `Some` extent exactly when both edges are non-zero.
pub open spec fn dims_new(width: u32, height: u32) -> Option<Dimensions> {
    if width > 0 && height > 0 {
        Some(Dimensions { width, height })
    } else {
        None
    }
}

/// The shorter edge: a launcher tile is square, so the excess on the long
/// edge is padding, not resolution.
pub open spec fn side_of(d: Dimensions) -> u32 {
    if d.width <= d.height {
        d.width
    } else {
        d.height
    }
}

pub open spec fn long_edge(d: Dimensions) -> u32 {
    if d.width <= d.height {
        d.height
    } else {
        d.width
    }
}

/// Aspect-ratio gate separating an app icon from an `og:image` share card:
/// long edge / short edge must not exceed 1.25 (5/4).
pub open spec fn square_ish(d: Dimensions) -> bool {
    4 * long_edge(d) <= 5 * side_of(d)
}

impl Dimensions {
    pub fn new(width: u32, height: u32) -> (r: Option<Self>)
        ensures
            r == dims_new(width, height),
    {
        if width > 0 && height > 0 {
            Some(Dimensions { width, height })
        } else {
            None
        }
    }

    pub fn side(self) -> (r: u32)
        ensures
            r == side_of(self),
    {
        if self.width <= self.height {
            self.width
        } else {
            self.height
        }
    }

    pub fn is_square_ish(self) -> (r: bool)
        ensures
            r == square_ish(self),
    {
        let long: u64 = if self.width <= self.height {
            self.height as u64
        } else {
            self.width as u64
        };
        let short: u64 = if self.width <= self.height {
            self.width as u64
        } else {
            self.height as u64
        };
        4 * long <= 5 * short
    }
}

// ---------------------------------------------------------------------------
// PNG, GIF, WebP

/// `IHDR` at bytes 12..16, width and height as big-endian `u32` at 16 and 20.
pub open spec fn png_dims(b: Seq<u8>) -> Option<Dimensions> {
    if b.len() < 16 || !(b[12] == 0x49 && b[13] == 0x48 && b[14] == 0x44 && b[15] == 0x52) {
        None
    } else if b.len() < 24 {
        None
    } else {
        dims_new(be32(b, 16) as u32, be32(b, 20) as u32)
    }
}

pub fn png_dimensions(bytes: &[u8]) -> (r: Option<Dimensions>)
    ensures
        r == png_dims(bytes@),
{
    if bytes.len() < 16 || !(bytes[12] == 0x49 && bytes[13] == 0x48 && bytes[14] == 0x44
        && bytes[15] == 0x52) {
        return None;
    }
    let width = match read_u32_be(bytes, 16) {
        Some(w) => w,
        None => return None,
    };
    let height = match read_u32_be(bytes, 20) {
        Some(h) => h,
        None => return None,
    };
    Dimensions::new(width, height)
}

pub open spec fn png_side_spec(b: Seq<u8>) -> Option<u32> {
    match png_dims(b) {
        Some(d) => Some(side_of(d)),
        None => None,
    }
}

pub fn png_side(bytes: &[u8]) -> (r: Option<u32>)
    ensures
        r == png_side_spec(bytes@),
{
    match png_dimensions(bytes) {
        Some(d) => Some(d.side()),
        None => None,
    }
}

/// Logical screen width and height, little-endian `u16` at 6 and 8.
pub open spec fn gif_dims(b: Seq<u8>) -> Option<Dimensions> {
    if b.len() < 10 {
        None
    } else {
        dims_new(le16(b, 6) as u32, le16(b, 8) as u32)
    }
}

pub fn gif_dimensions(bytes: &[u8]) -> (r: Option<Dimensions>)
    ensures
        r == gif_dims(bytes@),
{
    if bytes.len() < 10 {
        return None;
    }
    Dimensions::new(read_le16(bytes, 6), read_le16(bytes, 8))
}

/// WebP stores dimensions per chunk type: `VP8 ` (lossy) as 14-bit fields of
/// the keyframe header, `VP8L` (lossless) as 14-bit fields of a packed
/// little-endian `u32`, `VP8X` (extended) as two 24-bit "minus one" values.
pub open spec fn webp_dims(b: Seq<u8>) -> Option<Dimensions> {
    if b.len() < 16 {
        None
    } else if b[12] == 0x56 && b[13] == 0x50 && b[14] == 0x38 && b[15] == 0x20 {
        if b.len() < 30 {
            None
        } else {
            dims_new((le16(b, 26) % 16384) as u32, (le16(b, 28) % 16384) as u32)
        }
    } else if b[12] == 0x56 && b[13] == 0x50 && b[14] == 0x38 && b[15] == 0x4c {
        if b.len() < 25 {
            None
        } else {
            let packed = le32(b, 21);
            dims_new((packed % 16384 + 1) as u32, ((packed / 16384) % 16384 + 1) as u32)
        }
    } else if b[12] == 0x56 && b[13] == 0x50 && b[14] == 0x38 && b[15] == 0x58 {
        if b.len() < 30 {
            None
        } else {
            dims_new(
                (b[24] + 256 * b[25] + 65536 * b[26] + 1) as u32,
                (b[27] + 256 * b[28] + 65536 * b[29] + 1) as u32,
            )
        }
    } else {
        None
    }
}

pub fn webp_dimensions(bytes: &[u8]) -> (r: Option<Dimensions>)
    ensures
        r == webp_dims(bytes@),
{
    if bytes.len() < 16 {
        return None;
    }
    if bytes[12] == 0x56 && bytes[13] == 0x50 && bytes[14] == 0x38 && bytes[15] == 0x20 {
        if bytes.len() < 30 {
            return None;
        }
        let width = read_le16(bytes, 26) % 16384;
        let height = read_le16(bytes, 28) % 16384;
        Dimensions::new(width, height)
    } else if bytes[12] == 0x56 && bytes[13] == 0x50 && bytes[14] == 0x38 && bytes[15] == 0x4c {
        if bytes.len() < 25 {
            return None;
        }
        let packed = read_le32(bytes, 21);
        Dimensions::new(packed % 16384 + 1, (packed / 16384) % 16384 + 1)
    } else if bytes[12] == 0x56 && bytes[13] == 0x50 && bytes[14] == 0x38 && bytes[15] == 0x58 {
        if bytes.len() < 30 {
            return None;
        }
        let width = (bytes[24] as u32) + 256 * (bytes[25] as u32) + 65536 * (bytes[26] as u32)
            + 1;
        let height = (bytes[27] as u32) + 256 * (bytes[28] as u32) + 65536 * (bytes[29] as u32)
            + 1;
        Dimensions::new(width, height)
    } else {
        None
    }
}

// ---------------------------------------------------------------------------
// JPEG

/// First index at or after `c` that does not hold a `0xFF` fill byte.
pub open spec fn skip_fill(b: Seq<u8>, c: int) -> int
    decreases b.len() - c,
{
    if 0 <= c < b.len() && b[c] == 0xff {
        skip_fill(b, c + 1)
    } else {
        c
    }
}

/// Start-Of-Frame markers: every marker in `0xC0..=0xCF` except DHT (`0xC4`),
/// JPG (`0xC8`) and DAC (`0xCC`).
pub open spec fn is_sof(m: u8) -> bool {
    0xc0 <= m <= 0xcf && m != 0xc4 && m != 0xc8 && m != 0xcc
}

/// Payload-less markers (`0x01`, `0xD0`..=`0xD9`) that carry no length word.
pub open spec fn is_standalone_marker(m: u8) -> bool {
    m == 0x01 || (0xd0 <= m <= 0xd9)
}

/// Walk of the JPEG marker chain from `c` until a Start-Of-Frame carrying the
/// dimensions (height at +3, width at +5 after the marker, big-endian).
pub open spec fn jpeg_scan(b: Seq<u8>, c: int) -> Option<Dimensions>
    decreases b.len() - c,
{
    if c < 0 {
        None
    } else {
        let m = skip_fill(b, c);
        if !(c <= m < b.len()) {
            None
        } else {
            let marker = b[m];
            let at = m + 1;
            if is_standalone_marker(marker) {
                jpeg_scan(b, at)
            } else if at + 1 >= b.len() {
                None
            } else if is_sof(marker) {
                if at + 6 >= b.len() {
                    None
                } else {
                    dims_new(be16(b, at + 5) as u32, be16(b, at + 3) as u32)
                }
            } else if be16(b, at) < 2 || at + be16(b, at) >= b.len() {
                None
            } else {
                jpeg_scan(b, at + be16(b, at))
            }
        }
    }
}

proof fn lemma_skip_fill_bounds(b: Seq<u8>, c: int)
    requires
        0 <= c,
    ensures
        c <= skip_fill(b, c),
        skip_fill(b, c) < b.len() ==> b[skip_fill(b, c)] != 0xff,
        c <= b.len() ==> skip_fill(b, c) <= b.len(),
    decreases b.len() - c,
{
    if 0 <= c < b.len() && b[c] == 0xff {
        lemma_skip_fill_bounds(b, c + 1);
    }
}

pub open spec fn jpeg_dims(b: Seq<u8>) -> Option<Dimensions> {
    jpeg_scan(b, 2)
}

pub fn jpeg_dimensions(bytes: &[u8]) -> (r: Option<Dimensions>)
    ensures
        r == jpeg_dims(bytes@),
{
    let n = bytes.len();
    let mut cursor: usize = 2;
    loop
        invariant
            n == bytes@.len(),
            2 <= cursor,
            jpeg_scan(bytes@, 2) == jpeg_scan(bytes@, cursor as int),
        decreases n + 1 - cursor,
    {
        proof {
            lemma_skip_fill_bounds(bytes@, cursor as int);
        }
        let ghost start = cursor;
        while cursor < n && bytes[cursor] == 0xff
            invariant
                n == bytes@.len(),
                start <= cursor,
                skip_fill(bytes@, start as int) == skip_fill(bytes@, cursor as int),
            decreases n - cursor,
        {
            cursor = cursor + 1;
        }
        if cursor >= n {
            return None;
        }
        let marker = bytes[cursor];
        let at = cursor + 1;
        if marker == 0x01 || (0xd0 <= marker && marker <= 0xd9) {
            cursor = at;
            continue ;
        }
        if n - at <= 1 {
            return None;
        }
        let length = read_be16(bytes, at) as usize;
        if 0xc0 <= marker && marker <= 0xcf && marker != 0xc4 && marker != 0xc8 && marker
            != 0xcc {
            if n - at <= 6 {
                return None;
            }
            let height = read_be16(bytes, at + 3);
            let width = read_be16(bytes, at + 5);
            return Dimensions::new(width, height);
        }
        if length < 2 || length >= n - at {
            return None;
        }
        cursor = at + length;
    }
}

// ---------------------------------------------------------------------------
// ICO

/// A stored 0 encodes 256: the field is a single byte.
pub open spec fn ico_dim(x: u8) -> int {
    if x == 0 {
        256
    } else {
        x as int
    }
}

pub open spec fn ico_entry(i: int) -> int {
    6 + 16 * i
}

/// Square side of directory entry `i`: the smaller of its declared edges.
pub open spec fn ico_frame_side(b: Seq<u8>, i: int) -> int {
    min_int(ico_dim(b[ico_entry(i)]), ico_dim(b[ico_entry(i) + 1]))
}

pub open spec fn ico_frame_size(b: Seq<u8>, i: int) -> int {
    le32(b, ico_entry(i) + 8)
}

pub open spec fn ico_frame_offset(b: Seq<u8>, i: int) -> int {
    le32(b, ico_entry(i) + 12)
}

/// An entry whose payload end does not fit in `usize` is dropped.
pub open spec fn ico_frame_present(b: Seq<u8>, i: int) -> bool {
    ico_frame_offset(b, i) + ico_frame_size(b, i) <= usize::MAX
}

pub open spec fn ico_payload_in_bounds(b: Seq<u8>, i: int) -> bool {
    ico_frame_offset(b, i) + ico_frame_size(b, i) <= b.len()
}

pub open spec fn ico_payload(b: Seq<u8>, i: int) -> Seq<u8> {
    b.subrange(ico_frame_offset(b, i), ico_frame_offset(b, i) + ico_frame_size(b, i))
}

/// The payload is a complete embedded PNG with a readable header.
pub open spec fn ico_embedded_png(b: Seq<u8>, i: int) -> bool {
    &&& ico_payload_in_bounds(b, i)
    &&& has_png_signature(ico_payload(b, i))
    &&& png_dims(ico_payload(b, i)) is Some
}

/// Ranking key of a frame: an embedded PNG's own header is trusted over a
/// possibly stale directory byte; the directory side is used only for frames
/// without a readable embedded PNG (BMP frames).
pub open spec fn ico_frame_key(b: Seq<u8>, i: int) -> int {
    if ico_embedded_png(b, i) {
        png_side_spec(ico_payload(b, i))->0 as int
    } else {
        ico_frame_side(b, i)
    }
}

/// Index of the best frame among entries `0..k`: maximal key, and on ties the
/// later entry (as `Iterator::max_by_key` does).
pub open spec fn ico_best_upto(b: Seq<u8>, k: int) -> Option<int>
    decreases k,
{
    if k <= 0 {
        None
    } else {
        let prev = ico_best_upto(b, k - 1);
        if !ico_frame_present(b, k - 1) {
            prev
        } else {
            match prev {
                None => Some(k - 1),
                Some(p) => if ico_frame_key(b, k - 1) >= ico_frame_key(b, p) {
                    Some(k - 1)
                } else {
                    Some(p)
                },
            }
        }
    }
}

pub open spec fn ico_best_frame(b: Seq<u8>) -> Option<int> {
    if is_ico_header(b) {
        ico_best_upto(b, ico_count(b))
    } else {
        None
    }
}

/// One entry of an ICO directory, resolved to its payload.
#[derive(Debug)]
pub struct IcoFrame<'a> {
    /// Square side in pixels, from the directory.
    pub side: u32,
    /// Zero-based directory index.
    pub index: usize,
    /// Payload when it is a whole embedded PNG; `None` for BMP-encoded frames.
    pub embedded_png: Option<&'a [u8]>,
}

/// What `largest_ico_frame` reports for directory entry `i`.
pub open spec fn frame_matches(f: IcoFrame, b: Seq<u8>, i: int) -> bool {
    &&& f.index == i
    &&& f.side == ico_frame_side(b, i)
    &&& (f.embedded_png is Some <==> ico_embedded_png(b, i))
    &&& (f.embedded_png matches Some(d) ==> d@ == ico_payload(b, i))
}

proof fn lemma_ico_best_upto_range(b: Seq<u8>, k: int)
    ensures
        ico_best_upto(b, k) matches Some(i) ==> 0 <= i < k && ico_frame_present(b, i),
    decreases k,
{
    if k > 0 {
        lemma_ico_best_upto_range(b, k - 1);
    }
}

fn ico_frame_at<'a>(bytes: &'a [u8], index: usize) -> (r: Option<IcoFrame<'a>>)
    requires
        is_ico_header(bytes@),
        index < ico_count(bytes@),
    ensures
        r is Some <==> ico_frame_present(bytes@, index as int),
        r matches Some(f) ==> frame_matches(f, bytes@, index as int),
{
    let base = 6 + index * 16;
    let w = bytes[base];
    let h = bytes[base + 1];
    let width: u32 = if w == 0 {
        256
    } else {
        w as u32
    };
    let height: u32 = if h == 0 {
        256
    } else {
        h as u32
    };
    let size = read_le32(bytes, base + 8) as usize;
    let offset = read_le32(bytes, base + 12) as usize;
    let end = match offset.checked_add(size) {
        Some(e) => e,
        None => return None,
    };
    let embedded: Option<&'a [u8]> = if end <= bytes.len() {
        let data = &bytes[offset..end];
        if png_signature(data) && png_side(data).is_some() {
            Some(data)
        } else {
            None
        }
    } else {
        None
    };
    let side = if width <= height {
        width
    } else {
        height
    };
    Some(IcoFrame { side, index, embedded_png: embedded })
}

fn frame_key(f: &IcoFrame) -> (k: u32)
    ensures
        f.embedded_png matches Some(d) ==> png_side_spec(d@) matches Some(p) ==> k == p,
        f.embedded_png matches Some(d) ==> png_side_spec(d@) is None ==> k == f.side,
        f.embedded_png is None ==> k == f.side,
{
    match f.embedded_png {
        Some(d) => match png_side(d) {
            Some(p) => p,
            None => f.side,
        },
        None => f.side,
    }
}

/// Pick the highest-resolution frame of a multi-size ICO, naming the largest
/// frame explicitly rather than whichever one a decoder returns first.
pub fn largest_ico_frame<'a>(bytes: &'a [u8]) -> (r: Option<IcoFrame<'a>>)
    ensures
        r is Some <==> ico_best_frame(bytes@) is Some,
        r matches Some(f) ==> frame_matches(f, bytes@, ico_best_frame(bytes@)->0),
{
    if !is_ico(bytes) {
        return None;
    }
    let count = read_le16(bytes, 4) as usize;
    let mut best: Option<IcoFrame<'a>> = None;
    let mut best_key: u32 = 0;
    let mut i: usize = 0;
    while i < count
        invariant
            is_ico_header(bytes@),
            count == ico_count(bytes@),
            i <= count,
            best is Some <==> ico_best_upto(bytes@, i as int) is Some,
            best matches Some(f) ==> frame_matches(f, bytes@, ico_best_upto(bytes@, i as int)->0)
                && best_key == ico_frame_key(bytes@, f.index as int),
        decreases count - i,
    {
        proof {
            lemma_ico_best_upto_range(bytes@, i as int);
        }
        match ico_frame_at(bytes, i) {
            Some(frame) => {
                let key = frame_key(&frame);
                assert(key == ico_frame_key(bytes@, i as int));
                let replace = match &best {
                    Some(_) => key >= best_key,
                    None => true,
                };
                if replace {
                    best = Some(frame);
                    best_key = key;
                }
            },
            None => {},
        }
        i = i + 1;
    }
    best
}

/// The chosen frame has a maximal key among the present entries, and no later
/// entry ties it.
pub proof fn lemma_ico_best_is_largest(b: Seq<u8>, k: int)
    requires
        0 <= k,
    ensures
        ico_best_upto(b, k) matches Some(i) ==> {
            &&& 0 <= i < k
            &&& ico_frame_present(b, i)
            &&& forall|j: int|
                0 <= j < k && ico_frame_present(b, j) ==> ico_frame_key(b, j) <= ico_frame_key(
                    b,
                    i,
                )
            &&& forall|j: int|
                i < j < k && ico_frame_present(b, j) ==> ico_frame_key(b, j) < ico_frame_key(b, i)
        },
        ico_best_upto(b, k) is None ==> forall|j: int| 0 <= j < k ==> !ico_frame_present(b, j),
    decreases k,
{
    if k > 0 {
        lemma_ico_best_is_largest(b, k - 1);
    }
}

// ---------------------------------------------------------------------------
// Measuring

/// Pixel extent of an asset of the given format, or `None` when the header is
/// unparseable. An ICO measures as its best frame's directory side.
pub open spec fn measured(b: Seq<u8>, f: ImageFormat) -> Option<Dimensions> {
    match f {
        ImageFormat::Svg => Some(svg_dims(b)),
        ImageFormat::Png => png_dims(b),
        ImageFormat::Ico => match ico_best_frame(b) {
            Some(i) => dims_new(ico_frame_side(b, i) as u32, ico_frame_side(b, i) as u32),
            None => None,
        },
        ImageFormat::Jpeg => jpeg_dims(b),
        ImageFormat::WebP => webp_dims(b),
        ImageFormat::Gif => gif_dims(b),
        ImageFormat::Unknown => None,
    }
}

/// A WebP is measured from the header of its first chunk (at byte 12):
/// a lossy `VP8 ` frame gives the 14-bit width and height stored
/// little-endian at bytes 26 and 28 (their top two bits are scaling bits);
/// a lossless `VP8L` one the two 14-bit fields, each stored minus one, packed
/// from byte 21; an extended `VP8X` one the 24-bit canvas width and height,
/// each stored minus one, at bytes 24 and 27. A zero edge measures nothing.
pub proof fn lemma_webp_measured_from_chunk_header(b: Seq<u8>)
    requires
        b.len() >= 30,
    ensures
        b[12] == 0x56 && b[13] == 0x50 && b[14] == 0x38 && b[15] == 0x20 ==> ({
            let w = (b[26] + 256 * b[27]) % 16384;
            let h = (b[28] + 256 * b[29]) % 16384;
            &&& w > 0 && h > 0 ==> measured(b, ImageFormat::WebP) == Some(
                Dimensions { width: w as u32, height: h as u32 },
            )
            &&& w == 0 || h == 0 ==> measured(b, ImageFormat::WebP) is None
        }),
        b[12] == 0x56 && b[13] == 0x50 && b[14] == 0x38 && b[15] == 0x4c ==> ({
            let packed = b[21] + 256 * b[22] + 65536 * b[23] + 16777216 * b[24];
            measured(b, ImageFormat::WebP) == Some(
                Dimensions {
                    width: (packed % 16384 + 1) as u32,
                    height: ((packed / 16384) % 16384 + 1) as u32,
                },
            )
        }),
        b[12] == 0x56 && b[13] == 0x50 && b[14] == 0x38 && b[15] == 0x58 ==> measured(
            b,
            ImageFormat::WebP,
        ) == Some(
            Dimensions {
                width: (b[24] + 256 * b[25] + 65536 * b[26] + 1) as u32,
                height: (b[27] + 256 * b[28] + 65536 * b[29] + 1) as u32,
            },
        ),
{
    let packed = b[21] + 256 * b[22] + 65536 * b[23] + 16777216 * b[24];
    assert(0 <= packed % 16384 < 16384);
    assert(0 <= packed / 16384 && (packed / 16384) % 16384 < 16384);
    assert(b[24] + 256 * b[25] + 65536 * b[26] + 1 <= 16777216);
    assert(b[27] + 256 * b[28] + 65536 * b[29] + 1 <= 16777216);
}

pub fn measure(bytes: &[u8], format: ImageFormat) -> (r: Option<Dimensions>)
    ensures
        r == measured(bytes@, format),
{
    match format {
        ImageFormat::Svg => Some(svg_dimensions(bytes)),
        ImageFormat::Png => png_dimensions(bytes),
        ImageFormat::Ico => match largest_ico_frame(bytes) {
            Some(frame) => Dimensions::new(frame.side, frame.side),
            None => None,
        },
        ImageFormat::Jpeg => jpeg_dimensions(bytes),
        ImageFormat::WebP => webp_dimensions(bytes),
        ImageFormat::Gif => gif_dimensions(bytes),
        ImageFormat::Unknown => None,
    }
}

/// The square side an asset can fill, when it can be measured.
pub fn measure_side(bytes: &[u8], format: ImageFormat) -> (r: Option<u32>)
    ensures
        r == (match measured(bytes@, format) {
            Some(d) => Some(side_of(d)),
            None => None::<u32>,
        }),
{
    match measure(bytes, format) {
        Some(d) => Some(d.side()),
        None => None,
    }
}


/// The icon-shape gate and the usable side do not depend on orientation: a
/// tall image is judged as its wide twin.
pub proof fn lemma_shape_ignores_orientation(width: u32, height: u32)
    ensures
        square_ish(Dimensions { width, height }) == square_ish(Dimensions { width: height, height: width }),
        side_of(Dimensions { width, height }) == side_of(Dimensions { width: height, height: width }),
{
}

} // verus!
