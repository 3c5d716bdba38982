//! Checks on what the user types into the web-app dialog.

use vstd::prelude::*;
use crate::text::{chars_equal, chars_of, contains, contains_chars, has_prefix, starts_with, string_from, trim, trimmed};
use vstd::utf8::encode_utf8;
use crate::weburl::{parse_url, url_parse_ok};

verus! {

/// Whether text typed as a URL looks enough like one to start detecting the
/// site's title and icon: at least 4 bytes after trimming, and either an
/// `http://`, `https://` or `file://` URL (so `http://localhost:8080` counts)
/// or a dotted name.
pub open spec fn auto_detect_wanted(text: Seq<char>) -> bool {
    let t = trim(text);
    if encode_utf8(t).len() < 4 {
        false
    } else if starts_with(t, "http://"@) || starts_with(t, "https://"@) || starts_with(t, "file://"@) {
        true
    } else {
        contains(t, "."@)
    }
}

pub fn should_auto_detect(text: &str) -> (b: bool)
    ensures
        b == auto_detect_wanted(text@),
{
    let t = trimmed(chars_of(text).as_slice());
    let s = string_from(t.as_slice());
    if s.as_str().as_bytes().len() < 4 {
        return false;
    }
    if has_prefix(&t, &chars_of("http://")) || has_prefix(&t, &chars_of("https://")) || has_prefix(
        &t,
        &chars_of("file://"),
    ) {
        return true;
    }
    contains_chars(&t, &chars_of("."))
}

/// Why a web app cannot be saved.
#[derive(Debug, Clone, Copy, PartialEq, Eq, Structural)]
pub enum SaveValidationError {
    EmptyName,
    EmptyUrl,
    InvalidUrl,
}

/// A URL typed with an `http://`, `https://` or `file://` scheme.
pub open spec fn has_known_scheme(t: Seq<char>) -> bool {
    starts_with(t, "http://"@) || starts_with(t, "https://"@) || starts_with(t, "file://"@)
}

/// The URL a web app is saved with: the typed text trimmed, with `https://`
/// put in front when it names no known scheme. Refused when the name or the
/// URL is blank, or when the result does not parse as a URL.
pub open spec fn normalized_app_url(name: Seq<char>, url: Seq<char>) -> Result<Seq<char>, SaveValidationError> {
    if trim(name).len() == 0 {
        Err(SaveValidationError::EmptyName)
    } else if trim(url).len() == 0 {
        Err(SaveValidationError::EmptyUrl)
    } else {
        let t = trim(url);
        let n = if has_known_scheme(t) {
            t
        } else {
            "https://"@ + t
        };
        if url_parse_ok(n) {
            Ok(n)
        } else {
            Err(SaveValidationError::InvalidUrl)
        }
    }
}

pub fn normalize_app_url(name: &str, url: &str) -> (r: Result<String, SaveValidationError>)
    ensures
        match r {
            Ok(u) => normalized_app_url(name@, url@) == Ok::<Seq<char>, SaveValidationError>(u@),
            Err(e) => normalized_app_url(name@, url@) == Err::<Seq<char>, SaveValidationError>(e),
        },
{
    if trimmed(chars_of(name).as_slice()).len() == 0 {
        return Err(SaveValidationError::EmptyName);
    }
    let t = trimmed(chars_of(url).as_slice());
    if t.len() == 0 {
        return Err(SaveValidationError::EmptyUrl);
    }
    let known = has_prefix(&t, &chars_of("http://")) || has_prefix(&t, &chars_of("https://"))
        || has_prefix(&t, &chars_of("file://"));
    let mut n: Vec<char> = Vec::new();
    if !known {
        n.extend_from_slice(chars_of("https://").as_slice());
    }
    let ghost head = n@;
    n.extend_from_slice(t.as_slice());
    assert(n@ =~= head + t@);
    proof {
        if known {
            assert(head.len() == 0);
            assert(n@ =~= t@);
        } else {
            assert(head == "https://"@);
        }
        assert(known == has_known_scheme(t@));
    }
    let text = string_from(n.as_slice());
    match parse_url(text.as_str()) {
        Some(_) => Ok(text),
        None => Err(SaveValidationError::InvalidUrl),
    }
}

// ---------------------------------------------------------------------------
// Site detection in the dialog

/// The detection request counter after one step (editing the URL, starting
/// a detection or closing the dialog): it wraps around at the top.
pub fn next_generation(g: u64) -> (r: u64)
    ensures
        r == (if g == u64::MAX { 0 } else { g + 1 }),
{
    if g == u64::MAX {
        0
    } else {
        g + 1
    }
}

/// What a finished detection does to the dialog.
#[derive(Debug)]
pub struct DetectionUpdate {
    /// The result belongs to an older request (the URL changed, a newer
    /// detection started or the dialog closed) and is dropped.
    pub stale: bool,
    /// The title to fill in as the app's name.
    pub name: Option<String>,
    /// Whether the first detected icon becomes the app's icon.
    pub take_first_icon: bool,
}

/// Whether a finished detection fills in the name: it is current, the name
/// was empty when it started and still is, and a title was found.
pub open spec fn fills_name(current: u64, request: u64, original_name: Seq<char>, name: Seq<char>, title: Seq<char>) -> bool {
    current == request && original_name.len() == 0 && name.len() == 0 && title.len() > 0
}

/// Whether a finished detection sets the icon: it is current, it found an
/// icon, and the icon was not changed by hand while it ran.
pub open spec fn takes_icon(current: u64, request: u64, icon_count: nat, original_icon: Seq<char>, icon: Seq<char>) -> bool {
    current == request && icon_count > 0 && icon == original_icon
}

/// The decision made when the detection started as request `request`
/// finishes while the counter stands at `current`: `original_name` and
/// `original_icon` are what the app had when it started, `name` and `icon`
/// what it has now, `title` and `icon_count` what was found.
pub fn detection_update(
    current: u64,
    request: u64,
    original_name: &str,
    name: &str,
    title: &str,
    icon_count: usize,
    original_icon: &str,
    icon: &str,
) -> (r: DetectionUpdate)
    ensures
        r.stale == (current != request),
        r.name is Some <==> fills_name(current, request, original_name@, name@, title@),
        r.name matches Some(t) ==> t@ == title@,
        r.take_first_icon == takes_icon(current, request, icon_count as nat, original_icon@, icon@),
{
    if current != request {
        return DetectionUpdate { stale: true, name: None, take_first_icon: false };
    }
    let fill = chars_of(original_name).len() == 0 && chars_of(name).len() == 0 && chars_of(title).len() > 0;
    let take = icon_count > 0 && chars_equal(chars_of(icon).as_slice(), chars_of(original_icon).as_slice());
    DetectionUpdate {
        stale: false,
        name: if fill {
            Some(title.to_string())
        } else {
            None
        },
        take_first_icon: take,
    }
}

} // verus!
