//! URL parsing and resolution, delegated to the `url` crate (WHATWG URL
//! Standard) and exposed to the verified code as plain strings.

use vstd::prelude::*;

verus! {

/// Whether `url::Url::parse` accepts the text.
pub uninterp spec fn url_parse_ok(s: Seq<char>) -> bool;

/// `Url::scheme` of the parsed text.
pub uninterp spec fn url_scheme(s: Seq<char>) -> Seq<char>;

/// `Url::host_str` of the parsed text.
pub uninterp spec fn url_host(s: Seq<char>) -> Option<Seq<char>>;

/// `Url::path` of the parsed text.
pub uninterp spec fn url_path(s: Seq<char>) -> Seq<char>;

/// `Url::parse(base)` followed by `Url::join(href)`, serialized; `None` when
/// either step fails.
pub uninterp spec fn url_join_result(base: Seq<char>, href: Seq<char>) -> Option<Seq<char>>;

/// The components of a parsed URL that the library reads.
pub struct UrlParts {
    pub scheme: String,
    pub host: Option<String>,
    pub path: String,
}

pub open spec fn opt_view(o: Option<String>) -> Option<Seq<char>> {
    match o {
        Some(s) => Some(s@),
        None => None,
    }
}

/// Calls `url::Url::parse` and reads `scheme`, `host_str` and `path` of the
/// result. The contract names each component of the parse of `s`; it states
/// nothing about how the URL Standard computes them.
#[verifier::external_body]
pub(crate) fn parse_url(s: &str) -> (r: Option<UrlParts>)
    ensures
        r is Some <==> url_parse_ok(s@),
        r matches Some(p) ==> p.scheme@ == url_scheme(s@) && opt_view(p.host) == url_host(s@)
            && p.path@ == url_path(s@),
{
    match url::Url::parse(s) {
        Ok(parsed) => Some(
            UrlParts {
                scheme: parsed.scheme().to_string(),
                host: parsed.host_str().map(|host| host.to_string()),
                path: parsed.path().to_string(),
            },
        ),
        Err(_) => None,
    }
}

/// Calls `url::Url::parse(base)` and then `Url::join(href)` on it, and
/// serializes the joined URL. The contract names the outcome
/// `url_join_result(base, href)` and says nothing about how joining works.
#[verifier::external_body]
pub(crate) fn join_url(base: &str, href: &str) -> (r: Option<String>)
    ensures
        opt_view(r) == url_join_result(base@, href@),
{
    url::Url::parse(base).ok()?.join(href).ok().map(|joined| joined.to_string())
}

} // verus!
