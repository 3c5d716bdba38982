//! The URL a Chromium-family browser ends up showing once redirects are
//! followed, the `Accept-Language` it sends, and a compact display form of a
//! URL.
//!
//! Chromium derives a window's Wayland app id from the URL it is showing, not
//! the one passed to `--app`; sites that redirect by language (say
//! `open.spotify.com/` to `/intl-pt/`) would otherwise make that id differ
//! from the desktop entry's name.

use vstd::prelude::*;
use std::time::Duration;
use crate::text::{
    chars_of, chars_eq_ignore_ascii_case, chars_equal, eq_ignore_ascii_case, has_prefix,
    split_char, split_on_char, string_from, starts_with, lemma_split_by_nonempty, is_either,
};
use crate::weburl::{parse_url, url_host, url_parse_ok, url_path, url_scheme};
use crate::site::is_http_scheme;
use crate::http::{http_get_stream_with_extra_headers, HttpError, RequestHeaders, StreamResponse};

verus! {

// ---------------------------------------------------------------------------
// Accept-Language

/// `s` with each `_` turned into `-`.
pub open spec fn underscores_to_hyphens(s: Seq<char>) -> Seq<char> {
    s.map_values(|c: char| if c == '_' { '-' } else { c })
}

/// The text before the first `c` (all of it when there is none).
pub open spec fn before_first(s: Seq<char>, c: char) -> Seq<char> {
    split_char(s, c)[0]
}

/// The `Accept-Language` value Chromium sends for a POSIX `LANG` value such
/// as `pt_BR.UTF-8`; empty for the `C` and `POSIX` locales and an empty
/// `LANG`, meaning that no header is to be sent.
pub open spec fn accept_language(lang: Seq<char>) -> Seq<char> {
    let base = underscores_to_hyphens(before_first(lang, '.'));
    if base.len() == 0 || eq_ignore_ascii_case(base, "C"@) || eq_ignore_ascii_case(base, "POSIX"@) {
        Seq::empty()
    } else {
        let primary = before_first(base, '-');
        if primary == base {
            base + ",en;q=0.8"@
        } else {
            base + ","@ + primary + ";q=0.9,en;q=0.8"@
        }
    }
}

pub(crate) fn first_piece(s: &[char], c: char) -> (r: Vec<char>)
    ensures
        r@ == before_first(s@, c),
{
    proof {
        lemma_split_by_nonempty(s@, is_either(c, c));
    }
    let mut pieces = split_on_char(s, c);
    assert(pieces@.len() >= 1);
    pieces.swap_remove(0)
}

pub(crate) fn append(out: &mut Vec<char>, s: &[char])
    ensures
        final(out)@ == old(out)@ + s@,
{
    let ghost start = out@;
    out.extend_from_slice(s);
    assert(out@ =~= start + s@);
}

/// Converts a POSIX `LANG` value (`pt_BR.UTF-8`) into the `Accept-Language`
/// value Chromium sends (`pt-BR,pt;q=0.9,en;q=0.8`). An empty result means
/// no override: the header is not to be set.
pub fn derive_accept_language(lang: &str) -> (r: String)
    ensures
        r@ == accept_language(lang@),
{
    let head = first_piece(chars_of(lang).as_slice(), '.');
    let mut base: Vec<char> = Vec::new();
    let mut i: usize = 0;
    while i < head.len()
        invariant
            0 <= i <= head.len(),
            base@ == underscores_to_hyphens(head@.take(i as int)),
        decreases head.len() - i,
    {
        let c = head[i];
        base.push(if c == '_' { '-' } else { c });
        assert(base@ =~= underscores_to_hyphens(head@.take(i as int + 1)));
        i = i + 1;
    }
    assert(head@.take(head@.len() as int) =~= head@);
    if base.len() == 0 || chars_eq_ignore_ascii_case(&base, &chars_of("C")) || chars_eq_ignore_ascii_case(
        &base,
        &chars_of("POSIX"),
    ) {
        return String::new();
    }
    let primary = first_piece(base.as_slice(), '-');
    let mut out: Vec<char> = Vec::new();
    append(&mut out, base.as_slice());
    if chars_equal(&primary, &base) {
        append(&mut out, chars_of(",en;q=0.8").as_slice());
    } else {
        append(&mut out, chars_of(",").as_slice());
        append(&mut out, primary.as_slice());
        append(&mut out, chars_of(";q=0.9,en;q=0.8").as_slice());
    }
    string_from(out.as_slice())
}

// ---------------------------------------------------------------------------
// URLs

/// Only `http` and `https` URLs are worth following.
pub open spec fn redirectable(url: Seq<char>) -> bool {
    url_parse_ok(url) && is_http_scheme(url_scheme(url))
}

pub fn is_redirectable_url(url: &str) -> (b: bool)
    ensures
        b == redirectable(url@),
{
    match parse_url(url) {
        Some(parts) => {
            let scheme = chars_of(parts.scheme.as_str());
            chars_equal(&scheme, &chars_of("http")) || chars_equal(&scheme, &chars_of("https"))
        },
        None => false,
    }
}

/// `s` without any trailing `/`.
pub open spec fn trim_trailing_slashes(s: Seq<char>) -> Seq<char>
    decreases s.len(),
{
    if s.len() > 0 && s.last() == '/' {
        trim_trailing_slashes(s.drop_last())
    } else {
        s
    }
}

/// Host and path of a URL, without scheme, query, fragment, a leading `www.`
/// and trailing slashes; the text itself when it has no parsable host.
pub open spec fn display_form(url: Seq<char>) -> Seq<char> {
    if !url_parse_ok(url) {
        url
    } else {
        match url_host(url) {
            None => url,
            Some(host) => {
                let h = if starts_with(host, "www."@) {
                    host.skip(4)
                } else {
                    host
                };
                h + trim_trailing_slashes(url_path(url))
            },
        }
    }
}

fn trimmed_trailing_slashes(s: &[char]) -> (r: Vec<char>)
    ensures
        r@ == trim_trailing_slashes(s@),
{
    let mut n = s.len();
    assert(s@.take(n as int) =~= s@);
    while n > 0 && s[n - 1] == '/'
        invariant
            n <= s.len(),
            trim_trailing_slashes(s@.take(n as int)) == trim_trailing_slashes(s@),
        decreases n,
    {
        assert(s@.take(n as int).drop_last() =~= s@.take(n - 1));
        n = n - 1;
    }
    let mut r: Vec<char> = Vec::new();
    r.extend_from_slice(&s[0..n]);
    assert(r@ =~= s@.take(n as int));
    r
}

/// Compact, human-readable form of `url` for list-row subtitles: host and
/// path only. Sign-in URLs carry hundreds of query characters that would wrap
/// a row over several lines; those are dropped. Display only: the stored URL
/// keeps its full form.
pub fn display_url(url: &str) -> (r: String)
    ensures
        r@ == display_form(url@),
{
    let parts = match parse_url(url) {
        Some(parts) => parts,
        None => return url.to_string(),
    };
    let host = match &parts.host {
        Some(host) => chars_of(host.as_str()),
        None => return url.to_string(),
    };
    let mut out: Vec<char> = Vec::new();
    if has_prefix(&host, &chars_of("www.")) {
        proof {
            reveal_strlit("www.");
        }
        out.extend_from_slice(&host[4..host.len()]);
        assert(out@ =~= host@.skip(4));
    } else {
        out.extend_from_slice(host.as_slice());
        assert(out@ =~= host@);
    }
    let path = trimmed_trailing_slashes(chars_of(parts.path.as_str()).as_slice());
    append(&mut out, path.as_slice());
    string_from(out.as_slice())
}

// ---------------------------------------------------------------------------
// Resolved-URL cache

/// What a cache entry list maps keys to: a later entry for a key shadows an
/// earlier one.
pub open spec fn entries_map(entries: Seq<(Seq<char>, Seq<char>)>) -> Map<Seq<char>, Seq<char>>
    decreases entries.len(),
{
    if entries.len() == 0 {
        Map::empty()
    } else {
        entries_map(entries.drop_last()).insert(entries.last().0, entries.last().1)
    }
}

pub open spec fn entry_views(v: Seq<(String, String)>) -> Seq<(Seq<char>, Seq<char>)> {
    v.map_values(|p: (String, String)| (p.0@, p.1@))
}

/// Post-redirect URLs already resolved in this process, by cache key.
///
/// The entries are a list of (key, URL) pairs in which the last pair of a
/// key holds its value; the view is the map this list stands for. A caller
/// that shares one cache between threads puts it behind its own lock.
pub struct ResolvedUrlCache {
    entries: Vec<(String, String)>,
}

impl View for ResolvedUrlCache {
    type V = Map<Seq<char>, Seq<char>>;

    closed spec fn view(&self) -> Map<Seq<char>, Seq<char>> {
        entries_map(entry_views(self.entries@))
    }
}

/// A key whose last entry is at `i` maps to that entry's value.
proof fn lemma_last_entry_wins(entries: Seq<(Seq<char>, Seq<char>)>, key: Seq<char>, i: int)
    requires
        0 <= i < entries.len(),
        entries[i].0 == key,
        forall|j: int| i < j < entries.len() ==> #[trigger] entries[j].0 != key,
    ensures
        entries_map(entries).contains_key(key),
        entries_map(entries)[key] == entries[i].1,
    decreases entries.len(),
{
    if i < entries.len() - 1 {
        assert(entries.last().0 != key);
        assert(entries.drop_last()[i] == entries[i]);
        assert forall|j: int| i < j < entries.len() - 1 implies #[trigger] entries.drop_last()[j].0 != key by {
            assert(entries.drop_last()[j] == entries[j]);
        }
        lemma_last_entry_wins(entries.drop_last(), key, i);
    }
}

/// A key with no entry is not in the map.
proof fn lemma_absent_key(entries: Seq<(Seq<char>, Seq<char>)>, key: Seq<char>)
    requires
        forall|j: int| 0 <= j < entries.len() ==> #[trigger] entries[j].0 != key,
    ensures
        !entries_map(entries).contains_key(key),
    decreases entries.len(),
{
    if entries.len() > 0 {
        assert(entries.last().0 != key);
        assert forall|j: int| 0 <= j < entries.len() - 1 implies #[trigger] entries.drop_last()[j].0 != key by {
            assert(entries.drop_last()[j] == entries[j]);
        }
        lemma_absent_key(entries.drop_last(), key);
    }
}

impl ResolvedUrlCache {
    pub fn new() -> (c: Self)
        ensures
            c@ == Map::<Seq<char>, Seq<char>>::empty(),
    {
        let c = ResolvedUrlCache { entries: Vec::new() };
        assert(entry_views(c.entries@) =~= Seq::<(Seq<char>, Seq<char>)>::empty());
        c
    }

    /// The URL stored under `key`, if any.
    pub fn get(&self, key: &str) -> (r: Option<String>)
        ensures
            r is Some <==> self@.contains_key(key@),
            r matches Some(v) ==> v@ == self@[key@],
    {
        let ghost e = entry_views(self.entries@);
        let k = chars_of(key);
        let mut n = self.entries.len();
        while n > 0
            invariant
                n <= self.entries.len(),
                e == entry_views(self.entries@),
                k@ == key@,
                forall|j: int| n <= j < e.len() ==> #[trigger] e[j].0 != key@,
            decreases n,
        {
            if chars_equal(&chars_of(self.entries[n - 1].0.as_str()), &k) {
                let found = self.entries[n - 1].1.clone();
                proof {
                    lemma_last_entry_wins(e, key@, n - 1);
                }
                return Some(found);
            }
            n = n - 1;
        }
        proof {
            lemma_absent_key(e, key@);
        }
        None
    }

    /// Stores `value` under `key`, replacing what was there.
    pub fn insert(&mut self, key: String, value: String)
        ensures
            final(self)@ == old(self)@.insert(key@, value@),
    {
        let ghost before = entry_views(self.entries@);
        self.entries.push((key, value));
        assert(entry_views(self.entries@).drop_last() =~= before);
    }
}

/// A cache key: the language the redirect was resolved for, a NUL, and the
/// URL.
pub open spec fn cache_key(accept_language: Seq<char>, url: Seq<char>) -> Seq<char> {
    accept_language.push('\0') + url
}

/// The post-redirect URL for `cache_key`, when it was resolved before.
pub fn cached_resolved_url(cache: &ResolvedUrlCache, cache_key: &str) -> (r: Option<String>)
    ensures
        r is Some <==> cache@.contains_key(cache_key@),
        r matches Some(v) ==> v@ == cache@[cache_key@],
{
    cache.get(cache_key)
}

/// Stores the post-redirect URL for `cache_key`.
pub fn store_resolved_url(cache: &mut ResolvedUrlCache, cache_key: String, url: String)
    ensures
        final(cache)@ == old(cache)@.insert(cache_key@, url@),
{
    cache.insert(cache_key, url);
}

/// Storing a URL and then looking its key up gives that URL back.
pub proof fn lemma_cache_read_after_write(before: Map<Seq<char>, Seq<char>>, key: Seq<char>, url: Seq<char>, other: Seq<char>)
    ensures
        before.insert(key, url).contains_key(key),
        before.insert(key, url)[key] == url,
        other != key ==> before.insert(key, url).contains_key(other) == before.contains_key(other),
        other != key ==> before.insert(key, url)[other] == before[other],
{
}

/// The cache view after storing each (key, URL) of `stores` in turn with
/// [`store_resolved_url`], starting from `m`.
pub open spec fn after_stores(m: Map<Seq<char>, Seq<char>>, stores: Seq<(Seq<char>, Seq<char>)>) -> Map<
    Seq<char>,
    Seq<char>,
>
    decreases stores.len(),
{
    if stores.len() == 0 {
        m
    } else {
        after_stores(m, stores.drop_last()).insert(stores.last().0, stores.last().1)
    }
}

/// However many stores come after it, a lookup gives the URL of the last
/// store of its key; a key that none of the stores names reads as it did
/// before them (in particular, a key never stored is not found).
pub proof fn lemma_cache_last_store_wins(
    m: Map<Seq<char>, Seq<char>>,
    stores: Seq<(Seq<char>, Seq<char>)>,
    key: Seq<char>,
)
    ensures
        forall|i: int|
            0 <= i < stores.len() && #[trigger] stores[i].0 == key && (forall|j: int|
                i < j < stores.len() ==> stores[j].0 != key) ==> after_stores(m, stores).contains_key(key)
                && after_stores(m, stores)[key] == stores[i].1,
        (forall|i: int| 0 <= i < stores.len() ==> #[trigger] stores[i].0 != key) ==> (after_stores(
            m,
            stores,
        ).contains_key(key) == m.contains_key(key) && after_stores(m, stores)[key] == m[key]),
    decreases stores.len(),
{
    if stores.len() > 0 {
        let w = stores.drop_last();
        lemma_cache_last_store_wins(m, w, key);
        assert forall|i: int|
            0 <= i < stores.len() && #[trigger] stores[i].0 == key && (forall|j: int|
                i < j < stores.len() ==> stores[j].0 != key) implies after_stores(m, stores).contains_key(key)
                && after_stores(m, stores)[key] == stores[i].1 by {
            if i < stores.len() - 1 {
                assert(stores.last().0 != key);
                assert(w[i] == stores[i]);
                assert forall|j: int| i < j < w.len() implies w[j].0 != key by {
                    assert(w[j] == stores[j]);
                }
            }
        }
        if forall|i: int| 0 <= i < stores.len() ==> #[trigger] stores[i].0 != key {
            assert(stores.last().0 != key);
            assert forall|i: int| 0 <= i < w.len() implies #[trigger] w[i].0 != key by {
                assert(w[i] == stores[i]);
            }
        }
    }
}

// ---------------------------------------------------------------------------
// Resolution

/// Where a redirect probe of `url` ended up, or `url` itself when the
/// request failed.
pub open spec fn probe_result(url: Seq<char>, outcome: Result<StreamResponse, HttpError>) -> Seq<char> {
    match outcome {
        Ok(response) => response.final_url@,
        Err(_) => url,
    }
}

/// What a redirect probe of `url` makes of the outcome: where the request
/// ended up, or `url` itself when the request failed.
pub fn resolved_url_from(url: &str, outcome: Result<StreamResponse, HttpError>) -> (r: String)
    ensures
        r@ == probe_result(url@, outcome),
{
    match outcome {
        Ok(response) => response.final_url,
        Err(_) => url.to_string(),
    }
}

/// `Duration::from_secs`: a duration of whole seconds. Nothing is stated of
/// the result, which is only handed on to the HTTP client.
pub assume_specification[ core::time::Duration::from_secs ](secs: u64) -> Duration;

/// The extra headers of a redirect probe: `Accept-Language` when a language
/// is to be sent, nothing otherwise.
pub fn redirect_probe_headers<'a>(accept_language: &'a str) -> (r: Vec<(&'static str, &'a str)>)
    ensures
        accept_language@.len() == 0 ==> r@.len() == 0,
        accept_language@.len() > 0 ==> r@.len() == 1 && r@[0].0@ == "Accept-Language"@ && r@[0].1@
            == accept_language@,
{
    let mut extra: Vec<(&'static str, &'a str)> = Vec::new();
    if chars_of(accept_language).len() > 0 {
        extra.push(("Accept-Language", accept_language));
    }
    extra
}

/// Follows the redirects of `url`, sending `accept_language` (when it is not
/// empty) as `Accept-Language` with [`redirect_probe_headers`]; the result
/// is [`resolved_url_from`] of the outcome: the final URL, or `url` itself
/// when the request fails. Which of the two comes back depends on the
/// network.
pub fn resolve_browser_url_uncached(url: &str, accept_language: &str) -> (r: String)
    ensures
        exists|o: Result<StreamResponse, HttpError>| r@ == #[trigger] probe_result(url@, o),
{
    let headers = RequestHeaders::browser();
    let extra = redirect_probe_headers(accept_language);
    let outcome = http_get_stream_with_extra_headers(url, &headers, extra.as_slice(), Duration::from_secs(5));
    let ghost o = outcome;
    let r = resolved_url_from(url, outcome);
    assert(r@ == probe_result(url@, o));
    r
}

/// The URL the browser will show for `url` once redirects are followed, for
/// the locale `lang` (a POSIX `LANG` value). URLs that are not `http`/`https`
/// come back unchanged; a URL resolved before for the same language comes
/// from `cache`; any other is resolved and stored in `cache`.
pub fn resolve_browser_url(url: &str, lang: &str, cache: &mut ResolvedUrlCache) -> (r: String)
    ensures
        !redirectable(url@) ==> r@ == url@ && final(cache)@ == old(cache)@,
        redirectable(url@) && old(cache)@.contains_key(cache_key(accept_language(lang@), url@)) ==> r@
            == old(cache)@[cache_key(accept_language(lang@), url@)] && final(cache)@ == old(cache)@,
        redirectable(url@) && !old(cache)@.contains_key(cache_key(accept_language(lang@), url@))
            ==> final(cache)@ == old(cache)@.insert(cache_key(accept_language(lang@), url@), r@),
        redirectable(url@) && !old(cache)@.contains_key(cache_key(accept_language(lang@), url@))
            ==> exists|o: Result<StreamResponse, HttpError>| r@ == #[trigger] probe_result(url@, o),
{
    if !is_redirectable_url(url) {
        return url.to_string();
    }
    let accept_language = derive_accept_language(lang);
    let mut key: Vec<char> = chars_of(accept_language.as_str());
    key.push('\0');
    append(&mut key, chars_of(url).as_slice());
    let key = string_from(key.as_slice());
    match cached_resolved_url(cache, key.as_str()) {
        Some(cached) => cached,
        None => {
            let resolved = resolve_browser_url_uncached(url, accept_language.as_str());
            let stored = resolved.clone();
            store_resolved_url(cache, key, stored);
            resolved
        },
    }
}

} // verus!
