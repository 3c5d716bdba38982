//! Icon candidates declared by a page: `<link rel=...>` icons, the Open Graph
//! image, and their provenance, declared size and vector hint.

use vstd::prelude::*;
use crate::htmldoc::{
    first_title_text, html_links, html_og_images, html_title, link_tags, link_views,
    og_image_contents, opt_views, LinkTagView,
};
use crate::rank::{stable_sort_by_rank_desc, stable_sort_of, Ranked};
use crate::svg::{digits_value, is_digit};
use crate::text::{
    all_ascii, ascii_lowercase, chars_eq_ignore_ascii_case, chars_equal, chars_of, contains, contains_chars,
    eq_ignore_ascii_case, ends_with, find, find_chars, has_prefix, has_suffix, split_char,
    split_on_char, split_whitespace, starts_with, string_from, to_lowercase, trim, trimmed,
    unicode_lowercase, views, words,
};
use crate::weburl::{join_url, opt_view, url_join_result};

verus! {

/// Where a candidate URL was advertised.
#[derive(Debug, Clone, Copy, PartialEq, Eq, Structural)]
pub enum IconSource {
    Manifest,
    AppleTouch,
    MaskIcon,
    Icon,
    OgImage,
}

/// Fetch-order priority: manifest, apple-touch, icon, then `mask-icon` (a
/// monochrome Safari silhouette) and `og:image` last.
pub open spec fn priority_of(s: IconSource) -> u8 {
    match s {
        IconSource::Manifest => 6,
        IconSource::AppleTouch => 5,
        IconSource::Icon => 3,
        IconSource::MaskIcon => 1,
        IconSource::OgImage => 0,
    }
}

/// Coarse band applied after download, ahead of measured resolution: every
/// real app icon shares the top tier; the silhouette and the share banner sit
/// below it.
pub open spec fn tier_of(s: IconSource) -> u8 {
    match s {
        IconSource::Manifest | IconSource::AppleTouch | IconSource::Icon => 2,
        IconSource::MaskIcon => 1,
        IconSource::OgImage => 0,
    }
}

impl IconSource {
    pub fn priority(self) -> (r: u8)
        ensures
            r == priority_of(self),
    {
        match self {
            IconSource::Manifest => 6,
            IconSource::AppleTouch => 5,
            IconSource::Icon => 3,
            IconSource::MaskIcon => 1,
            IconSource::OgImage => 0,
        }
    }

    /// Being an SVG promotes a candidate, except for `mask-icon`, whose vector
    /// is a flat silhouette.
    pub fn honours_vector_bonus(self) -> (r: bool)
        ensures
            r == (self != IconSource::MaskIcon),
    {
        !matches!(self, IconSource::MaskIcon)
    }

    pub fn rank_tier(self) -> (r: u8)
        ensures
            r == tier_of(self),
    {
        match self {
            IconSource::Manifest | IconSource::AppleTouch | IconSource::Icon => 2,
            IconSource::MaskIcon => 1,
            IconSource::OgImage => 0,
        }
    }
}

/// A declared icon URL with its declared quality.
#[derive(Debug, Clone, PartialEq, Eq)]
pub struct IconCandidate {
    pub url: String,
    pub declared_size: Option<u32>,
    pub source: IconSource,
    pub vector_hint: bool,
}

pub struct CandidateView {
    pub url: Seq<char>,
    pub declared_size: Option<u32>,
    pub source: IconSource,
    pub vector_hint: bool,
}

impl View for IconCandidate {
    type V = CandidateView;

    open spec fn view(&self) -> CandidateView {
        CandidateView {
            url: self.url@,
            declared_size: self.declared_size,
            source: self.source,
            vector_hint: self.vector_hint,
        }
    }
}

pub open spec fn candidate_views(v: Seq<IconCandidate>) -> Seq<CandidateView> {
    v.map_values(|c: IconCandidate| c@)
}

/// Declared quality `(vector bonus, declared size, source priority)`, used
/// only to order fetch attempts.
pub open spec fn quality_of(c: CandidateView) -> (u8, u32, u32) {
    (
        if c.vector_hint && c.source != IconSource::MaskIcon {
            1u8
        } else {
            0u8
        },
        match c.declared_size {
            Some(s) => s,
            None => 0u32,
        },
        priority_of(c.source) as u32,
    )
}

/// Lexicographic `>` on quality keys.
pub open spec fn quality_gt(a: (u8, u32, u32), b: (u8, u32, u32)) -> bool {
    a.0 > b.0 || (a.0 == b.0 && (a.1 > b.1 || (a.1 == b.1 && a.2 > b.2)))
}

/// The quality key as one integer; ordering by it is the lexicographic order.
pub open spec fn quality_value(k: (u8, u32, u32)) -> int {
    k.0 * 0x1_0000_0000_0000_0000 + k.1 * 0x1_0000_0000 + k.2
}

pub proof fn lemma_quality_value_orders(a: (u8, u32, u32), b: (u8, u32, u32))
    ensures
        quality_gt(a, b) <==> quality_value(a) > quality_value(b),
        quality_value(a) == quality_value(b) <==> a == b,
{
}

impl Ranked for IconCandidate {
    open spec fn rank(&self) -> int {
        quality_value(quality_of(self@))
    }

    fn rank_value(&self) -> (r: u128) {
        let k = self.quality_key();
        (k.0 as u128) * 0x1_0000_0000_0000_0000 + (k.1 as u128) * 0x1_0000_0000 + (k.2 as u128)
    }
}

impl IconCandidate {
    pub fn new(url: String, declared_size: Option<u32>, source: IconSource, vector_hint: bool) -> (r:
        Self)
        ensures
            r == (IconCandidate { url, declared_size, source, vector_hint }),
    {
        IconCandidate { url, declared_size, source, vector_hint }
    }

    pub fn quality_key(&self) -> (k: (u8, u32, u32))
        ensures
            k == quality_of(self@),
    {
        (
            if self.vector_hint && self.source.honours_vector_bonus() {
                1
            } else {
                0
            },
            match self.declared_size {
                Some(s) => s,
                None => 0,
            },
            self.source.priority() as u32,
        )
    }
}

// ---------------------------------------------------------------------------
// Deduplication by URL

/// Index of the first candidate with URL `u`.
pub open spec fn first_with_url(v: Seq<CandidateView>, u: Seq<char>) -> Option<int>
    decreases v.len(),
{
    if v.len() == 0 {
        None
    } else {
        match first_with_url(v.drop_last(), u) {
            Some(i) => Some(i),
            None => if v.last().url == u {
                Some(v.len() - 1)
            } else {
                None
            },
        }
    }
}

/// Fold `c` into `v`, keeping one entry per URL: an entry with the same URL
/// is replaced only by a strictly better declared quality; a new URL is
/// appended.
pub open spec fn push_best(v: Seq<CandidateView>, c: CandidateView) -> Seq<CandidateView> {
    match first_with_url(v, c.url) {
        Some(i) => if quality_gt(quality_of(c), quality_of(v[i])) {
            v.update(i, c)
        } else {
            v
        },
        None => v.push(c),
    }
}

pub proof fn lemma_first_with_url(v: Seq<CandidateView>, u: Seq<char>)
    ensures
        first_with_url(v, u) matches Some(i) ==> 0 <= i < v.len() && v[i].url == u && forall|
            j: int,
        |
            0 <= j < i ==> v[j].url != u,
        first_with_url(v, u) is None ==> forall|j: int| 0 <= j < v.len() ==> v[j].url != u,
    decreases v.len(),
{
    if v.len() > 0 {
        let w = v.drop_last();
        lemma_first_with_url(w, u);
        assert(forall|j: int| 0 <= j < w.len() ==> w[j] == v[j]);
    }
}

proof fn lemma_first_with_url_from_scan(v: Seq<CandidateView>, u: Seq<char>, i: int)
    requires
        0 <= i < v.len(),
        v[i].url == u,
        forall|j: int| 0 <= j < i ==> v[j].url != u,
    ensures
        first_with_url(v, u) == Some(i),
{
    lemma_first_with_url(v, u);
}

pub fn push_best_candidate(candidates: &mut Vec<IconCandidate>, candidate: IconCandidate)
    ensures
        candidate_views(final(candidates)@) == push_best(
            candidate_views(old(candidates)@),
            candidate@,
        ),
{
    let ghost old_views = candidate_views(candidates@);
    let mut i: usize = 0;
    while i < candidates.len()
        invariant
            i <= candidates@.len(),
            candidates@ == old(candidates)@,
            old_views == candidate_views(candidates@),
            forall|j: int| 0 <= j < i ==> old_views[j].url != candidate@.url,
        decreases candidates.len() - i,
    {
        if candidates[i].url == candidate.url {
            proof {
                lemma_first_with_url_from_scan(old_views, candidate@.url, i as int);
                lemma_quality_value_orders(
                    quality_of(candidate@),
                    quality_of(old_views[i as int]),
                );
            }
            if candidate.rank_value() > candidates[i].rank_value() {
                candidates.set(i, candidate);
                assert(candidate_views(candidates@) =~= old_views.update(i as int, candidate@));
            }
            return ;
        }
        i = i + 1;
    }
    proof {
        lemma_first_with_url(old_views, candidate@.url);
    }
    candidates.push(candidate);
    assert(candidate_views(candidates@) =~= old_views.push(candidate@));
}

pub open spec fn merged(v: Seq<CandidateView>, incoming: Seq<CandidateView>) -> Seq<
    CandidateView,
>
    decreases incoming.len(),
{
    if incoming.len() == 0 {
        v
    } else {
        push_best(merged(v, incoming.drop_last()), incoming.last())
    }
}

/// Fold every incoming candidate into `candidates`, one entry per URL.
pub fn merge_candidates(candidates: &mut Vec<IconCandidate>, incoming: Vec<IconCandidate>)
    ensures
        candidate_views(final(candidates)@) == merged(
            candidate_views(old(candidates)@),
            candidate_views(incoming@),
        ),
{
    let ghost start = candidate_views(candidates@);
    let ghost all = candidate_views(incoming@);
    let mut rest = incoming;
    let ghost mut done: int = 0;
    assert(all.take(0) =~= Seq::<CandidateView>::empty());
    while rest.len() > 0
        invariant
            0 <= done <= all.len(),
            candidate_views(rest@) == all.skip(done),
            candidate_views(candidates@) == merged(start, all.take(done)),
        decreases rest.len(),
    {
        let ghost old_rest = rest@;
        assert(candidate_views(old_rest).len() == old_rest.len());
        let c = rest.remove(0);
        proof {
            assert(c == old_rest[0]);
            assert(candidate_views(old_rest)[0] == c@);
            assert(c@ == all[done]);
            assert(all.take(done + 1).drop_last() =~= all.take(done));
            assert forall|j: int| 0 <= j < rest@.len() implies candidate_views(rest@)[j] == all.skip(
                done + 1,
            )[j] by {
                assert(rest@[j] == old_rest[j + 1]);
                assert(candidate_views(old_rest)[j + 1] == all.skip(done)[j + 1]);
            }
            assert(candidate_views(rest@) =~= all.skip(done + 1));
        }
        push_best_candidate(candidates, c);
        proof {
            done = done + 1;
        }
    }
    assert(all.take(done) =~= all);
}

pub open spec fn unique_urls(v: Seq<CandidateView>) -> bool {
    forall|i: int, j: int| 0 <= i < j < v.len() ==> v[i].url != v[j].url
}

pub open spec fn has_url(v: Seq<CandidateView>, u: Seq<char>) -> bool {
    exists|i: int| 0 <= i < v.len() && v[i].url == u
}

/// Folding a candidate in keeps at most one entry per URL, keeps every URL
/// already present, and makes the incoming URL present; the entry left for
/// that URL is at least as good as both the incoming and the earlier one.
pub proof fn lemma_push_best_dedupes(v: Seq<CandidateView>, c: CandidateView)
    ensures
        unique_urls(v) ==> unique_urls(push_best(v, c)),
        first_with_url(v, c.url) matches Some(i) ==> push_best(v, c)[i].url == c.url && !quality_gt(
            quality_of(c),
            quality_of(push_best(v, c)[i]),
        ) && !quality_gt(quality_of(v[i]), quality_of(push_best(v, c)[i])),
        has_url(push_best(v, c), c.url),
        forall|u: Seq<char>| has_url(v, u) ==> has_url(push_best(v, c), u),
        push_best(v, c).len() == if has_url(v, c.url) {
            v.len()
        } else {
            v.len() + 1
        },
{
    lemma_first_with_url(v, c.url);
    let r = push_best(v, c);
    match first_with_url(v, c.url) {
        Some(i) => {
            assert(r[i].url == c.url);
            assert forall|u: Seq<char>| has_url(v, u) implies has_url(r, u) by {
                let j = choose|j: int| 0 <= j < v.len() && v[j].url == u;
                assert(r[j].url == u);
            }
        },
        None => {
            assert(r[v.len() as int] == c);
            assert forall|u: Seq<char>| has_url(v, u) implies has_url(r, u) by {
                let j = choose|j: int| 0 <= j < v.len() && v[j].url == u;
                assert(r[j] == v[j]);
            }
        },
    }
}

/// Merging keeps one entry per URL and every URL of either list.
pub proof fn lemma_merge_dedupes(v: Seq<CandidateView>, incoming: Seq<CandidateView>)
    ensures
        unique_urls(v) ==> unique_urls(merged(v, incoming)),
        forall|u: Seq<char>| has_url(v, u) ==> has_url(merged(v, incoming), u),
        forall|i: int| 0 <= i < incoming.len() ==> has_url(merged(v, incoming), #[trigger] incoming[i].url),
    decreases incoming.len(),
{
    if incoming.len() > 0 {
        let prev = merged(v, incoming.drop_last());
        lemma_merge_dedupes(v, incoming.drop_last());
        lemma_push_best_dedupes(prev, incoming.last());
        assert forall|i: int| 0 <= i < incoming.len() implies has_url(
            merged(v, incoming),
            #[trigger] incoming[i].url,
        ) by {
            if i < incoming.len() - 1 {
                assert(incoming[i] == incoming.drop_last()[i]);
                assert(has_url(prev, incoming.drop_last()[i].url));
            }
        }
    }
}

/// Order by declared quality, best first, keeping equal keys in order.
pub fn sort_icon_candidates(candidates: &mut Vec<IconCandidate>)
    ensures
        stable_sort_of(final(candidates)@, old(candidates)@),
        final(candidates)@.len() == old(candidates)@.len(),
{
    stable_sort_by_rank_desc(candidates);
}

// ---------------------------------------------------------------------------
// Declared sizes

/// `u32::from_str`: an optional `+`, then at least one decimal digit, with a
/// value that fits.
pub open spec fn unsigned_digits(t: Seq<char>) -> Seq<char> {
    if t.len() > 0 && t[0] == '+' {
        t.drop_first()
    } else {
        t
    }
}

pub open spec fn parse_u32_spec(t: Seq<char>) -> Option<u32> {
    let d = unsigned_digits(t);
    if d.len() > 0 && (forall|i: int| 0 <= i < d.len() ==> is_digit(#[trigger] d[i]))
        && digits_value(d) <= u32::MAX {
        Some(digits_value(d) as u32)
    } else {
        None
    }
}

pub proof fn lemma_digits_value_prefix(t: Seq<char>, k: int)
    requires
        0 <= k <= t.len(),
        forall|i: int| 0 <= i < t.len() ==> is_digit(#[trigger] t[i]),
    ensures
        digits_value(t.take(k)) <= digits_value(t),
    decreases t.len() - k,
{
    if k < t.len() {
        lemma_digits_value_prefix(t, k + 1);
        assert(t.take(k + 1).drop_last() =~= t.take(k));
        assert(t.take(k + 1).last() == t[k]);
    } else {
        assert(t.take(k) =~= t);
    }
}

pub fn parse_u32(t: &[char]) -> (r: Option<u32>)
    ensures
        r == parse_u32_spec(t@),
{
    let start: usize = if t.len() > 0 && t[0] == '+' {
        1
    } else {
        0
    };
    let ghost d = unsigned_digits(t@);
    assert(d =~= t@.subrange(start as int, t@.len() as int));
    if start >= t.len() {
        return None;
    }
    let mut value: u64 = 0;
    let mut i = start;
    while i < t.len()
        invariant
            start <= i <= t@.len(),
            d == t@.subrange(start as int, t@.len() as int),
            d == unsigned_digits(t@),
            forall|j: int| 0 <= j < i - start ==> is_digit(#[trigger] d[j]),
            value == digits_value(d.take(i - start)),
            value <= u32::MAX,
        decreases t.len() - i,
    {
        let c = t[i];
        let ghost k = i - start;
        assert(d[k] == c);
        assert(d.take(k + 1).drop_last() =~= d.take(k));
        assert(d.take(k + 1).last() == c);
        if !('0' <= c && c <= '9') {
            assert(!is_digit(d[k]));
            return None;
        }
        value = value * 10 + ((c as u32) - ('0' as u32)) as u64;
        assert(value == digits_value(d.take(k + 1)));
        if value > 4294967295 {
            proof {
                if forall|j: int| 0 <= j < d.len() ==> is_digit(#[trigger] d[j]) {
                    lemma_digits_value_prefix(d, k + 1);
                }
            }
            return None;
        }
        i = i + 1;
    }
    assert(d.take(d.len() as int) =~= d);
    Some(value as u32)
}

pub open spec fn min_u32(a: u32, b: u32) -> u32 {
    if a <= b {
        a
    } else {
        b
    }
}

/// Square side declared by one `WxH` token (split at the first `x`).
pub open spec fn token_side(tok: Seq<char>) -> Option<u32> {
    match find(tok, seq!['x']) {
        None => None,
        Some(i) => match (parse_u32_spec(tok.take(i)), parse_u32_spec(tok.skip(i + 1))) {
            (Some(w), Some(h)) => Some(min_u32(w, h)),
            _ => None,
        },
    }
}

/// The largest side over all tokens that declare one.
pub open spec fn max_token_side(toks: Seq<Seq<char>>) -> Option<u32>
    decreases toks.len(),
{
    if toks.len() == 0 {
        None
    } else {
        match (max_token_side(toks.drop_last()), token_side(toks.last())) {
            (Some(a), Some(b)) => Some(
                if b >= a {
                    b
                } else {
                    a
                },
            ),
            (Some(a), None) => Some(a),
            (None, b) => b,
        }
    }
}

/// `sizes="any"` (any case) declares a scalable icon, taken as 1024; otherwise
/// the biggest square side among the whitespace-separated `WxH` tokens.
pub open spec fn declared_size_spec(sizes: Seq<char>) -> Option<u32> {
    if eq_ignore_ascii_case(sizes, "any"@) {
        Some(1024)
    } else {
        max_token_side(words(sizes))
    }
}

fn token_side_of(tok: &[char]) -> (r: Option<u32>)
    ensures
        r == token_side(tok@),
{
    let mut x: Vec<char> = Vec::new();
    x.push('x');
    assert(x@ =~= seq!['x']);
    let i = match find_chars(tok, &x) {
        Some(i) => i,
        None => return None,
    };
    proof {
        crate::text::lemma_find_from_spec(tok@, seq!['x'], 0);
    }
    let n = tok.len();
    assert(i + 1 <= n);
    let mut left: Vec<char> = Vec::new();
    let mut k: usize = 0;
    while k < i
        invariant
            k <= i < tok@.len(),
            left@ == tok@.take(k as int),
        decreases i - k,
    {
        left.push(tok[k]);
        k = k + 1;
    }
    let mut right: Vec<char> = Vec::new();
    let mut k = i + 1;
    while k < tok.len()
        invariant
            i + 1 <= k <= tok@.len(),
            right@ == tok@.subrange(i + 1, k as int),
        decreases tok.len() - k,
    {
        right.push(tok[k]);
        k = k + 1;
    }
    assert(right@ =~= tok@.skip(i + 1));
    match (parse_u32(&left), parse_u32(&right)) {
        (Some(w), Some(h)) => Some(
            if w <= h {
                w
            } else {
                h
            },
        ),
        _ => None,
    }
}

pub fn largest_declared_size(sizes: &str) -> (r: Option<u32>)
    ensures
        r == declared_size_spec(sizes@),
{
    let s = chars_of(sizes);
    let any = chars_of("any");
    if chars_eq_ignore_ascii_case(&s, &any) {
        return Some(1024);
    }
    let toks = split_whitespace(&s);
    let mut best: Option<u32> = None;
    let mut i: usize = 0;
    while i < toks.len()
        invariant
            i <= toks@.len(),
            views(toks@) == words(s@),
            best == max_token_side(views(toks@).take(i as int)),
        decreases toks.len() - i,
    {
        let ghost ts = views(toks@);
        assert(ts.take(i + 1).drop_last() =~= ts.take(i as int));
        assert(ts.take(i + 1).last() == toks@[i as int]@);
        let side = token_side_of(&toks[i]);
        best = match (best, side) {
            (Some(a), Some(b)) => Some(
                if b >= a {
                    b
                } else {
                    a
                },
            ),
            (Some(a), None) => Some(a),
            (None, b) => b,
        };
        i = i + 1;
    }
    assert(views(toks@).take(toks@.len() as int) =~= views(toks@));
    best
}

// ---------------------------------------------------------------------------
// rel classification and vector hints

pub open spec fn has_token(toks: Seq<Seq<char>>, t: Seq<char>) -> bool {
    exists|i: int| 0 <= i < toks.len() && toks[i] == t
}

/// Icon kind named by a `rel` attribute (already lowercased): apple-touch
/// first, then `mask-icon`, then any token containing `icon`.
pub open spec fn source_from_rel(rel: Seq<char>) -> Option<IconSource> {
    let toks = words(rel);
    if has_token(toks, "apple-touch-icon"@) || has_token(toks, "apple-touch-icon-precomposed"@) {
        Some(IconSource::AppleTouch)
    } else if has_token(toks, "mask-icon"@) {
        Some(IconSource::MaskIcon)
    } else if exists|i: int| 0 <= i < toks.len() && contains(toks[i], "icon"@) {
        Some(IconSource::Icon)
    } else {
        None
    }
}

fn has_token_exec(toks: &Vec<Vec<char>>, t: &[char]) -> (b: bool)
    ensures
        b == has_token(views(toks@), t@),
{
    let mut i: usize = 0;
    while i < toks.len()
        invariant
            i <= toks@.len(),
            forall|j: int| 0 <= j < i ==> views(toks@)[j] != t@,
        decreases toks.len() - i,
    {
        if chars_equal(&toks[i], t) {
            assert(views(toks@)[i as int] == t@);
            return true;
        }
        i = i + 1;
    }
    false
}

pub fn icon_source_from_rel(rel: &str) -> (r: Option<IconSource>)
    ensures
        r == source_from_rel(rel@),
{
    let s = chars_of(rel);
    let toks = split_whitespace(&s);
    if has_token_exec(&toks, &chars_of("apple-touch-icon")) || has_token_exec(
        &toks,
        &chars_of("apple-touch-icon-precomposed"),
    ) {
        return Some(IconSource::AppleTouch);
    }
    if has_token_exec(&toks, &chars_of("mask-icon")) {
        return Some(IconSource::MaskIcon);
    }
    let icon = chars_of("icon");
    let mut i: usize = 0;
    while i < toks.len()
        invariant
            i <= toks@.len(),
            icon@ == "icon"@,
            s@ == rel@,
            views(toks@) == words(s@),
            !has_token(words(rel@), "apple-touch-icon"@),
            !has_token(words(rel@), "apple-touch-icon-precomposed"@),
            !has_token(words(rel@), "mask-icon"@),
            forall|j: int| 0 <= j < i ==> !contains(views(toks@)[j], "icon"@),
        decreases toks.len() - i,
    {
        if contains_chars(&toks[i], &icon) {
            assert(contains(views(toks@)[i as int], "icon"@));
            assert(words(rel@)[i as int] == views(toks@)[i as int]);
            return Some(IconSource::Icon);
        }
        i = i + 1;
    }
    None
}

/// A candidate is a vector when `sizes="any"`, its type is
/// `image/svg+xml`, or its path (before any `?`) ends in `.svg` once
/// lowercased.
pub open spec fn vector_hint_spec(href: Seq<char>, sizes: Seq<char>, mime: Seq<char>) -> bool {
    ||| eq_ignore_ascii_case(sizes, "any"@)
    ||| eq_ignore_ascii_case(mime, "image/svg+xml"@)
    ||| ends_with(unicode_lowercase(split_char(href, '?')[0]), ".svg"@)
}

pub fn is_vector_hint(href: &str, sizes: &str, mime_type: &str) -> (b: bool)
    ensures
        b == vector_hint_spec(href@, sizes@, mime_type@),
        all_ascii(split_char(href@, '?')[0]) ==> b == (eq_ignore_ascii_case(sizes@, "any"@)
            || eq_ignore_ascii_case(mime_type@, "image/svg+xml"@) || ends_with(
            ascii_lowercase(split_char(href@, '?')[0]),
            ".svg"@,
        )),
{
    if chars_eq_ignore_ascii_case(&chars_of(sizes), &chars_of("any")) {
        return true;
    }
    if chars_eq_ignore_ascii_case(&chars_of(mime_type), &chars_of("image/svg+xml")) {
        return true;
    }
    let h = chars_of(href);
    let parts = split_on_char(&h, '?');
    proof {
        crate::text::lemma_split_by_nonempty(h@, crate::text::is_either('?', '?'));
    }
    let lowered = to_lowercase(&parts[0]);
    has_suffix(&lowered, &chars_of(".svg"))
}

// ---------------------------------------------------------------------------
// URL resolution

/// Absolute `http(s)` references are kept verbatim; anything else is joined
/// onto the base URL, when there is one.
pub open spec fn resolve_url_spec(href: Seq<char>, base: Option<Seq<char>>) -> Option<Seq<char>> {
    if starts_with(href, "http://"@) || starts_with(href, "https://"@) {
        Some(href)
    } else {
        match base {
            None => None,
            Some(b) => url_join_result(b, href),
        }
    }
}

pub open spec fn opt_str_view(o: Option<&str>) -> Option<Seq<char>> {
    match o {
        Some(s) => Some(s@),
        None => None,
    }
}

/// `base` is the text of the base URL, when there is one.
pub fn resolve_url(href: &str, base: Option<&str>) -> (r: Option<String>)
    ensures
        opt_view(r) == resolve_url_spec(href@, opt_str_view(base)),
{
    let h = chars_of(href);
    if has_prefix(&h, &chars_of("http://")) || has_prefix(&h, &chars_of("https://")) {
        return Some(href.to_owned());
    }
    match base {
        Some(b) => join_url(b, href),
        None => None,
    }
}

// ---------------------------------------------------------------------------
// Page extraction

/// The candidate a `<link>` element contributes: its `rel` (lowercased) must
/// name an icon kind, and its `href` must resolve.
pub open spec fn link_candidate(t: LinkTagView, base: Option<Seq<char>>) -> Option<CandidateView> {
    match source_from_rel(unicode_lowercase(t.rel)) {
        None => None,
        Some(source) => match t.href {
            None => None,
            Some(href) => match resolve_url_spec(href, base) {
                None => None,
                Some(abs) => {
                    let sizes = match t.sizes {
                        Some(s) => s,
                        None => Seq::empty(),
                    };
                    let mime = match t.mime_type {
                        Some(m) => m,
                        None => Seq::empty(),
                    };
                    Some(
                        CandidateView {
                            url: abs,
                            declared_size: declared_size_spec(sizes),
                            source,
                            vector_hint: vector_hint_spec(href, sizes, mime),
                        },
                    )
                },
            },
        },
    }
}

pub open spec fn collect_links(
    tags: Seq<LinkTagView>,
    base: Option<Seq<char>>,
) -> Seq<CandidateView>
    decreases tags.len(),
{
    if tags.len() == 0 {
        Seq::empty()
    } else {
        let prev = collect_links(tags.drop_last(), base);
        match link_candidate(tags.last(), base) {
            Some(c) => push_best(prev, c),
            None => prev,
        }
    }
}

pub open spec fn og_candidate(content: Option<Seq<char>>, base: Option<Seq<char>>) -> Option<
    CandidateView,
> {
    match content {
        None => None,
        Some(c) => match resolve_url_spec(c, base) {
            None => None,
            Some(abs) => Some(
                CandidateView {
                    url: abs,
                    declared_size: None,
                    source: IconSource::OgImage,
                    vector_hint: false,
                },
            ),
        },
    }
}

pub open spec fn collect_og(
    acc: Seq<CandidateView>,
    contents: Seq<Option<Seq<char>>>,
    base: Option<Seq<char>>,
) -> Seq<CandidateView>
    decreases contents.len(),
{
    if contents.len() == 0 {
        acc
    } else {
        let prev = collect_og(acc, contents.drop_last(), base);
        match og_candidate(contents.last(), base) {
            Some(c) => push_best(prev, c),
            None => prev,
        }
    }
}

/// Every icon the page declares, one per URL, before ordering.
pub open spec fn page_candidates(html: Seq<char>, base: Option<Seq<char>>) -> Seq<CandidateView> {
    collect_og(collect_links(html_links(html), base), html_og_images(html), base)
}

fn opt_chars(o: &Option<String>) -> (r: Vec<char>)
    ensures
        r@ == match opt_view(*o) {
            Some(s) => s,
            None => Seq::empty(),
        },
{
    match o {
        Some(s) => chars_of(s.as_str()),
        None => Vec::new(),
    }
}

/// The icon candidates declared by a page, ordered by declared quality.
/// `base_url` is the text of the base URL, when there is one.
pub fn extract_icon_candidates(html: &str, base_url: Option<&str>) -> (r: Vec<IconCandidate>)
    ensures
        exists|pre: Seq<IconCandidate>|
            candidate_views(pre) == page_candidates(html@, opt_str_view(base_url))
                && stable_sort_of(r@, pre),
{
    let ghost base = opt_str_view(base_url);
    let tags = link_tags(html);
    let mut urls: Vec<IconCandidate> = Vec::new();
    let mut i: usize = 0;
    assert(candidate_views(urls@) =~= Seq::<CandidateView>::empty());
    while i < tags.len()
        invariant
            i <= tags@.len(),
            link_views(tags@) == html_links(html@),
            base == opt_str_view(base_url),
            candidate_views(urls@) == collect_links(link_views(tags@).take(i as int), base),
        decreases tags.len() - i,
    {
        let ghost ts = link_views(tags@);
        assert(ts.take(i + 1).drop_last() =~= ts.take(i as int));
        assert(ts.take(i + 1).last() == tags@[i as int]@);
        let tag = &tags[i];
        let rel = to_lowercase(&chars_of(tag.rel.as_str()));
        let rel_text = string_from(&rel);
        if let Some(source) = icon_source_from_rel(rel_text.as_str()) {
            if let Some(href) = &tag.href {
                if let Some(abs) = resolve_url(href.as_str(), base_url) {
                    let sizes = string_from(&opt_chars(&tag.sizes));
                    let mime = string_from(&opt_chars(&tag.mime_type));
                    let candidate = IconCandidate::new(
                        abs,
                        largest_declared_size(sizes.as_str()),
                        source,
                        is_vector_hint(href.as_str(), sizes.as_str(), mime.as_str()),
                    );
                    push_best_candidate(&mut urls, candidate);
                }
            }
        }
        i = i + 1;
    }
    assert(link_views(tags@).take(tags@.len() as int) =~= link_views(tags@));
    let contents = og_image_contents(html);
    let ghost links_done = candidate_views(urls@);
    let mut k: usize = 0;
    while k < contents.len()
        invariant
            k <= contents@.len(),
            opt_views(contents@) == html_og_images(html@),
            base == opt_str_view(base_url),
            candidate_views(urls@) == collect_og(
                links_done,
                opt_views(contents@).take(k as int),
                base,
            ),
        decreases contents.len() - k,
    {
        let ghost cs = opt_views(contents@);
        assert(cs.take(k + 1).drop_last() =~= cs.take(k as int));
        assert(cs.take(k + 1).last() == opt_view(contents@[k as int]));
        if let Some(content) = &contents[k] {
            if let Some(abs) = resolve_url(content.as_str(), base_url) {
                push_best_candidate(
                    &mut urls,
                    IconCandidate::new(abs, None, IconSource::OgImage, false),
                );
            }
        }
        k = k + 1;
    }
    assert(opt_views(contents@).take(contents@.len() as int) =~= opt_views(contents@));
    let ghost pre = urls@;
    sort_icon_candidates(&mut urls);
    assert(candidate_views(pre) == page_candidates(html@, base) && stable_sort_of(urls@, pre));
    urls
}

/// URLs of the page's `rel` tokens naming `manifest`, resolved.
pub open spec fn collect_manifests(tags: Seq<LinkTagView>, base: Option<Seq<char>>) -> Seq<
    Seq<char>,
>
    decreases tags.len(),
{
    if tags.len() == 0 {
        Seq::empty()
    } else {
        let prev = collect_manifests(tags.drop_last(), base);
        let t = tags.last();
        if has_token(words(unicode_lowercase(t.rel)), "manifest"@) && t.href is Some
            && resolve_url_spec(t.href->0, base) is Some {
            prev.push(resolve_url_spec(t.href->0, base)->0)
        } else {
            prev
        }
    }
}

pub open spec fn string_views(v: Seq<String>) -> Seq<Seq<char>> {
    v.map_values(|s: String| s@)
}

pub fn extract_manifest_urls(html: &str, base_url: Option<&str>) -> (r: Vec<String>)
    ensures
        string_views(r@) == collect_manifests(html_links(html@), opt_str_view(base_url)),
{
    let ghost base = opt_str_view(base_url);
    let tags = link_tags(html);
    let manifest = chars_of("manifest");
    let mut urls: Vec<String> = Vec::new();
    let mut i: usize = 0;
    assert(string_views(urls@) =~= Seq::<Seq<char>>::empty());
    while i < tags.len()
        invariant
            i <= tags@.len(),
            link_views(tags@) == html_links(html@),
            base == opt_str_view(base_url),
            manifest@ == "manifest"@,
            string_views(urls@) == collect_manifests(link_views(tags@).take(i as int), base),
        decreases tags.len() - i,
    {
        let ghost ts = link_views(tags@);
        assert(ts.take(i + 1).drop_last() =~= ts.take(i as int));
        assert(ts.take(i + 1).last() == tags@[i as int]@);
        let tag = &tags[i];
        let rel = to_lowercase(&chars_of(tag.rel.as_str()));
        let toks = split_whitespace(&rel);
        if has_token_exec(&toks, &manifest) {
            if let Some(href) = &tag.href {
                if let Some(abs) = resolve_url(href.as_str(), base_url) {
                    let ghost before = string_views(urls@);
                    urls.push(abs);
                    assert(string_views(urls@) =~= before.push(abs@));
                }
            }
        }
        i = i + 1;
    }
    assert(link_views(tags@).take(tags@.len() as int) =~= link_views(tags@));
    urls
}

/// The page title: the first `<title>`'s text, trimmed, when non-empty.
pub open spec fn title_spec(html: Seq<char>) -> Option<Seq<char>> {
    match html_title(html) {
        Some(t) => if trim(t).len() > 0 {
            Some(trim(t))
        } else {
            None
        },
        None => None,
    }
}

pub fn extract_title(html: &str) -> (r: Option<String>)
    ensures
        opt_view(r) == title_spec(html@),
{
    match first_title_text(html) {
        Some(text) => {
            let t = trimmed(&chars_of(text.as_str()));
            if t.len() > 0 {
                Some(string_from(&t))
            } else {
                None
            }
        },
        None => None,
    }
}

} // verus!
