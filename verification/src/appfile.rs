//! The desktop file name a browser-mode web app is installed under.

use vstd::prelude::*;
use crate::browser_url::{append, before_first, first_piece};
use crate::download::{decimal, decimal_chars};
use crate::icons::{first_true, join_path, join_path_chars, lemma_first_true, path_exists};
use crate::text::{
    chars_equal, chars_of, contains, contains_chars, matches_at, starts_with, string_from,
    to_lowercase, unicode_lowercase, occurs_at,
};

verus! {

/// `str::replace` with a non-empty pattern: every occurrence, scanning from
/// the left without overlaps, replaced.
pub open spec fn replace_all(s: Seq<char>, pat: Seq<char>, with: Seq<char>) -> Seq<char>
    decreases s.len(),
{
    if s.len() == 0 {
        Seq::empty()
    } else if pat.len() > 0 && starts_with(s, pat) {
        with + replace_all(s.skip(pat.len() as int), pat, with)
    } else {
        seq![s[0]] + replace_all(s.drop_first(), pat, with)
    }
}

pub fn replaced(s: &[char], pat: &[char], with: &[char]) -> (r: Vec<char>)
    requires
        pat.len() > 0,
    ensures
        r@ == replace_all(s@, pat@, with@),
{
    let mut out: Vec<char> = Vec::new();
    let mut i: usize = 0;
    assert(s@.skip(0) =~= s@);
    while i < s.len()
        invariant
            0 <= i <= s.len(),
            pat@.len() > 0,
            out@ + replace_all(s@.skip(i as int), pat@, with@) == replace_all(s@, pat@, with@),
        decreases s.len() - i,
    {
        let ghost rest = s@.skip(i as int);
        if matches_at(s, pat, i) {
            proof {
                assert(rest.subrange(0, pat@.len() as int) =~= s@.subrange(i as int, i + pat@.len()));
                assert(starts_with(rest, pat@));
                assert(rest.skip(pat@.len() as int) =~= s@.skip(i + pat@.len()));
            }
            let ghost before = out@;
            append(&mut out, with);
            assert(before + replace_all(rest, pat@, with@) =~= out@ + replace_all(s@.skip(i + pat@.len()), pat@, with@));
            i = i + pat.len();
        } else {
            proof {
                if starts_with(rest, pat@) {
                    assert(rest.subrange(0, pat@.len() as int) =~= s@.subrange(i as int, i + pat@.len()));
                    assert(occurs_at(s@, pat@, i as int));
                }
                assert(rest.drop_first() =~= s@.skip(i + 1));
                assert(rest[0] == s@[i as int]);
            }
            let ghost before = out@;
            out.push(s[i]);
            assert(before + replace_all(rest, pat@, with@) =~= out@ + replace_all(s@.skip(i + 1), pat@, with@));
            i = i + 1;
        }
    }
    assert(s@.skip(i as int).len() == 0);
    assert(out@ + Seq::<char>::empty() =~= out@);
    out
}

/// The short browser name of the old shell tools: `viewer` for the built-in
/// viewer, `chrome`, `brave`, `msedge` or `vivaldi` when the lowercased id
/// names one of those families, else the id itself.
pub open spec fn short_browser_name(browser: Seq<char>) -> Seq<char> {
    if browser == "__viewer__"@ {
        "viewer"@
    } else {
        let b = unicode_lowercase(browser);
        if contains(b, "chrom"@) {
            "chrome"@
        } else if contains(b, "brave"@) {
            "brave"@
        } else if contains(b, "edge"@) {
            "msedge"@
        } else if contains(b, "vivaldi"@) {
            "vivaldi"@
        } else {
            browser
        }
    }
}

/// The short name of each browser family: `viewer` for the built-in viewer;
/// otherwise, by what the lowercased id contains, checked in this order,
/// `chrome` for Chrome and Chromium builds, `brave`, `msedge` for Edge and
/// `vivaldi` for every Vivaldi channel; any other id is kept whole.
pub proof fn lemma_browser_families_shorten(browser: Seq<char>)
    ensures
        browser == "__viewer__"@ ==> short_browser_name(browser) == "viewer"@,
        ({
            let b = unicode_lowercase(browser);
            &&& browser != "__viewer__"@ && contains(b, "chrom"@) ==> short_browser_name(browser) == "chrome"@
            &&& browser != "__viewer__"@ && !contains(b, "chrom"@) && contains(b, "brave"@)
                ==> short_browser_name(browser) == "brave"@
            &&& browser != "__viewer__"@ && !contains(b, "chrom"@) && !contains(b, "brave"@) && contains(
                b,
                "edge"@,
            ) ==> short_browser_name(browser) == "msedge"@
            &&& browser != "__viewer__"@ && !contains(b, "chrom"@) && !contains(b, "brave"@) && !contains(
                b,
                "edge"@,
            ) && contains(b, "vivaldi"@) ==> short_browser_name(browser) == "vivaldi"@
            &&& browser != "__viewer__"@ && !contains(b, "chrom"@) && !contains(b, "brave"@) && !contains(
                b,
                "edge"@,
            ) && !contains(b, "vivaldi"@) ==> short_browser_name(browser) == browser
        }),
{
}

/// The desktop file name starts with the browser's short name and a dash
/// whenever the URL part already holds a `__` (any URL with a path or a
/// trailing slash): a Vivaldi web app's file is `vivaldi-<url part>-Default.desktop`.
pub proof fn lemma_app_file_starts_with_short_name(browser: Seq<char>, url: Seq<char>)
    requires
        contains(url_file_part(url), "__"@),
    ensures
        app_file_base(browser, url) == short_browser_name(browser) + "-"@ + url_file_part(url)
            + "-Default.desktop"@,
        starts_with(app_file_base(browser, url), short_browser_name(browser) + "-"@),
{
    reveal_strlit("__");
    reveal_strlit("-");
    let short = short_browser_name(browser);
    let part = url_file_part(url);
    let name = short + "-"@ + part + "-Default.desktop"@;
    let i = choose|i: int| occurs_at(part, "__"@, i);
    let off: int = short.len() as int + 1;
    assert(name.subrange(off + i, off + i + 2) =~= part.subrange(i, i + 2));
    assert(occurs_at(name, "__"@, off + i));
    assert(name.subrange(0, off) =~= short + "-"@);
}

/// The URL as a file-name part: scheme removed, query dropped, each `/`
/// turned into `__`.
pub open spec fn url_file_part(url: Seq<char>) -> Seq<char> {
    let no_scheme = replace_all(replace_all(url, "https://"@, Seq::empty()), "http://"@, Seq::empty());
    replace_all(before_first(no_scheme, '?'), "/"@, "__"@)
}

/// `<short>-<url part>-Default.desktop`, with `__` put before `-Default`
/// when the name holds no `__` at all.
pub open spec fn app_file_base(browser: Seq<char>, url: Seq<char>) -> Seq<char> {
    let name = short_browser_name(browser) + "-"@ + url_file_part(url) + "-Default.desktop"@;
    if contains(name, "__"@) {
        name
    } else {
        replace_all(name, "-Default"@, "__-Default"@)
    }
}

/// The `k`-th name tried: the base name first, then the base with
/// `-BigWebApp<n>` before `.desktop` for n = 2, 3, ...
pub open spec fn app_file_candidate(base: Seq<char>, k: nat) -> Seq<char> {
    if k == 0 {
        base
    } else {
        replace_all(base, ".desktop"@, "-BigWebApp"@ + decimal(k + 1) + ".desktop"@)
    }
}

fn short_name(browser: &str) -> (r: Vec<char>)
    ensures
        r@ == short_browser_name(browser@),
{
    let b = chars_of(browser);
    if chars_equal(&b, &chars_of("__viewer__")) {
        return chars_of("viewer");
    }
    let lower = to_lowercase(&b);
    if contains_chars(&lower, &chars_of("chrom")) {
        chars_of("chrome")
    } else if contains_chars(&lower, &chars_of("brave")) {
        chars_of("brave")
    } else if contains_chars(&lower, &chars_of("edge")) {
        chars_of("msedge")
    } else if contains_chars(&lower, &chars_of("vivaldi")) {
        chars_of("vivaldi")
    } else {
        b
    }
}

/// The desktop file name for a browser-mode web app of `browser` opening
/// `url`, before any clash with an existing file is considered.
pub fn app_file_name(browser: &str, url: &str) -> (r: String)
    ensures
        r@ == app_file_base(browser@, url@),
{
    proof {
        reveal_strlit("https://");
        reveal_strlit("http://");
        reveal_strlit("/");
        reveal_strlit("-Default");
    }
    let empty: Vec<char> = Vec::new();
    let a = replaced(chars_of(url).as_slice(), chars_of("https://").as_slice(), empty.as_slice());
    let b = replaced(a.as_slice(), chars_of("http://").as_slice(), empty.as_slice());
    let c = first_piece(b.as_slice(), '?');
    let part = replaced(c.as_slice(), chars_of("/").as_slice(), chars_of("__").as_slice());
    let mut name = short_name(browser);
    append(&mut name, chars_of("-").as_slice());
    append(&mut name, part.as_slice());
    append(&mut name, chars_of("-Default.desktop").as_slice());
    if contains_chars(&name, &chars_of("__")) {
        string_from(name.as_slice())
    } else {
        let fixed = replaced(name.as_slice(), chars_of("-Default").as_slice(), chars_of("__-Default").as_slice());
        string_from(fixed.as_slice())
    }
}

/// The `k`-th file name tried for a web app whose base name is `base`.
pub fn app_file_candidate_name(base: &str, k: usize) -> (r: String)
    requires
        k < usize::MAX,
    ensures
        r@ == app_file_candidate(base@, k as nat),
{
    if k == 0 {
        return base.to_string();
    }
    proof {
        reveal_strlit(".desktop");
    }
    let mut with: Vec<char> = chars_of("-BigWebApp");
    append(&mut with, decimal_chars(k + 1).as_slice());
    append(&mut with, chars_of(".desktop").as_slice());
    let r = replaced(chars_of(base).as_slice(), chars_of(".desktop").as_slice(), with.as_slice());
    string_from(r.as_slice())
}

/// Index of the candidate kept when `free` tells which candidates were found
/// free: the first free one, else the one after the last probed.
pub open spec fn free_index(free: Seq<bool>) -> int {
    match first_true(free) {
        Some(i) => i,
        None => free.len() as int,
    }
}

/// The desktop file name kept, given which of the candidates
/// ([`app_file_candidate_name`]) were found free, in order: the first free
/// one; when none of them is, the next candidate.
pub fn first_free_candidate(base: &str, free: &[bool]) -> (r: String)
    requires
        free@.len() < usize::MAX,
    ensures
        r@ == app_file_candidate(base@, free_index(free@) as nat),
{
    proof {
        lemma_first_true(free@);
    }
    let mut k: usize = 0;
    while k < free.len() && !free[k]
        invariant
            0 <= k <= free@.len() < usize::MAX,
            forall|j: int| 0 <= j < k ==> !free@[j],
        decreases free.len() - k,
    {
        k = k + 1;
    }
    proof {
        if k < free@.len() {
            assert(free@[k as int]);
            assert(first_true(free@) is Some);
            let i = first_true(free@)->0;
            assert(!(i < k)) by {
                if i < k {
                    assert(!free@[i]);
                }
            }
            assert(!(i > k)) by {
                if i > k {
                    assert(!free@[k as int]);
                }
            }
        } else {
            assert(first_true(free@) is None) by {
                if first_true(free@) is Some {
                    let i = first_true(free@)->0;
                    assert(!free@[i]);
                }
            }
        }
    }
    app_file_candidate_name(base, k)
}

/// The desktop file name for a new browser-mode web app: [`app_file_name`]
/// when no file of that name is in `applications_dir`, else the first
/// numbered variant ([`app_file_candidate_name`]) that is free. The
/// candidates are probed in order until one is free, and
/// [`first_free_candidate`] picks from those answers; which names are free
/// is up to the file system.
pub fn generate_app_file(browser: &str, url: &str, applications_dir: &str) -> (r: String)
    ensures
        exists|free: Seq<bool>|
            free.len() < usize::MAX && r@ == #[trigger] app_file_candidate(
                app_file_base(browser@, url@),
                free_index(free) as nat,
            ),
{
    let base = app_file_name(browser, url);
    let dir = chars_of(applications_dir);
    let mut free: Vec<bool> = Vec::new();
    loop
        invariant_except_break
            free@.len() < usize::MAX - 1,
        ensures
            free@.len() < usize::MAX,
        decreases usize::MAX - free@.len(),
    {
        let k = free.len();
        let candidate = app_file_candidate_name(base.as_str(), k);
        let path = string_from(join_path_chars(dir.as_slice(), chars_of(candidate.as_str()).as_slice()).as_slice());
        let is_free = !path_exists(path.as_str());
        free.push(is_free);
        if is_free || free.len() >= usize::MAX - 1 {
            break;
        }
    }
    first_free_candidate(base.as_str(), free.as_slice())
}

} // verus!
