//! Matching the system's default-browser desktop entry to a known browser.

use vstd::prelude::*;
use vstd::utf8::encode_utf8;
use crate::text::{chars_of, chars_equal, contains, contains_chars, string_from, to_lowercase, trim, trimmed, unicode_lowercase};
use crate::archive::{std_lines, std_lines_of};
use crate::icons::path_exists;
use crate::weburl::opt_view;

verus! {

/// What the manager knows about one browser: how its desktop entries are
/// named and, for the Flatpak build, its application id.
#[derive(Debug)]
pub struct BrowserDef {
    pub id: String,
    /// Executables whose presence means the browser is installed natively.
    pub native_paths: Vec<String>,
    pub desktop_pattern: String,
    pub desktop_aliases: Vec<String>,
    pub flatpak_app_id: Option<String>,
    pub flatpak_id: Option<String>,
}

pub struct BrowserDefView {
    pub id: Seq<char>,
    pub native_paths: Seq<Seq<char>>,
    pub desktop_pattern: Seq<char>,
    pub desktop_aliases: Seq<Seq<char>>,
    pub flatpak_app_id: Option<Seq<char>>,
    pub flatpak_id: Option<Seq<char>>,
}

impl View for BrowserDef {
    type V = BrowserDefView;

    open spec fn view(&self) -> BrowserDefView {
        BrowserDefView {
            id: self.id@,
            native_paths: self.native_paths@.map_values(|p: String| p@),
            desktop_pattern: self.desktop_pattern@,
            desktop_aliases: self.desktop_aliases@.map_values(|a: String| a@),
            flatpak_app_id: opt_view(self.flatpak_app_id),
            flatpak_id: opt_view(self.flatpak_id),
        }
    }
}

pub open spec fn def_views(defs: Seq<BrowserDef>) -> Seq<BrowserDefView> {
    defs.map_values(|d: BrowserDef| d@)
}

/// Length in bytes of a text.
pub open spec fn byte_len(s: Seq<char>) -> nat {
    encode_utf8(s).len()
}

/// A match of `needle` in the desktop name, as a candidate: its byte length
/// and the browser id it stands for. (A `str` occurs in another exactly where
/// its characters do, UTF-8 being self-synchronizing.)
pub open spec fn match_candidate(desktop: Seq<char>, needle: Seq<char>, id: Seq<char>) -> Seq<(nat, Seq<char>)> {
    if needle.len() > 0 && contains(desktop, needle) {
        seq![(byte_len(needle), id)]
    } else {
        Seq::empty()
    }
}

pub open spec fn alias_candidates(desktop: Seq<char>, aliases: Seq<Seq<char>>, id: Seq<char>) -> Seq<(nat, Seq<char>)>
    decreases aliases.len(),
{
    if aliases.len() == 0 {
        Seq::empty()
    } else {
        alias_candidates(desktop, aliases.drop_last(), id) + match_candidate(desktop, aliases.last(), id)
    }
}

/// The candidates one browser offers: its desktop pattern, each alias, and
/// its lowercased Flatpak application id, which stands for the Flatpak build
/// (the default then names the reverse-DNS application id).
pub open spec fn def_candidates(desktop: Seq<char>, def: BrowserDefView) -> Seq<(nat, Seq<char>)> {
    match_candidate(desktop, def.desktop_pattern, def.id) + alias_candidates(desktop, def.desktop_aliases, def.id)
        + match (def.flatpak_app_id, def.flatpak_id) {
        (Some(app_id), Some(flatpak_id)) => match_candidate(desktop, unicode_lowercase(app_id), flatpak_id),
        _ => Seq::empty(),
    }
}

pub open spec fn candidates(desktop: Seq<char>, defs: Seq<BrowserDefView>) -> Seq<(nat, Seq<char>)>
    decreases defs.len(),
{
    if defs.len() == 0 {
        Seq::empty()
    } else {
        candidates(desktop, defs.drop_last()) + def_candidates(desktop, defs.last())
    }
}

/// The first of the longest candidates.
pub open spec fn longest(c: Seq<(nat, Seq<char>)>) -> Option<(nat, Seq<char>)>
    decreases c.len(),
{
    if c.len() == 0 {
        None
    } else {
        match longest(c.drop_last()) {
            None => Some(c.last()),
            Some(best) => if c.last().0 > best.0 {
                Some(c.last())
            } else {
                Some(best)
            },
        }
    }
}

/// The browser a default-browser desktop name stands for: of every pattern,
/// alias or Flatpak id found in the name the longest wins (the first of
/// them on a tie), so `brave-beta.desktop` picks `brave-beta` over `brave`.
pub open spec fn default_browser_id(defs: Seq<BrowserDefView>, desktop: Seq<char>) -> Option<Seq<char>> {
    match longest(candidates(desktop, defs)) {
        Some(best) => Some(best.1),
        None => None,
    }
}

pub open spec fn cand_views(v: Seq<(usize, String)>) -> Seq<(nat, Seq<char>)> {
    v.map_values(|c: (usize, String)| (c.0 as nat, c.1@))
}

fn push_match(out: &mut Vec<(usize, String)>, desktop: &[char], needle: &str, id: &str)
    ensures
        cand_views(final(out)@) == cand_views(old(out)@) + match_candidate(desktop@, needle@, id@),
{
    let ghost before = cand_views(out@);
    let n = chars_of(needle);
    if n.len() > 0 && contains_chars(desktop, &n) {
        out.push((needle.as_bytes().len(), id.to_string()));
        assert(cand_views(out@) =~= before + match_candidate(desktop@, needle@, id@));
    } else {
        assert(cand_views(out@) =~= before + match_candidate(desktop@, needle@, id@));
    }
}

fn push_def_candidates(out: &mut Vec<(usize, String)>, desktop: &[char], def: &BrowserDef)
    ensures
        cand_views(final(out)@) == cand_views(old(out)@) + def_candidates(desktop@, def@),
{
    let ghost start = cand_views(out@);
    push_match(out, desktop, def.desktop_pattern.as_str(), def.id.as_str());
    let ghost after_pattern = cand_views(out@);
    let mut k: usize = 0;
    assert(alias_candidates(desktop@, def@.desktop_aliases.take(0), def@.id) =~= Seq::<(nat, Seq<char>)>::empty());
    while k < def.desktop_aliases.len()
        invariant
            0 <= k <= def.desktop_aliases.len(),
            cand_views(out@) == after_pattern + alias_candidates(desktop@, def@.desktop_aliases.take(k as int), def@.id),
        decreases def.desktop_aliases.len() - k,
    {
        push_match(out, desktop, def.desktop_aliases[k].as_str(), def.id.as_str());
        proof {
            let t = def@.desktop_aliases.take(k as int + 1);
            assert(t.drop_last() =~= def@.desktop_aliases.take(k as int));
            assert(t.last() == def.desktop_aliases@[k as int]@);
        }
        k = k + 1;
    }
    assert(def@.desktop_aliases.take(def.desktop_aliases@.len() as int) =~= def@.desktop_aliases);
    match (&def.flatpak_app_id, &def.flatpak_id) {
        (Some(app_id), Some(flatpak_id)) => {
            let lowered = string_from(to_lowercase(chars_of(app_id.as_str()).as_slice()).as_slice());
            push_match(out, desktop, lowered.as_str(), flatpak_id.as_str());
        },
        _ => {},
    }
    assert(cand_views(out@) =~= start + def_candidates(desktop@, def@));
}

/// Maps a default-browser desktop file name to a browser id: the id of the
/// longest desktop pattern, alias or lowercased Flatpak application id found
/// in the name, the earliest on a tie; a Flatpak application id stands for
/// the Flatpak build's id.
pub fn resolve_default_id(defs: &[BrowserDef], desktop: &str) -> (r: Option<String>)
    ensures
        opt_view(r) == default_browser_id(def_views(defs@), desktop@),
{
    let d = chars_of(desktop);
    let mut all: Vec<(usize, String)> = Vec::new();
    let mut i: usize = 0;
    assert(cand_views(all@) =~= candidates(desktop@, def_views(defs@).take(0)));
    while i < defs.len()
        invariant
            0 <= i <= defs.len(),
            d@ == desktop@,
            cand_views(all@) == candidates(desktop@, def_views(defs@).take(i as int)),
        decreases defs.len() - i,
    {
        push_def_candidates(&mut all, d.as_slice(), &defs[i]);
        proof {
            let t = def_views(defs@).take(i as int + 1);
            assert(t.drop_last() =~= def_views(defs@).take(i as int));
            assert(t.last() == defs@[i as int]@);
        }
        i = i + 1;
    }
    assert(def_views(defs@).take(defs@.len() as int) =~= def_views(defs@));
    let ghost c = cand_views(all@);
    let mut best: Option<usize> = None;
    let mut k: usize = 0;
    assert(c.take(0).len() == 0);
    while k < all.len()
        invariant
            0 <= k <= all.len(),
            c == cand_views(all@),
            match best {
                None => longest(c.take(k as int)) is None,
                Some(b) => b < k && longest(c.take(k as int)) == Some(c[b as int]),
            },
        decreases all.len() - k,
    {
        proof {
            let t = c.take(k as int + 1);
            assert(t.drop_last() =~= c.take(k as int));
            assert(t.last() == c[k as int]);
        }
        match best {
            None => {
                best = Some(k);
            },
            Some(b) => {
                if all[k].0 > all[b].0 {
                    best = Some(k);
                }
            },
        }
        k = k + 1;
    }
    assert(c.take(all@.len() as int) =~= c);
    match best {
        None => None,
        Some(b) => Some(all[b].1.clone()),
    }
}

/// The winner is at least as long as every candidate, and longer than every
/// candidate before it.
pub proof fn lemma_longest_is_first_maximum(c: Seq<(nat, Seq<char>)>)
    ensures
        c.len() == 0 <==> longest(c) is None,
        longest(c) is Some ==> exists|i: int|
            0 <= i < c.len() && c[i] == longest(c)->0
                && (forall|j: int| 0 <= j < c.len() ==> #[trigger] c[j].0 <= c[i].0)
                && (forall|j: int| 0 <= j < i ==> #[trigger] c[j].0 < c[i].0),
    decreases c.len(),
{
    if c.len() > 0 {
        let p = c.drop_last();
        lemma_longest_is_first_maximum(p);
        match longest(p) {
            None => {
                assert(p.len() == 0);
                let i = c.len() - 1;
                assert(c[i] == longest(c)->0);
            },
            Some(best) => {
                let i = choose|i: int|
                    0 <= i < p.len() && p[i] == best && (forall|j: int| 0 <= j < p.len() ==> #[trigger] p[j].0
                        <= p[i].0) && (forall|j: int| 0 <= j < i ==> #[trigger] p[j].0 < p[i].0);
                if c.last().0 > best.0 {
                    let w = c.len() - 1;
                    assert forall|j: int| 0 <= j < c.len() implies #[trigger] c[j].0 <= c[w].0 by {
                        if j < w {
                            assert(c[j] == p[j]);
                        }
                    }
                    assert forall|j: int| 0 <= j < w implies #[trigger] c[j].0 < c[w].0 by {
                        assert(c[j] == p[j]);
                    }
                    assert(c[w] == longest(c)->0);
                } else {
                    assert(c[i] == p[i]);
                    assert forall|j: int| 0 <= j < c.len() implies #[trigger] c[j].0 <= c[i].0 by {
                        if j < c.len() - 1 {
                            assert(c[j] == p[j]);
                        }
                    }
                    assert forall|j: int| 0 <= j < i implies #[trigger] c[j].0 < c[i].0 by {
                        assert(c[j] == p[j]);
                    }
                }
            },
        }
    }
}

// ---------------------------------------------------------------------------
// Installed browsers

/// The ids of the browsers found installed natively, in definition order.
pub open spec fn native_ids(defs: Seq<BrowserDefView>, found: Seq<bool>) -> Seq<Seq<char>>
    decreases defs.len(),
{
    if defs.len() == 0 {
        Seq::empty()
    } else {
        let prev = native_ids(defs.drop_last(), found);
        if found[defs.len() - 1] {
            prev.push(defs.last().id)
        } else {
            prev
        }
    }
}

/// Whether `flatpak list --app --columns=application` printed `app_id` on a
/// line of its own (surrounding whitespace ignored).
pub open spec fn flatpak_listed(listing: Seq<char>, app_id: Seq<char>) -> bool {
    exists|k: int| 0 <= k < std_lines(listing).len() && trim(#[trigger] std_lines(listing)[k]) == app_id
}

/// The Flatpak build ids of the browsers whose application id the listing
/// names, in definition order; none when the listing could not be had.
pub open spec fn flatpak_ids(defs: Seq<BrowserDefView>, listing: Option<Seq<char>>) -> Seq<Seq<char>>
    decreases defs.len(),
{
    if defs.len() == 0 {
        Seq::empty()
    } else {
        let prev = flatpak_ids(defs.drop_last(), listing);
        let d = defs.last();
        match (listing, d.flatpak_app_id, d.flatpak_id) {
            (Some(text), Some(app_id), Some(fid)) => if flatpak_listed(text, app_id) {
                prev.push(fid)
            } else {
                prev
            },
            _ => prev,
        }
    }
}

fn any_path_exists(paths: &Vec<String>) -> (b: bool)
    ensures
        b ==> paths@.len() > 0,
{
    let mut k: usize = 0;
    while k < paths.len()
        invariant
            0 <= k <= paths.len(),
        decreases paths.len() - k,
    {
        if path_exists(paths[k].as_str()) {
            return true;
        }
        k = k + 1;
    }
    false
}

fn listing_has(lines: &Vec<Vec<char>>, app_id: &[char]) -> (b: bool)
    ensures
        b == exists|k: int| 0 <= k < lines@.len() && trim(#[trigger] lines@[k]@) == app_id@,
{
    let mut k: usize = 0;
    while k < lines.len()
        invariant
            0 <= k <= lines.len(),
            forall|j: int| 0 <= j < k ==> trim(#[trigger] lines@[j]@) != app_id@,
        decreases lines.len() - k,
    {
        let t = trimmed(lines[k].as_slice());
        if chars_equal(t.as_slice(), app_id) {
            return true;
        }
        k = k + 1;
    }
    false
}

/// The installed browsers, given which of them have a native executable
/// (`present`, one flag per definition): those browsers in definition order,
/// then each Flatpak build that `flatpak_listing` (the output of `flatpak
/// list --app --columns=application`, when it ran) names.
pub fn installed_browsers(defs: &[BrowserDef], present: &[bool], flatpak_listing: Option<&str>) -> (r: Vec<String>)
    requires
        present@.len() == defs@.len(),
    ensures
        r@.map_values(|s: String| s@) == native_ids(def_views(defs@), present@) + flatpak_ids(
            def_views(defs@),
            match flatpak_listing {
                Some(t) => Some(t@),
                None => None,
            },
        ),
{
    let ghost dv = def_views(defs@);
    let ghost lv = match flatpak_listing {
        Some(t) => Some(t@),
        None => None,
    };
    let mut out: Vec<String> = Vec::new();
    let mut found: Vec<bool> = Vec::new();
    let mut i: usize = 0;
    assert(native_ids(dv.take(0), found@) =~= Seq::<Seq<char>>::empty());
    while i < defs.len()
        invariant
            0 <= i <= defs.len(),
            dv == def_views(defs@),
            found@.len() == i,
            found@ == present@.take(i as int),
            present@.len() == defs@.len(),
            out@.map_values(|s: String| s@) == native_ids(dv.take(i as int), found@),
        decreases defs.len() - i,
    {
        let flag = present[i];
        let ghost before = out@.map_values(|s: String| s@);
        let ghost old_found = found@;
        found.push(flag);
        proof {
            lemma_native_ids_extend(dv.take(i as int), old_found, flag);
            let t = dv.take(i as int + 1);
            assert(t.drop_last() =~= dv.take(i as int));
            assert(t.last() == defs@[i as int]@);
        }
        if flag {
            let id = defs[i].id.clone();
            out.push(id);
            assert(out@.map_values(|s: String| s@) =~= before.push(id@));
        }
        proof {
            let t = dv.take(i as int + 1);
            lemma_native_ids_extend(t.drop_last(), old_found, flag);
        }
        i = i + 1;
    }
    assert(dv.take(defs@.len() as int) =~= dv);
    assert(found@ =~= present@);
    let ghost natives = out@.map_values(|s: String| s@);
    match flatpak_listing {
        Some(text) => {
            let lines = std_lines_of(chars_of(text).as_slice());
            let mut k: usize = 0;
            assert(flatpak_ids(dv.take(0), lv) =~= Seq::<Seq<char>>::empty());
            while k < defs.len()
                invariant
                    0 <= k <= defs.len(),
                    dv == def_views(defs@),
                    lv == Some(text@),
                    crate::text::views(lines@) == std_lines(text@),
                    out@.map_values(|s: String| s@) == natives + flatpak_ids(dv.take(k as int), lv),
                decreases defs.len() - k,
            {
                let ghost before = out@.map_values(|s: String| s@);
                proof {
                    let t = dv.take(k as int + 1);
                    assert(t.drop_last() =~= dv.take(k as int));
                    assert(t.last() == defs@[k as int]@);
                }
                match (&defs[k].flatpak_app_id, &defs[k].flatpak_id) {
                    (Some(app_id), Some(fid)) => {
                        let listed = listing_has(&lines, chars_of(app_id.as_str()).as_slice());
                        proof {
                            assert(listed == flatpak_listed(text@, app_id@)) by {
                                if listed {
                                    let j = choose|j: int| 0 <= j < lines@.len() && trim(#[trigger] lines@[j]@) == app_id@;
                                    assert(std_lines(text@)[j] == lines@[j]@);
                                }
                                if flatpak_listed(text@, app_id@) {
                                    let j = choose|j: int| 0 <= j < std_lines(text@).len() && trim(#[trigger] std_lines(text@)[j]) == app_id@;
                                    assert(std_lines(text@)[j] == lines@[j]@);
                                }
                            }
                        }
                        if listed {
                            let id = fid.clone();
                            out.push(id);
                            assert(out@.map_values(|s: String| s@) =~= before.push(id@));
                        }
                    },
                    _ => {},
                }
                k = k + 1;
            }
            assert(dv.take(defs@.len() as int) =~= dv);
        },
        None => {
            assert(flatpak_ids(dv, lv) =~= Seq::<Seq<char>>::empty()) by {
                lemma_flatpak_ids_none(dv);
            }
            assert(out@.map_values(|s: String| s@) =~= natives + flatpak_ids(dv, lv));
        },
    }
    out
}

/// The installed browsers: [`installed_browsers`] over which definitions have
/// one of their native executables present. Which executables exist is up
/// to the file system, so the contract holds for every answer it gives.
pub fn detect_browsers(defs: &[BrowserDef], flatpak_listing: Option<&str>) -> (r: Vec<String>)
    ensures
        exists|found: Seq<bool>|
            found.len() == defs@.len() && (forall|i: int| 0 <= i < defs@.len() && #[trigger] found[i]
                ==> defs@[i].native_paths@.len() > 0) && r@.map_values(|s: String| s@) == native_ids(
                def_views(defs@),
                found,
            ) + flatpak_ids(
                def_views(defs@),
                match flatpak_listing {
                    Some(t) => Some(t@),
                    None => None,
                },
            ),
{
    let mut present: Vec<bool> = Vec::new();
    let mut i: usize = 0;
    while i < defs.len()
        invariant
            0 <= i <= defs.len(),
            present@.len() == i,
            forall|j: int| 0 <= j < i && #[trigger] present@[j] ==> defs@[j].native_paths@.len() > 0,
        decreases defs.len() - i,
    {
        present.push(any_path_exists(&defs[i].native_paths));
        i = i + 1;
    }
    installed_browsers(defs, present.as_slice(), flatpak_listing)
}

proof fn lemma_native_ids_extend(defs: Seq<BrowserDefView>, found: Seq<bool>, next: bool)
    requires
        found.len() >= defs.len(),
    ensures
        native_ids(defs, found.push(next)) == native_ids(defs, found),
    decreases defs.len(),
{
    if defs.len() > 0 {
        lemma_native_ids_extend(defs.drop_last(), found, next);
        assert(found.push(next)[defs.len() - 1] == found[defs.len() - 1]);
    }
}

proof fn lemma_flatpak_ids_none(defs: Seq<BrowserDefView>)
    ensures
        flatpak_ids(defs, None) == Seq::<Seq<char>>::empty(),
    decreases defs.len(),
{
    if defs.len() > 0 {
        lemma_flatpak_ids_none(defs.drop_last());
    }
}

/// The default-browser desktop name `xdg-settings` or `xdg-mime` printed:
/// the output trimmed and lowercased, when anything is left.
pub open spec fn default_desktop_name(output: Seq<char>) -> Option<Seq<char>> {
    if unicode_lowercase(trim(output)).len() > 0 {
        Some(unicode_lowercase(trim(output)))
    } else {
        None
    }
}

pub fn default_browser_desktop(output: &str) -> (r: Option<String>)
    ensures
        opt_view(r) == default_desktop_name(output@),
{
    let lowered = to_lowercase(trimmed(chars_of(output).as_slice()).as_slice());
    if lowered.len() > 0 {
        Some(string_from(lowered.as_slice()))
    } else {
        None
    }
}

} // verus!
