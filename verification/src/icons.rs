//! Resolving an icon reference (an absolute file or a theme icon name) to a
//! file on disk, the way the desktop entries and the list rows need it.

use vstd::prelude::*;
use crate::text::{chars_of, string_from, split_char, split_on_char, views};
use crate::weburl::opt_view;

verus! {

/// The icon name handed back for an empty reference.
pub open spec fn generic_icon_name() -> Seq<char> {
    "webapp-manager-generic"@
}

/// The system-wide icon theme root.
pub open spec fn system_icons_root() -> Seq<char> {
    "/usr/share/icons"@
}

/// Where scalable application icons live inside a theme root.
pub open spec fn scalable_subdir() -> Seq<char> {
    "hicolor/scalable/apps"@
}

/// The sized application icon directories inside a theme root, in the order
/// they are tried: mid-range sizes (list thumbnails, dialog previews) first.
pub open spec fn sized_subdirs() -> Seq<Seq<char>> {
    seq![
        "hicolor/64x64/apps"@,
        "hicolor/48x48/apps"@,
        "hicolor/128x128/apps"@,
        "hicolor/32x32/apps"@,
        "hicolor/256x256/apps"@,
        "hicolor/512x512/apps"@,
        "hicolor/24x24/apps"@,
        "hicolor/22x22/apps"@,
        "hicolor/16x16/apps"@,
    ]
}

pub open spec fn svg_png_xpm() -> Seq<Seq<char>> {
    seq!["svg"@, "png"@, "xpm"@]
}

pub open spec fn svg_png() -> Seq<Seq<char>> {
    seq!["svg"@, "png"@]
}

pub open spec fn png_svg() -> Seq<Seq<char>> {
    seq!["png"@, "svg"@]
}

// ---------------------------------------------------------------------------
// Paths

/// A Unix path is absolute when it starts at the root.
pub open spec fn is_absolute_path(p: Seq<char>) -> bool {
    p.len() > 0 && p[0] == '/'
}

/// `Path::join` on Unix: an absolute `name` replaces `dir`; otherwise one
/// separator goes between them unless `dir` is empty or already ends in one.
pub open spec fn join_path(dir: Seq<char>, name: Seq<char>) -> Seq<char> {
    if is_absolute_path(name) {
        name
    } else if dir.len() == 0 || dir.last() == '/' {
        dir + name
    } else {
        dir.push('/') + name
    }
}

pub fn join_path_chars(dir: &[char], name: &[char]) -> (r: Vec<char>)
    ensures
        r@ == join_path(dir@, name@),
{
    let mut r: Vec<char> = Vec::new();
    if name.len() > 0 && name[0] == '/' {
        r.extend_from_slice(name);
        assert(r@ =~= name@);
        return r;
    }
    r.extend_from_slice(dir);
    if dir.len() > 0 && dir[dir.len() - 1] != '/' {
        r.push('/');
    }
    let ghost mid = r@;
    r.extend_from_slice(name);
    assert(r@ =~= mid + name@);
    r
}

/// `name.ext` in `dir`, for each extension in turn.
pub open spec fn with_exts(dir: Seq<char>, name: Seq<char>, exts: Seq<Seq<char>>) -> Seq<Seq<char>> {
    exts.map_values(|e: Seq<char>| join_path(dir, name + "."@ + e))
}

/// The sized directories of both theme roots for the first `k` sizes: the
/// user's directory before the system's at each size.
pub open spec fn sized_paths(user: Seq<char>, name: Seq<char>, k: nat) -> Seq<Seq<char>>
    decreases k,
{
    if k == 0 {
        Seq::empty()
    } else {
        let sub = sized_subdirs()[k - 1];
        sized_paths(user, name, (k - 1) as nat) + with_exts(join_path(user, sub), name, png_svg())
            + with_exts(join_path(system_icons_root(), sub), name, png_svg())
    }
}

/// Every file tried for one icon name, in order: drop-ins directly under the
/// user's icon directory, scalable theme icons (user, then system), sized
/// theme icons, and the package's own icon directory.
pub open spec fn lookup_paths(name: Seq<char>, user: Seq<char>, package: Seq<char>) -> Seq<Seq<char>> {
    with_exts(user, name, svg_png_xpm()) + with_exts(join_path(user, scalable_subdir()), name, svg_png())
        + with_exts(join_path(system_icons_root(), scalable_subdir()), name, svg_png())
        + sized_paths(user, name, sized_subdirs().len()) + with_exts(package, name, svg_png())
}

/// The lookup paths of each name in turn.
pub open spec fn search_paths(names: Seq<Seq<char>>, user: Seq<char>, package: Seq<char>) -> Seq<Seq<char>>
    decreases names.len(),
{
    if names.len() == 0 {
        Seq::empty()
    } else {
        search_paths(names.drop_last(), user, package) + lookup_paths(names.last(), user, package)
    }
}

/// The user's icon directory: `icons` under the data directory, or under
/// `/tmp` when there is none.
pub open spec fn user_icons_dir(data_dir: Option<Seq<char>>) -> Seq<char> {
    join_path(
        match data_dir {
            Some(d) => d,
            None => "/tmp"@,
        },
        "icons"@,
    )
}

/// Every file tried for `icon`, in order.
pub open spec fn icon_search_paths_spec(icon: Seq<char>, data_dir: Option<Seq<char>>, package: Seq<char>) -> Seq<Seq<char>> {
    search_paths(fallback_chain(icon), user_icons_dir(data_dir), package)
}

fn push_with_exts(out: &mut Vec<Vec<char>>, dir: &[char], name: &[char], exts: &Vec<Vec<char>>)
    ensures
        views(final(out)@) == views(old(out)@) + with_exts(dir@, name@, views(exts@)),
{
    let ghost start = views(out@);
    let mut k: usize = 0;
    while k < exts.len()
        invariant
            0 <= k <= exts.len(),
            views(out@) == start + with_exts(dir@, name@, views(exts@).take(k as int)),
        decreases exts.len() - k,
    {
        let mut file: Vec<char> = Vec::new();
        file.extend_from_slice(name);
        file.push('.');
        file.extend_from_slice(exts[k].as_slice());
        assert(file@ =~= name@ + "."@ + exts[k as int]@) by {
            reveal_strlit(".");
        }
        let path = join_path_chars(dir, file.as_slice());
        let ghost before = views(out@);
        out.push(path);
        proof {
            assert(views(out@) =~= before.push(path@));
            assert(with_exts(dir@, name@, views(exts@).take(k as int + 1)) =~= with_exts(
                dir@,
                name@,
                views(exts@).take(k as int),
            ).push(path@));
        }
        k = k + 1;
    }
    assert(views(exts@).take(exts@.len() as int) =~= views(exts@));
}

fn literal_list(a: &str, b: &str) -> (r: Vec<Vec<char>>)
    ensures
        views(r@) == seq![a@, b@],
{
    let mut r: Vec<Vec<char>> = Vec::new();
    r.push(chars_of(a));
    r.push(chars_of(b));
    assert(views(r@) =~= seq![a@, b@]);
    r
}

fn sized_subdir_list() -> (r: Vec<Vec<char>>)
    ensures
        views(r@) == sized_subdirs(),
{
    let mut r: Vec<Vec<char>> = Vec::new();
    r.push(chars_of("hicolor/64x64/apps"));
    r.push(chars_of("hicolor/48x48/apps"));
    r.push(chars_of("hicolor/128x128/apps"));
    r.push(chars_of("hicolor/32x32/apps"));
    r.push(chars_of("hicolor/256x256/apps"));
    r.push(chars_of("hicolor/512x512/apps"));
    r.push(chars_of("hicolor/24x24/apps"));
    r.push(chars_of("hicolor/22x22/apps"));
    r.push(chars_of("hicolor/16x16/apps"));
    assert(views(r@) =~= sized_subdirs());
    r
}

/// Every file tried for one icon name, in order.
pub fn lookup_path_list(name: &[char], user: &[char], package: &[char]) -> (r: Vec<Vec<char>>)
    ensures
        views(r@) == lookup_paths(name@, user@, package@),
{
    let sys = chars_of("/usr/share/icons");
    let scalable = chars_of("hicolor/scalable/apps");
    let mut first_exts: Vec<Vec<char>> = Vec::new();
    first_exts.push(chars_of("svg"));
    first_exts.push(chars_of("png"));
    first_exts.push(chars_of("xpm"));
    assert(views(first_exts@) =~= svg_png_xpm());
    let sp = literal_list("svg", "png");
    let ps = literal_list("png", "svg");
    let mut out: Vec<Vec<char>> = Vec::new();
    assert(views(out@) =~= Seq::<Seq<char>>::empty());
    push_with_exts(&mut out, user, name, &first_exts);
    let user_scalable = join_path_chars(user, scalable.as_slice());
    push_with_exts(&mut out, user_scalable.as_slice(), name, &sp);
    let sys_scalable = join_path_chars(sys.as_slice(), scalable.as_slice());
    push_with_exts(&mut out, sys_scalable.as_slice(), name, &sp);
    let ghost head = views(out@);
    let subs = sized_subdir_list();
    let mut k: usize = 0;
    assert(head =~= head + sized_paths(user@, name@, 0));
    while k < subs.len()
        invariant
            0 <= k <= subs.len(),
            views(subs@) == sized_subdirs(),
            sys@ == system_icons_root(),
            views(ps@) == png_svg(),
            views(out@) == head + sized_paths(user@, name@, k as nat),
        decreases subs.len() - k,
    {
        let user_dir = join_path_chars(user, subs[k].as_slice());
        push_with_exts(&mut out, user_dir.as_slice(), name, &ps);
        let sys_dir = join_path_chars(sys.as_slice(), subs[k].as_slice());
        push_with_exts(&mut out, sys_dir.as_slice(), name, &ps);
        proof {
            assert(sized_subdirs()[k as int] == subs@[k as int]@);
            assert(views(out@) =~= head + sized_paths(user@, name@, (k + 1) as nat));
        }
        k = k + 1;
    }
    push_with_exts(&mut out, package, name, &sp);
    assert(views(out@) =~= lookup_paths(name@, user@, package@));
    out
}

// ---------------------------------------------------------------------------
// Name fallback

/// The parts joined with `sep` between each two.
pub open spec fn join_with(parts: Seq<Seq<char>>, sep: char) -> Seq<char>
    decreases parts.len(),
{
    if parts.len() == 0 {
        Seq::empty()
    } else if parts.len() == 1 {
        parts[0]
    } else {
        join_with(parts.drop_last(), sep).push(sep) + parts.last()
    }
}

/// Progressive suffix stripping: `foo-bar-baz`, then `foo-bar`, then `foo`.
pub open spec fn fallback_chain(icon: Seq<char>) -> Seq<Seq<char>> {
    let parts = split_char(icon, '-');
    Seq::new(parts.len(), |i: int| join_with(parts.take(parts.len() - i), '-'))
}

fn join_prefix(parts: &Vec<Vec<char>>, end: usize, sep: char) -> (r: Vec<char>)
    requires
        1 <= end <= parts.len(),
    ensures
        r@ == join_with(views(parts@).take(end as int), sep),
{
    let mut acc: Vec<char> = parts[0].clone();
    assert(views(parts@).take(1).drop_last().len() == 0);
    let mut j: usize = 1;
    while j < end
        invariant
            1 <= j <= end <= parts.len(),
            acc@ == join_with(views(parts@).take(j as int), sep),
        decreases end - j,
    {
        let ghost before = acc@;
        acc.push(sep);
        acc.extend_from_slice(parts[j].as_slice());
        proof {
            let t = views(parts@).take(j as int + 1);
            assert(t.drop_last() =~= views(parts@).take(j as int));
            assert(acc@ =~= before.push(sep) + t.last());
        }
        j = j + 1;
    }
    acc
}

fn fallback_chain_chars(icon: &[char]) -> (r: Vec<Vec<char>>)
    ensures
        views(r@) == fallback_chain(icon@),
{
    let parts = split_on_char(icon, '-');
    let n = parts.len();
    let mut chain: Vec<Vec<char>> = Vec::new();
    let mut i: usize = 0;
    while i < n
        invariant
            0 <= i <= n == parts.len(),
            views(parts@) == split_char(icon@, '-'),
            views(chain@) == fallback_chain(icon@).take(i as int),
        decreases n - i,
    {
        let joined = join_prefix(&parts, n - i, '-');
        let ghost before = views(chain@);
        chain.push(joined);
        proof {
            assert(views(chain@) =~= before.push(joined@));
            assert(fallback_chain(icon@)[i as int] == joined@);
            assert(views(chain@) =~= fallback_chain(icon@).take(i as int + 1));
        }
        i = i + 1;
    }
    assert(fallback_chain(icon@).take(n as int) =~= fallback_chain(icon@));
    chain
}

/// The names tried for `icon`, longest first: the name itself, then the name
/// with its last `-` part dropped, and so on down to the first part.
pub fn name_fallback_chain(icon: &str) -> (r: Vec<String>)
    ensures
        r@.map_values(|s: String| s@) == fallback_chain(icon@),
{
    let chain = fallback_chain_chars(chars_of(icon).as_slice());
    let mut r: Vec<String> = Vec::new();
    let mut i: usize = 0;
    while i < chain.len()
        invariant
            0 <= i <= chain.len(),
            views(chain@) == fallback_chain(icon@),
            r@.map_values(|s: String| s@) == views(chain@).take(i as int),
        decreases chain.len() - i,
    {
        let ghost before = r@.map_values(|s: String| s@);
        let item = string_from(chain[i].as_slice());
        r.push(item);
        proof {
            assert(r@.map_values(|s: String| s@) =~= before.push(item@));
            assert(views(chain@)[i as int] == chain@[i as int]@);
            assert(r@.map_values(|s: String| s@) =~= views(chain@).take(i as int + 1));
        }
        i = i + 1;
    }
    assert(views(chain@).take(chain@.len() as int) =~= views(chain@));
    r
}

/// Splitting on a character and joining the parts back with it gives the
/// text back.
pub proof fn lemma_join_split(s: Seq<char>, c: char)
    ensures
        join_with(split_char(s, c), c) == s,
    decreases s.len(),
{
    crate::text::lemma_split_by_nonempty(s, crate::text::is_either(c, c));
    if s.len() > 0 {
        let init = split_char(s.drop_last(), c);
        lemma_join_split(s.drop_last(), c);
        crate::text::lemma_split_by_nonempty(s.drop_last(), crate::text::is_either(c, c));
        if s.last() == c {
            assert(split_char(s, c) == init.push(Seq::<char>::empty()));
            assert(init.push(Seq::<char>::empty()).drop_last() =~= init);
            assert(s =~= s.drop_last().push(c));
        } else {
            let p = init.update(init.len() - 1, init.last().push(s.last()));
            assert(split_char(s, c) == p);
            if init.len() == 1 {
                assert(s =~= s.drop_last().push(s.last()));
            } else {
                assert(p.drop_last() =~= init.drop_last());
                assert(join_with(p, c) =~= join_with(init, c).push(s.last()));
                assert(s =~= s.drop_last().push(s.last()));
            }
        }
    }
}

/// The first name tried is the icon reference itself, so an exact match
/// always wins over a shortened one.
pub proof fn lemma_fallback_starts_with_icon(icon: Seq<char>)
    ensures
        fallback_chain(icon).len() >= 1,
        fallback_chain(icon)[0] == icon,
{
    let parts = split_char(icon, '-');
    crate::text::lemma_split_by_nonempty(icon, crate::text::is_either('-', '-'));
    lemma_join_split(icon, '-');
    assert(parts.take(parts.len() as int) =~= parts);
}

// ---------------------------------------------------------------------------
// Resolution

/// Every file tried for `icon` when the user's data directory is `data_dir`
/// and the package ships its icons in `package_icons_dir`, in order.
pub fn icon_search_paths(icon: &str, data_dir: Option<&str>, package_icons_dir: &str) -> (r: Vec<String>)
    ensures
        r@.map_values(|s: String| s@) == icon_search_paths_spec(
            icon@,
            match data_dir {
                Some(d) => Some(d@),
                None => None,
            },
            package_icons_dir@,
        ),
{
    let base = match data_dir {
        Some(d) => chars_of(d),
        None => chars_of("/tmp"),
    };
    let user = join_path_chars(base.as_slice(), chars_of("icons").as_slice());
    let package = chars_of(package_icons_dir);
    let names = fallback_chain_chars(chars_of(icon).as_slice());
    let ghost ddv = match data_dir {
        Some(d) => Some(d@),
        None => None,
    };
    assert(user@ == user_icons_dir(ddv));
    let mut out: Vec<String> = Vec::new();
    let mut i: usize = 0;
    assert(names@.take(0).len() == 0);
    assert(out@.map_values(|s: String| s@) =~= search_paths(views(names@).take(0), user@, package@));
    while i < names.len()
        invariant
            0 <= i <= names.len(),
            views(names@) == fallback_chain(icon@),
            out@.map_values(|s: String| s@) == search_paths(views(names@).take(i as int), user@, package@),
        decreases names.len() - i,
    {
        let paths = lookup_path_list(names[i].as_slice(), user.as_slice(), package.as_slice());
        let ghost start = out@.map_values(|s: String| s@);
        let mut k: usize = 0;
        while k < paths.len()
            invariant
                0 <= k <= paths.len(),
                out@.map_values(|s: String| s@) == start + views(paths@).take(k as int),
            decreases paths.len() - k,
        {
            let ghost before = out@.map_values(|s: String| s@);
            let item = string_from(paths[k].as_slice());
            out.push(item);
            proof {
                assert(out@.map_values(|s: String| s@) =~= before.push(item@));
                assert(views(paths@)[k as int] == paths@[k as int]@);
                assert(out@.map_values(|s: String| s@) =~= start + views(paths@).take(k as int + 1));
            }
            k = k + 1;
        }
        proof {
            assert(views(paths@).take(paths@.len() as int) =~= views(paths@));
            let t = views(names@).take(i as int + 1);
            assert(t.drop_last() =~= views(names@).take(i as int));
            assert(t.last() == names@[i as int]@);
        }
        i = i + 1;
    }
    assert(views(names@).take(names@.len() as int) =~= views(names@));
    out
}

/// `std::path::Path::exists`. What it answers depends on the file system at
/// the time of the call; nothing is stated of it.
#[verifier::external_body]
pub(crate) fn path_exists(path: &str) -> bool {
    std::path::Path::new(path).exists()
}

/// `dirs::data_dir`, converted with `to_string_lossy`. It depends on the
/// environment (`XDG_DATA_HOME`, `HOME`); nothing is stated of it.
#[verifier::external_body]
fn data_dir() -> Option<String> {
    dirs::data_dir().map(|dir| dir.to_string_lossy().into_owned())
}

/// `icon` itself when it is an absolute path to an existing file.
fn absolute_existing(icon: &str) -> (r: Option<String>)
    ensures
        r matches Some(p) ==> p@ == icon@ && is_absolute_path(icon@),
        !is_absolute_path(icon@) ==> r is None,
{
    let chars = chars_of(icon);
    if chars.len() > 0 && chars[0] == '/' && path_exists(icon) {
        Some(icon.to_string())
    } else {
        None
    }
}

/// Probes `paths` in order and stops at the first that exists: the answers
/// for the paths probed, `false` for those after the first hit (not probed).
fn probe_until_found(paths: &Vec<String>) -> (found: Vec<bool>)
    ensures
        found@.len() == paths@.len(),
        forall|i: int, j: int| 0 <= i < j < found@.len() && found@[j] ==> !found@[i],
{
    let mut found: Vec<bool> = Vec::new();
    let mut hit = false;
    let mut k: usize = 0;
    while k < paths.len()
        invariant
            0 <= k <= paths.len(),
            found@.len() == k,
            hit <==> exists|i: int| 0 <= i < k && found@[i],
            forall|i: int, j: int| 0 <= i < j < k && found@[j] ==> !found@[i],
        decreases paths.len() - k,
    {
        let answer = if hit {
            false
        } else {
            path_exists(paths[k].as_str())
        };
        let ghost before = found@;
        found.push(answer);
        proof {
            assert(found@[k as int] == answer);
            assert(forall|i: int| 0 <= i < k ==> found@[i] == before[i]);
        }
        if answer {
            hit = true;
        }
        k = k + 1;
    }
    found
}

/// Index of the first `true` in `found`.
pub open spec fn first_true(found: Seq<bool>) -> Option<int>
    decreases found.len(),
{
    if found.len() == 0 {
        None
    } else {
        match first_true(found.drop_last()) {
            Some(i) => Some(i),
            None => if found.last() {
                Some(found.len() - 1)
            } else {
                None
            },
        }
    }
}

pub proof fn lemma_first_true(found: Seq<bool>)
    ensures
        first_true(found) matches Some(i) ==> 0 <= i < found.len() && found[i] && forall|j: int|
            0 <= j < i ==> !found[j],
        first_true(found) is None ==> forall|j: int| 0 <= j < found.len() ==> !found[j],
    decreases found.len(),
{
    if found.len() > 0 {
        let w = found.drop_last();
        lemma_first_true(w);
        assert(forall|j: int| 0 <= j < w.len() ==> w[j] == found[j]);
    }
}

/// What an icon reference resolves to, given the answers of the file system:
/// the generic name for an empty reference; the reference itself when it is
/// an absolute path to an existing file (`absolute_exists`); otherwise the
/// first of `paths` whose entry in `found` is `true`; otherwise the
/// reference itself, for the icon theme to look up.
pub open spec fn pick_icon(icon: Seq<char>, absolute_exists: bool, paths: Seq<Seq<char>>, found: Seq<bool>) -> Seq<char> {
    if icon.len() == 0 {
        generic_icon_name()
    } else if is_absolute_path(icon) && absolute_exists {
        icon
    } else {
        match first_true(found) {
            Some(i) => if i < paths.len() {
                paths[i]
            } else {
                icon
            },
            None => icon,
        }
    }
}

/// Decides what an icon reference resolves to, given whether it names an
/// existing absolute file and which search paths (in order) exist.
pub fn choose_icon_path(icon: &str, absolute_exists: bool, paths: &[String], exists: &[bool]) -> (r: String)
    requires
        paths.len() == exists.len(),
    ensures
        r@ == pick_icon(icon@, absolute_exists, paths@.map_values(|s: String| s@), exists@),
{
    let chars = chars_of(icon);
    if chars.len() == 0 {
        return "webapp-manager-generic".to_string();
    }
    if chars[0] == '/' && absolute_exists {
        return icon.to_string();
    }
    proof {
        lemma_first_true(exists@);
    }
    let mut k: usize = 0;
    while k < exists.len()
        invariant
            0 <= k <= exists.len(),
            paths.len() == exists.len(),
            icon@.len() > 0,
            !(is_absolute_path(icon@) && absolute_exists),
            forall|j: int| 0 <= j < k ==> !exists@[j],
        decreases exists.len() - k,
    {
        if exists[k] {
            let hit = paths[k].clone();
            proof {
                lemma_first_true(exists@);
                assert(paths@.map_values(|s: String| s@)[k as int] == hit@);
                assert(first_true(exists@) == Some(k as int));
            }
            return hit;
        }
        k = k + 1;
    }
    icon.to_string()
}

/// Resolves an icon reference to what a caller can display: an absolute file
/// path to load, or a plain icon name to hand to the icon theme.
///
/// An empty reference gives the generic icon name. An absolute reference to
/// an existing file is returned as it is. Otherwise the names of the fallback
/// chain are looked up in turn ([`icon_search_paths`]) and the first file
/// that exists is returned; when none does, the reference itself comes back.
/// What exists is up to the file system and the data directory up to the
/// environment; [`choose_icon_path`] makes the choice from those answers.
pub fn resolve_icon_path(icon: &str, package_icons_dir: &str) -> (r: String)
    ensures
        exists|abs: bool, d: Option<Seq<char>>, found: Seq<bool>|
            found.len() == icon_search_paths_spec(icon@, d, package_icons_dir@).len() && r@
                == #[trigger] pick_icon(
                icon@,
                abs,
                icon_search_paths_spec(icon@, d, package_icons_dir@),
                found,
            ),
{
    let ghost none_dir: Option<Seq<char>> = None;
    let ghost p0 = icon_search_paths_spec(icon@, none_dir, package_icons_dir@);
    let ghost no_hits = Seq::new(p0.len(), |i: int| false);
    if chars_of(icon).len() == 0 {
        assert(pick_icon(icon@, false, p0, no_hits) == generic_icon_name());
        return "webapp-manager-generic".to_string();
    }
    if absolute_existing(icon).is_some() {
        let empty_paths: Vec<String> = Vec::new();
        let empty_found: Vec<bool> = Vec::new();
        let r = choose_icon_path(icon, true, empty_paths.as_slice(), empty_found.as_slice());
        assert(r@ == pick_icon(icon@, true, p0, no_hits));
        return r;
    }
    let dir = data_dir();
    let paths = match &dir {
        Some(d) => icon_search_paths(icon, Some(d.as_str()), package_icons_dir),
        None => icon_search_paths(icon, None, package_icons_dir),
    };
    let found = probe_until_found(&paths);
    let r = choose_icon_path(icon, false, paths.as_slice(), found.as_slice());
    assert(r@ == pick_icon(icon@, false, icon_search_paths_spec(icon@, opt_view(dir), package_icons_dir@), found@));
    r
}

} // verus!
