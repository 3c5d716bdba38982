//! The checks an import archive goes through: reading the `7z l -slt`
//! listing of its entries, the limits that guard against decompression bombs,
//! and which entries are icons to restore.

use vstd::prelude::*;
use crate::text::{
    chars_equal, chars_of, contains, contains_chars, has_prefix, split_char, split_on_char, starts_with, string_from, views,
};
use crate::icons::is_absolute_path;
use crate::legacy::{WebApp, WebAppView};
use crate::weburl::opt_view;
use crate::html::{lemma_digits_value_prefix, unsigned_digits};
use crate::svg::{digits_value, is_digit};
use crate::legacy::{strip_prefix, strip_prefix_chars};
use vstd::utf8::{encode_utf8, valid_utf8};

verus! {

/// Largest file taken out of an import archive, in bytes (50 MiB).
pub const MAX_EXTRACTED_FILE_BYTES: u64 = 52428800;
/// Most web apps one archive may hold.
pub const MAX_IMPORTED_APPS: usize = 1000;
/// Most entries one archive may hold.
pub const MAX_ARCHIVE_ENTRIES: usize = 2000;
/// Largest total uncompressed size of an archive, in bytes (200 MiB).
pub const MAX_ARCHIVE_TOTAL_BYTES: u64 = 209715200;

/// One file in an archive listing.
#[derive(Debug)]
pub struct ArchiveEntry {
    pub path: String,
    pub size: u64,
}

pub open spec fn entry_views(v: Seq<ArchiveEntry>) -> Seq<(Seq<char>, u64)> {
    v.map_values(|e: ArchiveEntry| (e.path@, e.size))
}

// ---------------------------------------------------------------------------
// Listing

/// `u64::from_str`: an optional `+` and at least one decimal digit, the value
/// fitting in 64 bits.
pub open spec fn parse_u64_spec(t: Seq<char>) -> Option<u64> {
    let d = unsigned_digits(t);
    if d.len() > 0 && (forall|i: int| 0 <= i < d.len() ==> is_digit(#[trigger] d[i]))
        && digits_value(d) <= u64::MAX {
        Some(digits_value(d) as u64)
    } else {
        None
    }
}

pub fn parse_u64(t: &[char]) -> (r: Option<u64>)
    ensures
        r == parse_u64_spec(t@),
{
    let start: usize = if t.len() > 0 && t[0] == '+' {
        1
    } else {
        0
    };
    let ghost d = unsigned_digits(t@);
    assert(d =~= t@.subrange(start as int, t@.len() as int));
    if start >= t.len() {
        return None;
    }
    let mut value: u128 = 0;
    let mut i = start;
    while i < t.len()
        invariant
            start <= i <= t@.len(),
            d == t@.subrange(start as int, t@.len() as int),
            d == unsigned_digits(t@),
            forall|j: int| 0 <= j < i - start ==> is_digit(#[trigger] d[j]),
            value == digits_value(d.take(i - start)),
            value <= u64::MAX,
        decreases t.len() - i,
    {
        let c = t[i];
        let ghost k = i - start;
        assert(d[k] == c);
        assert(d.take(k + 1).drop_last() =~= d.take(k));
        assert(d.take(k + 1).last() == c);
        if !('0' <= c && c <= '9') {
            assert(!is_digit(d[k]));
            return None;
        }
        value = value * 10 + ((c as u32) - ('0' as u32)) as u128;
        assert(value == digits_value(d.take(k + 1)));
        if value > 18446744073709551615 {
            proof {
                if forall|j: int| 0 <= j < d.len() ==> is_digit(#[trigger] d[j]) {
                    lemma_digits_value_prefix(d, k + 1);
                }
            }
            return None;
        }
        i = i + 1;
    }
    assert(d.take(d.len() as int) =~= d);
    Some(value as u64)
}

/// Reader state over the listing: the entries so far, the path being read
/// (if any), its size so far, and whether the entry section has begun.
pub type ListingState = (Seq<(Seq<char>, u64)>, Option<Seq<char>>, u64, bool);

/// One line of `7z l -slt` output. The first `----------` opens the entry
/// section; a later one, or a new `Path = `, closes the entry being read.
/// `Size = ` sets its size (0 when not a number). Everything before the
/// section, and every other line, is ignored.
pub open spec fn listing_step(st: ListingState, line: Seq<char>) -> ListingState {
    let (entries, path, size, in_entries) = st;
    if line == "----------"@ {
        if !in_entries {
            (entries, None, 0, true)
        } else {
            match path {
                Some(p) => (entries.push((p, size)), None, 0, in_entries),
                None => st,
            }
        }
    } else if !in_entries {
        st
    } else {
        match strip_prefix(line, "Path = "@) {
            Some(v) => match path {
                Some(p) => (entries.push((p, size)), Some(v), 0, in_entries),
                None => (entries, Some(v), size, in_entries),
            },
            None => match strip_prefix(line, "Size = "@) {
                Some(v) => (
                    entries,
                    path,
                    match parse_u64_spec(v) {
                        Some(n) => n,
                        None => 0,
                    },
                    in_entries,
                ),
                None => st,
            },
        }
    }
}

pub open spec fn listing_state(lines: Seq<Seq<char>>) -> ListingState
    decreases lines.len(),
{
    if lines.len() == 0 {
        (Seq::empty(), None, 0, false)
    } else {
        listing_step(listing_state(lines.drop_last()), lines.last())
    }
}

/// The lines of a text as `str::lines` gives them: split at `\n`, one `\r`
/// before each `\n` removed, and no empty line after a final `\n`.
pub open spec fn std_lines(text: Seq<char>) -> Seq<Seq<char>> {
    let pieces = split_char(text, '\n');
    let full = if pieces.last().len() == 0 {
        pieces.drop_last()
    } else {
        pieces
    };
    Seq::new(
        full.len(),
        |i: int|
            if i < pieces.len() - 1 && full[i].len() > 0 && full[i].last() == '\r' {
                full[i].drop_last()
            } else {
                full[i]
            },
    )
}

/// The entries a `7z l -slt` listing describes, in order.
pub open spec fn listing_entries(text: Seq<char>) -> Seq<(Seq<char>, u64)> {
    let (entries, path, size, _) = listing_state(std_lines(text));
    match path {
        Some(p) => entries.push((p, size)),
        None => entries,
    }
}

pub(crate) fn std_lines_of(text: &[char]) -> (r: Vec<Vec<char>>)
    ensures
        views(r@) == std_lines(text@),
{
    proof {
        crate::text::lemma_split_by_nonempty(text@, crate::text::is_either('\n', '\n'));
    }
    let pieces = split_on_char(text, '\n');
    let ghost pv = views(pieces@);
    let n = pieces.len();
    let count = if pieces[n - 1].len() == 0 {
        n - 1
    } else {
        n
    };
    let ghost full = if pv.last().len() == 0 {
        pv.drop_last()
    } else {
        pv
    };
    assert(full.len() == count);
    assert(std_lines(text@).len() == count);
    assert forall|j: int| 0 <= j < count implies #[trigger] std_lines(text@)[j] == (if j < n - 1
        && full[j].len() > 0 && full[j].last() == '\r' {
        full[j].drop_last()
    } else {
        full[j]
    }) by {}
    let mut out: Vec<Vec<char>> = Vec::new();
    let mut i: usize = 0;
    while i < count
        invariant
            0 <= i <= count <= n == pieces.len(),
            pv == views(pieces@),
            pv == split_char(text@, '\n'),
            full.len() == count,
            std_lines(text@).len() == count,
            forall|j: int| 0 <= j < count ==> #[trigger] full[j] == pv[j],
            forall|j: int| 0 <= j < count ==> #[trigger] std_lines(text@)[j] == (if j < n - 1
                && full[j].len() > 0 && full[j].last() == '\r' {
                full[j].drop_last()
            } else {
                full[j]
            }),
            views(out@) == std_lines(text@).take(i as int),
        decreases count - i,
    {
        let piece = &pieces[i];
        let m = piece.len();
        let mut line: Vec<char> = Vec::new();
        if i < n - 1 && m > 0 && piece[m - 1] == '\r' {
            line.extend_from_slice(&piece.as_slice()[0..m - 1]);
            assert(line@ =~= piece@.drop_last());
        } else {
            line.extend_from_slice(piece.as_slice());
            assert(line@ =~= piece@);
        }
        let ghost before = views(out@);
        proof {
            assert(full[i as int] == pv[i as int]);
            assert(pv[i as int] == piece@);
            assert(std_lines(text@)[i as int] == line@);
        }
        out.push(line);
        proof {
            assert(full[i as int] == pv[i as int]);
            assert(pv[i as int] == pieces@[i as int]@);
            assert(views(out@) =~= before.push(line@));
            assert(views(out@) =~= std_lines(text@).take(i as int + 1));
        }
        i = i + 1;
    }
    assert(std_lines(text@).take(count as int) =~= std_lines(text@));
    out
}

pub open spec fn state_of(entries: Seq<ArchiveEntry>, path: Option<Vec<char>>, size: u64, in_entries: bool) -> ListingState {
    (
        entry_views(entries),
        match path {
            Some(p) => Some(p@),
            None => None,
        },
        size,
        in_entries,
    )
}

/// Reads the entries (path and uncompressed size) out of `7z l -slt` output.
pub fn parse_archive_listing(text: &str) -> (r: Vec<ArchiveEntry>)
    ensures
        entry_views(r@) == listing_entries(text@),
{
    let lines = std_lines_of(chars_of(text).as_slice());
    let mut entries: Vec<ArchiveEntry> = Vec::new();
    let mut path: Option<Vec<char>> = None;
    let mut size: u64 = 0;
    let mut in_entries = false;
    let mut i: usize = 0;
    assert(entry_views(entries@) =~= Seq::<(Seq<char>, u64)>::empty());
    assert(views(lines@).take(0).len() == 0);
    while i < lines.len()
        invariant
            0 <= i <= lines.len(),
            views(lines@) == std_lines(text@),
            state_of(entries@, path, size, in_entries) == listing_state(views(lines@).take(i as int)),
        decreases lines.len() - i,
    {
        let line = &lines[i];
        let ghost st = state_of(entries@, path, size, in_entries);
        let ghost before = entry_views(entries@);
        proof {
            let t = views(lines@).take(i as int + 1);
            assert(t.drop_last() =~= views(lines@).take(i as int));
            assert(t.last() == lines@[i as int]@);
        }
        if crate::text::chars_equal(line.as_slice(), &chars_of("----------")) {
            if !in_entries {
                in_entries = true;
                path = None;
                size = 0;
            } else {
                match path {
                    Some(p) => {
                        let e = ArchiveEntry { path: string_from(p.as_slice()), size };
                        entries.push(e);
                        assert(entry_views(entries@) =~= before.push((p@, size)));
                        path = None;
                        size = 0;
                    },
                    None => {},
                }
            }
        } else if in_entries {
            match strip_prefix_chars(line.as_slice(), &chars_of("Path = ")) {
                Some(v) => {
                    match path {
                        Some(p) => {
                            let e = ArchiveEntry { path: string_from(p.as_slice()), size };
                            entries.push(e);
                            assert(entry_views(entries@) =~= before.push((p@, size)));
                            size = 0;
                        },
                        None => {},
                    }
                    path = Some(v);
                },
                None => {
                    match strip_prefix_chars(line.as_slice(), &chars_of("Size = ")) {
                        Some(v) => {
                            size = match parse_u64(v.as_slice()) {
                                Some(n) => n,
                                None => 0,
                            };
                        },
                        None => {},
                    }
                },
            }
        }
        i = i + 1;
    }
    assert(views(lines@).take(lines@.len() as int) =~= views(lines@));
    match path {
        Some(p) => {
            let ghost before = entry_views(entries@);
            let e = ArchiveEntry { path: string_from(p.as_slice()), size };
            entries.push(e);
            assert(entry_views(entries@) =~= before.push((p@, size)));
        },
        None => {},
    }
    entries
}

// ---------------------------------------------------------------------------
// Limits

/// Why an import archive is refused.
#[derive(Debug, Clone, PartialEq, Eq, Structural)]
pub enum ImportError {
    /// More than [`MAX_IMPORTED_APPS`] web apps.
    TooManyApps,
    /// More than [`MAX_ARCHIVE_ENTRIES`] entries.
    TooManyEntries,
    /// The entry sizes do not even add up within 64 bits.
    SizeOverflow,
    /// The entries add up to more than [`MAX_ARCHIVE_TOTAL_BYTES`].
    TooLarge,
    /// An icon path that could leave the staging directory or match a glob.
    UnsafeIconPath,
    /// An icon larger than [`MAX_EXTRACTED_FILE_BYTES`].
    OversizedIcon,
    /// Two icon entries with one name.
    DuplicateIcon,
    /// An extracted file ran past its size limit.
    EntryTooLarge,
    /// An extracted file that should be text is not UTF-8.
    NotText,
}

pub open spec fn size_sum(entries: Seq<(Seq<char>, u64)>) -> int
    decreases entries.len(),
{
    if entries.len() == 0 {
        0
    } else {
        size_sum(entries.drop_last()) + entries.last().1
    }
}

/// The limits an archive must meet before anything is extracted, checked in
/// this order: how many apps its manifest holds, how many entries it has,
/// and their total size.
pub open spec fn import_limits(app_count: nat, entries: Seq<(Seq<char>, u64)>) -> Result<(), ImportError> {
    if app_count > MAX_IMPORTED_APPS {
        Err(ImportError::TooManyApps)
    } else if entries.len() > MAX_ARCHIVE_ENTRIES {
        Err(ImportError::TooManyEntries)
    } else if size_sum(entries) > u64::MAX {
        Err(ImportError::SizeOverflow)
    } else if size_sum(entries) > MAX_ARCHIVE_TOTAL_BYTES {
        Err(ImportError::TooLarge)
    } else {
        Ok(())
    }
}

proof fn lemma_size_sum_monotone(entries: Seq<(Seq<char>, u64)>, k: int)
    requires
        0 <= k <= entries.len(),
    ensures
        size_sum(entries.take(k)) <= size_sum(entries),
    decreases entries.len() - k,
{
    if k < entries.len() {
        lemma_size_sum_monotone(entries, k + 1);
        assert(entries.take(k + 1).drop_last() =~= entries.take(k));
    } else {
        assert(entries.take(k) =~= entries);
    }
}

pub fn check_import_limits(app_count: usize, entries: &[ArchiveEntry]) -> (r: Result<(), ImportError>)
    ensures
        r == import_limits(app_count as nat, entry_views(entries@)),
{
    if app_count > MAX_IMPORTED_APPS {
        return Err(ImportError::TooManyApps);
    }
    if entries.len() > MAX_ARCHIVE_ENTRIES {
        return Err(ImportError::TooManyEntries);
    }
    let ghost e = entry_views(entries@);
    let mut total: u64 = 0;
    let mut i: usize = 0;
    while i < entries.len()
        invariant
            0 <= i <= entries.len(),
            app_count <= MAX_IMPORTED_APPS,
            entries.len() <= MAX_ARCHIVE_ENTRIES,
            e == entry_views(entries@),
            total == size_sum(e.take(i as int)),
        decreases entries.len() - i,
    {
        proof {
            let t = e.take(i as int + 1);
            assert(t.drop_last() =~= e.take(i as int));
            assert(t.last() == e[i as int]);
            assert(e[i as int].1 == entries@[i as int].size);
        }
        match total.checked_add(entries[i].size) {
            Some(t) => {
                total = t;
            },
            None => {
                proof {
                    lemma_size_sum_monotone(e, i as int + 1);
                }
                return Err(ImportError::SizeOverflow);
            },
        }
        i = i + 1;
    }
    assert(e.take(e.len() as int) =~= e);
    if total > MAX_ARCHIVE_TOTAL_BYTES {
        return Err(ImportError::TooLarge);
    }
    Ok(())
}

// ---------------------------------------------------------------------------
// Icons

/// An icon name is safe when it holds no path separator, no glob character
/// and no `..`.
pub open spec fn safe_icon_name(name: Seq<char>) -> bool {
    !name.contains('/') && !name.contains('\\') && !name.contains('*') && !name.contains('?')
        && !name.contains('[') && !name.contains(']') && !contains(name, ".."@)
}

pub fn is_safe_icon_name(name: &[char]) -> (b: bool)
    ensures
        b == safe_icon_name(name@),
{
    let mut i: usize = 0;
    while i < name.len()
        invariant
            0 <= i <= name.len(),
            forall|j: int| 0 <= j < i ==> {
                let c = #[trigger] name@[j];
                c != '/' && c != '\\' && c != '*' && c != '?' && c != '[' && c != ']'
            },
        decreases name.len() - i,
    {
        let c = name[i];
        if c == '/' || c == '\\' || c == '*' || c == '?' || c == '[' || c == ']' {
            assert(name@.contains(c));
            return false;
        }
        i = i + 1;
    }
    !contains_chars(name, &chars_of(".."))
}

/// The icons to restore: each entry under `icons/` with a non-empty name, as
/// (name, archive path). Refused when an icon name is unsafe, an icon is too
/// large or two icons share a name, whichever entry comes first.
pub open spec fn icon_plan(entries: Seq<(Seq<char>, u64)>) -> Result<Seq<(Seq<char>, Seq<char>)>, ImportError>
    decreases entries.len(),
{
    if entries.len() == 0 {
        Ok(Seq::empty())
    } else {
        match icon_plan(entries.drop_last()) {
            Err(e) => Err(e),
            Ok(plan) => {
                let (path, size) = entries.last();
                match strip_prefix(path, "icons/"@) {
                    None => Ok(plan),
                    Some(name) => if name.len() == 0 {
                        Ok(plan)
                    } else if !safe_icon_name(name) {
                        Err(ImportError::UnsafeIconPath)
                    } else if size > MAX_EXTRACTED_FILE_BYTES {
                        Err(ImportError::OversizedIcon)
                    } else if exists|k: int| 0 <= k < plan.len() && #[trigger] plan[k].0 == name {
                        Err(ImportError::DuplicateIcon)
                    } else {
                        Ok(plan.push((name, path)))
                    },
                }
            },
        }
    }
}

pub open spec fn plan_views(v: Seq<(String, String)>) -> Seq<(Seq<char>, Seq<char>)> {
    v.map_values(|p: (String, String)| (p.0@, p.1@))
}

proof fn lemma_plan_err_stays(entries: Seq<(Seq<char>, u64)>, i: int)
    requires
        0 <= i <= entries.len(),
        icon_plan(entries.take(i)) is Err,
    ensures
        icon_plan(entries) == icon_plan(entries.take(i)),
    decreases entries.len() - i,
{
    if i < entries.len() {
        assert(entries.take(i + 1).drop_last() =~= entries.take(i));
        lemma_plan_err_stays(entries, i + 1);
    } else {
        assert(entries.take(i) =~= entries);
    }
}

fn has_name(names: &Vec<Vec<char>>, name: &[char]) -> (b: bool)
    ensures
        b == exists|k: int| 0 <= k < names@.len() && #[trigger] names@[k]@ == name@,
{
    let mut k: usize = 0;
    while k < names.len()
        invariant
            0 <= k <= names.len(),
            forall|j: int| 0 <= j < k ==> #[trigger] names@[j]@ != name@,
        decreases names.len() - k,
    {
        if crate::text::chars_equal(names[k].as_slice(), name) {
            return true;
        }
        k = k + 1;
    }
    false
}

/// Which archive entries are icons to extract, and under which name.
pub fn icon_extraction_plan(entries: &[ArchiveEntry]) -> (r: Result<Vec<(String, String)>, ImportError>)
    ensures
        match r {
            Ok(plan) => icon_plan(entry_views(entries@)) == Ok::<_, ImportError>(plan_views(plan@)),
            Err(e) => icon_plan(entry_views(entries@)) == Err::<Seq<(Seq<char>, Seq<char>)>, _>(e),
        },
{
    let ghost e = entry_views(entries@);
    let mut plan: Vec<(String, String)> = Vec::new();
    let mut names: Vec<Vec<char>> = Vec::new();
    let mut i: usize = 0;
    assert(plan_views(plan@) =~= Seq::<(Seq<char>, Seq<char>)>::empty());
    while i < entries.len()
        invariant
            0 <= i <= entries.len(),
            e == entry_views(entries@),
            icon_plan(e.take(i as int)) == Ok::<_, ImportError>(plan_views(plan@)),
            names@.len() == plan@.len(),
            forall|k: int| 0 <= k < names@.len() ==> #[trigger] names@[k]@ == plan@[k].0@,
        decreases entries.len() - i,
    {
        let ghost pv = plan_views(plan@);
        proof {
            let t = e.take(i as int + 1);
            assert(t.drop_last() =~= e.take(i as int));
            assert(t.last() == e[i as int]);
        }
        let path = chars_of(entries[i].path.as_str());
        match strip_prefix_chars(path.as_slice(), &chars_of("icons/")) {
            None => {},
            Some(name) => {
                if name.len() > 0 {
                    if !is_safe_icon_name(name.as_slice()) {
                        proof {
                            lemma_plan_err_stays(e, i as int + 1);
                        }
                        return Err(ImportError::UnsafeIconPath);
                    }
                    if entries[i].size > MAX_EXTRACTED_FILE_BYTES {
                        proof {
                            lemma_plan_err_stays(e, i as int + 1);
                        }
                        return Err(ImportError::OversizedIcon);
                    }
                    if has_name(&names, name.as_slice()) {
                        proof {
                            let k = choose|k: int| 0 <= k < names@.len() && #[trigger] names@[k]@ == name@;
                            assert(pv[k].0 == name@);
                            lemma_plan_err_stays(e, i as int + 1);
                        }
                        return Err(ImportError::DuplicateIcon);
                    }
                    proof {
                        assert forall|k: int| 0 <= k < pv.len() implies #[trigger] pv[k].0 != name@ by {
                            assert(pv[k].0 == names@[k]@);
                        }
                    }
                    let item = (string_from(name.as_slice()), entries[i].path.clone());
                    let ghost iv = (item.0@, item.1@);
                    plan.push(item);
                    names.push(name);
                    proof {
                        assert(plan_views(plan@) =~= pv.push(iv));
                        assert(iv == (name@, e[i as int].0));
                        assert forall|j: int| 0 <= j < names@.len() implies #[trigger] names@[j]@ == plan@[j].0@ by {
                            if j < names@.len() - 1 {
                            }
                        }
                    }
                }
            },
        }
        i = i + 1;
    }
    assert(e.take(e.len() as int) =~= e);
    Ok(plan)
}

// ---------------------------------------------------------------------------
// Text entries

/// `String::from_utf8`: the text the bytes encode, when they are UTF-8.
#[verifier::external_body]
fn string_from_utf8(bytes: Vec<u8>) -> (r: Option<String>)
    ensures
        r is Some <==> valid_utf8(bytes@),
        r matches Some(s) ==> encode_utf8(s@) == bytes@,
{
    String::from_utf8(bytes).ok()
}

/// The text of an archive entry that was extracted with a cap of
/// `max_bytes`: `copied` bytes came out, of which `bytes` were kept.
/// Refused when more than `max_bytes` came out or the bytes are not UTF-8.
pub fn read_archive_entry_to_string(bytes: Vec<u8>, copied: u64, max_bytes: u64) -> (r: Result<String, ImportError>)
    ensures
        copied > max_bytes ==> r == Err::<String, ImportError>(ImportError::EntryTooLarge),
        copied <= max_bytes && !valid_utf8(bytes@) ==> r == Err::<String, ImportError>(ImportError::NotText),
        copied <= max_bytes && valid_utf8(bytes@) ==> (r matches Ok(s) && encode_utf8(s@) == bytes@),
{
    if copied > max_bytes {
        return Err(ImportError::EntryTooLarge);
    }
    match string_from_utf8(bytes) {
        Some(s) => Ok(s),
        None => Err(ImportError::NotText),
    }
}


/// Every icon planned for extraction has a non-empty, safe name, and no two
/// share a name.
pub proof fn lemma_icon_plan_safe(entries: Seq<(Seq<char>, u64)>)
    ensures
        icon_plan(entries) matches Ok(plan) ==> (forall|k: int| 0 <= k < plan.len()
            ==> safe_icon_name(#[trigger] plan[k].0) && plan[k].0.len() > 0),
        icon_plan(entries) matches Ok(plan) ==> (forall|a: int, b: int| 0 <= a < b < plan.len()
            ==> #[trigger] plan[a].0 != #[trigger] plan[b].0),
    decreases entries.len(),
{
    if entries.len() > 0 {
        lemma_icon_plan_safe(entries.drop_last());
    }
}

// ---------------------------------------------------------------------------
// Duplicate imports

/// The imported apps to create: each whose (name, URL) is neither among the
/// apps already registered nor an earlier imported app's, by index in order.
pub open spec fn fresh_imports(existing: Seq<(Seq<char>, Seq<char>)>, imported: Seq<(Seq<char>, Seq<char>)>) -> Seq<int>
    decreases imported.len(),
{
    if imported.len() == 0 {
        Seq::empty()
    } else {
        let prev = fresh_imports(existing, imported.drop_last());
        let key = imported.last();
        if existing.contains(key) || imported.drop_last().contains(key) {
            prev
        } else {
            prev.push(imported.len() - 1)
        }
    }
}

fn has_pair(list: &[(String, String)], n: usize, name: &String, url: &String) -> (b: bool)
    requires
        n <= list.len(),
    ensures
        b == plan_views(list@).take(n as int).contains((name@, url@)),
{
    let ghost v = plan_views(list@).take(n as int);
    let mut k: usize = 0;
    while k < n
        invariant
            0 <= k <= n <= list.len(),
            v == plan_views(list@).take(n as int),
            forall|j: int| 0 <= j < k ==> v[j] != (name@, url@),
        decreases n - k,
    {
        if list[k].0 == *name && list[k].1 == *url {
            assert(v[k as int] == (name@, url@));
            return true;
        }
        assert(v[k as int] == (list@[k as int].0@, list@[k as int].1@));
        k = k + 1;
    }
    false
}

/// Which imported apps to create (by index) and how many are skipped as
/// duplicates of a registered app or of an earlier imported one, each app
/// given as (name, URL).
pub fn dedupe_imports(existing: &[(String, String)], imported: &[(String, String)]) -> (r: (Vec<usize>, usize))
    ensures
        r.0@.map_values(|i: usize| i as int) == fresh_imports(plan_views(existing@), plan_views(imported@)),
        r.0@.len() + r.1 == imported@.len(),
{
    let ghost e = plan_views(existing@);
    let ghost m = plan_views(imported@);
    let mut take: Vec<usize> = Vec::new();
    let mut skipped: usize = 0;
    let mut i: usize = 0;
    assert(take@.map_values(|i: usize| i as int) =~= fresh_imports(e, m.take(0)));
    while i < imported.len()
        invariant
            0 <= i <= imported.len(),
            e == plan_views(existing@),
            m == plan_views(imported@),
            take@.map_values(|i: usize| i as int) == fresh_imports(e, m.take(i as int)),
            take@.len() + skipped == i,
        decreases imported.len() - i,
    {
        let name = &imported[i].0;
        let url = &imported[i].1;
        proof {
            let t = m.take(i as int + 1);
            assert(t.drop_last() =~= m.take(i as int));
            assert(t.last() == (name@, url@));
            assert(plan_views(existing@).take(existing@.len() as int) =~= e);
            assert(plan_views(imported@).take(i as int) =~= m.take(i as int));
        }
        let seen = has_pair(existing, existing.len(), name, url) || has_pair(imported, i, name, url);
        if seen {
            skipped = skipped + 1;
        } else {
            let ghost before = take@.map_values(|i: usize| i as int);
            take.push(i);
            assert(take@.map_values(|i: usize| i as int) =~= before.push(i as int));
        }
        i = i + 1;
    }
    assert(m.take(m.len() as int) =~= m);
    (take, skipped)
}

/// Every app chosen for creation is new: its (name, URL) is not registered
/// yet, and no two chosen apps share one.
pub proof fn lemma_fresh_imports_are_new(existing: Seq<(Seq<char>, Seq<char>)>, imported: Seq<(Seq<char>, Seq<char>)>)
    ensures
        forall|k: int| 0 <= k < fresh_imports(existing, imported).len() ==> {
            let i = #[trigger] fresh_imports(existing, imported)[k];
            0 <= i < imported.len() && !existing.contains(imported[i])
        },
        forall|a: int, b: int| 0 <= a < b < fresh_imports(existing, imported).len() ==> imported[#[trigger] fresh_imports(existing, imported)[a]]
            != imported[#[trigger] fresh_imports(existing, imported)[b]],
    decreases imported.len(),
{
    if imported.len() > 0 {
        let d = imported.drop_last();
        lemma_fresh_imports_are_new(existing, d);
        let prev = fresh_imports(existing, d);
        let sel = fresh_imports(existing, imported);
        assert forall|k: int| 0 <= k < prev.len() implies #[trigger] d[prev[k]] == imported[prev[k]] by {}
        if !(existing.contains(imported.last()) || d.contains(imported.last())) {
            assert(sel == prev.push(imported.len() - 1));
            assert forall|a: int, b: int| 0 <= a < b < sel.len() implies imported[#[trigger] sel[a]] != imported[#[trigger] sel[b]] by {
                if b == sel.len() - 1 {
                    assert(sel[a] == prev[a]);
                    assert(d[prev[a]] == imported[prev[a]]);
                    if imported[sel[a]] == imported[sel[b]] {
                        assert(d.contains(imported.last()));
                    }
                } else {
                    assert(sel[a] == prev[a] && sel[b] == prev[b]);
                }
            }
            assert forall|k: int| 0 <= k < sel.len() implies {
                let i = #[trigger] sel[k];
                0 <= i < imported.len() && !existing.contains(imported[i])
            } by {
                if k < prev.len() {
                    assert(sel[k] == prev[k]);
                }
            }
        }
    }
}

// ---------------------------------------------------------------------------
// Restoring imported icons

/// What `Path::new(p).file_name()` gives, as text: the last component of
/// the path, `None` when there is none or it is `..`.
pub uninterp spec fn path_file_name(p: Seq<char>) -> Option<Seq<char>>;

/// `Path::new(p).file_name()`, converted to a `String`. The contract names
/// the result, as a function of `p` alone; a `&str` path always has a UTF-8
/// last component.
#[verifier::external_body]
fn file_name_part(p: &str) -> (r: Option<String>)
    ensures
        opt_view(r) == path_file_name(p@),
{
    std::path::Path::new(p).file_name().and_then(|name| name.to_str()).map(|name| name.to_string())
}

/// The destination of the first extracted icon named `name`.
pub open spec fn extracted_lookup(extracted: Seq<(Seq<char>, Seq<char>)>, name: Seq<char>) -> Option<Seq<char>>
    decreases extracted.len(),
{
    if extracted.len() == 0 {
        None
    } else if extracted[0].0 == name {
        Some(extracted[0].1)
    } else {
        extracted_lookup(extracted.drop_first(), name)
    }
}

/// What an imported app's icon reference becomes: an absolute path, or one
/// under `icons/`, stood for an icon packed in the archive, so it becomes
/// the extracted file of the same file name (an error naming the file when
/// there is none); any other reference, a theme icon name, stays
/// (`Ok(None)`).
pub open spec fn restored_icon(icon: Seq<char>, extracted: Seq<(Seq<char>, Seq<char>)>) -> Result<
    Option<Seq<char>>,
    Seq<char>,
> {
    if is_absolute_path(icon) || starts_with(icon, "icons/"@) {
        let name = match path_file_name(icon) {
            Some(n) => n,
            None => Seq::empty(),
        };
        match extracted_lookup(extracted, name) {
            Some(dest) => Ok(Some(dest)),
            None => Err(name),
        }
    } else {
        Ok(None)
    }
}

/// An icon the archive's manifest refers to but the archive does not hold.
#[derive(Debug)]
pub struct MissingIcon {
    pub name: String,
}

/// Where an imported app's icon is restored to, given the extracted icons as
/// (file name, destination) pairs: see [`restored_icon`].
pub fn restored_icon_path(icon: &str, extracted: &[(String, String)]) -> (r: Result<Option<String>, MissingIcon>)
    ensures
        match r {
            Ok(o) => restored_icon(icon@, plan_views(extracted@)) == Ok::<_, Seq<char>>(opt_view(o)),
            Err(m) => restored_icon(icon@, plan_views(extracted@)) == Err::<Option<Seq<char>>, _>(m.name@),
        },
{
    proof {
        reveal_strlit("icons/");
    }
    let chars = chars_of(icon);
    let absolute = chars.len() > 0 && chars[0] == '/';
    if !absolute && !has_prefix(chars.as_slice(), chars_of("icons/").as_slice()) {
        return Ok(None);
    }
    let name = match file_name_part(icon) {
        Some(n) => n,
        None => String::new(),
    };
    let ghost e = plan_views(extracted@);
    let key = chars_of(name.as_str());
    let mut k: usize = 0;
    assert(e.skip(0) =~= e);
    while k < extracted.len()
        invariant
            0 <= k <= extracted.len(),
            e == plan_views(extracted@),
            key@ == name@,
            is_absolute_path(icon@) || starts_with(icon@, "icons/"@),
            name@ == (match path_file_name(icon@) {
                Some(n) => n,
                None => Seq::empty(),
            }),
            extracted_lookup(e, name@) == extracted_lookup(e.skip(k as int), name@),
        decreases extracted.len() - k,
    {
        proof {
            assert(e.skip(k as int)[0] == e[k as int]);
            assert(e.skip(k as int).drop_first() =~= e.skip(k as int + 1));
        }
        if chars_equal(chars_of(extracted[k].0.as_str()).as_slice(), key.as_slice()) {
            let dest = extracted[k].1.clone();
            proof {
                assert(e[k as int] == (extracted@[k as int].0@, extracted@[k as int].1@));
                assert(extracted_lookup(e.skip(k as int), name@) == Some(e[k as int].1));
                assert(dest@ == e[k as int].1);
            }
            return Ok(Some(dest));
        }
        k = k + 1;
    }
    assert(e.skip(k as int).len() == 0);
    Err(MissingIcon { name })
}

/// An app taken from an archive, ready to be created: no desktop file name
/// yet (a fresh one is generated), and its icon restored by
/// [`restored_icon_path`]; the other fields are kept.
pub fn prepare_imported_app(app: WebApp, extracted: &[(String, String)]) -> (r: Result<WebApp, MissingIcon>)
    ensures
        match r {
            Ok(a) => a@ == (WebAppView {
                app_file: Seq::empty(),
                app_icon: match restored_icon(app.app_icon@, plan_views(extracted@)) {
                    Ok(Some(dest)) => dest,
                    _ => app.app_icon@,
                },
                ..app@
            }) && restored_icon(app.app_icon@, plan_views(extracted@)) is Ok,
            Err(m) => restored_icon(app.app_icon@, plan_views(extracted@)) == Err::<Option<Seq<char>>, _>(m.name@),
        },
{
    let restored = match restored_icon_path(app.app_icon.as_str(), extracted) {
        Ok(r) => r,
        Err(m) => return Err(m),
    };
    let mut out = app;
    out.app_file = String::new();
    match restored {
        Some(dest) => {
            out.app_icon = dest;
        },
        None => {},
    }
    Ok(out)
}

} // verus!
