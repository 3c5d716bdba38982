//! Reading the desktop entries that the older shell-based BigLinux WebApps
//! wrote (`Exec=big-webapps-exec ...` or `Exec=big-webapps-viewer ...`) into
//! web-app records.

use vstd::prelude::*;
use crate::text::{
    chars_of, contains, contains_chars, ends_with, has_prefix, has_suffix, split_char,
    split_on_char, starts_with, string_from, trim, trimmed, views,
};

verus! {

/// How a web app is opened.
#[derive(Debug, Clone, Copy, PartialEq, Eq, Structural)]
pub enum AppMode {
    /// In a browser window (`--app=`).
    Browser,
    /// In the built-in viewer.
    App,
}

/// A web-app record, as far as the desktop entries describe one.
#[derive(Debug)]
pub struct WebApp {
    pub app_file: String,
    pub app_name: String,
    pub app_url: String,
    pub app_icon: String,
    pub app_categories: String,
    pub mime_types: String,
    pub comment: String,
    pub browser: String,
    pub app_profile: String,
    pub app_mode: AppMode,
}

pub struct WebAppView {
    pub app_file: Seq<char>,
    pub app_name: Seq<char>,
    pub app_url: Seq<char>,
    pub app_icon: Seq<char>,
    pub app_categories: Seq<char>,
    pub mime_types: Seq<char>,
    pub comment: Seq<char>,
    pub browser: Seq<char>,
    pub app_profile: Seq<char>,
    pub app_mode: AppMode,
}

impl View for WebApp {
    type V = WebAppView;

    open spec fn view(&self) -> WebAppView {
        WebAppView {
            app_file: self.app_file@,
            app_name: self.app_name@,
            app_url: self.app_url@,
            app_icon: self.app_icon@,
            app_categories: self.app_categories@,
            mime_types: self.mime_types@,
            comment: self.comment@,
            browser: self.browser@,
            app_profile: self.app_profile@,
            app_mode: self.app_mode,
        }
    }
}

/// The empty record: every text empty, browser mode.
pub open spec fn empty_app() -> WebAppView {
    WebAppView {
        app_file: Seq::empty(),
        app_name: Seq::empty(),
        app_url: Seq::empty(),
        app_icon: Seq::empty(),
        app_categories: Seq::empty(),
        mime_types: Seq::empty(),
        comment: Seq::empty(),
        browser: Seq::empty(),
        app_profile: Seq::empty(),
        app_mode: AppMode::Browser,
    }
}

impl Default for WebApp {
    fn default() -> (r: Self)
        ensures
            r@ == empty_app(),
    {
        WebApp {
            app_file: String::new(),
            app_name: String::new(),
            app_url: String::new(),
            app_icon: String::new(),
            app_categories: String::new(),
            mime_types: String::new(),
            comment: String::new(),
            browser: String::new(),
            app_profile: String::new(),
            app_mode: AppMode::Browser,
        }
    }
}

// ---------------------------------------------------------------------------
// Exec= tokenizer

/// Tokenizer state: the tokens so far, the token being read, whether a quote
/// is open, and which quote character opened it.
pub type ShellState = (Seq<Seq<char>>, Seq<char>, bool, char);

/// One character fed to the tokenizer. A quote opens a quoted run when none
/// is open and the same character closes it; quotes themselves are dropped.
/// A space outside quotes ends the current token (empty tokens are never
/// produced); every other character is kept.
pub open spec fn shell_step(st: ShellState, ch: char) -> ShellState {
    let (tokens, current, in_quote, quote_char) = st;
    if (ch == '"' || ch == '\'') && !in_quote {
        (tokens, current, true, ch)
    } else if ch == quote_char && in_quote {
        (tokens, current, false, quote_char)
    } else if ch == ' ' && !in_quote {
        if current.len() > 0 {
            (tokens.push(current), Seq::empty(), in_quote, quote_char)
        } else {
            st
        }
    } else {
        (tokens, current.push(ch), in_quote, quote_char)
    }
}

pub open spec fn shell_state(s: Seq<char>) -> ShellState
    decreases s.len(),
{
    if s.len() == 0 {
        (Seq::empty(), Seq::empty(), false, ' ')
    } else {
        shell_step(shell_state(s.drop_last()), s.last())
    }
}

/// The tokens of an `Exec=` value: split at spaces outside quotes.
pub open spec fn shell_tokens(s: Seq<char>) -> Seq<Seq<char>> {
    let (tokens, current, _, _) = shell_state(s);
    if current.len() > 0 {
        tokens.push(current)
    } else {
        tokens
    }
}

proof fn lemma_shell_tokens_nonempty(s: Seq<char>)
    ensures
        forall|k: int| 0 <= k < shell_state(s).0.len() ==> #[trigger] shell_state(s).0[k].len() > 0,
    decreases s.len(),
{
    if s.len() > 0 {
        lemma_shell_tokens_nonempty(s.drop_last());
        let st = shell_state(s.drop_last());
        assert forall|k: int| 0 <= k < shell_state(s).0.len() implies #[trigger] shell_state(s).0[k].len() > 0 by {
            if k < st.0.len() {
                assert(shell_state(s).0[k] == st.0[k]);
            }
        }
    }
}

proof fn lemma_tokens_nonempty(s: Seq<char>)
    ensures
        forall|k: int| 0 <= k < shell_tokens(s).len() ==> #[trigger] shell_tokens(s)[k].len() > 0,
{
    lemma_shell_tokens_nonempty(s);
    let st = shell_state(s);
    assert forall|k: int| 0 <= k < shell_tokens(s).len() implies #[trigger] shell_tokens(s)[k].len() > 0 by {
        if k < st.0.len() {
            assert(shell_tokens(s)[k] == st.0[k]);
        }
    }
}

/// Splits an `Exec=` value into tokens, honouring single and double quotes.
pub fn shell_split(s: &str) -> (r: Vec<String>)
    ensures
        r@.map_values(|t: String| t@) == shell_tokens(s@),
        forall|k: int| 0 <= k < r@.len() ==> #[trigger] r@[k]@.len() > 0,
{
    let chars = chars_of(s);
    let mut tokens: Vec<String> = Vec::new();
    let mut current: Vec<char> = Vec::new();
    let mut in_quote = false;
    let mut quote_char = ' ';
    let mut i: usize = 0;
    while i < chars.len()
        invariant
            0 <= i <= chars.len(),
            chars@ == s@,
            (tokens@.map_values(|t: String| t@), current@, in_quote, quote_char) == shell_state(
                chars@.take(i as int),
            ),
        decreases chars.len() - i,
    {
        let ch = chars[i];
        let ghost before = tokens@.map_values(|t: String| t@);
        proof {
            assert(chars@.take(i as int + 1).drop_last() =~= chars@.take(i as int));
        }
        if (ch == '"' || ch == '\'') && !in_quote {
            in_quote = true;
            quote_char = ch;
        } else if ch == quote_char && in_quote {
            in_quote = false;
        } else if ch == ' ' && !in_quote {
            if current.len() > 0 {
                let token = string_from(current.as_slice());
                tokens.push(token);
                current = Vec::new();
                assert(tokens@.map_values(|t: String| t@) =~= before.push(token@));
            }
        } else {
            current.push(ch);
        }
        i = i + 1;
    }
    assert(chars@.take(chars@.len() as int) =~= chars@);
    if current.len() > 0 {
        let ghost before = tokens@.map_values(|t: String| t@);
        let token = string_from(current.as_slice());
        tokens.push(token);
        assert(tokens@.map_values(|t: String| t@) =~= before.push(token@));
    }
    proof {
        lemma_tokens_nonempty(s@);
        assert forall|k: int| 0 <= k < tokens@.len() implies #[trigger] tokens@[k]@.len() > 0 by {
            assert(tokens@.map_values(|t: String| t@)[k] == tokens@[k]@);
            assert(shell_tokens(s@)[k].len() > 0);
        }
    }
    tokens
}

// ---------------------------------------------------------------------------
// Exec= line

/// `s` without the prefix `p`, when it starts with it.
pub open spec fn strip_prefix(s: Seq<char>, p: Seq<char>) -> Option<Seq<char>> {
    if starts_with(s, p) {
        Some(s.skip(p.len() as int))
    } else {
        None
    }
}

pub fn strip_prefix_chars(s: &[char], p: &[char]) -> (r: Option<Vec<char>>)
    ensures
        match r {
            Some(v) => strip_prefix(s@, p@) == Some(v@),
            None => strip_prefix(s@, p@) is None,
        },
{
    if !has_prefix(s, p) {
        return None;
    }
    let mut v: Vec<char> = Vec::new();
    v.extend_from_slice(&s[p.len()..s.len()]);
    assert(v@ =~= s@.skip(p@.len() as int));
    Some(v)
}

pub open spec fn trim_start_char(s: Seq<char>, c: char) -> Seq<char>
    decreases s.len(),
{
    if s.len() > 0 && s[0] == c {
        trim_start_char(s.drop_first(), c)
    } else {
        s
    }
}

pub open spec fn trim_end_char(s: Seq<char>, c: char) -> Seq<char>
    decreases s.len(),
{
    if s.len() > 0 && s.last() == c {
        trim_end_char(s.drop_last(), c)
    } else {
        s
    }
}

/// `str::trim_matches('"')`: every leading and trailing `"` removed.
pub open spec fn trim_quotes(s: Seq<char>) -> Seq<char> {
    trim_end_char(trim_start_char(s, '"'), '"')
}

pub fn trimmed_quotes(s: &[char]) -> (r: Vec<char>)
    ensures
        r@ == trim_quotes(s@),
{
    let n = s.len();
    let mut a: usize = 0;
    assert(s@.subrange(0, n as int) =~= s@);
    while a < n && s[a] == '"'
        invariant
            a <= n == s@.len(),
            trim_start_char(s@, '"') == trim_start_char(s@.subrange(a as int, n as int), '"'),
        decreases n - a,
    {
        assert(s@.subrange(a as int, n as int).drop_first() =~= s@.subrange(a + 1, n as int));
        a = a + 1;
    }
    let ghost mid = s@.subrange(a as int, n as int);
    let mut b: usize = n;
    while b > a && s[b - 1] == '"'
        invariant
            a <= b <= n == s@.len(),
            mid == s@.subrange(a as int, n as int),
            trim_end_char(mid, '"') == trim_end_char(s@.subrange(a as int, b as int), '"'),
        decreases b,
    {
        assert(s@.subrange(a as int, b as int).drop_last() =~= s@.subrange(a as int, b - 1));
        b = b - 1;
    }
    let mut r: Vec<char> = Vec::new();
    r.extend_from_slice(&s[a..b]);
    assert(r@ =~= s@.subrange(a as int, b as int));
    r
}

/// What one token of a viewer `Exec=` line sets: `--url=` the URL, a
/// non-empty `--icon=` the icon, both without surrounding quotes.
pub open spec fn viewer_token(app: WebAppView, part: Seq<char>) -> WebAppView {
    match strip_prefix(part, "--url="@) {
        Some(v) => WebAppView { app_url: trim_quotes(v), ..app },
        None => match strip_prefix(part, "--icon="@) {
            Some(v) => if trim_quotes(v).len() > 0 {
                WebAppView { app_icon: trim_quotes(v), ..app }
            } else {
                app
            },
            None => app,
        },
    }
}

pub open spec fn viewer_tokens(app: WebAppView, parts: Seq<Seq<char>>) -> WebAppView
    decreases parts.len(),
{
    if parts.len() == 0 {
        app
    } else {
        viewer_token(viewer_tokens(app, parts.drop_last()), parts.last())
    }
}

/// What the token at index `i` of a browser `Exec=` line
/// (`big-webapps-exec filename="..." browser --class="..." --profile-directory=X --app="URL"`)
/// sets: `filename=` the desktop file, `--app=` the URL,
/// `--profile-directory=` the profile, and the third token, when it is
/// neither an option nor an assignment, the browser.
pub open spec fn browser_token(app: WebAppView, part: Seq<char>, i: int) -> WebAppView {
    match strip_prefix(part, "filename="@) {
        Some(v) => WebAppView { app_file: trim_quotes(v), ..app },
        None => match strip_prefix(part, "--app="@) {
            Some(v) => WebAppView { app_url: trim_quotes(v), ..app },
            None => match strip_prefix(part, "--profile-directory="@) {
                Some(v) => WebAppView { app_profile: trim_quotes(v), ..app },
                None => if i == 2 && !starts_with(part, "-"@) && !contains(part, "="@) {
                    WebAppView { browser: part, ..app }
                } else {
                    app
                },
            },
        },
    }
}

pub open spec fn browser_tokens(app: WebAppView, parts: Seq<Seq<char>>) -> WebAppView
    decreases parts.len(),
{
    if parts.len() == 0 {
        app
    } else {
        browser_token(browser_tokens(app, parts.drop_last()), parts.last(), parts.len() - 1)
    }
}

/// What an `Exec=` value sets on a record: viewer lines set viewer mode and
/// the `__viewer__` browser, browser lines set browser mode, and the tokens
/// of either fill in the rest. Any other command changes nothing.
pub open spec fn exec_applied(app: WebAppView, exec: Seq<char>) -> WebAppView {
    if starts_with(exec, "big-webapps-viewer"@) {
        viewer_tokens(
            WebAppView { app_mode: AppMode::App, browser: "__viewer__"@, ..app },
            shell_tokens(exec),
        )
    } else if starts_with(exec, "big-webapps-exec"@) {
        browser_tokens(WebAppView { app_mode: AppMode::Browser, ..app }, shell_tokens(exec))
    } else {
        app
    }
}

/// Reads the browser, URL, profile and mode from an `Exec=` value into `app`.
pub fn parse_exec_line(exec: &str, app: &mut WebApp)
    ensures
        final(app)@ == exec_applied(old(app)@, exec@),
{
    let e = chars_of(exec);
    if has_prefix(&e, &chars_of("big-webapps-viewer")) {
        app.app_mode = AppMode::App;
        app.browser = "__viewer__".to_string();
        let parts = shell_split(exec);
        let ghost start = app@;
        let mut k: usize = 0;
        while k < parts.len()
            invariant
                0 <= k <= parts.len(),
                parts@.map_values(|t: String| t@) == shell_tokens(exec@),
                app@ == viewer_tokens(start, parts@.map_values(|t: String| t@).take(k as int)),
            decreases parts.len() - k,
        {
            let part = chars_of(parts[k].as_str());
            let ghost prev = app@;
            proof {
                let t = parts@.map_values(|t: String| t@).take(k as int + 1);
                assert(t.drop_last() =~= parts@.map_values(|t: String| t@).take(k as int));
                assert(t.last() == part@);
            }
            match strip_prefix_chars(&part, &chars_of("--url=")) {
                Some(v) => {
                    app.app_url = string_from(trimmed_quotes(&v).as_slice());
                },
                None => {
                    match strip_prefix_chars(&part, &chars_of("--icon=")) {
                        Some(v) => {
                            let icon = trimmed_quotes(&v);
                            if icon.len() > 0 {
                                app.app_icon = string_from(icon.as_slice());
                            }
                        },
                        None => {},
                    }
                },
            }
            assert(app@ == viewer_token(prev, part@));
            k = k + 1;
        }
        assert(parts@.map_values(|t: String| t@).take(parts@.len() as int) =~= parts@.map_values(
            |t: String| t@,
        ));
    } else if has_prefix(&e, &chars_of("big-webapps-exec")) {
        app.app_mode = AppMode::Browser;
        let parts = shell_split(exec);
        let ghost start = app@;
        let mut k: usize = 0;
        while k < parts.len()
            invariant
                0 <= k <= parts.len(),
                parts@.map_values(|t: String| t@) == shell_tokens(exec@),
                app@ == browser_tokens(start, parts@.map_values(|t: String| t@).take(k as int)),
            decreases parts.len() - k,
        {
            let part = chars_of(parts[k].as_str());
            let ghost prev = app@;
            proof {
                let t = parts@.map_values(|t: String| t@).take(k as int + 1);
                assert(t.drop_last() =~= parts@.map_values(|t: String| t@).take(k as int));
                assert(t.last() == part@);
            }
            match strip_prefix_chars(&part, &chars_of("filename=")) {
                Some(v) => {
                    app.app_file = string_from(trimmed_quotes(&v).as_slice());
                },
                None => match strip_prefix_chars(&part, &chars_of("--app=")) {
                    Some(v) => {
                        app.app_url = string_from(trimmed_quotes(&v).as_slice());
                    },
                    None => match strip_prefix_chars(&part, &chars_of("--profile-directory=")) {
                        Some(v) => {
                            app.app_profile = string_from(trimmed_quotes(&v).as_slice());
                        },
                        None => {
                            if k == 2 && !has_prefix(&part, &chars_of("-")) && !contains_chars(
                                &part,
                                &chars_of("="),
                            ) {
                                app.browser = string_from(part.as_slice());
                            }
                        },
                    },
                },
            }
            assert(app@ == browser_token(prev, part@, k as int));
            k = k + 1;
        }
        assert(parts@.map_values(|t: String| t@).take(parts@.len() as int) =~= parts@.map_values(
            |t: String| t@,
        ));
    }
}

// ---------------------------------------------------------------------------
// Desktop entry

/// A line that opens another section than `[Desktop Entry]`.
pub open spec fn is_section_break(line: Seq<char>) -> bool {
    starts_with(line, "[Desktop Action"@) || (starts_with(line, "["@) && line != "[Desktop Entry]"@
        && !starts_with(line, "#"@))
}

/// What a (trimmed) key line of the `[Desktop Entry]` section sets.
pub open spec fn entry_line(app: WebAppView, line: Seq<char>) -> WebAppView {
    match strip_prefix(line, "Name="@) {
        Some(v) => WebAppView { app_name: v, ..app },
        None => match strip_prefix(line, "Icon="@) {
            Some(v) => WebAppView { app_icon: v, ..app },
            None => match strip_prefix(line, "Categories="@) {
                Some(v) => WebAppView { app_categories: v, ..app },
                None => match strip_prefix(line, "MimeType="@) {
                    Some(v) => WebAppView { mime_types: v, ..app },
                    None => match strip_prefix(line, "Comment="@) {
                        Some(v) => WebAppView { comment: v, ..app },
                        None => match strip_prefix(line, "Exec="@) {
                            Some(v) => exec_applied(app, v),
                            None => app,
                        },
                    },
                },
            },
        },
    }
}

/// The record read from the first lines of a desktop entry, and whether
/// reading has stopped: it stops at the first section header after the
/// entry's name was read; headers before that are skipped.
pub open spec fn entry_state(filename: Seq<char>, lines: Seq<Seq<char>>) -> (WebAppView, bool)
    decreases lines.len(),
{
    if lines.len() == 0 {
        (WebAppView { app_file: filename, ..empty_app() }, false)
    } else {
        let (app, done) = entry_state(filename, lines.drop_last());
        let line = trim(lines.last());
        if done {
            (app, true)
        } else if is_section_break(line) {
            (app, app.app_name.len() > 0)
        } else {
            (entry_line(app, line), false)
        }
    }
}

/// The lines of a text: the pieces between `\n`. (`str::lines` also drops a
/// final empty piece and a `\r` before each `\n`; after trimming, neither
/// changes what a line sets.)
pub open spec fn text_lines(content: Seq<char>) -> Seq<Seq<char>> {
    split_char(content, '\n')
}

/// The record a legacy desktop entry describes, when it has a name and a URL.
pub open spec fn legacy_app(filename: Seq<char>, content: Seq<char>) -> Option<WebAppView> {
    let (app, _) = entry_state(filename, text_lines(content));
    if app.app_name.len() == 0 || app.app_url.len() == 0 {
        None
    } else {
        Some(app)
    }
}

proof fn lemma_stopped_stays(filename: Seq<char>, lines: Seq<Seq<char>>, i: int)
    requires
        0 <= i <= lines.len(),
        entry_state(filename, lines.take(i)).1,
    ensures
        entry_state(filename, lines) == entry_state(filename, lines.take(i)),
    decreases lines.len() - i,
{
    if i < lines.len() {
        assert(lines.take(i + 1).drop_last() =~= lines.take(i));
        lemma_stopped_stays(filename, lines, i + 1);
    } else {
        assert(lines.take(i) =~= lines);
    }
}

proof fn lemma_tokens_keep_descriptive_fields(app: WebAppView, parts: Seq<Seq<char>>)
    ensures
        viewer_tokens(app, parts).mime_types == app.mime_types,
        viewer_tokens(app, parts).comment == app.comment,
        viewer_tokens(app, parts).app_categories == app.app_categories,
        browser_tokens(app, parts).mime_types == app.mime_types,
        browser_tokens(app, parts).comment == app.comment,
        browser_tokens(app, parts).app_categories == app.app_categories,
    decreases parts.len(),
{
    if parts.len() > 0 {
        lemma_tokens_keep_descriptive_fields(app, parts.drop_last());
    }
}

/// A line that starts with the key `k` (and so with its first character).
proof fn lemma_key_starts(t: Seq<char>, k: Seq<char>)
    requires
        starts_with(t, k),
        k.len() > 0,
    ensures
        t.len() > 0 && t[0] == k[0],
        k.len() > 1 ==> t[1] == k[1],
{
    assert(t.subrange(0, k.len() as int)[0] == t[0]);
    if k.len() > 1 {
        assert(t.subrange(0, k.len() as int)[1] == t[1]);
    }
}

/// Reading one more line of an entry that has not stopped: a
/// `MimeType=`, `Name=`, `Icon=`, `Categories=` or `Comment=` line (after
/// trimming) sets that field to the text after the key, and reading goes
/// on; a line without the `MimeType=` key leaves the MIME types as they
/// were, and likewise for `Comment=` and `Categories=`. So the MIME types
/// read are those of the last `MimeType=` line before the entry stops.
pub proof fn lemma_key_line_sets_its_field(filename: Seq<char>, lines: Seq<Seq<char>>, l: Seq<char>)
    requires
        !entry_state(filename, lines).1,
    ensures
        ({
            let before = entry_state(filename, lines).0;
            let (after, stopped) = entry_state(filename, lines.push(l));
            let t = trim(l);
            &&& starts_with(t, "MimeType="@) ==> after.mime_types == t.skip(9) && !stopped
            &&& starts_with(t, "Name="@) ==> after.app_name == t.skip(5) && !stopped
            &&& starts_with(t, "Icon="@) ==> after.app_icon == t.skip(5) && !stopped
            &&& starts_with(t, "Categories="@) ==> after.app_categories == t.skip(11) && !stopped
            &&& starts_with(t, "Comment="@) ==> after.comment == t.skip(8) && !stopped
            &&& !starts_with(t, "MimeType="@) ==> after.mime_types == before.mime_types
            &&& !starts_with(t, "Comment="@) ==> after.comment == before.comment
            &&& !starts_with(t, "Categories="@) ==> after.app_categories == before.app_categories
        }),
{
    reveal_strlit("MimeType=");
    reveal_strlit("Name=");
    reveal_strlit("Icon=");
    reveal_strlit("Categories=");
    reveal_strlit("Comment=");
    reveal_strlit("Exec=");
    reveal_strlit("[");
    reveal_strlit("[Desktop Action");
    reveal_strlit("big-webapps-viewer");
    reveal_strlit("big-webapps-exec");
    assert(lines.push(l).drop_last() =~= lines);
    let before = entry_state(filename, lines).0;
    let t = trim(l);
    if starts_with(t, "["@) {
        lemma_key_starts(t, "["@);
    }
    if starts_with(t, "[Desktop Action"@) {
        lemma_key_starts(t, "[Desktop Action"@);
    }
    if starts_with(t, "MimeType="@) {
        lemma_key_starts(t, "MimeType="@);
    }
    if starts_with(t, "Name="@) {
        lemma_key_starts(t, "Name="@);
    }
    if starts_with(t, "Icon="@) {
        lemma_key_starts(t, "Icon="@);
    }
    if starts_with(t, "Categories="@) {
        lemma_key_starts(t, "Categories="@);
    }
    if starts_with(t, "Comment="@) {
        lemma_key_starts(t, "Comment="@);
        if starts_with(t, "Categories="@) {
            lemma_key_starts(t, "Categories="@);
        }
    }
    if starts_with(t, "Exec="@) {
        let v = t.skip(5);
        lemma_key_starts(t, "Exec="@);
        lemma_tokens_keep_descriptive_fields(
            WebAppView { app_mode: AppMode::App, browser: "__viewer__"@, ..before },
            shell_tokens(v),
        );
        lemma_tokens_keep_descriptive_fields(WebAppView { app_mode: AppMode::Browser, ..before }, shell_tokens(v));
    }
}

proof fn lemma_mime_types_kept_after(filename: Seq<char>, lines: Seq<Seq<char>>, k: int, n: int)
    requires
        0 <= k < n <= lines.len(),
        !entry_state(filename, lines.take(k)).1,
        starts_with(trim(lines[k]), "MimeType="@),
        forall|j: int| k < j < lines.len() ==> !starts_with(#[trigger] trim(lines[j]), "MimeType="@),
    ensures
        entry_state(filename, lines.take(n)).0.mime_types == trim(lines[k]).skip(9),
    decreases n - k,
{
    assert(lines.take(k + 1) =~= lines.take(k).push(lines[k]));
    lemma_key_line_sets_its_field(filename, lines.take(k), lines[k]);
    if n > k + 1 {
        lemma_mime_types_kept_after(filename, lines, k, n - 1);
        let prev = lines.take(n - 1);
        assert(lines.take(n) =~= prev.push(lines[n - 1]));
        assert(lines.take(n).drop_last() =~= prev);
        if !entry_state(filename, prev).1 {
            lemma_key_line_sets_its_field(filename, prev, lines[n - 1]);
        }
    }
}

/// The MIME types of a legacy entry are the value of its last `MimeType=`
/// line, when the entry had not stopped (at a later section header) before
/// that line: whatever lines follow it.
pub proof fn lemma_last_mime_type_line_wins(filename: Seq<char>, content: Seq<char>, k: int)
    requires
        0 <= k < text_lines(content).len(),
        !entry_state(filename, text_lines(content).take(k)).1,
        starts_with(trim(text_lines(content)[k]), "MimeType="@),
        forall|j: int|
            k < j < text_lines(content).len() ==> !starts_with(
                #[trigger] trim(text_lines(content)[j]),
                "MimeType="@,
            ),
    ensures
        entry_state(filename, text_lines(content)).0.mime_types == trim(text_lines(content)[k]).skip(9),
        legacy_app(filename, content) matches Some(app) ==> app.mime_types == trim(
            text_lines(content)[k],
        ).skip(9),
{
    let lines = text_lines(content);
    lemma_mime_types_kept_after(filename, lines, k, lines.len() as int);
    assert(lines.take(lines.len() as int) =~= lines);
}

fn set_field_line(app: &mut WebApp, line: &[char])
    ensures
        final(app)@ == entry_line(old(app)@, line@),
{
    match strip_prefix_chars(line, &chars_of("Name=")) {
        Some(v) => {
            app.app_name = string_from(v.as_slice());
            return;
        },
        None => {},
    }
    match strip_prefix_chars(line, &chars_of("Icon=")) {
        Some(v) => {
            app.app_icon = string_from(v.as_slice());
            return;
        },
        None => {},
    }
    match strip_prefix_chars(line, &chars_of("Categories=")) {
        Some(v) => {
            app.app_categories = string_from(v.as_slice());
            return;
        },
        None => {},
    }
    match strip_prefix_chars(line, &chars_of("MimeType=")) {
        Some(v) => {
            app.mime_types = string_from(v.as_slice());
            return;
        },
        None => {},
    }
    match strip_prefix_chars(line, &chars_of("Comment=")) {
        Some(v) => {
            app.comment = string_from(v.as_slice());
            return;
        },
        None => {},
    }
    match strip_prefix_chars(line, &chars_of("Exec=")) {
        Some(v) => {
            let exec = string_from(v.as_slice());
            parse_exec_line(exec.as_str(), app);
        },
        None => {},
    }
}

/// Parses a legacy desktop entry into a record (its desktop file being
/// `filename`); `None` when the entry has no name or no URL.
pub fn parse_legacy_desktop(filename: &str, content: &str) -> (r: Option<WebApp>)
    ensures
        match r {
            Some(app) => legacy_app(filename@, content@) == Some(app@),
            None => legacy_app(filename@, content@) is None,
        },
{
    let lines = split_on_char(chars_of(content).as_slice(), '\n');
    let mut app = WebApp::default();
    app.app_file = filename.to_string();
    let mut i: usize = 0;
    let mut stopped = false;
    assert(views(lines@).take(0).len() == 0);
    while i < lines.len() && !stopped
        invariant
            0 <= i <= lines.len(),
            views(lines@) == text_lines(content@),
            !stopped ==> entry_state(filename@, views(lines@).take(i as int)) == (app@, false),
            stopped ==> entry_state(filename@, views(lines@)) == (app@, true),
        decreases lines.len() - i,
    {
        let line = trimmed(lines[i].as_slice());
        proof {
            let t = views(lines@).take(i as int + 1);
            assert(t.drop_last() =~= views(lines@).take(i as int));
            assert(t.last() == lines@[i as int]@);
        }
        if has_prefix(&line, &chars_of("[Desktop Action")) || (has_prefix(&line, &chars_of("["))
            && !crate::text::chars_equal(&line, &chars_of("[Desktop Entry]")) && !has_prefix(
            &line,
            &chars_of("#"),
        )) {
            if chars_of(app.app_name.as_str()).len() > 0 {
                proof {
                    lemma_stopped_stays(filename@, views(lines@), i as int + 1);
                }
                stopped = true;
            }
        } else {
            set_field_line(&mut app, line.as_slice());
        }
        i = i + 1;
    }
    proof {
        if !stopped {
            assert(views(lines@).take(i as int) =~= views(lines@));
        }
    }
    if chars_of(app.app_name.as_str()).len() == 0 || chars_of(app.app_url.as_str()).len() == 0 {
        return None;
    }
    Some(app)
}

// ---------------------------------------------------------------------------
// Scanning

/// Desktop entries written by the old shell tools run one of their two
/// launchers.
pub open spec fn is_legacy_entry(content: Seq<char>) -> bool {
    contains(content, "big-webapps-exec"@) || contains(content, "big-webapps-viewer"@)
}

pub fn is_legacy_big_webapps_entry(content: &str) -> (b: bool)
    ensures
        b == is_legacy_entry(content@),
{
    let c = chars_of(content);
    contains_chars(&c, &chars_of("big-webapps-exec")) || contains_chars(&c, &chars_of("big-webapps-viewer"))
}

/// Only `.desktop` files are looked at.
pub open spec fn is_desktop_name(name: Seq<char>) -> bool {
    ends_with(name, ".desktop"@)
}

pub fn is_desktop_file_name(name: &str) -> (b: bool)
    ensures
        b == is_desktop_name(name@),
{
    has_suffix(&chars_of(name), &chars_of(".desktop"))
}

/// The records of the legacy entries among `files` (name, content), in order.
pub open spec fn legacy_apps(files: Seq<(Seq<char>, Seq<char>)>) -> Seq<WebAppView>
    decreases files.len(),
{
    if files.len() == 0 {
        Seq::empty()
    } else {
        let (name, content) = files.last();
        let rest = legacy_apps(files.drop_last());
        if is_desktop_name(name) && is_legacy_entry(content) && legacy_app(name, content) is Some {
            rest.push(legacy_app(name, content)->0)
        } else {
            rest
        }
    }
}

pub open spec fn file_views(files: Seq<(String, String)>) -> Seq<(Seq<char>, Seq<char>)> {
    files.map_values(|f: (String, String)| (f.0@, f.1@))
}

/// Reads the legacy entries among the desktop files of a directory, given as
/// (file name, content) pairs.
pub fn collect_legacy_webapps(files: &[(String, String)]) -> (r: Vec<WebApp>)
    ensures
        r@.map_values(|a: WebApp| a@) == legacy_apps(file_views(files@)),
{
    let mut out: Vec<WebApp> = Vec::new();
    let mut i: usize = 0;
    while i < files.len()
        invariant
            0 <= i <= files.len(),
            out@.map_values(|a: WebApp| a@) == legacy_apps(file_views(files@).take(i as int)),
        decreases files.len() - i,
    {
        let name = files[i].0.as_str();
        let content = files[i].1.as_str();
        let ghost before = out@.map_values(|a: WebApp| a@);
        proof {
            let t = file_views(files@).take(i as int + 1);
            assert(t.drop_last() =~= file_views(files@).take(i as int));
            assert(t.last() == (name@, content@));
        }
        if is_desktop_file_name(name) && is_legacy_big_webapps_entry(content) {
            match parse_legacy_desktop(name, content) {
                Some(app) => {
                    out.push(app);
                    assert(out@.map_values(|a: WebApp| a@) =~= before.push(app@));
                },
                None => {},
            }
        }
        i = i + 1;
    }
    assert(file_views(files@).take(files@.len() as int) =~= file_views(files@));
    out
}

} // verus!
