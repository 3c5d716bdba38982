# webapps_manager

The logic of the BigLinux WebApps manager as a verified library: finding a
site's title and best icon, reading image headers, resolving icon
references, following browser redirects, reading legacy desktop entries and
checking import archives. Verus checks all of `src/` against contracts
that say what its functions return; the calls
into `reqwest`, `scraper`, `url` and `dirs` go through small trusted wrappers
whose contracts say what those crates document. Translations through
`gettext-rs` are made in `app/`.

Layout:

- `src/text.rs` – character-level string helpers (trim, split, search).
- `src/image.rs`, `src/svg.rs` – container headers and SVG aspect ratios.
- `src/html.rs`, `src/htmldoc.rs`, `src/weburl.rs` – icon candidates declared
  by a page, through the HTML parser and the URL standard.
- `src/rank.rs`, `src/download.rs`, `src/site.rs` – ranking and selection of
  candidates and downloaded icons, page and manifest fetching.
- `src/http.rs` – capped GET requests with browser-like headers.
- `src/icons.rs` – icon reference resolution over the icon theme layout.
- `src/browser_url.rs`, `src/browsers.rs` – redirect resolution, locale
  headers, installed and default browsers.
- `src/legacy.rs`, `src/archive.rs`, `src/validation.rs`, `src/shell.rs` –
  legacy desktop entries, import archive checks, dialog input checks, window
  metadata.
- `src/appfile.rs`, `src/journal.rs` – desktop file names, and the undo
  journal of a registry transaction.
- `app/` – a command-line front end: file system scans, processes, threads
  and JSON.
