# newtron

The core of the Newtron command bar, verified with Verus.

- `src/` — the library, verified by Verus. Its functions carry
  `requires`/`ensures` contracts, except the readings of the system clock
  (`clock`), whose values nothing can predict:
  - `text` — character-level string operations (trim, prefix/suffix,
    search, replace, ASCII case, decimal numbers) stated over `Seq<char>`.
  - `search` — hosts and favicons of URLs, the DuckDuckGo and Bing result
    pages and the Brave/Google API answers turned into results, the
    browser-fallback search URL, and the provider chain's bookkeeping.
  - `index` — URL suggestion matching and query normalisation, local file
    and app matching (exact, prefix, word prefix, substring, fuzzy), the
    SQL `LIKE` patterns, browser-history rows and the import tally, and the
    once-per-interval gate.
  - `rank` — stable ordering by score keys, de-duplication of consecutive
    domains, and top-k cuts.
  - `cache` — the time-to-live cache used by web search: an entry is served
    while its measured age is below the time-to-live.
  - `route` — the layout of a "search files and web" answer.
  - `window` — what the bar's window does on the shortcut and on losing focus.
  - `indexer` — which directories a scan skips, which files are app
    shortcuts, and the per-file record.
- `tests/` — tests on concrete values, run against the compiled library.
- `app/` — the application shell: SQLite stores, the history reader, the
  file-system walker and watcher, HTTP calls to the search providers,
  floating-point scoring, and the commands the window invokes.

Calls into `scraper` (HTML), `urlencoding` and parts of `std` sit behind
small trusted wrappers whose contracts are stated in their doc comments.
