# extra_link_discover

Finds the outbound links of a web site: starting from one page, it walks the
site's own pages breadth first and reports every link that leads to another
host, with the page it was found on, leaving out hosts on a user-supplied
blocklist.

- `src/` is the verified library (Verus):
  - `text`: splitting blocklist input, trimming, string comparison, and
    `usize` parsing as `str::parse` does it;
  - `web`: the calls into `url` (host of a URL, resolving a link) and
    `scraper` (the `href` of a page's anchors);
  - `filter`: `DomainFilter`, the blocklist and its matching rules;
  - `crawler`: link classification and the crawl's bookkeeping
    (`CrawlState`): queue, visited pages, counts, results to report;
  - `ui`: the state behind the window and what each button does to it.
- `app/` is the desktop program: the egui window, the worker thread that
  fetches pages with `reqwest` on a tokio runtime, and CSV export.
- `tests/` exercise the library.
