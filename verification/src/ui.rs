//! The state behind the desktop front end: the user's inputs, the results
//! shown, and what each button and each incoming result does to them.  The
//! window itself, the worker thread and the channel live with the caller.

use vstd::prelude::*;
use crate::crawler::{CrawlResult, CrawlState, CrawlStats, Crawler, fresh_crawl};
use crate::web::parsed_host;
use crate::filter::{DomainFilter, parse_blocklist};
use crate::text::{decimal_text, law_decimal_text_parses_back, parse_usize, parsed_usize, trim, trim_str};
use vstd::utf8::{decode_utf8, encode_utf8_decode_utf8, is_char_boundary};
use vstd::string::StringSliceAdditionalSpecFns;

verus! {

/// How many incoming results one frame takes in at most.
pub const MAX_RESULTS_PER_FRAME: usize = 50;

/// How many results the list shows at most.
pub const MAX_DISPLAYED_RESULTS: usize = 1000;

/// The concurrency used when the chosen level does not parse.
pub const DEFAULT_CONCURRENCY: usize = 5;

/// The values of a `CrawlStats`.
pub struct StatsView {
    pub pages_crawled: nat,
    pub links_found: nat,
    pub current_url: Seq<char>,
}

/// The values of a `CrawlStats`.
pub open spec fn stats_view(s: CrawlStats) -> StatsView {
    StatsView {
        pages_crawled: s.pages_crawled as nat,
        links_found: s.links_found as nat,
        current_url: s.current_url@,
    }
}

/// The stats of a crawl that has not begun.
pub open spec fn zero_stats() -> StatsView {
    StatsView { pages_crawled: 0, links_found: 0, current_url: Seq::<char>::empty() }
}

/// The abstract state of the front end.
pub struct AppView {
    pub url: Seq<char>,
    pub concurrency: Seq<char>,
    pub filter_domains: Seq<char>,
    pub results: Seq<(Seq<char>, Seq<char>)>,
    pub is_crawling: bool,
    pub stats: StatsView,
    pub error_message: Option<Seq<char>>,
    pub show_debug: bool,
    pub current_crawl_url: Seq<char>,
    pub max_displayed_results: nat,
}

/// What the front end asks the caller to start: a crawl of `start_url`
/// with `crawler`, beginning in `state`.
pub struct CrawlRequest {
    pub start_url: String,
    pub crawler: Crawler,
    pub state: CrawlState,
}

/// The state of the front end: the inputs, the results list (outbound link,
/// page it was found on), whether a crawl runs, its latest stats, the
/// message shown, and display settings.
pub struct ExtraLinkApp {
    pub url: String,
    pub concurrency: String,
    pub filter_domains: String,
    pub results: Vec<(String, String)>,
    pub is_crawling: bool,
    pub stats: CrawlStats,
    pub error_message: Option<String>,
    pub show_debug: bool,
    pub current_crawl_url: String,
    pub max_displayed_results: usize,
}

impl View for ExtraLinkApp {
    type V = AppView;

    open spec fn view(&self) -> AppView {
        AppView {
            url: self.url@,
            concurrency: self.concurrency@,
            filter_domains: self.filter_domains@,
            results: self.results@.map_values(|p: (String, String)| (p.0@, p.1@)),
            is_crawling: self.is_crawling,
            stats: stats_view(self.stats),
            error_message: match self.error_message {
                Some(e) => Some(e@),
                None => None,
            },
            show_debug: self.show_debug,
            current_crawl_url: self.current_crawl_url@,
            max_displayed_results: self.max_displayed_results as nat,
        }
    }
}

/// The concurrency that the level text `text` selects: its value as a
/// `usize`, or the default where it does not parse.
pub open spec fn chosen_concurrency(text: Seq<char>) -> usize {
    match parsed_usize(text) {
        Some(v) => v,
        None => DEFAULT_CONCURRENCY,
    }
}

impl ExtraLinkApp {
    /// The front end as it opens: no inputs but the concurrency level `5`,
    /// no results, idle, showing up to 1000 results.
    pub fn new() -> (a: Self)
        ensures
            a@ == (AppView {
                url: Seq::<char>::empty(),
                concurrency: "5"@,
                filter_domains: Seq::<char>::empty(),
                results: Seq::<(Seq<char>, Seq<char>)>::empty(),
                is_crawling: false,
                stats: zero_stats(),
                error_message: None,
                show_debug: false,
                current_crawl_url: Seq::<char>::empty(),
                max_displayed_results: MAX_DISPLAYED_RESULTS as nat,
            }),
    {
        let a = ExtraLinkApp {
            url: String::new(),
            concurrency: String::from_str("5"),
            filter_domains: String::new(),
            results: Vec::new(),
            is_crawling: false,
            stats: CrawlStats::new(),
            error_message: None,
            show_debug: false,
            current_crawl_url: String::new(),
            max_displayed_results: MAX_DISPLAYED_RESULTS,
        };
        assert(a@.results =~= Seq::<(Seq<char>, Seq<char>)>::empty());
        a
    }

    /// The start button.  With no target URL it shows a message and starts
    /// nothing; so it does when the trimmed URL does not parse or has no
    /// host, showing why.  Otherwise it clears the results and stats, marks
    /// the crawl running, and asks for a crawl of the trimmed URL, with the
    /// chosen concurrency (5 where the level does not parse) and the
    /// blocklist read from the filter input.
    pub fn start_crawl(&mut self) -> (r: Option<CrawlRequest>)
        ensures
            old(self)@.url.len() == 0 ==> r is None && final(self)@ == (AppView {
                error_message: Some("请输入目标网站URL"@),
                ..old(self)@
            }),
            old(self)@.url.len() > 0 ==> match parsed_host(trim(old(self)@.url)) {
                Err(pe) => r is None && final(self)@ == (AppView {
                    error_message: Some("Failed to parse start URL: "@ + pe),
                    ..old(self)@
                }),
                Ok(None) => r is None && final(self)@ == (AppView {
                    error_message: Some("Start URL has no host"@),
                    ..old(self)@
                }),
                Ok(Some(h)) => r matches Some(req) && {
                    &&& req.start_url@ == trim(old(self)@.url)
                    &&& req.state.wf()
                    &&& req.state@ == fresh_crawl(trim(old(self)@.url), h)
                    &&& req.crawler.parallelism() == chosen_concurrency(old(self)@.concurrency)
                    &&& req.crawler.blocklist() == parse_blocklist(old(self)@.filter_domains)
                    &&& final(self)@ == (AppView {
                        results: Seq::<(Seq<char>, Seq<char>)>::empty(),
                        is_crawling: true,
                        stats: zero_stats(),
                        error_message: None,
                        current_crawl_url: trim(old(self)@.url),
                        ..old(self)@
                    })
                },
            },
    {
        if self.url.as_str().is_empty() {
            self.error_message = Some(String::from_str("请输入目标网站URL"));
            return None;
        }
        let start_url = trim_str(self.url.as_str());
        let state = match CrawlState::start(start_url.as_str()) {
            Ok(state) => state,
            Err(message) => {
                self.error_message = Some(message);
                return None;
            },
        };
        let concurrency = match parse_usize(self.concurrency.as_str()) {
            Some(v) => v,
            None => DEFAULT_CONCURRENCY,
        };
        let filter = DomainFilter::new(self.filter_domains.as_str());
        self.results = Vec::new();
        self.stats = CrawlStats::new();
        self.is_crawling = true;
        self.error_message = None;
        self.current_crawl_url = start_url.clone();
        assert(self@.results =~= Seq::<(Seq<char>, Seq<char>)>::empty());
        Some(CrawlRequest { start_url, crawler: Crawler::new(filter, concurrency), state })
    }

    /// An export that failed: its error is shown, after "导出失败: ".
    pub fn export_failed(&mut self, error: &str)
        ensures
            final(self)@ == (AppView { error_message: Some("导出失败: "@ + error@), ..old(self)@ }),
    {
        self.error_message = Some(String::from_str("导出失败: ").concat(error));
    }

    /// The stop button: the crawl is no longer shown as running.
    pub fn stop_crawl(&mut self)
        ensures
            final(self)@ == (AppView { is_crawling: false, ..old(self)@ }),
    {
        self.is_crawling = false;
    }

    /// The clear button: no results, fresh stats, no message.
    pub fn clear_results(&mut self)
        ensures
            final(self)@ == (AppView {
                results: Seq::<(Seq<char>, Seq<char>)>::empty(),
                stats: zero_stats(),
                error_message: None,
                ..old(self)@
            }),
    {
        self.results = Vec::new();
        self.stats = CrawlStats::new();
        self.error_message = None;
        assert(self@.results =~= Seq::<(Seq<char>, Seq<char>)>::empty());
    }

    /// The debug button: shows or hides the debug panel.
    pub fn toggle_debug(&mut self)
        ensures
            final(self)@ == (AppView { show_debug: !old(self)@.show_debug, ..old(self)@ }),
    {
        self.show_debug = !self.show_debug;
    }

    /// Takes in one result from the crawl: a result with an outbound link is
    /// added to the list, and its stats replace the shown ones.
    pub fn receive(&mut self, result: CrawlResult, stats: CrawlStats)
        ensures
            final(self)@ == (AppView {
                results: if result.external_url@.len() > 0 {
                    old(self)@.results.push((result.external_url@, result.source_url@))
                } else {
                    old(self)@.results
                },
                stats: stats_view(stats),
                ..old(self)@
            }),
    {
        let ghost before = self@.results;
        if !result.external_url.as_str().is_empty() {
            self.results.push((result.external_url, result.source_url));
            assert(self@.results =~= before.push((result.external_url@, result.source_url@)));
        }
        self.stats = stats;
    }

    /// The crawl has ended: it is no longer shown as running.
    pub fn crawl_finished(&mut self)
        ensures
            final(self)@ == (AppView { is_crawling: false, ..old(self)@ }),
    {
        self.is_crawling = false;
    }

    /// The rows to export: a header, then each result (outbound link, page
    /// it was found on) in the order received.
    pub fn export_rows(&self) -> (rows: Vec<(String, String)>)
        ensures
            rows@.map_values(|p: (String, String)| (p.0@, p.1@))
                == seq![("外部链接"@, "所在页面"@)] + self@.results,
    {
        let mut rows: Vec<(String, String)> = Vec::new();
        rows.push((String::from_str("外部链接"), String::from_str("所在页面")));
        let n = self.results.len();
        let mut i: usize = 0;
        while i < n
            invariant
                n == self.results@.len(),
                i <= n,
                rows@.map_values(|p: (String, String)| (p.0@, p.1@))
                    == seq![("外部链接"@, "所在页面"@)] + self@.results.take(i as int),
            decreases n - i,
        {
            let ghost before = rows@.map_values(|p: (String, String)| (p.0@, p.1@));
            let row = (self.results[i].0.clone(), self.results[i].1.clone());
            rows.push(row);
            assert(self@.results.take(i + 1) =~= self@.results.take(i as int).push(self@.results[i as int]));
            assert(rows@.map_values(|p: (String, String)| (p.0@, p.1@)) =~= before.push(self@.results[i as int]));
            i = i + 1;
        }
        assert(self@.results.take(n as int) =~= self@.results);
        rows
    }

    /// How many rows the results list shows: all results, up to the display
    /// limit.
    pub fn visible_rows(&self) -> (r: usize)
        ensures
            r == if self@.results.len() < self@.max_displayed_results {
                self@.results.len()
            } else {
                self@.max_displayed_results
            },
    {
        let total = self.results.len();
        if total < self.max_displayed_results {
            total
        } else {
            self.max_displayed_results
        }
    }

    /// Whether there are more results than the list shows.
    pub fn is_display_limited(&self) -> (r: bool)
        ensures
            r == (self@.results.len() > self@.max_displayed_results),
    {
        self.results.len() > self.max_displayed_results
    }

    /// The result shown in row `row` of the list: newest first.
    pub fn result_for_row(&self, row: usize) -> (r: &(String, String))
        requires
            row < self@.results.len(),
            row < self@.max_displayed_results,
        ensures
            (r.0@, r.1@) == self@.results[self@.results.len() - 1 - row],
    {
        &self.results[self.results.len() - 1 - row]
    }
}

/// Whether a frame has taken in as many results as it may.
pub fn frame_budget_spent(processed: usize) -> (r: bool)
    ensures
        r == (processed >= MAX_RESULTS_PER_FRAME),
{
    processed >= MAX_RESULTS_PER_FRAME
}


/// How many bytes of a link the results list shows before cutting it.
pub const DISPLAY_WIDTH_BYTES: usize = 60;

/// A link as the results list shows it: whole when it takes at most 60
/// bytes, else its first 60 bytes and `...`.  The cut must fall on a
/// character boundary.
pub fn shorten_for_display(text: &str) -> (r: String)
    requires
        text.spec_bytes().len() > DISPLAY_WIDTH_BYTES ==> is_char_boundary(text.spec_bytes(), DISPLAY_WIDTH_BYTES as int),
    ensures
        text.spec_bytes().len() <= DISPLAY_WIDTH_BYTES ==> r@ == text@,
        text.spec_bytes().len() > DISPLAY_WIDTH_BYTES ==> r@ == decode_utf8(
            text.spec_bytes().subrange(0, DISPLAY_WIDTH_BYTES as int),
        ) + "..."@,
{
    if text.as_bytes().len() > DISPLAY_WIDTH_BYTES {
        let (head, _) = text.split_at(DISPLAY_WIDTH_BYTES);
        proof {
            encode_utf8_decode_utf8(head@);
        }
        String::from_str(head).concat("...")
    } else {
        String::from_str(text)
    }
}


/// The concurrency a crawl gets is the level chosen, when it is a number:
/// any level `v` written in decimal gives concurrency `v`, and a level text
/// that parses to `v` gives `v`; only a level that does not parse gives the
/// default.
pub proof fn law_chosen_level_is_the_concurrency(v: usize, text: Seq<char>)
    ensures
        chosen_concurrency(decimal_text(v as nat)) == v,
        parsed_usize(text) == Some(v) ==> chosen_concurrency(text) == v,
        parsed_usize(text) is None ==> chosen_concurrency(text) == DEFAULT_CONCURRENCY,
{
    law_decimal_text_parses_back(v);
}


/// Cleared stats count nothing and name no page.
pub proof fn law_cleared_stats_are_zero()
    ensures
        zero_stats().pages_crawled == 0,
        zero_stats().links_found == 0,
        zero_stats().current_url.len() == 0,
{
}

/// The stats shown are those received: each count and the page, as sent.
pub proof fn law_stats_view_shows_the_stats(s: CrawlStats)
    ensures
        stats_view(s).pages_crawled == s.pages_crawled,
        stats_view(s).links_found == s.links_found,
        stats_view(s).current_url == s.current_url@,
{
}

} // verus!
