//! The crawl's logic: which links of a page lead off the site, which stay
//! on it, which are filtered out; and the breadth-first bookkeeping of the
//! pages to visit, the pages visited and the running counts.  Fetching pages
//! is left to the caller, which drives the crawl step by step.

use vstd::prelude::*;
use std::collections::VecDeque;
use crate::filter::{DomainFilter, blocks_url};
use crate::text::{lowercase, to_lowercase, str_eq};
use crate::web::{html_select_attrs, joined_url, parsed_host, selected_attrs, url_host, url_join};

verus! {

/// An outbound link and the page it was found on.
#[derive(Debug, Clone)]
pub struct CrawlResult {
    pub external_url: String,
    pub source_url: String,
}

/// Progress of a crawl: pages fetched, outbound links found, and the page
/// the latest links came from.
#[derive(Debug)]
pub struct CrawlStats {
    pub pages_crawled: usize,
    pub links_found: usize,
    pub current_url: String,
}

impl CrawlStats {
    /// Stats of a crawl that has not begun.
    pub fn new() -> (s: Self)
        ensures
            s.pages_crawled == 0,
            s.links_found == 0,
            s.current_url@ == Seq::<char>::empty(),
    {
        CrawlStats { pages_crawled: 0, links_found: 0, current_url: String::new() }
    }
}

impl Default for CrawlStats {
    fn default() -> (s: Self)
        ensures
            s.pages_crawled == 0,
            s.links_found == 0,
            s.current_url@ == Seq::<char>::empty(),
    {
        Self::new()
    }
}

/// Where a link found on a page belongs.
#[derive(Debug, Clone, Copy, PartialEq, Eq, Structural)]
pub enum LinkKind {
    /// On another host and not filtered: reported.
    External,
    /// On the crawled site's host: to be crawled, whatever the filter says.
    Internal,
    /// Without a host, unparsable, or filtered out.
    Ignored,
}

/// The absolute form of a link: `href` resolved against its page, or
/// `href` itself where resolution fails.
pub open spec fn resolved_link(page: Seq<char>, href: Seq<char>) -> Seq<char> {
    match joined_url(page, href) {
        Some(u) => u,
        None => href,
    }
}

/// Where the absolute link `full` belongs on a site whose host is `base`
/// (in lowercase), under the blocklist `list`.
pub open spec fn kind_of_link(list: Seq<Seq<char>>, base: Seq<char>, full: Seq<char>) -> LinkKind {
    match parsed_host(full) {
        Ok(Some(h)) => if lowercase(h) != base {
            if blocks_url(list, full) {
                LinkKind::Ignored
            } else {
                LinkKind::External
            }
        } else {
            LinkKind::Internal
        },
        _ => LinkKind::Ignored,
    }
}

/// The outbound and the on-site links of a page, in the order their anchors
/// appear, given the `href` values of its anchors (`None` for an anchor
/// without one).
pub open spec fn sorted_links(
    list: Seq<Seq<char>>,
    base: Seq<char>,
    page: Seq<char>,
    hrefs: Seq<Option<Seq<char>>>,
) -> (Seq<Seq<char>>, Seq<Seq<char>>)
    decreases hrefs.len(),
{
    if hrefs.len() == 0 {
        (Seq::<Seq<char>>::empty(), Seq::<Seq<char>>::empty())
    } else {
        let (ext, onsite) = sorted_links(list, base, page, hrefs.drop_last());
        match hrefs.last() {
            Some(h) => {
                let full = resolved_link(page, h);
                match kind_of_link(list, base, full) {
                    LinkKind::External => (ext.push(full), onsite),
                    LinkKind::Internal => (ext, onsite.push(full)),
                    LinkKind::Ignored => (ext, onsite),
                }
            },
            None => (ext, onsite),
        }
    }
}

/// The outbound and on-site links of the HTML page `body` fetched from
/// `page`: those of its `a[href]` anchors; none where the page cannot be
/// searched.
pub open spec fn links_of_body(
    list: Seq<Seq<char>>,
    base: Seq<char>,
    page: Seq<char>,
    body: Seq<char>,
) -> (Seq<Seq<char>>, Seq<Seq<char>>) {
    match selected_attrs(body, "a[href]"@, "href"@) {
        Some(hrefs) => sorted_links(list, base, page, hrefs),
        None => (Seq::<Seq<char>>::empty(), Seq::<Seq<char>>::empty()),
    }
}

/// The views of optional strings.
pub open spec fn option_views(v: Seq<Option<String>>) -> Seq<Option<Seq<char>>> {
    v.map_values(|o: Option<String>| match o {
        Some(s) => Some(s@),
        None => None,
    })
}

/// The views of strings.
pub open spec fn string_views(v: Seq<String>) -> Seq<Seq<char>> {
    v.map_values(|s: String| s@)
}

/// The links of one page, split by where they lead.
pub struct PageLinks {
    /// Links to other hosts that the filter lets through, in page order.
    pub external: Vec<String>,
    /// Links on the crawled site, in page order.
    pub internal: Vec<String>,
}

/// A crawler: the blocklist applied to outbound links and how many pages
/// it fetches at once.
pub struct Crawler {
    filter: DomainFilter,
    concurrency: usize,
}

impl Crawler {
    /// The blocklist applied to outbound links.
    pub closed spec fn blocklist(&self) -> Seq<Seq<char>> {
        self.filter@
    }

    /// How many pages are fetched at once.
    pub closed spec fn parallelism(&self) -> usize {
        self.concurrency
    }

    /// A crawler that filters outbound links with `filter` and fetches up
    /// to `concurrency` pages at once.
    pub fn new(filter: DomainFilter, concurrency: usize) -> (c: Self)
        ensures
            c.blocklist() == filter@,
            c.parallelism() == concurrency,
    {
        Crawler { filter, concurrency }
    }

    /// How many pages are fetched at once.
    pub fn concurrency(&self) -> (r: usize)
        ensures
            r == self.parallelism(),
    {
        self.concurrency
    }

    /// The blocklist applied to outbound links.
    pub fn filter(&self) -> (f: &DomainFilter)
        ensures
            f@ == self.blocklist(),
    {
        &self.filter
    }

    /// Where the absolute link `full` belongs, for a site whose host is
    /// `base_domain`: outbound when its host (in lowercase) differs and the
    /// filter lets it through, on-site when its host is the site's.
    pub fn kind_of(&self, base_domain: &str, full: &str) -> (k: LinkKind)
        ensures
            k == kind_of_link(self.blocklist(), base_domain@, full@),
    {
        match url_host(full) {
            Ok(Some(host)) => {
                let host_lower = to_lowercase(host.as_str());
                if !str_eq(host_lower.as_str(), base_domain) {
                    if self.filter.should_filter(full) {
                        LinkKind::Ignored
                    } else {
                        LinkKind::External
                    }
                } else {
                    LinkKind::Internal
                }
            },
            _ => LinkKind::Ignored,
        }
    }

    /// The absolute form of the link `href` found on `page_url`.
    pub fn resolve(page_url: &str, href: &str) -> (r: String)
        ensures
            r@ == resolved_link(page_url@, href@),
    {
        match url_join(page_url, href) {
            Some(u) => u,
            None => String::from_str(href),
        }
    }

    /// Sorts the anchors' `href` values of a page into outbound and on-site
    /// links.
    pub fn sort_links(&self, base_domain: &str, page_url: &str, hrefs: &Vec<Option<String>>) -> (r: PageLinks)
        ensures
            (string_views(r.external@), string_views(r.internal@))
                == sorted_links(self.blocklist(), base_domain@, page_url@, option_views(hrefs@)),
    {
        let mut external: Vec<String> = Vec::new();
        let mut internal: Vec<String> = Vec::new();
        let n = hrefs.len();
        let mut i: usize = 0;
        while i < n
            invariant
                n == hrefs@.len(),
                i <= n,
                (string_views(external@), string_views(internal@))
                    == sorted_links(self.blocklist(), base_domain@, page_url@, option_views(hrefs@).take(i as int)),
            decreases n - i,
        {
            let ghost ext0 = string_views(external@);
            let ghost int0 = string_views(internal@);
            let ghost prefix = option_views(hrefs@).take(i + 1);
            assert(prefix.drop_last() =~= option_views(hrefs@).take(i as int));
            assert(prefix.last() == option_views(hrefs@)[i as int]);
            match &hrefs[i] {
                Some(href) => {
                    let full = Self::resolve(page_url, href.as_str());
                    match self.kind_of(base_domain, full.as_str()) {
                        LinkKind::External => {
                            external.push(full);
                            assert(string_views(external@) =~= ext0.push(full@));
                        },
                        LinkKind::Internal => {
                            internal.push(full);
                            assert(string_views(internal@) =~= int0.push(full@));
                        },
                        LinkKind::Ignored => {},
                    }
                },
                None => {},
            }
            i = i + 1;
        }
        assert(option_views(hrefs@).take(n as int) =~= option_views(hrefs@));
        PageLinks { external, internal }
    }

    /// The outbound and on-site links of the HTML page `body` fetched from
    /// `page_url`, for a site whose host is `base_domain`: those of its
    /// `a[href]` anchors, resolved against the page.
    pub fn links_of_page(&self, base_domain: &str, page_url: &str, body: &str) -> (r: PageLinks)
        ensures
            (string_views(r.external@), string_views(r.internal@))
                == links_of_body(self.blocklist(), base_domain@, page_url@, body@),
    {
        match html_select_attrs(body, "a[href]", "href") {
            Some(hrefs) => {
                proof {
                    assert(option_views(hrefs@) =~= selected_attrs(body@, "a[href]"@, "href"@)->0);
                }
                self.sort_links(base_domain, page_url, &hrefs)
            },
            None => {
                let r = PageLinks { external: Vec::new(), internal: Vec::new() };
                assert(string_views(r.external@) =~= Seq::<Seq<char>>::empty());
                assert(string_views(r.internal@) =~= Seq::<Seq<char>>::empty());
                r
            },
        }
    }
}


/// The abstract state of a crawl: the site's host (in lowercase), the queue
/// of pages to visit, the pages already taken for fetching, and the counts.
pub struct CrawlView {
    pub base_domain: Seq<char>,
    pub queue: Seq<Seq<char>>,
    pub visited: Set<Seq<char>>,
    pub pages_crawled: nat,
    pub links_found: nat,
}

/// The state in which a crawl of `start` begins, when its host is `host`:
/// the site is the host in lowercase and the queue holds `start` alone.
pub open spec fn fresh_crawl(start: Seq<char>, host: Seq<char>) -> CrawlView {
    CrawlView {
        base_domain: lowercase(host),
        queue: seq![start],
        visited: Set::<Seq<char>>::empty(),
        pages_crawled: 0,
        links_found: 0,
    }
}

/// What the next entry of the queue calls for.
#[derive(Debug)]
pub enum NextUrl {
    /// The queue is empty.
    Exhausted,
    /// The front entry was visited before; it has been dropped.
    AlreadyVisited,
    /// The front entry is new: it is now visited and is to be fetched.
    Fetch(String),
}

/// The links of `links` that are not in `visited`, in order.
pub open spec fn unvisited(links: Seq<Seq<char>>, visited: Set<Seq<char>>) -> Seq<Seq<char>>
    decreases links.len(),
{
    if links.len() == 0 {
        Seq::<Seq<char>>::empty()
    } else {
        let rest = unvisited(links.drop_last(), visited);
        if visited.contains(links.last()) {
            rest
        } else {
            rest.push(links.last())
        }
    }
}

/// How one step of a crawl changes the visited pages: a step that hands
/// out `Some(url)` for fetching adds `url`, which was not visited before;
/// any other step leaves them as they were.
pub open spec fn visit_step(before: CrawlView, after: CrawlView, fetched: Option<Seq<char>>) -> bool {
    match fetched {
        Some(url) => !before.visited.contains(url) && after.visited == before.visited.insert(url),
        None => after.visited == before.visited,
    }
}

/// One step of a crawl, as the steps that change the state record it.
pub enum CrawlStep {
    /// `next_url` on a non-empty queue: `Some(url)` when it handed `url`
    /// out for fetching, `None` when it dropped a page visited before.
    Take(Option<Seq<char>>),
    /// `record_page` with this many outbound links and these on-site links.
    Record(nat, Seq<Seq<char>>),
}

/// How one step of a crawl changes its state.
pub open spec fn crawl_step(before: CrawlView, after: CrawlView, step: CrawlStep) -> bool {
    &&& after.base_domain == before.base_domain
    &&& match step {
        CrawlStep::Take(fetched) => {
            &&& before.queue.len() > 0
            &&& after.queue == before.queue.drop_first()
            &&& visit_step(before, after, fetched)
            &&& match fetched {
                Some(u) => u == before.queue[0],
                None => before.visited.contains(before.queue[0]),
            }
            &&& after.pages_crawled == before.pages_crawled
            &&& after.links_found == before.links_found
        },
        CrawlStep::Record(external, internal) => {
            &&& after.visited == before.visited
            &&& after.queue == before.queue + unvisited(internal, before.visited)
            &&& after.pages_crawled == before.pages_crawled + 1
            &&& after.links_found == before.links_found + external
        },
    }
}

/// The page that a `NextUrl` hands out for fetching, if any.
pub open spec fn fetched_url(n: NextUrl) -> Option<Seq<char>> {
    match n {
        NextUrl::Fetch(u) => Some(u@),
        _ => None,
    }
}

/// The state of a crawl in progress (a breadth-first walk over one site).
pub struct CrawlState {
    base_domain: String,
    queue: VecDeque<String>,
    visited: Vec<String>,
    pages_crawled: usize,
    links_found: usize,
}

impl View for CrawlState {
    type V = CrawlView;

    closed spec fn view(&self) -> CrawlView {
        CrawlView {
            base_domain: self.base_domain@,
            queue: string_views(self.queue@),
            visited: string_views(self.visited@).to_set(),
            pages_crawled: self.pages_crawled as nat,
            links_found: self.links_found as nat,
        }
    }
}

impl CrawlState {
    /// Well-formedness: no page is recorded as visited twice.
    pub closed spec fn wf(&self) -> bool {
        string_views(self.visited@).no_duplicates()
    }

    /// Whether `url` was visited before.
    fn was_visited(&self, url: &String) -> (r: bool)
        ensures
            r == self@.visited.contains(url@),
    {
        let n = self.visited.len();
        let mut k: usize = 0;
        while k < n
            invariant
                n == self.visited@.len(),
                k <= n,
                forall|j: int| 0 <= j < k ==> string_views(self.visited@)[j] != url@,
            decreases n - k,
        {
            if self.visited[k] == *url {
                assert(string_views(self.visited@)[k as int] == url@);
                return true;
            }
            k = k + 1;
        }
        proof {
            if string_views(self.visited@).to_set().contains(url@) {
                let j = choose|j: int| 0 <= j < n && string_views(self.visited@)[j] == url@;
                assert(false);
            }
        }
        false
    }

    /// The site's host, in lowercase.
    pub fn base_domain(&self) -> (r: &String)
        ensures
            r@ == self@.base_domain,
    {
        &self.base_domain
    }

    /// Pages fetched so far.
    pub fn pages_crawled(&self) -> (r: usize)
        ensures
            r == self@.pages_crawled,
    {
        self.pages_crawled
    }

    /// Outbound links found so far.
    pub fn links_found(&self) -> (r: usize)
        ensures
            r == self@.links_found,
    {
        self.links_found
    }

    /// Whether pages remain in the queue.
    pub fn has_pending(&self) -> (r: bool)
        ensures
            r == (self@.queue.len() > 0),
    {
        self.queue.len() > 0
    }

    /// How many entries the next round takes from the queue: as many as
    /// are queued, but no more than `concurrency`.
    pub fn batch_size(&self, concurrency: usize) -> (r: usize)
        ensures
            r == if self@.queue.len() < concurrency { self@.queue.len() } else { concurrency as nat },
    {
        let len = self.queue.len();
        if len < concurrency {
            len
        } else {
            concurrency
        }
    }

    /// Takes the front entry of the queue.  A page not visited before is
    /// marked visited and handed out for fetching; one visited before is
    /// dropped.
    pub fn next_url(&mut self) -> (r: NextUrl)
        requires
            old(self).wf(),
        ensures
            final(self).wf(),
            visit_step(old(self)@, final(self)@, fetched_url(r)),
            old(self)@.queue.len() > 0 ==> crawl_step(old(self)@, final(self)@, CrawlStep::Take(fetched_url(r))),
            final(self)@.base_domain == old(self)@.base_domain,
            final(self)@.pages_crawled == old(self)@.pages_crawled,
            final(self)@.links_found == old(self)@.links_found,
            old(self)@.queue.len() == 0 ==> r is Exhausted && final(self)@ == old(self)@,
            old(self)@.queue.len() > 0 ==> {
                let url = old(self)@.queue[0];
                &&& final(self)@.queue == old(self)@.queue.drop_first()
                &&& old(self)@.visited.contains(url) ==> r is AlreadyVisited && final(self)@.visited == old(self)@.visited
                &&& !old(self)@.visited.contains(url) ==> (r matches NextUrl::Fetch(u) && u@ == url
                    && final(self)@.visited == old(self)@.visited.insert(url))
            },
    {
        let ghost before = self@;
        match self.queue.pop_front() {
            None => {
                assert(string_views(self.queue@) =~= before.queue);
                NextUrl::Exhausted
            },
            Some(url) => {
                assert(string_views(self.queue@) =~= before.queue.drop_first());
                assert(url@ == before.queue[0]);
                if self.was_visited(&url) {
                    NextUrl::AlreadyVisited
                } else {
                    let ghost vs = string_views(self.visited@);
                    self.visited.push(url.clone());
                    proof {
                        assert(string_views(self.visited@) =~= vs.push(url@));
                        vs.lemma_push_to_set_commute(url@);
                        assert(!vs.contains(url@));
                        assert(vs.push(url@).no_duplicates()) by {
                            assert forall|i: int, j: int| 0 <= i < vs.len() + 1 && 0 <= j < vs.len() + 1 && i != j
                                implies vs.push(url@)[i] != vs.push(url@)[j] by {
                                if i == vs.len() {
                                    assert(vs[j] != url@);
                                } else if j == vs.len() {
                                    assert(vs[i] != url@);
                                }
                            }
                        }
                    }
                    NextUrl::Fetch(url)
                }
            },
        }
    }

    /// Begins a crawl of the site of `start_url`: the site's host is the
    /// URL's host in lowercase, and the queue holds `start_url` alone.  A URL
    /// that does not parse, or has no host, is refused with a message.
    pub fn start(start_url: &str) -> (r: Result<CrawlState, String>)
        ensures
            match parsed_host(start_url@) {
                Ok(Some(h)) => r matches Ok(st) && st.wf() && st@ == fresh_crawl(start_url@, h),
                Ok(None) => r matches Err(e) && e@ == "Start URL has no host"@,
                Err(pe) => r matches Err(e) && e@ == "Failed to parse start URL: "@ + pe,
            },
    {
        match url_host(start_url) {
            Ok(Some(host)) => {
                let base_domain = to_lowercase(host.as_str());
                let mut queue: VecDeque<String> = VecDeque::new();
                queue.push_back(String::from_str(start_url));
                let st = CrawlState {
                    base_domain,
                    queue,
                    visited: Vec::new(),
                    pages_crawled: 0,
                    links_found: 0,
                };
                proof {
                    assert(string_views(st.queue@) =~= seq![start_url@]);
                    assert(string_views(st.visited@) =~= Seq::<Seq<char>>::empty());
                    assert(string_views(st.visited@).to_set() =~= Set::<Seq<char>>::empty());
                }
                Ok(st)
            },
            Ok(None) => Err(String::from_str("Start URL has no host")),
            Err(e) => Err(String::from_str("Failed to parse start URL: ").concat(e.as_str())),
        }
    }

    /// Records a fetched page and its links: one more page crawled, its
    /// outbound links counted, and its on-site links not yet visited queued
    /// (in page order, repeats included).  Hands back, for each outbound
    /// link in order, the result to report with the stats after this page.
    pub fn record_page(&mut self, page_url: &str, links: PageLinks) -> (msgs: Vec<(CrawlResult, CrawlStats)>)
        requires
            old(self).wf(),
            old(self)@.pages_crawled < usize::MAX,
            old(self)@.links_found + links.external@.len() <= usize::MAX,
        ensures
            final(self).wf(),
            visit_step(old(self)@, final(self)@, None),
            crawl_step(old(self)@, final(self)@, CrawlStep::Record(links.external@.len(), string_views(links.internal@))),
            final(self)@.base_domain == old(self)@.base_domain,
            final(self)@.visited == old(self)@.visited,
            final(self)@.pages_crawled == old(self)@.pages_crawled + 1,
            final(self)@.links_found == old(self)@.links_found + links.external@.len(),
            final(self)@.queue == old(self)@.queue + unvisited(string_views(links.internal@), old(self)@.visited),
            msgs@.len() == links.external@.len(),
            forall|i: int| 0 <= i < msgs@.len() ==> {
                &&& (#[trigger] msgs@[i]).0.external_url@ == links.external@[i]@
                &&& msgs@[i].0.source_url@ == page_url@
                &&& msgs@[i].1.pages_crawled == final(self)@.pages_crawled
                &&& msgs@[i].1.links_found == final(self)@.links_found
                &&& msgs@[i].1.current_url@ == page_url@
            },
    {
        self.pages_crawled = self.pages_crawled + 1;
        self.links_found = self.links_found + links.external.len();
        let pages = self.pages_crawled;
        let found = self.links_found;
        let mut msgs: Vec<(CrawlResult, CrawlStats)> = Vec::new();
        let n = links.external.len();
        let mut i: usize = 0;
        while i < n
            invariant
                n == links.external@.len(),
                i <= n,
                msgs@.len() == i,
                forall|k: int| 0 <= k < i ==> {
                    &&& (#[trigger] msgs@[k]).0.external_url@ == links.external@[k]@
                    &&& msgs@[k].0.source_url@ == page_url@
                    &&& msgs@[k].1.pages_crawled == pages
                    &&& msgs@[k].1.links_found == found
                    &&& msgs@[k].1.current_url@ == page_url@
                },
            decreases n - i,
        {
            let result = CrawlResult {
                external_url: links.external[i].clone(),
                source_url: String::from_str(page_url),
            };
            let stats = CrawlStats {
                pages_crawled: pages,
                links_found: found,
                current_url: String::from_str(page_url),
            };
            msgs.push((result, stats));
            i = i + 1;
        }
        let m = links.internal.len();
        let mut j: usize = 0;
        let ghost visited = self@.visited;
        let ghost queue0 = self@.queue;
        let ghost internal = string_views(links.internal@);
        while j < m
            invariant
                m == links.internal@.len(),
                j <= m,
                internal == string_views(links.internal@),
                self.wf(),
                self@.visited == visited,
                self@.queue == queue0 + unvisited(internal.take(j as int), visited),
                self@.base_domain == old(self)@.base_domain,
                self@.pages_crawled == pages,
                self@.links_found == found,
            decreases m - j,
        {
            let link = &links.internal[j];
            assert(internal.take(j + 1).drop_last() =~= internal.take(j as int));
            assert(internal.take(j + 1).last() == link@);
            let ghost q = string_views(self.queue@);
            if !self.was_visited(link) {
                self.queue.push_back(link.clone());
                assert(string_views(self.queue@) =~= q.push(link@));
            }
            j = j + 1;
        }
        assert(internal.take(m as int) =~= internal);
        msgs
    }
}


proof fn lemma_visited_grows(views: Seq<CrawlView>, fetched: Seq<Option<Seq<char>>>, i: int, k: int)
    requires
        views.len() == fetched.len() + 1,
        forall|m: int| 0 <= m < fetched.len() ==> visit_step(#[trigger] views[m], views[m + 1], fetched[m]),
        0 <= i <= k < views.len(),
    ensures
        views[i].visited.subset_of(views[k].visited),
    decreases k - i,
{
    if i < k {
        lemma_visited_grows(views, fetched, i, k - 1);
        assert(visit_step(views[k - 1], views[k], fetched[k - 1]));
    }
}

/// No page is fetched twice in a crawl: along any run of steps, each of
/// which hands out a page for fetching or none (as `next_url` and
/// `record_page` do), the pages handed out are all different, and all of
/// them are visited at the end.
pub proof fn law_no_page_fetched_twice(views: Seq<CrawlView>, fetched: Seq<Option<Seq<char>>>)
    requires
        views.len() == fetched.len() + 1,
        forall|m: int| 0 <= m < fetched.len() ==> visit_step(#[trigger] views[m], views[m + 1], fetched[m]),
    ensures
        forall|i: int, j: int|
            0 <= i < j < fetched.len() && fetched[i] is Some && fetched[j] is Some
                ==> #[trigger] fetched[i] != #[trigger] fetched[j],
        forall|i: int|
            0 <= i < fetched.len() && fetched[i] is Some
                ==> views.last().visited.contains(#[trigger] fetched[i]->0),
{
    assert forall|i: int, j: int|
        0 <= i < j < fetched.len() && fetched[i] is Some && fetched[j] is Some
            implies #[trigger] fetched[i] != #[trigger] fetched[j] by {
        assert(visit_step(views[i], views[i + 1], fetched[i]));
        assert(visit_step(views[j], views[j + 1], fetched[j]));
        lemma_visited_grows(views, fetched, i + 1, j);
    }
    assert forall|i: int| 0 <= i < fetched.len() && fetched[i] is Some
            implies views.last().visited.contains(#[trigger] fetched[i]->0) by {
        assert(visit_step(views[i], views[i + 1], fetched[i]));
        lemma_visited_grows(views, fetched, i + 1, views.len() - 1);
    }
}

/// Every outbound link of a page is on another host than the site's and
/// passes the filter; every on-site link is on the site's host.
pub proof fn law_links_are_sorted_by_host(
    list: Seq<Seq<char>>,
    base: Seq<char>,
    page: Seq<char>,
    hrefs: Seq<Option<Seq<char>>>,
)
    ensures
        forall|i: int| 0 <= i < sorted_links(list, base, page, hrefs).0.len() ==> {
            let e = #[trigger] sorted_links(list, base, page, hrefs).0[i];
            &&& parsed_host(e) matches Ok(Some(h)) && lowercase(h) != base
            &&& !blocks_url(list, e)
        },
        forall|i: int| 0 <= i < sorted_links(list, base, page, hrefs).1.len() ==> {
            let l = #[trigger] sorted_links(list, base, page, hrefs).1[i];
            parsed_host(l) matches Ok(Some(h)) && lowercase(h) == base
        },
    decreases hrefs.len(),
{
    if hrefs.len() > 0 {
        law_links_are_sorted_by_host(list, base, page, hrefs.drop_last());
        let prev = sorted_links(list, base, page, hrefs.drop_last());
        let cur = sorted_links(list, base, page, hrefs);
        assert forall|i: int| 0 <= i < cur.0.len() implies {
            let e = #[trigger] cur.0[i];
            &&& parsed_host(e) matches Ok(Some(h)) && lowercase(h) != base
            &&& !blocks_url(list, e)
        } by {
            if i < prev.0.len() {
                assert(cur.0[i] == prev.0[i]);
            }
        }
        assert forall|i: int| 0 <= i < cur.1.len() implies {
            let l = #[trigger] cur.1[i];
            parsed_host(l) matches Ok(Some(h)) && lowercase(h) == base
        } by {
            if i < prev.1.len() {
                assert(cur.1[i] == prev.1[i]);
            }
        }
    }
}


/// Whether `url` is among the on-site links recorded by the first `k` steps.
pub open spec fn recorded_before(steps: Seq<CrawlStep>, k: int, url: Seq<char>) -> bool {
    exists|m: int| 0 <= m < k && #[trigger] records_link(steps[m], url)
}

/// Whether `step` records `url` as an on-site link.
pub open spec fn records_link(step: CrawlStep, url: Seq<char>) -> bool {
    match step {
        CrawlStep::Record(_, internal) => internal.contains(url),
        CrawlStep::Take(_) => false,
    }
}

/// Whether `step` hands out `url` for fetching.
pub open spec fn hands_out(step: CrawlStep, url: Seq<char>) -> bool {
    step == CrawlStep::Take(Some(url))
}

/// The outbound links that the first `k` steps record, counted.
pub open spec fn outbound_recorded(steps: Seq<CrawlStep>, k: int) -> nat
    decreases k,
{
    if k <= 0 {
        0
    } else {
        outbound_recorded(steps, k - 1) + match steps[k - 1] {
            CrawlStep::Record(external, _) => external,
            CrawlStep::Take(_) => 0,
        }
    }
}

/// The pages that the first `k` steps record, counted.
pub open spec fn pages_recorded(steps: Seq<CrawlStep>, k: int) -> nat
    decreases k,
{
    if k <= 0 {
        0
    } else {
        pages_recorded(steps, k - 1) + match steps[k - 1] {
            CrawlStep::Record(_, _) => 1nat,
            CrawlStep::Take(_) => 0nat,
        }
    }
}

/// Whether `views` is a run of crawl steps `steps`.
pub open spec fn is_crawl_run(views: Seq<CrawlView>, steps: Seq<CrawlStep>) -> bool {
    &&& views.len() == steps.len() + 1
    &&& forall|m: int| 0 <= m < steps.len() ==> crawl_step(#[trigger] views[m], views[m + 1], steps[m])
}

proof fn lemma_unvisited_keeps_new_links(links: Seq<Seq<char>>, visited: Set<Seq<char>>, url: Seq<char>)
    requires
        links.contains(url),
        !visited.contains(url),
    ensures
        unvisited(links, visited).contains(url),
    decreases links.len(),
{
    if links.last() == url {
        let rest = unvisited(links.drop_last(), visited);
        assert(rest.push(url)[rest.len() as int] == url);
    } else {
        let i = choose|i: int| 0 <= i < links.len() && links[i] == url;
        assert(links.drop_last()[i] == url);
        lemma_unvisited_keeps_new_links(links.drop_last(), visited, url);
        let rest = unvisited(links.drop_last(), visited);
        let j = choose|j: int| 0 <= j < rest.len() && rest[j] == url;
        if !visited.contains(links.last()) {
            assert(rest.push(links.last())[j] == url);
        }
    }
}

proof fn lemma_known_pages_stay_known(views: Seq<CrawlView>, steps: Seq<CrawlStep>, k: int)
    requires
        is_crawl_run(views, steps),
        0 <= k < views.len(),
    ensures
        forall|url: Seq<char>|
            (views[0].queue.contains(url) || recorded_before(steps, k, url))
                ==> views[k].visited.contains(url) || #[trigger] views[k].queue.contains(url),
    decreases k,
{
    if k > 0 {
        lemma_known_pages_stay_known(views, steps, k - 1);
        let before = views[k - 1];
        let after = views[k];
        assert(crawl_step(before, after, steps[k - 1]));
        assert forall|url: Seq<char>|
            (views[0].queue.contains(url) || recorded_before(steps, k, url))
            implies after.visited.contains(url) || #[trigger] after.queue.contains(url) by {
            if !(views[0].queue.contains(url) || recorded_before(steps, k - 1, url)) {
                let m = choose|m: int| 0 <= m < k && #[trigger] records_link(steps[m], url);
                assert(m == k - 1);
            }
            match steps[k - 1] {
                CrawlStep::Take(fetched) => {
                    if before.queue.contains(url) && !before.visited.contains(url) {
                        let i = choose|i: int| 0 <= i < before.queue.len() && before.queue[i] == url;
                        if i == 0 {
                            assert(fetched == Some(url));
                        } else {
                            assert(after.queue[i - 1] == url);
                        }
                    }
                },
                CrawlStep::Record(_, internal) => {
                    if before.queue.contains(url) {
                        let i = choose|i: int| 0 <= i < before.queue.len() && before.queue[i] == url;
                        assert(after.queue[i] == url);
                    } else if !before.visited.contains(url) {
                        assert(records_link(steps[k - 1], url));
                        lemma_unvisited_keeps_new_links(internal, before.visited, url);
                        let extra = unvisited(internal, before.visited);
                        let j = choose|j: int| 0 <= j < extra.len() && extra[j] == url;
                        assert(after.queue[before.queue.len() + j] == url);
                    }
                },
            }
        }
    }
}

proof fn lemma_new_pages_were_handed_out(views: Seq<CrawlView>, steps: Seq<CrawlStep>, k: int)
    requires
        is_crawl_run(views, steps),
        0 <= k < views.len(),
    ensures
        forall|url: Seq<char>|
            #[trigger] views[k].visited.contains(url) && !views[0].visited.contains(url)
                ==> exists|m: int| 0 <= m < k && #[trigger] hands_out(steps[m], url),
        views[k].links_found == views[0].links_found + outbound_recorded(steps, k),
        views[k].pages_crawled == views[0].pages_crawled + pages_recorded(steps, k),
    decreases k,
{
    if k > 0 {
        lemma_new_pages_were_handed_out(views, steps, k - 1);
        assert(crawl_step(views[k - 1], views[k], steps[k - 1]));
        assert forall|url: Seq<char>|
            #[trigger] views[k].visited.contains(url) && !views[0].visited.contains(url)
            implies exists|m: int| 0 <= m < k && #[trigger] hands_out(steps[m], url) by {
            if views[k - 1].visited.contains(url) {
                let m = choose|m: int| 0 <= m < k - 1 && #[trigger] hands_out(steps[m], url);
                assert(hands_out(steps[m], url));
            } else {
                assert(hands_out(steps[k - 1], url));
            }
        }
    }
}

/// A crawl that runs until its queue is empty reaches every page it knew
/// of: each page first queued, and each on-site link any page recorded, is
/// visited at the end; each page visited at the end and not at the start
/// was handed out for fetching; and the counts at the end are those at the
/// start plus the pages and outbound links recorded along the way.
pub proof fn law_finished_crawl_reaches_every_known_page(views: Seq<CrawlView>, steps: Seq<CrawlStep>)
    requires
        is_crawl_run(views, steps),
        views.last().queue.len() == 0,
    ensures
        forall|url: Seq<char>| #[trigger] views[0].queue.contains(url) ==> views.last().visited.contains(url),
        forall|m: int, url: Seq<char>|
            0 <= m < steps.len() && #[trigger] records_link(steps[m], url) ==> views.last().visited.contains(url),
        forall|url: Seq<char>|
            #[trigger] views.last().visited.contains(url) && !views[0].visited.contains(url)
                ==> exists|m: int| 0 <= m < steps.len() && #[trigger] hands_out(steps[m], url),
        views.last().links_found == views[0].links_found + outbound_recorded(steps, steps.len() as int),
        views.last().pages_crawled == views[0].pages_crawled + pages_recorded(steps, steps.len() as int),
{
    let n = steps.len() as int;
    lemma_known_pages_stay_known(views, steps, n);
    lemma_new_pages_were_handed_out(views, steps, n);
    assert forall|url: Seq<char>| #[trigger] views[0].queue.contains(url) implies views.last().visited.contains(url) by {
        if !views.last().visited.contains(url) {
            assert(views[n].queue.contains(url));
        }
    }
    assert forall|m: int, url: Seq<char>|
        0 <= m < steps.len() && #[trigger] records_link(steps[m], url) implies views.last().visited.contains(url) by {
        assert(recorded_before(steps, n, url));
        if !views.last().visited.contains(url) {
            assert(views[n].queue.contains(url));
        }
    }
}


/// A link on another host than the site's, which the blocklist lets
/// through, is outbound, whatever its scheme, path or query.
pub proof fn law_offsite_unblocked_link_is_outbound(list: Seq<Seq<char>>, base: Seq<char>, full: Seq<char>, host: Seq<char>)
    requires
        parsed_host(full) == Ok::<Option<Seq<char>>, Seq<char>>(Some(host)),
        lowercase(host) != base,
        !blocks_url(list, full),
    ensures
        kind_of_link(list, base, full) == LinkKind::External,
{
}

/// A link on the site's host is on-site, whatever the blocklist says.
pub proof fn law_link_on_site_host_is_internal(list: Seq<Seq<char>>, base: Seq<char>, full: Seq<char>, host: Seq<char>)
    requires
        parsed_host(full) == Ok::<Option<Seq<char>>, Seq<char>>(Some(host)),
        lowercase(host) == base,
    ensures
        kind_of_link(list, base, full) == LinkKind::Internal,
{
}

/// Only links that do not parse with a host, and off-site links that the
/// blocklist filters, are ignored.
pub proof fn law_ignored_links_are_hostless_or_blocked(list: Seq<Seq<char>>, base: Seq<char>, full: Seq<char>)
    ensures
        kind_of_link(list, base, full) == LinkKind::Ignored <==> match parsed_host(full) {
            Ok(Some(h)) => lowercase(h) != base && blocks_url(list, full),
            _ => true,
        },
{
}

/// Where a link belongs depends only on its host: two links that parse to
/// the same host belong to the same kind.
pub proof fn law_kind_depends_only_on_host(list: Seq<Seq<char>>, base: Seq<char>, a: Seq<char>, b: Seq<char>)
    requires
        parsed_host(a) == parsed_host(b),
    ensures
        kind_of_link(list, base, a) == kind_of_link(list, base, b),
{
}

/// Sorting the anchors of a page misses none and invents none: each anchor
/// with an `href` whose resolved link is outbound (on-site) appears among
/// the outbound (on-site) links; each outbound (on-site) link is the
/// resolved link of some anchor of that kind; and there are no more links
/// than anchors.
pub proof fn law_sorted_links_are_exactly_the_anchors(
    list: Seq<Seq<char>>,
    base: Seq<char>,
    page: Seq<char>,
    hrefs: Seq<Option<Seq<char>>>,
)
    ensures
        ({
            let (ext, onsite) = sorted_links(list, base, page, hrefs);
            &&& ext.len() + onsite.len() <= hrefs.len()
            &&& forall|i: int| 0 <= i < hrefs.len() && #[trigger] hrefs[i] is Some ==> {
                let full = resolved_link(page, hrefs[i]->0);
                &&& kind_of_link(list, base, full) == LinkKind::External ==> ext.contains(full)
                &&& kind_of_link(list, base, full) == LinkKind::Internal ==> onsite.contains(full)
            }
            &&& forall|j: int| 0 <= j < ext.len() ==> exists|i: int|
                0 <= i < hrefs.len() && #[trigger] hrefs[i] is Some
                    && #[trigger] ext[j] == resolved_link(page, hrefs[i]->0)
                    && kind_of_link(list, base, ext[j]) == LinkKind::External
            &&& forall|j: int| 0 <= j < onsite.len() ==> exists|i: int|
                0 <= i < hrefs.len() && #[trigger] hrefs[i] is Some
                    && #[trigger] onsite[j] == resolved_link(page, hrefs[i]->0)
                    && kind_of_link(list, base, onsite[j]) == LinkKind::Internal
        }),
    decreases hrefs.len(),
{
    if hrefs.len() > 0 {
        let prev_hrefs = hrefs.drop_last();
        law_sorted_links_are_exactly_the_anchors(list, base, page, prev_hrefs);
        let (pe, pi) = sorted_links(list, base, page, prev_hrefs);
        let (ext, onsite) = sorted_links(list, base, page, hrefs);
        let n = hrefs.len() - 1;
        assert forall|i: int| 0 <= i < hrefs.len() && #[trigger] hrefs[i] is Some implies {
            let full = resolved_link(page, hrefs[i]->0);
            &&& kind_of_link(list, base, full) == LinkKind::External ==> ext.contains(full)
            &&& kind_of_link(list, base, full) == LinkKind::Internal ==> onsite.contains(full)
        } by {
            let full = resolved_link(page, hrefs[i]->0);
            if i < n {
                assert(prev_hrefs[i] == hrefs[i]);
                if kind_of_link(list, base, full) == LinkKind::External {
                    let j = choose|j: int| 0 <= j < pe.len() && pe[j] == full;
                    assert(ext[j] == pe[j]);
                }
                if kind_of_link(list, base, full) == LinkKind::Internal {
                    let j = choose|j: int| 0 <= j < pi.len() && pi[j] == full;
                    assert(onsite[j] == pi[j]);
                }
            } else {
                if kind_of_link(list, base, full) == LinkKind::External {
                    assert(ext[ext.len() - 1] == full);
                }
                if kind_of_link(list, base, full) == LinkKind::Internal {
                    assert(onsite[onsite.len() - 1] == full);
                }
            }
        }
        assert forall|j: int| 0 <= j < ext.len() implies exists|i: int|
            0 <= i < hrefs.len() && #[trigger] hrefs[i] is Some
                && #[trigger] ext[j] == resolved_link(page, hrefs[i]->0)
                && kind_of_link(list, base, ext[j]) == LinkKind::External by {
            if j < pe.len() {
                assert(ext[j] == pe[j]);
                let i = choose|i: int| 0 <= i < prev_hrefs.len() && #[trigger] prev_hrefs[i] is Some
                    && #[trigger] pe[j] == resolved_link(page, prev_hrefs[i]->0)
                    && kind_of_link(list, base, pe[j]) == LinkKind::External;
                assert(hrefs[i] == prev_hrefs[i]);
            } else {
                assert(hrefs[n] is Some);
            }
        }
        assert forall|j: int| 0 <= j < onsite.len() implies exists|i: int|
            0 <= i < hrefs.len() && #[trigger] hrefs[i] is Some
                && #[trigger] onsite[j] == resolved_link(page, hrefs[i]->0)
                && kind_of_link(list, base, onsite[j]) == LinkKind::Internal by {
            if j < pi.len() {
                assert(onsite[j] == pi[j]);
                let i = choose|i: int| 0 <= i < prev_hrefs.len() && #[trigger] prev_hrefs[i] is Some
                    && #[trigger] pi[j] == resolved_link(page, prev_hrefs[i]->0)
                    && kind_of_link(list, base, pi[j]) == LinkKind::Internal;
                assert(hrefs[i] == prev_hrefs[i]);
            } else {
                assert(hrefs[n] is Some);
            }
        }
    }
}

/// The links of a page come from every `a` element that has an `href`
/// (the anchors that the selector `a[href]` picks, whatever their other
/// attributes): each such anchor whose resolved link is outbound (on-site)
/// shows up among the page's outbound (on-site) links.  Where the page
/// cannot be searched, it has no links.
pub proof fn law_page_links_cover_every_anchor_with_href(
    list: Seq<Seq<char>>,
    base: Seq<char>,
    page: Seq<char>,
    body: Seq<char>,
)
    ensures
        match selected_attrs(body, "a[href]"@, "href"@) {
            Some(hrefs) => forall|i: int| 0 <= i < hrefs.len() && #[trigger] hrefs[i] is Some ==> {
                let full = resolved_link(page, hrefs[i]->0);
                &&& kind_of_link(list, base, full) == LinkKind::External
                    ==> links_of_body(list, base, page, body).0.contains(full)
                &&& kind_of_link(list, base, full) == LinkKind::Internal
                    ==> links_of_body(list, base, page, body).1.contains(full)
            },
            None => links_of_body(list, base, page, body).0.len() == 0
                && links_of_body(list, base, page, body).1.len() == 0,
        },
{
    if let Some(hrefs) = selected_attrs(body, "a[href]"@, "href"@) {
        law_sorted_links_are_exactly_the_anchors(list, base, page, hrefs);
    }
}


/// A link resolves to what joining it to its page gives, and stays as it
/// is only where joining fails.
pub proof fn law_links_resolve_against_their_page(page: Seq<char>, href: Seq<char>)
    ensures
        joined_url(page, href) matches Some(u) ==> resolved_link(page, href) == u,
        joined_url(page, href) is None ==> resolved_link(page, href) == href,
{
}

/// A crawl begins on its start URL alone: the queue holds just that URL,
/// nothing is visited, nothing is counted, and the site is the URL's host
/// in lowercase.
pub proof fn law_fresh_crawl_holds_only_the_start(start: Seq<char>, host: Seq<char>)
    ensures
        fresh_crawl(start, host).queue == seq![start],
        fresh_crawl(start, host).visited.is_empty(),
        fresh_crawl(start, host).pages_crawled == 0,
        fresh_crawl(start, host).links_found == 0,
        fresh_crawl(start, host).base_domain == lowercase(host),
{
}

} // verus!
