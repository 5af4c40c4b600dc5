//! The crawler: URL deduplication, the BFS frontier, content extraction and
//! the decisions of a site crawl. Fetching and waiting are the caller's: it
//! asks the crawler for the next URL, fetches it, and hands the page back.
pub mod browser;
pub mod dedup;
pub mod extractor;
pub mod fetcher;
pub mod frontier;

use vstd::prelude::*;

use crate::config::{strings_view, CrawlConfig, CrawlResult, SiteCrawlResult};
use crate::error::CrawlError;
use crate::web_url::{opt_view, url_parse_result};
use dedup::{normalize_url, normalized_form, Dedup};
use extractor::{
    empty_metadata, extract, links_spec, markdown_spec, page_metadata_matches, selection,
    title_spec,
};
use fetcher::{is_html_spec, FetchResponse, Fetcher};
use frontier::Frontier;

verus! {

broadcast use vstd::string::group_string_axioms;

/// The crawl result for a fetched page, before its depth is known: for an
/// HTML response the title, Markdown, links (resolved against the page URL)
/// and metadata extracted from the body; otherwise the body itself as
/// content. Content type and length come from the response.
pub open spec fn page_result_matches(
    r: CrawlResult,
    url: Seq<char>,
    response: FetchResponse,
    elapsed_ms: u64,
) -> bool {
    let body = response.body@;
    &&& r.url@ == url
    &&& r.status == response.status
    &&& r.depth == 0
    &&& r.elapsed_ms == elapsed_ms
    &&& opt_view(r.metadata.content_type) == opt_view(response.content_type)
    &&& r.metadata.content_length == response.content_length
    &&& if is_html_spec(response) {
        &&& opt_view(r.title) == title_spec(body)
        &&& r.content_markdown@ == markdown_spec(body)
        &&& strings_view(r.links@) == links_spec(selection(body, "a[href]"@), url_parse_result(url))
        &&& page_metadata_matches(r.metadata, body)
    } else {
        &&& r.title is None
        &&& r.content_markdown@ == body
        &&& r.links@.len() == 0
        &&& r.metadata.description is None
        &&& r.metadata.keywords@.len() == 0
        &&& r.metadata.h1@.len() == 0
        &&& r.metadata.h2@.len() == 0
    }
}

/// Builds the crawl result of a fetched page (the part of crawling a URL
/// that follows the fetch).
pub fn page_result(url: &str, response: FetchResponse, elapsed_ms: u64) -> (r: CrawlResult)
    ensures
        page_result_matches(r, url@, response, elapsed_ms),
{
    let html = response.is_html();
    let ghost resp = response;
    let FetchResponse { status, body, content_type, content_length, final_url: _ } = response;
    let (title, markdown, links, mut meta) = if html {
        let ex = extract(body.as_str(), url);
        (ex.title, ex.markdown, ex.links, ex.metadata)
    } else {
        (None, body, Vec::new(), empty_metadata())
    };
    meta.content_type = content_type;
    meta.content_length = content_length;
    let r = CrawlResult {
        url: url.to_owned(),
        status,
        title,
        content_markdown: markdown,
        links,
        metadata: meta,
        depth: 0,
        elapsed_ms,
    };
    assert(page_result_matches(r, url@, resp, elapsed_ms));
    r
}

/// The index of the first entry no deeper than `max_depth`, or the length
/// of the queue when there is none.
pub open spec fn first_shallow(q: Seq<(Seq<char>, usize)>, max_depth: usize) -> int
    decreases q.len(),
{
    if q.len() == 0 {
        0
    } else if q[0].1 <= max_depth {
        0
    } else {
        1 + first_shallow(q.drop_first(), max_depth)
    }
}

proof fn lemma_first_shallow(q: Seq<(Seq<char>, usize)>, max_depth: usize)
    ensures
        0 <= first_shallow(q, max_depth) <= q.len(),
        first_shallow(q, max_depth) < q.len() ==> q[first_shallow(q, max_depth)].1 <= max_depth,
        forall|j: int| 0 <= j < first_shallow(q, max_depth) ==> q[j].1 > max_depth,
    decreases q.len(),
{
    if q.len() > 0 && q[0].1 > max_depth {
        lemma_first_shallow(q.drop_first(), max_depth);
        assert forall|j: int| 0 <= j < first_shallow(q, max_depth) implies q[j].1 > max_depth by {
            if j > 0 {
                assert(q[j] == q.drop_first()[j - 1]);
            }
        }
    }
}

/// How the frontier and the seen set change when a crawled page's links are
/// enqueued: each link that normalizes and is not yet seen is marked seen
/// and queued one level deeper; the others change nothing.
pub open spec fn enqueue_links(
    links: Seq<Seq<char>>,
    depth: usize,
    q: Seq<(Seq<char>, usize)>,
    seen: Set<Seq<char>>,
) -> (Seq<(Seq<char>, usize)>, Set<Seq<char>>)
    decreases links.len(),
{
    if links.len() == 0 {
        (q, seen)
    } else {
        let (q1, s1) = enqueue_links(links.drop_last(), depth, q, seen);
        match url_parse_result(links.last()) {
            Some(p) => {
                let n = normalized_form(p);
                if s1.contains(n) {
                    (q1, s1)
                } else {
                    (q1.push((n, (depth + 1) as usize)), s1.insert(n))
                }
            },
            None => (q1, s1),
        }
    }
}

/// The site crawler: configuration, fetcher, frontier and seen set. The
/// frontier and the seen set persist from one site crawl to the next.
pub struct Crawler {
    config: CrawlConfig,
    fetcher: Fetcher,
    frontier: Frontier,
    dedup: Dedup,
}

impl Crawler {
    /// The configuration.
    pub closed spec fn config_spec(&self) -> CrawlConfig {
        self.config
    }

    /// The queued URLs with their depths, front first.
    pub closed spec fn queue(&self) -> Seq<(Seq<char>, usize)> {
        self.frontier@
    }

    /// The URLs seen (queued at some point).
    pub closed spec fn seen(&self) -> Set<Seq<char>> {
        self.dedup@
    }

    /// A crawler with an empty frontier and nothing seen; fails when the
    /// HTTP client cannot be built.
    pub fn new(config: CrawlConfig) -> (r: Result<Crawler, CrawlError>)
        ensures
            r matches Ok(c) ==> {
                &&& c.config_spec() == config
                &&& c.queue().len() == 0
                &&& c.seen() == Set::<Seq<char>>::empty()
                &&& c.fetcher_spec().agents() == strings_view(config.user_agents@)
                &&& c.fetcher_spec().handed_out() == 0
                &&& c.fetcher_spec().timeout_secs() == config.timeout_secs
                &&& c.fetcher_spec().redirect_limit() == if config.follow_redirects {
                    Some(config.max_redirects)
                } else {
                    None
                }
                &&& c.fetcher_spec().proxy() == opt_view(config.proxy)
            },
            r matches Err(e) ==> e is Client,
    {
        let fetcher = Fetcher::new(&config)?;
        let frontier = Frontier::new();
        let dedup = Dedup::new();
        Ok(Crawler { config, fetcher, frontier, dedup })
    }

    /// The configuration.
    pub fn config(&self) -> (c: &CrawlConfig)
        ensures
            *c == self.config_spec(),
    {
        &self.config
    }

    /// The fetcher.
    pub closed spec fn fetcher_spec(&self) -> Fetcher {
        self.fetcher
    }

    /// The fetcher, for fetching a URL; what is done through it changes
    /// nothing else of the crawler.
    pub fn fetcher(&mut self) -> (f: &mut Fetcher)
        ensures
            *f == old(self).fetcher_spec(),
            final(self).fetcher_spec() == *final(f),
            final(self).config_spec() == old(self).config_spec(),
            final(self).queue() == old(self).queue(),
            final(self).seen() == old(self).seen(),
    {
        &mut self.fetcher
    }

    /// Starts a site crawl: the seed URL is normalized, queued at depth 0
    /// and marked seen. Fails, changing nothing, when the seed does not
    /// parse.
    pub fn begin_site(&mut self, seed_url: &str) -> (r: Result<String, CrawlError>)
        ensures
            url_parse_result(seed_url@) is None ==> r is Err && final(self).queue() == old(self).queue() && final(self).seen() == old(self).seen(),
            url_parse_result(seed_url@) matches Some(p) ==> r matches Ok(seed) && seed@
                == normalized_form(p) && final(self).queue() == old(self).queue().push(
                (seed@, 0usize),
            ) && final(self).seen() == old(self).seen().insert(seed@),
            final(self).config_spec() == old(self).config_spec(),
    {
        let seed = normalize_url(seed_url)?;
        self.frontier.push(seed.clone(), 0);
        self.dedup.mark_seen(seed.as_str());
        Ok(seed)
    }

    /// The next URL to crawl and its depth. Entries deeper than the maximum
    /// depth are dropped on the way. Once `pages_done` pages reached the
    /// maximum, the crawl stops: the front entry is dropped and nothing is
    /// returned.
    pub fn next_target(&mut self, pages_done: usize) -> (r: Option<(String, usize)>)
        ensures
            final(self).config_spec() == old(self).config_spec(),
            final(self).seen() == old(self).seen(),
            ({
                let q = old(self).queue();
                let max_depth = old(self).config_spec().max_depth;
                let k = first_shallow(q, max_depth);
                if q.len() == 0 {
                    r is None && final(self).queue() == q
                } else if pages_done >= old(self).config_spec().max_pages {
                    r is None && final(self).queue() == q.drop_first()
                } else if k < q.len() {
                    r matches Some(t) && (t.0@, t.1) == q[k] && t.1 <= max_depth && final(self).queue() == q.skip(k + 1)
                } else {
                    r is None && final(self).queue() == Seq::<(Seq<char>, usize)>::empty()
                }
            }),
    {
        let ghost q = self.frontier@;
        let ghost max_depth = self.config.max_depth;
        proof {
            lemma_first_shallow(q, max_depth);
        }
        let ghost k = first_shallow(q, max_depth);
        let total = self.frontier.len();
        let mut dropped: usize = 0;
        assert(q.skip(0) == q);
        loop
            invariant
                self.config == old(self).config,
                self.dedup@ == old(self).dedup@,
                q == old(self).frontier@,
                max_depth == self.config.max_depth,
                k == first_shallow(q, max_depth),
                0 <= k <= q.len(),
                k < q.len() ==> q[k].1 <= max_depth,
                forall|j: int| 0 <= j < k ==> q[j].1 > max_depth,
                dropped <= k,
                total == q.len(),
                self.frontier@ == q.skip(dropped as int),
                dropped > 0 ==> pages_done < self.config.max_pages,
            decreases q.len() - dropped,
        {
            match self.frontier.pop() {
                None => {
                    assert(q.len() == dropped);
                    return None;
                },
                Some((url, depth)) => {
                    assert(q.skip(dropped as int).drop_first() == q.skip(dropped + 1));
                    assert((url@, depth) == q[dropped as int]);
                    if pages_done >= self.config.max_pages {
                        return None;
                    }
                    if depth <= self.config.max_depth {
                        return Some((url, depth));
                    }
                    dropped = dropped + 1;
                },
            }
        }
    }

    /// Records a crawled page at `depth`: its links that normalize and were
    /// not seen are marked seen and queued one level deeper, in link order.
    /// Returns the page with its depth set.
    pub fn record_page(&mut self, page: CrawlResult, depth: usize) -> (r: CrawlResult)
        requires
            depth < usize::MAX,
        ensures
            (final(self).queue(), final(self).seen()) == enqueue_links(
                strings_view(page.links@),
                depth,
                old(self).queue(),
                old(self).seen(),
            ),
            final(self).config_spec() == old(self).config_spec(),
            r == (CrawlResult { depth, ..page }),
    {
        let mut result = page;
        result.depth = depth;
        let ghost links = strings_view(result.links@);
        let mut i: usize = 0;
        while i < result.links.len()
            invariant
                i <= result.links@.len(),
                depth < usize::MAX,
                links == strings_view(result.links@),
                result == (CrawlResult { depth, ..page }),
                self.config == old(self).config,
                (self.frontier@, self.dedup@) == enqueue_links(
                    links.take(i as int),
                    depth,
                    old(self).frontier@,
                    old(self).dedup@,
                ),
            decreases result.links@.len() - i,
        {
            assert(links.take(i + 1).drop_last() == links.take(i as int));
            assert(links.take(i + 1).last() == result.links@[i as int]@);
            match normalize_url(result.links[i].as_str()) {
                Ok(normalized) => {
                    if !self.dedup.is_seen(normalized.as_str()) {
                        self.dedup.mark_seen(normalized.as_str());
                        self.frontier.push(normalized, depth + 1);
                    }
                },
                Err(_) => {},
            }
            i += 1;
        }
        assert(links.take(result.links@.len() as int) == links);
        result
    }

    /// Finishes the target taken at `depth`: a page that was crawled is
    /// recorded as `record_page` does and added to `pages`; a failed fetch
    /// (`None`) changes nothing, and the crawl goes on with the queue as it
    /// is.
    pub fn finish_target(
        &mut self,
        outcome: Option<CrawlResult>,
        depth: usize,
        pages: &mut Vec<CrawlResult>,
    )
        requires
            depth < usize::MAX,
        ensures
            match outcome {
                Some(page) => {
                    &&& (final(self).queue(), final(self).seen()) == enqueue_links(
                        strings_view(page.links@),
                        depth,
                        old(self).queue(),
                        old(self).seen(),
                    )
                    &&& final(self).config_spec() == old(self).config_spec()
                    &&& final(pages)@ == old(pages)@.push(CrawlResult { depth, ..page })
                },
                None => *final(self) == *old(self) && final(pages)@ == old(pages)@,
            },
    {
        match outcome {
            Some(page) => {
                let recorded = self.record_page(page, depth);
                pages.push(recorded);
            },
            None => {},
        }
    }
}

/// The result of a site crawl: the pages crawled and their number.
pub fn site_result(start_url: &str, pages: Vec<CrawlResult>, elapsed_ms: u64) -> (r:
    SiteCrawlResult)
    ensures
        r.start_url@ == start_url@,
        r.pages@ == pages@,
        r.total_pages == pages@.len(),
        r.elapsed_ms == elapsed_ms,
{
    let total_pages = pages.len();
    SiteCrawlResult { start_url: start_url.to_owned(), pages, total_pages, elapsed_ms }
}

/// The pause between two requests, in milliseconds, for a rate limit in
/// requests per second.
pub fn rate_limit_delay_ms(rate_limit_per_second: u32) -> (ms: u64)
    requires
        rate_limit_per_second > 0,
    ensures
        ms == 1000int / (rate_limit_per_second as int),
{
    1000 / (rate_limit_per_second as u64)
}

/// Every queued URL is in the seen set, and stays so: enqueuing a page's
/// links keeps it, and so do starting a site (the seed is queued and marked)
/// and taking targets (entries only leave the queue).
pub proof fn lemma_queue_within_seen(
    links: Seq<Seq<char>>,
    depth: usize,
    q: Seq<(Seq<char>, usize)>,
    seen: Set<Seq<char>>,
    seed: Seq<char>,
    k: int,
)
    requires
        depth < usize::MAX,
        forall|i: int| 0 <= i < q.len() ==> seen.contains(#[trigger] q[i].0),
        0 <= k <= q.len(),
    ensures
        ({
            let (q2, s2) = enqueue_links(links, depth, q, seen);
            forall|i: int| 0 <= i < q2.len() ==> s2.contains(#[trigger] q2[i].0)
        }),
        forall|i: int|
            0 <= i < q.push((seed, 0usize)).len() ==> seen.insert(seed).contains(
                #[trigger] q.push((seed, 0usize))[i].0,
            ),
        forall|i: int| 0 <= i < q.skip(k).len() ==> seen.contains(#[trigger] q.skip(k)[i].0),
{
    lemma_enqueue_links_fresh(links, depth, q, seen);
    let (q2, s2) = enqueue_links(links, depth, q, seen);
    assert forall|i: int| 0 <= i < q2.len() implies s2.contains(#[trigger] q2[i].0) by {
        if i < q.len() {
            assert(q2.take(q.len() as int)[i] == q[i]);
            assert(s2.contains(q[i].0));
        }
    }
    assert forall|i: int| 0 <= i < q.skip(k).len() implies seen.contains(
        #[trigger] q.skip(k)[i].0,
    ) by {
        assert(q.skip(k)[i] == q[i + k]);
    }
}

/// No URL waits in the queue twice: when the queued URLs are distinct and
/// all seen, they stay distinct after a page's links are enqueued, and after
/// targets are taken.
pub proof fn lemma_queue_unique(
    links: Seq<Seq<char>>,
    depth: usize,
    q: Seq<(Seq<char>, usize)>,
    seen: Set<Seq<char>>,
    k: int,
)
    requires
        depth < usize::MAX,
        forall|i: int| 0 <= i < q.len() ==> seen.contains(#[trigger] q[i].0),
        forall|i: int, j: int| 0 <= i < j < q.len() ==> #[trigger] q[i].0 != #[trigger] q[j].0,
        0 <= k <= q.len(),
    ensures
        ({
            let q2 = enqueue_links(links, depth, q, seen).0;
            forall|i: int, j: int| 0 <= i < j < q2.len() ==> #[trigger] q2[i].0 != #[trigger] q2[j].0
        }),
        forall|i: int, j: int|
            0 <= i < j < q.skip(k).len() ==> #[trigger] q.skip(k)[i].0 != #[trigger] q.skip(k)[j].0,
{
    lemma_enqueue_links_fresh(links, depth, q, seen);
    let q2 = enqueue_links(links, depth, q, seen).0;
    assert forall|i: int, j: int| 0 <= i < j < q2.len() implies #[trigger] q2[i].0
        != #[trigger] q2[j].0 by {
        if j < q.len() {
            assert(q2[i] == q2.take(q.len() as int)[i]);
            assert(q2[j] == q2.take(q.len() as int)[j]);
        } else if i < q.len() {
            assert(q2[i] == q2.take(q.len() as int)[i]);
            assert(seen.contains(q[i].0));
            assert(!seen.contains(q2[j].0));
        }
    }
    assert forall|i: int, j: int| 0 <= i < j < q.skip(k).len() implies #[trigger] q.skip(k)[i].0
        != #[trigger] q.skip(k)[j].0 by {
        assert(q.skip(k)[i] == q[i + k]);
        assert(q.skip(k)[j] == q[j + k]);
    }
}

/// Enqueuing links never queues a URL twice: the queue only grows at its
/// back, every URL added was unseen before and is seen after, the URLs added
/// are distinct and one level deeper, and the seen set grows by exactly
/// the URLs added.
pub proof fn lemma_enqueue_links_fresh(
    links: Seq<Seq<char>>,
    depth: usize,
    q: Seq<(Seq<char>, usize)>,
    seen: Set<Seq<char>>,
)
    requires
        depth < usize::MAX,
    ensures
        ({
            let (q2, s2) = enqueue_links(links, depth, q, seen);
            &&& q2.len() >= q.len()
            &&& q2.take(q.len() as int) == q
            &&& forall|i: int|
                q.len() <= i < q2.len() ==> !seen.contains(#[trigger] q2[i].0) && s2.contains(
                    q2[i].0,
                ) && q2[i].1 == depth + 1
            &&& forall|i: int, j: int|
                q.len() <= i < j < q2.len() ==> #[trigger] q2[i].0 != #[trigger] q2[j].0
            &&& forall|u: Seq<char>|
                #[trigger] s2.contains(u) <==> seen.contains(u) || exists|i: int|
                    q.len() <= i < q2.len() && #[trigger] q2[i].0 == u
        }),
    decreases links.len(),
{
    if links.len() > 0 {
        lemma_enqueue_links_fresh(links.drop_last(), depth, q, seen);
        let (q1, s1) = enqueue_links(links.drop_last(), depth, q, seen);
        let (q2, s2) = enqueue_links(links, depth, q, seen);
        if q2 != q1 {
            let n = q2.last().0;
            assert(q2 == q1.push((n, (depth + 1) as usize)));
            assert(!s1.contains(n));
            assert(q2.take(q.len() as int) == q1.take(q.len() as int));
            assert forall|u: Seq<char>| #[trigger] s2.contains(u) <==> seen.contains(u) || exists|
                i: int,
            | q.len() <= i < q2.len() && #[trigger] q2[i].0 == u by {
                if s1.contains(u) && !seen.contains(u) {
                    let i = choose|i: int| q.len() <= i < q1.len() && #[trigger] q1[i].0 == u;
                    assert(q2[i].0 == u);
                }
                if u == n {
                    assert(q2[q2.len() - 1].0 == u);
                }
                if exists|i: int| q.len() <= i < q2.len() && #[trigger] q2[i].0 == u {
                    let i = choose|i: int| q.len() <= i < q2.len() && #[trigger] q2[i].0 == u;
                    if i < q1.len() {
                        assert(q1[i].0 == u);
                    }
                }
            }
            assert forall|i: int, j: int| q.len() <= i < j < q2.len() implies #[trigger] q2[i].0
                != #[trigger] q2[j].0 by {
                if j == q2.len() - 1 {
                    assert(q1[i].0 == q2[i].0);
                    assert(s1.contains(q1[i].0));
                } else {
                    assert(q1[i].0 != q1[j].0);
                }
            }
            assert forall|i: int| q.len() <= i < q2.len() implies !seen.contains(
                #[trigger] q2[i].0,
            ) && s2.contains(q2[i].0) && q2[i].1 == depth + 1 by {
                if i < q1.len() {
                    assert(q2[i] == q1[i]);
                }
            }
        }
    }
}

/// The depths of the queued entries never decrease from front to back.
pub open spec fn depths_sorted(q: Seq<(Seq<char>, usize)>) -> bool {
    forall|i: int, j: int| 0 <= i <= j < q.len() ==> #[trigger] q[i].1 <= #[trigger] q[j].1
}

/// Breadth first: when the queue's depths never decrease from front to
/// back and none is more than one level below the page just crawled,
/// enqueuing that page's links keeps the depths in order; taking targets
/// keeps them in order too, and the target taken is no deeper than any
/// entry left behind it. So pages are crawled level by level.
pub proof fn lemma_breadth_first(
    links: Seq<Seq<char>>,
    depth: usize,
    q: Seq<(Seq<char>, usize)>,
    seen: Set<Seq<char>>,
    k: int,
)
    requires
        depth < usize::MAX,
        depths_sorted(q),
        forall|i: int| 0 <= i < q.len() ==> #[trigger] q[i].1 <= depth + 1,
        0 <= k < q.len(),
    ensures
        depths_sorted(enqueue_links(links, depth, q, seen).0),
        depths_sorted(q.skip(k + 1)),
        forall|i: int| 0 <= i < q.skip(k + 1).len() ==> q[k].1 <= #[trigger] q.skip(k + 1)[i].1,
{
    lemma_enqueue_links_fresh(links, depth, q, seen);
    let q2 = enqueue_links(links, depth, q, seen).0;
    assert forall|i: int, j: int| 0 <= i <= j < q2.len() implies #[trigger] q2[i].1
        <= #[trigger] q2[j].1 by {
        if j < q.len() {
            assert(q2[i] == q2.take(q.len() as int)[i]);
            assert(q2[j] == q2.take(q.len() as int)[j]);
        } else {
            assert(!seen.contains(q2[j].0));
            if i < q.len() {
                assert(q2[i] == q2.take(q.len() as int)[i]);
                assert(q[i].1 <= depth + 1);
            } else {
                assert(!seen.contains(q2[i].0));
            }
        }
    }
    let r = q.skip(k + 1);
    assert forall|i: int, j: int| 0 <= i <= j < r.len() implies #[trigger] r[i].1
        <= #[trigger] r[j].1 by {
        assert(r[i] == q[i + k + 1]);
        assert(r[j] == q[j + k + 1]);
    }
    assert forall|i: int| 0 <= i < r.len() implies q[k].1 <= #[trigger] r[i].1 by {
        assert(r[i] == q[i + k + 1]);
    }
}

/// The state of a site crawl from which no URL is fetched twice: the queued
/// URLs are distinct and seen, the URLs already taken are seen, and no
/// queued URL has been taken.
pub open spec fn crawl_invariant(
    q: Seq<(Seq<char>, usize)>,
    seen: Set<Seq<char>>,
    taken: Set<Seq<char>>,
) -> bool {
    &&& forall|i: int| 0 <= i < q.len() ==> seen.contains(#[trigger] q[i].0)
    &&& forall|i: int, j: int| 0 <= i < j < q.len() ==> #[trigger] q[i].0 != #[trigger] q[j].0
    &&& forall|i: int| 0 <= i < q.len() ==> !taken.contains(#[trigger] q[i].0)
    &&& forall|u: Seq<char>| #[trigger] taken.contains(u) ==> seen.contains(u)
}

/// A site crawl on a fresh crawler starts in that state: the seed is queued
/// and seen, and nothing is taken.
pub proof fn lemma_crawl_start(seed: Seq<char>)
    ensures
        crawl_invariant(seq![(seed, 0usize)], Set::empty().insert(seed), Set::empty()),
{
}

/// Each URL is fetched at most once over a whole site crawl. The target
/// taken (at index `k`, after dropping the entries before it) has not been
/// taken before, and the state stays as `crawl_invariant` says when the
/// target is taken, when entries are dropped without being taken, and when
/// a crawled page's links are enqueued.
pub proof fn lemma_crawl_fetches_once(
    q: Seq<(Seq<char>, usize)>,
    seen: Set<Seq<char>>,
    taken: Set<Seq<char>>,
    k: int,
    links: Seq<Seq<char>>,
    depth: usize,
)
    requires
        crawl_invariant(q, seen, taken),
        depth < usize::MAX,
    ensures
        0 <= k < q.len() ==> !taken.contains(q[k].0) && crawl_invariant(
            q.skip(k + 1),
            seen,
            taken.insert(q[k].0),
        ),
        0 <= k <= q.len() ==> crawl_invariant(q.skip(k), seen, taken),
        ({
            let (q2, s2) = enqueue_links(links, depth, q, seen);
            crawl_invariant(q2, s2, taken)
        }),
{
    if 0 <= k < q.len() {
        let r = q.skip(k + 1);
        let t2 = taken.insert(q[k].0);
        assert forall|i: int| 0 <= i < r.len() implies seen.contains(#[trigger] r[i].0) by {
            assert(r[i] == q[i + k + 1]);
        }
        assert forall|i: int, j: int| 0 <= i < j < r.len() implies #[trigger] r[i].0
            != #[trigger] r[j].0 by {
            assert(r[i] == q[i + k + 1]);
            assert(r[j] == q[j + k + 1]);
        }
        assert forall|i: int| 0 <= i < r.len() implies !t2.contains(#[trigger] r[i].0) by {
            assert(r[i] == q[i + k + 1]);
            assert(q[k].0 != q[i + k + 1].0);
        }
    }
    if 0 <= k <= q.len() {
        let r = q.skip(k);
        assert forall|i: int| 0 <= i < r.len() implies seen.contains(#[trigger] r[i].0)
            && !taken.contains(r[i].0) by {
            assert(r[i] == q[i + k]);
        }
        assert forall|i: int, j: int| 0 <= i < j < r.len() implies #[trigger] r[i].0
            != #[trigger] r[j].0 by {
            assert(r[i] == q[i + k]);
            assert(r[j] == q[j + k]);
        }
    }
    lemma_enqueue_links_fresh(links, depth, q, seen);
    lemma_queue_unique(links, depth, q, seen, 0);
    let (q2, s2) = enqueue_links(links, depth, q, seen);
    assert forall|i: int| 0 <= i < q2.len() implies s2.contains(#[trigger] q2[i].0)
        && !taken.contains(q2[i].0) by {
        if i < q.len() {
            assert(q2[i] == q2.take(q.len() as int)[i]);
            assert(seen.contains(q[i].0));
        } else {
            assert(!seen.contains(q2[i].0));
        }
    }
}

/// Recording a page queues every link that needs crawling: each link that
/// parses ends up seen, and each whose normalized form was not seen before is
/// queued one level deeper, behind what was queued already.
pub proof fn lemma_enqueue_links_complete(
    links: Seq<Seq<char>>,
    depth: usize,
    q: Seq<(Seq<char>, usize)>,
    seen: Set<Seq<char>>,
)
    requires
        depth < usize::MAX,
    ensures
        ({
            let (q2, s2) = enqueue_links(links, depth, q, seen);
            forall|j: int|
                0 <= j < links.len() && #[trigger] url_parse_result(links[j]) is Some ==> {
                    let n = normalized_form(url_parse_result(links[j])->0);
                    &&& s2.contains(n)
                    &&& !seen.contains(n) ==> exists|i: int|
                        q.len() <= i < q2.len() && #[trigger] q2[i] == (n, (depth + 1) as usize)
                }
        }),
    decreases links.len(),
{
    if links.len() > 0 {
        let init = links.drop_last();
        lemma_enqueue_links_complete(init, depth, q, seen);
        lemma_enqueue_links_fresh(init, depth, q, seen);
        lemma_enqueue_links_fresh(links, depth, q, seen);
        let (q1, s1) = enqueue_links(init, depth, q, seen);
        let (q2, s2) = enqueue_links(links, depth, q, seen);
        assert(q2.take(q1.len() as int) == q1 && s1.subset_of(s2)) by {
            match url_parse_result(links.last()) {
                Some(p) => {
                    let n = normalized_form(p);
                    if !s1.contains(n) {
                        assert(q2 == q1.push((n, (depth + 1) as usize)));
                        assert(q2.take(q1.len() as int) =~= q1);
                    } else {
                        assert(q2.take(q1.len() as int) =~= q1);
                    }
                },
                None => {
                    assert(q2.take(q1.len() as int) =~= q1);
                },
            }
        }
        assert forall|j: int|
            0 <= j < links.len() && #[trigger] url_parse_result(links[j]) is Some implies {
            let n = normalized_form(url_parse_result(links[j])->0);
            &&& s2.contains(n)
            &&& !seen.contains(n) ==> exists|i: int|
                q.len() <= i < q2.len() && #[trigger] q2[i] == (n, (depth + 1) as usize)
        } by {
            let n = normalized_form(url_parse_result(links[j])->0);
            if j < init.len() {
                assert(links[j] == init[j]);
                assert(url_parse_result(init[j]) is Some);
                if !seen.contains(n) {
                    let i = choose|i: int|
                        q.len() <= i < q1.len() && #[trigger] q1[i] == (n, (depth + 1) as usize);
                    assert(q2[i] == q2.take(q1.len() as int)[i]);
                }
            } else {
                assert(links[j] == links.last());
                if s1.contains(n) {
                    if !seen.contains(n) {
                        let i = choose|i: int| q.len() <= i < q1.len() && #[trigger] q1[i].0 == n;
                        assert(q1[i].1 == depth + 1);
                        assert(q2[i] == q2.take(q1.len() as int)[i]);
                        assert(q2[i] == (n, (depth + 1) as usize));
                    }
                } else {
                    assert(q2 == q1.push((n, (depth + 1) as usize)));
                    assert(q2[q1.len() as int] == (n, (depth + 1) as usize));
                    assert(q1.len() >= q.len());
                }
            }
        }
    }
}

} // verus!
