//! Crawl configuration (rate control and anti-bot basics) and the records a
//! crawl produces.
use vstd::prelude::*;

verus! {

broadcast use vstd::string::group_string_axioms;

/// How a crawl behaves. The request timeout is held in whole seconds.
#[derive(Debug, Clone)]
pub struct CrawlConfig {
    pub max_depth: usize,
    pub max_pages: usize,
    pub timeout_secs: u64,
    pub rate_limit_per_second: u32,
    pub user_agents: Vec<String>,
    pub respect_robots_txt: bool,
    pub follow_redirects: bool,
    pub max_redirects: usize,
    /// Proxy URL for every request (e.g. `socks5://127.0.0.1:9050` for Tor).
    pub proxy: Option<String>,
}

/// The three browser User-Agent strings a fetcher rotates through by default.
pub open spec fn default_user_agent_texts() -> Seq<Seq<char>> {
    seq![
        "Mozilla/5.0 (Macintosh; Intel Mac OS X 10_15_7) AppleWebKit/537.36 (KHTML, like Gecko) Chrome/120.0.0.0 Safari/537.36"@,
        "Mozilla/5.0 (Windows NT 10.0; Win64; x64) AppleWebKit/537.36 (KHTML, like Gecko) Chrome/120.0.0.0 Safari/537.36"@,
        "Mozilla/5.0 (X11; Linux x86_64) AppleWebKit/537.36 (KHTML, like Gecko) Chrome/120.0.0.0 Safari/537.36"@,
    ]
}

/// The views of a vector of strings.
pub open spec fn strings_view(v: Seq<String>) -> Seq<Seq<char>> {
    v.map_values(|s: String| s@)
}

/// The default User-Agent strings: Chrome 120 on macOS, Windows and Linux.
pub fn default_user_agents() -> (v: Vec<String>)
    ensures
        strings_view(v@) == default_user_agent_texts(),
{
    let mut v: Vec<String> = Vec::new();
    v.push(
        "Mozilla/5.0 (Macintosh; Intel Mac OS X 10_15_7) AppleWebKit/537.36 (KHTML, like Gecko) Chrome/120.0.0.0 Safari/537.36".to_owned(),
    );
    v.push(
        "Mozilla/5.0 (Windows NT 10.0; Win64; x64) AppleWebKit/537.36 (KHTML, like Gecko) Chrome/120.0.0.0 Safari/537.36".to_owned(),
    );
    v.push(
        "Mozilla/5.0 (X11; Linux x86_64) AppleWebKit/537.36 (KHTML, like Gecko) Chrome/120.0.0.0 Safari/537.36".to_owned(),
    );
    assert(strings_view(v@) =~= default_user_agent_texts());
    v
}

impl Default for CrawlConfig {
    /// Depth 3, at most 100 pages, a 30 second timeout, 2 requests per
    /// second, the default User-Agents, robots.txt respected, at most 5
    /// redirects followed, and no proxy.
    fn default() -> (c: Self)
        ensures
            c.max_depth == 3,
            c.max_pages == 100,
            c.timeout_secs == 30,
            c.rate_limit_per_second == 2,
            strings_view(c.user_agents@) == default_user_agent_texts(),
            c.respect_robots_txt,
            c.follow_redirects,
            c.max_redirects == 5,
            c.proxy is None,
    {
        CrawlConfig {
            max_depth: 3,
            max_pages: 100,
            timeout_secs: 30,
            rate_limit_per_second: 2,
            user_agents: default_user_agents(),
            respect_robots_txt: true,
            follow_redirects: true,
            max_redirects: 5,
            proxy: None,
        }
    }
}

/// The result of crawling one page.
#[derive(Debug, Clone)]
pub struct CrawlResult {
    pub url: String,
    pub status: u16,
    pub title: Option<String>,
    pub content_markdown: String,
    pub links: Vec<String>,
    pub metadata: PageMetadata,
    pub depth: usize,
    pub elapsed_ms: u64,
}

/// What a page says about itself.
#[derive(Debug, Clone)]
pub struct PageMetadata {
    pub content_type: Option<String>,
    pub content_length: Option<u64>,
    pub description: Option<String>,
    pub keywords: Vec<String>,
    pub h1: Vec<String>,
    pub h2: Vec<String>,
}

/// The result of crawling a site.
#[derive(Debug, Clone)]
pub struct SiteCrawlResult {
    pub start_url: String,
    pub pages: Vec<CrawlResult>,
    pub total_pages: usize,
    pub elapsed_ms: u64,
}

} // verus!
