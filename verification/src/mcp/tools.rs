//! The MCP tools: their inputs and outputs, their defaults, and the parts of
//! each tool that decide and compute (the fetching, rendering and waiting are
//! the caller's).
use vstd::prelude::*;
use vstd::utf8::{decode_utf8, encode_utf8, valid_utf8};

use crate::config::{CrawlConfig, CrawlResult};
use crate::text::{chars_of, contains_seq, find_chars, lowercase_of, push_str, string_of};
use crate::text::{to_lowercase, trim, trim_chars};
use crate::web_url::opt_view;

verus! {

broadcast use vstd::string::group_string_axioms;

/// A cookie to set before navigating (for authenticated crawling).
#[derive(Debug, Clone)]
pub struct CrawlCookie {
    pub name: String,
    pub value: String,
    pub domain: Option<String>,
    pub path: Option<String>,
}

/// Input of `crawl_url`: fetch and extract a single URL.
#[derive(Debug, Clone)]
pub struct CrawlUrlInput {
    pub url: String,
    pub timeout_secs: u64,
    /// Render with headless Chrome (SPA support).
    pub render: bool,
    /// SOCKS5 proxy URL.
    pub proxy: Option<String>,
    /// Milliseconds to wait after page load for JavaScript rendering.
    pub wait_ms: u64,
    /// Cookies to inject before navigation.
    pub cookies: Vec<CrawlCookie>,
}

/// Input of `search_site`: BFS crawl and search for a keyword.
#[derive(Debug, Clone)]
pub struct SearchSiteInput {
    pub url: String,
    pub query: String,
    pub max_depth: usize,
    pub max_pages: usize,
    pub render: bool,
    pub proxy: Option<String>,
}

/// Input of `extract_content`: structured content of a URL.
#[derive(Debug, Clone)]
pub struct ExtractContentInput {
    pub url: String,
    pub render: bool,
    pub proxy: Option<String>,
    pub cookies: Vec<CrawlCookie>,
}

/// Input of `screenshot`: a full-page screenshot.
#[derive(Debug, Clone)]
pub struct ScreenshotInput {
    pub url: String,
    pub proxy: Option<String>,
    pub wait_ms: u64,
    pub cookies: Vec<CrawlCookie>,
}

/// Input of `render_batch`: several URLs rendered in parallel.
#[derive(Debug, Clone)]
pub struct RenderBatchInput {
    pub urls: Vec<String>,
    pub proxy: Option<String>,
    pub wait_ms: u64,
    pub max_concurrent: usize,
    pub cookies: Vec<CrawlCookie>,
}

/// Input of `login`: an API login that returns session tokens.
#[derive(Debug, Clone)]
pub struct LoginInput {
    /// Login page URL (gives the origin) or the API endpoint itself.
    pub url: String,
    pub email: String,
    pub password: String,
    /// Direct API login endpoint (overrides the one derived from `url`).
    pub api_url: Option<String>,
    pub proxy: Option<String>,
    pub wait_ms: u64,
    /// localStorage key under which an SPA keeps its session.
    pub ls_key: Option<String>,
}

/// Output of `login`.
#[derive(Debug, Clone)]
pub struct LoginOutput {
    pub success: bool,
    pub cookies: Vec<CookieInfo>,
    pub final_url: String,
    pub elapsed_ms: u64,
}

/// A session cookie returned by `login`.
#[derive(Debug, Clone)]
pub struct CookieInfo {
    pub name: String,
    pub value: String,
    pub domain: String,
    pub path: String,
}

/// Output of `screenshot`.
#[derive(Debug, Clone)]
pub struct ScreenshotOutput {
    pub url: String,
    pub png_base64: String,
    pub size_bytes: usize,
}

/// Output of `render_batch`.
#[derive(Debug, Clone)]
pub struct RenderBatchOutput {
    pub results: Vec<RenderBatchItem>,
    pub total: usize,
    pub success: usize,
    pub elapsed_ms: u64,
}

/// One page of a `render_batch`.
#[derive(Debug, Clone)]
pub struct RenderBatchItem {
    pub url: String,
    pub success: bool,
    pub title: Option<String>,
    pub content_length: usize,
    pub elapsed_ms: u64,
    pub error: Option<String>,
}

/// A page of a site search that contains the query: what ranking needs.
#[derive(Debug, Clone)]
pub struct SearchHit {
    pub url: String,
    pub title: Option<String>,
    pub snippet: String,
    /// Non-overlapping occurrences of the lower-cased query in the
    /// lower-cased content.
    pub match_count: usize,
    /// Length in bytes of the lower-cased content.
    pub content_len: usize,
}

// ---------------------------------------------------------------------------
// Defaults
// ---------------------------------------------------------------------------

/// Default request timeout of `crawl_url`, in seconds.
pub fn default_timeout() -> (n: u64)
    ensures
        n == 30,
{
    30
}

/// Default wait after page load, in milliseconds.
pub fn default_wait_ms() -> (n: u64)
    ensures
        n == 1500,
{
    1500
}

/// Default crawl depth of `search_site`.
pub fn default_depth() -> (n: usize)
    ensures
        n == 2,
{
    2
}

/// Default page limit of `search_site`.
pub fn default_max_pages() -> (n: usize)
    ensures
        n == 20,
{
    20
}

/// Default number of tabs `render_batch` uses at once.
pub fn default_concurrent() -> (n: usize)
    ensures
        n == 5,
{
    5
}

// ---------------------------------------------------------------------------
// crawl_url and extract_content
// ---------------------------------------------------------------------------

/// `crawl_url` uses the browser when asked to render or when cookies are to
/// be injected; otherwise it uses the plain HTTP crawler.
pub fn needs_browser(input: &CrawlUrlInput) -> (b: bool)
    ensures
        b == (input.render || input.cookies@.len() > 0),
{
    input.render || input.cookies.len() > 0
}

/// The crawl configuration of the HTTP path of `crawl_url`: the defaults
/// with the requested timeout and proxy.
pub fn crawl_config_for(input: &CrawlUrlInput) -> (c: CrawlConfig)
    ensures
        c.max_depth == 3,
        c.max_pages == 100,
        c.timeout_secs == input.timeout_secs,
        c.rate_limit_per_second == 2,
        crate::config::strings_view(c.user_agents@) == crate::config::default_user_agent_texts(),
        c.respect_robots_txt,
        c.follow_redirects,
        c.max_redirects == 5,
        opt_view(c.proxy) == opt_view(input.proxy),
{
    let mut c = CrawlConfig::default();
    c.timeout_secs = input.timeout_secs;
    c.proxy = match &input.proxy {
        Some(p) => Some(p.clone()),
        None => None,
    };
    c
}

/// The crawl configuration of `search_site`: the defaults with the requested
/// depth, page limit and proxy.
pub fn search_config_for(input: &SearchSiteInput) -> (c: CrawlConfig)
    ensures
        c.max_depth == input.max_depth,
        c.max_pages == input.max_pages,
        c.timeout_secs == 30,
        c.rate_limit_per_second == 2,
        crate::config::strings_view(c.user_agents@) == crate::config::default_user_agent_texts(),
        c.respect_robots_txt,
        c.follow_redirects,
        c.max_redirects == 5,
        opt_view(c.proxy) == opt_view(input.proxy),
{
    let mut c = CrawlConfig::default();
    c.max_depth = input.max_depth;
    c.max_pages = input.max_pages;
    c.proxy = match &input.proxy {
        Some(p) => Some(p.clone()),
        None => None,
    };
    c
}

/// `extract_content` is `crawl_url` with a 30 second timeout and the default
/// wait.
pub fn crawl_input_for_extract(input: ExtractContentInput) -> (c: CrawlUrlInput)
    ensures
        c.url == input.url,
        c.timeout_secs == 30,
        c.render == input.render,
        c.proxy == input.proxy,
        c.wait_ms == 1500,
        c.cookies == input.cookies,
{
    CrawlUrlInput {
        url: input.url,
        timeout_secs: 30,
        render: input.render,
        proxy: input.proxy,
        wait_ms: default_wait_ms(),
        cookies: input.cookies,
    }
}

// ---------------------------------------------------------------------------
// screenshot and login
// ---------------------------------------------------------------------------

/// The character of a six-bit value in the standard Base64 alphabet
/// (`A`-`Z`, `a`-`z`, `0`-`9`, `+`, `/`).
pub open spec fn base64_digit(v: int) -> char {
    if v < 26 {
        (65 + v) as char
    } else if v < 52 {
        (97 + v - 26) as char
    } else if v < 62 {
        (48 + v - 52) as char
    } else if v == 62 {
        '+'
    } else {
        '/'
    }
}

/// The standard Base64 encoding (RFC 4648) of a byte string: each group of
/// three bytes becomes four characters of six bits each; a last group of
/// one or two bytes is padded with `=` to four characters.
pub open spec fn base64_standard(b: Seq<u8>) -> Seq<char>
    decreases b.len(),
{
    let x = b[0] as int;
    let y = if b.len() > 1 {
        b[1] as int
    } else {
        0
    };
    let z = if b.len() > 2 {
        b[2] as int
    } else {
        0
    };
    if b.len() == 0 {
        seq![]
    } else if b.len() == 1 {
        seq![base64_digit(x / 4), base64_digit((x % 4) * 16), '=', '=']
    } else if b.len() == 2 {
        seq![base64_digit(x / 4), base64_digit((x % 4) * 16 + y / 16), base64_digit((y % 16) * 4), '=']
    } else {
        seq![
            base64_digit(x / 4),
            base64_digit((x % 4) * 16 + y / 16),
            base64_digit((y % 16) * 4 + z / 64),
            base64_digit(z % 64),
        ] + base64_standard(b.skip(3))
    }
}

/// The six-bit value of a character of the standard Base64 alphabet.
pub open spec fn base64_value(c: char) -> int {
    let u = c as int;
    if 65 <= u <= 90 {
        u - 65
    } else if 97 <= u <= 122 {
        u - 97 + 26
    } else if 48 <= u <= 57 {
        u - 48 + 52
    } else if c == '+' {
        62
    } else {
        63
    }
}

/// Standard Base64 decoding of text made of padded groups of four
/// characters.
pub open spec fn base64_decode(s: Seq<char>) -> Seq<u8>
    decreases s.len(),
{
    if s.len() < 4 {
        seq![]
    } else {
        let v0 = base64_value(s[0]);
        let v1 = base64_value(s[1]);
        let v2 = base64_value(s[2]);
        let v3 = base64_value(s[3]);
        let b0 = (v0 * 4 + v1 / 16) as u8;
        let b1 = ((v1 % 16) * 16 + v2 / 4) as u8;
        let b2 = ((v2 % 4) * 64 + v3) as u8;
        if s[2] == '=' {
            seq![b0]
        } else if s[3] == '=' {
            seq![b0, b1]
        } else {
            seq![b0, b1, b2] + base64_decode(s.skip(4))
        }
    }
}

proof fn lemma_base64_digit_value(v: int)
    requires
        0 <= v < 64,
    ensures
        base64_value(base64_digit(v)) == v,
        base64_digit(v) != '=',
{
}

/// The Base64 text of a screenshot decodes back to the PNG bytes: standard
/// Base64 decoding undoes `base64_standard`.
pub proof fn lemma_base64_round_trip(b: Seq<u8>)
    ensures
        base64_decode(base64_standard(b)) == b,
    decreases b.len(),
{
    if b.len() > 0 {
        let x = b[0] as int;
        let y = if b.len() > 1 {
            b[1] as int
        } else {
            0
        };
        let z = if b.len() > 2 {
            b[2] as int
        } else {
            0
        };
        lemma_base64_digit_value(x / 4);
        lemma_base64_digit_value((x % 4) * 16 + y / 16);
        lemma_base64_digit_value((y % 16) * 4 + z / 64);
        lemma_base64_digit_value(z % 64);
        lemma_base64_digit_value((x % 4) * 16);
        lemma_base64_digit_value((y % 16) * 4);
        assert((x / 4) * 4 + ((x % 4) * 16 + y / 16) / 16 == x);
        assert((((x % 4) * 16 + y / 16) % 16) * 16 + ((y % 16) * 4 + z / 64) / 4 == y);
        assert((((y % 16) * 4 + z / 64) % 4) * 64 + z % 64 == z);
        let e = base64_standard(b);
        if b.len() >= 3 {
            lemma_base64_round_trip(b.skip(3));
            assert(e.skip(4) == base64_standard(b.skip(3)));
            assert(b == seq![b[0], b[1], b[2]] + b.skip(3));
        } else if b.len() == 2 {
            assert(b == seq![b[0], b[1]]);
        } else {
            assert(b == seq![b[0]]);
        }
    }
}

/// `base64::Engine::encode` with the `STANDARD` engine. Claims that the
/// result is the standard padded encoding `base64_standard` of the bytes,
/// four characters for every started group of three bytes. The call panics when that length
/// does not fit in a `usize`, so such inputs are left out.
#[verifier::external_body]
fn encode_base64(bytes: &[u8]) -> (s: String)
    requires
        4 * ((bytes@.len() + 2) / 3) <= usize::MAX,
    ensures
        s@ == base64_standard(bytes@),
        s@.len() == 4 * ((bytes@.len() + 2) / 3),
{
    base64::Engine::encode(&base64::engine::general_purpose::STANDARD, bytes)
}

/// The output of `screenshot` for the PNG bytes taken of `url` (whose
/// Base64 encoding must fit in memory).
pub fn screenshot_output(url: String, png_bytes: Vec<u8>) -> (o: ScreenshotOutput)
    requires
        4 * ((png_bytes@.len() + 2) / 3) <= usize::MAX,
    ensures
        o.url == url,
        o.png_base64@ == base64_standard(png_bytes@),
        o.size_bytes == png_bytes@.len(),
{
    let png_base64 = encode_base64(png_bytes.as_slice());
    ScreenshotOutput { url, size_bytes: png_bytes.len(), png_base64 }
}

/// The output of a successful `login`.
pub fn login_output(cookies: Vec<CookieInfo>, final_url: String, elapsed_ms: u64) -> (o:
    LoginOutput)
    ensures
        o.success,
        o.cookies == cookies,
        o.final_url == final_url,
        o.elapsed_ms == elapsed_ms,
{
    LoginOutput { success: true, cookies, final_url, elapsed_ms }
}

// ---------------------------------------------------------------------------
// render_batch
// ---------------------------------------------------------------------------

/// The summary item of one rendered page: the page's URL, title, content
/// length in bytes and time on success; on failure an empty URL, no title,
/// zero length and time, and the error message.
pub open spec fn batch_item_matches(item: RenderBatchItem, result: Result<CrawlResult, String>) -> bool {
    match result {
        Ok(page) => {
            &&& item.url == page.url
            &&& item.success
            &&& item.title == page.title
            &&& item.content_length == encode_utf8(page.content_markdown@).len() as usize
            &&& item.elapsed_ms == page.elapsed_ms
            &&& item.error is None
        },
        Err(message) => {
            &&& item.url@.len() == 0
            &&& !item.success
            &&& item.title is None
            &&& item.content_length == 0
            &&& item.elapsed_ms == 0
            &&& item.error == Some(message)
        },
    }
}

/// The number of successes among the results.
pub open spec fn count_ok(results: Seq<Result<CrawlResult, String>>) -> nat
    decreases results.len(),
{
    if results.len() == 0 {
        0
    } else {
        count_ok(results.drop_last()) + if results.last() is Ok {
            1nat
        } else {
            0nat
        }
    }
}

/// Whether a rendering succeeded.
pub open spec fn succeeded() -> spec_fn(Result<CrawlResult, String>) -> bool {
    |r: Result<CrawlResult, String>| r is Ok
}

/// The success count is the number of results that are `Ok`: exactly the
/// results kept by filtering for `Ok` (so `n` results that all succeeded
/// count `n`, and failures count nothing).
pub proof fn lemma_count_ok_counts_successes(results: Seq<Result<CrawlResult, String>>)
    ensures
        count_ok(results) == results.filter(succeeded()).len(),
        (forall|i: int| 0 <= i < results.len() ==> #[trigger] results[i] is Ok) ==> count_ok(
            results,
        ) == results.len(),
        (forall|i: int| 0 <= i < results.len() ==> #[trigger] results[i] is Err) ==> count_ok(
            results,
        ) == 0,
    decreases results.len(),
{
    reveal(Seq::filter);
    if results.len() > 0 {
        let init = results.drop_last();
        lemma_count_ok_counts_successes(init);
        if forall|i: int| 0 <= i < results.len() ==> #[trigger] results[i] is Ok {
            assert forall|i: int| 0 <= i < init.len() implies #[trigger] init[i] is Ok by {
                assert(init[i] == results[i]);
            }
            assert(results[results.len() - 1] is Ok);
        }
        if forall|i: int| 0 <= i < results.len() ==> #[trigger] results[i] is Err {
            assert forall|i: int| 0 <= i < init.len() implies #[trigger] init[i] is Err by {
                assert(init[i] == results[i]);
            }
            assert(results[results.len() - 1] is Err);
        }
    }
}

/// Summarizes the pages of a `render_batch`, in order: one item per page,
/// the number of pages and the number rendered successfully.
pub fn summarize_render_batch(results: Vec<Result<CrawlResult, String>>, elapsed_ms: u64) -> (o:
    RenderBatchOutput)
    ensures
        o.results@.len() == results@.len(),
        forall|i: int|
            0 <= i < results@.len() ==> batch_item_matches(#[trigger] o.results@[i], results@[i]),
        o.total == results@.len(),
        o.success == count_ok(results@),
        o.success == results@.filter(succeeded()).len(),
        o.elapsed_ms == elapsed_ms,
{
    let ghost input = results@;
    let mut items: Vec<RenderBatchItem> = Vec::new();
    let mut success_count: usize = 0;
    let n = results.len();
    for result in it: results
        invariant
            n == input.len(),
            it.seq() == input,
            items@.len() == it.index(),
            success_count == count_ok(input.take(it.index() as int)),
            success_count <= it.index(),
            forall|i: int| 0 <= i < items@.len() ==> batch_item_matches(#[trigger] items@[i], input[i]),
    {
        let ghost idx = it.index();
        assert(input.take(idx + 1).drop_last() == input.take(idx as int));
        assert(input.take(idx + 1).last() == input[idx as int]);
        assert(result == input[idx as int]);
        let ghost before = items@;
        match result {
            Ok(page) => {
                success_count += 1;
                let content_length = page.content_markdown.as_str().len();
                items.push(
                    RenderBatchItem {
                        url: page.url,
                        success: true,
                        title: page.title,
                        content_length,
                        elapsed_ms: page.elapsed_ms,
                        error: None,
                    },
                );
                assert(batch_item_matches(items@[idx as int], input[idx as int]));
            },
            Err(message) => {
                items.push(
                    RenderBatchItem {
                        url: String::new(),
                        success: false,
                        title: None,
                        content_length: 0,
                        elapsed_ms: 0,
                        error: Some(message),
                    },
                );
                assert(batch_item_matches(items@[idx as int], input[idx as int]));
            },
        }
        assert(forall|i: int| 0 <= i < idx ==> items@[i] == before[i]);
    }
    assert(input.take(input.len() as int) == input);
    proof {
        lemma_count_ok_counts_successes(input);
    }
    RenderBatchOutput { total: items.len(), success: success_count, results: items, elapsed_ms }
}

// ---------------------------------------------------------------------------
// search_site
// ---------------------------------------------------------------------------

/// The first index at or after `i` at which `needle` occurs in `hay`.
pub open spec fn find_bytes_from(hay: Seq<u8>, needle: Seq<u8>, i: int) -> Option<int>
    decreases hay.len() + 1 - i,
{
    if i < 0 || i + needle.len() > hay.len() {
        None
    } else if hay.subrange(i, i + needle.len()) == needle {
        Some(i)
    } else {
        find_bytes_from(hay, needle, i + 1)
    }
}

/// The first byte index at which `needle` occurs in `hay`.
fn find_bytes(hay: &[u8], needle: &[u8]) -> (r: Option<usize>)
    ensures
        opt_index(r) == find_bytes_from(hay@, needle@, 0),
{
    let hl = hay.len();
    let nl = needle.len();
    if nl > hl {
        return None;
    }
    let mut i: usize = 0;
    while i <= hl - nl
        invariant
            hl == hay@.len(),
            nl == needle@.len(),
            nl <= hl,
            i <= hl - nl + 1,
            find_bytes_from(hay@, needle@, 0) == find_bytes_from(hay@, needle@, i as int),
        decreases hl - nl + 1 - i,
    {
        let mut k: usize = 0;
        let mut same = true;
        while k < nl
            invariant
                hl == hay@.len(),
                nl == needle@.len(),
                i + nl <= hl,
                k <= nl,
                same == (forall|m: int| 0 <= m < k ==> hay@[i + m] == needle@[m]),
            decreases nl - k,
        {
            if hay[i + k] != needle[k] {
                same = false;
            }
            k += 1;
        }
        if same {
            assert(hay@.subrange(i as int, i + nl) == needle@);
            return Some(i);
        } else {
            proof {
                let m = choose|m: int| 0 <= m < nl && hay@[i + m] != needle@[m];
                assert(hay@.subrange(i as int, i + nl)[m] != needle@[m]);
            }
        }
        if i == hl - nl {
            assert(find_bytes_from(hay@, needle@, i + 1) is None);
            return None;
        }
        i += 1;
    }
    None
}

/// An optional index as an integer.
pub open spec fn opt_index(o: Option<usize>) -> Option<int> {
    match o {
        Some(i) => Some(i as int),
        None => None,
    }
}

/// Where a snippet is cut from a page, in bytes of the content: around the
/// first occurrence of the lower-cased query in the lower-cased content,
/// `max_len / 2` bytes before it and, after it, the query's byte length plus
/// `max_len / 2` (bounded by the content). `None` when there is no
/// occurrence.
pub open spec fn snippet_window(content: Seq<char>, query: Seq<char>, max_len: usize) -> Option<
    (int, int),
> {
    let hay = encode_utf8(lowercase_of(content));
    let needle = encode_utf8(lowercase_of(query));
    match find_bytes_from(hay, needle, 0) {
        Some(pos) => {
            let half = max_len as int / 2;
            let start = if pos >= half {
                pos - half
            } else {
                0
            };
            let end_raw = pos + encode_utf8(query).len() + half;
            let clen = encode_utf8(content).len() as int;
            Some((start, if end_raw < clen {
                end_raw
            } else {
                clen
            }))
        },
        None => None,
    }
}

/// The window can be cut: its arithmetic stays within `usize` and it is a
/// range of the content that starts and ends on character boundaries (a
/// range of valid UTF-8 is valid UTF-8 exactly then). Where this fails,
/// cutting the content would panic.
pub open spec fn snippet_in_bounds(content: Seq<char>, query: Seq<char>, max_len: usize) -> bool {
    let hay = encode_utf8(lowercase_of(content));
    let needle = encode_utf8(lowercase_of(query));
    match find_bytes_from(hay, needle, 0) {
        Some(pos) => {
            let (start, end) = snippet_window(content, query, max_len)->0;
            &&& pos + encode_utf8(query).len() + max_len as int / 2 <= usize::MAX
            &&& start <= end
            &&& valid_utf8(encode_utf8(content).subrange(start, end))
        },
        None => true,
    }
}

/// The snippet of a page for a query: the window around the first
/// occurrence, trimmed, between `...` marks; without an occurrence, the
/// first `max_len` characters of the content.
pub open spec fn snippet_spec(content: Seq<char>, query: Seq<char>, max_len: usize) -> Seq<char> {
    match snippet_window(content, query, max_len) {
        Some((start, end)) => "..."@ + trim(decode_utf8(encode_utf8(content).subrange(start, end)))
            + "..."@,
        None => content.take(if max_len < content.len() {
            max_len as int
        } else {
            content.len() as int
        }),
    }
}

/// `std::str::from_utf8`, copied into a `String`. Claims that it succeeds
/// exactly on valid UTF-8 and then decodes the bytes.
#[verifier::external_body]
fn string_from_utf8(bytes: &[u8]) -> (r: Option<String>)
    ensures
        r is Some <==> valid_utf8(bytes@),
        r matches Some(s) ==> s@ == decode_utf8(bytes@),
{
    std::str::from_utf8(bytes).ok().map(|s| s.to_string())
}

/// A snippet of `content` around the first case-insensitive occurrence of
/// `query`, or its first `max_len` characters when there is none.
pub fn find_snippet(content: &str, query: &str, max_len: usize) -> (s: String)
    requires
        snippet_in_bounds(content@, query@, max_len),
    ensures
        s@ == snippet_spec(content@, query@, max_len),
{
    let lower = to_lowercase(content);
    let query_lower = to_lowercase(query);
    match find_bytes(lower.as_str().as_bytes(), query_lower.as_str().as_bytes()) {
        Some(pos) => {
            let half = max_len / 2;
            let start = pos.saturating_sub(half);
            let qlen = query.as_bytes().len();
            let cb = content.as_bytes();
            let end_raw = pos + qlen + half;
            let end = if end_raw < cb.len() {
                end_raw
            } else {
                cb.len()
            };
            let mut piece: Vec<u8> = Vec::new();
            let mut i = start;
            while i < end
                invariant
                    start <= i <= end <= cb@.len(),
                    piece@ == cb@.subrange(start as int, i as int),
                decreases end - i,
            {
                piece.push(cb[i]);
                i += 1;
                assert(piece@ == cb@.subrange(start as int, i as int));
            }
            let text = string_from_utf8(piece.as_slice()).unwrap();
            let c = chars_of(text.as_str());
            let t = trim_chars(c.as_slice());
            let mut out = String::new();
            push_str(&mut out, "...");
            push_str(&mut out, string_of(t.as_slice()).as_str());
            push_str(&mut out, "...");
            out
        },
        None => {
            let c = chars_of(content);
            let n = if max_len < c.len() {
                max_len
            } else {
                c.len()
            };
            let mut out = String::new();
            let mut i: usize = 0;
            while i < n
                invariant
                    n <= c@.len(),
                    i <= n,
                    out@ == c@.take(i as int),
                decreases n - i,
            {
                crate::text::push_char(&mut out, c[i]);
                i += 1;
                assert(out@ == c@.take(i as int));
            }
            out
        },
    }
}

/// The number of non-overlapping occurrences of `needle` in `hay`, left to
/// right (as `str::matches` counts them); an empty needle occurs at every
/// character boundary.
pub open spec fn count_matches(hay: Seq<char>, needle: Seq<char>) -> nat
    decreases hay.len(),
{
    if needle.len() == 0 {
        hay.len() + 1
    } else if hay.len() < needle.len() {
        0
    } else if hay.take(needle.len() as int) == needle {
        1 + count_matches(hay.skip(needle.len() as int), needle)
    } else {
        count_matches(hay.drop_first(), needle)
    }
}

/// The number of non-overlapping occurrences of `needle` in `hay`.
fn count_matches_exec(hay: &[char], needle: &[char]) -> (n: usize)
    requires
        hay@.len() < usize::MAX,
    ensures
        n == count_matches(hay@, needle@),
{
    if needle.len() == 0 {
        return hay.len() + 1;
    }
    let mut count: usize = 0;
    let mut i: usize = 0;
    assert(hay@.skip(0) == hay@);
    while i < hay.len()
        invariant
            0 < needle@.len(),
            i <= hay@.len(),
            count <= i,
            count_matches(hay@, needle@) == count + count_matches(hay@.skip(i as int), needle@),
        decreases hay@.len() - i,
    {
        let ghost rest = hay@.skip(i as int);
        if crate::text::occurs_at_chars(hay, needle, i) {
            assert(rest.take(needle@.len() as int) == hay@.subrange(i as int, i + needle@.len()));
            assert(rest.skip(needle@.len() as int) == hay@.skip(i + needle@.len()));
            count += 1;
            i += needle.len();
        } else {
            if hay.len() - i >= needle.len() {
                assert(rest.take(needle@.len() as int) == hay@.subrange(i as int, i + needle@.len()));
            } else {
                assert(count_matches(rest, needle@) == 0);
                return count;
            }
            assert(rest.drop_first() == hay@.skip(i + 1));
            i += 1;
        }
    }
    assert(hay@.skip(i as int).len() == 0);
    count
}

/// A matching page can be searched without overflow or panic: its snippet
/// window can be cut, and its lower-cased content is shorter than the
/// largest `usize` (an empty query matches once more than it has
/// characters).
pub open spec fn page_searchable(page: CrawlResult, query: Seq<char>) -> bool {
    &&& snippet_in_bounds(page.content_markdown@, query, 200)
    &&& lowercase_of(page.content_markdown@).len() < usize::MAX
}

/// The page's content, lower-cased, contains the lower-cased query.
pub open spec fn page_matches_query(page: CrawlResult, query: Seq<char>) -> bool {
    contains_seq(lowercase_of(page.content_markdown@), lowercase_of(query))
}

/// The pages whose content contains the query (ignoring case), in order.
pub open spec fn matching_pages(pages: Seq<CrawlResult>, query: Seq<char>) -> Seq<CrawlResult>
    decreases pages.len(),
{
    if pages.len() == 0 {
        seq![]
    } else {
        let prev = matching_pages(pages.drop_last(), query);
        if page_matches_query(pages.last(), query) {
            prev.push(pages.last())
        } else {
            prev
        }
    }
}

/// Whether a page's content contains the query, ignoring case (both
/// lower-cased).
pub open spec fn contains_query(query: Seq<char>) -> spec_fn(CrawlResult) -> bool {
    |page: CrawlResult| contains_seq(lowercase_of(page.content_markdown@), lowercase_of(query))
}

/// The search finds exactly the pages whose content contains the query
/// ignoring case, in crawl order; so queries that lower-case alike find the
/// same pages, and a page whose content lower-cases like another's is found
/// exactly when that one is.
pub proof fn lemma_search_ignores_case(pages: Seq<CrawlResult>, query: Seq<char>, other: Seq<char>)
    ensures
        matching_pages(pages, query) == pages.filter(contains_query(query)),
        lowercase_of(query) == lowercase_of(other) ==> matching_pages(pages, query)
            == matching_pages(pages, other),
    decreases pages.len(),
{
    reveal(Seq::filter);
    if pages.len() > 0 {
        lemma_search_ignores_case(pages.drop_last(), query, other);
    }
    if lowercase_of(query) == lowercase_of(other) {
        assert(contains_query(query) == contains_query(other));
    }
}

/// The matching pages of a prefix of the pages are a prefix of the matching
/// pages.
proof fn lemma_matching_prefix(pages: Seq<CrawlResult>, query: Seq<char>, k: int)
    requires
        0 <= k <= pages.len(),
    ensures
        matching_pages(pages.take(k), query).len() <= matching_pages(pages, query).len(),
        forall|j: int|
            0 <= j < matching_pages(pages.take(k), query).len() ==> #[trigger] matching_pages(
                pages.take(k),
                query,
            )[j] == matching_pages(pages, query)[j],
    decreases pages.len(),
{
    if k == pages.len() {
        assert(pages.take(k) == pages);
    } else {
        assert(pages.take(k) == pages.drop_last().take(k));
        lemma_matching_prefix(pages.drop_last(), query, k);
    }
}

/// A search hit for a matching page: its URL and title, a snippet of up to
/// 200 bytes around the query, the number of occurrences and the content
/// length.
pub open spec fn hit_matches(hit: SearchHit, page: CrawlResult, query: Seq<char>) -> bool {
    let lower = lowercase_of(page.content_markdown@);
    &&& hit.url == page.url
    &&& hit.title == page.title
    &&& hit.snippet@ == snippet_spec(page.content_markdown@, query, 200)
    &&& hit.match_count == count_matches(lower, lowercase_of(query))
    &&& hit.content_len == encode_utf8(lower).len() as usize
}

/// The search part of `search_site`: the pages that contain the query
/// (ignoring case), in crawl order, each with its snippet and the numbers
/// that rank it. `None` when a snippet of a matching page cannot be cut
/// (see `snippet_in_bounds`).
pub fn search_pages(pages: &Vec<CrawlResult>, query: &str) -> (r: Option<Vec<SearchHit>>)
    ensures
        r is Some <==> forall|i: int|
            0 <= i < matching_pages(pages@, query@).len() ==> page_searchable(
                #[trigger] matching_pages(pages@, query@)[i],
                query@,
            ),
        r matches Some(hits) ==> hits@.len() == matching_pages(pages@, query@).len() && forall|
            i: int,
        |
            0 <= i < hits@.len() ==> hit_matches(
                #[trigger] hits@[i],
                matching_pages(pages@, query@)[i],
                query@,
            ),
{
    let query_lower = to_lowercase(query);
    let ql = chars_of(query_lower.as_str());
    let mut hits: Vec<SearchHit> = Vec::new();
    let mut i: usize = 0;
    while i < pages.len()
        invariant
            i <= pages@.len(),
            query_lower@ == lowercase_of(query@),
            ql@ == query_lower@,
            hits@.len() == matching_pages(pages@.take(i as int), query@).len(),
            forall|j: int|
                0 <= j < hits@.len() ==> hit_matches(
                    #[trigger] hits@[j],
                    matching_pages(pages@.take(i as int), query@)[j],
                    query@,
                ),
            forall|j: int|
                0 <= j < hits@.len() ==> page_searchable(
                    #[trigger] matching_pages(pages@.take(i as int), query@)[j],
                    query@,
                ),
        decreases pages@.len() - i,
    {
        let ghost prev = matching_pages(pages@.take(i as int), query@);
        assert(pages@.take(i + 1).drop_last() == pages@.take(i as int));
        assert(pages@.take(i + 1).last() == pages@[i as int]);
        let page = &pages[i];
        let content_lower = to_lowercase(page.content_markdown.as_str());
        let cl = chars_of(content_lower.as_str());
        if find_chars(cl.as_slice(), ql.as_slice()).is_some() {
            let lb = content_lower.as_str().as_bytes();
            let qb = query_lower.as_str().as_bytes();
            // decide whether the snippet window can be cut
            let ok = match find_bytes(lb, qb) {
                Some(pos) => {
                    let half: usize = 100;
                    let qlen = query.as_bytes().len();
                    let cb = page.content_markdown.as_str().as_bytes();
                    if pos > usize::MAX - qlen || pos + qlen > usize::MAX - half {
                        false
                    } else {
                        let start = pos.saturating_sub(half);
                        let end_raw = pos + qlen + half;
                        let end = if end_raw < cb.len() {
                            end_raw
                        } else {
                            cb.len()
                        };
                        if start > end {
                            false
                        } else {
                            let mut piece: Vec<u8> = Vec::new();
                            let mut k = start;
                            while k < end
                                invariant
                                    start <= k <= end <= cb@.len(),
                                    piece@ == cb@.subrange(start as int, k as int),
                                decreases end - k,
                            {
                                piece.push(cb[k]);
                                k += 1;
                                assert(piece@ == cb@.subrange(start as int, k as int));
                            }
                            string_from_utf8(piece.as_slice()).is_some()
                        }
                    }
                },
                None => true,
            };
            let ok = ok && cl.len() < usize::MAX;
            if !ok {
                assert(!page_searchable(*page, query@));
                assert(matching_pages(pages@.take(i + 1), query@) == prev.push(*page));
                assert(matching_pages(pages@.take(i + 1), query@)[prev.len() as int] == *page);
                proof {
                    lemma_matching_prefix(pages@, query@, i + 1);
                    assert(!page_searchable(matching_pages(pages@, query@)[prev.len() as int], query@));
                }
                return None;
            }
            let snippet = find_snippet(page.content_markdown.as_str(), query, 200);
            let content_len = content_lower.as_str().as_bytes().len();
            assert(content_len == encode_utf8(content_lower@).len());
            let match_count = count_matches_exec(cl.as_slice(), ql.as_slice());
            hits.push(
                SearchHit {
                    url: page.url.clone(),
                    title: page.title.clone(),
                    snippet,
                    match_count,
                    content_len,
                },
            );
        }
        i += 1;
    }
    assert(pages@.take(pages@.len() as int) == pages@);
    Some(hits)
}

} // verus!
