//! The decisions around headless Chrome rendering: where to look for the
//! browser, how to pass a proxy, and how a rendered page becomes a crawl
//! result. Launching the browser and driving its tabs are the caller's.
use vstd::prelude::*;

use crate::config::{strings_view, CrawlResult};
use crate::crawler::extractor::{
    extract, links_spec, markdown_spec, page_metadata_matches, selection, title_spec,
};
use crate::text::push_str;
use crate::web_url::{opt_view, url_parse_result};

verus! {

broadcast use vstd::string::group_string_axioms;

/// The places where a Chrome or Chromium binary is looked for, in order
/// (macOS, Linux, Homebrew).
pub open spec fn chrome_locations() -> Seq<Seq<char>> {
    seq![
        "/Applications/Google Chrome.app/Contents/MacOS/Google Chrome"@,
        "/Applications/Chromium.app/Contents/MacOS/Chromium"@,
        "/usr/bin/google-chrome-stable"@,
        "/usr/bin/google-chrome"@,
        "/usr/bin/chromium-browser"@,
        "/usr/bin/chromium"@,
        "/opt/homebrew/bin/chromium"@,
    ]
}

/// The candidate browser paths in the order they are tried: the path in
/// `CHROME_PATH` first, when set, then the usual locations.
pub fn chrome_candidates(chrome_path_env: Option<String>) -> (v: Vec<String>)
    ensures
        strings_view(v@) == match chrome_path_env {
            Some(p) => seq![p@] + chrome_locations(),
            None => chrome_locations(),
        },
{
    let mut v: Vec<String> = Vec::new();
    match chrome_path_env {
        Some(p) => v.push(p),
        None => {},
    }
    let ghost first = strings_view(v@);
    v.push("/Applications/Google Chrome.app/Contents/MacOS/Google Chrome".to_owned());
    v.push("/Applications/Chromium.app/Contents/MacOS/Chromium".to_owned());
    v.push("/usr/bin/google-chrome-stable".to_owned());
    v.push("/usr/bin/google-chrome".to_owned());
    v.push("/usr/bin/chromium-browser".to_owned());
    v.push("/usr/bin/chromium".to_owned());
    v.push("/opt/homebrew/bin/chromium".to_owned());
    assert(strings_view(v@) =~= first + chrome_locations());
    v
}

/// The command-line argument that sends the browser's traffic through a
/// proxy.
pub fn proxy_argument(proxy: &str) -> (arg: String)
    ensures
        arg@ == "--proxy-server="@ + proxy@,
{
    let mut arg = String::new();
    push_str(&mut arg, "--proxy-server=");
    push_str(&mut arg, proxy);
    arg
}

/// The crawl result of a page rendered by the browser: status 200 (the
/// browser does not expose it), content type `text/html`, the title the
/// page's script reports when it is not empty and otherwise the document's,
/// and the content, links and metadata extracted from the rendered HTML.
pub open spec fn rendered_result_matches(
    r: CrawlResult,
    url: Seq<char>,
    html: Seq<char>,
    script_title: Option<String>,
    elapsed_ms: u64,
) -> bool {
    &&& r.url@ == url
    &&& r.status == 200
    &&& r.depth == 0
    &&& r.elapsed_ms == elapsed_ms
    &&& opt_view(r.title) == match script_title {
        Some(t) => if t@.len() > 0 {
            Some(t@)
        } else {
            title_spec(html)
        },
        None => title_spec(html),
    }
    &&& r.content_markdown@ == markdown_spec(html)
    &&& strings_view(r.links@) == links_spec(selection(html, "a[href]"@), url_parse_result(url))
    &&& opt_view(r.metadata.content_type) == Some("text/html"@)
    &&& r.metadata.content_length is None
    &&& page_metadata_matches(r.metadata, html)
}

/// Builds the crawl result of a page rendered by the browser.
pub fn rendered_page_result(
    url: &str,
    html: &str,
    script_title: Option<String>,
    elapsed_ms: u64,
) -> (r: CrawlResult)
    ensures
        rendered_result_matches(r, url@, html@, script_title, elapsed_ms),
{
    let extracted = extract(html, url);
    let title = match script_title {
        Some(t) => if !t.as_str().is_empty() {
            Some(t)
        } else {
            extracted.title
        },
        None => extracted.title,
    };
    let mut meta = extracted.metadata;
    meta.content_type = Some("text/html".to_owned());
    CrawlResult {
        url: url.to_owned(),
        status: 200,
        title,
        content_markdown: extracted.markdown,
        links: extracted.links,
        metadata: meta,
        depth: 0,
        elapsed_ms,
    }
}

} // verus!
