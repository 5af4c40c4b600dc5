use cofoundry_crawl::config::{CrawlConfig, CrawlResult};
use cofoundry_crawl::crawler::browser::{chrome_candidates, proxy_argument, rendered_page_result};
use cofoundry_crawl::crawler::dedup::{normalize_url, sorted_query, strip_root_slash, Dedup};
use cofoundry_crawl::crawler::extractor::{empty_metadata, extract};
use cofoundry_crawl::crawler::fetcher::FetchResponse;
use cofoundry_crawl::crawler::frontier::Frontier;
use cofoundry_crawl::crawler::{page_result, rate_limit_delay_ms, site_result, Crawler};
use cofoundry_crawl::error::CrawlError;
use cofoundry_crawl::mcp::server::{
    invalid_arguments_message, listed_tools, method_not_found_message, request_text,
    route_request, tool_failed_message, tool_kind, tool_name, tool_reply, unknown_tool_message,
    RequestRoute, ToolKind, ToolReply,
};
use cofoundry_crawl::mcp::tools::{
    crawl_config_for, crawl_input_for_extract, default_concurrent, default_depth,
    default_max_pages, default_timeout, default_wait_ms, find_snippet, login_output,
    needs_browser, screenshot_output, search_pages, summarize_render_batch, CookieInfo,
    CrawlCookie, CrawlUrlInput, ExtractContentInput,
};
use cofoundry_crawl::text::{contains_str, trim_str};

fn page(url: &str, content: &str, links: &[&str]) -> CrawlResult {
    CrawlResult {
        url: url.to_string(),
        status: 200,
        title: Some(format!("title of {url}")),
        content_markdown: content.to_string(),
        links: links.iter().map(|l| l.to_string()).collect(),
        metadata: empty_metadata(),
        depth: 0,
        elapsed_ms: 7,
    }
}

// ---------------------------------------------------------------- normalization

#[test]
fn normalize_lowercases_scheme_and_host() {
    assert_eq!(normalize_url("HTTPS://Example.COM/Path").unwrap(), "https://example.com/Path");
}

#[test]
fn normalize_keeps_non_root_trailing_slash() {
    assert_eq!(normalize_url("https://example.com/docs/").unwrap(), "https://example.com/docs/");
}

#[test]
fn normalize_empty_value_and_sort() {
    assert_eq!(
        normalize_url("https://example.com/s?b&a=1&a=0#top").unwrap(),
        "https://example.com/s?a=0&a=1&b"
    );
}

#[test]
fn normalize_empty_query_is_dropped() {
    assert_eq!(normalize_url("https://example.com/?").unwrap(), "https://example.com");
}

#[test]
fn normalize_root_with_query_keeps_slash() {
    assert_eq!(normalize_url("https://example.com/?q=1").unwrap(), "https://example.com/?q=1");
}

#[test]
fn normalize_rejects_relative_url() {
    assert!(matches!(normalize_url("/relative/path"), Err(CrawlError::InvalidUrl(_))));
}

#[test]
fn sorted_query_joins_in_order() {
    let q = sorted_query(vec![
        ("z".to_string(), "1".to_string()),
        ("a".to_string(), "".to_string()),
        ("a".to_string(), "2".to_string()),
    ]);
    assert_eq!(q, Some("a&a=2&z=1".to_string()));
    assert_eq!(sorted_query(vec![]), None);
}

#[test]
fn strip_root_slash_only_for_bare_host() {
    assert_eq!(strip_root_slash("https://a.com/".to_string(), "/", true), "https://a.com");
    assert_eq!(strip_root_slash("https://a.com/".to_string(), "/", false), "https://a.com/");
    assert_eq!(strip_root_slash("https://a.com/x/".to_string(), "/x/", true), "https://a.com/x/");
}

#[test]
fn dedup_marking_twice_counts_once() {
    let mut d = Dedup::new();
    d.mark_seen("https://a.com");
    d.mark_seen("https://a.com");
    d.mark_seen("https://b.com");
    assert_eq!(d.count(), 2);
    assert!(d.is_seen("https://b.com"));
    assert!(!d.is_seen("https://c.com"));
}

#[test]
fn frontier_pop_empty_is_none() {
    let mut f = Frontier::new();
    assert!(f.pop().is_none());
    f.push("x".to_string(), 4);
    assert_eq!(f.pop(), Some(("x".to_string(), 4)));
    assert!(f.is_empty());
}

// ---------------------------------------------------------------- extraction

#[test]
fn extract_skips_scripts_and_collapses_blank_lines() {
    let html = "<html><body><h2>Top</h2><script>var x = 1;</script>\n\n\n<div>one<br>two</div>\
                <style>p{}</style><h3>Third</h3></body></html>";
    let ex = extract(html, "https://example.com");
    assert_eq!(ex.markdown, "## Top\n\none\ntwo\n\n### Third");
    assert!(!ex.markdown.contains("var x"));
}

#[test]
fn extract_links_need_a_base_for_relative_hrefs() {
    let html = r##"<html><body><a href="/a">a</a><a href="mailto:x@y.z">m</a>
        <a href="#frag">f</a><a href="http://other.org/p">o</a></body></html>"##;
    let ex = extract(html, "not a url");
    assert_eq!(ex.links, vec!["http://other.org/p".to_string()]);
    let ex2 = extract(html, "https://example.com/dir/page");
    assert_eq!(
        ex2.links,
        vec!["https://example.com/a".to_string(), "http://other.org/p".to_string()]
    );
}

#[test]
fn extract_without_title_or_meta() {
    let ex = extract("<p>just text</p>", "https://example.com");
    assert_eq!(ex.title, None);
    assert_eq!(ex.metadata.description, None);
    assert!(ex.metadata.keywords.is_empty());
    assert!(ex.metadata.h1.is_empty());
    assert_eq!(ex.markdown, "just text");
}

#[test]
fn extract_trims_title_and_skips_empty_headings() {
    let html = "<html><head><title>  Spaced \n Title </title></head>\
                <body><h1> </h1><h1>Real</h1></body></html>";
    let ex = extract(html, "https://example.com");
    assert_eq!(ex.title, Some("Spaced \n Title".to_string()));
    assert_eq!(ex.metadata.h1, vec!["Real".to_string()]);
}

#[test]
fn extract_list_items_and_keywords_with_empty_piece() {
    let html = r#"<html><head><meta name="keywords" content="a,,b "></head>
        <body><ul><li>x</li><li>y</li></ul></body></html>"#;
    let ex = extract(html, "https://example.com");
    assert_eq!(ex.metadata.keywords, vec!["a", "", "b"]);
    assert_eq!(ex.markdown, "- x\n- y");
}

// ---------------------------------------------------------------- crawling

#[test]
fn crawler_site_steps() {
    let mut crawler = Crawler::new(CrawlConfig::default()).unwrap();
    let seed = crawler.begin_site("https://example.com/#intro").unwrap();
    assert_eq!(seed, "https://example.com");
    let (url, depth) = crawler.next_target(0).unwrap();
    assert_eq!((url.as_str(), depth), ("https://example.com", 0));
    let p = page(
        "https://example.com",
        "home",
        &["https://example.com/b", "https://example.com/a#x", "https://example.com/a", "::bad::"],
    );
    let recorded = crawler.record_page(p, 0);
    assert_eq!(recorded.depth, 0);
    assert_eq!(crawler.next_target(1), Some(("https://example.com/b".to_string(), 1)));
    assert_eq!(crawler.next_target(2), Some(("https://example.com/a".to_string(), 1)));
    assert_eq!(crawler.next_target(3), None);
}

#[test]
fn crawler_stops_at_max_pages_and_depth() {
    let config = CrawlConfig { max_depth: 0, max_pages: 1, ..CrawlConfig::default() };
    let mut crawler = Crawler::new(config).unwrap();
    crawler.begin_site("https://example.com").unwrap();
    assert!(crawler.next_target(1).is_none());
    crawler.begin_site("https://example.org").unwrap();
    let (url, depth) = crawler.next_target(0).unwrap();
    crawler.record_page(page(&url, "", &["https://example.org/deeper"]), depth);
    // the link is queued one level deeper than the maximum and is dropped
    assert!(crawler.next_target(0).is_none());
}

#[test]
fn crawler_rejects_bad_seed() {
    let mut crawler = Crawler::new(CrawlConfig::default()).unwrap();
    assert!(crawler.begin_site("no scheme here").is_err());
    assert!(crawler.next_target(0).is_none());
}

#[test]
fn page_result_for_html_and_other_content() {
    let html = FetchResponse {
        status: 200,
        body: "<html><head><title>T</title></head><body><p>Body</p></body></html>".into(),
        content_type: Some("text/html".into()),
        content_length: Some(42),
        final_url: "https://example.com".into(),
    };
    let r = page_result("https://example.com", html, 5);
    assert_eq!(r.title, Some("T".to_string()));
    assert_eq!(r.content_markdown, "Body");
    assert_eq!(r.metadata.content_type, Some("text/html".to_string()));
    assert_eq!(r.metadata.content_length, Some(42));
    assert_eq!(r.elapsed_ms, 5);

    let json = FetchResponse {
        status: 201,
        body: "{\"a\":1}".into(),
        content_type: Some("application/json".into()),
        content_length: None,
        final_url: "https://example.com/api".into(),
    };
    let r = page_result("https://example.com/api", json, 1);
    assert_eq!(r.status, 201);
    assert_eq!(r.title, None);
    assert_eq!(r.content_markdown, "{\"a\":1}");
    assert!(r.links.is_empty());
}

#[test]
fn site_result_counts_pages() {
    let pages = vec![page("a", "", &[]), page("b", "", &[])];
    let r = site_result("https://example.com", pages, 99);
    assert_eq!(r.total_pages, 2);
    assert_eq!(r.start_url, "https://example.com");
    assert_eq!(r.elapsed_ms, 99);
}

#[test]
fn rate_limit_delay() {
    assert_eq!(rate_limit_delay_ms(2), 500);
    assert_eq!(rate_limit_delay_ms(3), 333);
}

#[test]
fn default_config_values() {
    let c = CrawlConfig::default();
    assert_eq!((c.max_depth, c.max_pages, c.timeout_secs), (3, 100, 30));
    assert_eq!(c.rate_limit_per_second, 2);
    assert_eq!(c.user_agents.len(), 3);
    assert!(c.user_agents[2].contains("Linux"));
    assert!(c.respect_robots_txt && c.follow_redirects);
    assert_eq!(c.max_redirects, 5);
}

// ---------------------------------------------------------------- browser

#[test]
fn browser_helpers() {
    let v = chrome_candidates(Some("/my/chrome".to_string()));
    assert_eq!(v.len(), 8);
    assert_eq!(v[0], "/my/chrome");
    assert_eq!(v[3], "/usr/bin/google-chrome-stable");
    assert_eq!(chrome_candidates(None).len(), 7);
    assert_eq!(proxy_argument("socks5://127.0.0.1:9050"), "--proxy-server=socks5://127.0.0.1:9050");
}

#[test]
fn rendered_page_prefers_script_title() {
    let html = "<html><head><title>Doc</title></head><body><a href='x'>x</a></body></html>";
    let r = rendered_page_result("https://example.com/", html, Some("Live".into()), 3);
    assert_eq!(r.title, Some("Live".to_string()));
    assert_eq!(r.status, 200);
    assert_eq!(r.links, vec!["https://example.com/x".to_string()]);
    assert_eq!(r.metadata.content_type, Some("text/html".to_string()));
    let r2 = rendered_page_result("https://example.com/", html, Some(String::new()), 3);
    assert_eq!(r2.title, Some("Doc".to_string()));
}

// ---------------------------------------------------------------- tools

#[test]
fn tool_defaults() {
    assert_eq!(default_timeout(), 30);
    assert_eq!(default_wait_ms(), 1500);
    assert_eq!(default_depth(), 2);
    assert_eq!(default_max_pages(), 20);
    assert_eq!(default_concurrent(), 5);
}

#[test]
fn crawl_url_routing() {
    let mut input = CrawlUrlInput {
        url: "https://example.com".into(),
        timeout_secs: 12,
        render: false,
        proxy: None,
        wait_ms: 1500,
        cookies: vec![],
    };
    assert!(!needs_browser(&input));
    assert_eq!(crawl_config_for(&input).timeout_secs, 12);
    input.cookies.push(CrawlCookie { name: "s".into(), value: "1".into(), domain: None, path: None });
    assert!(needs_browser(&input));
    let extract_input = ExtractContentInput {
        url: "https://e.org".into(),
        render: true,
        proxy: Some("p".into()),
        cookies: vec![],
    };
    let c = crawl_input_for_extract(extract_input);
    assert_eq!(c.timeout_secs, 30);
    assert_eq!(c.wait_ms, 1500);
    assert!(c.render);
    assert_eq!(c.proxy, Some("p".to_string()));
}

#[test]
fn screenshot_is_base64() {
    let out = screenshot_output("u".into(), b"hello".to_vec());
    assert_eq!(out.png_base64, "aGVsbG8=");
    assert_eq!(out.size_bytes, 5);
}

#[test]
fn login_output_is_success() {
    let cookie = CookieInfo { name: "n".into(), value: "v".into(), domain: "d".into(), path: "/".into() };
    let out = login_output(vec![cookie], "https://e.org/home".into(), 10);
    assert!(out.success);
    assert_eq!(out.cookies.len(), 1);
    assert_eq!(out.final_url, "https://e.org/home");
}

#[test]
fn render_batch_summary() {
    let results = vec![Ok(page("https://a", "héllo", &[])), Err("boom".to_string())];
    let out = summarize_render_batch(results, 8);
    assert_eq!(out.total, 2);
    assert_eq!(out.success, 1);
    assert_eq!(out.results[0].content_length, 6);
    assert_eq!(out.results[0].url, "https://a");
    assert!(!out.results[1].success);
    assert_eq!(out.results[1].error, Some("boom".to_string()));
    assert_eq!(out.results[1].url, "");
}

#[test]
fn snippet_around_match_and_fallback() {
    assert_eq!(find_snippet("Hello World", "world", 200), "...Hello World...");
    let long = "x".repeat(50) + "NEEDLE" + &"y".repeat(50);
    assert_eq!(find_snippet(&long, "needle", 20), format!("...{}NEEDLE{}...", "x".repeat(10), "y".repeat(10)));
    assert_eq!(find_snippet("abcdef", "zz", 3), "abc");
}

#[test]
fn search_filters_and_counts() {
    let pages = vec![
        page("https://a", "Rust is rusty; RUST", &[]),
        page("https://b", "nothing here", &[]),
        page("https://c", "just rust", &[]),
    ];
    let hits = search_pages(&pages, "rust").unwrap();
    assert_eq!(hits.len(), 2);
    assert_eq!(hits[0].url, "https://a");
    assert_eq!(hits[0].match_count, 3);
    assert_eq!(hits[0].content_len, 19);
    assert_eq!(hits[1].url, "https://c");
    assert_eq!(hits[1].snippet, "...just rust...");
}

// ---------------------------------------------------------------- server

#[test]
fn request_routing() {
    assert_eq!(route_request("initialize"), RequestRoute::Initialize);
    assert_eq!(route_request("tools/list"), RequestRoute::ListTools);
    assert_eq!(route_request("tools/call"), RequestRoute::CallTool);
    assert_eq!(route_request("notifications/initialized"), RequestRoute::Ignore);
    assert_eq!(route_request("notifications/cancelled"), RequestRoute::Ignore);
    assert_eq!(route_request("resources/list"), RequestRoute::MethodNotFound);
    assert_eq!(method_not_found_message("x/y"), "Method not found: x/y");
}

#[test]
fn tool_names_round_trip() {
    for kind in listed_tools() {
        assert_eq!(tool_kind(tool_name(kind)), Some(kind));
    }
    assert_eq!(listed_tools()[0], ToolKind::Login);
    assert_eq!(tool_kind("nope"), None);
}

#[test]
fn tool_reply_kinds() {
    assert_eq!(
        tool_reply(Err(unknown_tool_message("nope"))),
        ToolReply::Error { code: -32602, message: "Unknown tool: nope".into() }
    );
    assert_eq!(
        tool_reply(Err(tool_failed_message(ToolKind::Screenshot, "no chrome"))),
        ToolReply::Content { text: "screenshot failed: no chrome".into(), is_error: true }
    );
    assert_eq!(
        tool_reply(Ok("{}".into())),
        ToolReply::Content { text: "{}".into(), is_error: false }
    );
    assert_eq!(
        invalid_arguments_message(ToolKind::CrawlUrl, "missing field `url`"),
        "Invalid arguments for crawl_url: missing field `url`"
    );
}

#[test]
fn blank_lines_are_skipped() {
    assert_eq!(request_text("   \t "), None);
    assert_eq!(request_text("  {\"a\":1}\n"), Some("{\"a\":1}".to_string()));
}

#[test]
fn text_helpers() {
    assert_eq!(trim_str("\u{3000} a b \u{85}"), "a b");
    assert!(contains_str("text/html; charset=utf-8", "text/html"));
    assert!(!contains_str("text/htm", "text/html"));
}

#[test]
fn markdown_has_no_blank_runs_and_is_trimmed() {
    let html = "<html><body>  <div></div><div> </div><p></p>\n\n<section><h1>A</h1></section>\
                <div><div><div></div></div></div><p>b</p>\n\n\n  </body></html>";
    let ex = extract(html, "https://example.com");
    assert!(!ex.markdown.contains("\n\n\n"));
    assert_eq!(ex.markdown, "# A\n\nb");
    assert!(!ex.markdown.starts_with(char::is_whitespace));
    assert!(!ex.markdown.ends_with(char::is_whitespace));
}

#[test]
fn crawl_order_is_breadth_first() {
    let mut crawler = Crawler::new(CrawlConfig::default()).unwrap();
    crawler.begin_site("https://example.com").unwrap();
    let mut depths = Vec::new();
    let (url, depth) = crawler.next_target(0).unwrap();
    depths.push(depth);
    crawler.record_page(page(&url, "", &["https://example.com/a", "https://example.com/b"]), depth);
    let (url, depth) = crawler.next_target(1).unwrap();
    assert_eq!(url, "https://example.com/a");
    depths.push(depth);
    crawler.record_page(page(&url, "", &["https://example.com/a/deep"]), depth);
    let (url, depth) = crawler.next_target(2).unwrap();
    assert_eq!(url, "https://example.com/b");
    depths.push(depth);
    crawler.record_page(page(&url, "", &[]), depth);
    let (url, depth) = crawler.next_target(3).unwrap();
    assert_eq!(url, "https://example.com/a/deep");
    depths.push(depth);
    assert_eq!(depths, vec![0, 1, 1, 2]);
}

#[test]
fn normalization_ignores_parameter_order_and_fragment() {
    let a = normalize_url("https://example.com/p?b=2&a=1&b=1#one").unwrap();
    let b = normalize_url("https://example.com/p?b=1&a=1&b=2#two").unwrap();
    let c = normalize_url("https://example.com/p?a=1&b=1&b=2").unwrap();
    assert_eq!(a, b);
    assert_eq!(b, c);
    assert_eq!(c, "https://example.com/p?a=1&b=1&b=2");
}

#[test]
fn markdown_renders_links() {
    let html = "<html><body><a href='https://x.com/'>X</a></body></html>";
    assert_eq!(extract(html, "https://example.com").markdown, "[X](https://x.com/)");
    let html = "<html><body><p>See <a href=\"/a\">Page <b>one</b></a> now</p><a>no href</a></body></html>";
    assert_eq!(extract(html, "https://example.com").markdown, "See [Page one](/a) now\nno href");
}

#[test]
fn screenshot_base64_decodes_back() {
    let bytes: Vec<u8> = (0u8..=255).chain([0x89, b'P', b'N', b'G']).collect();
    let out = screenshot_output("u".into(), bytes.clone());
    let decoded = base64::Engine::decode(&base64::engine::general_purpose::STANDARD, &out.png_base64).unwrap();
    assert_eq!(decoded, bytes);
    assert_eq!(out.png_base64.len(), 4 * ((bytes.len() + 2) / 3));
}

#[test]
fn failed_target_changes_nothing() {
    let mut crawler = Crawler::new(CrawlConfig::default()).unwrap();
    crawler.begin_site("https://example.com").unwrap();
    let mut pages = Vec::new();
    let (url, depth) = crawler.next_target(0).unwrap();
    crawler.finish_target(None, depth, &mut pages);
    assert!(pages.is_empty());
    assert!(crawler.next_target(0).is_none());
    crawler.begin_site("https://example.org").unwrap();
    let (url2, depth2) = crawler.next_target(0).unwrap();
    crawler.finish_target(Some(page(&url2, "", &["https://example.org/x", &url])), depth2, &mut pages);
    assert_eq!(pages.len(), 1);
    assert_eq!(crawler.next_target(1), Some(("https://example.org/x".to_string(), 1)));
    assert!(crawler.next_target(2).is_none());
}

#[test]
fn proxy_reaches_the_configuration() {
    let input = CrawlUrlInput {
        url: "https://example.com".into(),
        timeout_secs: 5,
        render: false,
        proxy: Some("socks5://127.0.0.1:9050".into()),
        wait_ms: 1500,
        cookies: vec![],
    };
    let config = crawl_config_for(&input);
    assert_eq!(config.proxy, Some("socks5://127.0.0.1:9050".to_string()));
    assert!(Crawler::new(config).is_ok());
    let bad = CrawlConfig { proxy: Some("not a proxy url".into()), ..CrawlConfig::default() };
    assert!(matches!(Crawler::new(bad), Err(CrawlError::Client(_))));
}

#[test]
fn markdown_lines_are_trimmed() {
    let html = "<html><body><p>  a  <b> b </b>  </p><li> item </li>\r\n<div>\t c \r</div></body></html>";
    let md = extract(html, "https://example.com").markdown;
    assert_eq!(md, "a b\n- item\n\nc");
    for line in md.lines() {
        assert_eq!(line, line.trim());
    }
}
