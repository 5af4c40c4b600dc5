use cofoundry_crawl::config::CrawlConfig;
use cofoundry_crawl::crawler::dedup::{normalize_url, Dedup};
use cofoundry_crawl::crawler::extractor::extract;
use cofoundry_crawl::crawler::fetcher::{FetchResponse, Fetcher};
use cofoundry_crawl::crawler::frontier::Frontier;

#[test]
fn test_bfs_order() {
    let mut f = Frontier::new();
    f.push("http://a.com".into(), 0);
    f.push("http://b.com".into(), 1);
    f.push("http://c.com".into(), 1);

    assert_eq!(f.len(), 3);
    assert_eq!(f.pop().unwrap().0, "http://a.com");
    assert_eq!(f.pop().unwrap().0, "http://b.com");
    assert_eq!(f.pop().unwrap().0, "http://c.com");
    assert!(f.is_empty());
}

#[test]
fn test_normalize_removes_fragment() {
    let n = normalize_url("https://example.com/page#section").unwrap();
    assert_eq!(n, "https://example.com/page");
}

#[test]
fn test_normalize_sorts_params() {
    let n = normalize_url("https://example.com/search?z=1&a=2").unwrap();
    assert_eq!(n, "https://example.com/search?a=2&z=1");
}

#[test]
fn test_normalize_trailing_slash() {
    let n = normalize_url("https://example.com/").unwrap();
    assert_eq!(n, "https://example.com");
}

#[test]
fn test_dedup_tracks_seen() {
    let mut d = Dedup::new();
    assert!(!d.is_seen("https://example.com"));
    d.mark_seen("https://example.com");
    assert!(d.is_seen("https://example.com"));
    assert_eq!(d.count(), 1);
}

#[test]
fn test_extract_title() {
    let html = "<html><head><title>Test Page</title></head><body></body></html>";
    let result = extract(html, "https://example.com");
    assert_eq!(result.title, Some("Test Page".to_string()));
}

#[test]
fn test_extract_links() {
    let html = r#"<html><body>
        <a href="https://example.com/page1">Page 1</a>
        <a href="/page2">Page 2</a>
        <a href="javascript:void(0)">JS</a>
    </body></html>"#;
    let result = extract(html, "https://example.com");
    assert_eq!(result.links.len(), 2);
    assert!(result.links.contains(&"https://example.com/page1".to_string()));
    assert!(result.links.contains(&"https://example.com/page2".to_string()));
}

#[test]
fn test_extract_metadata() {
    let html = r#"<html><head>
        <meta name="description" content="A test page">
        <meta name="keywords" content="test, page, example">
    </head><body>
        <h1>Main Title</h1>
        <h2>Sub Title</h2>
    </body></html>"#;
    let result = extract(html, "https://example.com");
    assert_eq!(result.metadata.description, Some("A test page".to_string()));
    assert_eq!(result.metadata.keywords, vec!["test", "page", "example"]);
    assert_eq!(result.metadata.h1, vec!["Main Title"]);
    assert_eq!(result.metadata.h2, vec!["Sub Title"]);
}

#[test]
fn test_html_to_markdown() {
    let html = r#"<html><body>
        <h1>Hello</h1>
        <p>This is a paragraph.</p>
        <ul><li>Item 1</li><li>Item 2</li></ul>
    </body></html>"#;
    let result = extract(html, "https://example.com");
    assert!(result.markdown.contains("# Hello"));
    assert!(result.markdown.contains("This is a paragraph."));
    assert!(result.markdown.contains("- Item 1"));
}

#[test]
fn test_ua_rotation() {
    let config = CrawlConfig::default();
    let mut fetcher = Fetcher::new(&config).unwrap();
    let ua1 = fetcher.next_user_agent();
    let ua2 = fetcher.next_user_agent();
    let ua3 = fetcher.next_user_agent();
    assert_ne!(ua1, ua2);
    assert_ne!(ua2, ua3);
    let ua4 = fetcher.next_user_agent();
    assert_eq!(ua1, ua4);
}

#[test]
fn test_fetch_response_is_html() {
    let resp = FetchResponse {
        status: 200,
        body: String::new(),
        content_type: Some("text/html; charset=utf-8".into()),
        content_length: None,
        final_url: "http://example.com".into(),
    };
    assert!(resp.is_html());

    let resp_json = FetchResponse {
        status: 200,
        body: String::new(),
        content_type: Some("application/json".into()),
        content_length: None,
        final_url: "http://example.com/api".into(),
    };
    assert!(!resp_json.is_html());
}
