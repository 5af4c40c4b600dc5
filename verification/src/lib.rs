//! A web crawler library: URL normalization and deduplication, a BFS
//! frontier, HTML content extraction to Markdown, and the decision logic of
//! the site crawl and of the MCP tool server.
pub mod config;
pub mod crawler;
pub mod error;
pub mod text;
pub mod web_url;
pub mod html;
pub mod mcp;
