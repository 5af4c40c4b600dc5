# cofoundry_crawl

A web crawler with an MCP (Model Context Protocol) tool server, written as a
Verus-verified library with a thin executable around it.

- `src/` — the verified library:
  - `text` — character-level string utilities (trimming, prefixes, lines,
    ordering) with their specifications;
  - `web_url`, `html` — the `url` and `scraper` crates behind small trusted
    wrappers whose results are named by specification functions;
  - `crawler` — URL normalization and deduplication, the BFS frontier, HTML
    extraction to Markdown, User-Agent rotation, and the decisions of a site
    crawl (which URL next, what a crawled page enqueues);
  - `mcp` — the MCP tools' inputs, outputs and computations, and the routing
    of JSON-RPC requests;
  - `config`, `error` — the configuration, the crawl records and the errors.
- `app/` — the executable: command line, HTTP fetching, headless Chrome,
  the JSON-RPC loop over stdio, and JSON (de)serialization.
- `tests/` — tests of the library.
