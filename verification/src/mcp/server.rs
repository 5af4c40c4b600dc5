//! The decisions of the MCP server (JSON-RPC 2.0 over newline-delimited
//! JSON): which lines are requests, how a method is answered, which tool a
//! call names, and how a tool's outcome is reported. Reading, writing and
//! (de)serializing JSON are the caller's.
use vstd::prelude::*;

use crate::text::{has_prefix, push_str, starts_with_str, trim, trim_str};

verus! {

broadcast use vstd::string::group_string_axioms;

/// JSON-RPC error code of a line that is not valid JSON.
pub const PARSE_ERROR: i32 = -32700;

/// JSON-RPC error code of an unknown method.
pub const METHOD_NOT_FOUND: i32 = -32601;

/// JSON-RPC error code of invalid parameters (an unknown tool).
pub const INVALID_PARAMS: i32 = -32602;

/// How a request is answered.
#[derive(Debug, Clone, Copy, PartialEq, Eq)]
pub enum RequestRoute {
    /// `initialize`: the protocol version, capabilities and server info.
    Initialize,
    /// `tools/list`: the tool schemas.
    ListTools,
    /// `tools/call`: run the named tool.
    CallTool,
    /// A notification: no answer.
    Ignore,
    /// Anything else: a "method not found" error.
    MethodNotFound,
}

/// The tools the server offers.
#[derive(Debug, Clone, Copy, PartialEq, Eq)]
pub enum ToolKind {
    CrawlUrl,
    ExtractContent,
    SearchSite,
    Screenshot,
    RenderBatch,
    Login,
}

/// How a method is answered: `initialize`, `tools/list` and `tools/call`
/// are served; `notifications/initialized` and every other method under
/// `notifications/` get no answer; the rest are unknown.
pub open spec fn route_spec(method: Seq<char>) -> RequestRoute {
    if method == "initialize"@ {
        RequestRoute::Initialize
    } else if method == "notifications/initialized"@ {
        RequestRoute::Ignore
    } else if method == "tools/list"@ {
        RequestRoute::ListTools
    } else if method == "tools/call"@ {
        RequestRoute::CallTool
    } else if has_prefix(method, "notifications/"@) {
        RequestRoute::Ignore
    } else {
        RequestRoute::MethodNotFound
    }
}

/// How the request with method `method` is answered.
pub fn route_request(method: &str) -> (r: RequestRoute)
    ensures
        r == route_spec(method@),
{
    if crate::text::same_text(method, "initialize") {
        RequestRoute::Initialize
    } else if crate::text::same_text(method, "notifications/initialized") {
        RequestRoute::Ignore
    } else if crate::text::same_text(method, "tools/list") {
        RequestRoute::ListTools
    } else if crate::text::same_text(method, "tools/call") {
        RequestRoute::CallTool
    } else if starts_with_str(method, "notifications/") {
        RequestRoute::Ignore
    } else {
        RequestRoute::MethodNotFound
    }
}

/// The name under which a tool is called.
pub open spec fn tool_name_spec(kind: ToolKind) -> Seq<char> {
    match kind {
        ToolKind::CrawlUrl => "crawl_url"@,
        ToolKind::ExtractContent => "extract_content"@,
        ToolKind::SearchSite => "search_site"@,
        ToolKind::Screenshot => "screenshot"@,
        ToolKind::RenderBatch => "render_batch"@,
        ToolKind::Login => "login"@,
    }
}

/// The name under which a tool is called.
pub fn tool_name(kind: ToolKind) -> (s: &'static str)
    ensures
        s@ == tool_name_spec(kind),
{
    match kind {
        ToolKind::CrawlUrl => "crawl_url",
        ToolKind::ExtractContent => "extract_content",
        ToolKind::SearchSite => "search_site",
        ToolKind::Screenshot => "screenshot",
        ToolKind::RenderBatch => "render_batch",
        ToolKind::Login => "login",
    }
}

/// The tool a call names, if any.
pub open spec fn tool_kind_spec(name: Seq<char>) -> Option<ToolKind> {
    if name == "crawl_url"@ {
        Some(ToolKind::CrawlUrl)
    } else if name == "extract_content"@ {
        Some(ToolKind::ExtractContent)
    } else if name == "search_site"@ {
        Some(ToolKind::SearchSite)
    } else if name == "screenshot"@ {
        Some(ToolKind::Screenshot)
    } else if name == "render_batch"@ {
        Some(ToolKind::RenderBatch)
    } else if name == "login"@ {
        Some(ToolKind::Login)
    } else {
        None
    }
}

/// The tool a call names, if any.
pub fn tool_kind(name: &str) -> (k: Option<ToolKind>)
    ensures
        k == tool_kind_spec(name@),
{
    if crate::text::same_text(name, "crawl_url") {
        Some(ToolKind::CrawlUrl)
    } else if crate::text::same_text(name, "extract_content") {
        Some(ToolKind::ExtractContent)
    } else if crate::text::same_text(name, "search_site") {
        Some(ToolKind::SearchSite)
    } else if crate::text::same_text(name, "screenshot") {
        Some(ToolKind::Screenshot)
    } else if crate::text::same_text(name, "render_batch") {
        Some(ToolKind::RenderBatch)
    } else if crate::text::same_text(name, "login") {
        Some(ToolKind::Login)
    } else {
        None
    }
}

/// Each tool is found again under its name.
pub proof fn lemma_tool_names_round_trip(kind: ToolKind)
    ensures
        tool_kind_spec(tool_name_spec(kind)) == Some(kind),
{
    reveal_strlit("crawl_url");
    reveal_strlit("extract_content");
    reveal_strlit("search_site");
    reveal_strlit("screenshot");
    reveal_strlit("render_batch");
    reveal_strlit("login");
    // the six names have six different lengths
    assert("crawl_url"@.len() == 9 && "extract_content"@.len() == 15 && "search_site"@.len() == 11
        && "screenshot"@.len() == 10 && "render_batch"@.len() == 12 && "login"@.len() == 5);
}

/// The tools in the order `tools/list` lists them.
pub open spec fn listed_tools_spec() -> Seq<ToolKind> {
    seq![
        ToolKind::Login,
        ToolKind::CrawlUrl,
        ToolKind::ExtractContent,
        ToolKind::SearchSite,
        ToolKind::Screenshot,
        ToolKind::RenderBatch,
    ]
}

/// The tools in the order `tools/list` lists them.
pub fn listed_tools() -> (v: Vec<ToolKind>)
    ensures
        v@ == listed_tools_spec(),
{
    let v = vec![
        ToolKind::Login,
        ToolKind::CrawlUrl,
        ToolKind::ExtractContent,
        ToolKind::SearchSite,
        ToolKind::Screenshot,
        ToolKind::RenderBatch,
    ];
    assert(v@ =~= listed_tools_spec());
    v
}

/// The request text of an input line: the line trimmed; `None` for a blank
/// line, which is skipped.
pub fn request_text(line: &str) -> (r: Option<String>)
    ensures
        trim(line@).len() == 0 ==> r is None,
        trim(line@).len() > 0 ==> (r matches Some(t) && t@ == trim(line@)),
{
    let t = trim_str(line);
    if t.as_str().is_empty() {
        None
    } else {
        Some(t)
    }
}

/// `prefix` followed by `detail`.
fn message(prefix: &str, detail: &str) -> (s: String)
    ensures
        s@ == prefix@ + detail@,
{
    let mut s = String::new();
    push_str(&mut s, prefix);
    push_str(&mut s, detail);
    s
}

/// The error message of an unknown method.
pub fn method_not_found_message(method: &str) -> (s: String)
    ensures
        s@ == "Method not found: "@ + method@,
{
    message("Method not found: ", method)
}

/// The error message of a line that is not a JSON-RPC request.
pub fn parse_error_message(detail: &str) -> (s: String)
    ensures
        s@ == "Parse error: "@ + detail@,
{
    message("Parse error: ", detail)
}

/// The error message of a call to an unknown tool.
pub fn unknown_tool_message(name: &str) -> (s: String)
    ensures
        s@ == "Unknown tool: "@ + name@,
{
    message("Unknown tool: ", name)
}

/// The error message of arguments that do not fit a tool.
pub fn invalid_arguments_message(kind: ToolKind, detail: &str) -> (s: String)
    ensures
        s@ == "Invalid arguments for "@ + tool_name_spec(kind) + ": "@ + detail@,
{
    let mut s = String::new();
    push_str(&mut s, "Invalid arguments for ");
    push_str(&mut s, tool_name(kind));
    push_str(&mut s, ": ");
    push_str(&mut s, detail);
    s
}

/// The error message of a tool that failed.
pub fn tool_failed_message(kind: ToolKind, detail: &str) -> (s: String)
    ensures
        s@ == tool_name_spec(kind) + " failed: "@ + detail@,
{
    let mut s = String::new();
    push_str(&mut s, tool_name(kind));
    push_str(&mut s, " failed: ");
    push_str(&mut s, detail);
    s
}

/// The error message of a result that could not be serialized.
pub fn serialization_error_message(detail: &str) -> (s: String)
    ensures
        s@ == "Serialization error: "@ + detail@,
{
    message("Serialization error: ", detail)
}

/// How a tool call is reported.
#[derive(Debug, Clone, PartialEq, Eq)]
pub enum ToolReply {
    /// A JSON-RPC error.
    Error { code: i32, message: String },
    /// A successful JSON-RPC response carrying one text content item, marked
    /// as an error or not.
    Content { text: String, is_error: bool },
}

/// The report of a tool call: the result's text on success; a JSON-RPC
/// "invalid params" error for an unknown tool; any other failure as error
/// content.
pub open spec fn tool_reply_spec(outcome: Result<String, String>) -> ToolReply {
    match outcome {
        Ok(text) => ToolReply::Content { text, is_error: false },
        Err(message) => if has_prefix(message@, "Unknown tool:"@) {
            ToolReply::Error { code: -32602i32, message }
        } else {
            ToolReply::Content { text: message, is_error: true }
        },
    }
}

/// The report of a tool call, from the text of its result or its error
/// message.
pub fn tool_reply(outcome: Result<String, String>) -> (r: ToolReply)
    ensures
        r == tool_reply_spec(outcome),
{
    match outcome {
        Ok(text) => ToolReply::Content { text, is_error: false },
        Err(message) => {
            if starts_with_str(message.as_str(), "Unknown tool:") {
                ToolReply::Error { code: INVALID_PARAMS, message }
            } else {
                ToolReply::Content { text: message, is_error: true }
            }
        },
    }
}

} // verus!
