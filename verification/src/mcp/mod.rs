//! The MCP (Model Context Protocol) server: tool logic and request routing.
pub mod tools;
pub mod server;
