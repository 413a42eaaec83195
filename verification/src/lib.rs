//! Core logic of pcurl, an HTTP pretty-printer for the terminal: curl command
//! tokenizing and reconstruction, response splitting and rendering, and the
//! small protocols around MCP and WebSocket sessions.

pub mod text;
pub mod curl_parser;
pub mod quoting;
pub mod numbers;
pub mod render;
pub mod json;
pub mod json_text;
pub mod xml;
pub mod cli;
pub mod display;
pub mod stream;
pub mod mcp;
pub mod ws;
pub mod version;
pub mod doctor;
