//! The logic of a terminal chat client: text layout, markdown rendering, streaming
//! protocol decoding, configuration rules, session bookkeeping, tool policies and the
//! interactive editor, each with a proved contract.

pub mod ansi;
pub mod text;
pub mod text_laws;
pub mod render;
pub mod stream;
pub mod stream_laws;
pub mod error;
pub mod history_laws;
pub mod json;
pub mod table;
pub mod table_laws;
pub mod media;
pub mod cli;
pub mod config;
pub mod config_laws;
pub mod context;
pub mod call_laws;
pub mod chat;
pub mod sse;
pub mod session;
pub mod provider;
pub mod request_laws;
pub mod reply;
pub mod reply_laws;
pub mod diff;
pub mod diff_laws;
pub mod shell;
pub mod tools;
pub mod actions;
pub mod tool_laws;
pub mod edit;
pub mod edit_laws;
pub mod paths;
pub mod skills;
pub mod popup;
pub mod editor;
pub mod composer;
pub mod screen;
pub mod activity;
pub mod transcript;
pub mod view_laws;
pub mod panels;
pub mod target;
pub mod output;
pub mod audit;
pub mod ask;
pub mod ask_laws;
pub mod tool_loop;
pub mod markdown_laws;
pub mod mcp;
pub mod mcp_laws;
pub mod mcp_search;
pub mod commands;
pub mod repl;
pub mod session_laws;
pub mod session_log;
