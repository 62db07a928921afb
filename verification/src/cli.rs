//! The commands and options of the program.

use crate::context::ContextStatusMode;
use crate::json::Json;
use vstd::prelude::*;

verus! {

#[derive(Debug, Clone, Copy, PartialEq, Eq, Structural)]
pub enum OutputFormat {
    Line,
    Text,
    Json,
    Ndjson,
}

impl Default for OutputFormat {
    fn default() -> (r: OutputFormat)
        ensures
            r == OutputFormat::Line,
    {
        OutputFormat::Line
    }
}

pub open spec fn format_name(f: OutputFormat) -> Seq<char> {
    match f {
        OutputFormat::Line => "line"@,
        OutputFormat::Text => "text"@,
        OutputFormat::Json => "json"@,
        OutputFormat::Ndjson => "ndjson"@,
    }
}

impl OutputFormat {
    pub fn as_str(self) -> (r: &'static str)
        ensures
            r@ == format_name(self),
    {
        match self {
            OutputFormat::Line => "line",
            OutputFormat::Text => "text",
            OutputFormat::Json => "json",
            OutputFormat::Ndjson => "ndjson",
        }
    }
}

#[derive(Debug)]
pub struct ReplArgs {
    pub session: Option<String>,
    pub new_session: bool,
    pub ephemeral: bool,
    pub temp: bool,
    pub tools: bool,
    pub yes: bool,
    pub system: Option<String>,
    pub multiline: bool,
    pub stream: bool,
    pub no_stream: bool,
    pub context_status: Option<ContextStatusMode>,
}

#[derive(Debug)]
pub struct McpArgs {
    pub command: Option<McpCommand>,
    pub server: Option<String>,
    pub no_cache: bool,
    pub verbose: bool,
}

#[derive(Debug)]
pub enum McpCommand {
    Auth(McpAuthArgs),
    Start(McpStartArgs),
    Stop,
    Status,
}

#[derive(Debug)]
pub struct McpAuthArgs {
    pub server: Option<String>,
    pub no_cache: bool,
    pub verbose: bool,
}

#[derive(Debug)]
pub struct McpStartArgs {
    pub server: Option<String>,
}

#[allow(inconsistent_fields)]
#[derive(Debug)]
pub enum SessionCommand {
    List,
    Current,
    Switch { id: String },
    New { temp: bool },
    Show { id: Option<String> },
    Render { id: Option<String>, last: Option<usize>, all: bool },
    Export { id: String },
    Delete { id: String },
    Clear { all: bool },
    Gc,
}

#[derive(Debug)]
pub enum ProviderCommand {
    Save(ProviderSetArgs),
    List,
    Get { id: String },
    Remove { id: String },
    Test { id: String },
}

#[derive(Debug)]
pub struct ProviderSetArgs {
    pub id: String,
    pub kind: String,
    pub base_url: Option<String>,
    pub api_key_env: Option<String>,
    pub headers: Vec<String>,
    pub org: Option<String>,
    pub project: Option<String>,
    pub default_model: Option<String>,
    pub timeout: Option<u64>,
}

/// The options of a model; the temperature is the text of a number.
#[derive(Debug)]
pub struct ModelSetArgs {
    pub id: String,
    pub provider: String,
    pub remote_name: String,
    pub display_name: Option<String>,
    pub context_window: Option<u64>,
    pub max_output_tokens: Option<u32>,
    pub capabilities: Vec<String>,
    pub temperature: Option<String>,
    pub reasoning_effort: Option<String>,
    pub patch_system_to_user: bool,
}

#[derive(Debug)]
pub enum ModelCommand {
    Save(ModelSetArgs),
    List { provider: Option<String> },
    Get { id: String },
    Use { target: String },
    Remove { id: String },
}

#[allow(inconsistent_fields)]
#[derive(Debug)]
pub enum AuthCommand {
    Save(AuthSetArgs),
    Status { provider_id: Option<String> },
    Remove { provider_id: String },
}

#[derive(Debug)]
pub struct AuthSetArgs {
    pub provider_id: String,
    pub stdin: bool,
    pub value: Option<String>,
    pub env: Option<String>,
}

/// The options of one question, as far as its rules read them; the temperature is the text of
/// a number.
#[derive(Debug)]
pub struct AskArgs {
    pub session: Option<String>,
    pub new_session: bool,
    pub ephemeral: bool,
    pub temp: bool,
    pub tools: bool,
    pub yes: bool,
    pub stream: bool,
    pub temperature: Option<String>,
    pub max_output_tokens: Option<u32>,
    pub params: Vec<String>,
    pub timeout: Option<u64>,
    pub raw_provider_response: bool,
    pub context_status: Option<ContextStatusMode>,
}

} // verus!
