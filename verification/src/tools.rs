//! The tools that a model can call: their descriptions, their effects and how they are found.

use crate::config::{AppConfig, or_flag};
use crate::error::{AppError, AppResult, EXIT_ARGS, Failure, failure};
use crate::json::{
    Json, JsonView, array, clone_json, field_views, get_in, json_text, jsons,
    lemma_fields_push, lemma_jsons_push, object, object2, object3, parse_json, parsed_json,
    text_in, text_in_or,
};
use crate::shell::{is_read_only_bash_command, only_reads};
use crate::table::{text_before, text_lt};
use crate::text::{
    ascii_lower, contains, contains_text, in_list, lemma_take_full, lemma_take_step, one_of,
    replace, replaced, str_eq, texts, to_ascii_lower, trim, trimmed,
};
use vstd::prelude::*;

verus! {

#[derive(Debug, Clone, Copy, PartialEq, Eq, Structural)]
pub enum ToolSideEffects {
    ReadOnly,
    Mutating,
    External,
}

#[derive(Debug, Clone, Copy, PartialEq, Eq, Structural)]
pub enum ToolParallelism {
    ParallelSafe,
    SequentialOnly,
}

#[derive(Debug)]
pub struct ToolCall {
    pub id: String,
    pub name: String,
    pub arguments: Json,
}

pub struct CallView {
    pub id: Seq<char>,
    pub name: Seq<char>,
    pub arguments: JsonView,
}

impl View for ToolCall {
    type V = CallView;

    open spec fn view(&self) -> CallView {
        CallView { id: self.id@, name: self.name@, arguments: self.arguments@ }
    }
}

#[derive(Debug)]
pub struct ToolResult {
    pub tool_call_id: String,
    pub content: String,
}

/// A parameter of a tool.
#[derive(Debug)]
pub struct ToolParam {
    pub name: &'static str,
    pub kind: &'static str,
    pub description: &'static str,
    pub choices: Vec<&'static str>,
}

pub struct ParamView {
    pub name: &'static str,
    pub kind: &'static str,
    pub description: &'static str,
    pub choices: Seq<&'static str>,
}

impl View for ToolParam {
    type V = ParamView;

    open spec fn view(&self) -> ParamView {
        ParamView {
            name: self.name,
            kind: self.kind,
            description: self.description,
            choices: self.choices@,
        }
    }
}

pub open spec fn param_views(v: Seq<ToolParam>) -> Seq<ParamView> {
    v.map_values(|p: ToolParam| p@)
}

#[derive(Debug)]
pub struct ToolSpec {
    pub name: &'static str,
    pub aliases: Vec<&'static str>,
    pub description: &'static str,
    pub search_hint: &'static str,
    pub side_effects: ToolSideEffects,
    pub parallelism: ToolParallelism,
    pub requires_confirmation: bool,
    pub defer_loading: bool,
    pub schema_description: &'static str,
    pub params: Vec<ToolParam>,
    pub required: Vec<&'static str>,
}

/// What is known of a tool.
pub struct ToolEntry {
    pub name: &'static str,
    pub aliases: Seq<&'static str>,
    pub description: &'static str,
    pub search_hint: &'static str,
    pub side_effects: ToolSideEffects,
    pub parallelism: ToolParallelism,
    pub requires_confirmation: bool,
    pub defer_loading: bool,
    pub schema_description: &'static str,
    pub params: Seq<ParamView>,
    pub required: Seq<&'static str>,
}

impl View for ToolSpec {
    type V = ToolEntry;

    open spec fn view(&self) -> ToolEntry {
        ToolEntry {
            name: self.name,
            aliases: self.aliases@,
            description: self.description,
            search_hint: self.search_hint,
            side_effects: self.side_effects,
            parallelism: self.parallelism,
            requires_confirmation: self.requires_confirmation,
            defer_loading: self.defer_loading,
            schema_description: self.schema_description,
            params: param_views(self.params@),
            required: self.required@,
        }
    }
}

impl ToolSpec {
    pub fn is_parallel_safe(&self) -> (r: bool)
        ensures
            r == (self.parallelism == ToolParallelism::ParallelSafe),
    {
        self.parallelism == ToolParallelism::ParallelSafe
    }
}

/// How many tools there are.
pub const TOOL_COUNT: usize = 9;

/// The tools, by number.
pub open spec fn tool_entry(i: int) -> ToolEntry {
    if i == 0 {
        ToolEntry {
            name: "ToolSearch",
            aliases: seq!["tool_search"],
            description: "",
            search_hint: "search deferred tools",
            side_effects: ToolSideEffects::ReadOnly,
            parallelism: ToolParallelism::ParallelSafe,
            requires_confirmation: false,
            defer_loading: false,
            schema_description: "Search deferred tools and load their schemas for later turns. Available tool names: Read, Edit, Bash, Grep, Glob, WebFetch, SkillsList, SkillRead. Use this first before calling any deferred tool.",
            params: seq![ParamView { name: "query", kind: "string", description: "Tool name or capability phrase to search for.", choices: Seq::empty() }, ParamView { name: "max_results", kind: "integer", description: "Maximum number of tool schemas to load. Default 5.", choices: Seq::empty() }],
            required: seq!["query"],
        }
    } else if i == 1 {
        ToolEntry {
            name: "Read",
            aliases: seq!["read"],
            description: "Read a file from the local filesystem.",
            search_hint: "read file contents",
            side_effects: ToolSideEffects::ReadOnly,
            parallelism: ToolParallelism::ParallelSafe,
            requires_confirmation: false,
            defer_loading: true,
            schema_description: "Read a file from the local filesystem.",
            params: seq![ParamView { name: "file_path", kind: "string", description: "Absolute file path to the file to read.", choices: Seq::empty() }, ParamView { name: "offset", kind: "integer", description: "Optional 1-based line number to start reading from.", choices: Seq::empty() }, ParamView { name: "limit", kind: "integer", description: "Optional maximum number of lines to read.", choices: Seq::empty() }],
            required: seq!["file_path"],
        }
    } else if i == 2 {
        ToolEntry {
            name: "Edit",
            aliases: seq!["edit", "write", "Write"],
            description: "Create a new file or edit an existing file by replacing old text with new text.",
            search_hint: "create or modify file contents",
            side_effects: ToolSideEffects::Mutating,
            parallelism: ToolParallelism::SequentialOnly,
            requires_confirmation: true,
            defer_loading: true,
            schema_description: "Create a new file or edit an existing file by replacing old text with new text. Use old_string=\"\" when creating a new file or populating an empty file.",
            params: seq![ParamView { name: "file_path", kind: "string", description: "Absolute file path to create or edit.", choices: Seq::empty() }, ParamView { name: "old_string", kind: "string", description: "Exact text to replace. Use an empty string to create a new file or populate an empty file.", choices: Seq::empty() }, ParamView { name: "new_string", kind: "string", description: "Replacement text, or the full file contents when creating a file.", choices: Seq::empty() }, ParamView { name: "replace_all", kind: "boolean", description: "Replace all matches instead of exactly one.", choices: Seq::empty() }],
            required: seq!["file_path", "new_string"],
        }
    } else if i == 3 {
        ToolEntry {
            name: "Bash",
            aliases: seq!["bash"],
            description: "Run a shell command.",
            search_hint: "execute shell commands",
            side_effects: ToolSideEffects::Mutating,
            parallelism: ToolParallelism::SequentialOnly,
            requires_confirmation: true,
            defer_loading: true,
            schema_description: "Run a shell command and return its stdout and stderr.",
            params: seq![ParamView { name: "command", kind: "string", description: "The bash command to execute.", choices: Seq::empty() }],
            required: seq!["command"],
        }
    } else if i == 4 {
        ToolEntry {
            name: "Grep",
            aliases: seq!["grep"],
            description: "Search for a pattern in files.",
            search_hint: "search file contents by pattern",
            side_effects: ToolSideEffects::ReadOnly,
            parallelism: ToolParallelism::ParallelSafe,
            requires_confirmation: false,
            defer_loading: true,
            schema_description: "Search for a regex pattern in files.",
            params: seq![ParamView { name: "pattern", kind: "string", description: "Regex pattern to search for.", choices: Seq::empty() }, ParamView { name: "path", kind: "string", description: "Optional file or directory to search in. Defaults to the current working directory.", choices: Seq::empty() }, ParamView { name: "glob", kind: "string", description: "Optional glob pattern to filter files, e.g. '*.rs', '*.py'.", choices: Seq::empty() }, ParamView { name: "output_mode", kind: "string", description: "Search output mode. Defaults to files_with_matches.", choices: seq!["content", "files_with_matches", "count"] }],
            required: seq!["pattern"],
        }
    } else if i == 5 {
        ToolEntry {
            name: "Glob",
            aliases: seq!["glob"],
            description: "Find files by glob pattern.",
            search_hint: "find files by wildcard",
            side_effects: ToolSideEffects::ReadOnly,
            parallelism: ToolParallelism::ParallelSafe,
            requires_confirmation: false,
            defer_loading: true,
            schema_description: "Find files by glob pattern.",
            params: seq![ParamView { name: "pattern", kind: "string", description: "Glob pattern such as **/*.rs or src/*.ts.", choices: Seq::empty() }, ParamView { name: "path", kind: "string", description: "Optional base directory to search in.", choices: Seq::empty() }],
            required: seq!["pattern"],
        }
    } else if i == 6 {
        ToolEntry {
            name: "WebFetch",
            aliases: seq!["fetch", "web_fetch"],
            description: "Fetch content from a URL via HTTP GET.",
            search_hint: "fetch web page contents",
            side_effects: ToolSideEffects::External,
            parallelism: ToolParallelism::ParallelSafe,
            requires_confirmation: false,
            defer_loading: true,
            schema_description: "Fetch content from a URL via HTTP GET. Returns the response body as text (max 32KB).",
            params: seq![ParamView { name: "url", kind: "string", description: "The URL to fetch.", choices: Seq::empty() }],
            required: seq!["url"],
        }
    } else if i == 7 {
        ToolEntry {
            name: "SkillsList",
            aliases: seq!["skills_list"],
            description: "List available project and global skills.",
            search_hint: "list available skills",
            side_effects: ToolSideEffects::ReadOnly,
            parallelism: ToolParallelism::ParallelSafe,
            requires_confirmation: false,
            defer_loading: true,
            schema_description: "List available skills from the current project's <skills> directory and ~/<skills>.",
            params: seq![ParamView { name: "query", kind: "string", description: "Optional substring filter for the skill name.", choices: Seq::empty() }],
            required: Seq::empty(),
        }
    } else {
        ToolEntry {
            name: "SkillRead",
            aliases: seq!["skill_read"],
            description: "Read the SKILL.md content for a named skill.",
            search_hint: "read skill instructions",
            side_effects: ToolSideEffects::ReadOnly,
            parallelism: ToolParallelism::ParallelSafe,
            requires_confirmation: false,
            defer_loading: true,
            schema_description: "Read the SKILL.md content for a named skill.",
            params: seq![ParamView { name: "name", kind: "string", description: "Skill name, for example 'agent-browser', 'ui-ux-pro-max', or '.system/openai-docs'. You can also use 'project:name' or 'global:name' to disambiguate.", choices: Seq::empty() }, ParamView { name: "scope", kind: "string", description: "Optional skill scope filter, e.g. 'project', 'global', or 'path:./<skills>'.", choices: Seq::empty() }],
            required: seq!["name"],
        }
    }
}

pub fn builtin_tool(i: usize) -> (r: ToolSpec)
    requires
        i < TOOL_COUNT,
    ensures
        r@ == tool_entry(i as int),
{
    let r = if i == 0 {
        ToolSpec {
            name: "ToolSearch",
            aliases: vec!["tool_search"],
            description: "",
            search_hint: "search deferred tools",
            side_effects: ToolSideEffects::ReadOnly,
            parallelism: ToolParallelism::ParallelSafe,
            requires_confirmation: false,
            defer_loading: false,
            schema_description: "Search deferred tools and load their schemas for later turns. Available tool names: Read, Edit, Bash, Grep, Glob, WebFetch, SkillsList, SkillRead. Use this first before calling any deferred tool.",
            params: vec![ToolParam { name: "query", kind: "string", description: "Tool name or capability phrase to search for.", choices: Vec::new() }, ToolParam { name: "max_results", kind: "integer", description: "Maximum number of tool schemas to load. Default 5.", choices: Vec::new() }],
            required: vec!["query"],
        }
    } else if i == 1 {
        ToolSpec {
            name: "Read",
            aliases: vec!["read"],
            description: "Read a file from the local filesystem.",
            search_hint: "read file contents",
            side_effects: ToolSideEffects::ReadOnly,
            parallelism: ToolParallelism::ParallelSafe,
            requires_confirmation: false,
            defer_loading: true,
            schema_description: "Read a file from the local filesystem.",
            params: vec![ToolParam { name: "file_path", kind: "string", description: "Absolute file path to the file to read.", choices: Vec::new() }, ToolParam { name: "offset", kind: "integer", description: "Optional 1-based line number to start reading from.", choices: Vec::new() }, ToolParam { name: "limit", kind: "integer", description: "Optional maximum number of lines to read.", choices: Vec::new() }],
            required: vec!["file_path"],
        }
    } else if i == 2 {
        ToolSpec {
            name: "Edit",
            aliases: vec!["edit", "write", "Write"],
            description: "Create a new file or edit an existing file by replacing old text with new text.",
            search_hint: "create or modify file contents",
            side_effects: ToolSideEffects::Mutating,
            parallelism: ToolParallelism::SequentialOnly,
            requires_confirmation: true,
            defer_loading: true,
            schema_description: "Create a new file or edit an existing file by replacing old text with new text. Use old_string=\"\" when creating a new file or populating an empty file.",
            params: vec![ToolParam { name: "file_path", kind: "string", description: "Absolute file path to create or edit.", choices: Vec::new() }, ToolParam { name: "old_string", kind: "string", description: "Exact text to replace. Use an empty string to create a new file or populate an empty file.", choices: Vec::new() }, ToolParam { name: "new_string", kind: "string", description: "Replacement text, or the full file contents when creating a file.", choices: Vec::new() }, ToolParam { name: "replace_all", kind: "boolean", description: "Replace all matches instead of exactly one.", choices: Vec::new() }],
            required: vec!["file_path", "new_string"],
        }
    } else if i == 3 {
        ToolSpec {
            name: "Bash",
            aliases: vec!["bash"],
            description: "Run a shell command.",
            search_hint: "execute shell commands",
            side_effects: ToolSideEffects::Mutating,
            parallelism: ToolParallelism::SequentialOnly,
            requires_confirmation: true,
            defer_loading: true,
            schema_description: "Run a shell command and return its stdout and stderr.",
            params: vec![ToolParam { name: "command", kind: "string", description: "The bash command to execute.", choices: Vec::new() }],
            required: vec!["command"],
        }
    } else if i == 4 {
        ToolSpec {
            name: "Grep",
            aliases: vec!["grep"],
            description: "Search for a pattern in files.",
            search_hint: "search file contents by pattern",
            side_effects: ToolSideEffects::ReadOnly,
            parallelism: ToolParallelism::ParallelSafe,
            requires_confirmation: false,
            defer_loading: true,
            schema_description: "Search for a regex pattern in files.",
            params: vec![ToolParam { name: "pattern", kind: "string", description: "Regex pattern to search for.", choices: Vec::new() }, ToolParam { name: "path", kind: "string", description: "Optional file or directory to search in. Defaults to the current working directory.", choices: Vec::new() }, ToolParam { name: "glob", kind: "string", description: "Optional glob pattern to filter files, e.g. '*.rs', '*.py'.", choices: Vec::new() }, ToolParam { name: "output_mode", kind: "string", description: "Search output mode. Defaults to files_with_matches.", choices: vec!["content", "files_with_matches", "count"] }],
            required: vec!["pattern"],
        }
    } else if i == 5 {
        ToolSpec {
            name: "Glob",
            aliases: vec!["glob"],
            description: "Find files by glob pattern.",
            search_hint: "find files by wildcard",
            side_effects: ToolSideEffects::ReadOnly,
            parallelism: ToolParallelism::ParallelSafe,
            requires_confirmation: false,
            defer_loading: true,
            schema_description: "Find files by glob pattern.",
            params: vec![ToolParam { name: "pattern", kind: "string", description: "Glob pattern such as **/*.rs or src/*.ts.", choices: Vec::new() }, ToolParam { name: "path", kind: "string", description: "Optional base directory to search in.", choices: Vec::new() }],
            required: vec!["pattern"],
        }
    } else if i == 6 {
        ToolSpec {
            name: "WebFetch",
            aliases: vec!["fetch", "web_fetch"],
            description: "Fetch content from a URL via HTTP GET.",
            search_hint: "fetch web page contents",
            side_effects: ToolSideEffects::External,
            parallelism: ToolParallelism::ParallelSafe,
            requires_confirmation: false,
            defer_loading: true,
            schema_description: "Fetch content from a URL via HTTP GET. Returns the response body as text (max 32KB).",
            params: vec![ToolParam { name: "url", kind: "string", description: "The URL to fetch.", choices: Vec::new() }],
            required: vec!["url"],
        }
    } else if i == 7 {
        ToolSpec {
            name: "SkillsList",
            aliases: vec!["skills_list"],
            description: "List available project and global skills.",
            search_hint: "list available skills",
            side_effects: ToolSideEffects::ReadOnly,
            parallelism: ToolParallelism::ParallelSafe,
            requires_confirmation: false,
            defer_loading: true,
            schema_description: "List available skills from the current project's <skills> directory and ~/<skills>.",
            params: vec![ToolParam { name: "query", kind: "string", description: "Optional substring filter for the skill name.", choices: Vec::new() }],
            required: Vec::new(),
        }
    } else {
        ToolSpec {
            name: "SkillRead",
            aliases: vec!["skill_read"],
            description: "Read the SKILL.md content for a named skill.",
            search_hint: "read skill instructions",
            side_effects: ToolSideEffects::ReadOnly,
            parallelism: ToolParallelism::ParallelSafe,
            requires_confirmation: false,
            defer_loading: true,
            schema_description: "Read the SKILL.md content for a named skill.",
            params: vec![ToolParam { name: "name", kind: "string", description: "Skill name, for example 'agent-browser', 'ui-ux-pro-max', or '.system/openai-docs'. You can also use 'project:name' or 'global:name' to disambiguate.", choices: Vec::new() }, ToolParam { name: "scope", kind: "string", description: "Optional skill scope filter, e.g. 'project', 'global', or 'path:./<skills>'.", choices: Vec::new() }],
            required: vec!["name"],
        }
    };
    proof {
        assert(r.aliases@ =~= tool_entry(i as int).aliases);
        assert(r.required@ =~= tool_entry(i as int).required);
        assert(param_views(r.params@).len() == tool_entry(i as int).params.len());
        assert forall|k: int| 0 <= k < r.params@.len() implies param_views(r.params@)[k]
            == tool_entry(i as int).params[k] by {
            assert(r.params@[k].choices@ =~= tool_entry(i as int).params[k].choices);
        }
        assert(param_views(r.params@) =~= tool_entry(i as int).params);
    }
    r
}

pub open spec fn named(t: ToolEntry, name: Seq<char>) -> bool {
    t.name@ == name || in_list(name, t.aliases)
}

/// The number of the first tool from `i` on with a name.
pub open spec fn tool_from(name: Seq<char>, i: int) -> Option<int>
    decreases TOOL_COUNT - i,
{
    if i < 0 || i >= TOOL_COUNT {
        None
    } else if named(tool_entry(i), name) {
        Some(i)
    } else {
        tool_from(name, i + 1)
    }
}

/// The tool with a name, its own or another.
pub open spec fn tool_named(name: Seq<char>) -> Option<ToolEntry> {
    match tool_from(name, 0) {
        Some(i) => Some(tool_entry(i)),
        None => None,
    }
}

pub fn lookup_tool_spec(name: &str) -> (r: Option<ToolSpec>)
    ensures
        match r {
            Some(t) => tool_named(name@) == Some(t@),
            None => tool_named(name@) is None,
        },
{
    let mut i: usize = 0;
    while i < TOOL_COUNT
        invariant
            i <= TOOL_COUNT,
            tool_from(name@, 0) == tool_from(name@, i as int),
        decreases TOOL_COUNT - i,
    {
        let t = builtin_tool(i);
        if str_eq(t.name, name) || one_of(name, t.aliases.as_slice()) {
            return Some(t);
        }
        i = i + 1;
    }
    None
}

pub open spec fn is_bash(name: Seq<char>) -> bool {
    name == "Bash"@ || name == "bash"@
}

/// The effects of a call: a shell command that only reads counts as such; of a tool that is not
/// known the worst is expected.
pub open spec fn call_effects(c: CallView) -> ToolSideEffects {
    if is_bash(c.name) && (c.arguments.at("command"@).text() matches Some(cmd) && only_reads(cmd)) {
        ToolSideEffects::ReadOnly
    } else {
        match tool_named(c.name) {
            Some(t) => t.side_effects,
            None => ToolSideEffects::Mutating,
        }
    }
}

pub fn tool_call_side_effects(call: &ToolCall) -> (r: ToolSideEffects)
    ensures
        r == call_effects(call@),
{
    if str_eq(call.name.as_str(), "Bash") || str_eq(call.name.as_str(), "bash") {
        if let Some(cmd) = text_in(call.arguments.get("command")) {
            if is_read_only_bash_command(cmd.as_str()) {
                return ToolSideEffects::ReadOnly;
            }
        }
    }
    match lookup_tool_spec(call.name.as_str()) {
        Some(t) => t.side_effects,
        None => ToolSideEffects::Mutating,
    }
}

/// Whether a call has to be confirmed.
pub open spec fn needs_confirmation(c: CallView) -> bool {
    call_effects(c) != ToolSideEffects::ReadOnly && match tool_named(c.name) {
        Some(t) => t.requires_confirmation,
        None => true,
    }
}

pub fn tool_call_requires_confirmation(call: &ToolCall) -> (r: bool)
    ensures
        r == needs_confirmation(call@),
{
    match tool_call_side_effects(call) {
        ToolSideEffects::ReadOnly => false,
        _ => match lookup_tool_spec(call.name.as_str()) {
            Some(t) => t.requires_confirmation,
            None => true,
        },
    }
}

/// Every call that may change something has to be confirmed.
pub proof fn law_changes_are_confirmed(c: CallView)
    requires
        call_effects(c) == ToolSideEffects::Mutating,
    ensures
        needs_confirmation(c),
{
    lemma_mutating_confirmed(c.name, 0);
}

proof fn lemma_mutating_confirmed(name: Seq<char>, i: int)
    requires
        0 <= i,
    ensures
        tool_from(name, i) matches Some(k) ==> 0 <= k < TOOL_COUNT && (
        tool_entry(k).side_effects == ToolSideEffects::Mutating ==> tool_entry(
            k,
        ).requires_confirmation),
    decreases TOOL_COUNT - i,
{
    if i < TOOL_COUNT {
        lemma_mutating_confirmed(name, i + 1);
    }
}

// ---------------------------------------------------------------------------
// Definitions
// ---------------------------------------------------------------------------

pub open spec fn strs_json(v: Seq<&'static str>) -> JsonView {
    JsonView::Array(v.map_values(|s: &'static str| JsonView::Str(s@)))
}

pub fn strs_json_of(v: &Vec<&'static str>) -> (r: Json)
    ensures
        r@ == strs_json(v@),
{
    let ghost goal = v@.map_values(|s: &'static str| JsonView::Str(s@));
    let mut out: Vec<Json> = Vec::new();
    let mut i: usize = 0;
    proof {
        assert(jsons(out@) =~= goal.take(0));
    }
    while i < v.len()
        invariant
            i <= v@.len(),
            goal == v@.map_values(|s: &'static str| JsonView::Str(s@)),
            jsons(out@) == goal.take(i as int),
        decreases v@.len() - i,
    {
        let item = json_text(v[i]);
        proof {
            lemma_take_step(goal, i as int);
            lemma_jsons_push(out@, item);
        }
        out.push(item);
        i = i + 1;
    }
    proof {
        lemma_take_full(goal);
    }
    array(out)
}

/// A text in which the directory of skills is named, by its path below a project and below the
/// home of the user.
pub open spec fn naming_skills(text: Seq<char>, skills_dir: Seq<char>) -> Seq<char> {
    replaced(text, "<skills>"@, skills_dir)
}

fn name_skills(text: &str, skills_dir: &str) -> (r: String)
    ensures
        r@ == naming_skills(text@, skills_dir@),
{
    proof {
        reveal_strlit("<skills>");
    }
    replace(text, "<skills>", skills_dir)
}

pub open spec fn param_json(p: ParamView, skills_dir: Seq<char>) -> JsonView {
    let description = naming_skills(p.description@, skills_dir);
    if p.choices.len() == 0 {
        JsonView::Object(
            seq![
                ("type"@, JsonView::Str(p.kind@)),
                ("description"@, JsonView::Str(description)),
            ],
        )
    } else {
        JsonView::Object(
            seq![
                ("type"@, JsonView::Str(p.kind@)),
                ("enum"@, strs_json(p.choices)),
                ("description"@, JsonView::Str(description)),
            ],
        )
    }
}

pub open spec fn property_fields(v: Seq<ParamView>, skills_dir: Seq<char>) -> Seq<
    (Seq<char>, JsonView),
> {
    v.map_values(|p: ParamView| (p.name@, param_json(p, skills_dir)))
}

/// The definition of a tool as a model is told it.
pub open spec fn definition(t: ToolEntry, skills_dir: Seq<char>) -> JsonView {
    let properties = ("properties"@, JsonView::Object(property_fields(t.params, skills_dir)));
    let parameters = if t.required.len() == 0 {
        seq![("type"@, JsonView::Str("object"@)), properties]
    } else {
        seq![
            ("type"@, JsonView::Str("object"@)),
            properties,
            ("required"@, strs_json(t.required)),
        ]
    };
    JsonView::Object(
        seq![
            ("type"@, JsonView::Str("function"@)),
            (
                "function"@,
                JsonView::Object(
                    seq![
                        ("name"@, JsonView::Str(t.name@)),
                        (
                            "description"@,
                            JsonView::Str(naming_skills(t.schema_description@, skills_dir)),
                        ),
                        ("parameters"@, JsonView::Object(parameters)),
                    ],
                ),
            ),
        ],
    )
}

fn param_json_of(p: &ToolParam, skills_dir: &str) -> (r: Json)
    ensures
        r@ == param_json(p@, skills_dir@),
{
    let description = name_skills(p.description, skills_dir);
    if p.choices.len() == 0 {
        object2("type", json_text(p.kind), "description", json_text(description.as_str()))
    } else {
        object3(
            "type",
            json_text(p.kind),
            "enum",
            strs_json_of(&p.choices),
            "description",
            json_text(description.as_str()),
        )
    }
}

impl ToolSpec {
    pub fn definition(&self, skills_dir: &str) -> (r: Json)
        ensures
            r@ == definition(self@, skills_dir@),
    {
        let ghost goal = property_fields(param_views(self.params@), skills_dir@);
        let mut fields: Vec<(String, Json)> = Vec::new();
        let mut i: usize = 0;
        proof {
            assert(field_views(fields@) =~= goal.take(0));
        }
        while i < self.params.len()
            invariant
                i <= self.params@.len(),
                goal == property_fields(param_views(self.params@), skills_dir@),
                field_views(fields@) == goal.take(i as int),
            decreases self.params@.len() - i,
        {
            let f = (
                self.params[i].name.to_owned(),
                param_json_of(&self.params[i], skills_dir),
            );
            proof {
                assert(param_views(self.params@)[i as int] == self.params@[i as int]@);
                lemma_take_step(goal, i as int);
                lemma_fields_push(fields@, f);
            }
            fields.push(f);
            i = i + 1;
        }
        proof {
            lemma_take_full(goal);
        }
        let properties = object(fields);
        let parameters = if self.required.len() == 0 {
            object2("type", json_text("object"), "properties", properties)
        } else {
            object3(
                "type",
                json_text("object"),
                "properties",
                properties,
                "required",
                strs_json_of(&self.required),
            )
        };
        object2(
            "type",
            json_text("function"),
            "function",
            object3(
                "name",
                json_text(self.name),
                "description",
                json_text(name_skills(self.schema_description, skills_dir).as_str()),
                "parameters",
                parameters,
            ),
        )
    }
}

/// The definitions of the first `i` tools but the search.
pub open spec fn all_definitions(i: int, skills_dir: Seq<char>) -> Seq<JsonView>
    decreases i,
{
    if i <= 1 {
        Seq::empty()
    } else {
        all_definitions(i - 1, skills_dir).push(definition(tool_entry(i - 1), skills_dir))
    }
}

pub open spec fn loads_progressively(c: AppConfig) -> bool {
    or_flag(c.tools.progressive_loading, true)
}

pub fn progressive_loading_enabled(config: &AppConfig) -> (r: bool)
    ensures
        r == loads_progressively(*config),
{
    match config.tools.progressive_loading {
        Some(b) => b,
        None => true,
    }
}

pub fn full_tool_definitions(skills_dir: &str) -> (r: Vec<Json>)
    ensures
        jsons(r@) == all_definitions(TOOL_COUNT as int, skills_dir@),
{
    let mut out: Vec<Json> = Vec::new();
    let mut i: usize = 1;
    proof {
        assert(jsons(out@) =~= all_definitions(1, skills_dir@));
    }
    while i < TOOL_COUNT
        invariant
            1 <= i <= TOOL_COUNT,
            jsons(out@) == all_definitions(i as int, skills_dir@),
        decreases TOOL_COUNT - i,
    {
        let d = builtin_tool(i).definition(skills_dir);
        proof {
            lemma_jsons_push(out@, d);
        }
        out.push(d);
        i = i + 1;
    }
    out
}

/// The definitions that a model is told at first: with progressive loading only the search, else
/// all others.
pub open spec fn first_definitions(progressive: bool, skills_dir: Seq<char>) -> Seq<JsonView> {
    if progressive {
        seq![definition(tool_entry(0), skills_dir)]
    } else {
        all_definitions(TOOL_COUNT as int, skills_dir)
    }
}

pub fn initial_tool_definitions(config: &AppConfig, skills_dir: &str) -> (r: Vec<Json>)
    ensures
        jsons(r@) == first_definitions(loads_progressively(*config), skills_dir@),
{
    if !progressive_loading_enabled(config) {
        return full_tool_definitions(skills_dir);
    }
    let mut out: Vec<Json> = Vec::new();
    out.push(builtin_tool(0).definition(skills_dir));
    proof {
        assert(jsons(out@) =~= seq![definition(tool_entry(0), skills_dir@)]);
    }
    out
}

/// The definitions of named tools that are loaded when they are needed.
pub open spec fn loaded_definitions(names: Seq<Seq<char>>, skills_dir: Seq<char>) -> Seq<JsonView>
    decreases names.len(),
{
    if names.len() == 0 {
        Seq::empty()
    } else {
        let before = loaded_definitions(names.drop_last(), skills_dir);
        match tool_named(names.last()) {
            Some(t) if t.defer_loading => before.push(definition(t, skills_dir)),
            _ => before,
        }
    }
}

pub open spec fn definitions_for(
    progressive: bool,
    names: Seq<Seq<char>>,
    skills_dir: Seq<char>,
) -> Seq<JsonView> {
    if progressive {
        first_definitions(true, skills_dir) + loaded_definitions(names, skills_dir)
    } else {
        first_definitions(false, skills_dir)
    }
}

pub fn tool_definitions_for_names(
    config: &AppConfig,
    names: &Vec<String>,
    skills_dir: &str,
) -> (r: Vec<Json>)
    ensures
        jsons(r@) == definitions_for(loads_progressively(*config), texts(names@), skills_dir@),
{
    let mut tools = initial_tool_definitions(config, skills_dir);
    if !progressive_loading_enabled(config) {
        return tools;
    }
    let ghost head = jsons(tools@);
    let ghost src = texts(names@);
    let mut i: usize = 0;
    proof {
        assert(head + loaded_definitions(src.take(0), skills_dir@) =~= head);
    }
    while i < names.len()
        invariant
            i <= names@.len(),
            src == texts(names@),
            jsons(tools@) == head + loaded_definitions(src.take(i as int), skills_dir@),
        decreases names@.len() - i,
    {
        proof {
            lemma_take_step(src, i as int);
        }
        let ghost before = loaded_definitions(src.take(i as int), skills_dir@);
        if let Some(t) = lookup_tool_spec(names[i].as_str()) {
            if t.defer_loading {
                let d = t.definition(skills_dir);
                proof {
                    lemma_jsons_push(tools@, d);
                    assert((head + before).push(d@) =~= head + before.push(d@));
                }
                tools.push(d);
            }
        }
        i = i + 1;
    }
    proof {
        lemma_take_full(src);
    }
    tools
}

// ---------------------------------------------------------------------------
// Searching
// ---------------------------------------------------------------------------

pub open spec fn alias_contains(v: Seq<&'static str>, q: Seq<char>) -> bool {
    exists|i: int| 0 <= i < v.len() && contains_text(ascii_lower((#[trigger] v[i])@), q)
}

/// How well a tool fits a query in lower case.
pub open spec fn score(t: ToolEntry, q: Seq<char>) -> nat {
    let name = ascii_lower(t.name@);
    (if name == q {
        100nat
    } else {
        0
    }) + (if contains_text(name, q) {
        50nat
    } else {
        0
    }) + (if alias_contains(t.aliases, q) {
        25nat
    } else {
        0
    }) + (if contains_text(ascii_lower(t.search_hint@), q) {
        10nat
    } else {
        0
    })
}

fn has_alias(v: &Vec<&'static str>, q: &str) -> (r: bool)
    ensures
        r == alias_contains(v@, q@),
{
    let mut i: usize = 0;
    while i < v.len()
        invariant
            i <= v@.len(),
            forall|k: int|
                0 <= k < i ==> !contains_text(ascii_lower((#[trigger] v@[k])@), q@),
        decreases v@.len() - i,
    {
        let low = to_ascii_lower(v[i]);
        if contains(low.as_str(), q) {
            return true;
        }
        i = i + 1;
    }
    false
}

fn score_of(t: &ToolSpec, q: &str) -> (r: usize)
    ensures
        r == score(t@, q@),
{
    let name = to_ascii_lower(t.name);
    let hint = to_ascii_lower(t.search_hint);
    let mut s: usize = 0;
    if str_eq(name.as_str(), q) {
        s = s + 100;
    }
    if contains(name.as_str(), q) {
        s = s + 50;
    }
    if has_alias(&t.aliases, q) {
        s = s + 25;
    }
    if contains(hint.as_str(), q) {
        s = s + 10;
    }
    s
}

/// Whether a tool comes before another: by its score, then by its name.
pub open spec fn ranks_before(a: ToolEntry, b: ToolEntry, q: Seq<char>) -> bool {
    score(a, q) > score(b, q) || (score(a, q) == score(b, q) && text_lt(a.name@, b.name@))
}

/// A ranking with one more tool.
pub open spec fn with_tool(v: Seq<ToolEntry>, t: ToolEntry, q: Seq<char>) -> Seq<ToolEntry>
    decreases v.len(),
{
    if v.len() > 0 && ranks_before(t, v.last(), q) {
        with_tool(v.drop_last(), t, q).push(v.last())
    } else {
        v.push(t)
    }
}

/// The ranking of the first `i` tools that are loaded when needed and that fit a query at all.
pub open spec fn ranking(q: Seq<char>, i: int) -> Seq<ToolEntry>
    decreases i,
{
    if i <= 0 {
        Seq::empty()
    } else {
        let t = tool_entry(i - 1);
        if t.defer_loading && score(t, q) > 0 {
            with_tool(ranking(q, i - 1), t, q)
        } else {
            ranking(q, i - 1)
        }
    }
}

/// The tools that fit a query best, at least one if any fits.
pub open spec fn search_result(query: Seq<char>, max: nat) -> Seq<ToolEntry> {
    let all = ranking(ascii_lower(trimmed(query)), TOOL_COUNT as int);
    let n = if max == 0 {
        1
    } else {
        max
    };
    if all.len() <= n {
        all
    } else {
        all.take(n as int)
    }
}

pub open spec fn tool_views(v: Seq<ToolSpec>) -> Seq<ToolEntry> {
    v.map_values(|t: ToolSpec| t@)
}

proof fn lemma_with_tool_at(v: Seq<ToolEntry>, t: ToolEntry, q: Seq<char>, i: int)
    requires
        0 <= i <= v.len(),
        forall|k: int| i <= k < v.len() ==> ranks_before(t, #[trigger] v[k], q),
        i > 0 ==> !ranks_before(t, v[i - 1], q),
    ensures
        with_tool(v, t, q) == v.insert(i, t),
    decreases v.len(),
{
    if i == v.len() {
        assert(v.insert(i, t) =~= v.push(t));
        if v.len() > 0 {
            assert(v.last() == v[i - 1]);
        }
    } else {
        assert(ranks_before(t, v[v.len() - 1], q));
        lemma_with_tool_at(v.drop_last(), t, q, i);
        assert(v.insert(i, t) =~= v.drop_last().insert(i, t).push(v.last()));
    }
}

fn is_ranked_before(a: &ToolSpec, b: &ToolSpec, q: &str) -> (r: bool)
    ensures
        r == ranks_before(a@, b@, q@),
{
    let x: usize = score_of(a, q);
    let y: usize = score_of(b, q);
    x > y || (x == y && text_before(a.name, b.name))
}

fn add_tool(v: &mut Vec<ToolSpec>, t: ToolSpec, q: &str)
    ensures
        tool_views(final(v)@) == with_tool(tool_views(old(v)@), t@, q@),
{
    let ghost src = tool_views(v@);
    let mut i: usize = v.len();
    while i > 0 && is_ranked_before(&t, &v[i - 1], q)
        invariant
            i <= v@.len(),
            *v == *old(v),
            src == tool_views(v@),
            forall|k: int| i <= k < v@.len() ==> ranks_before(t@, #[trigger] src[k], q@),
        decreases i,
    {
        proof {
            assert(src[i - 1] == v@[i - 1]@);
        }
        i = i - 1;
    }
    proof {
        if i > 0 {
            assert(src[i - 1] == v@[i - 1]@);
        }
        lemma_with_tool_at(src, t@, q@, i as int);
    }
    let ghost view = t@;
    v.insert(i, t);
    proof {
        assert(tool_views(v@) =~= src.insert(i as int, view));
    }
}

pub fn tool_search_matches(query: &str, max_results: usize) -> (r: Vec<ToolSpec>)
    ensures
        tool_views(r@) == search_result(query@, max_results as nat),
{
    let t = trim(query);
    let q = to_ascii_lower(t.as_str());
    let mut out: Vec<ToolSpec> = Vec::new();
    let mut i: usize = 0;
    proof {
        assert(tool_views(out@) =~= Seq::<ToolEntry>::empty());
    }
    while i < TOOL_COUNT
        invariant
            i <= TOOL_COUNT,
            tool_views(out@) == ranking(q@, i as int),
        decreases TOOL_COUNT - i,
    {
        let t = builtin_tool(i);
        if t.defer_loading && score_of(&t, q.as_str()) > 0 {
            add_tool(&mut out, t, q.as_str());
        }
        i = i + 1;
    }
    let n: usize = if max_results == 0 {
        1
    } else {
        max_results
    };
    let ghost all = tool_views(out@);
    if out.len() > n {
        out.truncate(n);
        proof {
            assert(tool_views(out@) =~= all.take(n as int));
        }
    }
    out
}

/// A search gives no more tools than were asked for, and at least one is allowed.
pub proof fn law_search_is_bounded(query: Seq<char>, max: nat)
    ensures
        search_result(query, max).len() <= if max == 0 {
            1
        } else {
            max
        },
{
}

// ---------------------------------------------------------------------------
// Calls
// ---------------------------------------------------------------------------

/// The arguments of a call, given what their text reads as; ones that cannot be read are empty.
pub open spec fn arguments_of(parsed: Result<JsonView, Seq<char>>) -> JsonView {
    match parsed {
        Ok(j) => j,
        Err(_) => JsonView::Object(Seq::empty()),
    }
}

/// The text of the arguments of a call.
pub open spec fn arguments_text(raw: JsonView) -> Seq<char> {
    raw.at("function"@).at("arguments"@).text_or("{}"@)
}

/// The call that a value stands for.
pub open spec fn tool_call(raw: JsonView, arguments: JsonView) -> Result<CallView, Failure> {
    match (raw.at("id"@).text(), raw.at("function"@).at("name"@).text()) {
        (None, _) => Err(failure(EXIT_ARGS, "tool_call missing id"@)),
        (Some(_), None) => Err(failure(EXIT_ARGS, "tool_call missing function.name"@)),
        (Some(id), Some(name)) => Ok(CallView { id, name, arguments }),
    }
}

pub open spec fn call_result(r: AppResult<ToolCall>) -> Result<CallView, Failure> {
    match r {
        Ok(c) => Ok(c@),
        Err(e) => Err(e@),
    }
}

/// The call of a value, with what its arguments read as.
pub open spec fn call_of(raw: JsonView) -> Result<CallView, Failure> {
    tool_call(raw, arguments_of(parsed_json(arguments_text(raw))))
}

/// Puts a call together from its value and its arguments.
pub fn assemble_tool_call(raw: &Json, arguments: Json) -> (r: AppResult<ToolCall>)
    ensures
        call_result(r) == tool_call(raw@, arguments@),
{
    match text_in(raw.get("id")) {
        None => Err(AppError::new(EXIT_ARGS, "tool_call missing id")),
        Some(id) => match text_in(get_in(raw.get("function"), "name")) {
            None => Err(AppError::new(EXIT_ARGS, "tool_call missing function.name")),
            Some(name) => Ok(ToolCall { id, name, arguments }),
        },
    }
}

/// Parse a tool call from raw API JSON.
pub fn parse_tool_call(raw: &Json) -> (r: AppResult<ToolCall>)
    ensures
        call_result(r) == call_of(raw@),
{
    let text = text_in_or(get_in(raw.get("function"), "arguments"), "{}");
    let arguments = match parse_json(text.as_str()) {
        Ok(j) => j,
        Err(_) => {
            let none: Vec<(String, Json)> = Vec::new();
            proof {
                assert(field_views(none@) =~= Seq::<(Seq<char>, JsonView)>::empty());
            }
            object(none)
        },
    };
    assemble_tool_call(raw, arguments)
}

impl ToolCall {
    pub fn copy(&self) -> (r: ToolCall)
        ensures
            r@ == self@,
    {
        ToolCall {
            id: self.id.clone(),
            name: self.name.clone(),
            arguments: clone_json(&self.arguments),
        }
    }
}

} // verus!
