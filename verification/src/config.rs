//! The configuration: its settings, their text forms and the rules that they have to meet.

use crate::cli::{OutputFormat, format_name};
use crate::context::ContextStatusMode;
use crate::error::{AppError, AppResult, EXIT_CONFIG, Failure, failure};
use crate::json::{
    Json, JsonView, array, json_text, jsons, lemma_jsons_push, print_json, printed_json,
};
use crate::table::{Table, copy_table};
use crate::text::{
    blank, chars_of, clone_opt, clone_strings, decimal, decimal_string, in_list, is_blank,
    lemma_take_full, lemma_take_step, lemma_texts_push, number_of, one_of, opt_text,
    parse_number, split_once, split_once_spec, str_eq, strip_prefix, strip_prefix_spec, texts,
    trim, trimmed,
};
use vstd::prelude::*;

verus! {

#[derive(Debug)]
pub struct AppPaths {
    pub config_dir: String,
    pub data_dir: String,
    pub cache_dir: String,
    pub config_file: String,
    pub secrets_file: String,
    pub state_file: String,
}

#[derive(Debug)]
pub struct AppConfig {
    pub defaults: DefaultsConfig,
    pub session: SessionConfig,
    pub tools: ToolsConfig,
    pub audit: AuditConfig,
    pub skills: SkillsConfig,
    pub providers: Table<ProviderConfig>,
    pub models: Table<ModelConfig>,
    pub profiles: Table<ProfileConfig>,
    pub mcp: Table<McpServerConfig>,
}

#[derive(Debug)]
pub struct DefaultsConfig {
    pub provider: Option<String>,
    pub model: Option<String>,
    pub mode: Option<String>,
    pub output: Option<OutputFormat>,
    pub auto_create_session: Option<bool>,
    pub auto_save_session: Option<bool>,
    pub session_id_kind: Option<String>,
    pub tools: Option<bool>,
    pub system_prompt_file: Option<String>,
    pub system_prompt_mode: Option<String>,
    pub collapse_thinking: Option<bool>,
    pub context_status: Option<ContextStatusMode>,
}

#[derive(Debug)]
pub struct SessionConfig {
    pub store_format: Option<String>,
    pub dir: Option<String>,
}

#[derive(Debug)]
pub struct ToolsConfig {
    pub max_rounds: Option<u32>,
    pub progressive_loading: Option<bool>,
    pub mcp: Option<bool>,
}

#[derive(Debug)]
pub struct AuditConfig {
    pub enabled: Option<bool>,
    pub model: Option<String>,
    pub default_prompt_file: Option<String>,
    pub bash_prompt_file: Option<String>,
    pub edit_prompt_file: Option<String>,
}

#[derive(Debug)]
pub struct SkillsConfig {
    pub paths: Vec<String>,
}

#[derive(Debug)]
pub struct ProviderConfig {
    pub kind: String,
    pub base_url: Option<String>,
    pub api_key_env: Option<String>,
    pub headers: Table<String>,
    pub org: Option<String>,
    pub project: Option<String>,
    pub default_model: Option<String>,
    pub timeout: Option<u64>,
}

#[derive(Debug, Clone, Copy, PartialEq, Eq, Structural)]
pub struct ModelPatchConfig {
    pub system_to_user: Option<bool>,
}

/// A model; its temperature is the text of a number.
#[derive(Debug)]
pub struct ModelConfig {
    pub provider: String,
    pub remote_name: String,
    pub display_name: Option<String>,
    pub context_window: Option<u64>,
    pub max_output_tokens: Option<u32>,
    pub capabilities: Vec<String>,
    pub temperature: Option<String>,
    pub reasoning_effort: Option<String>,
    pub patches: ModelPatchConfig,
}

/// A profile; its temperature is the text of a number.
#[derive(Debug)]
pub struct ProfileConfig {
    pub provider: String,
    pub model: String,
    pub system: Option<String>,
    pub temperature: Option<String>,
    pub max_output_tokens: Option<u32>,
    pub output: Option<OutputFormat>,
    pub stream: Option<bool>,
}

/// A server of tools; its timeouts are texts of numbers of seconds.
#[derive(Debug)]
pub struct McpServerConfig {
    pub kind: Option<String>,
    pub command: String,
    pub args: Vec<String>,
    pub cwd: Option<String>,
    pub env: Table<String>,
    pub startup_timeout_sec: Option<String>,
    pub tool_timeout_sec: Option<String>,
    pub enabled: bool,
    pub enabled_tools: Vec<String>,
    pub disabled_tools: Vec<String>,
    pub description: Option<String>,
}

impl Default for McpServerConfig {
    fn default() -> (r: McpServerConfig)
        ensures
            r.kind is None,
            r.command@.len() == 0,
            r.args@.len() == 0,
            r.cwd is None,
            r.env.wf(),
            r.env.keys().len() == 0,
            r.startup_timeout_sec is None,
            r.tool_timeout_sec is None,
            r.enabled,
            r.enabled_tools@.len() == 0,
            r.disabled_tools@.len() == 0,
            r.description is None,
    {
        McpServerConfig {
            kind: None,
            command: String::new(),
            args: Vec::new(),
            cwd: None,
            env: Table::new(),
            startup_timeout_sec: None,
            tool_timeout_sec: None,
            enabled: true,
            enabled_tools: Vec::new(),
            disabled_tools: Vec::new(),
            description: None,
        }
    }
}

#[derive(Debug)]
pub struct SecretsConfig {
    pub providers: Table<ProviderSecret>,
}

#[derive(Debug)]
pub struct ProviderSecret {
    pub api_key: Option<String>,
}

/// What is known of a provider.
pub struct ProviderView {
    pub kind: Seq<char>,
    pub base_url: Option<Seq<char>>,
    pub api_key_env: Option<Seq<char>>,
    pub header_names: Seq<Seq<char>>,
    pub header_values: Seq<Seq<char>>,
    pub org: Option<Seq<char>>,
    pub project: Option<Seq<char>>,
    pub default_model: Option<Seq<char>>,
    pub timeout: Option<u64>,
}

impl View for ProviderConfig {
    type V = ProviderView;

    open spec fn view(&self) -> ProviderView {
        ProviderView {
            kind: self.kind@,
            base_url: opt_text(self.base_url),
            api_key_env: opt_text(self.api_key_env),
            header_names: self.headers.keys(),
            header_values: texts(self.headers.values()),
            org: opt_text(self.org),
            project: opt_text(self.project),
            default_model: opt_text(self.default_model),
            timeout: self.timeout,
        }
    }
}

impl ProviderConfig {
    pub fn copy(&self) -> (r: ProviderConfig)
        requires
            self.headers.wf(),
        ensures
            r@ == self@,
            r.headers.wf(),
    {
        ProviderConfig {
            kind: self.kind.clone(),
            base_url: clone_opt(&self.base_url),
            api_key_env: clone_opt(&self.api_key_env),
            headers: copy_table(&self.headers),
            org: clone_opt(&self.org),
            project: clone_opt(&self.project),
            default_model: clone_opt(&self.default_model),
            timeout: self.timeout,
        }
    }
}

/// What is known of a model.
pub struct ModelView {
    pub provider: Seq<char>,
    pub remote_name: Seq<char>,
    pub display_name: Option<Seq<char>>,
    pub context_window: Option<u64>,
    pub max_output_tokens: Option<u32>,
    pub capabilities: Seq<Seq<char>>,
    pub temperature: Option<Seq<char>>,
    pub reasoning_effort: Option<Seq<char>>,
    pub patches: ModelPatchConfig,
}

impl View for ModelConfig {
    type V = ModelView;

    open spec fn view(&self) -> ModelView {
        ModelView {
            provider: self.provider@,
            remote_name: self.remote_name@,
            display_name: opt_text(self.display_name),
            context_window: self.context_window,
            max_output_tokens: self.max_output_tokens,
            capabilities: texts(self.capabilities@),
            temperature: opt_text(self.temperature),
            reasoning_effort: opt_text(self.reasoning_effort),
            patches: self.patches,
        }
    }
}

impl ModelConfig {
    pub fn copy(&self) -> (r: ModelConfig)
        ensures
            r@ == self@,
    {
        ModelConfig {
            provider: self.provider.clone(),
            remote_name: self.remote_name.clone(),
            display_name: clone_opt(&self.display_name),
            context_window: self.context_window,
            max_output_tokens: self.max_output_tokens,
            capabilities: clone_strings(&self.capabilities),
            temperature: clone_opt(&self.temperature),
            reasoning_effort: clone_opt(&self.reasoning_effort),
            patches: self.patches,
        }
    }
}

/// The settings of a configuration.
pub struct Settings {
    pub provider: Option<Seq<char>>,
    pub model: Option<Seq<char>>,
    pub mode: Option<Seq<char>>,
    pub output: Option<OutputFormat>,
    pub auto_create: Option<bool>,
    pub auto_save: Option<bool>,
    pub id_kind: Option<Seq<char>>,
    pub tools: Option<bool>,
    pub prompt_file: Option<Seq<char>>,
    pub prompt_mode: Option<Seq<char>>,
    pub collapse: Option<bool>,
    pub context_status: Option<ContextStatusMode>,
    pub store_format: Option<Seq<char>>,
    pub dir: Option<Seq<char>>,
    pub max_rounds: Option<u32>,
    pub progressive: Option<bool>,
    pub mcp_tools: Option<bool>,
    pub audit: Option<bool>,
    pub audit_model: Option<Seq<char>>,
    pub default_prompt: Option<Seq<char>>,
    pub bash_prompt: Option<Seq<char>>,
    pub edit_prompt: Option<Seq<char>>,
    pub skills: Seq<Seq<char>>,
}

impl AppConfig {
    pub open spec fn settings(&self) -> Settings {
        Settings {
            provider: opt_text(self.defaults.provider),
            model: opt_text(self.defaults.model),
            mode: opt_text(self.defaults.mode),
            output: self.defaults.output,
            auto_create: self.defaults.auto_create_session,
            auto_save: self.defaults.auto_save_session,
            id_kind: opt_text(self.defaults.session_id_kind),
            tools: self.defaults.tools,
            prompt_file: opt_text(self.defaults.system_prompt_file),
            prompt_mode: opt_text(self.defaults.system_prompt_mode),
            collapse: self.defaults.collapse_thinking,
            context_status: self.defaults.context_status,
            store_format: opt_text(self.session.store_format),
            dir: opt_text(self.session.dir),
            max_rounds: self.tools.max_rounds,
            progressive: self.tools.progressive_loading,
            mcp_tools: self.tools.mcp,
            audit: self.audit.enabled,
            audit_model: opt_text(self.audit.model),
            default_prompt: opt_text(self.audit.default_prompt_file),
            bash_prompt: opt_text(self.audit.bash_prompt_file),
            edit_prompt: opt_text(self.audit.edit_prompt_file),
            skills: texts(self.skills.paths@),
        }
    }

    pub open spec fn wf(&self) -> bool {
        &&& self.providers.wf()
        &&& self.models.wf()
        &&& self.profiles.wf()
        &&& self.mcp.wf()
        &&& headers_wf(self.providers)
    }
}

/// Whether the headers of every provider are in order.
pub open spec fn headers_wf(t: Table<ProviderConfig>) -> bool {
    forall|i: int| 0 <= i < t.values().len() ==> (#[trigger] t.values()[i]).headers.wf()
}

/// The paths under which skills are looked for, given the directory of skills: in the project, and
/// in the home of the user.
pub open spec fn skill_paths(skills_dir: Seq<char>) -> Seq<Seq<char>> {
    seq![skills_dir, "~/"@ + skills_dir]
}

/// The settings of a configuration in which nothing was set, given the paths for skills.
pub open spec fn default_settings(skills: Seq<Seq<char>>) -> Settings {
    Settings {
        provider: None,
        model: None,
        mode: Some("auto"@),
        output: Some(OutputFormat::Line),
        auto_create: Some(true),
        auto_save: Some(true),
        id_kind: Some("ulid"@),
        tools: None,
        prompt_file: None,
        prompt_mode: Some("append"@),
        collapse: Some(false),
        context_status: None,
        store_format: Some("jsonl"@),
        dir: None,
        max_rounds: Some(20),
        progressive: Some(true),
        mcp_tools: None,
        audit: Some(false),
        audit_model: None,
        default_prompt: None,
        bash_prompt: None,
        edit_prompt: None,
        skills,
    }
}

/// A configuration in which nothing was set and no directory of skills is known.
impl Default for AppConfig {
    fn default() -> (r: AppConfig)
        ensures
            r.wf(),
            r.settings() == default_settings(Seq::empty()),
            r.providers.keys().len() == 0,
            r.models.keys().len() == 0,
            r.profiles.keys().len() == 0,
            r.mcp.keys().len() == 0,
    {
        let r = AppConfig {
            defaults: DefaultsConfig {
                provider: None,
                model: None,
                mode: Some("auto".to_owned()),
                output: Some(OutputFormat::Line),
                auto_create_session: Some(true),
                auto_save_session: Some(true),
                session_id_kind: Some("ulid".to_owned()),
                tools: None,
                system_prompt_file: None,
                system_prompt_mode: Some("append".to_owned()),
                collapse_thinking: Some(false),
                context_status: None,
            },
            session: SessionConfig { store_format: Some("jsonl".to_owned()), dir: None },
            tools: ToolsConfig {
                max_rounds: Some(20),
                progressive_loading: Some(true),
                mcp: None,
            },
            audit: AuditConfig {
                enabled: Some(false),
                model: None,
                default_prompt_file: None,
                bash_prompt_file: None,
                edit_prompt_file: None,
            },
            skills: SkillsConfig { paths: Vec::new() },
            providers: Table::new(),
            models: Table::new(),
            profiles: Table::new(),
            mcp: Table::new(),
        };
        proof {
            assert(texts(r.skills.paths@) =~= Seq::<Seq<char>>::empty());
        }
        r
    }
}

impl AppConfig {
    /// A configuration in which nothing was set, given the directory of skills, by its path below
    /// a project and below the home of the user.
    pub fn with_skills_dir(skills_dir: &str) -> (r: AppConfig)
        ensures
            r.wf(),
            r.settings() == default_settings(skill_paths(skills_dir@)),
            r.providers.keys().len() == 0,
            r.models.keys().len() == 0,
            r.profiles.keys().len() == 0,
            r.mcp.keys().len() == 0,
    {
        let mut r = AppConfig::default();
        r.skills.paths = vec![skills_dir.to_owned(), "~/".to_owned().concat(skills_dir)];
        proof {
            assert(texts(r.skills.paths@) =~= skill_paths(skills_dir@));
        }
        r
    }
}

impl Default for ProviderConfig {
    fn default() -> (r: ProviderConfig)
        ensures
            r.headers.wf(),
            r.headers.keys().len() == 0,
            r.kind@.len() == 0,
            r.base_url is None,
            r.api_key_env is None,
            r.org is None,
            r.project is None,
            r.default_model is None,
            r.timeout is None,
    {
        ProviderConfig {
            kind: String::new(),
            base_url: None,
            api_key_env: None,
            headers: Table::new(),
            org: None,
            project: None,
            default_model: None,
            timeout: None,
        }
    }
}

impl Default for ModelPatchConfig {
    fn default() -> (r: ModelPatchConfig)
        ensures
            r.system_to_user is None,
    {
        ModelPatchConfig { system_to_user: None }
    }
}

impl Default for ModelConfig {
    fn default() -> (r: ModelConfig)
        ensures
            r.provider@.len() == 0,
            r.remote_name@.len() == 0,
            r.display_name is None,
            r.context_window is None,
            r.max_output_tokens is None,
            r.capabilities@.len() == 0,
            r.temperature is None,
            r.reasoning_effort is None,
            r.patches.system_to_user is None,
    {
        ModelConfig {
            provider: String::new(),
            remote_name: String::new(),
            display_name: None,
            context_window: None,
            max_output_tokens: None,
            capabilities: Vec::new(),
            temperature: None,
            reasoning_effort: None,
            patches: ModelPatchConfig { system_to_user: None },
        }
    }
}

impl Default for SecretsConfig {
    fn default() -> (r: SecretsConfig)
        ensures
            r.providers.wf(),
            r.providers.keys().len() == 0,
    {
        SecretsConfig { providers: Table::new() }
    }
}

// ---------------------------------------------------------------------------
// Values as text
// ---------------------------------------------------------------------------

pub open spec fn bool_name(b: bool) -> Seq<char> {
    if b {
        "true"@
    } else {
        "false"@
    }
}

pub open spec fn or_text(o: Option<Seq<char>>, default: Seq<char>) -> Seq<char> {
    match o {
        Some(t) => t,
        None => default,
    }
}

pub open spec fn or_flag(o: Option<bool>, default: bool) -> bool {
    match o {
        Some(b) => b,
        None => default,
    }
}

pub fn flag_or(o: Option<bool>, default: bool) -> (r: bool)
    ensures
        r == or_flag(o, default),
{
    match o {
        Some(b) => b,
        None => default,
    }
}

fn text_of(o: &Option<String>, default: &str) -> (r: String)
    ensures
        r@ == or_text(opt_text(*o), default@),
{
    match o {
        Some(t) => t.clone(),
        None => default.to_owned(),
    }
}

fn flag_name(o: Option<bool>, default: bool) -> (r: String)
    ensures
        r@ == bool_name(or_flag(o, default)),
{
    let b = match o {
        Some(b) => b,
        None => default,
    };
    if b {
        "true".to_owned()
    } else {
        "false".to_owned()
    }
}

/// The words for a switch that is on, and for one that is off.
pub open spec fn bool_of(s: Seq<char>) -> Result<bool, Failure> {
    if in_list(s, seq!["1", "true", "yes", "on"]) {
        Ok(true)
    } else if in_list(s, seq!["0", "false", "no", "off"]) {
        Ok(false)
    } else {
        Err(failure(EXIT_CONFIG, "invalid boolean value `"@ + s + "`"@))
    }
}

pub open spec fn flag_result(r: AppResult<bool>) -> Result<bool, Failure> {
    match r {
        Ok(b) => Ok(b),
        Err(e) => Err(e@),
    }
}

pub fn parse_bool(value: &str) -> (r: AppResult<bool>)
    ensures
        flag_result(r) == bool_of(value@),
{
    let on = ["1", "true", "yes", "on"];
    let off = ["0", "false", "no", "off"];
    proof {
        assert(on@ =~= seq!["1", "true", "yes", "on"]);
        assert(off@ =~= seq!["0", "false", "no", "off"]);
    }
    if one_of(value, &on) {
        Ok(true)
    } else if one_of(value, &off) {
        Ok(false)
    } else {
        let message = "invalid boolean value `".to_owned().concat(value).concat("`");
        Err(AppError::new(EXIT_CONFIG, message.as_str()))
    }
}

pub open spec fn format_of(s: Seq<char>) -> Result<OutputFormat, Failure> {
    if s == "line"@ {
        Ok(OutputFormat::Line)
    } else if s == "text"@ {
        Ok(OutputFormat::Text)
    } else if s == "json"@ {
        Ok(OutputFormat::Json)
    } else if s == "ndjson"@ {
        Ok(OutputFormat::Ndjson)
    } else {
        Err(failure(EXIT_CONFIG, "unsupported output format `"@ + s + "`"@))
    }
}

pub open spec fn format_result(r: AppResult<OutputFormat>) -> Result<OutputFormat, Failure> {
    match r {
        Ok(f) => Ok(f),
        Err(e) => Err(e@),
    }
}

pub fn parse_output_format(value: &str) -> (r: AppResult<OutputFormat>)
    ensures
        format_result(r) == format_of(value@),
{
    if str_eq(value, "line") {
        Ok(OutputFormat::Line)
    } else if str_eq(value, "text") {
        Ok(OutputFormat::Text)
    } else if str_eq(value, "json") {
        Ok(OutputFormat::Json)
    } else if str_eq(value, "ndjson") {
        Ok(OutputFormat::Ndjson)
    } else {
        let message = "unsupported output format `".to_owned().concat(value).concat("`");
        Err(AppError::new(EXIT_CONFIG, message.as_str()))
    }
}

/// The number of rounds that a text gives.
pub open spec fn rounds_of(s: Seq<char>) -> Result<u32, Failure> {
    match number_of(s, u32::MAX as nat) {
        None => Err(failure(EXIT_CONFIG, "tools.max_rounds must be a positive integer"@)),
        Some(n) => if n == 0 {
            Err(failure(EXIT_CONFIG, "tools.max_rounds must be greater than 0"@))
        } else {
            Ok(n as u32)
        },
    }
}

pub open spec fn rounds_result(r: AppResult<u32>) -> Result<u32, Failure> {
    match r {
        Ok(n) => Ok(n),
        Err(e) => Err(e@),
    }
}

/// Reads a number of rounds.
pub fn parse_u32(value: &str) -> (r: AppResult<u32>)
    ensures
        rounds_result(r) == rounds_of(value@),
{
    match parse_number(value, u32::MAX as u64) {
        None => Err(AppError::new(EXIT_CONFIG, "tools.max_rounds must be a positive integer")),
        Some(n) => {
            if n == 0 {
                Err(AppError::new(EXIT_CONFIG, "tools.max_rounds must be greater than 0"))
            } else {
                Ok(n as u32)
            }
        },
    }
}

pub open spec fn optional_path(s: Seq<char>) -> Option<Seq<char>> {
    if is_blank(s) {
        None
    } else {
        Some(trimmed(s))
    }
}

pub fn normalize_optional_path(value: &str) -> (r: Option<String>)
    ensures
        opt_text(r) == optional_path(value@),
{
    let t = trim(value);
    if t.as_str().is_empty() {
        None
    } else {
        Some(t)
    }
}

/// What the `serde_json` crate reads from a text as a list of strings: the strings, or the
/// message of its error.
pub uninterp spec fn parsed_strings(s: Seq<char>) -> Result<Seq<Seq<char>>, Seq<char>>;

/// `serde_json::from_str` for a list of strings. What is read, and what the error says, depends
/// on the text alone.
#[verifier::external_body]
fn parse_strings(text: &str) -> (r: Result<Vec<String>, String>)
    ensures
        match r {
            Ok(v) => parsed_strings(text@) == Ok::<Seq<Seq<char>>, Seq<char>>(texts(v@)),
            Err(message) => parsed_strings(text@) == Err::<Seq<Seq<char>>, Seq<char>>(message@),
        },
{
    serde_json::from_str::<Vec<String>>(text).map_err(|err| err.to_string())
}

/// A list of strings as JSON.
pub fn strings_json(v: &Vec<String>) -> (r: Json)
    ensures
        r@ == JsonView::Array(texts(v@).map_values(|p: Seq<char>| JsonView::Str(p))),
{
    let ghost goal = texts(v@).map_values(|p: Seq<char>| JsonView::Str(p));
    let mut out: Vec<Json> = Vec::new();
    let mut i: usize = 0;
    proof {
        assert(jsons(out@) =~= goal.take(0));
    }
    while i < v.len()
        invariant
            i <= v@.len(),
            goal == texts(v@).map_values(|p: Seq<char>| JsonView::Str(p)),
            jsons(out@) == goal.take(i as int),
        decreases v@.len() - i,
    {
        let item = json_text(v[i].as_str());
        proof {
            lemma_take_step(goal, i as int);
            lemma_jsons_push(out@, item);
        }
        out.push(item);
        i = i + 1;
    }
    proof {
        lemma_take_full(goal);
    }
    array(out)
}

// ---------------------------------------------------------------------------
// Settings by name
// ---------------------------------------------------------------------------

/// The text form of a setting; an unset one shows its default.
pub open spec fn setting_text(st: Settings, key: Seq<char>) -> Result<Seq<char>, Failure> {
    if key == "defaults.provider"@ {
        Ok(or_text(st.provider, Seq::empty()))
    } else if key == "defaults.model"@ {
        Ok(or_text(st.model, Seq::empty()))
    } else if key == "defaults.mode"@ {
        Ok(or_text(st.mode, Seq::empty()))
    } else if key == "defaults.output"@ {
        Ok(format_name(match st.output { Some(f) => f, None => OutputFormat::Line }))
    } else if key == "defaults.auto_create_session"@ {
        Ok(bool_name(or_flag(st.auto_create, true)))
    } else if key == "defaults.auto_save_session"@ {
        Ok(bool_name(or_flag(st.auto_save, true)))
    } else if key == "defaults.tools"@ {
        Ok(bool_name(or_flag(st.tools, false)))
    } else if key == "defaults.system_prompt_file"@ {
        Ok(or_text(st.prompt_file, Seq::empty()))
    } else if key == "defaults.system_prompt_mode"@ {
        Ok(or_text(st.prompt_mode, "append"@))
    } else if key == "defaults.collapse_thinking"@ {
        Ok(bool_name(or_flag(st.collapse, false)))
    } else if key == "session.store_format"@ {
        Ok(or_text(st.store_format, "jsonl"@))
    } else if key == "session.dir"@ {
        Ok(or_text(st.dir, Seq::empty()))
    } else if key == "tools.max_rounds"@ {
        Ok(decimal(match st.max_rounds { Some(n) => n as nat, None => 20 }))
    } else if key == "tools.progressive_loading"@ {
        Ok(bool_name(or_flag(st.progressive, true)))
    } else if key == "audit.enabled"@ {
        Ok(bool_name(or_flag(st.audit, false)))
    } else if key == "audit.model"@ {
        Ok(or_text(st.audit_model, Seq::empty()))
    } else if key == "audit.default_prompt_file"@ {
        Ok(or_text(st.default_prompt, Seq::empty()))
    } else if key == "audit.bash_prompt_file"@ {
        Ok(or_text(st.bash_prompt, Seq::empty()))
    } else if key == "audit.edit_prompt_file"@ {
        Ok(or_text(st.edit_prompt, Seq::empty()))
    } else if key == "skills.paths"@ {
        Ok(printed_json(JsonView::Array(st.skills.map_values(|p: Seq<char>| JsonView::Str(p)))))
    } else {
        Err(failure(EXIT_CONFIG, "unsupported config key `"@ + key + "`"@))
    }
}

/// The settings after one was set by name.
pub open spec fn with_setting(st: Settings, key: Seq<char>, value: Seq<char>) -> Result<
    Settings,
    Failure,
> {
    if key == "defaults.provider"@ {
        Ok(Settings { provider: Some(value), ..st })
    } else if key == "defaults.model"@ {
        Ok(Settings { model: Some(value), ..st })
    } else if key == "defaults.mode"@ {
        Ok(Settings { mode: Some(value), ..st })
    } else if key == "defaults.output"@ {
        match format_of(value) { Ok(f) => Ok(Settings { output: Some(f), ..st }), Err(e) => Err(e) }
    } else if key == "defaults.auto_create_session"@ {
        match bool_of(value) { Ok(b) => Ok(Settings { auto_create: Some(b), ..st }), Err(e) => Err(e) }
    } else if key == "defaults.auto_save_session"@ {
        match bool_of(value) { Ok(b) => Ok(Settings { auto_save: Some(b), ..st }), Err(e) => Err(e) }
    } else if key == "defaults.tools"@ {
        match bool_of(value) { Ok(b) => Ok(Settings { tools: Some(b), ..st }), Err(e) => Err(e) }
    } else if key == "defaults.system_prompt_file"@ {
        Ok(Settings { prompt_file: Some(value), ..st })
    } else if key == "defaults.system_prompt_mode"@ {
        if value == "append"@ || value == "override"@ {
            Ok(Settings { prompt_mode: Some(value), ..st })
        } else {
            Err(failure(EXIT_CONFIG, "system_prompt_mode must be 'append' or 'override'"@))
        }
    } else if key == "defaults.collapse_thinking"@ {
        match bool_of(value) { Ok(b) => Ok(Settings { collapse: Some(b), ..st }), Err(e) => Err(e) }
    } else if key == "session.store_format"@ {
        Ok(Settings { store_format: Some(value), ..st })
    } else if key == "session.dir"@ {
        Ok(Settings { dir: Some(value), ..st })
    } else if key == "tools.max_rounds"@ {
        match rounds_of(value) { Ok(n) => Ok(Settings { max_rounds: Some(n), ..st }), Err(e) => Err(e) }
    } else if key == "tools.progressive_loading"@ {
        match bool_of(value) { Ok(b) => Ok(Settings { progressive: Some(b), ..st }), Err(e) => Err(e) }
    } else if key == "audit.enabled"@ {
        match bool_of(value) { Ok(b) => Ok(Settings { audit: Some(b), ..st }), Err(e) => Err(e) }
    } else if key == "audit.model"@ {
        Ok(Settings { audit_model: if is_blank(value) { None } else { Some(value) }, ..st })
    } else if key == "audit.default_prompt_file"@ {
        Ok(Settings { default_prompt: optional_path(value), ..st })
    } else if key == "audit.bash_prompt_file"@ {
        Ok(Settings { bash_prompt: optional_path(value), ..st })
    } else if key == "audit.edit_prompt_file"@ {
        Ok(Settings { edit_prompt: optional_path(value), ..st })
    } else if key == "skills.paths"@ {
        match parsed_strings(value) {
            Ok(paths) => Ok(Settings { skills: paths, ..st }),
            Err(text) => Err(failure(EXIT_CONFIG, "skills.paths must be a JSON string array: "@ + text)),
        }
    } else {
        Err(failure(EXIT_CONFIG, "unsupported config key `"@ + key + "`"@))
    }
}

pub open spec fn text_result(r: AppResult<String>) -> Result<Seq<char>, Failure> {
    match r {
        Ok(t) => Ok(t@),
        Err(e) => Err(e@),
    }
}

pub fn render_config_value(config: &AppConfig, key: &str) -> (r: AppResult<String>)
    ensures
        text_result(r) == setting_text(config.settings(), key@),
{
    proof {
        reveal_strlit("");
        assert(""@ =~= Seq::<char>::empty());
    }
    if str_eq(key, "defaults.provider") {
        Ok(text_of(&config.defaults.provider, ""))
    } else if str_eq(key, "defaults.model") {
        Ok(text_of(&config.defaults.model, ""))
    } else if str_eq(key, "defaults.mode") {
        Ok(text_of(&config.defaults.mode, ""))
    } else if str_eq(key, "defaults.output") {
        Ok((match config.defaults.output { Some(f) => f, None => OutputFormat::Line }).as_str().to_owned())
    } else if str_eq(key, "defaults.auto_create_session") {
        Ok(flag_name(config.defaults.auto_create_session, true))
    } else if str_eq(key, "defaults.auto_save_session") {
        Ok(flag_name(config.defaults.auto_save_session, true))
    } else if str_eq(key, "defaults.tools") {
        Ok(flag_name(config.defaults.tools, false))
    } else if str_eq(key, "defaults.system_prompt_file") {
        Ok(text_of(&config.defaults.system_prompt_file, ""))
    } else if str_eq(key, "defaults.system_prompt_mode") {
        Ok(text_of(&config.defaults.system_prompt_mode, "append"))
    } else if str_eq(key, "defaults.collapse_thinking") {
        Ok(flag_name(config.defaults.collapse_thinking, false))
    } else if str_eq(key, "session.store_format") {
        Ok(text_of(&config.session.store_format, "jsonl"))
    } else if str_eq(key, "session.dir") {
        Ok(text_of(&config.session.dir, ""))
    } else if str_eq(key, "tools.max_rounds") {
        Ok(decimal_string(match config.tools.max_rounds { Some(n) => n as u64, None => 20 }))
    } else if str_eq(key, "tools.progressive_loading") {
        Ok(flag_name(config.tools.progressive_loading, true))
    } else if str_eq(key, "audit.enabled") {
        Ok(flag_name(config.audit.enabled, false))
    } else if str_eq(key, "audit.model") {
        Ok(text_of(&config.audit.model, ""))
    } else if str_eq(key, "audit.default_prompt_file") {
        Ok(text_of(&config.audit.default_prompt_file, ""))
    } else if str_eq(key, "audit.bash_prompt_file") {
        Ok(text_of(&config.audit.bash_prompt_file, ""))
    } else if str_eq(key, "audit.edit_prompt_file") {
        Ok(text_of(&config.audit.edit_prompt_file, ""))
    } else if str_eq(key, "skills.paths") {
        Ok(print_json(&strings_json(&config.skills.paths)))
    } else {
        let message = "unsupported config key `".to_owned().concat(key).concat("`");
        Err(AppError::new(EXIT_CONFIG, message.as_str()))
    }
}

pub fn set_config_value(config: &mut AppConfig, key: &str, value: &str) -> (r: AppResult<()>)
    ensures
        match with_setting(old(config).settings(), key@, value@) {
            Ok(st) => r is Ok && final(config).settings() == st,
            Err(e) => r matches Err(x) && x@ == e && final(config).settings() == old(
                config,
            ).settings(),
        },
        final(config).providers == old(config).providers,
        final(config).models == old(config).models,
        final(config).profiles == old(config).profiles,
        final(config).mcp == old(config).mcp,
{
    if str_eq(key, "defaults.provider") {
        config.defaults.provider = Some(value.to_owned());
    } else if str_eq(key, "defaults.model") {
        config.defaults.model = Some(value.to_owned());
    } else if str_eq(key, "defaults.mode") {
        config.defaults.mode = Some(value.to_owned());
    } else if str_eq(key, "defaults.output") {
        config.defaults.output = Some(parse_output_format(value)?);
    } else if str_eq(key, "defaults.auto_create_session") {
        config.defaults.auto_create_session = Some(parse_bool(value)?);
    } else if str_eq(key, "defaults.auto_save_session") {
        config.defaults.auto_save_session = Some(parse_bool(value)?);
    } else if str_eq(key, "defaults.tools") {
        config.defaults.tools = Some(parse_bool(value)?);
    } else if str_eq(key, "defaults.system_prompt_file") {
        config.defaults.system_prompt_file = Some(value.to_owned());
    } else if str_eq(key, "defaults.system_prompt_mode") {
        if str_eq(value, "append") || str_eq(value, "override") {
            config.defaults.system_prompt_mode = Some(value.to_owned());
        } else {
            return Err(AppError::new(EXIT_CONFIG, "system_prompt_mode must be 'append' or 'override'"));
        }
    } else if str_eq(key, "defaults.collapse_thinking") {
        config.defaults.collapse_thinking = Some(parse_bool(value)?);
    } else if str_eq(key, "session.store_format") {
        config.session.store_format = Some(value.to_owned());
    } else if str_eq(key, "session.dir") {
        config.session.dir = Some(value.to_owned());
    } else if str_eq(key, "tools.max_rounds") {
        config.tools.max_rounds = Some(parse_u32(value)?);
    } else if str_eq(key, "tools.progressive_loading") {
        config.tools.progressive_loading = Some(parse_bool(value)?);
    } else if str_eq(key, "audit.enabled") {
        config.audit.enabled = Some(parse_bool(value)?);
    } else if str_eq(key, "audit.model") {
        config.audit.model = if blank(value) { None } else { Some(value.to_owned()) };
    } else if str_eq(key, "audit.default_prompt_file") {
        config.audit.default_prompt_file = normalize_optional_path(value);
    } else if str_eq(key, "audit.bash_prompt_file") {
        config.audit.bash_prompt_file = normalize_optional_path(value);
    } else if str_eq(key, "audit.edit_prompt_file") {
        config.audit.edit_prompt_file = normalize_optional_path(value);
    } else if str_eq(key, "skills.paths") {
        match parse_strings(value) {
            Ok(paths) => config.skills.paths = paths,
            Err(text) => {
                let message = "skills.paths must be a JSON string array: ".to_owned().concat(text.as_str());
                return Err(AppError::new(EXIT_CONFIG, message.as_str()));
            },
        }
    } else {
        let message = "unsupported config key `".to_owned().concat(key).concat("`");
        return Err(AppError::new(EXIT_CONFIG, message.as_str()));
    }
    Ok(())
}

/// How a value is shown once it was set.
pub open spec fn shown_value(key: Seq<char>, value: Seq<char>) -> Seq<char> {
    if key == "defaults.provider"@ || key == "defaults.model"@ || key == "defaults.mode"@ || key == "defaults.output"@ {
        value
    } else if key == "defaults.auto_create_session"@ || key == "defaults.auto_save_session"@ || key == "defaults.tools"@ {
        bool_name(bool_of(value)->Ok_0)
    } else if key == "defaults.system_prompt_file"@ || key == "defaults.system_prompt_mode"@ {
        value
    } else if key == "defaults.collapse_thinking"@ {
        bool_name(bool_of(value)->Ok_0)
    } else if key == "session.store_format"@ || key == "session.dir"@ {
        value
    } else if key == "tools.max_rounds"@ {
        decimal(rounds_of(value)->Ok_0 as nat)
    } else if key == "tools.progressive_loading"@ || key == "audit.enabled"@ {
        bool_name(bool_of(value)->Ok_0)
    } else if key == "audit.model"@ {
        if is_blank(value) {
            Seq::empty()
        } else {
            value
        }
    } else if key == "audit.default_prompt_file"@ || key == "audit.bash_prompt_file"@ || key == "audit.edit_prompt_file"@ {
        trimmed(value)
    } else {
        printed_json(
            JsonView::Array(
                parsed_strings(value)->Ok_0.map_values(|p: Seq<char>| JsonView::Str(p)),
            ),
        )
    }
}

/// What was set is what is shown: a setting that was accepted is shown in its plain form.
#[verifier::rlimit(50)]
pub proof fn law_set_is_shown(st: Settings, key: Seq<char>, value: Seq<char>)
    requires
        with_setting(st, key, value) is Ok,
    ensures
        setting_text(with_setting(st, key, value)->Ok_0, key) == Ok::<Seq<char>, Failure>(
            shown_value(key, value),
        ),
{
    assert(optional_path(value) is None ==> trimmed(value) =~= Seq::<char>::empty());
}

/// Setting one key leaves what every other key shows.
#[verifier::rlimit(50)]
pub proof fn law_set_keeps_others(st: Settings, key: Seq<char>, value: Seq<char>, other: Seq<char>)
    requires
        with_setting(st, key, value) is Ok,
        other != key,
    ensures
        setting_text(with_setting(st, key, value)->Ok_0, other) == setting_text(st, other),
{
}

/// Exactly the keys that can be shown can be set to something.
pub proof fn law_unknown_key(st: Settings, key: Seq<char>, value: Seq<char>)
    requires
        setting_text(st, key) is Err,
    ensures
        with_setting(st, key, value) == Err::<Settings, Failure>(
            failure(EXIT_CONFIG, "unsupported config key `"@ + key + "`"@),
        ),
{
}

// ---------------------------------------------------------------------------
// Rules
// ---------------------------------------------------------------------------

pub open spec fn known_kind(kind: Seq<char>) -> bool {
    kind == "openai_compatible"@ || kind == "anthropic"@ || kind == "ollama"@
}

pub fn is_known_kind(kind: &str) -> (r: bool)
    ensures
        r == known_kind(kind@),
{
    str_eq(kind, "openai_compatible") || str_eq(kind, "anthropic") || str_eq(kind, "ollama")
}

pub open spec fn default_provider_issues(c: AppConfig) -> Seq<Seq<char>> {
    match c.defaults.provider {
        Some(p) => if c.providers.has(p@) {
            Seq::empty()
        } else {
            seq!["defaults.provider references missing provider `"@ + p@ + "`"@]
        },
        None => Seq::empty(),
    }
}

pub open spec fn default_model_issues(c: AppConfig) -> Seq<Seq<char>> {
    match c.defaults.model {
        None => Seq::empty(),
        Some(m) => match c.models.lookup(m@) {
            None => seq!["defaults.model references missing model `"@ + m@ + "`"@],
            Some(model) => match c.defaults.provider {
                Some(p) => if model.provider@ == p@ {
                    Seq::empty()
                } else {
                    seq![
                        "defaults.model `"@ + m@ + "` belongs to provider `"@ + model.provider@
                            + "`, not defaults.provider `"@ + p@ + "`"@,
                    ]
                },
                None => Seq::empty(),
            },
        },
    }
}

/// The issues of the first `i` providers.
pub open spec fn provider_issues(c: AppConfig, i: int) -> Seq<Seq<char>>
    decreases i,
{
    if i <= 0 {
        Seq::empty()
    } else {
        let kind = c.providers.values()[i - 1].kind@;
        if known_kind(kind) {
            provider_issues(c, i - 1)
        } else {
            provider_issues(c, i - 1).push(
                "provider `"@ + c.providers.keys()[i - 1] + "` has unsupported kind `"@ + kind
                    + "`"@,
            )
        }
    }
}

/// The issues of the first `i` models.
pub open spec fn model_issues(c: AppConfig, i: int) -> Seq<Seq<char>>
    decreases i,
{
    if i <= 0 {
        Seq::empty()
    } else {
        let provider = c.models.values()[i - 1].provider@;
        if c.providers.has(provider) {
            model_issues(c, i - 1)
        } else {
            model_issues(c, i - 1).push(
                "model `"@ + c.models.keys()[i - 1] + "` references missing provider `"@ + provider
                    + "`"@,
            )
        }
    }
}

pub open spec fn audit_issues(c: AppConfig) -> Seq<Seq<char>> {
    match c.audit.model {
        Some(m) => if !is_blank(m@) && !c.models.has(m@) {
            seq!["audit.model references missing model `"@ + m@ + "`"@]
        } else {
            Seq::empty()
        },
        None => Seq::empty(),
    }
}

/// What is wrong with a configuration: names of providers and models that are not there, and
/// kinds of providers that are not known.
pub open spec fn config_issues(c: AppConfig) -> Seq<Seq<char>> {
    default_provider_issues(c) + default_model_issues(c) + provider_issues(
        c,
        c.providers.keys().len() as int,
    ) + model_issues(c, c.models.keys().len() as int) + audit_issues(c)
}

fn push_issue(issues: &mut Vec<String>, issue: String)
    ensures
        texts(final(issues)@) == texts(old(issues)@).push(issue@),
{
    proof {
        lemma_texts_push(issues@, issue);
    }
    issues.push(issue);
}

pub fn validate_config(config: &AppConfig) -> (r: Vec<String>)
    requires
        config.wf(),
    ensures
        texts(r@) == config_issues(*config),
{
    let mut issues: Vec<String> = Vec::new();
    let ghost e = Seq::<Seq<char>>::empty();
    proof {
        assert(texts(issues@) =~= e);
    }
    if let Some(p) = &config.defaults.provider {
        if !config.providers.contains_key(p.as_str()) {
            push_issue(
                &mut issues,
                "defaults.provider references missing provider `".to_owned().concat(
                    p.as_str(),
                ).concat("`"),
            );
        }
    }
    let ghost part1 = default_provider_issues(*config);
    proof {
        assert(texts(issues@) =~= part1);
    }
    if let Some(m) = &config.defaults.model {
        match config.models.get(m.as_str()) {
            Some(model) => {
                if let Some(p) = &config.defaults.provider {
                    if !str_eq(model.provider.as_str(), p.as_str()) {
                        push_issue(
                            &mut issues,
                            "defaults.model `".to_owned().concat(m.as_str()).concat(
                                "` belongs to provider `",
                            ).concat(model.provider.as_str()).concat(
                                "`, not defaults.provider `",
                            ).concat(p.as_str()).concat("`"),
                        );
                    }
                }
            },
            None => push_issue(
                &mut issues,
                "defaults.model references missing model `".to_owned().concat(m.as_str()).concat(
                    "`",
                ),
            ),
        }
    }
    let ghost part2 = part1 + default_model_issues(*config);
    proof {
        assert(texts(issues@) =~= part2);
        assert(part2 + provider_issues(*config, 0) =~= part2);
    }
    let np: usize = config.providers.len();
    let mut i: usize = 0;
    while i < np
        invariant
            i <= np,
            np == config.providers.keys().len(),
            config.wf(),
            texts(issues@) == part2 + provider_issues(*config, i as int),
        decreases np - i,
    {
        let provider = config.providers.value_at(i);
        if !is_known_kind(provider.kind.as_str()) {
            push_issue(
                &mut issues,
                "provider `".to_owned().concat(config.providers.key_at(i)).concat(
                    "` has unsupported kind `",
                ).concat(provider.kind.as_str()).concat("`"),
            );
        }
        i = i + 1;
        proof {
            assert(texts(issues@) =~= part2 + provider_issues(*config, i as int));
        }
    }
    let ghost part3 = part2 + provider_issues(*config, np as int);
    proof {
        assert(part3 + model_issues(*config, 0) =~= part3);
    }
    let nm: usize = config.models.len();
    let mut k: usize = 0;
    while k < nm
        invariant
            k <= nm,
            nm == config.models.keys().len(),
            config.wf(),
            texts(issues@) == part3 + model_issues(*config, k as int),
        decreases nm - k,
    {
        let model = config.models.value_at(k);
        if !config.providers.contains_key(model.provider.as_str()) {
            push_issue(
                &mut issues,
                "model `".to_owned().concat(config.models.key_at(k)).concat(
                    "` references missing provider `",
                ).concat(model.provider.as_str()).concat("`"),
            );
        }
        k = k + 1;
        proof {
            assert(texts(issues@) =~= part3 + model_issues(*config, k as int));
        }
    }
    if let Some(m) = &config.audit.model {
        if !blank(m.as_str()) && !config.models.contains_key(m.as_str()) {
            push_issue(
                &mut issues,
                "audit.model references missing model `".to_owned().concat(m.as_str()).concat("`"),
            );
        }
    }
    proof {
        assert(texts(issues@) =~= config_issues(*config));
    }
    issues
}

/// The headers that `KEY=VALUE` texts give, keys and values trimmed; the last of a key counts.
pub open spec fn header_map(headers: Seq<Seq<char>>) -> Result<Map<Seq<char>, Seq<char>>, Failure>
    decreases headers.len(),
{
    if headers.len() == 0 {
        Ok(Map::empty())
    } else {
        match header_map(headers.drop_last()) {
            Err(e) => Err(e),
            Ok(m) => match split_once_spec(headers.last(), "="@) {
                None => Err(
                    failure(
                        EXIT_CONFIG,
                        "invalid header `"@ + headers.last() + "`, expected KEY=VALUE"@,
                    ),
                ),
                Some((key, value)) => Ok(m.insert(trimmed(key), trimmed(value))),
            },
        }
    }
}

proof fn lemma_header_error(headers: Seq<Seq<char>>, i: int)
    requires
        0 <= i <= headers.len(),
        header_map(headers.take(i)) is Err,
    ensures
        header_map(headers) == header_map(headers.take(i)),
    decreases headers.len() - i,
{
    if i == headers.len() {
        lemma_take_full(headers);
    } else {
        lemma_take_step(headers, i);
        lemma_header_error(headers, i + 1);
    }
}

/// Whether a table of strings holds the entries of a map.
pub open spec fn holds(t: Table<String>, m: Map<Seq<char>, Seq<char>>) -> bool {
    &&& t.wf()
    &&& forall|k: Seq<char>| #[trigger] t.has(k) <==> m.contains_key(k)
    &&& forall|k: Seq<char>|
        m.contains_key(k) ==> (#[trigger] t.lookup(k) matches Some(v) && v@ == m[k])
}

pub fn parse_headers(headers: &Vec<String>) -> (r: AppResult<Table<String>>)
    ensures
        match header_map(texts(headers@)) {
            Ok(m) => r matches Ok(t) && holds(t, m),
            Err(e) => r matches Err(x) && x@ == e,
        },
{
    let mut map: Table<String> = Table::new();
    let ghost src = texts(headers@);
    let ghost mut model = Map::<Seq<char>, Seq<char>>::empty();
    let mut i: usize = 0;
    while i < headers.len()
        invariant
            i <= headers@.len(),
            src == texts(headers@),
            holds(map, model),
            header_map(src.take(i as int)) == Ok::<Map<Seq<char>, Seq<char>>, Failure>(model),
        decreases headers@.len() - i,
    {
        proof {
            lemma_take_step(src, i as int);
        }
        match split_once(headers[i].as_str(), "=") {
            None => {
                proof {
                    lemma_header_error(src, i + 1);
                }
                let message = "invalid header `".to_owned().concat(headers[i].as_str()).concat(
                    "`, expected KEY=VALUE",
                );
                return Err(AppError::new(EXIT_CONFIG, message.as_str()));
            },
            Some((key, value)) => {
                let k = trim(key.as_str());
                let v = trim(value.as_str());
                map.insert(k.as_str(), v);
                proof {
                    model = model.insert(trimmed(key@), trimmed(value@));
                }
            },
        }
        i = i + 1;
    }
    proof {
        lemma_take_full(src);
    }
    Ok(map)
}

// ---------------------------------------------------------------------------
// Places
// ---------------------------------------------------------------------------

/// A path below another one; an absolute path stands for itself.
pub open spec fn joined_path(base: Seq<char>, rest: Seq<char>) -> Seq<char> {
    if (rest.len() > 0 && rest[0] == '/') || base.len() == 0 {
        rest
    } else if base.last() == '/' {
        base + rest
    } else {
        base + "/"@ + rest
    }
}

pub fn join_path(base: &str, rest: &str) -> (r: String)
    ensures
        r@ == joined_path(base@, rest@),
{
    let c = chars_of(rest);
    let b = chars_of(base);
    if (c.len() > 0 && c[0] == '/') || b.len() == 0 {
        rest.to_owned()
    } else if b[b.len() - 1] == '/' {
        base.to_owned().concat(rest)
    } else {
        base.to_owned().concat("/").concat(rest)
    }
}

/// A path with `~/` in front stands below the home directory, where that is known.
pub open spec fn expanded(input: Seq<char>, home: Option<Seq<char>>) -> Seq<char> {
    match (strip_prefix_spec(input, "~/"@), home) {
        (Some(rest), Some(h)) => joined_path(h, rest),
        _ => input,
    }
}

pub fn expand_tilde(input: &str, home: &Option<String>) -> (r: String)
    ensures
        r@ == expanded(input@, opt_text(*home)),
{
    if let Some(rest) = strip_prefix(input, "~/") {
        if let Some(h) = home {
            return join_path(h.as_str(), rest.as_str());
        }
    }
    input.to_owned()
}

/// The directory of the program below a base directory that an environment variable or the
/// home directory gives.
pub open spec fn base_dir(
    wanted: Option<Seq<char>>,
    variable: Option<Seq<char>>,
    home: Seq<char>,
    below: Seq<char>,
) -> Seq<char> {
    match wanted {
        Some(dir) => dir,
        None => match variable {
            Some(dir) => joined_path(dir, "chat-cli"@),
            None => joined_path(joined_path(home, below), "chat-cli"@),
        },
    }
}

fn pick_dir(wanted: Option<String>, variable: Option<String>, home: &str, below: &str) -> (r: String)
    ensures
        r@ == base_dir(opt_text(wanted), opt_text(variable), home@, below@),
{
    match wanted {
        Some(dir) => dir,
        None => match variable {
            Some(dir) => join_path(dir.as_str(), "chat-cli"),
            None => {
                let base = join_path(home, below);
                join_path(base.as_str(), "chat-cli")
            },
        },
    }
}

/// The variables of the environment that say where files go.
#[derive(Debug)]
pub struct PathVariables {
    pub home: Option<String>,
    pub config_home: Option<String>,
    pub data_home: Option<String>,
    pub cache_home: Option<String>,
}

impl AppPaths {
    pub fn from_overrides(
        config_dir: Option<String>,
        data_dir: Option<String>,
        vars: PathVariables,
    ) -> (r: AppResult<AppPaths>)
        ensures
            match opt_text(vars.home) {
                None => r matches Err(e) && e@ == failure(EXIT_CONFIG, "HOME is not set"@),
                Some(home) => r matches Ok(p) && {
                    &&& p.config_dir@ == base_dir(
                        opt_text(config_dir),
                        opt_text(vars.config_home),
                        home,
                        ".config"@,
                    )
                    &&& p.data_dir@ == base_dir(
                        opt_text(data_dir),
                        opt_text(vars.data_home),
                        home,
                        ".local/share"@,
                    )
                    &&& p.cache_dir@ == base_dir(None, opt_text(vars.cache_home), home, ".cache"@)
                    &&& p.config_file@ == joined_path(p.config_dir@, "config.toml"@)
                    &&& p.secrets_file@ == joined_path(p.config_dir@, "secrets.toml"@)
                    &&& p.state_file@ == joined_path(p.data_dir@, "state.toml"@)
                },
            },
    {
        match vars.home {
            None => Err(AppError::new(EXIT_CONFIG, "HOME is not set")),
            Some(home) => {
                let h = home.as_str();
                let config = pick_dir(config_dir, vars.config_home, h, ".config");
                let data = pick_dir(data_dir, vars.data_home, h, ".local/share");
                let cache = pick_dir(None, vars.cache_home, h, ".cache");
                Ok(
                    AppPaths {
                        config_file: join_path(config.as_str(), "config.toml"),
                        secrets_file: join_path(config.as_str(), "secrets.toml"),
                        state_file: join_path(data.as_str(), "state.toml"),
                        config_dir: config,
                        data_dir: data,
                        cache_dir: cache,
                    },
                )
            },
        }
    }

    pub fn sessions_dir(&self, config: &AppConfig, home: &Option<String>) -> (r: String)
        ensures
            r@ == match opt_text(config.session.dir) {
                Some(dir) => expanded(dir, opt_text(*home)),
                None => joined_path(self.data_dir@, "sessions"@),
            },
    {
        match &config.session.dir {
            Some(dir) => expand_tilde(dir.as_str(), home),
            None => join_path(self.data_dir.as_str(), "sessions"),
        }
    }
}

/// The path of a prompt file that comes with the program.
pub open spec fn prompt_path(config_dir: Seq<char>, name: Seq<char>) -> Seq<char> {
    joined_path(joined_path(config_dir, "prompts"@), name)
}

pub fn default_audit_prompt_path(paths: &AppPaths, file_name: &str) -> (r: String)
    ensures
        r@ == prompt_path(paths.config_dir@, file_name@),
{
    let dir = join_path(paths.config_dir.as_str(), "prompts");
    join_path(dir.as_str(), file_name)
}

pub open spec fn filled(o: Option<Seq<char>>, value: Seq<char>) -> Option<Seq<char>> {
    match o {
        Some(t) => Some(t),
        None => Some(value),
    }
}

/// The settings with the prompt files that come with the program, where none were chosen.
pub open spec fn with_runtime_defaults(st: Settings, config_dir: Seq<char>) -> Settings {
    Settings {
        default_prompt: filled(st.default_prompt, prompt_path(config_dir, "audit-default.md"@)),
        bash_prompt: filled(st.bash_prompt, prompt_path(config_dir, "audit-bash.md"@)),
        edit_prompt: filled(st.edit_prompt, prompt_path(config_dir, "audit-edit.md"@)),
        ..st
    }
}

pub fn apply_runtime_config_defaults(paths: &AppPaths, config: &mut AppConfig)
    ensures
        final(config).settings() == with_runtime_defaults(
            old(config).settings(),
            paths.config_dir@,
        ),
        final(config).providers == old(config).providers,
        final(config).models == old(config).models,
        final(config).profiles == old(config).profiles,
        final(config).mcp == old(config).mcp,
{
    if config.audit.default_prompt_file.is_none() {
        config.audit.default_prompt_file = Some(
            default_audit_prompt_path(paths, "audit-default.md"),
        );
    }
    if config.audit.bash_prompt_file.is_none() {
        config.audit.bash_prompt_file = Some(default_audit_prompt_path(paths, "audit-bash.md"));
    }
    if config.audit.edit_prompt_file.is_none() {
        config.audit.edit_prompt_file = Some(default_audit_prompt_path(paths, "audit-edit.md"));
    }
}

/// Applying the defaults twice is applying them once.
pub proof fn law_runtime_defaults_settle(st: Settings, config_dir: Seq<char>)
    ensures
        with_runtime_defaults(with_runtime_defaults(st, config_dir), config_dir)
            == with_runtime_defaults(st, config_dir),
{
}

/// The prompt for a review of tool calls, where none was chosen.
pub const DEFAULT_AUDIT_PROMPT_TEMPLATE: &'static str =
    "You review tool calls before they run. Answer with one JSON object: {\"results\":[{\"id\":\"<call id>\",\"verdict\":\"pass|warning|block\",\"message\":\"<short reason>\"}]}.\n";

/// The prompt for a review of shell commands, where none was chosen.
pub const DEFAULT_AUDIT_BASH_PROMPT_TEMPLATE: &'static str =
    "You review shell commands before they run. Pass only commands whose effects are limited and wanted. Answer with one JSON object: {\"results\":[{\"id\":\"<call id>\",\"verdict\":\"pass|warning|block\",\"message\":\"<short reason>\"}]}.\n";

/// The prompt for a review of edits, where none was chosen.
pub const DEFAULT_AUDIT_EDIT_PROMPT_TEMPLATE: &'static str =
    "You review file edit calls before they run. Pass only changes that fit what the user asked for. Answer with one JSON object: {\"results\":[{\"id\":\"<call id>\",\"verdict\":\"pass|warning|block\",\"message\":\"<short reason>\"}]}.\n";

/// A file with its text.
#[derive(Debug)]
pub struct TextFile {
    pub path: String,
    pub text: String,
}

pub open spec fn file_views(v: Seq<TextFile>) -> Seq<(Seq<char>, Seq<char>)> {
    v.map_values(|f: TextFile| (f.path@, f.text@))
}

/// The prompt files that come with the program.
pub open spec fn prompt_files(config_dir: Seq<char>) -> Seq<(Seq<char>, Seq<char>)> {
    seq![
        (prompt_path(config_dir, "audit-default.md"@), DEFAULT_AUDIT_PROMPT_TEMPLATE@),
        (prompt_path(config_dir, "audit-bash.md"@), DEFAULT_AUDIT_BASH_PROMPT_TEMPLATE@),
        (prompt_path(config_dir, "audit-edit.md"@), DEFAULT_AUDIT_EDIT_PROMPT_TEMPLATE@),
    ]
}

/// Those of some files that are not there yet.
pub open spec fn missing_files(v: Seq<(Seq<char>, Seq<char>)>, there: Seq<bool>) -> Seq<
    (Seq<char>, Seq<char>),
>
    decreases v.len(),
{
    if v.len() == 0 || there.len() != v.len() {
        Seq::empty()
    } else {
        let before = missing_files(v.drop_last(), there.drop_last());
        if there.last() {
            before
        } else {
            before.push(v.last())
        }
    }
}

fn add_file(out: &mut Vec<TextFile>, there: bool, path: String, text: &str)
    ensures
        file_views(final(out)@) == if there {
            file_views(old(out)@)
        } else {
            file_views(old(out)@).push((path@, text@))
        },
{
    if !there {
        let ghost before = file_views(out@);
        let f = TextFile { path, text: text.to_owned() };
        out.push(f);
        proof {
            assert(file_views(out@) =~= before.push((f.path@, f.text@)));
        }
    }
}

/// The prompt files to write, given which of them are there.
pub fn ensure_default_audit_prompt_files(
    paths: &AppPaths,
    default_there: bool,
    bash_there: bool,
    edit_there: bool,
) -> (r: Vec<TextFile>)
    ensures
        file_views(r@) == missing_files(
            prompt_files(paths.config_dir@),
            seq![default_there, bash_there, edit_there],
        ),
{
    let mut out: Vec<TextFile> = Vec::new();
    let ghost all = prompt_files(paths.config_dir@);
    let ghost there = seq![default_there, bash_there, edit_there];
    proof {
        assert(file_views(out@) =~= missing_files(all.take(0), there.take(0)));
    }
    let path = default_audit_prompt_path(paths, "audit-default.md");
    add_file(&mut out, default_there, path, DEFAULT_AUDIT_PROMPT_TEMPLATE);
    proof {
        lemma_take_step(all, 0);
        lemma_take_step(there, 0);
        assert(file_views(out@) == missing_files(all.take(1), there.take(1)));
    }
    let path = default_audit_prompt_path(paths, "audit-bash.md");
    add_file(&mut out, bash_there, path, DEFAULT_AUDIT_BASH_PROMPT_TEMPLATE);
    proof {
        lemma_take_step(all, 1);
        lemma_take_step(there, 1);
        assert(file_views(out@) == missing_files(all.take(2), there.take(2)));
    }
    let path = default_audit_prompt_path(paths, "audit-edit.md");
    add_file(&mut out, edit_there, path, DEFAULT_AUDIT_EDIT_PROMPT_TEMPLATE);
    proof {
        lemma_take_step(all, 2);
        lemma_take_step(there, 2);
        lemma_take_full(all);
        lemma_take_full(there);
    }
    out
}

/// Which of the files of the program are there.
#[derive(Debug, Clone, Copy, PartialEq, Eq, Structural)]
pub struct FilesThere {
    pub config: bool,
    pub secrets: bool,
    pub default_prompt: bool,
    pub bash_prompt: bool,
    pub edit_prompt: bool,
}

/// What to write at the start, given which files are there.
#[derive(Debug)]
pub struct InitPlan {
    /// The configuration that is written where there is none.
    pub config: AppConfig,
    pub write_config: bool,
    pub write_secrets: bool,
    pub prompts: Vec<TextFile>,
}

/// The files that a plan writes, given the texts of a new configuration and of new secrets.
pub open spec fn planned_files(
    plan: InitPlan,
    paths: AppPaths,
    config: Seq<char>,
    secrets: Seq<char>,
) -> Seq<(Seq<char>, Seq<char>)> {
    let prompts = file_views(plan.prompts@);
    let with_config = if plan.write_config {
        prompts.push((paths.config_file@, config))
    } else {
        prompts
    };
    if plan.write_secrets {
        with_config.push((paths.secrets_file@, secrets))
    } else {
        with_config
    }
}

/// A file that is there is left alone; every other one is written.
pub fn init_config_files(paths: &AppPaths, there: FilesThere, skills_dir: &str) -> (r: InitPlan)
    ensures
        r.config.wf(),
        r.config.settings() == with_runtime_defaults(
            default_settings(skill_paths(skills_dir@)),
            paths.config_dir@,
        ),
        r.config.providers.keys().len() == 0,
        r.config.models.keys().len() == 0,
        r.config.profiles.keys().len() == 0,
        r.config.mcp.keys().len() == 0,
        r.write_config == !there.config,
        r.write_secrets == !there.secrets,
        file_views(r.prompts@) == missing_files(
            prompt_files(paths.config_dir@),
            seq![there.default_prompt, there.bash_prompt, there.edit_prompt],
        ),
        forall|config: Seq<char>, secrets: Seq<char>| #[trigger]
            planned_files(r, *paths, config, secrets) == missing_files(
                program_files(*paths, config, secrets),
                seq![
                    there.default_prompt,
                    there.bash_prompt,
                    there.edit_prompt,
                    there.config,
                    there.secrets,
                ],
            ),
{
    let mut config = AppConfig::with_skills_dir(skills_dir);
    apply_runtime_config_defaults(paths, &mut config);
    let prompts = ensure_default_audit_prompt_files(
        paths,
        there.default_prompt,
        there.bash_prompt,
        there.edit_prompt,
    );
    let r = InitPlan {
        config,
        write_config: !there.config,
        write_secrets: !there.secrets,
        prompts,
    };
    proof {
        let three = seq![there.default_prompt, there.bash_prompt, there.edit_prompt];
        let four = three.push(there.config);
        let five = four.push(there.secrets);
        assert(five =~= seq![
            there.default_prompt,
            there.bash_prompt,
            there.edit_prompt,
            there.config,
            there.secrets,
        ]);
        assert forall|c: Seq<char>, s: Seq<char>| #[trigger]
            planned_files(r, *paths, c, s) == missing_files(
            program_files(*paths, c, s),
            five,
        ) by {
            let all = program_files(*paths, c, s);
            let most = prompt_files(paths.config_dir@).push((paths.config_file@, c));
            assert(five.drop_last() =~= four);
            assert(four.drop_last() =~= three);
            assert(all.drop_last() =~= most);
            assert(most.drop_last() =~= prompt_files(paths.config_dir@));
            assert(missing_files(most, four) == if there.config {
                missing_files(most.drop_last(), three)
            } else {
                missing_files(most.drop_last(), three).push(most.last())
            });
            assert(missing_files(all, five) == if there.secrets {
                missing_files(most, four)
            } else {
                missing_files(most, four).push(all.last())
            });
        }
    }
    r
}

/// Files after some are written.
pub open spec fn written_files(
    files: Map<Seq<char>, Seq<char>>,
    v: Seq<(Seq<char>, Seq<char>)>,
) -> Map<Seq<char>, Seq<char>>
    decreases v.len(),
{
    if v.len() == 0 {
        files
    } else {
        written_files(files, v.drop_last()).insert(v.last().0, v.last().1)
    }
}

/// Which of some files are there.
pub open spec fn files_there(
    files: Map<Seq<char>, Seq<char>>,
    v: Seq<(Seq<char>, Seq<char>)>,
) -> Seq<bool> {
    v.map_values(|f: (Seq<char>, Seq<char>)| files.dom().contains(f.0))
}

/// All the files of the program, given the texts of a new configuration and of new secrets.
pub open spec fn program_files(paths: AppPaths, config: Seq<char>, secrets: Seq<char>) -> Seq<
    (Seq<char>, Seq<char>),
> {
    prompt_files(paths.config_dir@).push((paths.config_file@, config)).push(
        (paths.secrets_file@, secrets),
    )
}

proof fn lemma_missing_written(
    files: Map<Seq<char>, Seq<char>>,
    v: Seq<(Seq<char>, Seq<char>)>,
)
    ensures
        ({
            let after = written_files(files, missing_files(v, files_there(files, v)));
            &&& forall|i: int| 0 <= i < v.len() ==> after.dom().contains((#[trigger] v[i]).0)
            &&& forall|p: Seq<char>| #[trigger]
                files.dom().contains(p) ==> after.dom().contains(p) && after[p] == files[p]
        }),
    decreases v.len(),
{
    let there = files_there(files, v);
    if v.len() > 0 {
        let w = v.drop_last();
        lemma_missing_written(files, w);
        assert(files_there(files, w) =~= there.drop_last());
        assert(there.last() == files.dom().contains(v.last().0));
        let before = missing_files(w, there.drop_last());
        assert(before.push(v.last()).drop_last() =~= before);
        let after = written_files(files, missing_files(v, there));
        assert forall|i: int| 0 <= i < v.len() implies after.dom().contains(
            (#[trigger] v[i]).0,
        ) by {
            if i < w.len() {
                assert(w[i] == v[i]);
            }
        }
    }
}

proof fn lemma_none_missing(v: Seq<(Seq<char>, Seq<char>)>, there: Seq<bool>)
    requires
        there.len() == v.len(),
        forall|i: int| 0 <= i < there.len() ==> #[trigger] there[i],
    ensures
        missing_files(v, there).len() == 0,
    decreases v.len(),
{
    if v.len() > 0 {
        assert(there[there.len() - 1]);
        lemma_none_missing(v.drop_last(), there.drop_last());
    }
}

/// Once the missing files are written, all files of the program are there, those that were there
/// before hold what they held, and doing it again writes nothing.
pub proof fn law_start_keeps_files(
    files: Map<Seq<char>, Seq<char>>,
    paths: AppPaths,
    config: Seq<char>,
    secrets: Seq<char>,
)
    ensures
        ({
            let all = program_files(paths, config, secrets);
            let after = written_files(files, missing_files(all, files_there(files, all)));
            &&& forall|i: int| 0 <= i < all.len() ==> after.dom().contains((#[trigger] all[i]).0)
            &&& forall|p: Seq<char>| #[trigger]
                files.dom().contains(p) ==> after.dom().contains(p) && after[p] == files[p]
            &&& missing_files(all, files_there(after, all)).len() == 0
        }),
{
    let all = program_files(paths, config, secrets);
    lemma_missing_written(files, all);
    let after = written_files(files, missing_files(all, files_there(files, all)));
    lemma_none_missing(all, files_there(after, all));
}

/// Where a system prompt comes from.
#[derive(Debug)]
pub enum PromptSource {
    Missing,
    Text(String),
    File(String),
}

/// A system prompt is a text, or behind an `@` the path of a file.
pub fn read_system_prompt(value: &Option<String>) -> (r: PromptSource)
    ensures
        match opt_text(*value) {
            None => r is Missing,
            Some(v) => match strip_prefix_spec(v, "@"@) {
                Some(path) => r matches PromptSource::File(p) && p@ == path,
                None => r matches PromptSource::Text(t) && t@ == v,
            },
        },
{
    match value {
        None => PromptSource::Missing,
        Some(v) => match strip_prefix(v.as_str(), "@") {
            Some(path) => PromptSource::File(path),
            None => PromptSource::Text(v.clone()),
        },
    }
}

} // verus!
