//! What the commands on providers, models, keys, sessions and servers do and print.

use crate::cli::{AuthSetArgs, ModelSetArgs, ProviderSetArgs};
use crate::config::{
    AppConfig, AppPaths, ModelConfig, ModelPatchConfig, ModelView, ProviderConfig,
    ProviderSecret, ProviderView, SecretsConfig, bool_name, config_issues, flag_or, header_map,
    headers_wf, holds, or_flag, or_text, parse_headers, text_result, validate_config,
};
use crate::error::{AppError, AppResult, EXIT_ARGS, EXIT_CONFIG, EXIT_SESSION, Failure, failure};
use crate::json::{JsonView, json_text, jsons, print_json, printed_json};
use crate::mcp::{McpDaemonStatus, McpServerProbe, McpServerStatus, ServerState, mcp_enabled};
use crate::mcp_search::{McpTool, McpToolSpec, mcp_tools};
use crate::panels::{either, is_model_of};
use crate::popup::{format_model_list_entry, model_entry};
use crate::session::{SessionEvent, SessionState, StoredEvent, event_views, short, short_id};
use crate::table::Table;
use crate::target::{
    env_key, model_missing, model_missing_error, model_view, provider_missing,
    provider_missing_error, provider_named, provider_view, resolve_model_use_target,
    stored_key, use_target,
};
use crate::text::{
    decimal, decimal_string, lemma_take_full, lemma_take_step, lemma_texts_push, opt_eq,
    opt_str, opt_text, str_eq, texts, trim, trimmed,
};
use crate::transcript::{
    render_session_turns, session_turns_from_events, shown_turns, turn_views, turns,
};
use vstd::prelude::*;

verus! {

fn push_line(out: &mut Vec<String>, line: String)
    ensures
        texts(final(out)@) == texts(old(out)@).push(line@),
{
    proof {
        lemma_texts_push(out@, line);
    }
    out.push(line);
}

// ---------------------------------------------------------------------------
// Providers
// ---------------------------------------------------------------------------

/// Whether two configurations differ in their providers at most.
pub open spec fn same_but_providers(a: AppConfig, b: AppConfig) -> bool {
    &&& a.defaults == b.defaults
    &&& a.session == b.session
    &&& a.tools == b.tools
    &&& a.audit == b.audit
    &&& a.skills == b.skills
    &&& a.models == b.models
    &&& a.profiles == b.profiles
    &&& a.mcp == b.mcp
}

/// Whether a table is another one with one more value under a key.
pub open spec fn is_table_with<V>(a: Table<V>, b: Table<V>, key: Seq<char>, value: V) -> bool {
    &&& a.lookup(key) == Some(value)
    &&& forall|k: Seq<char>| k != key ==> #[trigger] a.lookup(k) == b.lookup(k)
}

/// Whether a table is another one without the value under a key.
pub open spec fn is_table_without<V>(a: Table<V>, b: Table<V>, key: Seq<char>) -> bool {
    &&& !a.has(key)
    &&& forall|k: Seq<char>| k != key ==> #[trigger] a.lookup(k) == b.lookup(k)
}

/// Whether a provider is the one that options describe, with these headers.
pub open spec fn is_provider_of(
    p: ProviderConfig,
    args: ProviderSetArgs,
    headers: Map<Seq<char>, Seq<char>>,
) -> bool {
    &&& p.kind@ == args.kind@
    &&& opt_text(p.base_url) == opt_text(args.base_url)
    &&& opt_text(p.api_key_env) == opt_text(args.api_key_env)
    &&& holds(p.headers, headers)
    &&& opt_text(p.org) == opt_text(args.org)
    &&& opt_text(p.project) == opt_text(args.project)
    &&& opt_text(p.default_model) == opt_text(args.default_model)
    &&& p.timeout == args.timeout
}

proof fn lemma_headers_by_key(t: Table<ProviderConfig>)
    requires
        t.wf(),
        forall|k: Seq<char>| #[trigger] t.has(k) ==> t.lookup(k)->Some_0.headers.wf(),
    ensures
        headers_wf(t),
{
    assert forall|i: int| 0 <= i < t.values().len() implies (
    #[trigger] t.values()[i]).headers.wf() by {
        let key = t.keys()[i];
        assert(t.is_at(key, i));
        t.lemma_place(key, i);
        assert(t.has(key));
    }
}

proof fn lemma_headers_at(t: Table<ProviderConfig>, key: Seq<char>)
    requires
        t.wf(),
        headers_wf(t),
        t.has(key),
    ensures
        t.lookup(key)->Some_0.headers.wf(),
{
    let i = t.keys().index_of(key);
    assert(t.is_at(key, i));
    t.lemma_place(key, i);
}

proof fn lemma_headers_after(
    a: Table<ProviderConfig>,
    b: Table<ProviderConfig>,
    key: Seq<char>,
)
    requires
        a.wf(),
        b.wf(),
        headers_wf(b),
        a.has(key) ==> a.lookup(key)->Some_0.headers.wf(),
        forall|k: Seq<char>| k != key ==> #[trigger] a.lookup(k) == b.lookup(k),
    ensures
        headers_wf(a),
{
    assert forall|k: Seq<char>| #[trigger] a.has(k) implies a.lookup(
        k,
    )->Some_0.headers.wf() by {
        if k != key {
            assert(a.lookup(k) == b.lookup(k));
            lemma_headers_at(b, k);
        }
    }
    lemma_headers_by_key(a);
}

/// Stores a provider.
pub fn save_provider(config: &mut AppConfig, args: ProviderSetArgs) -> (r: AppResult<String>)
    requires
        old(config).wf(),
    ensures
        final(config).wf(),
        match header_map(texts(args.headers@)) {
            Err(e) => (r matches Err(f) && f@ == e) && *final(config) == *old(config),
            Ok(m) => {
                &&& r matches Ok(message) && message@ == "saved provider "@ + args.id@
                &&& same_but_providers(*final(config), *old(config))
                &&& exists|p: ProviderConfig| #[trigger]
                    is_provider_of(p, args, m) && is_table_with(
                        final(config).providers,
                        old(config).providers,
                        args.id@,
                        p,
                    )
            },
        },
{
    let headers = match parse_headers(&args.headers) {
        Ok(h) => h,
        Err(e) => {
            return Err(e);
        },
    };
    let ghost given = args;
    let ghost m = header_map(texts(args.headers@))->Ok_0;
    let message = "saved provider ".to_owned().concat(args.id.as_str());
    let provider = ProviderConfig {
        kind: args.kind,
        base_url: args.base_url,
        api_key_env: args.api_key_env,
        headers,
        org: args.org,
        project: args.project,
        default_model: args.default_model,
        timeout: args.timeout,
    };
    let ghost p = provider;
    let ghost before = config.providers;
    config.providers.insert(args.id.as_str(), provider);
    proof {
        lemma_headers_after(config.providers, before, given.id@);
        assert(is_provider_of(p, given, m));
    }
    Ok(message)
}

/// The list of providers.
pub open spec fn provider_line(id: Seq<char>, p: ProviderConfig) -> Seq<char> {
    id + " kind="@ + p.kind@ + " base_url="@ + or_text(opt_text(p.base_url), ""@)
}

pub fn provider_lines(config: &AppConfig) -> (r: Vec<String>)
    requires
        config.wf(),
    ensures
        texts(r@) == Seq::new(
            config.providers.keys().len(),
            |i: int| provider_line(config.providers.keys()[i], config.providers.values()[i]),
        ),
{
    let n: usize = config.providers.len();
    let ghost goal = Seq::new(
        config.providers.keys().len(),
        |i: int| provider_line(config.providers.keys()[i], config.providers.values()[i]),
    );
    let mut out: Vec<String> = Vec::new();
    let mut i: usize = 0;
    proof {
        assert(texts(out@) =~= goal.take(0));
    }
    while i < n
        invariant
            i <= n,
            n == config.providers.keys().len(),
            config.providers.wf(),
            goal == Seq::new(
                config.providers.keys().len(),
                |i: int| provider_line(config.providers.keys()[i], config.providers.values()[i]),
            ),
            texts(out@) == goal.take(i as int),
        decreases n - i,
    {
        let p = config.providers.value_at(i);
        let url = match &p.base_url {
            Some(u) => u.as_str(),
            None => "",
        };
        let line = config.providers.key_at(i).to_owned().concat(" kind=").concat(
            p.kind.as_str(),
        ).concat(" base_url=").concat(url);
        proof {
            lemma_take_step(goal, i as int);
        }
        push_line(&mut out, line);
        i = i + 1;
    }
    proof {
        lemma_take_full(goal);
    }
    out
}

/// The default that is left once what it names may be gone.
pub open spec fn kept_default(default: Option<Seq<char>>, gone: bool) -> Option<Seq<char>> {
    if gone {
        None
    } else {
        default
    }
}

/// Whether two configurations differ in the default provider and model, the providers and the
/// models at most.
pub open spec fn same_but_targets(a: AppConfig, b: AppConfig) -> bool {
    &&& a.defaults.mode == b.defaults.mode
    &&& a.defaults.output == b.defaults.output
    &&& a.defaults.auto_create_session == b.defaults.auto_create_session
    &&& a.defaults.auto_save_session == b.defaults.auto_save_session
    &&& a.defaults.session_id_kind == b.defaults.session_id_kind
    &&& a.defaults.tools == b.defaults.tools
    &&& a.defaults.system_prompt_file == b.defaults.system_prompt_file
    &&& a.defaults.system_prompt_mode == b.defaults.system_prompt_mode
    &&& a.defaults.collapse_thinking == b.defaults.collapse_thinking
    &&& a.defaults.context_status == b.defaults.context_status
    &&& a.session == b.session
    &&& a.tools == b.tools
    &&& a.audit == b.audit
    &&& a.skills == b.skills
    &&& a.profiles == b.profiles
    &&& a.mcp == b.mcp
}

/// Whether the default model is one of a provider.
pub open spec fn default_model_is_of(c: AppConfig, provider: Seq<char>) -> bool {
    opt_text(c.defaults.model) matches Some(m) && is_model_of(c, m, provider)
}

/// Removes a provider, and the defaults that name it or one of its models.
pub fn remove_provider(config: &mut AppConfig, id: &str) -> (r: AppResult<String>)
    requires
        old(config).wf(),
    ensures
        final(config).wf(),
        !old(config).providers.has(id@) ==> (r matches Err(f) && f@ == provider_missing(id@))
            && *final(config) == *old(config),
        old(config).providers.has(id@) ==> {
            &&& r matches Ok(message) && message@ == "removed provider "@ + id@
            &&& is_table_without(final(config).providers, old(config).providers, id@)
            &&& final(config).models == old(config).models
            &&& same_but_targets(*final(config), *old(config))
            &&& opt_text(final(config).defaults.provider) == kept_default(
                opt_text(old(config).defaults.provider),
                opt_text(old(config).defaults.provider) == Some(id@),
            )
            &&& opt_text(final(config).defaults.model) == kept_default(
                opt_text(old(config).defaults.model),
                default_model_is_of(*old(config), id@),
            )
        },
{
    if !config.providers.contains_key(id) {
        return Err(provider_missing_error(id));
    }
    let ghost before = config.providers;
    let gone = config.providers.remove(id);
    proof {
        lemma_headers_after(config.providers, before, id@);
    }
    if opt_eq(&config.defaults.provider, id) {
        config.defaults.provider = None;
    }
    let of_provider = match &config.defaults.model {
        Some(m) => match config.models.get(m.as_str()) {
            Some(mc) => str_eq(mc.provider.as_str(), id),
            None => false,
        },
        None => false,
    };
    if of_provider {
        config.defaults.model = None;
    }
    Ok("removed provider ".to_owned().concat(id))
}

// ---------------------------------------------------------------------------
// Models
// ---------------------------------------------------------------------------

/// What is known of the model that options describe.
pub open spec fn model_of_args(args: ModelSetArgs) -> ModelView {
    ModelView {
        provider: args.provider@,
        remote_name: args.remote_name@,
        display_name: opt_text(args.display_name),
        context_window: args.context_window,
        max_output_tokens: args.max_output_tokens,
        capabilities: texts(args.capabilities@),
        temperature: opt_text(args.temperature),
        reasoning_effort: opt_text(args.reasoning_effort),
        patches: ModelPatchConfig {
            system_to_user: if args.patch_system_to_user {
                Some(true)
            } else {
                None
            },
        },
    }
}

/// Stores a model of a provider that exists.
pub fn save_model(config: &mut AppConfig, args: ModelSetArgs) -> (r: AppResult<String>)
    requires
        old(config).wf(),
    ensures
        final(config).wf(),
        !old(config).providers.has(args.provider@) ==> (r matches Err(f) && f@ == provider_missing(
            args.provider@,
        )) && *final(config) == *old(config),
        old(config).providers.has(args.provider@) ==> {
            &&& r matches Ok(message) && message@ == "saved model "@ + args.id@
            &&& final(config).defaults == old(config).defaults
            &&& final(config).providers == old(config).providers
            &&& same_but_targets(*final(config), *old(config))
            &&& model_view(final(config).models.lookup(args.id@)) == Some(model_of_args(args))
            &&& forall|k: Seq<char>|
                k != args.id@ ==> #[trigger] final(config).models.lookup(k) == old(config).models.lookup(k)
        },
{
    if !config.providers.contains_key(args.provider.as_str()) {
        return Err(provider_missing_error(args.provider.as_str()));
    }
    let message = "saved model ".to_owned().concat(args.id.as_str());
    let system_to_user = if args.patch_system_to_user {
        Some(true)
    } else {
        None
    };
    let model = ModelConfig {
        provider: args.provider,
        remote_name: args.remote_name,
        display_name: args.display_name,
        context_window: args.context_window,
        max_output_tokens: args.max_output_tokens,
        capabilities: args.capabilities,
        temperature: args.temperature,
        reasoning_effort: args.reasoning_effort,
        patches: ModelPatchConfig { system_to_user },
    };
    config.models.insert(args.id.as_str(), model);
    Ok(message)
}

/// The entries of the first `n` models, those of a provider if one is given.
pub open spec fn model_entries(t: Table<ModelConfig>, provider: Option<Seq<char>>, n: int) -> Seq<
    Seq<char>,
>
    decreases n,
{
    if n <= 0 {
        Seq::empty()
    } else {
        let before = model_entries(t, provider, n - 1);
        let m = t.values()[n - 1];
        if provider matches Some(p) && p != m.provider@ {
            before
        } else {
            before.push(model_entry(m))
        }
    }
}

pub fn model_lines(config: &AppConfig, provider: Option<&str>) -> (r: Vec<String>)
    requires
        config.wf(),
    ensures
        texts(r@) == model_entries(
            config.models,
            opt_str(provider),
            config.models.keys().len() as int,
        ),
{
    let n: usize = config.models.len();
    let mut out: Vec<String> = Vec::new();
    let mut i: usize = 0;
    proof {
        assert(texts(out@) =~= Seq::<Seq<char>>::empty());
    }
    while i < n
        invariant
            i <= n,
            n == config.models.keys().len(),
            config.models.wf(),
            texts(out@) == model_entries(config.models, opt_str(provider), i as int),
        decreases n - i,
    {
        let m = config.models.value_at(i);
        let listed = match provider {
            Some(p) => str_eq(p, m.provider.as_str()),
            None => true,
        };
        if listed {
            push_line(&mut out, format_model_list_entry(m));
        }
        i = i + 1;
    }
    out
}

/// Makes a model the default one, with its provider.
pub fn use_model(config: &mut AppConfig, target: &str) -> (r: AppResult<String>)
    requires
        old(config).wf(),
    ensures
        final(config).wf(),
        match use_target(*old(config), target@) {
            Err(e) => (r matches Err(f) && f@ == e) && *final(config) == *old(config),
            Ok((provider, model)) => {
                &&& r matches Ok(message) && message@ == "default model set to "@ + model
                    + " provider="@ + provider
                &&& opt_text(final(config).defaults.model) == Some(model)
                &&& opt_text(final(config).defaults.provider) == Some(provider)
                &&& final(config).models == old(config).models
                &&& final(config).providers == old(config).providers
                &&& same_but_targets(*final(config), *old(config))
            },
        },
{
    match resolve_model_use_target(config, target) {
        Err(e) => Err(e),
        Ok((provider_id, model_id)) => {
            let message = "default model set to ".to_owned().concat(model_id.as_str()).concat(
                " provider=",
            ).concat(provider_id.as_str());
            config.defaults.model = Some(model_id);
            config.defaults.provider = Some(provider_id);
            Ok(message)
        },
    }
}

/// Removes a model, and the default that names it.
pub fn remove_model(config: &mut AppConfig, id: &str) -> (r: AppResult<String>)
    requires
        old(config).wf(),
    ensures
        final(config).wf(),
        !old(config).models.has(id@) ==> (r matches Err(f) && f@ == model_missing(id@)) && *final(config) == *old(config),
        old(config).models.has(id@) ==> {
            &&& r matches Ok(message) && message@ == "removed model "@ + id@
            &&& is_table_without(final(config).models, old(config).models, id@)
            &&& final(config).providers == old(config).providers
            &&& final(config).defaults.provider == old(config).defaults.provider
            &&& same_but_targets(*final(config), *old(config))
            &&& opt_text(final(config).defaults.model) == kept_default(
                opt_text(old(config).defaults.model),
                opt_text(old(config).defaults.model) == Some(id@),
            )
        },
{
    if !config.models.contains_key(id) {
        return Err(model_missing_error(id));
    }
    let gone = config.models.remove(id);
    if opt_eq(&config.defaults.model, id) {
        config.defaults.model = None;
    }
    Ok("removed model ".to_owned().concat(id))
}

// ---------------------------------------------------------------------------
// Keys
// ---------------------------------------------------------------------------

/// What a change of keys leaves to be saved, and the message.
#[derive(Debug)]
pub enum AuthChange {
    Config(String),
    Secrets(String),
}

/// Stores the key of a provider, or the variable that holds it. `stdin` is what was read where
/// that was asked for.
pub fn handle_auth_set(
    config: &mut AppConfig,
    secrets: &mut SecretsConfig,
    args: AuthSetArgs,
    stdin: Option<String>,
) -> (r: AppResult<AuthChange>)
    requires
        old(config).wf(),
        old(secrets).providers.wf(),
    ensures
        final(config).wf(),
        final(secrets).providers.wf(),
        ({
            let id = args.provider_id@;
            let value = either(
                opt_text(args.value),
                if args.stdin {
                    opt_text(stdin)
                } else {
                    None
                },
            );
            if !old(config).providers.has(id) {
                &&& r matches Err(f) && f@ == provider_missing(id)
                &&& *final(config) == *old(config)
                &&& *final(secrets) == *old(secrets)
            } else {
                match (opt_text(args.env), value) {
                    (Some(name), _) => {
                        &&& r matches Ok(AuthChange::Config(message)) && message@ == "provider "@
                            + id + " now reads API key from env "@ + name
                        &&& *final(secrets) == *old(secrets)
                        &&& same_but_providers(*final(config), *old(config))
                        &&& provider_view(final(config).providers.lookup(id)) == Some(
                            ProviderView {
                                api_key_env: Some(name),
                                ..old(config).providers.lookup(id)->Some_0@
                            },
                        )
                        &&& forall|k: Seq<char>|
                            k != id ==> #[trigger] final(config).providers.lookup(k) == old(config).providers.lookup(k)
                    },
                    (None, Some(key)) => {
                        &&& r matches Ok(AuthChange::Secrets(message)) && message@
                            == "stored auth for "@ + id
                        &&& *final(config) == *old(config)
                        &&& stored_key(id, *final(secrets)) == Some(trimmed(key))
                        &&& forall|k: Seq<char>|
                            k != id ==> #[trigger] final(secrets).providers.lookup(k) == old(secrets).providers.lookup(k)
                    },
                    (None, None) => {
                        &&& r matches Err(f) && f@ == failure(
                            EXIT_ARGS,
                            "config auth set requires --value, --stdin, or --env"@,
                        )
                        &&& *final(config) == *old(config)
                        &&& *final(secrets) == *old(secrets)
                    },
                }
            }
        }),
{
    let id = args.provider_id;
    if !config.providers.contains_key(id.as_str()) {
        return Err(provider_missing_error(id.as_str()));
    }
    if let Some(name) = args.env {
        let message = "provider ".to_owned().concat(id.as_str()).concat(
            " now reads API key from env ",
        ).concat(name.as_str());
        let ghost before = config.providers;
        let mut provider = match provider_named(config, id.as_str()) {
            Some(p) => p.copy(),
            None => {
                return Err(provider_missing_error(id.as_str()));
            },
        };
        provider.api_key_env = Some(name);
        config.providers.insert(id.as_str(), provider);
        proof {
            lemma_headers_after(config.providers, before, id@);
        }
        return Ok(AuthChange::Config(message));
    }
    let value = match args.value {
        Some(v) => Some(v),
        None => if args.stdin {
            stdin
        } else {
            None
        },
    };
    match value {
        Some(v) => {
            let secret = ProviderSecret { api_key: Some(trim(v.as_str())) };
            secrets.providers.insert(id.as_str(), secret);
            Ok(AuthChange::Secrets("stored auth for ".to_owned().concat(id.as_str())))
        },
        None => Err(
            AppError::new(EXIT_ARGS, "config auth set requires --value, --stdin, or --env"),
        ),
    }
}

/// Forgets the stored key of a provider; says whether there is anything to be saved.
pub fn remove_auth(secrets: &mut SecretsConfig, provider_id: &str) -> (r: bool)
    requires
        old(secrets).providers.wf(),
    ensures
        final(secrets).providers.wf(),
        r == old(secrets).providers.has(provider_id@),
        !r ==> *final(secrets) == *old(secrets),
        r ==> final(secrets).providers.has(provider_id@),
        stored_key(provider_id@, *final(secrets)) is None,
        forall|k: Seq<char>|
            k != provider_id@ ==> #[trigger] final(secrets).providers.lookup(k) == old(secrets).providers.lookup(k),
{
    if !secrets.providers.contains_key(provider_id) {
        return false;
    }
    secrets.providers.insert(provider_id, ProviderSecret { api_key: None });
    true
}

pub open spec fn bit(b: bool) -> Seq<char> {
    if b {
        "1"@
    } else {
        "0"@
    }
}

fn bit_name(b: bool) -> (r: &'static str)
    ensures
        r@ == bit(b),
{
    if b {
        "1"
    } else {
        "0"
    }
}

/// Where the key of a provider is to be found.
pub open spec fn auth_line(id: Seq<char>, p: ProviderView, secrets: SecretsConfig, env: Table<String>) -> Seq<
    char,
> {
    id + " env="@ + or_text(p.api_key_env, ""@) + " env_present="@ + bit(env_key(p, env) is Some)
        + " file_present="@ + bit(stored_key(id, secrets) is Some)
}

pub fn print_auth_status(
    config: &AppConfig,
    secrets: &SecretsConfig,
    provider_id: &str,
    env: &Table<String>,
) -> (r: AppResult<String>)
    requires
        config.wf(),
        secrets.providers.wf(),
        env.wf(),
    ensures
        match config.providers.lookup(provider_id@) {
            Some(p) => r matches Ok(line) && line@ == auth_line(
                provider_id@,
                p@,
                *secrets,
                *env,
            ),
            None => r matches Err(f) && f@ == provider_missing(provider_id@),
        },
{
    let provider = match config.providers.get(provider_id) {
        Some(p) => p,
        None => {
            return Err(provider_missing_error(provider_id));
        },
    };
    let (name, in_env) = match &provider.api_key_env {
        Some(n) => (n.as_str(), env.contains_key(n.as_str())),
        None => ("", false),
    };
    let in_file = match secrets.providers.get(provider_id) {
        Some(s) => s.api_key.is_some(),
        None => false,
    };
    Ok(
        provider_id.to_owned().concat(" env=").concat(name).concat(" env_present=").concat(
            bit_name(in_env),
        ).concat(" file_present=").concat(bit_name(in_file)),
    )
}

// ---------------------------------------------------------------------------
// The check of everything
// ---------------------------------------------------------------------------

/// What was found, line by line, and the exit code of the first thing that is wrong.
#[derive(Debug)]
pub struct DoctorReport {
    pub lines: Vec<String>,
    pub code: Option<i32>,
}

pub open spec fn first_code(code: Option<i32>, next: i32) -> Option<i32> {
    match code {
        Some(c) => Some(c),
        None => Some(next),
    }
}

pub open spec fn issue_lines(v: Seq<Seq<char>>) -> Seq<Seq<char>> {
    v.map_values(|i: Seq<char>| "issue="@ + printed_json(JsonView::Str(i)))
}

/// What is found of the configuration.
pub open spec fn doctor_lines(
    c: AppConfig,
    config_file: Seq<char>,
    secrets_file: Seq<char>,
    sessions_dir: Seq<char>,
) -> Seq<Seq<char>> {
    let issues = config_issues(c);
    seq![
        "config_file="@ + config_file,
        "secrets_file="@ + secrets_file,
        "sessions_dir="@ + sessions_dir,
    ] + (if issues.len() == 0 {
        seq!["config=ok"@]
    } else {
        seq!["config=invalid"@] + issue_lines(issues)
    }) + seq![
        "default_provider="@ + or_text(opt_text(c.defaults.provider), ""@) + " default_model="@
            + or_text(opt_text(c.defaults.model), ""@),
    ]
}

fn text_or<'a>(o: &'a Option<String>, default: &'a str) -> (r: &'a str)
    ensures
        r@ == or_text(opt_text(*o), default@),
{
    match o {
        Some(t) => t.as_str(),
        None => default,
    }
}

/// Checks the configuration.
pub fn start_doctor(config: &AppConfig, paths: &AppPaths, sessions_dir: &str) -> (r: DoctorReport)
    requires
        config.wf(),
    ensures
        texts(r.lines@) == doctor_lines(
            *config,
            paths.config_file@,
            paths.secrets_file@,
            sessions_dir@,
        ),
        r.code == if config_issues(*config).len() == 0 {
            None
        } else {
            Some(EXIT_CONFIG)
        },
{
    let mut out: Vec<String> = Vec::new();
    push_line(&mut out, "config_file=".to_owned().concat(paths.config_file.as_str()));
    push_line(&mut out, "secrets_file=".to_owned().concat(paths.secrets_file.as_str()));
    push_line(&mut out, "sessions_dir=".to_owned().concat(sessions_dir));
    let issues = validate_config(config);
    let ghost v = config_issues(*config);
    let ghost head = texts(out@);
    proof {
        assert(texts(issues@).len() == issues@.len());
    }
    let mut code: Option<i32> = None;
    if issues.len() == 0 {
        push_line(&mut out, "config=ok".to_owned());
    } else {
        code = Some(EXIT_CONFIG);
        push_line(&mut out, "config=invalid".to_owned());
        let ghost start = texts(out@);
        let ghost goal = issue_lines(v);
        let mut i: usize = 0;
        proof {
            assert(start + goal.take(0) =~= start);
        }
        while i < issues.len()
            invariant
                i <= issues@.len(),
                v == texts(issues@),
                goal == issue_lines(v),
                texts(out@) == start + goal.take(i as int),
            decreases issues@.len() - i,
        {
            let line = "issue=".to_owned().concat(
                print_json(&json_text(issues[i].as_str())).as_str(),
            );
            proof {
                assert(v[i as int] == issues@[i as int]@);
                lemma_take_step(goal, i as int);
            }
            push_line(&mut out, line);
            proof {
                assert(texts(out@) =~= start + goal.take(i + 1));
            }
            i = i + 1;
        }
        proof {
            lemma_take_full(goal);
        }
    }
    push_line(
        &mut out,
        "default_provider=".to_owned().concat(text_or(&config.defaults.provider, "")).concat(
            " default_model=",
        ).concat(text_or(&config.defaults.model, "")),
    );
    proof {
        assert(texts(out@) =~= doctor_lines(
            *config,
            paths.config_file@,
            paths.secrets_file@,
            sessions_dir@,
        ));
    }
    DoctorReport { lines: out, code }
}

/// What is found of a provider that was tried.
pub open spec fn test_line(id: Seq<char>, outcome: AppResult<()>) -> Seq<char> {
    match outcome {
        Ok(_) => "provider_test="@ + id + " ok=1"@,
        Err(e) => "provider_test="@ + id + " ok=0 error="@ + printed_json(
            JsonView::Str(e@.message),
        ),
    }
}

/// Notes what came of trying a provider; `auth` is the line on its key.
pub fn note_provider(report: &mut DoctorReport, auth: String, id: &str, outcome: &AppResult<()>)
    ensures
        texts(final(report).lines@) == texts(old(report).lines@).push(auth@).push(
            test_line(id@, *outcome),
        ),
        final(report).code == match *outcome {
            Ok(_) => old(report).code,
            Err(e) => first_code(old(report).code, e@.code),
        },
{
    push_line(&mut report.lines, auth);
    match outcome {
        Ok(_) => {
            push_line(
                &mut report.lines,
                "provider_test=".to_owned().concat(id).concat(" ok=1"),
            );
        },
        Err(e) => {
            if report.code.is_none() {
                report.code = Some(e.code);
            }
            push_line(
                &mut report.lines,
                "provider_test=".to_owned().concat(id).concat(" ok=0 error=").concat(
                    print_json(&json_text(e.message.as_str())).as_str(),
                ),
            );
        },
    }
}

/// What comes of the whole check.
pub fn finish_doctor(report: &DoctorReport) -> (r: AppResult<()>)
    ensures
        match report.code {
            Some(code) => r matches Err(f) && f@ == failure(code, "doctor found issues"@),
            None => r is Ok,
        },
{
    match report.code {
        Some(code) => Err(AppError::new(code, "doctor found issues")),
        None => Ok(()),
    }
}

// ---------------------------------------------------------------------------
// Sessions
// ---------------------------------------------------------------------------

/// The current session.
pub fn current_session_line(state: &SessionState) -> (r: String)
    ensures
        r@ == match opt_text(state.current_session) {
            Some(id) => short(id) + (if or_flag(state.is_temp, false) {
                " [temp]"@
            } else {
                ""@
            }),
            None => "no active session"@,
        },
{
    match &state.current_session {
        Some(id) => {
            let tag = if flag_or(state.is_temp, false) {
                " [temp]"
            } else {
                ""
            };
            short_id(id.as_str()).concat(tag)
        },
        None => "no active session".to_owned(),
    }
}

/// A text in quotes; one that is missing is empty.
pub open spec fn quoted_or_empty(o: Option<Seq<char>>) -> Seq<char> {
    printed_json(JsonView::Str(or_text(o, ""@)))
}

fn quote_or_empty(o: &Option<String>) -> (r: String)
    ensures
        r@ == quoted_or_empty(opt_text(*o)),
{
    print_json(&json_text(text_or(o, "")))
}

/// An event in one line.
pub open spec fn event_line(e: StoredEvent) -> Seq<char> {
    match e {
        StoredEvent::Meta(id, created_at) => "session_id="@ + id + " created_at="@ + created_at,
        StoredEvent::Message(m) => "message role="@ + m.role + " tool_calls="@ + decimal(
            m.tool_calls.len(),
        ) + " tool_call_id="@ + quoted_or_empty(m.tool_call_id) + " name="@ + quoted_or_empty(
            m.name,
        ) + " content="@ + printed_json(JsonView::Str(m.content)),
        StoredEvent::Response(r) => "response provider="@ + r.provider + " model="@ + r.model
            + " finish_reason="@ + r.finish_reason + " latency_ms="@ + decimal(r.latency_ms as nat),
        StoredEvent::Audit(a) => "audit provider="@ + a.provider + " model="@ + a.model
            + " tool_name="@ + quoted_or_empty(a.tool_name) + " tool_call_id="@ + quoted_or_empty(
            a.tool_call_id,
        ) + " verdict="@ + printed_json(JsonView::Str(a.verdict)) + " summary="@ + printed_json(
            JsonView::Str(a.summary),
        ),
    }
}

fn event_line_of(e: &SessionEvent) -> (r: String)
    ensures
        r@ == event_line(e@),
{
    match e {
        SessionEvent::Meta(m) => "session_id=".to_owned().concat(m.session_id.as_str()).concat(
            " created_at=",
        ).concat(m.created_at.as_str()),
        SessionEvent::Message(m) => {
            proof {
                assert(jsons(m.tool_calls@).len() == m.tool_calls@.len());
            }
            "message role=".to_owned().concat(m.role.as_str()).concat(" tool_calls=").concat(
                decimal_string(m.tool_calls.len() as u64).as_str(),
            ).concat(" tool_call_id=").concat(quote_or_empty(&m.tool_call_id).as_str()).concat(
                " name=",
            ).concat(quote_or_empty(&m.name).as_str()).concat(" content=").concat(
                print_json(&json_text(m.content.as_str())).as_str(),
            )
        },
        SessionEvent::Response(r) => "response provider=".to_owned().concat(
            r.provider.as_str(),
        ).concat(" model=").concat(r.model.as_str()).concat(" finish_reason=").concat(
            r.finish_reason.as_str(),
        ).concat(" latency_ms=").concat(decimal_string(r.latency_ms).as_str()),
        SessionEvent::Audit(a) => "audit provider=".to_owned().concat(a.provider.as_str()).concat(
            " model=",
        ).concat(a.model.as_str()).concat(" tool_name=").concat(
            quote_or_empty(&a.tool_name).as_str(),
        ).concat(" tool_call_id=").concat(quote_or_empty(&a.tool_call_id).as_str()).concat(
            " verdict=",
        ).concat(print_json(&json_text(a.verdict.as_str())).as_str()).concat(" summary=").concat(
            print_json(&json_text(a.summary.as_str())).as_str(),
        ),
    }
}

/// How many events are messages, replies and verdicts.
pub open spec fn event_counts(v: Seq<StoredEvent>) -> (nat, nat, nat)
    decreases v.len(),
{
    if v.len() == 0 {
        (0, 0, 0)
    } else {
        let (m, r, a) = event_counts(v.drop_last());
        match v.last() {
            StoredEvent::Meta(_, _) => (m, r, a),
            StoredEvent::Message(_) => (m + 1, r, a),
            StoredEvent::Response(_) => (m, r + 1, a),
            StoredEvent::Audit(_) => (m, r, a + 1),
        }
    }
}

/// A session, event by event, and how much it holds.
pub open spec fn session_listing(v: Seq<StoredEvent>) -> Seq<Seq<char>> {
    let (m, r, a) = event_counts(v);
    v.map_values(|e: StoredEvent| event_line(e)).push(
        "summary messages="@ + decimal(m) + " responses="@ + decimal(r) + " audits="@ + decimal(a),
    )
}

proof fn lemma_event_counts(v: Seq<StoredEvent>)
    ensures
        event_counts(v).0 + event_counts(v).1 + event_counts(v).2 <= v.len(),
    decreases v.len(),
{
    if v.len() > 0 {
        lemma_event_counts(v.drop_last());
    }
}

pub fn show_session(events: &Vec<SessionEvent>) -> (r: Vec<String>)
    ensures
        texts(r@) == session_listing(event_views(events@)),
{
    let ghost src = event_views(events@);
    let ghost goal = src.map_values(|e: StoredEvent| event_line(e));
    let mut out: Vec<String> = Vec::new();
    let mut messages: usize = 0;
    let mut responses: usize = 0;
    let mut audits: usize = 0;
    let mut i: usize = 0;
    let n: usize = events.len();
    proof {
        assert(texts(out@) =~= goal.take(0));
    }
    while i < n
        invariant
            i <= n,
            n == events@.len(),
            src == event_views(events@),
            goal == src.map_values(|e: StoredEvent| event_line(e)),
            texts(out@) == goal.take(i as int),
            event_counts(src.take(i as int)) == (messages as nat, responses as nat, audits as nat),
            messages + responses + audits <= i,
        decreases n - i,
    {
        proof {
            lemma_take_step(src, i as int);
            lemma_take_step(goal, i as int);
            assert(src[i as int] == events@[i as int]@);
        }
        match &events[i] {
            SessionEvent::Meta(_) => {},
            SessionEvent::Message(_) => {
                messages = messages + 1;
            },
            SessionEvent::Response(_) => {
                responses = responses + 1;
            },
            SessionEvent::Audit(_) => {
                audits = audits + 1;
            },
        }
        push_line(&mut out, event_line_of(&events[i]));
        i = i + 1;
    }
    proof {
        lemma_take_full(src);
        lemma_take_full(goal);
    }
    push_line(
        &mut out,
        "summary messages=".to_owned().concat(decimal_string(messages as u64).as_str()).concat(
            " responses=",
        ).concat(decimal_string(responses as u64).as_str()).concat(" audits=").concat(
            decimal_string(audits as u64).as_str(),
        ),
    );
    out
}

/// The last turns of a session, or all of them.
pub open spec fn session_rendering(
    id: Seq<char>,
    v: Seq<StoredEvent>,
    last: Option<usize>,
    all: bool,
) -> Result<Seq<char>, Failure> {
    if last == Some(0usize) {
        Err(failure(EXIT_SESSION, "--last must be greater than 0"@))
    } else if turns(v).len() == 0 {
        Err(failure(EXIT_SESSION, "session `"@ + id + "` has no renderable messages"@))
    } else {
        Ok(
            shown_turns(
                turns(v),
                if all {
                    None
                } else {
                    match last {
                        Some(n) => Some(n),
                        None => Some(1usize),
                    }
                },
                None,
            ),
        )
    }
}

/// Whether a number of turns can be asked for.
pub fn check_last(last: Option<usize>) -> (r: AppResult<()>)
    ensures
        last == Some(0usize) ==> (r matches Err(f) && f@ == failure(
            EXIT_SESSION,
            "--last must be greater than 0"@,
        )),
        last != Some(0usize) ==> r is Ok,
{
    match last {
        Some(0) => Err(AppError::new(EXIT_SESSION, "--last must be greater than 0")),
        _ => Ok(()),
    }
}

pub fn render_session(
    config: &AppConfig,
    session_id: &str,
    events: &Vec<SessionEvent>,
    last: Option<usize>,
    all: bool,
) -> (r: AppResult<String>)
    ensures
        text_result(r) == session_rendering(session_id@, event_views(events@), last, all),
{
    match check_last(last) {
        Ok(_) => {},
        Err(e) => {
            return Err(e);
        },
    }
    let all_of_them = session_turns_from_events(events.as_slice());
    proof {
        assert(turn_views(all_of_them@).len() == all_of_them@.len());
    }
    if all_of_them.len() == 0 {
        let message = "session `".to_owned().concat(session_id).concat(
            "` has no renderable messages",
        );
        return Err(AppError::new(EXIT_SESSION, message.as_str()));
    }
    let limit = if all {
        None
    } else {
        match last {
            Some(n) => Some(n),
            None => Some(1),
        }
    };
    Ok(render_session_turns(config, &all_of_them, limit))
}

// ---------------------------------------------------------------------------
// Servers of tools
// ---------------------------------------------------------------------------

pub open spec fn prefixed(prefix: Seq<char>, v: Seq<Seq<char>>) -> Seq<Seq<char>> {
    v.map_values(|t: Seq<char>| prefix + t)
}

fn push_prefixed(out: &mut Vec<String>, prefix: &str, v: &Vec<String>)
    ensures
        texts(final(out)@) == texts(old(out)@) + prefixed(prefix@, texts(v@)),
{
    let ghost before = texts(out@);
    let ghost goal = prefixed(prefix@, texts(v@));
    let mut i: usize = 0;
    proof {
        assert(before + goal.take(0) =~= before);
    }
    while i < v.len()
        invariant
            i <= v@.len(),
            goal == prefixed(prefix@, texts(v@)),
            texts(out@) == before + goal.take(i as int),
        decreases v@.len() - i,
    {
        proof {
            assert(texts(v@)[i as int] == v@[i as int]@);
            lemma_take_step(goal, i as int);
        }
        push_line(out, prefix.to_owned().concat(v[i].as_str()));
        proof {
            assert(texts(out@) =~= before + goal.take(i + 1));
        }
        i = i + 1;
    }
    proof {
        lemma_take_full(goal);
    }
}

pub open spec fn tool_names(v: Seq<McpTool>) -> Seq<Seq<char>> {
    v.map_values(|t: McpTool| t.full_name)
}

fn tool_names_of(v: &Vec<McpToolSpec>) -> (r: Vec<String>)
    ensures
        texts(r@) == tool_names(mcp_tools(v@)),
{
    let ghost goal = tool_names(mcp_tools(v@));
    let mut out: Vec<String> = Vec::new();
    let mut i: usize = 0;
    proof {
        assert(texts(out@) =~= goal.take(0));
    }
    while i < v.len()
        invariant
            i <= v@.len(),
            goal == tool_names(mcp_tools(v@)),
            texts(out@) == goal.take(i as int),
        decreases v@.len() - i,
    {
        proof {
            assert(mcp_tools(v@)[i as int] == v@[i as int]@);
            lemma_take_step(goal, i as int);
        }
        push_line(&mut out, v[i].full_name.clone());
        i = i + 1;
    }
    proof {
        lemma_take_full(goal);
    }
    out
}

/// What is printed of a probe.
pub open spec fn probe_report(p: McpServerProbe, verbose: bool) -> Seq<Seq<char>> {
    seq![
        "server: "@ + p.server@,
        "status: "@ + (if p.ok {
            "ok"@
        } else {
            "error"@
        }),
        "command: "@ + p.command@,
        "tools: "@ + decimal(p.tool_count as nat),
    ] + (if verbose || !p.ok {
        prefixed("debug: "@, texts(p.debug@))
    } else {
        Seq::empty()
    }) + (if p.ok {
        prefixed("tool: "@, tool_names(mcp_tools(p.tools@)))
    } else {
        Seq::empty()
    }) + (match opt_text(p.error) {
        Some(e) => seq!["error: "@ + e],
        None => Seq::empty(),
    })
}

pub fn probe_lines(probe: &McpServerProbe, verbose: bool) -> (r: Vec<String>)
    ensures
        texts(r@) == probe_report(*probe, verbose),
{
    let mut out: Vec<String> = Vec::new();
    push_line(&mut out, "server: ".to_owned().concat(probe.server.as_str()));
    push_line(
        &mut out,
        "status: ".to_owned().concat(
            if probe.ok {
                "ok"
            } else {
                "error"
            },
        ),
    );
    push_line(&mut out, "command: ".to_owned().concat(probe.command.as_str()));
    push_line(
        &mut out,
        "tools: ".to_owned().concat(decimal_string(probe.tool_count as u64).as_str()),
    );
    if verbose || !probe.ok {
        push_prefixed(&mut out, "debug: ", &probe.debug);
    }
    if probe.ok {
        push_prefixed(&mut out, "tool: ", &tool_names_of(&probe.tools));
    }
    if let Some(e) = &probe.error {
        push_line(&mut out, "error: ".to_owned().concat(e.as_str()));
    }
    proof {
        assert(texts(out@) =~= probe_report(*probe, verbose));
    }
    out
}

pub open spec fn daemon_report(enabled: bool, d: McpDaemonStatus) -> Seq<Seq<char>> {
    seq![
        "mcp_enabled: "@ + bool_name(enabled),
        "daemon_registered: "@ + bool_name(d.registered),
        "daemon_running: "@ + bool_name(d.running),
    ] + (match d.pid {
        Some(n) => seq!["daemon_pid: "@ + decimal(n as nat)],
        None => Seq::empty(),
    }) + (match d.port {
        Some(n) => seq!["daemon_port: "@ + decimal(n as nat)],
        None => Seq::empty(),
    }) + seq!["daemon_log: "@ + d.log_file@] + (match opt_text(d.server) {
        Some(s) => seq!["daemon_server: "@ + s],
        None => Seq::empty(),
    }) + (match opt_text(d.error) {
        Some(e) => seq!["daemon_error: "@ + e],
        None => Seq::empty(),
    })
}

fn bool_text(b: bool) -> (r: &'static str)
    ensures
        r@ == bool_name(b),
{
    if b {
        "true"
    } else {
        "false"
    }
}

pub fn daemon_status_lines(enabled: bool, daemon: &McpDaemonStatus) -> (r: Vec<String>)
    ensures
        texts(r@) == daemon_report(enabled, *daemon),
{
    let mut out: Vec<String> = Vec::new();
    push_line(&mut out, "mcp_enabled: ".to_owned().concat(bool_text(enabled)));
    push_line(&mut out, "daemon_registered: ".to_owned().concat(bool_text(daemon.registered)));
    push_line(&mut out, "daemon_running: ".to_owned().concat(bool_text(daemon.running)));
    if let Some(n) = daemon.pid {
        push_line(&mut out, "daemon_pid: ".to_owned().concat(decimal_string(n as u64).as_str()));
    }
    if let Some(n) = daemon.port {
        push_line(&mut out, "daemon_port: ".to_owned().concat(decimal_string(n as u64).as_str()));
    }
    push_line(&mut out, "daemon_log: ".to_owned().concat(daemon.log_file.as_str()));
    if let Some(s) = &daemon.server {
        push_line(&mut out, "daemon_server: ".to_owned().concat(s.as_str()));
    }
    if let Some(e) = &daemon.error {
        push_line(&mut out, "daemon_error: ".to_owned().concat(e.as_str()));
    }
    proof {
        assert(texts(out@) =~= daemon_report(enabled, *daemon));
    }
    out
}

pub open spec fn server_report(s: ServerState) -> Seq<Seq<char>> {
    seq![
        "server: "@ + s.server,
        "enabled: "@ + bool_name(s.enabled),
        "cache_match: "@ + bool_name(s.cached),
        "cache_tools: "@ + decimal(s.cached_tools),
        "live_ok: "@ + bool_name(s.live_ok),
        "live_tools: "@ + decimal(s.live_tools),
    ] + (match s.error {
        Some(e) => seq!["error: "@ + e],
        None => Seq::empty(),
    })
}

pub fn server_status_lines(s: &McpServerStatus) -> (r: Vec<String>)
    ensures
        texts(r@) == server_report(s@),
{
    let mut out: Vec<String> = Vec::new();
    push_line(&mut out, "server: ".to_owned().concat(s.server.as_str()));
    push_line(&mut out, "enabled: ".to_owned().concat(bool_text(s.enabled)));
    push_line(&mut out, "cache_match: ".to_owned().concat(bool_text(s.cached)));
    push_line(
        &mut out,
        "cache_tools: ".to_owned().concat(decimal_string(s.cached_tools as u64).as_str()),
    );
    push_line(&mut out, "live_ok: ".to_owned().concat(bool_text(s.live_ok)));
    push_line(
        &mut out,
        "live_tools: ".to_owned().concat(decimal_string(s.live_tools as u64).as_str()),
    );
    if let Some(e) = &s.error {
        push_line(&mut out, "error: ".to_owned().concat(e.as_str()));
    }
    proof {
        assert(texts(out@) =~= server_report(s@));
    }
    out
}

/// Whether the daemon has to be started: it is wanted and does not run.
pub fn daemon_needs_start(config: &AppConfig, daemon: &McpDaemonStatus) -> (r: bool)
    ensures
        r == (or_flag(config.tools.mcp, false) && !daemon.running),
{
    mcp_enabled(config) && !daemon.running
}

} // verus!
