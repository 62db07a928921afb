//! Which provider, model and key a request goes to.

use crate::config::{
    AppConfig, ModelConfig, ModelView, ProviderConfig, ProviderView, SecretsConfig, headers_wf,
    text_result,
};
use crate::error::{
    AppError, AppResult, EXIT_ARGS, EXIT_AUTH, EXIT_MODEL, EXIT_PROVIDER, Failure, failure,
};
use crate::json::{
    Json, JsonView, field_views, json_text, parse_json, parsed_json, put_field, with_field,
};
use crate::panels::{Selection, either, first_of};
use crate::session::contains_string;
use crate::table::Table;
use crate::text::{
    ascii_lower, blank, is_blank, lemma_take_full, lemma_take_step, opt_eq, opt_text,
    split_once, split_once_spec, starts_with, starts_with_spec, str_eq, texts, to_ascii_lower,
};
use vstd::prelude::*;

verus! {

pub open spec fn provider_view(p: Option<ProviderConfig>) -> Option<ProviderView> {
    match p {
        Some(p) => Some(p@),
        None => None,
    }
}

pub open spec fn model_view(m: Option<ModelConfig>) -> Option<ModelView> {
    match m {
        Some(m) => Some(m@),
        None => None,
    }
}

proof fn lemma_lookup_headers(t: Table<ProviderConfig>, key: Seq<char>)
    requires
        t.wf(),
        headers_wf(t),
        t.has(key),
    ensures
        t.lookup(key)->Some_0.headers.wf(),
{
    let i = t.keys().index_of(key);
    assert(t.is_at(key, i));
    t.lemma_place(key, i);
}

/// The provider with a name.
pub fn provider_named<'a>(config: &'a AppConfig, id: &str) -> (r: Option<&'a ProviderConfig>)
    requires
        config.wf(),
    ensures
        match r {
            Some(p) => config.providers.lookup(id@) == Some(*p) && p.headers.wf(),
            None => !config.providers.has(id@),
        },
{
    let r = config.providers.get(id);
    proof {
        if r is Some {
            assert(config.providers.has(id@));
            lemma_lookup_headers(config.providers, id@);
        }
    }
    r
}

// ---------------------------------------------------------------------------
// Keys
// ---------------------------------------------------------------------------

/// Whether a provider runs on this machine, or is of a kind that does.
pub open spec fn needs_no_key(p: ProviderView) -> bool {
    p.kind == "ollama"@ || (p.kind == "openai_compatible"@ && (p.base_url matches Some(u) && {
        let u = ascii_lower(u);
        ||| starts_with_spec(u, "http://localhost"@)
        ||| starts_with_spec(u, "http://127.0.0.1"@)
        ||| starts_with_spec(u, "http://0.0.0.0"@)
    }))
}

pub fn provider_allows_missing_api_key(provider: &ProviderConfig) -> (r: bool)
    ensures
        r == needs_no_key(provider@),
{
    if str_eq(provider.kind.as_str(), "ollama") {
        return true;
    }
    if !str_eq(provider.kind.as_str(), "openai_compatible") {
        return false;
    }
    match &provider.base_url {
        None => false,
        Some(u) => {
            let u = to_ascii_lower(u.as_str());
            starts_with(u.as_str(), "http://localhost") || starts_with(
                u.as_str(),
                "http://127.0.0.1",
            ) || starts_with(u.as_str(), "http://0.0.0.0")
        },
    }
}

pub open spec fn written(o: Option<Seq<char>>) -> Option<Seq<char>> {
    match o {
        Some(t) => if is_blank(t) {
            None
        } else {
            Some(t)
        },
        None => None,
    }
}

/// The value of the environment variable that a provider names.
pub open spec fn env_key(p: ProviderView, env: Table<String>) -> Option<Seq<char>> {
    match p.api_key_env {
        Some(name) => opt_text(env.lookup(name)),
        None => None,
    }
}

/// The stored key of a provider.
pub open spec fn stored_key(id: Seq<char>, secrets: SecretsConfig) -> Option<Seq<char>> {
    match secrets.providers.lookup(id) {
        Some(s) => opt_text(s.api_key),
        None => None,
    }
}

/// The key of a provider: the one from the environment, else the stored one, else an empty one
/// where none is needed.
pub open spec fn key_of(
    id: Seq<char>,
    p: ProviderView,
    secrets: SecretsConfig,
    env: Table<String>,
) -> Result<Seq<char>, Failure> {
    match written(env_key(p, env)) {
        Some(k) => Ok(k),
        None => match written(stored_key(id, secrets)) {
            Some(k) => Ok(k),
            None => if needs_no_key(p) {
                Ok(Seq::empty())
            } else {
                Err(
                    failure(
                        EXIT_AUTH,
                        "missing API key for provider `"@ + id + "`; use `chat config auth set "@
                            + id + " --value ...` or configure provider.api_key_env"@,
                    ),
                )
            },
        },
    }
}

pub fn resolve_api_key(
    provider_id: &str,
    provider: &ProviderConfig,
    secrets: &SecretsConfig,
    env: &Table<String>,
) -> (r: AppResult<String>)
    requires
        secrets.providers.wf(),
        env.wf(),
    ensures
        text_result(r) == key_of(provider_id@, provider@, *secrets, *env),
{
    if let Some(name) = &provider.api_key_env {
        if let Some(value) = env.get(name.as_str()) {
            if !blank(value.as_str()) {
                return Ok(value.clone());
            }
        }
    }
    if let Some(secret) = secrets.providers.get(provider_id) {
        if let Some(key) = &secret.api_key {
            if !blank(key.as_str()) {
                return Ok(key.clone());
            }
        }
    }
    if provider_allows_missing_api_key(provider) {
        let none = String::new();
        proof {
            assert(none@ =~= Seq::<char>::empty());
        }
        return Ok(none);
    }
    let message = "missing API key for provider `".to_owned().concat(provider_id).concat(
        "`; use `chat config auth set ",
    ).concat(provider_id).concat(" --value ...` or configure provider.api_key_env");
    Err(AppError::new(EXIT_AUTH, message.as_str()))
}

/// A key from the environment is preferred to a stored one.
pub proof fn law_environment_wins(
    id: Seq<char>,
    p: ProviderView,
    secrets: SecretsConfig,
    env: Table<String>,
    key: Seq<char>,
)
    requires
        env_key(p, env) == Some(key),
        !is_blank(key),
    ensures
        key_of(id, p, secrets, env) == Ok::<Seq<char>, Failure>(key),
{
}

// ---------------------------------------------------------------------------
// Models
// ---------------------------------------------------------------------------

pub fn model_supports_capability(model: &ModelConfig, capability: &str) -> (r: bool)
    ensures
        r == model@.capabilities.contains(capability@),
{
    contains_string(&model.capabilities, capability)
}

pub open spec fn provider_missing(id: Seq<char>) -> Failure {
    failure(EXIT_PROVIDER, "provider `"@ + id + "` does not exist"@)
}

pub open spec fn model_missing(id: Seq<char>) -> Failure {
    failure(EXIT_MODEL, "model `"@ + id + "` does not exist"@)
}

pub fn provider_missing_error(id: &str) -> (r: AppError)
    ensures
        r@ == provider_missing(id@),
{
    AppError::new(
        EXIT_PROVIDER,
        "provider `".to_owned().concat(id).concat("` does not exist").as_str(),
    )
}

pub fn model_missing_error(id: &str) -> (r: AppError)
    ensures
        r@ == model_missing(id@),
{
    AppError::new(
        EXIT_MODEL,
        "model `".to_owned().concat(id).concat("` does not exist").as_str(),
    )
}

/// The place of the first model of a provider with a name, from `i` on: its remote name, or its
/// own.
pub open spec fn model_place(
    t: Table<ModelConfig>,
    provider: Seq<char>,
    name: Seq<char>,
    remote: bool,
    i: int,
) -> Option<int>
    decreases t.keys().len() - i,
{
    if i < 0 || i >= t.keys().len() {
        None
    } else {
        let m = t.values()[i];
        let own = if remote {
            m.remote_name@
        } else {
            t.keys()[i]
        };
        if m.provider@ == provider && own == name {
            Some(i)
        } else {
            model_place(t, provider, name, remote, i + 1)
        }
    }
}

/// The identifier of a model that is named behind its provider.
pub open spec fn model_under(c: AppConfig, p: ProviderConfig, provider: Seq<char>, name: Seq<char>) -> Option<
    Seq<char>,
> {
    match model_place(c.models, provider, name, true, 0) {
        Some(i) => Some(c.models.keys()[i]),
        None => match model_place(c.models, provider, name, false, 0) {
            Some(i) => Some(c.models.keys()[i]),
            None => if opt_text(p.default_model) == Some(name) {
                Some(name)
            } else {
                None
            },
        },
    }
}

/// The provider and the model that a text names: `provider/model`, or the identifier of a model.
pub open spec fn use_target(c: AppConfig, target: Seq<char>) -> Result<
    (Seq<char>, Seq<char>),
    Failure,
> {
    match split_once_spec(target, "/"@) {
        Some((provider, name)) => match c.providers.lookup(provider) {
            None => Err(provider_missing(provider)),
            Some(p) => match model_under(c, p, provider, name) {
                Some(id) => Ok((provider, id)),
                None => Err(
                    failure(
                        EXIT_MODEL,
                        "model `"@ + name + "` does not exist under provider `"@ + provider + "`"@,
                    ),
                ),
            },
        },
        None => match c.models.lookup(target) {
            Some(m) => Ok((m.provider@, target)),
            None => Err(model_missing(target)),
        },
    }
}

pub open spec fn pair_result(r: AppResult<(String, String)>) -> Result<
    (Seq<char>, Seq<char>),
    Failure,
> {
    match r {
        Ok(p) => Ok((p.0@, p.1@)),
        Err(e) => Err(e@),
    }
}

proof fn lemma_model_place(
    t: Table<ModelConfig>,
    provider: Seq<char>,
    name: Seq<char>,
    remote: bool,
    i: int,
)
    requires
        0 <= i,
    ensures
        model_place(t, provider, name, remote, i) matches Some(k) ==> 0 <= k < t.keys().len(),
    decreases t.keys().len() - i,
{
    if i < t.keys().len() {
        lemma_model_place(t, provider, name, remote, i + 1);
    }
}

fn place_of_model(t: &Table<ModelConfig>, provider: &str, name: &str, remote: bool) -> (r: Option<
    usize,
>)
    requires
        t.wf(),
    ensures
        match r {
            Some(i) => model_place(*t, provider@, name@, remote, 0) == Some(i as int) && i
                < t.keys().len(),
            None => model_place(*t, provider@, name@, remote, 0) is None,
        },
{
    let n: usize = t.len();
    let mut i: usize = 0;
    while i < n
        invariant
            i <= n,
            t.wf(),
            n == t.keys().len(),
            model_place(*t, provider@, name@, remote, 0) == model_place(
                *t,
                provider@,
                name@,
                remote,
                i as int,
            ),
        decreases n - i,
    {
        let m = t.value_at(i);
        let own = if remote {
            str_eq(m.remote_name.as_str(), name)
        } else {
            str_eq(t.key_at(i), name)
        };
        if str_eq(m.provider.as_str(), provider) && own {
            return Some(i);
        }
        i = i + 1;
    }
    None
}

pub fn resolve_model_use_target(config: &AppConfig, target: &str) -> (r: AppResult<
    (String, String),
>)
    requires
        config.wf(),
    ensures
        pair_result(r) == use_target(*config, target@),
{
    match split_once(target, "/") {
        Some((provider_id, name)) => {
            let provider = match config.providers.get(provider_id.as_str()) {
                Some(p) => p,
                None => {
                    return Err(provider_missing_error(provider_id.as_str()));
                },
            };
            if let Some(i) = place_of_model(
                &config.models,
                provider_id.as_str(),
                name.as_str(),
                true,
            ) {
                let id = config.models.key_at(i).to_owned();
                return Ok((provider_id, id));
            }
            if let Some(i) = place_of_model(
                &config.models,
                provider_id.as_str(),
                name.as_str(),
                false,
            ) {
                let id = config.models.key_at(i).to_owned();
                return Ok((provider_id, id));
            }
            if opt_eq(&provider.default_model, name.as_str()) {
                return Ok((provider_id, name));
            }
            let message = "model `".to_owned().concat(name.as_str()).concat(
                "` does not exist under provider `",
            ).concat(provider_id.as_str()).concat("`");
            Err(AppError::new(EXIT_MODEL, message.as_str()))
        },
        None => match config.models.get(target) {
            Some(m) => Ok((m.provider.clone(), target.to_owned())),
            None => Err(model_missing_error(target)),
        },
    }
}

/// The provider and the model of a question: those asked for, else the defaults. The model must
/// belong to the provider.
pub open spec fn question_target(c: AppConfig, cli: Selection) -> Result<
    (Seq<char>, Seq<char>),
    Failure,
> {
    match either(opt_text(cli.provider), opt_text(c.defaults.provider)) {
        None => Err(failure(EXIT_PROVIDER, "no provider selected"@)),
        Some(provider) => match c.providers.lookup(provider) {
            None => Err(provider_missing(provider)),
            Some(p) => match either(
                opt_text(cli.model),
                either(opt_text(c.defaults.model), opt_text(p.default_model)),
            ) {
                None => Err(failure(EXIT_MODEL, "no model selected"@)),
                Some(model) => match c.models.lookup(model) {
                    None => Err(model_missing(model)),
                    Some(m) => if m.provider@ == provider {
                        Ok((provider, model))
                    } else {
                        Err(
                            failure(
                                EXIT_MODEL,
                                "model `"@ + model + "` belongs to provider `"@ + m.provider@
                                    + "`, not `"@ + provider + "`"@,
                            ),
                        )
                    },
                },
            },
        },
    }
}

pub fn select_target(cli: &Selection, config: &AppConfig) -> (r: AppResult<(String, String)>)
    requires
        config.wf(),
    ensures
        pair_result(r) == question_target(*config, *cli),
{
    let provider_id = match first_of(&cli.provider, &config.defaults.provider, &None) {
        Some(p) => p,
        None => {
            return Err(AppError::new(EXIT_PROVIDER, "no provider selected"));
        },
    };
    let provider = match config.providers.get(provider_id.as_str()) {
        Some(p) => p,
        None => {
            return Err(provider_missing_error(provider_id.as_str()));
        },
    };
    let model_id = match first_of(&cli.model, &config.defaults.model, &provider.default_model) {
        Some(m) => m,
        None => {
            return Err(AppError::new(EXIT_MODEL, "no model selected"));
        },
    };
    match config.models.get(model_id.as_str()) {
        None => Err(model_missing_error(model_id.as_str())),
        Some(m) => {
            if str_eq(m.provider.as_str(), provider_id.as_str()) {
                Ok((provider_id, model_id))
            } else {
                let message = "model `".to_owned().concat(model_id.as_str()).concat(
                    "` belongs to provider `",
                ).concat(m.provider.as_str()).concat("`, not `").concat(
                    provider_id.as_str(),
                ).concat("`");
                Err(AppError::new(EXIT_MODEL, message.as_str()))
            }
        },
    }
}

/// What a question goes to exists, and the model is one of the provider's.
pub proof fn law_target_exists(c: AppConfig, cli: Selection, provider: Seq<char>, model: Seq<char>)
    requires
        question_target(c, cli) == Ok::<(Seq<char>, Seq<char>), Failure>((provider, model)),
    ensures
        c.providers.has(provider),
        c.models.has(model),
        c.models.lookup(model)->Some_0.provider@ == provider,
{
}

// ---------------------------------------------------------------------------
// Parameters
// ---------------------------------------------------------------------------

/// The value of a parameter: what its text reads as, else the text itself.
pub open spec fn param_value(raw: Seq<char>, parsed: Result<JsonView, Seq<char>>) -> JsonView {
    match parsed {
        Ok(j) => j,
        Err(_) => JsonView::Str(raw),
    }
}

/// The value of a parameter, given what its text reads as.
pub fn value_of_param(raw: &str, parsed: Result<Json, String>) -> (r: Json)
    ensures
        r@ == param_value(raw@, json_result_view(parsed)),
{
    match parsed {
        Ok(j) => j,
        Err(_) => json_text(raw),
    }
}

pub open spec fn json_result_view(r: Result<Json, String>) -> Result<JsonView, Seq<char>> {
    match r {
        Ok(j) => Ok(j@),
        Err(e) => Err(e@),
    }
}

pub open spec fn bad_param(item: Seq<char>) -> Failure {
    failure(EXIT_ARGS, "invalid --param `"@ + item + "`, expected KEY=VALUE"@)
}

/// The parameters that are given as `key=value`; of two with one key the last counts.
pub open spec fn params_of(v: Seq<Seq<char>>) -> Result<Seq<(Seq<char>, JsonView)>, Failure>
    decreases v.len(),
{
    if v.len() == 0 {
        Ok(Seq::empty())
    } else {
        match params_of(v.drop_last()) {
            Err(e) => Err(e),
            Ok(before) => match split_once_spec(v.last(), "="@) {
                None => Err(bad_param(v.last())),
                Some((key, raw)) => Ok(with_field(before, key, param_value(raw, parsed_json(raw)))),
            },
        }
    }
}

pub open spec fn fields_result(r: AppResult<Vec<(String, Json)>>) -> Result<
    Seq<(Seq<char>, JsonView)>,
    Failure,
> {
    match r {
        Ok(v) => Ok(field_views(v@)),
        Err(e) => Err(e@),
    }
}

proof fn lemma_params_fail(v: Seq<Seq<char>>, i: int, e: Failure)
    requires
        0 <= i <= v.len(),
        params_of(v.take(i)) == Err::<Seq<(Seq<char>, JsonView)>, Failure>(e),
    ensures
        params_of(v) == Err::<Seq<(Seq<char>, JsonView)>, Failure>(e),
    decreases v.len() - i,
{
    if i == v.len() {
        lemma_take_full(v);
    } else {
        lemma_take_step(v, i);
        lemma_params_fail(v, i + 1, e);
    }
}

pub fn parse_params(items: &Vec<String>) -> (r: AppResult<Vec<(String, Json)>>)
    ensures
        fields_result(r) == params_of(texts(items@)),
{
    let ghost src = texts(items@);
    let mut out: Vec<(String, Json)> = Vec::new();
    let mut i: usize = 0;
    proof {
        assert(field_views(out@) =~= Seq::<(Seq<char>, JsonView)>::empty());
    }
    while i < items.len()
        invariant
            i <= items@.len(),
            src == texts(items@),
            params_of(src.take(i as int)) == Ok::<Seq<(Seq<char>, JsonView)>, Failure>(
                field_views(out@),
            ),
        decreases items@.len() - i,
    {
        proof {
            lemma_take_step(src, i as int);
            assert(src[i as int] == items@[i as int]@);
        }
        match split_once(items[i].as_str(), "=") {
            None => {
                let message = "invalid --param `".to_owned().concat(items[i].as_str()).concat(
                    "`, expected KEY=VALUE",
                );
                let e = AppError::new(EXIT_ARGS, message.as_str());
                proof {
                    lemma_params_fail(src, i + 1, e@);
                }
                return Err(e);
            },
            Some((key, raw)) => {
                let value = value_of_param(raw.as_str(), parse_json(raw.as_str()));
                put_field(&mut out, key.as_str(), value);
            },
        }
        i = i + 1;
    }
    proof {
        lemma_take_full(src);
    }
    Ok(out)
}

} // verus!
