//! The commands of the interactive mode.

use crate::actions::{drop_line_ends, without_line_ends};
use crate::ask::new_id;
use crate::cli::{AskArgs, ReplArgs};
use crate::config::{AppConfig, AuditConfig, ModelConfig, ToolsConfig, flag_or, or_flag, or_text};
use crate::context::{ContextStatusMode, resolve_context_status_mode};
use crate::diff::ints;
use crate::error::{AppError, AppResult, EXIT_ARGS, Failure, failure};
use crate::media::MessageImage;
use crate::output::AskRoute;
use crate::panels::{
    PanelView, ReplRuntimePanelKind, ReplState, Selection, StateView, build_repl_error_panel,
    build_repl_user_panel, effective_model, effective_provider, either, push_repl_panel,
    repl_effective_model_id, repl_effective_provider_id, user_panel, with_panel,
};
use crate::popup::{
    ReplSlashCommand, command_usage, format_model_list_entry, model_entry, model_order,
    ordered_models, parse_repl_slash_command, slash_command,
};
use crate::screen::{append_strings, on_off, on_off_name};
use crate::session::{
    Usage, generate_session_id, generate_temp_session_id, is_temp, is_temp_session,
    resolve_session_id, resolved, short, short_id,
};
use crate::table::Table;
use crate::target::{resolve_model_use_target, use_target};
use crate::text::{
    join, join_strings, lemma_texts_push, opt_eq, opt_str, opt_text, split_once,
    split_once_spec, str_eq, strip_prefix, strip_prefix_spec, texts, trim, trimmed,
};
use vstd::prelude::*;

verus! {

// ---------------------------------------------------------------------------
// Directives
// ---------------------------------------------------------------------------

/// What was submitted.
#[derive(Debug)]
pub struct ReplInput {
    pub prompt: String,
    pub images: Vec<MessageImage>,
}

/// What is to be done with it.
#[derive(Debug)]
pub enum ReplDirective {
    /// Nothing was submitted.
    Continue,
    /// The interactive mode ends.
    Exit,
    /// It goes to the model.
    Submit,
    /// It is a command, with the text behind it.
    Command(ReplSlashCommand, String),
}

pub enum DirectiveView {
    Continue,
    Exit,
    Submit,
    Command(ReplSlashCommand, Seq<char>),
}

impl View for ReplDirective {
    type V = DirectiveView;

    open spec fn view(&self) -> DirectiveView {
        match self {
            ReplDirective::Continue => DirectiveView::Continue,
            ReplDirective::Exit => DirectiveView::Exit,
            ReplDirective::Submit => DirectiveView::Submit,
            ReplDirective::Command(c, rest) => DirectiveView::Command(*c, rest@),
        }
    }
}

/// What is to be done with an input: with images it always goes to the model.
pub open spec fn directive(prompt: Seq<char>, images: nat) -> DirectiveView {
    if images > 0 {
        DirectiveView::Submit
    } else if trimmed(prompt).len() == 0 {
        DirectiveView::Continue
    } else {
        match slash_command(trimmed(prompt)) {
            Some((ReplSlashCommand::Exit, _)) => DirectiveView::Exit,
            Some((ReplSlashCommand::Quit, _)) => DirectiveView::Exit,
            Some((c, rest)) => DirectiveView::Command(c, rest),
            None => DirectiveView::Submit,
        }
    }
}

pub fn handle_repl_directive(input: &ReplInput) -> (r: ReplDirective)
    ensures
        r@ == directive(input.prompt@, input.images@.len()),
{
    if input.images.len() > 0 {
        return ReplDirective::Submit;
    }
    let text = trim(input.prompt.as_str());
    if text.as_str().is_empty() {
        return ReplDirective::Continue;
    }
    match parse_repl_slash_command(text.as_str()) {
        Some((command, rest)) => match command {
            ReplSlashCommand::Exit | ReplSlashCommand::Quit => ReplDirective::Exit,
            other => ReplDirective::Command(other, rest),
        },
        None => ReplDirective::Submit,
    }
}

/// A text that is no command goes to the model as it is, and so does anything with an image.
pub proof fn law_images_are_submitted(prompt: Seq<char>, images: nat)
    requires
        images > 0,
    ensures
        directive(prompt, images) == DirectiveView::Submit,
{
}

/// A command about the shells that run.
#[derive(Debug)]
pub enum BashCommand {
    Help,
    Sessions,
    Read(String),
    Close(String),
    Input(String, String),
    Unknown,
}

pub enum BashCommandView {
    Help,
    Sessions,
    Read(Seq<char>),
    Close(Seq<char>),
    Input(Seq<char>, Seq<char>),
    Unknown,
}

impl View for BashCommand {
    type V = BashCommandView;

    open spec fn view(&self) -> BashCommandView {
        match self {
            BashCommand::Help => BashCommandView::Help,
            BashCommand::Sessions => BashCommandView::Sessions,
            BashCommand::Read(id) => BashCommandView::Read(id@),
            BashCommand::Close(id) => BashCommandView::Close(id@),
            BashCommand::Input(id, t) => BashCommandView::Input(id@, t@),
            BashCommand::Unknown => BashCommandView::Unknown,
        }
    }
}

pub open spec fn bash_command(rest: Seq<char>) -> Result<BashCommandView, Failure> {
    if rest == ""@ || rest == "help"@ {
        Ok(BashCommandView::Help)
    } else if rest == "sessions"@ {
        Ok(BashCommandView::Sessions)
    } else if let Some(id) = strip_prefix_spec(rest, "read "@) {
        Ok(BashCommandView::Read(trimmed(id)))
    } else if let Some(id) = strip_prefix_spec(rest, "close "@) {
        Ok(BashCommandView::Close(trimmed(id)))
    } else if let Some(args) = strip_prefix_spec(rest, "input "@) {
        match split_once_spec(trimmed(args), " "@) {
            Some((id, text)) => Ok(BashCommandView::Input(id, text)),
            None => Err(failure(EXIT_ARGS, "usage: /bash input <session_id> <text>"@)),
        }
    } else {
        Ok(BashCommandView::Unknown)
    }
}

pub fn handle_repl_bash_command(rest: &str) -> (r: AppResult<BashCommand>)
    ensures
        match r {
            Ok(c) => bash_command(rest@) == Ok::<BashCommandView, Failure>(c@),
            Err(e) => bash_command(rest@) == Err::<BashCommandView, Failure>(e@),
        },
{
    if str_eq(rest, "") || str_eq(rest, "help") {
        return Ok(BashCommand::Help);
    }
    if str_eq(rest, "sessions") {
        return Ok(BashCommand::Sessions);
    }
    if let Some(id) = strip_prefix(rest, "read ") {
        return Ok(BashCommand::Read(trim(id.as_str())));
    }
    if let Some(id) = strip_prefix(rest, "close ") {
        return Ok(BashCommand::Close(trim(id.as_str())));
    }
    if let Some(args) = strip_prefix(rest, "input ") {
        return match split_once(trim(args.as_str()).as_str(), " ") {
            Some((id, text)) => Ok(BashCommand::Input(id, text)),
            None => Err(AppError::new(EXIT_ARGS, "usage: /bash input <session_id> <text>")),
        };
    }
    Ok(BashCommand::Unknown)
}

// ---------------------------------------------------------------------------
// Sessions
// ---------------------------------------------------------------------------

/// A command about sessions.
#[derive(Debug)]
pub enum ReplSessionCommand {
    List,
    Current,
    Switch(String),
    Usage,
}

pub enum SessionCommandView {
    List,
    Current,
    Switch(Seq<char>),
    Usage,
}

impl View for ReplSessionCommand {
    type V = SessionCommandView;

    open spec fn view(&self) -> SessionCommandView {
        match self {
            ReplSessionCommand::List => SessionCommandView::List,
            ReplSessionCommand::Current => SessionCommandView::Current,
            ReplSessionCommand::Switch(id) => SessionCommandView::Switch(id@),
            ReplSessionCommand::Usage => SessionCommandView::Usage,
        }
    }
}

pub open spec fn session_command(rest: Seq<char>) -> SessionCommandView {
    if rest == ""@ || rest == "list"@ {
        SessionCommandView::List
    } else if rest == "current"@ {
        SessionCommandView::Current
    } else {
        match strip_prefix_spec(rest, "switch "@) {
            Some(id) => SessionCommandView::Switch(trimmed(id)),
            None => SessionCommandView::Usage,
        }
    }
}

pub fn handle_repl_session_command(rest: &str) -> (r: ReplSessionCommand)
    ensures
        r@ == session_command(rest@),
{
    if str_eq(rest, "") || str_eq(rest, "list") {
        ReplSessionCommand::List
    } else if str_eq(rest, "current") {
        ReplSessionCommand::Current
    } else {
        match strip_prefix(rest, "switch ") {
            Some(id) => ReplSessionCommand::Switch(trim(id.as_str())),
            None => ReplSessionCommand::Usage,
        }
    }
}

/// The session in use after a command.
#[derive(Debug)]
pub struct NextSession {
    pub session_id: String,
    pub temp: bool,
    pub message: String,
}

/// Switches to a session.
pub fn switch_session(all_sessions: &Vec<String>, id: &str, temp: bool) -> (r: AppResult<
    NextSession,
>)
    ensures
        match resolved(texts(all_sessions@), id@) {
            Ok(found_id) => r matches Ok(n) && n.session_id@ == found_id && n.temp == (is_temp(
                found_id,
            ) || temp) && n.message@ == "switched to "@ + short(found_id),
            Err(e) => r matches Err(f) && f@ == e,
        },
{
    match resolve_session_id(all_sessions, id) {
        Ok(session_id) => {
            let is_temporary = is_temp_session(session_id.as_str()) || temp;
            let message = "switched to ".to_owned().concat(short_id(session_id.as_str()).as_str());
            Ok(NextSession { session_id, temp: is_temporary, message })
        },
        Err(e) => Err(e),
    }
}

/// A new session, a temporary one if that is asked for; nothing where something else is.
pub fn handle_repl_new_session(rest: &str, temp: bool) -> (r: Option<NextSession>)
    ensures
        match r {
            Some(n) => (rest@ == ""@ || rest@ == "temp"@) && n.temp == (temp || rest@ == "temp"@)
                && new_id(n.session_id@, n.temp) && n.message@ == "new session "@ + short(
                n.session_id@,
            ),
            None => rest@ != ""@ && rest@ != "temp"@,
        },
{
    let wants_temp = str_eq(rest, "temp");
    if !wants_temp && !str_eq(rest, "") {
        return None;
    }
    let new_temp = wants_temp || temp;
    proof {
        reveal_strlit("");
        reveal_strlit("temp");
    }
    let session_id = if new_temp {
        generate_temp_session_id()
    } else {
        generate_session_id()
    };
    let message = "new session ".to_owned().concat(short_id(session_id.as_str()).as_str());
    Some(NextSession { session_id, temp: new_temp, message })
}

/// The session that follows one that is cleared.
pub fn handle_repl_clear_command(current: &str, temp: bool) -> (r: NextSession)
    ensures
        r.temp == temp,
        new_id(r.session_id@, temp),
        r.message@ == "cleared session "@ + short(current@) + "; new session "@ + short(
            r.session_id@,
        ),
{
    let session_id = if temp {
        generate_temp_session_id()
    } else {
        generate_session_id()
    };
    let message = "cleared session ".to_owned().concat(short_id(current).as_str()).concat(
        "; new session ",
    ).concat(short_id(session_id.as_str()).as_str());
    NextSession { session_id, temp, message }
}

// ---------------------------------------------------------------------------
// Switches
// ---------------------------------------------------------------------------

/// What is asked of a switch.
#[derive(Debug, Clone, Copy, PartialEq, Eq, Structural)]
pub enum Toggle {
    Status,
    On,
    Off,
    Usage,
}

pub open spec fn toggle_of(rest: Seq<char>) -> Toggle {
    if rest == ""@ || rest == "status"@ {
        Toggle::Status
    } else if rest == "on"@ {
        Toggle::On
    } else if rest == "off"@ {
        Toggle::Off
    } else {
        Toggle::Usage
    }
}

fn read_toggle(rest: &str) -> (r: Toggle)
    ensures
        r == toggle_of(rest@),
{
    if str_eq(rest, "") || str_eq(rest, "status") {
        Toggle::Status
    } else if str_eq(rest, "on") {
        Toggle::On
    } else if str_eq(rest, "off") {
        Toggle::Off
    } else {
        Toggle::Usage
    }
}

/// The value of a switch afterwards.
pub open spec fn toggled(value: Option<bool>, t: Toggle) -> Option<bool> {
    match t {
        Toggle::On => Some(true),
        Toggle::Off => Some(false),
        _ => value,
    }
}

/// What is said of a switch.
pub open spec fn toggle_message(
    name: Seq<char>,
    usage: Seq<char>,
    value: Option<bool>,
    t: Toggle,
) -> Seq<char> {
    match t {
        Toggle::Status => name + ": "@ + on_off(or_flag(value, false)),
        Toggle::On => name + " enabled"@,
        Toggle::Off => name + " disabled"@,
        Toggle::Usage => "usage: "@ + usage,
    }
}

fn toggle_text(name: &str, usage: &str, value: Option<bool>, t: Toggle) -> (r: String)
    ensures
        r@ == toggle_message(name@, usage@, value, t),
{
    match t {
        Toggle::Status => name.to_owned().concat(": ").concat(
            on_off_name(flag_or(value, false)),
        ),
        Toggle::On => name.to_owned().concat(" enabled"),
        Toggle::Off => name.to_owned().concat(" disabled"),
        Toggle::Usage => "usage: ".to_owned().concat(usage),
    }
}

/// Turns the review of calls on or off, or tells whether it is on. Says whether the
/// configuration has to be saved.
pub fn handle_repl_audit_command(config: &mut AppConfig, rest: &str) -> (r: (bool, String))
    ensures
        final(config).audit.enabled == toggled(old(config).audit.enabled, toggle_of(rest@)),
        *final(config) == (AppConfig {
            audit: AuditConfig {
                enabled: final(config).audit.enabled,
                ..old(config).audit
            },
            ..*old(config)
        }),
        r.0 == (toggle_of(rest@) == Toggle::On || toggle_of(rest@) == Toggle::Off),
        r.1@ == toggle_message(
            "audit"@,
            command_usage(ReplSlashCommand::Audit),
            old(config).audit.enabled,
            toggle_of(rest@),
        ),
{
    let t = read_toggle(rest);
    let text = toggle_text("audit", ReplSlashCommand::Audit.usage(), config.audit.enabled, t);
    match t {
        Toggle::On => {
            config.audit.enabled = Some(true);
            (true, text)
        },
        Toggle::Off => {
            config.audit.enabled = Some(false);
            (true, text)
        },
        _ => (false, text),
    }
}

/// Turns the loading of tools on demand on or off, or tells whether it is on. Says whether the
/// configuration has to be saved.
pub fn handle_repl_tool_search_command(config: &mut AppConfig, rest: &str) -> (r: (bool, String))
    ensures
        final(config).tools.progressive_loading == toggled(
            old(config).tools.progressive_loading,
            toggle_of(rest@),
        ),
        *final(config) == (AppConfig {
            tools: ToolsConfig {
                progressive_loading: final(config).tools.progressive_loading,
                ..old(config).tools
            },
            ..*old(config)
        }),
        r.0 == (toggle_of(rest@) == Toggle::On || toggle_of(rest@) == Toggle::Off),
        r.1@ == toggle_message(
            "tool-search"@,
            command_usage(ReplSlashCommand::ToolSearch),
            old(config).tools.progressive_loading,
            toggle_of(rest@),
        ),
{
    let t = read_toggle(rest);
    let text = toggle_text(
        "tool-search",
        ReplSlashCommand::ToolSearch.usage(),
        config.tools.progressive_loading,
        t,
    );
    match t {
        Toggle::On => {
            config.tools.progressive_loading = Some(true);
            (true, text)
        },
        Toggle::Off => {
            config.tools.progressive_loading = Some(false);
            (true, text)
        },
        _ => (false, text),
    }
}

// ---------------------------------------------------------------------------
// Models
// ---------------------------------------------------------------------------

/// The lines of the models from `i` on in a given order, those of a provider if one is given;
/// the one in use is marked.
pub open spec fn choice_lines(
    t: Table<ModelConfig>,
    order: Seq<int>,
    provider: Option<Seq<char>>,
    current: Option<Seq<char>>,
    n: int,
) -> Seq<Seq<char>>
    decreases n,
{
    if n <= 0 {
        Seq::empty()
    } else {
        let before = choice_lines(t, order, provider, current, n - 1);
        let i = order[n - 1];
        let m = t.values()[i];
        let id = t.keys()[i];
        if provider matches Some(p) && p != m.provider@ {
            before
        } else {
            before.push(
                (if current == Some(id) {
                    "*"@
                } else {
                    " "@
                }) + " "@ + model_entry(m) + " [id="@ + id + "]"@,
            )
        }
    }
}

/// The models that can be chosen.
pub open spec fn model_choices(
    c: AppConfig,
    provider: Option<Seq<char>>,
    current: Option<Seq<char>>,
) -> Seq<Seq<char>> {
    let order = model_order(c.models, c.models.keys().len() as int);
    let v = choice_lines(c.models, order, provider, current, order.len() as int);
    seq!["model "@ + or_text(current, "-"@)] + (match provider {
        Some(p) => seq!["provider "@ + p],
        None => Seq::empty(),
    }) + (if v.len() == 0 {
        seq!["no models available"@]
    } else {
        v
    })
}

fn choice_line(m: &ModelConfig, id: &str, current: &Option<String>) -> (r: String)
    ensures
        r@ == (if opt_text(*current) == Some(id@) {
            "*"@
        } else {
            " "@
        }) + " "@ + model_entry(*m) + " [id="@ + id@ + "]"@,
{
    let marker = if opt_eq(current, id) {
        "*"
    } else {
        " "
    };
    marker.to_owned().concat(" ").concat(format_model_list_entry(m).as_str()).concat(
        " [id=",
    ).concat(id).concat("]")
}

fn choices_of(config: &AppConfig, provider: &Option<String>, current: &Option<String>) -> (r: Vec<
    String,
>)
    requires
        config.wf(),
    ensures
        texts(r@) == choice_lines(
            config.models,
            model_order(config.models, config.models.keys().len() as int),
            opt_text(*provider),
            opt_text(*current),
            model_order(config.models, config.models.keys().len() as int).len() as int,
        ),
{
    let order = ordered_models(&config.models);
    let n: usize = order.len();
    let ghost numbers = model_order(config.models, config.models.keys().len() as int);
    let mut out: Vec<String> = Vec::new();
    let mut i: usize = 0;
    proof {
        assert(texts(out@) =~= Seq::<Seq<char>>::empty());
        assert(ints(order@).len() == order@.len());
    }
    while i < n
        invariant
            i <= n,
            config.models.wf(),
            order@.len() == n,
            ints(order@) == numbers,
            forall|k: int| 0 <= k < n ==> (#[trigger] order@[k]) < config.models.keys().len(),
            texts(out@) == choice_lines(
                config.models,
                numbers,
                opt_text(*provider),
                opt_text(*current),
                i as int,
            ),
        decreases n - i,
    {
        let k: usize = order[i];
        proof {
            assert(numbers[i as int] == k as int);
        }
        let m = config.models.value_at(k);
        let listed = match provider {
            Some(p) => str_eq(p.as_str(), m.provider.as_str()),
            None => true,
        };
        if listed {
            let line = choice_line(m, config.models.key_at(k), current);
            proof {
                lemma_texts_push(out@, line);
            }
            out.push(line);
        }
        i = i + 1;
    }
    out
}

/// The models that can be chosen: those of a provider if one is given, else those of the one in
/// use.
pub fn print_repl_model_choices(
    cli: &Selection,
    config: &AppConfig,
    state: &ReplState,
    provider_filter: Option<&str>,
) -> (r: Vec<String>)
    requires
        config.wf(),
    ensures
        texts(r@) == model_choices(
            *config,
            either(opt_str(provider_filter), effective_provider(state@, *cli, *config)),
            effective_model(state@, *cli, *config),
        ),
{
    let provider = match provider_filter {
        Some(p) => Some(p.to_owned()),
        None => repl_effective_provider_id(cli, config, state),
    };
    let current = repl_effective_model_id(cli, config, state);
    let shown_model = match &current {
        Some(m) => m.clone(),
        None => "-".to_owned(),
    };
    let mut out: Vec<String> = Vec::new();
    out.push("model ".to_owned().concat(shown_model.as_str()));
    if let Some(p) = &provider {
        out.push("provider ".to_owned().concat(p.as_str()));
    }
    let v = choices_of(config, &provider, &current);
    let ghost head = texts(out@);
    let ghost listed = texts(v@);
    proof {
        assert(head =~= seq!["model "@ + or_text(opt_text(current), "-"@)] + (match opt_text(
            provider,
        ) {
            Some(p) => seq!["provider "@ + p],
            None => Seq::empty(),
        }));
        assert(listed.len() == v@.len());
    }
    if v.len() == 0 {
        let none = "no models available".to_owned();
        proof {
            lemma_texts_push(out@, none);
            assert(head.push(none@) =~= head + seq![none@]);
        }
        out.push(none);
    } else {
        append_strings(&mut out, v);
    }
    out
}

/// What is asked about models.
pub enum ModelRequest {
    List(Option<Seq<char>>),
    Reset,
    Choose(Seq<char>),
}

pub open spec fn model_request(rest: Seq<char>) -> ModelRequest {
    if rest == ""@ || rest == "list"@ {
        ModelRequest::List(None)
    } else if rest == "reset"@ {
        ModelRequest::Reset
    } else {
        match strip_prefix_spec(rest, "list "@) {
            Some(p) => ModelRequest::List(Some(trimmed(p))),
            None => ModelRequest::Choose(rest),
        }
    }
}

/// The state after a command about models.
pub open spec fn model_state(s: StateView, c: AppConfig, rest: Seq<char>) -> StateView {
    match model_request(rest) {
        ModelRequest::List(_) => s,
        ModelRequest::Reset => StateView { model: None, ..s },
        ModelRequest::Choose(target) => match use_target(c, target) {
            Ok((provider, model)) => StateView {
                provider: Some(provider),
                model: Some(model),
                ..s
            },
            Err(_) => s,
        },
    }
}

/// What a command about models prints.
pub open spec fn model_answer(s: StateView, cli: Selection, c: AppConfig, rest: Seq<char>) -> Result<
    Seq<Seq<char>>,
    Failure,
> {
    match model_request(rest) {
        ModelRequest::List(filter) => Ok(
            model_choices(
                c,
                either(filter, effective_provider(s, cli, c)),
                effective_model(s, cli, c),
            ),
        ),
        ModelRequest::Reset => Ok(
            seq![
                "model reset to "@ + or_text(
                    effective_model(StateView { model: None, ..s }, cli, c),
                    "-"@,
                ),
            ],
        ),
        ModelRequest::Choose(target) => match use_target(c, target) {
            Ok((provider, model)) => Ok(
                seq!["model set to "@ + model + " provider="@ + provider],
            ),
            Err(e) => Err(e),
        },
    }
}

pub open spec fn lines_result(r: AppResult<Vec<String>>) -> Result<Seq<Seq<char>>, Failure> {
    match r {
        Ok(v) => Ok(texts(v@)),
        Err(e) => Err(e@),
    }
}

fn single(line: String) -> (r: Vec<String>)
    ensures
        texts(r@) == seq![line@],
{
    let v = vec![line];
    proof {
        assert(texts(v@) =~= seq![line@]);
    }
    v
}

pub fn handle_repl_model_command(
    cli: &Selection,
    config: &AppConfig,
    state: &mut ReplState,
    rest: &str,
) -> (r: AppResult<Vec<String>>)
    requires
        config.wf(),
    ensures
        final(state)@ == model_state(old(state)@, *config, rest@),
        lines_result(r) == model_answer(old(state)@, *cli, *config, rest@),
{
    if str_eq(rest, "") || str_eq(rest, "list") {
        return Ok(print_repl_model_choices(cli, config, state, None));
    }
    if str_eq(rest, "reset") {
        state.model_override = None;
        let model = match repl_effective_model_id(cli, config, state) {
            Some(m) => m,
            None => "-".to_owned(),
        };
        return Ok(single("model reset to ".to_owned().concat(model.as_str())));
    }
    if let Some(p) = strip_prefix(rest, "list ") {
        let p = trim(p.as_str());
        return Ok(print_repl_model_choices(cli, config, state, Some(p.as_str())));
    }
    match resolve_model_use_target(config, rest) {
        Ok((provider_id, model_id)) => {
            let message = "model set to ".to_owned().concat(model_id.as_str()).concat(
                " provider=",
            ).concat(provider_id.as_str());
            state.provider_override = Some(provider_id);
            state.model_override = Some(model_id);
            Ok(single(message))
        },
        Err(e) => Err(e),
    }
}

/// A model that was chosen by its identifier is the one in use.
pub proof fn law_chosen_model_is_used(s: StateView, cli: Selection, c: AppConfig, target: Seq<char>)
    requires
        model_request(target) == ModelRequest::Choose(target),
        split_once_spec(target, "/"@) is None,
        c.models.has(target),
    ensures
        effective_model(model_state(s, c, target), cli, c) == Some(target),
        effective_provider(model_state(s, c, target), cli, c) == Some(
            c.models.lookup(target)->Some_0.provider@,
        ),
{
}

// ---------------------------------------------------------------------------
// Lines
// ---------------------------------------------------------------------------

/// What comes of a line of an input of several lines.
#[derive(Debug)]
pub enum PromptStep {
    /// More lines follow.
    More,
    /// The input is complete.
    Done(String),
}

pub open spec fn step_text(r: PromptStep) -> Option<Seq<char>> {
    match r {
        PromptStep::More => None,
        PromptStep::Done(s) => Some(s@),
    }
}

/// The input that is complete with a line, if it is: a single dot ends it, and so does a command
/// to leave in the first line.
pub open spec fn prompt_done(lines_before: Seq<Seq<char>>, line: Seq<char>) -> Option<Seq<char>> {
    let t = without_line_ends(line);
    if lines_before.len() == 0 && (t == "/exit"@ || t == "/quit"@) {
        Some(t)
    } else if t == "."@ {
        Some(join(lines_before, "\n"@))
    } else {
        None
    }
}

/// Takes a line of an input of several lines.
pub fn read_repl_prompt(lines_before: &mut Vec<String>, line: &str) -> (r: PromptStep)
    ensures
        step_text(r) == prompt_done(texts(old(lines_before)@), line@),
        texts(final(lines_before)@) == if r is More {
            texts(old(lines_before)@).push(without_line_ends(line@))
        } else {
            texts(old(lines_before)@)
        },
{
    let t = drop_line_ends(line);
    proof {
        assert(texts(lines_before@).len() == lines_before@.len());
    }
    if lines_before.len() == 0 && (str_eq(t.as_str(), "/exit") || str_eq(t.as_str(), "/quit")) {
        return PromptStep::Done(t);
    }
    if str_eq(t.as_str(), ".") {
        return PromptStep::Done(join_strings(lines_before, "\n"));
    }
    proof {
        lemma_texts_push(lines_before@, t);
    }
    lines_before.push(t);
    PromptStep::More
}

/// What is shown before a line.
pub fn prompt_mark(lines_before: &Vec<String>) -> (r: &'static str)
    ensures
        r@ == if lines_before@.len() == 0 {
            "> "@
        } else {
            "| "@
        },
{
    if lines_before.len() == 0 {
        "> "
    } else {
        "| "
    }
}

// ---------------------------------------------------------------------------
// Turns
// ---------------------------------------------------------------------------

/// The state that the interactive mode starts with.
pub fn start_repl(args: &ReplArgs, config: &AppConfig) -> (r: AppResult<ReplState>)
    ensures
        args.new_session && args.session is Some ==> (r matches Err(f) && f@ == failure(
            EXIT_ARGS,
            "--new-session cannot be used together with --session"@,
        )),
        !(args.new_session && args.session is Some) ==> (r matches Ok(s) && s@ == (StateView {
            stream: !args.no_stream || args.stream,
            tools: args.tools || or_flag(config.defaults.tools, true),
            context_status: match (args.context_status, config.defaults.context_status) {
                (Some(m), _) => m,
                (None, Some(m)) => m,
                (None, None) => ContextStatusMode::Off,
            },
            provider: None,
            model: None,
            panels: Seq::empty(),
            transient: None,
        })),
{
    if args.new_session && args.session.is_some() {
        return Err(
            AppError::new(EXIT_ARGS, "--new-session cannot be used together with --session"),
        );
    }
    let mut state = ReplState::default();
    state.stream = !args.no_stream || args.stream;
    state.tools = args.tools || flag_or(config.defaults.tools, true);
    state.context_status =
    resolve_context_status_mode(args.context_status, config.defaults.context_status);
    Ok(state)
}

/// The options of a turn.
pub fn turn_options(args: &ReplArgs, state: &ReplState, session_id: &str) -> (r: AskArgs)
    ensures
        opt_text(r.session) == Some(session_id@),
        !r.new_session,
        r.ephemeral == args.ephemeral,
        r.temp == args.temp,
        r.tools == state@.tools,
        r.yes == args.yes,
        r.stream == state@.stream,
        r.temperature is None,
        r.max_output_tokens is None,
        r.params@.len() == 0,
        r.timeout is None,
        !r.raw_provider_response,
        r.context_status == Some(state@.context_status),
{
    AskArgs {
        session: Some(session_id.to_owned()),
        new_session: false,
        ephemeral: args.ephemeral,
        temp: args.temp,
        tools: state.tools,
        yes: args.yes,
        stream: state.stream,
        temperature: None,
        max_output_tokens: None,
        params: Vec::new(),
        timeout: None,
        raw_provider_response: false,
        context_status: Some(state.context_status),
    }
}

/// How the question of a turn is asked: with tools if they are on, whatever the defaults say.
pub fn turn_route(state: &ReplState) -> (r: AskRoute)
    ensures
        r == if state@.tools {
            AskRoute::Tools
        } else if state@.stream {
            AskRoute::Stream
        } else {
            AskRoute::Plain
        },
{
    if state.tools {
        AskRoute::Tools
    } else if state.stream {
        AskRoute::Stream
    } else {
        AskRoute::Plain
    }
}

/// Shows a turn that failed: what was submitted, and the error.
pub fn note_failed_turn(
    state: &mut ReplState,
    config: &AppConfig,
    prompt: &str,
    images: &Vec<MessageImage>,
    error: &AppError,
)
    ensures
        final(state)@ == with_panel(
            with_panel(old(state)@, user_panel(prompt@, images@.len())),
            (PanelView {
                kind: ReplRuntimePanelKind::Error,
                title: "Error"@,
                body: error@.message,
            }),
        ),
{
    push_repl_panel(state, build_repl_user_panel(config, prompt, images));
    push_repl_panel(state, build_repl_error_panel(error.message.as_str()));
}

} // verus!
