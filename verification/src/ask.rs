//! A question: what it is made of, where it goes and what is saved of it.

use crate::chat::{
    ChatMessage, ChatRequest, ChatResponse, MessageView, ReplyView, clone_messages,
    lemma_messages_push, message_views, plain_message,
};
use crate::cli::{AskArgs, OutputFormat};
use crate::config::{
    AppConfig, ModelConfig, ModelView, ProviderConfig, ProviderView, SecretsConfig, flag_or,
    or_flag, or_text, text_result,
};
use crate::context::{
    ContextStatusMode, prepend_context_status, resolve_context_status_mode, with_status_text,
};
use crate::error::{
    AppError, AppResult, EXIT_ARGS, EXIT_MODEL, EXIT_PROVIDER, EXIT_SESSION, Failure, failure,
};
use crate::json::{Json, JsonView, clone_list, field_views, jsons};
use crate::media::{ImageView, MessageImage, clone_images, image_views, images_result};
use crate::panels::{Selection, either, first_of};
use crate::screen::append_strings;
use crate::session::{
    SessionEvent, SessionMessage, SessionResponse, StoredEvent, StoredMessage, StoredResponse,
    bare_id, bare_session_id, event_views, generate_session_id, generate_temp_session_id,
    is_temp, is_temp_session, lemma_events_push, resolve_session_id, resolved, ulid_text,
};
use crate::table::Table;
use crate::target::{
    key_of, model_missing_error, model_supports_capability, params_of, parse_params,
    provider_missing_error, provider_named, question_target, resolve_api_key, select_target,
};
use crate::text::{
    blank, clone_opt, is_blank, join, join_strings, lemma_take_full, lemma_take_step,
    lemma_texts_push, opt_eq, opt_str, opt_text, starts_with, starts_with_spec, str_eq, texts,
};
use crate::transcript::{renderable, renderable_messages, session_message_has_renderable_payload};
use vstd::prelude::*;

verus! {

// ---------------------------------------------------------------------------
// Sessions
// ---------------------------------------------------------------------------

/// Whether an identifier is one that was newly made.
pub open spec fn new_id(id: Seq<char>, temp: bool) -> bool {
    if temp {
        starts_with_spec(id, "tmp_"@) && ulid_text(id.skip(4))
    } else {
        starts_with_spec(id, "sess_"@) && ulid_text(id.skip(5))
    }
}

/// A new session, if one was asked for: a temporary one before anything else.
pub fn requested_session_id(new_session: bool, temp: bool, ephemeral: bool) -> (r: Option<String>)
    ensures
        match r {
            Some(id) => (temp || new_session || ephemeral) && new_id(id@, temp),
            None => !temp && !new_session && !ephemeral,
        },
{
    if temp {
        Some(generate_temp_session_id())
    } else if new_session || ephemeral {
        Some(generate_session_id())
    } else {
        None
    }
}

/// Whether a text names the current session, of which nothing need be saved yet: it is its
/// identifier, or the start of it, with its prefix or without.
pub open spec fn names_current(current: Seq<char>, input: Seq<char>) -> bool {
    current == input || starts_with_spec(current, input) || starts_with_spec(
        bare_id(current),
        input,
    )
}

/// The session that a text names: a saved one, else the current one.
pub open spec fn saved_or_current(
    ids: Seq<Seq<char>>,
    current: Option<Seq<char>>,
    input: Seq<char>,
) -> Result<Seq<char>, Failure> {
    match resolved(ids, input) {
        Ok(id) => Ok(id),
        Err(e) => if starts_with_spec(e.message, "no session matching `"@) && names_current(
            or_text(current, ""@),
            input,
        ) {
            Ok(or_text(current, ""@))
        } else {
            Err(e)
        },
    }
}

pub fn resolve_or_allow_unsaved_session_id(
    all_sessions: &Vec<String>,
    current: &Option<String>,
    input: &str,
) -> (r: AppResult<String>)
    ensures
        text_result(r) == saved_or_current(texts(all_sessions@), opt_text(*current), input@),
{
    match resolve_session_id(all_sessions, input) {
        Ok(id) => Ok(id),
        Err(e) => {
            if !starts_with(e.message.as_str(), "no session matching `") {
                return Err(e);
            }
            let now = match current {
                Some(c) => c.clone(),
                None => "".to_owned(),
            };
            if str_eq(now.as_str(), input) || starts_with(now.as_str(), input) || starts_with(
                bare_session_id(now.as_str()).as_str(),
                input,
            ) {
                Ok(now)
            } else {
                Err(e)
            }
        },
    }
}

/// The session of a question: the one that was named, else a new one if that was asked for,
/// else the current one, else a new one.
pub fn select_session_id(
    session: Option<&str>,
    new_session: bool,
    temp: bool,
    ephemeral: bool,
    all_sessions: &Vec<String>,
    current: &Option<String>,
) -> (r: AppResult<String>)
    ensures
        match opt_str(session) {
            Some(input) => text_result(r) == saved_or_current(
                texts(all_sessions@),
                opt_text(*current),
                input,
            ),
            None => r matches Ok(id) && if temp || new_session || ephemeral {
                new_id(id@, temp)
            } else {
                match opt_text(*current) {
                    Some(c) => id@ == c,
                    None => new_id(id@, false),
                }
            },
        },
{
    if let Some(input) = session {
        return resolve_or_allow_unsaved_session_id(all_sessions, current, input);
    }
    if let Some(id) = requested_session_id(new_session, temp, ephemeral) {
        return Ok(id);
    }
    match current {
        Some(c) => Ok(c.clone()),
        None => Ok(generate_session_id()),
    }
}

/// The session named by a command, else the current one.
pub open spec fn named_or_current(
    requested: Option<Seq<char>>,
    ids: Seq<Seq<char>>,
    current: Option<Seq<char>>,
    command: Seq<char>,
) -> Result<Seq<char>, Failure> {
    match requested {
        Some(id) => resolved(ids, id),
        None => match current {
            Some(c) => Ok(c),
            None => Err(
                failure(
                    EXIT_SESSION,
                    "no active session; use `chat session "@ + command
                        + " <id>` or switch to one first"@,
                ),
            ),
        },
    }
}

pub fn resolve_session_or_current(
    requested: Option<&str>,
    all_sessions: &Vec<String>,
    current: &Option<String>,
    command: &str,
) -> (r: AppResult<String>)
    ensures
        text_result(r) == named_or_current(
            opt_str(requested),
            texts(all_sessions@),
            opt_text(*current),
            command@,
        ),
{
    if let Some(id) = requested {
        return resolve_session_id(all_sessions, id);
    }
    match current {
        Some(c) => Ok(c.clone()),
        None => {
            let message = "no active session; use `chat session ".to_owned().concat(
                command,
            ).concat(" <id>` or switch to one first");
            Err(AppError::new(EXIT_SESSION, message.as_str()))
        },
    }
}

/// The session that goes on being used.
#[derive(Debug)]
pub struct KeptSession {
    pub session_id: String,
    /// Whether it has to be made the current one, and whether as a temporary one.
    pub activate: Option<bool>,
    /// Whether it took the place of another.
    pub replaced: bool,
}

/// Keeps a session as long as it is saved or current; else the current one, or a new one, takes
/// its place.
pub fn ensure_repl_session_id(
    session_id: &str,
    saved: bool,
    current: &Option<String>,
    temp: bool,
) -> (r: KeptSession)
    ensures
        r.replaced == !(saved || opt_text(*current) == Some(session_id@)),
        !r.replaced ==> r.session_id@ == session_id@ && r.activate == if opt_text(*current) == Some(
            session_id@,
        ) {
            None
        } else {
            Some(temp)
        },
        r.replaced ==> r.activate == Some(is_temp(r.session_id@) || temp),
        r.replaced ==> match opt_text(*current) {
            Some(c) => r.session_id@ == c,
            None => new_id(r.session_id@, temp),
        },
{
    let is_current = opt_eq(current, session_id);
    if saved || is_current {
        let activate = if is_current {
            None
        } else {
            Some(temp)
        };
        return KeptSession { session_id: session_id.to_owned(), activate, replaced: false };
    }
    let replacement = match current {
        Some(c) => c.clone(),
        None => if temp {
            generate_temp_session_id()
        } else {
            generate_session_id()
        },
    };
    let replacement_temp = is_temp_session(replacement.as_str()) || temp;
    KeptSession { session_id: replacement, activate: Some(replacement_temp), replaced: true }
}

// ---------------------------------------------------------------------------
// Input
// ---------------------------------------------------------------------------

/// A file that was attached, with its text or the message of the error in reading it.
#[derive(Debug)]
pub struct Attachment {
    pub path: String,
    pub content: Result<String, String>,
}

#[derive(Debug)]
pub struct BuiltInput {
    pub prompt: String,
    pub images: Vec<MessageImage>,
}

pub struct InputView {
    pub prompt: Seq<char>,
    pub images: Seq<ImageView>,
}

impl View for BuiltInput {
    type V = InputView;

    open spec fn view(&self) -> InputView {
        InputView { prompt: self.prompt@, images: image_views(self.images@) }
    }
}

/// The texts of attached files, or the error of the first that could not be read.
pub open spec fn attached(v: Seq<Attachment>) -> Result<Seq<Seq<char>>, Failure>
    decreases v.len(),
{
    if v.len() == 0 {
        Ok(Seq::empty())
    } else {
        match attached(v.drop_last()) {
            Err(e) => Err(e),
            Ok(before) => match v.last().content {
                Ok(t) => Ok(before.push("File: "@ + v.last().path@ + "\n"@ + t@)),
                Err(e) => Err(
                    failure(
                        EXIT_ARGS,
                        "failed to read attachment `"@ + v.last().path@ + "`: "@ + e@,
                    ),
                ),
            },
        }
    }
}

/// What was written on the command line and on the standard input.
pub open spec fn typed(prompt: Option<Seq<char>>, stdin: Option<Seq<char>>) -> Seq<Seq<char>> {
    (match prompt {
        Some(p) => seq![p],
        None => Seq::empty(),
    }) + (match stdin {
        Some(t) => if is_blank(t) {
            Seq::empty()
        } else {
            seq![t]
        },
        None => Seq::empty(),
    })
}

/// The input of a question: all texts, with blank lines between them, and all images.
pub open spec fn built_input(
    prompt: Option<Seq<char>>,
    stdin: Option<Seq<char>>,
    files: Seq<Attachment>,
    images: Result<Seq<ImageView>, Failure>,
    preloaded: Seq<ImageView>,
) -> Result<InputView, Failure> {
    match attached(files) {
        Err(e) => Err(e),
        Ok(texts_of_files) => match images {
            Err(e) => Err(e),
            Ok(read) => {
                let parts = typed(prompt, stdin) + texts_of_files;
                let all = read + preloaded;
                if parts.len() == 0 && all.len() == 0 {
                    Err(
                        failure(
                            EXIT_ARGS,
                            "chat ask requires PROMPT, --stdin, --attach, --image, or --clipboard-image"@,
                        ),
                    )
                } else {
                    Ok(InputView { prompt: join(parts, "\n\n"@), images: all })
                }
            },
        },
    }
}

pub open spec fn input_result(r: AppResult<BuiltInput>) -> Result<InputView, Failure> {
    match r {
        Ok(b) => Ok(b@),
        Err(e) => Err(e@),
    }
}

proof fn lemma_attached_fail(v: Seq<Attachment>, i: int, e: Failure)
    requires
        0 <= i <= v.len(),
        attached(v.take(i)) == Err::<Seq<Seq<char>>, Failure>(e),
    ensures
        attached(v) == Err::<Seq<Seq<char>>, Failure>(e),
    decreases v.len() - i,
{
    if i == v.len() {
        lemma_take_full(v);
    } else {
        lemma_take_step(v, i);
        lemma_attached_fail(v, i + 1, e);
    }
}

fn attach_files(files: &Vec<Attachment>) -> (r: AppResult<Vec<String>>)
    ensures
        match r {
            Ok(v) => attached(files@) == Ok::<Seq<Seq<char>>, Failure>(texts(v@)),
            Err(e) => attached(files@) == Err::<Seq<Seq<char>>, Failure>(e@),
        },
{
    let mut out: Vec<String> = Vec::new();
    let mut i: usize = 0;
    proof {
        assert(texts(out@) =~= Seq::<Seq<char>>::empty());
    }
    while i < files.len()
        invariant
            i <= files@.len(),
            attached(files@.take(i as int)) == Ok::<Seq<Seq<char>>, Failure>(texts(out@)),
        decreases files@.len() - i,
    {
        proof {
            lemma_take_step(files@, i as int);
        }
        match &files[i].content {
            Ok(t) => {
                let part = "File: ".to_owned().concat(files[i].path.as_str()).concat("\n").concat(
                    t.as_str(),
                );
                proof {
                    lemma_texts_push(out@, part);
                }
                out.push(part);
            },
            Err(e) => {
                let message = "failed to read attachment `".to_owned().concat(
                    files[i].path.as_str(),
                ).concat("`: ").concat(e.as_str());
                let error = AppError::new(EXIT_ARGS, message.as_str());
                proof {
                    lemma_attached_fail(files@, i + 1, error@);
                }
                return Err(error);
            },
        }
        i = i + 1;
    }
    proof {
        lemma_take_full(files@);
    }
    Ok(out)
}

/// Appends copies of images.
fn append_images(out: &mut Vec<MessageImage>, more: &Vec<MessageImage>)
    ensures
        image_views(final(out)@) == image_views(old(out)@) + image_views(more@),
{
    let mut copy = clone_images(more);
    let ghost a = out@;
    let ghost b = copy@;
    out.append(&mut copy);
    proof {
        assert(image_views(out@) =~= image_views(a) + image_views(b));
    }
}

/// Builds the input of a question. `stdin` is what was read where that was asked for; `images`
/// is what reading the images gave.
pub fn build_input(
    prompt: &Option<String>,
    stdin: &Option<String>,
    attachments: &Vec<Attachment>,
    images: AppResult<Vec<MessageImage>>,
    preloaded_images: &Vec<MessageImage>,
) -> (r: AppResult<BuiltInput>)
    ensures
        input_result(r) == built_input(
            opt_text(*prompt),
            opt_text(*stdin),
            attachments@,
            images_result(images),
            image_views(preloaded_images@),
        ),
{
    let mut parts: Vec<String> = Vec::new();
    proof {
        assert(texts(parts@) =~= Seq::<Seq<char>>::empty());
    }
    if let Some(p) = prompt {
        let part = p.clone();
        proof {
            lemma_texts_push(parts@, part);
        }
        parts.push(part);
    }
    if let Some(t) = stdin {
        if !blank(t.as_str()) {
            let part = t.clone();
            proof {
                lemma_texts_push(parts@, part);
            }
            parts.push(part);
        }
    }
    proof {
        assert(texts(parts@) =~= typed(opt_text(*prompt), opt_text(*stdin)));
    }
    let files = match attach_files(attachments) {
        Ok(v) => v,
        Err(e) => {
            return Err(e);
        },
    };
    append_strings(&mut parts, files);
    let mut all = match images {
        Ok(v) => v,
        Err(e) => {
            return Err(e);
        },
    };
    append_images(&mut all, preloaded_images);
    proof {
        assert(texts(parts@).len() == parts@.len());
        assert(image_views(all@).len() == all@.len());
    }
    if parts.len() == 0 && all.len() == 0 {
        return Err(
            AppError::new(
                EXIT_ARGS,
                "chat ask requires PROMPT, --stdin, --attach, --image, or --clipboard-image",
            ),
        );
    }
    Ok(BuiltInput { prompt: join_strings(&parts, "\n\n"), images: all })
}

// ---------------------------------------------------------------------------
// Options
// ---------------------------------------------------------------------------

/// Why options cannot be used together, if they cannot.
pub open spec fn option_clash(args: AskArgs) -> Option<Failure> {
    if args.stream && args.raw_provider_response {
        Some(failure(EXIT_ARGS, "--raw-provider-response is not supported with --stream"@))
    } else if args.new_session && args.session is Some {
        Some(failure(EXIT_ARGS, "--new-session cannot be used together with --session"@))
    } else {
        None
    }
}

pub fn check_options(args: &AskArgs) -> (r: AppResult<()>)
    ensures
        match option_clash(*args) {
            Some(e) => r matches Err(f) && f@ == e,
            None => r is Ok,
        },
{
    if args.stream && args.raw_provider_response {
        return Err(
            AppError::new(EXIT_ARGS, "--raw-provider-response is not supported with --stream"),
        );
    }
    if args.new_session && args.session.is_some() {
        return Err(
            AppError::new(EXIT_ARGS, "--new-session cannot be used together with --session"),
        );
    }
    Ok(())
}

pub open spec fn first_format(
    a: Option<OutputFormat>,
    b: Option<OutputFormat>,
    c: Option<OutputFormat>,
) -> OutputFormat {
    match (a, b, c) {
        (Some(f), _, _) => f,
        (None, Some(f), _) => f,
        (None, None, Some(f)) => f,
        (None, None, None) => OutputFormat::Line,
    }
}

/// The format of an answer: what is streamed is text or a list of events, and only what is
/// streamed is such a list.
pub open spec fn answer_format(wanted: OutputFormat, stream: bool) -> Result<OutputFormat, Failure> {
    if stream {
        match wanted {
            OutputFormat::Line => Ok(OutputFormat::Text),
            OutputFormat::Text => Ok(OutputFormat::Text),
            OutputFormat::Ndjson => Ok(OutputFormat::Ndjson),
            OutputFormat::Json => Err(
                failure(EXIT_ARGS, "--stream only supports --output text or --output ndjson"@),
            ),
        }
    } else if wanted == OutputFormat::Ndjson {
        Err(failure(EXIT_ARGS, "--output ndjson currently requires --stream"@))
    } else {
        Ok(wanted)
    }
}

pub open spec fn format_outcome(r: AppResult<OutputFormat>) -> Result<OutputFormat, Failure> {
    match r {
        Ok(f) => Ok(f),
        Err(e) => Err(e@),
    }
}

pub fn select_format(
    output_override: Option<OutputFormat>,
    cli_output: Option<OutputFormat>,
    config_output: Option<OutputFormat>,
    stream: bool,
) -> (r: AppResult<OutputFormat>)
    ensures
        format_outcome(r) == answer_format(
            first_format(output_override, cli_output, config_output),
            stream,
        ),
{
    let wanted = match (output_override, cli_output, config_output) {
        (Some(f), _, _) => f,
        (None, Some(f), _) => f,
        (None, None, Some(f)) => f,
        (None, None, None) => OutputFormat::Line,
    };
    if stream {
        match wanted {
            OutputFormat::Line => Ok(OutputFormat::Text),
            OutputFormat::Text => Ok(OutputFormat::Text),
            OutputFormat::Ndjson => Ok(OutputFormat::Ndjson),
            OutputFormat::Json => Err(
                AppError::new(EXIT_ARGS, "--stream only supports --output text or --output ndjson"),
            ),
        }
    } else {
        match wanted {
            OutputFormat::Ndjson => Err(
                AppError::new(EXIT_ARGS, "--output ndjson currently requires --stream"),
            ),
            f => Ok(f),
        }
    }
}

/// What is settled before a session is chosen.
#[derive(Debug)]
pub struct AskPlan {
    pub format: OutputFormat,
    pub provider_id: String,
    pub model_id: String,
    pub input: BuiltInput,
}

pub struct AskPlanView {
    pub format: OutputFormat,
    pub provider_id: Seq<char>,
    pub model_id: Seq<char>,
    pub input: InputView,
}

impl View for AskPlan {
    type V = AskPlanView;

    open spec fn view(&self) -> AskPlanView {
        AskPlanView {
            format: self.format,
            provider_id: self.provider_id@,
            model_id: self.model_id@,
            input: self.input@,
        }
    }
}

pub open spec fn ask_plan_result(r: AppResult<AskPlan>) -> Result<AskPlanView, Failure> {
    match r {
        Ok(p) => Ok(p@),
        Err(e) => Err(e@),
    }
}

/// What is settled before a session is chosen; the first thing that is wrong decides.
pub open spec fn ask_plan(
    cli: Selection,
    wanted: OutputFormat,
    c: AppConfig,
    args: AskArgs,
    input: Result<InputView, Failure>,
) -> Result<AskPlanView, Failure> {
    match option_clash(args) {
        Some(e) => Err(e),
        None => match input {
            Err(e) => Err(e),
            Ok(input) => match question_target(c, cli) {
                Err(e) => Err(e),
                Ok((provider_id, model_id)) => match answer_format(wanted, args.stream) {
                    Err(e) => Err(e),
                    Ok(format) => Ok(AskPlanView { format, provider_id, model_id, input }),
                },
            },
        },
    }
}

/// Settles what can be settled before a session is chosen.
pub fn plan_ask(
    cli: &Selection,
    cli_output: Option<OutputFormat>,
    config: &AppConfig,
    args: &AskArgs,
    output_override: Option<OutputFormat>,
    input: AppResult<BuiltInput>,
) -> (r: AppResult<AskPlan>)
    requires
        config.wf(),
    ensures
        ask_plan_result(r) == ask_plan(
            *cli,
            first_format(output_override, cli_output, config.defaults.output),
            *config,
            *args,
            input_result(input),
        ),
{
    match check_options(args) {
        Ok(_) => {},
        Err(e) => {
            return Err(e);
        },
    }
    let input = match input {
        Ok(b) => b,
        Err(e) => {
            return Err(e);
        },
    };
    let (provider_id, model_id) = match select_target(cli, config) {
        Ok(p) => p,
        Err(e) => {
            return Err(e);
        },
    };
    match select_format(output_override, cli_output, config.defaults.output, args.stream) {
        Ok(format) => Ok(AskPlan { format, provider_id, model_id, input }),
        Err(e) => Err(e),
    }
}

// ---------------------------------------------------------------------------
// Messages
// ---------------------------------------------------------------------------

/// A stored message as one of a request.
pub open spec fn replayed(m: StoredMessage) -> MessageView {
    MessageView {
        role: m.role,
        content: m.content,
        images: m.images,
        tool_calls: if m.tool_calls.len() > 0 {
            Some(m.tool_calls)
        } else {
            None
        },
        tool_call_id: m.tool_call_id,
        name: m.name,
    }
}

/// The messages of a session, as a request repeats them.
pub open spec fn history(v: Seq<StoredEvent>) -> Seq<MessageView> {
    renderable_messages(v).map_values(|m: StoredMessage| replayed(m))
}

pub open spec fn opt_history(v: Option<Seq<StoredEvent>>) -> Seq<MessageView> {
    match v {
        Some(v) => history(v),
        None => Seq::empty(),
    }
}

pub open spec fn opt_events(o: Option<Vec<SessionEvent>>) -> Option<Seq<StoredEvent>> {
    match o {
        Some(v) => Some(event_views(v@)),
        None => None,
    }
}

fn replay(m: &SessionMessage) -> (r: ChatMessage)
    ensures
        r@ == replayed(m@),
{
    proof {
        assert(jsons(m.tool_calls@).len() == m.tool_calls@.len());
    }
    let calls = if m.tool_calls.len() > 0 {
        Some(clone_list(&m.tool_calls))
    } else {
        None
    };
    ChatMessage {
        role: m.role.clone(),
        content: m.content.clone(),
        images: clone_images(&m.images),
        tool_calls: calls,
        tool_call_id: clone_opt(&m.tool_call_id),
        name: clone_opt(&m.name),
    }
}

/// The messages of a session, as a request repeats them; none where it could not be read.
pub fn history_messages(events: &Option<Vec<SessionEvent>>) -> (r: Vec<ChatMessage>)
    ensures
        message_views(r@) == opt_history(opt_events(*events)),
{
    let mut out: Vec<ChatMessage> = Vec::new();
    proof {
        assert(message_views(out@) =~= Seq::<MessageView>::empty());
    }
    let v = match events {
        Some(v) => v,
        None => {
            return out;
        },
    };
    let ghost src = event_views(v@);
    let mut i: usize = 0;
    proof {
        assert(history(src.take(0)) =~= Seq::<MessageView>::empty());
    }
    while i < v.len()
        invariant
            i <= v@.len(),
            src == event_views(v@),
            message_views(out@) == history(src.take(i as int)),
        decreases v@.len() - i,
    {
        proof {
            lemma_take_step(src, i as int);
            assert(src[i as int] == v@[i as int]@);
        }
        if let SessionEvent::Message(m) = &v[i] {
            if session_message_has_renderable_payload(m) {
                let message = replay(m);
                proof {
                    lemma_messages_push(out@, message);
                    assert(history(src.take(i + 1)) =~= history(src.take(i as int)).push(
                        message@,
                    ));
                }
                out.push(message);
            }
        }
        i = i + 1;
    }
    proof {
        lemma_take_full(src);
    }
    out
}

/// The system prompt: the one given, then the one from the file; in the mode `override` only
/// the latter.
pub open spec fn system_prompt(
    cli: Option<Seq<char>>,
    file: Option<Seq<char>>,
    mode: Seq<char>,
) -> Option<Seq<char>> {
    match (cli, file) {
        (Some(c), Some(f)) => if mode == "override"@ {
            Some(f)
        } else {
            Some(c + "\n\n"@ + f)
        },
        (Some(c), None) => Some(c),
        (None, f) => f,
    }
}

pub fn combine_system_prompt(cli: &Option<String>, file: &Option<String>, mode: &str) -> (r: Option<
    String,
>)
    ensures
        opt_text(r) == system_prompt(opt_text(*cli), opt_text(*file), mode@),
{
    match (cli, file) {
        (Some(c), Some(f)) => {
            if str_eq(mode, "override") {
                Some(f.clone())
            } else {
                Some(c.clone().concat("\n\n").concat(f.as_str()))
            }
        },
        (Some(c), None) => Some(c.clone()),
        (None, f) => clone_opt(f),
    }
}

/// What is read besides the session.
#[derive(Debug)]
pub struct AskTexts {
    /// The system prompt given.
    pub cli_system: Option<String>,
    /// The system prompt from the file, if there is one.
    pub file_system: Option<String>,
    /// The status of the surroundings.
    pub status: String,
}

/// The messages that a new session starts with.
pub open spec fn preamble(t: AskTexts, prompt_mode: Seq<char>, mode: ContextStatusMode) -> Seq<
    MessageView,
> {
    (match system_prompt(opt_text(t.cli_system), opt_text(t.file_system), prompt_mode) {
        Some(s) => seq![plain_message("system"@, s)],
        None => Seq::empty(),
    }) + (if mode == ContextStatusMode::SystemOnce {
        seq![plain_message("system"@, t.status@)]
    } else {
        Seq::empty()
    })
}

/// What is asked: the prompt, with the status before it where every question has it.
pub open spec fn asked(prompt: Seq<char>, status: Seq<char>, mode: ContextStatusMode) -> Seq<char> {
    match mode {
        ContextStatusMode::Always | ContextStatusMode::Latest => with_status_text(status, prompt),
        ContextStatusMode::Off | ContextStatusMode::SystemOnce => prompt,
    }
}

/// What is saved of it: the status only where every question keeps it.
pub open spec fn kept_prompt(prompt: Seq<char>, status: Seq<char>, mode: ContextStatusMode) -> Seq<
    char,
> {
    match mode {
        ContextStatusMode::Always => with_status_text(status, prompt),
        _ => prompt,
    }
}

pub open spec fn user_message(content: Seq<char>, images: Seq<ImageView>) -> MessageView {
    MessageView { images, ..plain_message("user"@, content) }
}

fn make_preamble(t: &AskTexts, prompt_mode: &str, mode: ContextStatusMode) -> (r: Vec<ChatMessage>)
    ensures
        message_views(r@) == preamble(*t, prompt_mode@, mode),
{
    let mut out: Vec<ChatMessage> = Vec::new();
    if let Some(s) = combine_system_prompt(&t.cli_system, &t.file_system, prompt_mode) {
        out.push(ChatMessage::plain("system", s));
    }
    if mode == ContextStatusMode::SystemOnce {
        out.push(ChatMessage::plain("system", t.status.clone()));
    }
    proof {
        assert(message_views(out@) =~= preamble(*t, prompt_mode@, mode));
    }
    out
}

/// Whether a message of a request holds images.
pub open spec fn any_image(v: Seq<MessageView>) -> bool {
    exists|i: int| 0 <= i < v.len() && (#[trigger] v[i]).images.len() > 0
}

fn has_images(v: &Vec<ChatMessage>) -> (r: bool)
    ensures
        r == any_image(message_views(v@)),
{
    let ghost src = message_views(v@);
    let mut i: usize = 0;
    while i < v.len()
        invariant
            i <= v@.len(),
            src == message_views(v@),
            forall|k: int| 0 <= k < i ==> (#[trigger] src[k]).images.len() == 0,
        decreases v@.len() - i,
    {
        proof {
            assert(src[i as int] == v@[i as int]@);
            assert(image_views(v@[i as int].images@).len() == v@[i as int].images@.len());
        }
        if v[i].images.len() > 0 {
            return true;
        }
        i = i + 1;
    }
    false
}

/// Why images cannot be sent, if they cannot.
pub open spec fn image_refusal(model_id: Seq<char>, m: ModelView, p: ProviderView) -> Option<Failure> {
    if !m.capabilities.contains("vision"@) {
        Some(
            failure(
                EXIT_MODEL,
                "model `"@ + model_id
                    + "` does not support image input; add capability `vision` or select a vision-capable model"@,
            ),
        )
    } else if p.kind == "openai_compatible"@ || p.kind == "anthropic"@ {
        None
    } else {
        Some(
            failure(
                EXIT_PROVIDER,
                "provider kind `"@ + p.kind + "` does not support image input yet"@,
            ),
        )
    }
}

pub fn check_image_support(model_id: &str, model: &ModelConfig, provider: &ProviderConfig) -> (r:
    AppResult<()>)
    ensures
        match image_refusal(model_id@, model@, provider@) {
            Some(e) => r matches Err(f) && f@ == e,
            None => r is Ok,
        },
{
    if !model_supports_capability(model, "vision") {
        let message = "model `".to_owned().concat(model_id).concat(
            "` does not support image input; add capability `vision` or select a vision-capable model",
        );
        return Err(AppError::new(EXIT_MODEL, message.as_str()));
    }
    if str_eq(provider.kind.as_str(), "openai_compatible") || str_eq(
        provider.kind.as_str(),
        "anthropic",
    ) {
        return Ok(());
    }
    let message = "provider kind `".to_owned().concat(provider.kind.as_str()).concat(
        "` does not support image input yet",
    );
    Err(AppError::new(EXIT_PROVIDER, message.as_str()))
}

// ---------------------------------------------------------------------------
// The request
// ---------------------------------------------------------------------------

#[derive(Debug)]
pub struct PreparedAsk {
    pub format: OutputFormat,
    pub persisted_user_content: String,
    pub user_images: Vec<MessageImage>,
    pub session_id: String,
    pub session_preamble: Vec<ChatMessage>,
    pub request: ChatRequest,
    pub context_status_mode: ContextStatusMode,
}

/// The messages before the question: those of the session, or those a new one starts with.
pub open spec fn opening(
    events: Option<Seq<StoredEvent>>,
    t: AskTexts,
    prompt_mode: Seq<char>,
    mode: ContextStatusMode,
) -> Seq<MessageView> {
    if opt_history(events).len() == 0 {
        preamble(t, prompt_mode, mode)
    } else {
        opt_history(events)
    }
}

/// The messages of a request.
pub open spec fn ask_messages(
    events: Option<Seq<StoredEvent>>,
    t: AskTexts,
    prompt_mode: Seq<char>,
    mode: ContextStatusMode,
    input: InputView,
) -> Seq<MessageView> {
    opening(events, t, prompt_mode, mode).push(
        user_message(asked(input.prompt, t.status@, mode), input.images),
    )
}

pub open spec fn prompt_mode(c: AppConfig) -> Seq<char> {
    or_text(opt_text(c.defaults.system_prompt_mode), "append"@)
}

pub open spec fn status_mode(c: AppConfig, args: AskArgs) -> ContextStatusMode {
    match (args.context_status, c.defaults.context_status) {
        (Some(m), _) => m,
        (None, Some(m)) => m,
        (None, None) => ContextStatusMode::Off,
    }
}

/// Why a question cannot be asked once its session is known, if it cannot.
pub open spec fn ask_refusal(
    plan: AskPlanView,
    c: AppConfig,
    secrets: SecretsConfig,
    args: AskArgs,
    messages: Seq<MessageView>,
    env: Table<String>,
) -> Option<Failure> {
    let p = c.providers.lookup(plan.provider_id)->Some_0;
    let m = c.models.lookup(plan.model_id)->Some_0;
    if any_image(messages) && image_refusal(plan.model_id, m@, p@) is Some {
        image_refusal(plan.model_id, m@, p@)
    } else {
        match key_of(plan.provider_id, p@, secrets, env) {
            Err(e) => Some(e),
            Ok(_) => match params_of(texts(args.params@)) {
                Err(e) => Some(e),
                Ok(_) => None,
            },
        }
    }
}

/// The request of a question.
pub open spec fn is_ask_request(
    r: ChatRequest,
    plan: AskPlanView,
    c: AppConfig,
    secrets: SecretsConfig,
    args: AskArgs,
    messages: Seq<MessageView>,
    env: Table<String>,
) -> bool {
    let p = c.providers.lookup(plan.provider_id)->Some_0;
    let m = c.models.lookup(plan.model_id)->Some_0;
    &&& r.provider_id@ == plan.provider_id
    &&& r.provider@ == p@
    &&& r.model_id@ == plan.model_id
    &&& r.model@ == m@
    &&& key_of(plan.provider_id, p@, secrets, env) == Ok::<Seq<char>, Failure>(r.api_key@)
    &&& message_views(r.messages@) == messages
    &&& opt_text(r.temperature) == either(opt_text(args.temperature), opt_text(m.temperature))
    &&& r.max_output_tokens == (match args.max_output_tokens {
        Some(n) => Some(n),
        None => m.max_output_tokens,
    })
    &&& params_of(texts(args.params@)) == Ok::<Seq<(Seq<char>, JsonView)>, Failure>(
        field_views(r.params@),
    )
    &&& r.timeout_secs == args.timeout
    &&& r.tools@.len() == 0
}

/// Makes the request of a question, once its session is known.
pub fn prepare_ask(
    plan: AskPlan,
    config: &AppConfig,
    secrets: &SecretsConfig,
    args: &AskArgs,
    session_id: &str,
    events: &Option<Vec<SessionEvent>>,
    ask_texts: &AskTexts,
    env: &Table<String>,
) -> (r: AppResult<PreparedAsk>)
    requires
        config.wf(),
        secrets.providers.wf(),
        env.wf(),
        config.providers.has(plan@.provider_id),
        config.models.has(plan@.model_id),
    ensures
        ({
            let mode = status_mode(*config, *args);
            let messages = ask_messages(
                opt_events(*events),
                *ask_texts,
                prompt_mode(*config),
                mode,
                plan@.input,
            );
            match ask_refusal(plan@, *config, *secrets, *args, messages, *env) {
                Some(e) => r matches Err(f) && f@ == e,
                None => r matches Ok(p) && {
                    &&& p.format == plan@.format
                    &&& p.persisted_user_content@ == kept_prompt(
                        plan@.input.prompt,
                        ask_texts.status@,
                        mode,
                    )
                    &&& image_views(p.user_images@) == plan@.input.images
                    &&& p.session_id@ == session_id@
                    &&& message_views(p.session_preamble@) == if opt_history(
                        opt_events(*events),
                    ).len() == 0 {
                        preamble(*ask_texts, prompt_mode(*config), mode)
                    } else {
                        Seq::empty()
                    }
                    &&& p.context_status_mode == mode
                    &&& is_ask_request(p.request, plan@, *config, *secrets, *args, messages, *env)
                    &&& p.request.provider.headers.wf()
                },
            }
        }),
{
    let mode = resolve_context_status_mode(args.context_status, config.defaults.context_status);
    let system_mode = match &config.defaults.system_prompt_mode {
        Some(m) => m.clone(),
        None => "append".to_owned(),
    };
    let mut messages = history_messages(events);
    let mut session_preamble: Vec<ChatMessage> = Vec::new();
    proof {
        assert(message_views(messages@).len() == messages@.len());
        assert(message_views(session_preamble@) =~= Seq::<MessageView>::empty());
    }
    if messages.len() == 0 {
        session_preamble = make_preamble(ask_texts, system_mode.as_str(), mode);
        messages = clone_messages(session_preamble.as_slice());
    }
    let with_status = prepend_context_status(ask_texts.status.as_str(), plan.input.prompt.as_str());
    let user_content = match mode {
        ContextStatusMode::Always | ContextStatusMode::Latest => with_status.clone(),
        ContextStatusMode::Off | ContextStatusMode::SystemOnce => plan.input.prompt.clone(),
    };
    let persisted_user_content = match mode {
        ContextStatusMode::Always => with_status,
        _ => plan.input.prompt.clone(),
    };
    let question = ChatMessage {
        role: "user".to_owned(),
        content: user_content,
        images: clone_images(&plan.input.images),
        tool_calls: None,
        tool_call_id: None,
        name: None,
    };
    proof {
        lemma_messages_push(messages@, question);
    }
    messages.push(question);
    let provider = match provider_named(config, plan.provider_id.as_str()) {
        Some(p) => p,
        None => {
            return Err(provider_missing_error(plan.provider_id.as_str()));
        },
    };
    let model = match config.models.get(plan.model_id.as_str()) {
        Some(m) => m,
        None => {
            return Err(model_missing_error(plan.model_id.as_str()));
        },
    };
    if has_images(&messages) {
        match check_image_support(plan.model_id.as_str(), model, provider) {
            Ok(_) => {},
            Err(e) => {
                return Err(e);
            },
        }
    }
    let api_key = match resolve_api_key(plan.provider_id.as_str(), provider, secrets, env) {
        Ok(k) => k,
        Err(e) => {
            return Err(e);
        },
    };
    let params = match parse_params(&args.params) {
        Ok(p) => p,
        Err(e) => {
            return Err(e);
        },
    };
    let max_output_tokens = match args.max_output_tokens {
        Some(n) => Some(n),
        None => model.max_output_tokens,
    };
    let request = ChatRequest {
        provider_id: plan.provider_id,
        provider: provider.copy(),
        model_id: plan.model_id,
        model: model.copy(),
        api_key,
        messages,
        temperature: first_of(&args.temperature, &model.temperature, &None),
        max_output_tokens,
        params,
        timeout_secs: args.timeout,
        tools: Vec::new(),
    };
    Ok(
        PreparedAsk {
            format: plan.format,
            persisted_user_content,
            user_images: plan.input.images,
            session_id: session_id.to_owned(),
            session_preamble,
            request,
            context_status_mode: mode,
        },
    )
}

/// A question is the last message of its request, and what was said before comes before it.
pub proof fn law_question_comes_last(
    events: Option<Seq<StoredEvent>>,
    t: AskTexts,
    prompt_mode: Seq<char>,
    mode: ContextStatusMode,
    input: InputView,
)
    ensures
        ({
            let v = ask_messages(events, t, prompt_mode, mode, input);
            &&& v.last().role == "user"@
            &&& v.last().images == input.images
            &&& opt_history(events).len() > 0 ==> v.drop_last() == opt_history(events)
        }),
{
    let v = ask_messages(events, t, prompt_mode, mode, input);
    assert(v.drop_last() =~= opening(events, t, prompt_mode, mode));
}

// ---------------------------------------------------------------------------
// What is saved
// ---------------------------------------------------------------------------

pub open spec fn has_payload(m: MessageView) -> bool {
    m.content.len() > 0 || m.images.len() > 0 || (m.tool_calls matches Some(v) && v.len() > 0)
        || m.tool_call_id is Some
}

pub fn chat_message_has_payload(message: &ChatMessage) -> (r: bool)
    ensures
        r == has_payload(message@),
{
    proof {
        assert(image_views(message.images@).len() == message.images@.len());
    }
    let calls = match &message.tool_calls {
        Some(v) => {
            proof {
                assert(jsons(v@).len() == v@.len());
            }
            v.len() > 0
        },
        None => false,
    };
    !message.content.as_str().is_empty() || message.images.len() > 0 || calls
        || message.tool_call_id.is_some()
}

/// A message as it is stored.
pub open spec fn stored(m: MessageView, now: Seq<char>) -> StoredMessage {
    StoredMessage {
        role: m.role,
        content: m.content,
        images: m.images,
        tool_calls: match m.tool_calls {
            Some(v) => v,
            None => Seq::empty(),
        },
        tool_call_id: m.tool_call_id,
        name: m.name,
        created_at: now,
    }
}

pub fn session_message_from_chat_message(message: &ChatMessage, now: &str) -> (r: SessionMessage)
    ensures
        r@ == stored(message@, now@),
{
    let tool_calls = match &message.tool_calls {
        Some(v) => clone_list(v),
        None => {
            let none: Vec<Json> = Vec::new();
            proof {
                assert(jsons(none@) =~= Seq::<JsonView>::empty());
            }
            none
        },
    };
    SessionMessage {
        role: message.role.clone(),
        content: message.content.clone(),
        images: clone_images(&message.images),
        tool_calls,
        tool_call_id: clone_opt(&message.tool_call_id),
        name: clone_opt(&message.name),
        created_at: now.to_owned(),
    }
}

/// The events of messages; those that hold nothing are left out.
pub open spec fn message_events(v: Seq<MessageView>, now: Seq<char>) -> Seq<StoredEvent>
    decreases v.len(),
{
    if v.len() == 0 {
        Seq::empty()
    } else if has_payload(v.last()) {
        message_events(v.drop_last(), now).push(StoredEvent::Message(stored(v.last(), now)))
    } else {
        message_events(v.drop_last(), now)
    }
}

pub fn append_session_message_events(
    events: &mut Vec<SessionEvent>,
    messages: &[ChatMessage],
    now: &str,
)
    ensures
        event_views(final(events)@) == event_views(old(events)@) + message_events(
            message_views(messages@),
            now@,
        ),
{
    let ghost before = event_views(events@);
    let ghost src = message_views(messages@);
    let mut i: usize = 0;
    proof {
        assert(before + message_events(src.take(0), now@) =~= before);
    }
    while i < messages.len()
        invariant
            i <= messages@.len(),
            src == message_views(messages@),
            event_views(events@) == before + message_events(src.take(i as int), now@),
        decreases messages@.len() - i,
    {
        proof {
            lemma_take_step(src, i as int);
            assert(src[i as int] == messages@[i as int]@);
        }
        if chat_message_has_payload(&messages[i]) {
            let event = SessionEvent::Message(
                session_message_from_chat_message(&messages[i], now),
            );
            proof {
                lemma_events_push(events@, event);
                assert((before + message_events(src.take(i as int), now@)).push(event@) =~= before
                    + message_events(src.take(i + 1), now@));
            }
            events.push(event);
        }
        i = i + 1;
    }
    proof {
        lemma_take_full(src);
    }
}

/// A message as a request repeats it: an empty list of calls is none.
pub open spec fn settled(m: MessageView) -> MessageView {
    MessageView {
        tool_calls: match m.tool_calls {
            Some(v) => if v.len() > 0 {
                Some(v)
            } else {
                None
            },
            None => None,
        },
        ..m
    }
}

/// The messages that hold something.
pub open spec fn with_payload(v: Seq<MessageView>) -> Seq<MessageView>
    decreases v.len(),
{
    if v.len() == 0 {
        Seq::empty()
    } else if has_payload(v.last()) {
        with_payload(v.drop_last()).push(settled(v.last()))
    } else {
        with_payload(v.drop_last())
    }
}

/// What was saved is what the next request repeats: every message that holds something, in
/// order, and nothing else.
pub proof fn law_saved_messages_return(v: Seq<MessageView>, now: Seq<char>)
    ensures
        history(message_events(v, now)) == with_payload(v),
    decreases v.len(),
{
    let e = message_events(v, now);
    if v.len() == 0 {
        assert(history(e) =~= Seq::<MessageView>::empty());
    } else {
        law_saved_messages_return(v.drop_last(), now);
        if has_payload(v.last()) {
            let m = stored(v.last(), now);
            assert(e.drop_last() =~= message_events(v.drop_last(), now));
            assert(renderable(m));
            assert(replayed(m) == settled(v.last()));
            assert(history(e) =~= history(e.drop_last()).push(replayed(m)));
        }
    }
}

/// Whether anything is saved.
pub open spec fn saves(c: AppConfig, ephemeral: bool) -> bool {
    !ephemeral && or_flag(c.defaults.auto_save_session, true)
}

pub fn saves_session(config: &AppConfig, ephemeral: bool) -> (r: bool)
    ensures
        r == saves(*config, ephemeral),
{
    !ephemeral && flag_or(config.defaults.auto_save_session, true)
}

/// The events of an answer: its text, if it has any, and how it came.
pub open spec fn answer_events(r: ReplyView, now: Seq<char>) -> Seq<StoredEvent> {
    (if r.content.len() > 0 {
        seq![StoredEvent::Message(stored(plain_message("assistant"@, r.content), now))]
    } else {
        Seq::empty()
    }) + seq![
        StoredEvent::Response(
            StoredResponse {
                provider: r.provider_id,
                model: r.model_id,
                finish_reason: r.finish_reason,
                latency_ms: r.latency_ms,
                usage: r.usage,
                created_at: now,
            },
        ),
    ]
}

fn push_answer(events: &mut Vec<SessionEvent>, response: &ChatResponse, now: &str)
    ensures
        event_views(final(events)@) == event_views(old(events)@) + answer_events(response@, now@),
{
    let ghost before = event_views(events@);
    if !response.content.as_str().is_empty() {
        let message = ChatMessage::plain("assistant", response.content.clone());
        events.push(SessionEvent::Message(session_message_from_chat_message(&message, now)));
    }
    events.push(
        SessionEvent::Response(
            SessionResponse {
                provider: response.provider_id.clone(),
                model: response.model_id.clone(),
                finish_reason: response.finish_reason.clone(),
                latency_ms: response.latency_ms,
                usage: response.usage,
                created_at: now.to_owned(),
            },
        ),
    );
    proof {
        assert(event_views(events@) =~= before + answer_events(response@, now@));
    }
}

/// The events of a question and its answer.
pub open spec fn question_events(
    preamble: Seq<MessageView>,
    prompt: Seq<char>,
    images: Seq<ImageView>,
    response: ReplyView,
    now: Seq<char>,
) -> Seq<StoredEvent> {
    message_events(preamble, now) + seq![
        StoredEvent::Message(stored(user_message(prompt, images), now)),
    ] + answer_events(response, now)
}

/// The events that a question and its answer leave, unless nothing is saved.
pub fn persist_session(
    config: &AppConfig,
    ephemeral: bool,
    session_preamble: &Vec<ChatMessage>,
    prompt: &str,
    user_images: &Vec<MessageImage>,
    response: &ChatResponse,
    now: &str,
) -> (r: Option<Vec<SessionEvent>>)
    ensures
        opt_events(r) == if saves(*config, ephemeral) {
            Some(
                question_events(
                    message_views(session_preamble@),
                    prompt@,
                    image_views(user_images@),
                    response@,
                    now@,
                ),
            )
        } else {
            None
        },
{
    if !saves_session(config, ephemeral) {
        return None;
    }
    let mut events: Vec<SessionEvent> = Vec::new();
    proof {
        assert(event_views(events@) =~= Seq::<StoredEvent>::empty());
    }
    append_session_message_events(&mut events, session_preamble.as_slice(), now);
    let ghost opened = event_views(events@);
    let question = ChatMessage {
        role: "user".to_owned(),
        content: prompt.to_owned(),
        images: clone_images(user_images),
        tool_calls: None,
        tool_call_id: None,
        name: None,
    };
    let event = SessionEvent::Message(session_message_from_chat_message(&question, now));
    proof {
        lemma_events_push(events@, event);
        assert(opened =~= message_events(message_views(session_preamble@), now@));
        assert(opened.push(event@) =~= opened + seq![event@]);
    }
    events.push(event);
    push_answer(&mut events, response, now);
    Some(events)
}

/// The events of a turn with tools and of its answer.
pub open spec fn turn_events(
    preamble: Seq<MessageView>,
    messages: Seq<MessageView>,
    response: ReplyView,
    now: Seq<char>,
) -> Seq<StoredEvent> {
    message_events(preamble, now) + message_events(messages, now) + answer_events(response, now)
}

/// The events that a turn with tools leaves, unless nothing is saved.
pub fn persist_tool_session(
    config: &AppConfig,
    ephemeral: bool,
    session_preamble: &Vec<ChatMessage>,
    turn_messages: &Vec<ChatMessage>,
    response: &ChatResponse,
    now: &str,
) -> (r: Option<Vec<SessionEvent>>)
    ensures
        opt_events(r) == if saves(*config, ephemeral) {
            Some(
                turn_events(
                    message_views(session_preamble@),
                    message_views(turn_messages@),
                    response@,
                    now@,
                ),
            )
        } else {
            None
        },
{
    if !saves_session(config, ephemeral) {
        return None;
    }
    let mut events: Vec<SessionEvent> = Vec::new();
    proof {
        assert(event_views(events@) =~= Seq::<StoredEvent>::empty());
    }
    append_session_message_events(&mut events, session_preamble.as_slice(), now);
    proof {
        assert(event_views(events@) =~= message_events(message_views(session_preamble@), now@));
    }
    append_session_message_events(&mut events, turn_messages.as_slice(), now);
    push_answer(&mut events, response, now);
    Some(events)
}

/// The events that a turn without an answer leaves, unless nothing is saved.
pub fn persist_partial_tool_turn(
    config: &AppConfig,
    ephemeral: bool,
    session_preamble: &Vec<ChatMessage>,
    messages: &Vec<ChatMessage>,
    now: &str,
) -> (r: Option<Vec<SessionEvent>>)
    ensures
        opt_events(r) == if saves(*config, ephemeral) {
            Some(
                message_events(message_views(session_preamble@), now@) + message_events(
                    message_views(messages@),
                    now@,
                ),
            )
        } else {
            None
        },
{
    if !saves_session(config, ephemeral) {
        return None;
    }
    let mut events: Vec<SessionEvent> = Vec::new();
    proof {
        assert(event_views(events@) =~= Seq::<StoredEvent>::empty());
    }
    append_session_message_events(&mut events, session_preamble.as_slice(), now);
    proof {
        assert(event_views(events@) =~= message_events(message_views(session_preamble@), now@));
    }
    append_session_message_events(&mut events, messages.as_slice(), now);
    Some(events)
}

/// The messages of a turn as they are saved: in the mode in which only the latest question has
/// the status, the question is saved without it.
pub open spec fn kept_turn(mode: ContextStatusMode, prompt: Seq<char>, v: Seq<MessageView>) -> Seq<
    MessageView,
> {
    if mode == ContextStatusMode::Latest && v.len() > 0 && v[0].role == "user"@ {
        v.update(0, MessageView { content: prompt, ..v[0] })
    } else {
        v
    }
}

pub fn persisted_turn_messages_for_session(
    prepared: &PreparedAsk,
    turn_messages: &[ChatMessage],
) -> (r: Vec<ChatMessage>)
    ensures
        message_views(r@) == kept_turn(
            prepared.context_status_mode,
            prepared.persisted_user_content@,
            message_views(turn_messages@),
        ),
{
    let mut out = clone_messages(turn_messages);
    let ghost v = message_views(out@);
    proof {
        assert(v.len() == out@.len());
    }
    if prepared.context_status_mode == ContextStatusMode::Latest && out.len() > 0 && str_eq(
        out[0].role.as_str(),
        "user",
    ) {
        let mut first = out[0].copy();
        proof {
            assert(v[0] == out@[0]@);
        }
        first.content = prepared.persisted_user_content.clone();
        out.set(0, first);
        proof {
            assert(message_views(out@) =~= v.update(0, first@));
        }
    }
    out
}

} // verus!
