//! The output of a question.

use crate::chat::{ChatResponse, ReplyView};
use crate::cli::OutputFormat;
use crate::config::{AppConfig, bool_name, flag_or, or_flag, text_result};
use crate::error::{AppError, AppResult, EXIT_ARGS, Failure, failure};
use crate::json::{
    Json, JsonView, clone_json, field_views, json_number, json_text, object, object2, object3,
    object4, pretty_json, print_json, print_json_pretty, printed_json,
};
use crate::render::{RULE_WIDTH, message_text, render_markdown};
use crate::session::Usage;
use crate::text::{
    chars_of, decimal, decimal_string, join, join_strings, lemma_take_full, lemma_take_step,
    lemma_texts_push, repeat, repeat_str, replace, replaced, texts,
};
use vstd::prelude::*;

verus! {

#[derive(Debug)]
pub struct AskOutput {
    pub ok: bool,
    pub provider: String,
    pub model: String,
    pub session_id: String,
    pub message: AssistantMessage,
    pub usage: Usage,
    pub finish_reason: String,
    pub latency_ms: u64,
    pub raw_provider_response: Option<Json>,
}

#[derive(Debug)]
pub struct AssistantMessage {
    pub role: String,
    pub content: String,
}

/// A text in quotes, with escapes.
pub open spec fn json_quoted(s: Seq<char>) -> Seq<char> {
    printed_json(JsonView::Str(s))
}

/// Whether a text holds no newline.
pub open spec fn one_line(s: Seq<char>) -> bool {
    forall|i: int| 0 <= i < s.len() ==> #[trigger] s[i] != '\n'
}

fn quote(value: &str) -> (r: String)
    ensures
        r@ == json_quoted(value@),
        one_line(r@),
{
    print_json(&json_text(value))
}

pub open spec fn count_or_zero(n: Option<u64>) -> nat {
    match n {
        Some(n) => n as nat,
        None => 0,
    }
}

fn count_text(n: Option<u64>) -> (r: String)
    ensures
        r@ == decimal(count_or_zero(n)),
        one_line(r@),
{
    proof {
        lemma_decimal_line(count_or_zero(n));
    }
    match n {
        Some(n) => decimal_string(n),
        None => decimal_string(0),
    }
}

/// Everything in one line.
pub open spec fn output_line(o: AskOutput) -> Seq<char> {
    "ok=1 session_id="@ + json_quoted(o.session_id@) + " provider="@ + json_quoted(o.provider@) + " model="@
        + json_quoted(o.model@) + " finish_reason="@ + json_quoted(o.finish_reason@) + " latency_ms="@
        + decimal(o.latency_ms as nat) + " input_tokens="@ + decimal(
        count_or_zero(o.usage.input_tokens),
    ) + " output_tokens="@ + decimal(count_or_zero(o.usage.output_tokens)) + " total_tokens="@
        + decimal(count_or_zero(o.usage.total_tokens)) + " content="@ + json_quoted(o.message.content@)
}

proof fn lemma_decimal_line(n: nat)
    ensures
        one_line(decimal(n)),
    decreases n,
{
    if n >= 10 {
        lemma_decimal_line(n / 10);
    }
    assert forall|i: int| 0 <= i < decimal(n).len() implies #[trigger] decimal(n)[i] != '\n' by {
        if i < decimal(n).len() - 1 {
            assert(decimal(n)[i] == decimal(n / 10)[i]);
        }
    }
}

/// Appends a label and a value to a line.
fn add_value(out: String, label: &str, value: &str) -> (r: String)
    requires
        one_line(out@),
        one_line(label@),
        one_line(value@),
    ensures
        r@ == out@ + label@ + value@,
        one_line(r@),
{
    out.concat(label).concat(value)
}

fn output_line_of(o: &AskOutput) -> (r: String)
    ensures
        r@ == output_line(*o),
        one_line(r@),
{
    proof {
        reveal_strlit("ok=1 session_id=");
        reveal_strlit(" provider=");
        reveal_strlit(" model=");
        reveal_strlit(" finish_reason=");
        reveal_strlit(" latency_ms=");
        reveal_strlit(" input_tokens=");
        reveal_strlit(" output_tokens=");
        reveal_strlit(" total_tokens=");
        reveal_strlit(" content=");
        lemma_decimal_line(o.latency_ms as nat);
    }
    let start = "ok=1 session_id=".to_owned().concat(quote(o.session_id.as_str()).as_str());
    let line = add_value(start, " provider=", quote(o.provider.as_str()).as_str());
    let line = add_value(line, " model=", quote(o.model.as_str()).as_str());
    let line = add_value(line, " finish_reason=", quote(o.finish_reason.as_str()).as_str());
    let line = add_value(line, " latency_ms=", decimal_string(o.latency_ms).as_str());
    let line = add_value(line, " input_tokens=", count_text(o.usage.input_tokens).as_str());
    let line = add_value(line, " output_tokens=", count_text(o.usage.output_tokens).as_str());
    let line = add_value(line, " total_tokens=", count_text(o.usage.total_tokens).as_str());
    add_value(line, " content=", quote(o.message.content.as_str()).as_str())
}

/// A count in JSON.
pub open spec fn count_json(n: Option<u64>) -> Seq<char> {
    match n {
        Some(n) => decimal(n as nat),
        None => "null"@,
    }
}

fn count_json_of(n: Option<u64>) -> (r: String)
    ensures
        r@ == count_json(n),
{
    match n {
        Some(n) => decimal_string(n),
        None => "null".to_owned(),
    }
}

/// The fields of an object in JSON, each name with the text of its value, in order.
pub open spec fn object_text(v: Seq<(Seq<char>, Seq<char>)>, indent: nat, pretty: bool) -> Seq<char> {
    if pretty {
        "{\n"@ + join(
            v.map_values(
                |f: (Seq<char>, Seq<char>)|
                    repeat("  "@, indent + 1) + "\""@ + f.0 + "\": "@ + f.1,
            ),
            ",\n"@,
        ) + "\n"@ + repeat("  "@, indent) + "}"@
    } else {
        "{"@ + join(
            v.map_values(|f: (Seq<char>, Seq<char>)| "\""@ + f.0 + "\":"@ + f.1),
            ","@,
        ) + "}"@
    }
}

pub open spec fn named_texts(v: Seq<(&'static str, String)>) -> Seq<(Seq<char>, Seq<char>)> {
    v.map_values(|f: (&'static str, String)| (f.0@, f.1@))
}

fn object_text_of(v: &Vec<(&'static str, String)>, indent: usize, pretty: bool) -> (r: String)
    requires
        indent < usize::MAX,
    ensures
        r@ == object_text(named_texts(v@), indent as nat, pretty),
{
    let ghost src = named_texts(v@);
    let ghost goal = if pretty {
        src.map_values(
            |f: (Seq<char>, Seq<char>)|
                repeat("  "@, (indent + 1) as nat) + "\""@ + f.0 + "\": "@ + f.1,
        )
    } else {
        src.map_values(|f: (Seq<char>, Seq<char>)| "\""@ + f.0 + "\":"@ + f.1)
    };
    let mut parts: Vec<String> = Vec::new();
    let mut i: usize = 0;
    proof {
        assert(texts(parts@) =~= goal.take(0));
    }
    while i < v.len()
        invariant
            i <= v@.len(),
            indent < usize::MAX,
            src == named_texts(v@),
            goal == if pretty {
                src.map_values(
                    |f: (Seq<char>, Seq<char>)|
                        repeat("  "@, (indent + 1) as nat) + "\""@ + f.0 + "\": "@ + f.1,
                )
            } else {
                src.map_values(|f: (Seq<char>, Seq<char>)| "\""@ + f.0 + "\":"@ + f.1)
            },
            texts(parts@) == goal.take(i as int),
        decreases v@.len() - i,
    {
        let part = if pretty {
            repeat_str("  ", indent + 1).concat("\"").concat(v[i].0).concat("\": ").concat(
                v[i].1.as_str(),
            )
        } else {
            "\"".to_owned().concat(v[i].0).concat("\":").concat(v[i].1.as_str())
        };
        proof {
            assert(src[i as int] == (v@[i as int].0@, v@[i as int].1@));
            lemma_take_step(goal, i as int);
            lemma_texts_push(parts@, part);
        }
        parts.push(part);
        i = i + 1;
    }
    proof {
        lemma_take_full(goal);
    }
    if pretty {
        "{\n".to_owned().concat(join_strings(&parts, ",\n").as_str()).concat("\n").concat(
            repeat_str("  ", indent).as_str(),
        ).concat("}")
    } else {
        "{".to_owned().concat(join_strings(&parts, ",").as_str()).concat("}")
    }
}

pub open spec fn usage_fields(u: Usage) -> Seq<(Seq<char>, Seq<char>)> {
    seq![
        ("input_tokens"@, count_json(u.input_tokens)),
        ("output_tokens"@, count_json(u.output_tokens)),
        ("total_tokens"@, count_json(u.total_tokens)),
    ]
}

pub open spec fn message_fields(m: AssistantMessage) -> Seq<(Seq<char>, Seq<char>)> {
    seq![("role"@, json_quoted(m.role@)), ("content"@, json_quoted(m.content@))]
}

/// The text of a value inside an object: an indented one stands two columns further in.
pub open spec fn nested_json(v: JsonView, pretty: bool) -> Seq<char> {
    if pretty {
        replaced(pretty_json(v), "\n"@, "\n  "@)
    } else {
        printed_json(v)
    }
}

pub open spec fn output_fields(o: AskOutput, pretty: bool) -> Seq<(Seq<char>, Seq<char>)> {
    let base = seq![
        ("ok"@, bool_name(o.ok)),
        ("provider"@, json_quoted(o.provider@)),
        ("model"@, json_quoted(o.model@)),
        ("session_id"@, json_quoted(o.session_id@)),
        ("message"@, object_text(message_fields(o.message), 1, pretty)),
        ("usage"@, object_text(usage_fields(o.usage), 1, pretty)),
        ("finish_reason"@, json_quoted(o.finish_reason@)),
        ("latency_ms"@, decimal(o.latency_ms as nat)),
    ];
    match o.raw_provider_response {
        Some(raw) => base.push(("raw_provider_response"@, nested_json(raw@, pretty))),
        None => base,
    }
}

/// The output as a JSON object, its fields in a fixed order.
pub open spec fn output_json(o: AskOutput, pretty: bool) -> Seq<char> {
    object_text(output_fields(o, pretty), 0, pretty)
}

fn output_json_of(o: &AskOutput, pretty: bool) -> (r: String)
    ensures
        r@ == output_json(*o, pretty),
{
    let message = vec![
        ("role", quote(o.message.role.as_str())),
        ("content", quote(o.message.content.as_str())),
    ];
    let usage = vec![
        ("input_tokens", count_json_of(o.usage.input_tokens)),
        ("output_tokens", count_json_of(o.usage.output_tokens)),
        ("total_tokens", count_json_of(o.usage.total_tokens)),
    ];
    proof {
        assert(named_texts(message@) =~= message_fields(o.message));
        assert(named_texts(usage@) =~= usage_fields(o.usage));
    }
    let ok = if o.ok {
        "true".to_owned()
    } else {
        "false".to_owned()
    };
    let mut fields = vec![
        ("ok", ok),
        ("provider", quote(o.provider.as_str())),
        ("model", quote(o.model.as_str())),
        ("session_id", quote(o.session_id.as_str())),
        ("message", object_text_of(&message, 1, pretty)),
        ("usage", object_text_of(&usage, 1, pretty)),
        ("finish_reason", quote(o.finish_reason.as_str())),
        ("latency_ms", decimal_string(o.latency_ms)),
    ];
    if let Some(raw) = &o.raw_provider_response {
        proof {
            reveal_strlit("\n");
        }
        let text = if pretty {
            replace(print_json_pretty(raw).as_str(), "\n", "\n  ")
        } else {
            print_json(raw)
        };
        fields.push(("raw_provider_response", text));
    }
    proof {
        assert(named_texts(fields@) =~= output_fields(*o, pretty));
    }
    object_text_of(&fields, 0, pretty)
}

/// The output in a format.
pub open spec fn rendered_output(format: OutputFormat, o: AskOutput, raw: bool) -> Result<
    Seq<char>,
    Failure,
> {
    match format {
        OutputFormat::Line => if raw {
            Err(failure(EXIT_ARGS, "--raw-provider-response does not support --output line"@))
        } else {
            Ok(output_line(o))
        },
        OutputFormat::Text => if raw {
            match o.raw_provider_response {
                Some(j) => Ok(pretty_json(j@)),
                None => Err(failure(EXIT_ARGS, "missing raw provider response"@)),
            }
        } else {
            Ok(o.message.content@)
        },
        OutputFormat::Json => Ok(output_json(o, true)),
        OutputFormat::Ndjson => Ok(output_json(o, false)),
    }
}

/// Renders the output. The line format is always a single line.
pub fn render_ask_output(format: OutputFormat, output: &AskOutput, raw_provider_response: bool) -> (r:
    AppResult<String>)
    ensures
        text_result(r) == rendered_output(format, *output, raw_provider_response),
        format == OutputFormat::Line ==> (r matches Ok(line) ==> one_line(line@)),
{
    match format {
        OutputFormat::Line => {
            if raw_provider_response {
                return Err(
                    AppError::new(
                        EXIT_ARGS,
                        "--raw-provider-response does not support --output line",
                    ),
                );
            }
            Ok(output_line_of(output))
        },
        OutputFormat::Text => {
            if raw_provider_response {
                match &output.raw_provider_response {
                    Some(j) => Ok(print_json_pretty(j)),
                    None => Err(AppError::new(EXIT_ARGS, "missing raw provider response")),
                }
            } else {
                Ok(output.message.content.clone())
            }
        },
        OutputFormat::Json => Ok(output_json_of(output, true)),
        OutputFormat::Ndjson => Ok(output_json_of(output, false)),
    }
}

/// The output of a question that was answered.
#[derive(Debug)]
pub struct AskExecution {
    pub format: OutputFormat,
    pub output: AskOutput,
}

/// The output as it is printed: an answer that is shown as text is rendered.
pub open spec fn final_output(e: AskExecution, raw: bool) -> Result<Seq<char>, Failure> {
    if e.format == OutputFormat::Text && !raw {
        Ok(message_text(e.output.message.content@, RULE_WIDTH as nat))
    } else {
        rendered_output(e.format, e.output, raw)
    }
}

pub fn format_final_ask_output(
    config: &AppConfig,
    result: &AskExecution,
    raw_provider_response: bool,
) -> (r: AppResult<String>)
    ensures
        text_result(r) == final_output(*result, raw_provider_response),
{
    if result.format == OutputFormat::Text && !raw_provider_response {
        let collapse = flag_or(config.defaults.collapse_thinking, false);
        return Ok(render_markdown(result.output.message.content.as_str(), collapse));
    }
    render_ask_output(result.format, &result.output, raw_provider_response)
}

/// The output of a reply.
pub fn ask_output(response: &ChatResponse, session_id: &str, raw: bool) -> (r: AskOutput)
    ensures
        r.ok,
        r.provider@ == response@.provider_id,
        r.model@ == response@.model_id,
        r.session_id@ == session_id@,
        r.message.role@ == "assistant"@,
        r.message.content@ == response@.content,
        r.usage == response@.usage,
        r.finish_reason@ == response@.finish_reason,
        r.latency_ms == response@.latency_ms,
        match r.raw_provider_response {
            Some(j) => raw && j@ == response@.raw,
            None => !raw,
        },
{
    let raw_provider_response = if raw {
        Some(clone_json(&response.raw))
    } else {
        None
    };
    AskOutput {
        ok: true,
        provider: response.provider_id.clone(),
        model: response.model_id.clone(),
        session_id: session_id.to_owned(),
        message: AssistantMessage {
            role: "assistant".to_owned(),
            content: response.content.clone(),
        },
        usage: response.usage,
        finish_reason: response.finish_reason.clone(),
        latency_ms: response.latency_ms,
        raw_provider_response,
    }
}

// ---------------------------------------------------------------------------
// Streamed output
// ---------------------------------------------------------------------------

pub open spec fn optional_count(n: Option<u64>) -> JsonView {
    match n {
        Some(n) => JsonView::Unsigned(n),
        None => JsonView::Null,
    }
}

pub open spec fn usage_json(u: Usage) -> JsonView {
    JsonView::Object(
        seq![
            ("input_tokens"@, optional_count(u.input_tokens)),
            ("output_tokens"@, optional_count(u.output_tokens)),
            ("total_tokens"@, optional_count(u.total_tokens)),
        ],
    )
}

fn optional_count_of(n: Option<u64>) -> (r: Json)
    ensures
        r@ == optional_count(n),
{
    match n {
        Some(n) => json_number(n),
        None => Json::Null,
    }
}

pub fn usage_json_of(u: Usage) -> (r: Json)
    ensures
        r@ == usage_json(u),
{
    object3(
        "input_tokens",
        optional_count_of(u.input_tokens),
        "output_tokens",
        optional_count_of(u.output_tokens),
        "total_tokens",
        optional_count_of(u.total_tokens),
    )
}

/// The event that says that a reply is awaited.
pub fn stream_started(session_id: &str, provider: &str, model: &str) -> (r: Json)
    ensures
        r@ == JsonView::Object(
            seq![
                ("type"@, JsonView::Str("response.started"@)),
                ("session_id"@, JsonView::Str(session_id@)),
                ("provider"@, JsonView::Str(provider@)),
                ("model"@, JsonView::Str(model@)),
            ],
        ),
{
    object4(
        "type",
        json_text("response.started"),
        "session_id",
        json_text(session_id),
        "provider",
        json_text(provider),
        "model",
        json_text(model),
    )
}

/// The event that brings a piece of a reply; an empty piece brings none.
pub fn stream_delta(delta: &str) -> (r: Option<Json>)
    ensures
        match r {
            Some(j) => delta@.len() > 0 && j@ == JsonView::Object(
                seq![
                    ("type"@, JsonView::Str("response.delta"@)),
                    ("delta"@, JsonView::Str(delta@)),
                ],
            ),
            None => delta@.len() == 0,
        },
{
    if delta.is_empty() {
        None
    } else {
        Some(object2("type", json_text("response.delta"), "delta", json_text(delta)))
    }
}

/// The event that says that there is no reply.
pub fn stream_error(message: &str) -> (r: Json)
    ensures
        r@ == JsonView::Object(
            seq![
                ("type"@, JsonView::Str("response.error"@)),
                ("message"@, JsonView::Str(message@)),
            ],
        ),
{
    object2("type", json_text("response.error"), "message", json_text(message))
}

pub open spec fn completed_json(session_id: Seq<char>, response: ReplyView) -> JsonView {
    JsonView::Object(
        seq![
            ("type"@, JsonView::Str("response.completed"@)),
            ("session_id"@, JsonView::Str(session_id)),
            ("provider"@, JsonView::Str(response.provider_id)),
            ("model"@, JsonView::Str(response.model_id)),
            ("finish_reason"@, JsonView::Str(response.finish_reason)),
            ("usage"@, usage_json(response.usage)),
            ("latency_ms"@, JsonView::Unsigned(response.latency_ms)),
        ],
    )
}

/// The event that says that a reply is complete.
pub fn stream_completed(session_id: &str, response: &ChatResponse) -> (r: Json)
    ensures
        r@ == completed_json(session_id@, response@),
{
    let mut f: Vec<(String, Json)> = Vec::new();
    f.push(("type".to_owned(), json_text("response.completed")));
    f.push(("session_id".to_owned(), json_text(session_id)));
    f.push(("provider".to_owned(), json_text(response.provider_id.as_str())));
    f.push(("model".to_owned(), json_text(response.model_id.as_str())));
    f.push(("finish_reason".to_owned(), json_text(response.finish_reason.as_str())));
    f.push(("usage".to_owned(), usage_json_of(response.usage)));
    f.push(("latency_ms".to_owned(), json_number(response.latency_ms)));
    proof {
        assert(field_views(f@) =~= completed_json(session_id@, response@)->Object_0);
    }
    object(f)
}

/// Whether a text that ends a streamed answer needs a newline behind it.
pub fn needs_newline(remaining: &str) -> (r: bool)
    ensures
        r == (remaining@.len() > 0 && remaining@.last() != '\n'),
{
    let c = chars_of(remaining);
    c.len() > 0 && c[c.len() - 1] != '\n'
}

/// How a question is asked.
#[derive(Debug, Clone, Copy, PartialEq, Eq, Structural)]
pub enum AskRoute {
    Tools,
    Stream,
    Plain,
}

pub open spec fn ask_route(tools: bool, stream: bool, default_tools: Option<bool>) -> AskRoute {
    if tools || or_flag(default_tools, true) {
        AskRoute::Tools
    } else if stream {
        AskRoute::Stream
    } else {
        AskRoute::Plain
    }
}

/// How a question is asked, and in which format its answer is asked for.
pub fn handle_ask(
    args_tools: bool,
    args_stream: bool,
    cli_output: Option<OutputFormat>,
    config: &AppConfig,
) -> (r: (AskRoute, Option<OutputFormat>))
    ensures
        r.0 == ask_route(args_tools, args_stream, config.defaults.tools),
        r.1 == if r.0 == AskRoute::Tools && args_stream {
            Some(OutputFormat::Text)
        } else {
            cli_output
        },
{
    if args_tools || flag_or(config.defaults.tools, true) {
        let format = if args_stream {
            Some(OutputFormat::Text)
        } else {
            cli_output
        };
        (AskRoute::Tools, format)
    } else if args_stream {
        (AskRoute::Stream, cli_output)
    } else {
        (AskRoute::Plain, cli_output)
    }
}

} // verus!
