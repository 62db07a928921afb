//! What goes to a provider and what comes back: request bodies, headers, addresses, replies and
//! streamed events.

use crate::chat::{ChatMessage, ChatRequest, MessageView, lemma_messages_push, message_views};
use crate::config::{ModelConfig, ProviderConfig, text_result};
use crate::error::{
    AppError, AppResult, EXIT_AUTH, EXIT_NETWORK, EXIT_PROVIDER, EXIT_RATE_LIMIT, Failure,
    failure,
};
use crate::json::{
    Json, JsonNumber, JsonView, array, clone_json, clone_list, field_views, get_in, has_field,
    json_number, json_text, jsons, law_field_read_back, lemma_fields_push, lemma_jsons_push,
    object, object1, object2, object3, object4, parse_json, parsed_json, put_field, text_in,
    text_in_or, with_field,
};
use crate::media::{ImageView, MessageImage};
use crate::session::contains_string;
use crate::table::Table;
use crate::text::{
    blank, chars_of, contains, contains_text, decimal, decimal_string, is_blank, join,
    join_strings, lemma_take_full, lemma_take_step, lemma_texts_push, opt_str, opt_text,
    str_eq, substring, texts, trim, trimmed,
};
use vstd::prelude::*;

verus! {

// ---------------------------------------------------------------------------
// Request bodies
// ---------------------------------------------------------------------------

/// The messages of a request, for a model that takes no system messages.
pub open spec fn patched(messages: Seq<MessageView>, patch: bool) -> Seq<MessageView> {
    messages.map_values(
        |m: MessageView|
            if patch && m.role == "system"@ {
                MessageView { role: "user"@, ..m }
            } else {
                m
            },
    )
}

pub open spec fn patches_system(model: ModelConfig) -> bool {
    model.patches.system_to_user == Some(true)
}

fn wants_patch(model: &ModelConfig) -> (r: bool)
    ensures
        r == patches_system(*model),
{
    match model.patches.system_to_user {
        Some(b) => b,
        None => false,
    }
}

pub fn patched_messages(request: &ChatRequest) -> (r: Vec<ChatMessage>)
    ensures
        message_views(r@) == patched(
            message_views(request.messages@),
            patches_system(request.model),
        ),
{
    let patch = wants_patch(&request.model);
    let ghost goal = patched(message_views(request.messages@), patch);
    let mut out: Vec<ChatMessage> = Vec::new();
    let mut i: usize = 0;
    while i < request.messages.len()
        invariant
            i <= request.messages@.len(),
            goal == patched(message_views(request.messages@), patch),
            message_views(out@) == goal.take(i as int),
        decreases request.messages@.len() - i,
    {
        let mut m = request.messages[i].copy();
        if patch && str_eq(m.role.as_str(), "system") {
            m.role = "user".to_owned();
        }
        proof {
            lemma_take_step(goal, i as int);
            lemma_messages_push(out@, m);
        }
        out.push(m);
        i = i + 1;
    }
    proof {
        lemma_take_full(goal);
    }
    out
}

pub open spec fn text_part(text: Seq<char>) -> JsonView {
    JsonView::Object(
        seq![("type"@, JsonView::Str("text"@)), ("text"@, JsonView::Str(text))],
    )
}

fn text_part_json(text: &str) -> (r: Json)
    ensures
        r@ == text_part(text@),
{
    object2("type", json_text("text"), "text", json_text(text))
}

pub open spec fn openai_image(i: ImageView) -> JsonView {
    JsonView::Object(
        seq![
            ("type"@, JsonView::Str("image_url"@)),
            (
                "image_url"@,
                JsonView::Object(
                    seq![
                        (
                            "url"@,
                            JsonView::Str("data:"@ + i.media_type + ";base64,"@ + i.data),
                        ),
                    ],
                ),
            ),
        ],
    )
}

pub open spec fn anthropic_image(i: ImageView) -> JsonView {
    JsonView::Object(
        seq![
            ("type"@, JsonView::Str("image"@)),
            (
                "source"@,
                JsonView::Object(
                    seq![
                        ("type"@, JsonView::Str("base64"@)),
                        ("media_type"@, JsonView::Str(i.media_type)),
                        ("data"@, JsonView::Str(i.data)),
                    ],
                ),
            ),
        ],
    )
}

pub open spec fn image_part(i: ImageView, anthropic: bool) -> JsonView {
    if anthropic {
        anthropic_image(i)
    } else {
        openai_image(i)
    }
}

/// The content of a message: its text, or with images a list of parts.
pub open spec fn content_value(m: MessageView, anthropic: bool) -> JsonView {
    if m.images.len() == 0 {
        JsonView::Str(m.content)
    } else {
        let parts = m.images.map_values(|i: ImageView| image_part(i, anthropic));
        if m.content.len() == 0 {
            JsonView::Array(parts)
        } else {
            JsonView::Array(seq![text_part(m.content)] + parts)
        }
    }
}

fn image_part_json(i: &MessageImage, anthropic: bool) -> (r: Json)
    ensures
        r@ == image_part(i@, anthropic),
{
    if anthropic {
        object2(
            "type",
            json_text("image"),
            "source",
            object3(
                "type",
                json_text("base64"),
                "media_type",
                json_text(i.media_type.as_str()),
                "data",
                json_text(i.data.as_str()),
            ),
        )
    } else {
        object2(
            "type",
            json_text("image_url"),
            "image_url",
            object1("url", json_text(i.data_url().as_str())),
        )
    }
}

fn content_json(m: &ChatMessage, anthropic: bool) -> (r: Json)
    ensures
        r@ == content_value(m@, anthropic),
{
    if m.images.len() == 0 {
        return json_text(m.content.as_str());
    }
    let ghost images = m@.images.map_values(|i: ImageView| image_part(i, anthropic));
    let ghost head = if m.content@.len() == 0 {
        Seq::empty()
    } else {
        seq![text_part(m.content@)]
    };
    let mut parts: Vec<Json> = Vec::new();
    if !m.content.as_str().is_empty() {
        parts.push(text_part_json(m.content.as_str()));
    }
    proof {
        assert(jsons(parts@) =~= head + images.take(0));
    }
    let mut i: usize = 0;
    while i < m.images.len()
        invariant
            i <= m.images@.len(),
            images == m@.images.map_values(|i: ImageView| image_part(i, anthropic)),
            jsons(parts@) == head + images.take(i as int),
        decreases m.images@.len() - i,
    {
        let part = image_part_json(&m.images[i], anthropic);
        proof {
            assert(m@.images[i as int] == m.images@[i as int]@);
            lemma_take_step(images, i as int);
            lemma_jsons_push(parts@, part);
            assert(head + images.take(i + 1) =~= (head + images.take(i as int)).push(part@));
        }
        parts.push(part);
        i = i + 1;
    }
    proof {
        lemma_take_full(images);
        assert(Seq::<JsonView>::empty() + images =~= images);
    }
    array(parts)
}

pub fn build_openai_message_content_value(message: &ChatMessage) -> (r: Json)
    ensures
        r@ == content_value(message@, false),
{
    content_json(message, false)
}

pub fn build_anthropic_message_content_value(message: &ChatMessage) -> (r: Json)
    ensures
        r@ == content_value(message@, true),
{
    content_json(message, true)
}

/// A message for an OpenAI-compatible provider.
pub open spec fn openai_message(m: MessageView) -> JsonView {
    let role = ("role"@, JsonView::Str(m.role));
    if m.role == "tool"@ {
        match m.tool_call_id {
            Some(id) => JsonView::Object(
                seq![
                    role,
                    ("content"@, JsonView::Str(m.content)),
                    ("tool_call_id"@, JsonView::Str(id)),
                ],
            ),
            None => JsonView::Object(seq![role, ("content"@, JsonView::Str(m.content))]),
        }
    } else {
        match m.tool_calls {
            Some(calls) if m.role == "assistant"@ => JsonView::Object(
                seq![
                    role,
                    ("tool_calls"@, JsonView::Array(calls)),
                    (
                        "content"@,
                        if m.content.len() == 0 {
                            JsonView::Null
                        } else {
                            JsonView::Str(m.content)
                        },
                    ),
                ],
            ),
            _ => JsonView::Object(seq![role, ("content"@, content_value(m, false))]),
        }
    }
}

fn openai_message_json(m: &ChatMessage) -> (r: Json)
    ensures
        r@ == openai_message(m@),
{
    let role = json_text(m.role.as_str());
    if str_eq(m.role.as_str(), "tool") {
        return match &m.tool_call_id {
            Some(id) => object3(
                "role",
                role,
                "content",
                json_text(m.content.as_str()),
                "tool_call_id",
                json_text(id.as_str()),
            ),
            None => object2("role", role, "content", json_text(m.content.as_str())),
        };
    }
    if str_eq(m.role.as_str(), "assistant") {
        if let Some(calls) = &m.tool_calls {
            let content = if m.content.as_str().is_empty() {
                Json::Null
            } else {
                json_text(m.content.as_str())
            };
            return object3("role", role, "tool_calls", array(clone_list(calls)), "content", content);
        }
    }
    object2("role", role, "content", build_openai_message_content_value(m))
}

pub open spec fn openai_messages(v: Seq<MessageView>) -> Seq<JsonView> {
    v.map_values(|m: MessageView| openai_message(m))
}

fn openai_messages_json(v: &Vec<ChatMessage>) -> (r: Vec<Json>)
    ensures
        jsons(r@) == openai_messages(message_views(v@)),
{
    let ghost goal = openai_messages(message_views(v@));
    let mut out: Vec<Json> = Vec::new();
    let mut i: usize = 0;
    while i < v.len()
        invariant
            i <= v@.len(),
            goal == openai_messages(message_views(v@)),
            jsons(out@) == goal.take(i as int),
        decreases v@.len() - i,
    {
        let item = openai_message_json(&v[i]);
        proof {
            lemma_take_step(goal, i as int);
            lemma_jsons_push(out@, item);
        }
        out.push(item);
        i = i + 1;
    }
    proof {
        lemma_take_full(goal);
    }
    out
}

/// Fields after others were set one after the other.
pub open spec fn with_fields(
    f: Seq<(Seq<char>, JsonView)>,
    more: Seq<(Seq<char>, JsonView)>,
) -> Seq<(Seq<char>, JsonView)>
    decreases more.len(),
{
    if more.len() == 0 {
        f
    } else {
        with_field(with_fields(f, more.drop_last()), more.last().0, more.last().1)
    }
}

fn put_params(fields: &mut Vec<(String, Json)>, params: &Vec<(String, Json)>)
    ensures
        field_views(final(fields)@) == with_fields(
            field_views(old(fields)@),
            field_views(params@),
        ),
{
    let ghost more = field_views(params@);
    let mut i: usize = 0;
    while i < params.len()
        invariant
            i <= params@.len(),
            more == field_views(params@),
            field_views(fields@) == with_fields(field_views(old(fields)@), more.take(i as int)),
        decreases params@.len() - i,
    {
        proof {
            lemma_take_step(more, i as int);
        }
        let value = clone_json(&params[i].1);
        put_field(fields, params[i].0.as_str(), value);
        i = i + 1;
    }
    proof {
        lemma_take_full(more);
    }
}

/// The reasoning effort of the model, unless the parameters say something of it.
pub open spec fn reasoning_effort(r: ChatRequest) -> Option<Seq<char>> {
    let params = field_views(r.params@);
    match r.model.reasoning_effort {
        Some(e) => if !has_field(params, "reasoning_effort"@) && !has_field(params, "thinking"@)
            && !is_blank(e@) {
            Some(trimmed(e@))
        } else {
            None
        },
        None => None,
    }
}

fn has_param(params: &Vec<(String, Json)>, key: &str) -> (r: bool)
    ensures
        r == has_field(field_views(params@), key@),
{
    let mut i: usize = 0;
    while i < params.len()
        invariant
            i <= params@.len(),
            forall|k: int| 0 <= k < i ==> (#[trigger] field_views(params@)[k]).0 != key@,
        decreases params@.len() - i,
    {
        if str_eq(params[i].0.as_str(), key) {
            proof {
                assert(field_views(params@)[i as int].0 == key@);
            }
            return true;
        }
        i = i + 1;
    }
    false
}

pub fn resolved_openai_reasoning_effort(request: &ChatRequest) -> (r: Option<String>)
    ensures
        opt_text(r) == reasoning_effort(*request),
{
    if has_param(&request.params, "reasoning_effort") || has_param(&request.params, "thinking") {
        return None;
    }
    match &request.model.reasoning_effort {
        Some(e) => {
            let t = trim(e.as_str());
            if t.as_str().is_empty() {
                None
            } else {
                Some(t)
            }
        },
        None => None,
    }
}

/// The body of a request to an OpenAI-compatible provider, before the parameters.
pub open spec fn openai_fields(r: ChatRequest, stream: bool) -> Seq<(Seq<char>, JsonView)> {
    let messages = patched(message_views(r.messages@), patches_system(r.model));
    let base = seq![
        ("model"@, JsonView::Str(r.model.remote_name@)),
        ("messages"@, JsonView::Array(openai_messages(messages))),
        ("stream"@, JsonView::Bool(stream)),
    ];
    let base = if stream {
        base.push(
            (
                "stream_options"@,
                JsonView::Object(seq![("include_usage"@, JsonView::Bool(true))]),
            ),
        )
    } else {
        base
    };
    let base = if r.tools@.len() > 0 {
        base.push(("tools"@, JsonView::Array(jsons(r.tools@))))
    } else {
        base
    };
    let base = match r.temperature {
        Some(t) => base.push(("temperature"@, JsonView::Float(t@))),
        None => base,
    };
    let base = match r.max_output_tokens {
        Some(n) => base.push(("max_tokens"@, JsonView::Unsigned(n as u64))),
        None => base,
    };
    match reasoning_effort(r) {
        Some(e) => base.push(("reasoning_effort"@, JsonView::Str(e))),
        None => base,
    }
}

/// The body of a request to an OpenAI-compatible provider: the parameters come last and replace
/// fields of the same name.
pub open spec fn openai_body(r: ChatRequest, stream: bool) -> JsonView {
    JsonView::Object(with_fields(openai_fields(r, stream), field_views(r.params@)))
}

fn add_field(fields: &mut Vec<(String, Json)>, key: &str, value: Json)
    ensures
        field_views(final(fields)@) == field_views(old(fields)@).push((key@, value@)),
{
    let f = (key.to_owned(), value);
    proof {
        lemma_fields_push(fields@, f);
    }
    fields.push(f);
}

fn number_json(text: &String) -> (r: Json)
    ensures
        r@ == JsonView::Float(text@),
{
    Json::Number(JsonNumber::Float(text.clone()))
}

pub fn build_openai_body(request: &ChatRequest, stream: bool) -> (r: Json)
    ensures
        r@ == openai_body(*request, stream),
{
    let messages = patched_messages(request);
    let mut body: Vec<(String, Json)> = Vec::new();
    add_field(&mut body, "model", json_text(request.model.remote_name.as_str()));
    add_field(&mut body, "messages", array(openai_messages_json(&messages)));
    add_field(&mut body, "stream", Json::Bool(stream));
    proof {
        assert(field_views(body@) =~= seq![
            ("model"@, JsonView::Str(request.model.remote_name@)),
            (
                "messages"@,
                JsonView::Array(
                    openai_messages(
                        patched(message_views(request.messages@), patches_system(request.model)),
                    ),
                ),
            ),
            ("stream"@, JsonView::Bool(stream)),
        ]);
    }
    if stream {
        add_field(&mut body, "stream_options", object1("include_usage", Json::Bool(true)));
    }
    if request.tools.len() > 0 {
        add_field(&mut body, "tools", array(clone_list(&request.tools)));
    }
    if let Some(t) = &request.temperature {
        add_field(&mut body, "temperature", number_json(t));
    }
    if let Some(n) = request.max_output_tokens {
        add_field(&mut body, "max_tokens", json_number(n as u64));
    }
    if let Some(e) = resolved_openai_reasoning_effort(request) {
        add_field(&mut body, "reasoning_effort", json_text(e.as_str()));
    }
    put_params(&mut body, &request.params);
    object(body)
}

/// The contents of the system messages.
pub open spec fn system_parts(v: Seq<MessageView>) -> Seq<Seq<char>>
    decreases v.len(),
{
    if v.len() == 0 {
        Seq::empty()
    } else if v.last().role == "system"@ {
        system_parts(v.drop_last()).push(v.last().content)
    } else {
        system_parts(v.drop_last())
    }
}

/// The other messages, as Anthropic takes them.
pub open spec fn other_messages(v: Seq<MessageView>) -> Seq<JsonView>
    decreases v.len(),
{
    if v.len() == 0 {
        Seq::empty()
    } else if v.last().role == "system"@ {
        other_messages(v.drop_last())
    } else {
        other_messages(v.drop_last()).push(
            JsonView::Object(
                seq![
                    ("role"@, JsonView::Str(v.last().role)),
                    ("content"@, content_value(v.last(), true)),
                ],
            ),
        )
    }
}

/// The system prompt that the system messages make up.
pub open spec fn system_text(v: Seq<MessageView>) -> Option<Seq<char>> {
    if system_parts(v).len() == 0 {
        None
    } else {
        Some(join(system_parts(v), "\n\n"@))
    }
}

pub fn split_system_messages(messages: &Vec<ChatMessage>) -> (r: (Option<String>, Vec<Json>))
    ensures
        opt_text(r.0) == system_text(message_views(messages@)),
        jsons(r.1@) == other_messages(message_views(messages@)),
{
    let ghost src = message_views(messages@);
    let mut parts: Vec<String> = Vec::new();
    let mut result: Vec<Json> = Vec::new();
    let mut i: usize = 0;
    proof {
        assert(texts(parts@) =~= Seq::<Seq<char>>::empty());
        assert(jsons(result@) =~= Seq::<JsonView>::empty());
    }
    while i < messages.len()
        invariant
            i <= messages@.len(),
            src == message_views(messages@),
            texts(parts@) == system_parts(src.take(i as int)),
            jsons(result@) == other_messages(src.take(i as int)),
        decreases messages@.len() - i,
    {
        proof {
            lemma_take_step(src, i as int);
        }
        let m = &messages[i];
        if str_eq(m.role.as_str(), "system") {
            proof {
                lemma_texts_push(parts@, m.content);
            }
            parts.push(m.content.clone());
        } else {
            let item = object2(
                "role",
                json_text(m.role.as_str()),
                "content",
                build_anthropic_message_content_value(m),
            );
            proof {
                lemma_jsons_push(result@, item);
            }
            result.push(item);
        }
        i = i + 1;
    }
    proof {
        lemma_take_full(src);
    }
    let system = if parts.len() == 0 {
        None
    } else {
        Some(join_strings(&parts, "\n\n"))
    };
    (system, result)
}

/// The body of a request to Anthropic, before the parameters.
pub open spec fn anthropic_fields(r: ChatRequest, stream: bool) -> Seq<(Seq<char>, JsonView)> {
    let messages = patched(message_views(r.messages@), patches_system(r.model));
    let base = seq![
        ("model"@, JsonView::Str(r.model.remote_name@)),
        (
            "max_tokens"@,
            JsonView::Unsigned(
                match r.max_output_tokens {
                    Some(n) => n as u64,
                    None => 1024,
                },
            ),
        ),
    ];
    let base = match system_text(messages) {
        Some(s) => base.push(("system"@, JsonView::Str(s))),
        None => base,
    };
    let base = base.push(("messages"@, JsonView::Array(other_messages(messages))));
    let base = if stream {
        base.push(("stream"@, JsonView::Bool(true)))
    } else {
        base
    };
    match r.temperature {
        Some(t) => base.push(("temperature"@, JsonView::Float(t@))),
        None => base,
    }
}

/// The body of a request to Anthropic.
pub open spec fn anthropic_body(r: ChatRequest, stream: bool) -> JsonView {
    JsonView::Object(with_fields(anthropic_fields(r, stream), field_views(r.params@)))
}

pub fn build_anthropic_body(request: &ChatRequest, stream: bool) -> (r: Json)
    ensures
        r@ == anthropic_body(*request, stream),
{
    let messages = patched_messages(request);
    let max: u64 = match request.max_output_tokens {
        Some(n) => n as u64,
        None => 1024,
    };
    let mut body: Vec<(String, Json)> = Vec::new();
    add_field(&mut body, "model", json_text(request.model.remote_name.as_str()));
    add_field(&mut body, "max_tokens", json_number(max));
    proof {
        assert(field_views(body@) =~= seq![
            ("model"@, JsonView::Str(request.model.remote_name@)),
            ("max_tokens"@, JsonView::Unsigned(max)),
        ]);
    }
    let parts = split_system_messages(&messages);
    if let Some(s) = &parts.0 {
        add_field(&mut body, "system", json_text(s.as_str()));
    }
    add_field(&mut body, "messages", array(parts.1));
    if stream {
        add_field(&mut body, "stream", Json::Bool(true));
    }
    if let Some(t) = &request.temperature {
        add_field(&mut body, "temperature", number_json(t));
    }
    proof {
        assert(field_views(body@) =~= anthropic_fields(*request, stream));
    }
    put_params(&mut body, &request.params);
    object(body)
}

pub open spec fn ollama_messages(v: Seq<MessageView>) -> Seq<JsonView> {
    v.map_values(
        |m: MessageView|
            JsonView::Object(
                seq![
                    ("role"@, JsonView::Str(m.role)),
                    ("content"@, JsonView::Str(m.content)),
                ],
            ),
    )
}

/// The body of a request to Ollama, before the parameters.
pub open spec fn ollama_fields(r: ChatRequest, stream: bool) -> Seq<(Seq<char>, JsonView)> {
    let messages = patched(message_views(r.messages@), patches_system(r.model));
    let base = seq![
        ("model"@, JsonView::Str(r.model.remote_name@)),
        ("messages"@, JsonView::Array(ollama_messages(messages))),
        ("stream"@, JsonView::Bool(stream)),
    ];
    match r.temperature {
        Some(t) => base.push(
            ("options"@, JsonView::Object(seq![("temperature"@, JsonView::Float(t@))])),
        ),
        None => base,
    }
}

/// The body of a request to Ollama.
pub open spec fn ollama_body(r: ChatRequest, stream: bool) -> JsonView {
    JsonView::Object(with_fields(ollama_fields(r, stream), field_views(r.params@)))
}

pub fn build_ollama_body(request: &ChatRequest, stream: bool) -> (r: Json)
    ensures
        r@ == ollama_body(*request, stream),
{
    let messages = patched_messages(request);
    let ghost goal = ollama_messages(message_views(messages@));
    let mut items: Vec<Json> = Vec::new();
    let mut i: usize = 0;
    while i < messages.len()
        invariant
            i <= messages@.len(),
            goal == ollama_messages(message_views(messages@)),
            jsons(items@) == goal.take(i as int),
        decreases messages@.len() - i,
    {
        let item = object2(
            "role",
            json_text(messages[i].role.as_str()),
            "content",
            json_text(messages[i].content.as_str()),
        );
        proof {
            lemma_take_step(goal, i as int);
            lemma_jsons_push(items@, item);
        }
        items.push(item);
        i = i + 1;
    }
    proof {
        lemma_take_full(goal);
    }
    let mut body: Vec<(String, Json)> = Vec::new();
    add_field(&mut body, "model", json_text(request.model.remote_name.as_str()));
    add_field(&mut body, "messages", array(items));
    add_field(&mut body, "stream", Json::Bool(stream));
    proof {
        assert(field_views(body@) =~= seq![
            ("model"@, JsonView::Str(request.model.remote_name@)),
            ("messages"@, JsonView::Array(goal)),
            ("stream"@, JsonView::Bool(stream)),
        ]);
    }
    if let Some(t) = &request.temperature {
        add_field(&mut body, "options", object1("temperature", number_json(t)));
    }
    put_params(&mut body, &request.params);
    object(body)
}

proof fn lemma_with_fields_last(
    f: Seq<(Seq<char>, JsonView)>,
    more: Seq<(Seq<char>, JsonView)>,
    i: int,
)
    requires
        0 <= i < more.len(),
        forall|k: int| i < k < more.len() ==> (#[trigger] more[k]).0 != more[i].0,
    ensures
        JsonView::Object(with_fields(f, more)).at(more[i].0) == more[i].1,
    decreases more.len(),
{
    let before = with_fields(f, more.drop_last());
    if i == more.len() - 1 {
        law_field_read_back(before, more.last().0, more.last().1, more[i].0);
    } else {
        assert forall|k: int| i < k < more.drop_last().len() implies (#[trigger] more.drop_last()[k]).0
            != more[i].0 by {
            assert(more[k].0 != more[i].0);
        }
        lemma_with_fields_last(f, more.drop_last(), i);
        assert(more[more.len() - 1].0 != more[i].0);
        law_field_read_back(before, more.last().0, more.last().1, more[i].0);
    }
}

/// A parameter of a request is in its body, whatever the body holds under that name otherwise.
pub proof fn law_params_win(r: ChatRequest, stream: bool, i: int)
    requires
        0 <= i < r.params@.len(),
        forall|k: int|
            i < k < r.params@.len() ==> (#[trigger] r.params@[k]).0@ != r.params@[i].0@,
    ensures
        openai_body(r, stream).at(r.params@[i].0@) == r.params@[i].1@,
{
    let more = field_views(r.params@);
    assert forall|k: int| i < k < more.len() implies (#[trigger] more[k]).0 != more[i].0 by {
        assert(r.params@[k].0@ != r.params@[i].0@);
    }
    lemma_with_fields_last(openai_fields(r, stream), more, i);
}

// ---------------------------------------------------------------------------
// Addresses, headers, timeouts
// ---------------------------------------------------------------------------

/// The address of a provider: the one that was set, else the usual one of its kind.
pub open spec fn base_url(p: ProviderConfig) -> Result<Seq<char>, Failure> {
    match p.base_url {
        Some(u) => Ok(u@),
        None => if p.kind@ == "anthropic"@ {
            Ok("https://api.anthropic.com/v1"@)
        } else if p.kind@ == "ollama"@ {
            Ok("http://localhost:11434/api"@)
        } else {
            Err(failure(EXIT_PROVIDER, "provider.base_url is required for this provider"@))
        },
    }
}

pub fn provider_base_url(provider: &ProviderConfig) -> (r: AppResult<String>)
    ensures
        text_result(r) == base_url(*provider),
{
    match &provider.base_url {
        Some(u) => Ok(u.clone()),
        None => {
            if str_eq(provider.kind.as_str(), "anthropic") {
                Ok("https://api.anthropic.com/v1".to_owned())
            } else if str_eq(provider.kind.as_str(), "ollama") {
                Ok("http://localhost:11434/api".to_owned())
            } else {
                Err(
                    AppError::new(
                        EXIT_PROVIDER,
                        "provider.base_url is required for this provider",
                    ),
                )
            }
        },
    }
}

/// A text without the slashes at its end.
pub open spec fn without_slashes(s: Seq<char>) -> Seq<char>
    decreases s.len(),
{
    if s.len() > 0 && s.last() == '/' {
        without_slashes(s.drop_last())
    } else {
        s
    }
}

fn drop_slashes(s: &str) -> (r: String)
    ensures
        r@ == without_slashes(s@),
{
    let c = chars_of(s);
    let mut n: usize = c.len();
    proof {
        lemma_take_full(c@);
    }
    while n > 0 && c[n - 1] == '/'
        invariant
            n <= c@.len(),
            without_slashes(c@.take(n as int)) == without_slashes(c@),
        decreases n,
    {
        proof {
            lemma_take_step(c@, n - 1);
        }
        n = n - 1;
    }
    proof {
        if n > 0 {
            lemma_take_step(c@, n - 1);
        }
    }
    let r = substring(c.as_slice(), 0, n);
    proof {
        assert(r@ =~= c@.take(n as int));
    }
    r
}

pub open spec fn not_implemented(kind: Seq<char>) -> Failure {
    failure(EXIT_PROVIDER, "provider kind `"@ + kind + "` is not implemented yet"@)
}

/// The last part of the address that a question goes to.
pub open spec fn chat_path(kind: Seq<char>) -> Option<Seq<char>> {
    if kind == "openai_compatible"@ {
        Some("/chat/completions"@)
    } else if kind == "anthropic"@ {
        Some("/messages"@)
    } else if kind == "ollama"@ {
        Some("/chat"@)
    } else {
        None
    }
}

/// The last part of the address that a health check asks.
pub open spec fn health_path(kind: Seq<char>) -> Option<Seq<char>> {
    if kind == "openai_compatible"@ || kind == "anthropic"@ {
        Some("/models"@)
    } else if kind == "ollama"@ {
        Some("/tags"@)
    } else {
        None
    }
}

pub open spec fn address(p: ProviderConfig, path: Option<Seq<char>>) -> Result<Seq<char>, Failure> {
    match path {
        None => Err(not_implemented(p.kind@)),
        Some(tail) => match base_url(p) {
            Ok(u) => Ok(without_slashes(u) + tail),
            Err(e) => Err(e),
        },
    }
}

fn address_of(provider: &ProviderConfig, path: Option<&str>) -> (r: AppResult<String>)
    ensures
        text_result(r) == address(*provider, opt_str(path)),
{
    match path {
        None => {
            let message = "provider kind `".to_owned().concat(provider.kind.as_str()).concat(
                "` is not implemented yet",
            );
            Err(AppError::new(EXIT_PROVIDER, message.as_str()))
        },
        Some(tail) => match provider_base_url(provider) {
            Ok(u) => Ok(drop_slashes(u.as_str()).concat(tail)),
            Err(e) => Err(e),
        },
    }
}

/// The address that a question goes to.
pub fn chat_url(provider: &ProviderConfig) -> (r: AppResult<String>)
    ensures
        text_result(r) == address(*provider, chat_path(provider.kind@)),
{
    let kind = provider.kind.as_str();
    if str_eq(kind, "openai_compatible") {
        address_of(provider, Some("/chat/completions"))
    } else if str_eq(kind, "anthropic") {
        address_of(provider, Some("/messages"))
    } else if str_eq(kind, "ollama") {
        address_of(provider, Some("/chat"))
    } else {
        address_of(provider, None)
    }
}

/// The address that a health check asks.
pub fn health_url(provider: &ProviderConfig) -> (r: AppResult<String>)
    ensures
        text_result(r) == address(*provider, health_path(provider.kind@)),
{
    let kind = provider.kind.as_str();
    if str_eq(kind, "openai_compatible") || str_eq(kind, "anthropic") {
        address_of(provider, Some("/models"))
    } else if str_eq(kind, "ollama") {
        address_of(provider, Some("/tags"))
    } else {
        address_of(provider, None)
    }
}

/// The model to ask for one word where a provider has no list of models: asked only of an
/// OpenAI-compatible provider with a default model whose list was not found.
pub open spec fn ping_model(
    p: ProviderConfig,
    models: Table<ModelConfig>,
    error: Failure,
) -> Option<Seq<char>> {
    if p.kind@ == "openai_compatible"@ && error.code == EXIT_NETWORK && contains_text(
        error.message,
        "HTTP 404"@,
    ) {
        match p.default_model {
            Some(id) => match models.lookup(id@) {
                Some(m) => Some(m.remote_name@),
                None => Some(id@),
            },
            None => None,
        }
    } else {
        None
    }
}

pub fn health_fallback(
    provider: &ProviderConfig,
    models: &Table<ModelConfig>,
    error: &AppError,
) -> (r: Option<String>)
    requires
        models.wf(),
    ensures
        opt_text(r) == ping_model(*provider, *models, error@),
{
    if !str_eq(provider.kind.as_str(), "openai_compatible") || error.code != EXIT_NETWORK
        || !contains(error.message.as_str(), "HTTP 404") {
        return None;
    }
    match &provider.default_model {
        Some(id) => match models.get(id.as_str()) {
            Some(m) => Some(m.remote_name.clone()),
            None => Some(id.clone()),
        },
        None => None,
    }
}

/// The body of the question that asks for one word.
pub fn ping_body(remote_name: &str) -> (r: Json)
    ensures
        r@ == JsonView::Object(
            seq![
                ("model"@, JsonView::Str(remote_name@)),
                (
                    "messages"@,
                    JsonView::Array(
                        seq![
                            JsonView::Object(
                                seq![
                                    ("role"@, JsonView::Str("user"@)),
                                    ("content"@, JsonView::Str("ping"@)),
                                ],
                            ),
                        ],
                    ),
                ),
                ("max_tokens"@, JsonView::Unsigned(1)),
                ("stream"@, JsonView::Bool(false)),
            ],
        ),
{
    let mut messages: Vec<Json> = Vec::new();
    messages.push(object2("role", json_text("user"), "content", json_text("ping")));
    proof {
        assert(jsons(messages@) =~= seq![
            JsonView::Object(
                seq![
                    ("role"@, JsonView::Str("user"@)),
                    ("content"@, JsonView::Str("ping"@)),
                ],
            ),
        ]);
    }
    object4(
        "model",
        json_text(remote_name),
        "messages",
        array(messages),
        "max_tokens",
        json_number(1),
        "stream",
        Json::Bool(false),
    )
}

/// A header of a request, and what to report where it cannot be sent.
#[derive(Debug)]
pub struct Header {
    pub name: String,
    pub value: String,
    pub code: i32,
    pub bad_name: String,
    pub bad_value: String,
}

pub struct HeaderView {
    pub name: Seq<char>,
    pub value: Seq<char>,
    pub code: i32,
    pub bad_name: Seq<char>,
    pub bad_value: Seq<char>,
}

impl View for Header {
    type V = HeaderView;

    open spec fn view(&self) -> HeaderView {
        HeaderView {
            name: self.name@,
            value: self.value@,
            code: self.code,
            bad_name: self.bad_name@,
            bad_value: self.bad_value@,
        }
    }
}

pub open spec fn header_views(v: Seq<Header>) -> Seq<HeaderView> {
    v.map_values(|h: Header| h@)
}

/// A header whose name is fixed.
pub open spec fn fixed_header(
    name: Seq<char>,
    value: Seq<char>,
    code: i32,
    problem: Seq<char>,
) -> HeaderView {
    HeaderView { name, value, code, bad_name: problem, bad_value: problem }
}

fn push_header(v: &mut Vec<Header>, name: &str, value: String, code: i32, problem: &str)
    ensures
        header_views(final(v)@) == header_views(old(v)@).push(
            fixed_header(name@, value@, code, problem@),
        ),
{
    let h = Header {
        name: name.to_owned(),
        value,
        code,
        bad_name: problem.to_owned(),
        bad_value: problem.to_owned(),
    };
    v.push(h);
    proof {
        assert(header_views(v@) =~= header_views(old(v)@).push(h@));
    }
}

/// The headers that the first `i` custom headers make.
pub open spec fn custom_headers(p: ProviderConfig, i: int) -> Seq<HeaderView>
    decreases i,
{
    if i <= 0 {
        Seq::empty()
    } else {
        let key = p.headers.keys()[i - 1];
        custom_headers(p, i - 1).push(
            HeaderView {
                name: key,
                value: p.headers.values()[i - 1]@,
                code: EXIT_PROVIDER,
                bad_name: "invalid header name `"@ + key + "`"@,
                bad_value: "invalid header value for `"@ + key + "`"@,
            },
        )
    }
}

/// The headers of every request: the content type, then the custom ones.
pub open spec fn common_headers(p: ProviderConfig) -> Seq<HeaderView> {
    seq![
        fixed_header(
            "content-type"@,
            "application/json"@,
            EXIT_PROVIDER,
            "invalid content type"@,
        ),
    ] + custom_headers(p, p.headers.keys().len() as int)
}

pub fn apply_custom_headers(headers: &mut Vec<Header>, provider: &ProviderConfig)
    requires
        provider.headers.wf(),
    ensures
        header_views(final(headers)@) == header_views(old(headers)@) + common_headers(*provider),
{
    let ghost before = header_views(headers@);
    push_header(
        headers,
        "content-type",
        "application/json".to_owned(),
        EXIT_PROVIDER,
        "invalid content type",
    );
    let ghost start = header_views(headers@);
    proof {
        assert(start =~= start + custom_headers(*provider, 0));
    }
    let n: usize = provider.headers.len();
    let mut i: usize = 0;
    while i < n
        invariant
            i <= n,
            n == provider.headers.keys().len(),
            provider.headers.wf(),
            header_views(headers@) == start + custom_headers(*provider, i as int),
        decreases n - i,
    {
        let key = provider.headers.key_at(i);
        let h = Header {
            name: key.to_owned(),
            value: provider.headers.value_at(i).clone(),
            code: EXIT_PROVIDER,
            bad_name: "invalid header name `".to_owned().concat(key).concat("`"),
            bad_value: "invalid header value for `".to_owned().concat(key).concat("`"),
        };
        let ghost old_views = header_views(headers@);
        headers.push(h);
        i = i + 1;
        proof {
            assert(header_views(headers@) =~= old_views.push(h@));
            assert(header_views(headers@) =~= start + custom_headers(*provider, i as int));
        }
    }
    proof {
        assert(header_views(headers@) =~= before + common_headers(*provider));
    }
}

/// The bearer token, unless the key is blank.
pub open spec fn bearer(api_key: Seq<char>) -> Seq<HeaderView> {
    if is_blank(api_key) {
        Seq::empty()
    } else {
        seq![
            fixed_header(
                "authorization"@,
                "Bearer "@ + api_key,
                EXIT_AUTH,
                "invalid API key header"@,
            ),
        ]
    }
}

pub fn add_bearer_auth(headers: &mut Vec<Header>, api_key: &str)
    ensures
        header_views(final(headers)@) == header_views(old(headers)@) + bearer(api_key@),
{
    if !blank(api_key) {
        let value = "Bearer ".to_owned().concat(api_key);
        push_header(headers, "authorization", value, EXIT_AUTH, "invalid API key header");
    }
    proof {
        assert(header_views(headers@) =~= header_views(old(headers)@) + bearer(api_key@));
    }
}

pub open spec fn optional_header(
    o: Option<String>,
    name: Seq<char>,
    problem: Seq<char>,
) -> Seq<HeaderView> {
    match o {
        Some(v) => seq![fixed_header(name, v@, EXIT_PROVIDER, problem)],
        None => Seq::empty(),
    }
}

pub fn build_openai_headers(provider: &ProviderConfig, api_key: &str) -> (r: Vec<Header>)
    requires
        provider.headers.wf(),
    ensures
        header_views(r@) == bearer(api_key@) + optional_header(
            provider.org,
            "openai-organization"@,
            "invalid org header value"@,
        ) + optional_header(
            provider.project,
            "openai-project"@,
            "invalid project header value"@,
        ) + common_headers(*provider),
{
    let mut headers: Vec<Header> = Vec::new();
    add_bearer_auth(&mut headers, api_key);
    proof {
        assert(header_views(headers@) =~= bearer(api_key@));
    }
    if let Some(org) = &provider.org {
        push_header(
            &mut headers,
            "openai-organization",
            org.clone(),
            EXIT_PROVIDER,
            "invalid org header value",
        );
    }
    let ghost two = bearer(api_key@) + optional_header(
        provider.org,
        "openai-organization"@,
        "invalid org header value"@,
    );
    proof {
        assert(header_views(headers@) =~= two);
    }
    if let Some(project) = &provider.project {
        push_header(
            &mut headers,
            "openai-project",
            project.clone(),
            EXIT_PROVIDER,
            "invalid project header value",
        );
    }
    proof {
        assert(header_views(headers@) =~= two + optional_header(
            provider.project,
            "openai-project"@,
            "invalid project header value"@,
        ));
    }
    apply_custom_headers(&mut headers, provider);
    headers
}

pub fn build_anthropic_headers(provider: &ProviderConfig, api_key: &str) -> (r: AppResult<
    Vec<Header>,
>)
    requires
        provider.headers.wf(),
    ensures
        if is_blank(api_key@) {
            r matches Err(e) && e@ == failure(
                EXIT_AUTH,
                "missing API key for anthropic provider"@,
            )
        } else {
            r matches Ok(v) && header_views(v@) == seq![
                fixed_header("x-api-key"@, api_key@, EXIT_AUTH, "invalid API key header"@),
                fixed_header(
                    "anthropic-version"@,
                    "2023-06-01"@,
                    EXIT_PROVIDER,
                    "invalid version"@,
                ),
            ] + common_headers(*provider)
        },
{
    if blank(api_key) {
        return Err(AppError::new(EXIT_AUTH, "missing API key for anthropic provider"));
    }
    let mut headers: Vec<Header> = Vec::new();
    push_header(
        &mut headers,
        "x-api-key",
        api_key.to_owned(),
        EXIT_AUTH,
        "invalid API key header",
    );
    push_header(
        &mut headers,
        "anthropic-version",
        "2023-06-01".to_owned(),
        EXIT_PROVIDER,
        "invalid version",
    );
    proof {
        assert(header_views(headers@) =~= seq![
            fixed_header("x-api-key"@, api_key@, EXIT_AUTH, "invalid API key header"@),
            fixed_header("anthropic-version"@, "2023-06-01"@, EXIT_PROVIDER, "invalid version"@),
        ]);
    }
    apply_custom_headers(&mut headers, provider);
    Ok(headers)
}

pub fn build_ollama_headers(provider: &ProviderConfig, api_key: &str) -> (r: Vec<Header>)
    requires
        provider.headers.wf(),
    ensures
        header_views(r@) == bearer(api_key@) + common_headers(*provider),
{
    let mut headers: Vec<Header> = Vec::new();
    add_bearer_auth(&mut headers, api_key);
    proof {
        assert(header_views(headers@) =~= bearer(api_key@));
    }
    apply_custom_headers(&mut headers, provider);
    headers
}

/// The seconds that a request may take; zero is without limit.
pub fn effective_request_timeout_secs(timeout_secs: Option<u64>) -> (r: u64)
    ensures
        r == match timeout_secs {
            Some(n) => n,
            None => 0,
        },
{
    match timeout_secs {
        Some(n) => n,
        None => 0,
    }
}

/// The limit in seconds on a request, if there is one.
pub fn request_timeout(timeout_secs: u64) -> (r: Option<u64>)
    ensures
        r == if timeout_secs > 0 {
            Some(timeout_secs)
        } else {
            None
        },
{
    if timeout_secs > 0 {
        Some(timeout_secs)
    } else {
        None
    }
}

/// The report of a reply that could not be read.
pub open spec fn read_error(
    kind: Seq<char>,
    details: Seq<char>,
    timed_out: bool,
    timeout_secs: Option<u64>,
) -> Seq<char> {
    match timeout_secs {
        Some(n) if n > 0 && timed_out => "failed to read provider "@ + kind
            + ": request timed out after "@ + decimal(n as nat) + "s: "@ + details,
        _ => "failed to read provider "@ + kind + ": "@ + details,
    }
}

pub fn format_provider_read_error(
    kind: &str,
    details: &str,
    timed_out: bool,
    timeout_secs: Option<u64>,
) -> (r: String)
    ensures
        r@ == read_error(kind@, details@, timed_out, timeout_secs),
{
    let head = "failed to read provider ".to_owned().concat(kind);
    match request_timeout(effective_request_timeout_secs(timeout_secs)) {
        Some(n) => {
            if timed_out {
                return head.concat(": request timed out after ").concat(
                    decimal_string(n).as_str(),
                ).concat("s: ").concat(details);
            }
        },
        None => {},
    }
    head.concat(": ").concat(details)
}

/// The parts of an error chain without empty and repeated texts.
pub open spec fn chain_parts(chain: Seq<Seq<char>>) -> Seq<Seq<char>>
    decreases chain.len(),
{
    if chain.len() <= 1 {
        chain
    } else {
        let before = chain_parts(chain.drop_last());
        if chain.last().len() == 0 || before.contains(chain.last()) {
            before
        } else {
            before.push(chain.last())
        }
    }
}

/// The text of an error and its causes, each once.
pub fn error_details(chain: &Vec<String>) -> (r: String)
    ensures
        r@ == join(chain_parts(texts(chain@)), ": "@),
{
    let ghost src = texts(chain@);
    let mut parts: Vec<String> = Vec::new();
    let mut i: usize = 0;
    proof {
        assert(texts(parts@) =~= src.take(0));
    }
    while i < chain.len()
        invariant
            i <= chain@.len(),
            src == texts(chain@),
            texts(parts@) == chain_parts(src.take(i as int)),
        decreases chain@.len() - i,
    {
        proof {
            lemma_take_step(src, i as int);
            lemma_texts_push(parts@, chain@[i as int]);
            assert(src.take(1) =~= seq![src[0]]);
            assert(i == 0 ==> texts(parts@).push(src[0]) =~= seq![src[0]]);
        }
        if i == 0 || !(chain[i].as_str().is_empty() || contains_string(&parts, chain[i].as_str())) {
            parts.push(chain[i].clone());
        }
        i = i + 1;
    }
    proof {
        lemma_take_full(src);
    }
    join_strings(&parts, ": ")
}

/// The message of an error reply: the one that its JSON holds, else the whole text.
pub open spec fn http_message(parsed: Result<JsonView, Seq<char>>, text: Seq<char>) -> Seq<char> {
    match parsed {
        Err(_) => text,
        Ok(j) => match (j.at("error"@).at("message"@).text(), j.at("error"@).text(), j.at(
            "message"@,
        ).text()) {
            (Some(m), _, _) => m,
            (None, Some(m), _) => m,
            (None, None, Some(m)) => m,
            (None, None, None) => text,
        },
    }
}

/// The error that a status of a reply stands for.
pub open spec fn http_failure(status: u16, message: Seq<char>) -> Failure {
    if status == 401 || status == 403 {
        failure(EXIT_AUTH, "authentication failed: "@ + message)
    } else if status == 429 || status == 529 {
        failure(EXIT_RATE_LIMIT, "rate limited: "@ + message)
    } else {
        failure(
            EXIT_NETWORK,
            "provider returned HTTP "@ + decimal(status as nat) + ": "@ + message,
        )
    }
}

/// The message of an error reply, given what its text reads as.
pub fn error_reply_message(parsed: &Result<Json, String>, text: &str) -> (r: String)
    ensures
        r@ == http_message(json_result(*parsed), text@),
{
    match parsed {
        Err(_) => text.to_owned(),
        Ok(j) => {
            if let Some(m) = text_in(get_in(j.get("error"), "message")) {
                return m;
            }
            if let Some(m) = text_in(j.get("error")) {
                return m;
            }
            text_in_or(j.get("message"), text)
        },
    }
}

/// The outcome of reading JSON.
pub open spec fn json_result(r: Result<Json, String>) -> Result<JsonView, Seq<char>> {
    match r {
        Ok(j) => Ok(j@),
        Err(m) => Err(m@),
    }
}

/// The error that a reply with an error status stands for.
pub fn map_http_error(status: u16, text: &str) -> (r: AppError)
    ensures
        r@ == http_failure(status, http_message(parsed_json(text@), text@)),
{
    let parsed = parse_json(text);
    let message = error_reply_message(&parsed, text);
    if status == 401 || status == 403 {
        AppError::new(
            EXIT_AUTH,
            "authentication failed: ".to_owned().concat(message.as_str()).as_str(),
        )
    } else if status == 429 || status == 529 {
        AppError::new(
            EXIT_RATE_LIMIT,
            "rate limited: ".to_owned().concat(message.as_str()).as_str(),
        )
    } else {
        let text = "provider returned HTTP ".to_owned().concat(
            decimal_string(status as u64).as_str(),
        ).concat(": ").concat(message.as_str());
        AppError::new(EXIT_NETWORK, text.as_str())
    }
}

} // verus!
