//! What a request is for: every provider is told the whole conversation, who said what, and what
//! was asked for beside it.

use crate::chat::{ChatMessage, ChatRequest, MessageView, message_views};
use crate::config::{ModelConfig, ProviderConfig};
use crate::error::{EXIT_AUTH, EXIT_NETWORK, EXIT_RATE_LIMIT, Failure};
use crate::json::{JsonView, field_from, field_views, has_field, jsons, law_field_read_back};
use crate::media::ImageView;
use crate::provider::{
    address, anthropic_body, anthropic_fields, bearer, chat_path, common_headers,
    content_value, custom_headers, health_path, http_failure, http_message, image_part,
    ollama_body, ollama_fields, ollama_messages, openai_body, openai_fields, openai_message,
    openai_messages, other_messages, patched, patches_system, ping_model, read_error,
    system_parts, system_text, text_part, with_fields, without_slashes,
};
use crate::table::Table;
use crate::table_laws::lemma_contained;
use crate::text::{contains_text, decimal, is_blank, join, opt_text, trimmed};
use vstd::prelude::*;

verus! {

/// Whether the parameters of a request leave a field of its body alone.
pub open spec fn params_spare(r: ChatRequest, key: Seq<char>) -> bool {
    forall|i: int| 0 <= i < r.params@.len() ==> (#[trigger] r.params@[i]).0@ != key
}

proof fn lemma_spared(f: Seq<(Seq<char>, JsonView)>, more: Seq<(Seq<char>, JsonView)>, key: Seq<char>)
    requires
        forall|i: int| 0 <= i < more.len() ==> (#[trigger] more[i]).0 != key,
    ensures
        JsonView::Object(with_fields(f, more)).at(key) == JsonView::Object(f).at(key),
    decreases more.len(),
{
    if more.len() > 0 {
        let m = more.drop_last();
        assert forall|i: int| 0 <= i < m.len() implies (#[trigger] m[i]).0 != key by {
            assert(m[i] == more[i]);
        }
        lemma_spared(f, m, key);
        assert(more[more.len() - 1].0 != key);
        law_field_read_back(with_fields(f, m), more.last().0, more.last().1, key);
    }
}

proof fn lemma_body_field(r: ChatRequest, f: Seq<(Seq<char>, JsonView)>, key: Seq<char>)
    requires
        params_spare(r, key),
    ensures
        JsonView::Object(with_fields(f, field_views(r.params@))).at(key) == JsonView::Object(f).at(
            key,
        ),
{
    let more = field_views(r.params@);
    assert forall|i: int| 0 <= i < more.len() implies (#[trigger] more[i]).0 != key by {
        assert(more[i].0 == r.params@[i].0@);
    }
    lemma_spared(f, more, key);
}

/// The role under which a message is sent: its own, but that a model which takes no system
/// messages gets them as those of the user.
pub open spec fn sent_role(r: ChatRequest, m: ChatMessage) -> Seq<char> {
    if m.role@ == "system"@ && r.model.patches.system_to_user == Some(true) {
        "user"@
    } else {
        m.role@
    }
}

proof fn lemma_field_names()
    ensures
        "model"@.len() == 5,
        "messages"@.len() == 8,
        "stream"@.len() == 6,
        "stream_options"@.len() == 14,
        "tools"@.len() == 5,
        "tools"@[0] == 't',
        "model"@[0] == 'm',
        "temperature"@.len() == 11,
        "max_tokens"@.len() == 10,
        "reasoning_effort"@.len() == 16,
        "system"@.len() == 6,
        "system"@[1] == 'y',
        "stream"@[1] == 't',
        "options"@.len() == 7,
        "role"@.len() == 4,
        "content"@.len() == 7,
        "tool_calls"@.len() == 10,
        "tool_call_id"@.len() == 12,
        "tool"@.len() == 4,
        "user"@.len() == 4,
        "assistant"@.len() == 9,
        "tool"@[0] == 't',
        "user"@[0] == 'u',
{
    reveal_strlit("model");
    reveal_strlit("messages");
    reveal_strlit("stream");
    reveal_strlit("stream_options");
    reveal_strlit("tools");
    reveal_strlit("temperature");
    reveal_strlit("max_tokens");
    reveal_strlit("reasoning_effort");
    reveal_strlit("system");
    reveal_strlit("options");
    reveal_strlit("role");
    reveal_strlit("content");
    reveal_strlit("tool_calls");
    reveal_strlit("tool_call_id");
    reveal_strlit("tool");
    reveal_strlit("user");
    reveal_strlit("assistant");
}

/// An OpenAI-compatible provider is told every message of a request, in order and as the one who
/// said it, with its text, the calls of the model and the identifier of a call that is answered.
pub proof fn law_openai_is_told_messages(r: ChatRequest, stream: bool, i: int)
    requires
        params_spare(r, "messages"@),
        0 <= i < r.messages@.len(),
    ensures
        ({
            let sent = openai_body(r, stream).at("messages"@);
            let m = r.messages@[i];
            let s = sent.elements()[i];
            let asks = m.role@ == "assistant"@ && m.tool_calls is Some;
            &&& sent is Array
            &&& sent.elements().len() == r.messages@.len()
            &&& s.at("role"@) == JsonView::Str(sent_role(r, m))
            &&& m.role@ == "tool"@ ==> s.at("content"@) == JsonView::Str(m.content@)
            &&& m.role@ == "tool"@ && m.tool_call_id is Some ==> s.at("tool_call_id"@)
                == JsonView::Str(m.tool_call_id->Some_0@)
            &&& asks ==> s.at("tool_calls"@) == JsonView::Array(jsons(m.tool_calls->Some_0@))
            &&& asks && m.content@.len() > 0 ==> s.at("content"@) == JsonView::Str(m.content@)
            &&& asks && m.content@.len() == 0 ==> s.at("content"@) is Null
            &&& !asks && m.role@ != "tool"@ && m.images@.len() == 0 ==> s.at("content"@)
                == JsonView::Str(m.content@)
            &&& !asks && m.role@ != "tool"@ ==> s.at("content"@) == content_value(m@, false)
        }),
{
    lemma_field_names();
    lemma_body_field(r, openai_fields(r, stream), "messages"@);
    reveal_with_fuel(field_from, 5);
    let v = message_views(r.messages@);
    assert(v[i] == r.messages@[i]@);
    let p = patched(v, patches_system(r.model));
    let list = openai_messages(p);
    assert(openai_fields(r, stream)[1].1 == JsonView::Array(list));
    assert(openai_fields(r, stream)[0].0 == "model"@);
    assert(openai_fields(r, stream)[1].0 == "messages"@);
    assert(list[i] == openai_message(p[i]));
}

/// The text and the images of a message are sent whole and in order, whoever they are sent to.
pub proof fn law_content_keeps_text_and_images(m: MessageView, anthropic: bool, i: int)
    requires
        0 <= i < m.images.len(),
    ensures
        ({
            let c = content_value(m, anthropic);
            let first: int = if m.content.len() > 0 {
                1
            } else {
                0
            };
            let part = c.elements()[first + i];
            &&& c is Array
            &&& c.elements().len() == first + m.images.len()
            &&& m.content.len() > 0 ==> c.elements()[0].at("type"@) == JsonView::Str("text"@)
                && c.elements()[0].at("text"@) == JsonView::Str(m.content)
            &&& anthropic ==> part.at("type"@) == JsonView::Str("image"@) && part.at("source"@).at(
                "media_type"@,
            ) == JsonView::Str(m.images[i].media_type) && part.at("source"@).at("data"@)
                == JsonView::Str(m.images[i].data) && part.at("source"@).at("type"@)
                == JsonView::Str("base64"@)
            &&& !anthropic ==> part.at("type"@) == JsonView::Str("image_url"@) && part.at(
                "image_url"@,
            ).at("url"@) == JsonView::Str(
                "data:"@ + m.images[i].media_type + ";base64,"@ + m.images[i].data,
            )
        }),
{
    reveal_with_fuel(field_from, 4);
    reveal_strlit("type");
    reveal_strlit("text");
    reveal_strlit("source");
    reveal_strlit("media_type");
    reveal_strlit("data");
    reveal_strlit("image_url");
    reveal_strlit("url");
    assert("type"@[1] == 'y' && "text"@[1] == 'e' && "type"@.len() == 4 && "text"@.len() == 4);
    assert("source"@.len() == 6 && "media_type"@.len() == 10 && "data"@.len() == 4
        && "image_url"@.len() == 9);
    assert("data"@[0] == 'd' && "type"@[0] == 't');
    let parts = m.images.map_values(|k: ImageView| image_part(k, anthropic));
    assert(parts[i] == image_part(m.images[i], anthropic));
    if m.content.len() > 0 {
        assert((seq![text_part(m.content)] + parts)[1 + i] == parts[i]);
    }
}

/// What an OpenAI-compatible provider is asked beside the messages stands in the body: the model
/// under its remote name, the stream, the tools, the temperature and the most tokens.
pub proof fn law_openai_is_asked(r: ChatRequest, stream: bool)
    ensures
        ({
            let body = openai_body(r, stream);
            &&& params_spare(r, "model"@) ==> body.at("model"@) == JsonView::Str(
                r.model.remote_name@,
            )
            &&& params_spare(r, "stream"@) ==> body.at("stream"@) == JsonView::Bool(stream)
            &&& params_spare(r, "stream_options"@) && stream ==> body.at("stream_options"@).at(
                "include_usage"@,
            ) == JsonView::Bool(true)
            &&& params_spare(r, "tools"@) && r.tools@.len() > 0 ==> body.at("tools"@)
                == JsonView::Array(jsons(r.tools@))
            &&& params_spare(r, "tools"@) && r.tools@.len() == 0 ==> body.at("tools"@) is Null
            &&& params_spare(r, "temperature"@) && r.temperature is Some ==> body.at(
                "temperature"@,
            ) == JsonView::Float(r.temperature->Some_0@)
            &&& params_spare(r, "temperature"@) && r.temperature is None ==> body.at(
                "temperature"@,
            ) is Null
            &&& params_spare(r, "max_tokens"@) && r.max_output_tokens is Some ==> body.at(
                "max_tokens"@,
            ) == JsonView::Unsigned(r.max_output_tokens->Some_0 as u64)
            &&& params_spare(r, "max_tokens"@) && r.max_output_tokens is None ==> body.at(
                "max_tokens"@,
            ) is Null
        }),
{
    lemma_field_names();
    reveal_with_fuel(field_from, 9);
    let f = openai_fields(r, stream);
    let body = JsonView::Object(f);
    reveal_strlit("include_usage");
    if params_spare(r, "model"@) {
        lemma_body_field(r, f, "model"@);
        assert(f[0].0 == "model"@);
    }
    if params_spare(r, "stream"@) {
        lemma_body_field(r, f, "stream"@);
        lemma_openai_at(r, stream);
    }
    if params_spare(r, "stream_options"@) {
        lemma_body_field(r, f, "stream_options"@);
        lemma_openai_at(r, stream);
    }
    if params_spare(r, "tools"@) {
        lemma_body_field(r, f, "tools"@);
        lemma_openai_at(r, stream);
    }
    if params_spare(r, "temperature"@) {
        lemma_body_field(r, f, "temperature"@);
        lemma_openai_at(r, stream);
    }
    if params_spare(r, "max_tokens"@) {
        lemma_body_field(r, f, "max_tokens"@);
        lemma_openai_at(r, stream);
    }
}

#[verifier::spinoff_prover]
#[verifier::rlimit(50)]
proof fn lemma_openai_at(r: ChatRequest, stream: bool)
    ensures
        ({
            let body = JsonView::Object(openai_fields(r, stream));
            &&& body.at("stream"@) == JsonView::Bool(stream)
            &&& stream ==> body.at("stream_options"@) == JsonView::Object(
                seq![("include_usage"@, JsonView::Bool(true))],
            )
            &&& body.at("tools"@) == if r.tools@.len() > 0 {
                JsonView::Array(jsons(r.tools@))
            } else {
                JsonView::Null
            }
            &&& body.at("temperature"@) == match r.temperature {
                Some(t) => JsonView::Float(t@),
                None => JsonView::Null,
            }
            &&& body.at("max_tokens"@) == match r.max_output_tokens {
                Some(n) => JsonView::Unsigned(n as u64),
                None => JsonView::Null,
            }
        }),
{
    lemma_field_names();
    reveal_with_fuel(field_from, 9);
}

/// Whether a message belongs to the system prompt of a request to Anthropic.
pub open spec fn is_system(r: ChatRequest, m: ChatMessage) -> bool {
    m.role@ == "system"@ && r.model.patches.system_to_user != Some(true)
}

/// The messages of a request to Anthropic that are part of the conversation.
pub open spec fn spoken(r: ChatRequest) -> Seq<ChatMessage> {
    r.messages@.filter(|m: ChatMessage| !is_system(r, m))
}

/// The messages of a request to Anthropic that make up the system prompt.
pub open spec fn instructions(r: ChatRequest) -> Seq<ChatMessage> {
    r.messages@.filter(|m: ChatMessage| is_system(r, m))
}

proof fn lemma_split(r: ChatRequest, v: Seq<ChatMessage>)
    ensures
        ({
            let p = patched(message_views(v), patches_system(r.model));
            let said = v.filter(|m: ChatMessage| !is_system(r, m));
            let told = v.filter(|m: ChatMessage| is_system(r, m));
            &&& other_messages(p).len() == said.len()
            &&& forall|i: int|
                0 <= i < said.len() ==> (#[trigger] other_messages(p)[i]) == JsonView::Object(
                    seq![
                        ("role"@, JsonView::Str(sent_role(r, said[i]))),
                        ("content"@, content_value(said[i]@, true)),
                    ],
                )
            &&& system_parts(p) == told.map_values(|m: ChatMessage| m.content@)
        }),
    decreases v.len(),
{
    reveal(Seq::filter);
    let p = patched(message_views(v), patches_system(r.model));
    let said = v.filter(|m: ChatMessage| !is_system(r, m));
    let told = v.filter(|m: ChatMessage| is_system(r, m));
    lemma_field_names();
    if v.len() == 0 {
        assert(system_parts(p) =~= told.map_values(|m: ChatMessage| m.content@));
    } else {
        let w = v.drop_last();
        let q = patched(message_views(w), patches_system(r.model));
        lemma_split(r, w);
        assert(p.drop_last() =~= q);
        let m = v.last();
        assert(p.last() == if patches_system(r.model) && m.role@ == "system"@ {
            MessageView { role: "user"@, ..m@ }
        } else {
            m@
        });
        let said0 = w.filter(|m: ChatMessage| !is_system(r, m));
        let told0 = w.filter(|m: ChatMessage| is_system(r, m));
        if is_system(r, m) {
            assert(told == told0.push(m));
            assert(told.map_values(|m: ChatMessage| m.content@) =~= told0.map_values(
                |m: ChatMessage| m.content@,
            ).push(m.content@));
        } else {
            assert(said == said0.push(m));
            assert(content_value(p.last(), true) == content_value(m@, true));
        }
    }
}

proof fn lemma_anthropic_at(r: ChatRequest, stream: bool)
    ensures
        ({
            let body = JsonView::Object(anthropic_fields(r, stream));
            let p = patched(message_views(r.messages@), patches_system(r.model));
            &&& body.at("model"@) == JsonView::Str(r.model.remote_name@)
            &&& body.at("messages"@) == JsonView::Array(other_messages(p))
            &&& body.at("system"@) == match system_text(p) {
                Some(s) => JsonView::Str(s),
                None => JsonView::Null,
            }
            &&& body.at("max_tokens"@) == JsonView::Unsigned(
                match r.max_output_tokens {
                    Some(n) => n as u64,
                    None => 1024,
                },
            )
            &&& body.at("stream"@) == if stream {
                JsonView::Bool(true)
            } else {
                JsonView::Null
            }
            &&& body.at("temperature"@) == match r.temperature {
                Some(t) => JsonView::Float(t@),
                None => JsonView::Null,
            }
        }),
{
    lemma_field_names();
    reveal_with_fuel(field_from, 8);
}

/// Anthropic is told every message but those of the system, in order and as the one who said it,
/// and the texts of the system messages, in order, as the system prompt.
pub proof fn law_anthropic_is_told_messages(r: ChatRequest, stream: bool, i: int)
    ensures
        ({
            let body = anthropic_body(r, stream);
            let sent = body.at("messages"@);
            let said = spoken(r);
            &&& params_spare(r, "messages"@) ==> sent is Array && sent.elements().len()
                == said.len()
            &&& params_spare(r, "messages"@) && 0 <= i < said.len() ==> {
                &&& sent.elements()[i].at("role"@) == JsonView::Str(sent_role(r, said[i]))
                &&& sent.elements()[i].at("content"@) == content_value(said[i]@, true)
                &&& said[i].images@.len() == 0 ==> sent.elements()[i].at("content"@)
                    == JsonView::Str(said[i].content@)
            }
            &&& params_spare(r, "system"@) && instructions(r).len() == 0 ==> body.at(
                "system"@,
            ) is Null
            &&& params_spare(r, "system"@) && instructions(r).len() > 0 ==> body.at("system"@)
                == JsonView::Str(
                join(instructions(r).map_values(|m: ChatMessage| m.content@), "\n\n"@),
            )
        }),
{
    lemma_split(r, r.messages@);
    lemma_anthropic_at(r, stream);
    lemma_field_names();
    let f = anthropic_fields(r, stream);
    if params_spare(r, "messages"@) {
        lemma_body_field(r, f, "messages"@);
        let p = patched(message_views(r.messages@), patches_system(r.model));
        if 0 <= i < spoken(r).len() {
            reveal_with_fuel(field_from, 3);
            assert(other_messages(p)[i].at("role"@) == JsonView::Str(sent_role(r, spoken(r)[i])));
        }
    }
    if params_spare(r, "system"@) {
        lemma_body_field(r, f, "system"@);
    }
}

/// What Anthropic is asked beside the messages stands in the body.
pub proof fn law_anthropic_is_asked(r: ChatRequest, stream: bool)
    ensures
        ({
            let body = anthropic_body(r, stream);
            &&& params_spare(r, "model"@) ==> body.at("model"@) == JsonView::Str(
                r.model.remote_name@,
            )
            &&& params_spare(r, "stream"@) ==> body.at("stream"@) == if stream {
                JsonView::Bool(true)
            } else {
                JsonView::Null
            }
            &&& params_spare(r, "max_tokens"@) && r.max_output_tokens is Some ==> body.at(
                "max_tokens"@,
            ) == JsonView::Unsigned(r.max_output_tokens->Some_0 as u64)
            &&& params_spare(r, "max_tokens"@) && r.max_output_tokens is None ==> body.at(
                "max_tokens"@,
            ) == JsonView::Unsigned(1024)
            &&& params_spare(r, "temperature"@) && r.temperature is Some ==> body.at(
                "temperature"@,
            ) == JsonView::Float(r.temperature->Some_0@)
            &&& params_spare(r, "temperature"@) && r.temperature is None ==> body.at(
                "temperature"@,
            ) is Null
        }),
{
    lemma_anthropic_at(r, stream);
    let f = anthropic_fields(r, stream);
    if params_spare(r, "model"@) {
        lemma_body_field(r, f, "model"@);
    }
    if params_spare(r, "stream"@) {
        lemma_body_field(r, f, "stream"@);
    }
    if params_spare(r, "max_tokens"@) {
        lemma_body_field(r, f, "max_tokens"@);
    }
    if params_spare(r, "temperature"@) {
        lemma_body_field(r, f, "temperature"@);
    }
}

/// Ollama is told every message, in order and as the one who said it, and what is asked for
/// beside them.
pub proof fn law_ollama_is_told_and_asked(r: ChatRequest, stream: bool, i: int)
    ensures
        ({
            let body = ollama_body(r, stream);
            let sent = body.at("messages"@);
            &&& params_spare(r, "messages"@) ==> sent is Array && sent.elements().len()
                == r.messages@.len()
            &&& params_spare(r, "messages"@) && 0 <= i < r.messages@.len() ==> {
                &&& sent.elements()[i].at("role"@) == JsonView::Str(sent_role(r, r.messages@[i]))
                &&& sent.elements()[i].at("content"@) == JsonView::Str(r.messages@[i].content@)
            }
            &&& params_spare(r, "model"@) ==> body.at("model"@) == JsonView::Str(
                r.model.remote_name@,
            )
            &&& params_spare(r, "stream"@) ==> body.at("stream"@) == JsonView::Bool(stream)
            &&& params_spare(r, "options"@) && r.temperature is Some ==> body.at("options"@).at(
                "temperature"@,
            ) == JsonView::Float(r.temperature->Some_0@)
            &&& params_spare(r, "options"@) && r.temperature is None ==> body.at("options"@) is Null
        }),
{
    lemma_field_names();
    reveal_with_fuel(field_from, 5);
    let f = ollama_fields(r, stream);
    let v = message_views(r.messages@);
    let p = patched(v, patches_system(r.model));
    if params_spare(r, "messages"@) {
        lemma_body_field(r, f, "messages"@);
        if 0 <= i < r.messages@.len() {
            assert(v[i] == r.messages@[i]@);
            assert(ollama_messages(p)[i].at("role"@) == JsonView::Str(p[i].role));
        }
    }
    if params_spare(r, "model"@) {
        lemma_body_field(r, f, "model"@);
    }
    if params_spare(r, "stream"@) {
        lemma_body_field(r, f, "stream"@);
    }
    if params_spare(r, "options"@) {
        lemma_body_field(r, f, "options"@);
    }
}

proof fn lemma_last_param(
    f: Seq<(Seq<char>, JsonView)>,
    more: Seq<(Seq<char>, JsonView)>,
    i: int,
)
    requires
        0 <= i < more.len(),
        forall|k: int| i < k < more.len() ==> (#[trigger] more[k]).0 != more[i].0,
    ensures
        JsonView::Object(with_fields(f, more)).at(more[i].0) == more[i].1,
    decreases more.len(),
{
    let m = more.drop_last();
    law_field_read_back(with_fields(f, m), more.last().0, more.last().1, more[i].0);
    if i < more.len() - 1 {
        assert forall|k: int| i < k < m.len() implies (#[trigger] m[k]).0 != more[i].0 by {
            assert(m[k] == more[k]);
        }
        lemma_last_param(f, m, i);
        assert(more[more.len() - 1].0 != more[i].0);
    }
}

/// A parameter stands in the body as it was given, whoever the request goes to.
pub proof fn law_every_body_has_params(r: ChatRequest, stream: bool, i: int)
    requires
        0 <= i < r.params@.len(),
        forall|k: int| i < k < r.params@.len() ==> (#[trigger] r.params@[k]).0@ != r.params@[i].0@,
    ensures
        openai_body(r, stream).at(r.params@[i].0@) == r.params@[i].1@,
        anthropic_body(r, stream).at(r.params@[i].0@) == r.params@[i].1@,
        ollama_body(r, stream).at(r.params@[i].0@) == r.params@[i].1@,
{
    let more = field_views(r.params@);
    assert(more[i] == (r.params@[i].0@, r.params@[i].1@));
    assert forall|k: int| i < k < more.len() implies (#[trigger] more[k]).0 != more[i].0 by {
        assert(more[k].0 == r.params@[k].0@);
        assert(r.params@[k].0@ != r.params@[i].0@);
    }
    lemma_last_param(openai_fields(r, stream), more, i);
    lemma_last_param(anthropic_fields(r, stream), more, i);
    lemma_last_param(ollama_fields(r, stream), more, i);
}

/// The reasoning effort of a model is asked for, without the white space around it, unless a
/// parameter says something of it.
pub proof fn law_effort_is_asked_for(r: ChatRequest, stream: bool)
    requires
        params_spare(r, "reasoning_effort"@),
    ensures
        ({
            let asked = openai_body(r, stream).at("reasoning_effort"@);
            match r.model.reasoning_effort {
                Some(e) => if params_spare(r, "thinking"@) && !is_blank(e@) {
                    asked == JsonView::Str(trimmed(e@))
                } else {
                    asked is Null
                },
                None => asked is Null,
            }
        }),
{
    lemma_field_names();
    reveal_with_fuel(field_from, 9);
    let f = openai_fields(r, stream);
    lemma_body_field(r, f, "reasoning_effort"@);
    let more = field_views(r.params@);
    assert(has_field(more, "reasoning_effort"@) == !params_spare(r, "reasoning_effort"@)) by {
        if has_field(more, "reasoning_effort"@) {
            let k = choose|k: int| 0 <= k < more.len() && (#[trigger] more[k]).0 == "reasoning_effort"@;
            assert(r.params@[k].0@ == "reasoning_effort"@);
        }
    }
    assert(has_field(more, "thinking"@) == !params_spare(r, "thinking"@)) by {
        if has_field(more, "thinking"@) {
            let k = choose|k: int| 0 <= k < more.len() && (#[trigger] more[k]).0 == "thinking"@;
            assert(r.params@[k].0@ == "thinking"@);
        }
        if !params_spare(r, "thinking"@) {
            let k = choose|k: int| 0 <= k < r.params@.len() && (#[trigger] r.params@[k]).0@ == "thinking"@;
            assert(more[k].0 == "thinking"@);
        }
    }
}

/// A question goes to the address of its provider: what is configured, without the slashes at its
/// end, and the path that its kind has.
pub proof fn law_address_starts_with_base(p: ProviderConfig, u: Seq<char>)
    requires
        p.base_url is Some,
        u.len() > 0,
        u.last() != '/',
        p.base_url->Some_0@ == u || p.base_url->Some_0@ == u.push('/'),
    ensures
        p.kind@ == "openai_compatible"@ ==> address(p, chat_path(p.kind@)) == Ok::<
            Seq<char>,
            Failure,
        >(u + "/chat/completions"@) && address(p, health_path(p.kind@)) == Ok::<
            Seq<char>,
            Failure,
        >(u + "/models"@),
        p.kind@ == "anthropic"@ ==> address(p, chat_path(p.kind@)) == Ok::<Seq<char>, Failure>(
            u + "/messages"@,
        ) && address(p, health_path(p.kind@)) == Ok::<Seq<char>, Failure>(u + "/models"@),
        p.kind@ == "ollama"@ ==> address(p, chat_path(p.kind@)) == Ok::<Seq<char>, Failure>(
            u + "/chat"@,
        ) && address(p, health_path(p.kind@)) == Ok::<Seq<char>, Failure>(u + "/tags"@),
{
    reveal_strlit("openai_compatible");
    reveal_strlit("anthropic");
    reveal_strlit("ollama");
    assert("openai_compatible"@.len() == 17 && "anthropic"@.len() == 9 && "ollama"@.len() == 6);
    assert(u.push('/').drop_last() =~= u);
    reveal_with_fuel(without_slashes, 3);
}

/// A key goes into a header, as each kind of provider takes it, and every header that is
/// configured is sent as it is.
pub proof fn law_headers_carry_key(p: ProviderConfig, key: Seq<char>, i: int)
    requires
        p.headers.wf(),
        p.headers.keys().len() == p.headers.values().len(),
    ensures
        !is_blank(key) ==> bearer(key).len() == 1 && bearer(key)[0].name == "authorization"@
            && bearer(key)[0].value == "Bearer "@ + key,
        is_blank(key) ==> bearer(key).len() == 0,
        common_headers(p)[0].name == "content-type"@,
        common_headers(p)[0].value == "application/json"@,
        common_headers(p).len() == 1 + p.headers.keys().len(),
        0 <= i < p.headers.keys().len() ==> common_headers(p)[1 + i].name == p.headers.keys()[i]
            && common_headers(p)[1 + i].value == p.headers.values()[i]@,
{
    lemma_custom_headers(p, p.headers.keys().len() as int, i);
}

proof fn lemma_custom_headers(p: ProviderConfig, n: int, i: int)
    requires
        0 <= n,
    ensures
        custom_headers(p, n).len() == n,
        0 <= i < n ==> custom_headers(p, n)[i].name == p.headers.keys()[i] && custom_headers(
            p,
            n,
        )[i].value == p.headers.values()[i]@,
    decreases n,
{
    if n > 0 {
        lemma_custom_headers(p, n - 1, i);
    }
}

/// A reply that is no success is told by its code: a key that is refused, a limit that is reached,
/// or anything else with its status. The message of the reply is told too.
pub proof fn law_status_decides_code(status: u16, message: Seq<char>)
    ensures
        status == 401 || status == 403 ==> http_failure(status, message).code == EXIT_AUTH,
        status == 429 || status == 529 ==> http_failure(status, message).code == EXIT_RATE_LIMIT,
        status != 401 && status != 403 && status != 429 && status != 529 ==> http_failure(
            status,
            message,
        ).code == EXIT_NETWORK && http_failure(status, message).message
            == "provider returned HTTP "@ + decimal(status as nat) + ": "@ + message,
        message.is_suffix_of(http_failure(status, message).message),
{
    let m = http_failure(status, message).message;
    assert(m.subrange(m.len() - message.len(), m.len() as int) =~= message);
}

/// What an error reply says is what its JSON says where a message stands, else the whole text.
pub proof fn law_error_message_is_found(text: Seq<char>, j: JsonView, m: Seq<char>, e: Seq<char>)
    ensures
        http_message(Err(e), text) == text,
        j.at("error"@).at("message"@) == JsonView::Str(m) ==> http_message(Ok(j), text) == m,
        j.at("error"@) == JsonView::Str(m) ==> http_message(Ok(j), text) == m,
        j.at("error"@) is Null && j.at("message"@) == JsonView::Str(m) ==> http_message(
            Ok(j),
            text,
        ) == m,
        j.at("error"@) is Null && j.at("message"@) is Null ==> http_message(Ok(j), text) == text,
{
}

/// Where a list of models is not found, the default model is asked for a word instead, under the
/// name that it has there.
pub proof fn law_other_check_is_made(
    p: ProviderConfig,
    models: Table<ModelConfig>,
    e: Failure,
    id: Seq<char>,
    m: ModelConfig,
)
    requires
        opt_text(p.default_model) == Some(id),
    ensures
        p.kind@ == "openai_compatible"@ && e.code == EXIT_NETWORK && contains_text(
            e.message,
            "HTTP 404"@,
        ) && models.lookup(id) == Some(m) ==> ping_model(p, models, e) == Some(m.remote_name@),
        p.kind@ == "openai_compatible"@ && e.code == EXIT_NETWORK && contains_text(
            e.message,
            "HTTP 404"@,
        ) && models.lookup(id) is None ==> ping_model(p, models, e) == Some(id),
        p.kind@ != "openai_compatible"@ || e.code != EXIT_NETWORK || !contains_text(
            e.message,
            "HTTP 404"@,
        ) ==> ping_model(p, models, e) is None,
{
}

/// Why a reply could not be read is told, with the limit where that was reached.
pub proof fn law_read_error_tells(kind: Seq<char>, details: Seq<char>, n: u64)
    ensures
        details.is_suffix_of(read_error(kind, details, true, Some(n))),
        details.is_suffix_of(read_error(kind, details, false, Some(n))),
        details.is_suffix_of(read_error(kind, details, true, None)),
        n > 0 ==> contains_text(read_error(kind, details, true, Some(n)), decimal(n as nat)),
{
    let head = "failed to read provider "@ + kind + ": "@;
    assert((head + details).skip(head.len() as int) =~= details);
    let a = "failed to read provider "@ + kind + ": request timed out after "@;
    let long = a + decimal(n as nat) + "s: "@;
    assert((long + details).skip(long.len() as int) =~= details);
    assert(long + details =~= a + decimal(n as nat) + ("s: "@ + details));
    lemma_contained(a, decimal(n as nat), "s: "@ + details);
}

} // verus!
