//! The file of a session: one event in JSON on each line.

use crate::error::{AppError, AppResult, EXIT_SESSION, Failure, failure};
use crate::json::{
    Json, JsonNumber, JsonView, MAX_JSON_DEPTH, OPEN_BRACE, array, clone_list, distinct,
    exact_json, field_from, field_views, get_in, has_field, is_reading, json_number, json_text,
    jsons, lemma_array_view, lemma_jsons_push, lemma_object_view, object, object2, object3,
    opt_json, parse_json, parsed_json, print_json, printed_json, same_json, text_in,
    unsigned_in,
};
use crate::media::{ImageView, MessageImage, image_views, lemma_images_push};
use crate::output::{usage_json, usage_json_of};
use crate::session::{
    SessionAudit, SessionEvent, SessionMessage, SessionMeta, SessionResponse, StoredAudit,
    StoredEvent, StoredMessage, StoredResponse, Usage, event_views, lemma_events_push,
};
use crate::target::json_result_view;
use crate::text::{
    blank, decimal, decimal_string, is_blank, is_space, lemma_split_by_len, lemma_split_concat,
    lemma_split_none, lemma_take_full, lemma_take_step, lemma_texts_push, lines, lines_of,
    only, opt_text, split_by, str_eq, texts, trimmed_end,
};
use vstd::prelude::*;

verus! {

// ---------------------------------------------------------------------------
// Writing
// ---------------------------------------------------------------------------

pub open spec fn optional_text(o: Option<Seq<char>>) -> JsonView {
    match o {
        Some(t) => JsonView::Str(t),
        None => JsonView::Null,
    }
}

pub open spec fn image_json(i: ImageView) -> JsonView {
    JsonView::Object(
        seq![("media_type"@, JsonView::Str(i.media_type)), ("data"@, JsonView::Str(i.data))],
    )
}

pub open spec fn text_list(v: Seq<Seq<char>>) -> JsonView {
    JsonView::Array(v.map_values(|t: Seq<char>| JsonView::Str(t)))
}

pub open spec fn message_json(m: StoredMessage) -> JsonView {
    JsonView::Object(
        seq![
            ("type"@, JsonView::Str("message"@)),
            ("role"@, JsonView::Str(m.role)),
            ("content"@, JsonView::Str(m.content)),
            ("images"@, JsonView::Array(m.images.map_values(|i: ImageView| image_json(i)))),
            ("tool_calls"@, JsonView::Array(m.tool_calls)),
            ("tool_call_id"@, optional_text(m.tool_call_id)),
            ("name"@, optional_text(m.name)),
            ("created_at"@, JsonView::Str(m.created_at)),
        ],
    )
}

pub open spec fn response_json(r: StoredResponse) -> JsonView {
    JsonView::Object(
        seq![
            ("type"@, JsonView::Str("response"@)),
            ("provider"@, JsonView::Str(r.provider)),
            ("model"@, JsonView::Str(r.model)),
            ("finish_reason"@, JsonView::Str(r.finish_reason)),
            ("latency_ms"@, JsonView::Unsigned(r.latency_ms)),
            ("usage"@, usage_json(r.usage)),
            ("created_at"@, JsonView::Str(r.created_at)),
        ],
    )
}

pub open spec fn audit_json(a: StoredAudit) -> JsonView {
    JsonView::Object(
        seq![
            ("type"@, JsonView::Str("audit"@)),
            ("provider"@, JsonView::Str(a.provider)),
            ("model"@, JsonView::Str(a.model)),
            ("tool_name"@, optional_text(a.tool_name)),
            ("tool_call_id"@, optional_text(a.tool_call_id)),
            ("verdict"@, JsonView::Str(a.verdict)),
            ("summary"@, JsonView::Str(a.summary)),
            ("findings"@, text_list(a.findings)),
            ("recommendations"@, text_list(a.recommendations)),
            ("latency_ms"@, JsonView::Unsigned(a.latency_ms)),
            ("usage"@, usage_json(a.usage)),
            ("created_at"@, JsonView::Str(a.created_at)),
        ],
    )
}

/// An event in JSON.
pub open spec fn event_json(e: StoredEvent) -> JsonView {
    match e {
        StoredEvent::Meta(id, created_at) => JsonView::Object(
            seq![
                ("type"@, JsonView::Str("meta"@)),
                ("session_id"@, JsonView::Str(id)),
                ("created_at"@, JsonView::Str(created_at)),
            ],
        ),
        StoredEvent::Message(m) => message_json(m),
        StoredEvent::Response(r) => response_json(r),
        StoredEvent::Audit(a) => audit_json(a),
    }
}

fn optional_text_json(o: &Option<String>) -> (r: Json)
    ensures
        r@ == optional_text(opt_text(*o)),
{
    match o {
        Some(t) => json_text(t.as_str()),
        None => Json::Null,
    }
}

fn images_json(v: &Vec<MessageImage>) -> (r: Json)
    ensures
        r@ == JsonView::Array(image_views(v@).map_values(|i: ImageView| image_json(i))),
{
    let ghost goal = image_views(v@).map_values(|i: ImageView| image_json(i));
    let mut out: Vec<Json> = Vec::new();
    let mut i: usize = 0;
    proof {
        assert(jsons(out@) =~= goal.take(0));
    }
    while i < v.len()
        invariant
            i <= v@.len(),
            goal == image_views(v@).map_values(|i: ImageView| image_json(i)),
            jsons(out@) == goal.take(i as int),
        decreases v@.len() - i,
    {
        let j = object2(
            "media_type",
            json_text(v[i].media_type.as_str()),
            "data",
            json_text(v[i].data.as_str()),
        );
        proof {
            assert(image_views(v@)[i as int] == v@[i as int]@);
            lemma_take_step(goal, i as int);
            lemma_jsons_push(out@, j);
        }
        out.push(j);
        i = i + 1;
    }
    proof {
        lemma_take_full(goal);
    }
    array(out)
}

fn text_list_json(v: &Vec<String>) -> (r: Json)
    ensures
        r@ == text_list(texts(v@)),
{
    let ghost goal = texts(v@).map_values(|t: Seq<char>| JsonView::Str(t));
    let mut out: Vec<Json> = Vec::new();
    let mut i: usize = 0;
    proof {
        assert(jsons(out@) =~= goal.take(0));
    }
    while i < v.len()
        invariant
            i <= v@.len(),
            goal == texts(v@).map_values(|t: Seq<char>| JsonView::Str(t)),
            jsons(out@) == goal.take(i as int),
        decreases v@.len() - i,
    {
        let j = json_text(v[i].as_str());
        proof {
            assert(texts(v@)[i as int] == v@[i as int]@);
            lemma_take_step(goal, i as int);
            lemma_jsons_push(out@, j);
        }
        out.push(j);
        i = i + 1;
    }
    proof {
        lemma_take_full(goal);
    }
    array(out)
}

fn field(key: &str, value: Json) -> (r: (String, Json))
    ensures
        r.0@ == key@,
        r.1 == value,
{
    (key.to_owned(), value)
}

fn message_to_json(m: &SessionMessage) -> (r: Json)
    ensures
        r@ == message_json(m@),
{
    let f = vec![
        field("type", json_text("message")),
        field("role", json_text(m.role.as_str())),
        field("content", json_text(m.content.as_str())),
        field("images", images_json(&m.images)),
        field("tool_calls", array(clone_list(&m.tool_calls))),
        field("tool_call_id", optional_text_json(&m.tool_call_id)),
        field("name", optional_text_json(&m.name)),
        field("created_at", json_text(m.created_at.as_str())),
    ];
    proof {
        assert(field_views(f@) =~= message_json(m@)->Object_0);
    }
    object(f)
}

fn audit_to_json(a: &SessionAudit) -> (r: Json)
    ensures
        r@ == event_json(SessionEvent::Audit(*a)@),
{
    let f = vec![
        field("type", json_text("audit")),
        field("provider", json_text(a.provider.as_str())),
        field("model", json_text(a.model.as_str())),
        field("tool_name", optional_text_json(&a.tool_name)),
        field("tool_call_id", optional_text_json(&a.tool_call_id)),
        field("verdict", json_text(a.verdict.as_str())),
        field("summary", json_text(a.summary.as_str())),
        field("findings", text_list_json(&a.findings)),
        field("recommendations", text_list_json(&a.recommendations)),
        field("latency_ms", json_number(a.latency_ms)),
        field("usage", usage_json_of(a.usage)),
        field("created_at", json_text(a.created_at.as_str())),
    ];
    proof {
        assert(field_views(f@) =~= event_json(SessionEvent::Audit(*a)@)->Object_0);
    }
    object(f)
}

fn response_to_json(a: &SessionResponse) -> (r: Json)
    ensures
        r@ == event_json(SessionEvent::Response(*a)@),
{
    let f = vec![
        field("type", json_text("response")),
        field("provider", json_text(a.provider.as_str())),
        field("model", json_text(a.model.as_str())),
        field("finish_reason", json_text(a.finish_reason.as_str())),
        field("latency_ms", json_number(a.latency_ms)),
        field("usage", usage_json_of(a.usage)),
        field("created_at", json_text(a.created_at.as_str())),
    ];
    proof {
        assert(field_views(f@) =~= event_json(SessionEvent::Response(*a)@)->Object_0);
    }
    object(f)
}

/// An event in JSON.
pub fn event_to_json(e: &SessionEvent) -> (r: Json)
    ensures
        r@ == event_json(e@),
{
    match e {
        SessionEvent::Meta(m) => object3(
            "type",
            json_text("meta"),
            "session_id",
            json_text(m.session_id.as_str()),
            "created_at",
            json_text(m.created_at.as_str()),
        ),
        SessionEvent::Message(m) => message_to_json(m),
        SessionEvent::Response(r) => response_to_json(r),
        SessionEvent::Audit(a) => audit_to_json(a),
    }
}

/// The lines of events.
pub open spec fn log_text(v: Seq<StoredEvent>) -> Seq<char>
    decreases v.len(),
{
    if v.len() == 0 {
        Seq::empty()
    } else {
        log_text(v.drop_last()) + printed_json(event_json(v.last())) + "\n"@
    }
}

/// The events that are appended to the file of a session; a new file starts with one that tells
/// whose it is.
pub open spec fn appended(id: Seq<char>, is_new: bool, v: Seq<StoredEvent>, now: Seq<char>) -> Seq<
    StoredEvent,
> {
    if is_new {
        seq![StoredEvent::Meta(id, now)] + v
    } else {
        v
    }
}

/// Whether the line written for an event is a line, and reads as what was written.
pub open spec fn line_returns(e: StoredEvent) -> bool {
    let line = printed_json(event_json(e));
    is_plain_line(line) && (storable(e) ==> is_reading(parsed_json(line), event_json(e)))
}

fn push_event_line(out: &mut String, e: &SessionEvent)
    ensures
        final(out)@ == old(out)@ + printed_json(event_json(e@)) + "\n"@,
        line_returns(e@),
{
    out.append(print_json(&event_to_json(e)).as_str());
    out.append("\n");
    proof {
        if storable(e@) {
            lemma_event_exact(e@);
        }
    }
}

pub fn append_events(session_id: &str, is_new: bool, events: &Vec<SessionEvent>, now: &str) -> (r:
    String)
    ensures
        r@ == log_text(appended(session_id@, is_new, event_views(events@), now@)),
        all_storable(appended(session_id@, is_new, event_views(events@), now@)) ==> forall|
            path: Seq<char>,
            text: Seq<char>,
        |
            ends_in_line(text) ==> #[trigger] log_grows(
                path,
                text,
                r@,
                appended(session_id@, is_new, event_views(events@), now@),
            ),
{
    let mut out = String::new();
    let ghost src = event_views(events@);
    let ghost first = appended(session_id@, is_new, Seq::empty(), now@);
    proof {
        assert(out@ =~= log_text(Seq::empty()));
    }
    if is_new {
        let meta = SessionEvent::Meta(
            SessionMeta { session_id: session_id.to_owned(), created_at: now.to_owned() },
        );
        push_event_line(&mut out, &meta);
        proof {
            assert(first.drop_last() =~= Seq::<StoredEvent>::empty());
            assert(first.last() == meta@);
        }
    }
    let mut i: usize = 0;
    proof {
        assert(first + src.take(0) =~= first);
    }
    while i < events.len()
        invariant
            i <= events@.len(),
            src == event_views(events@),
            out@ == log_text(first + src.take(i as int)),
            forall|k: int|
                0 <= k < (first + src.take(i as int)).len() ==> line_returns(
                    #[trigger] (first + src.take(i as int))[k],
                ),
        decreases events@.len() - i,
    {
        push_event_line(&mut out, &events[i]);
        proof {
            assert(src[i as int] == events@[i as int]@);
            lemma_take_step(src, i as int);
            let next = first + src.take(i + 1);
            assert(next.drop_last() =~= first + src.take(i as int));
            assert(next.last() == src[i as int]);
            assert forall|k: int| 0 <= k < next.len() implies line_returns(#[trigger] next[k]) by {
                if k < next.len() - 1 {
                    assert(next[k] == next.drop_last()[k]);
                }
            }
        }
        i = i + 1;
    }
    proof {
        lemma_take_full(src);
        let all = appended(session_id@, is_new, src, now@);
        assert(first + src =~= all);
        if all_storable(all) {
            assert forall|path: Seq<char>, text: Seq<char>| ends_in_line(text) implies
                #[trigger] log_grows(path, text, out@, all) by {
                lemma_log_grows(path, text, all);
            }
        }
    }
    out
}

// ---------------------------------------------------------------------------
// Reading
// ---------------------------------------------------------------------------

pub open spec fn image_of(j: JsonView) -> Option<ImageView> {
    match (j.at("media_type"@).text(), j.at("data"@).text()) {
        (Some(media_type), Some(data)) => Some(ImageView { media_type, data }),
        _ => None,
    }
}

pub open spec fn images_of(v: Seq<JsonView>) -> Option<Seq<ImageView>>
    decreases v.len(),
{
    if v.len() == 0 {
        Some(Seq::empty())
    } else {
        match (images_of(v.drop_last()), image_of(v.last())) {
            (Some(before), Some(i)) => Some(before.push(i)),
            _ => None,
        }
    }
}

pub open spec fn texts_of(v: Seq<JsonView>) -> Option<Seq<Seq<char>>>
    decreases v.len(),
{
    if v.len() == 0 {
        Some(Seq::empty())
    } else {
        match (texts_of(v.drop_last()), v.last().text()) {
            (Some(before), Some(t)) => Some(before.push(t)),
            _ => None,
        }
    }
}

/// The elements of a list that may be missing.
pub open spec fn listed(j: JsonView) -> Option<Seq<JsonView>> {
    match j {
        JsonView::Array(v) => Some(v),
        JsonView::Null => Some(Seq::empty()),
        _ => None,
    }
}

/// A text that may be missing.
pub open spec fn maybe_text(j: JsonView) -> Option<Option<Seq<char>>> {
    match j {
        JsonView::Str(t) => Some(Some(t)),
        JsonView::Null => Some(None),
        _ => None,
    }
}

/// A count that may be missing.
pub open spec fn maybe_count(j: JsonView) -> Option<Option<u64>> {
    match j {
        JsonView::Unsigned(n) => Some(Some(n)),
        JsonView::Null => Some(None),
        _ => None,
    }
}

pub open spec fn usage_of(j: JsonView) -> Option<Usage> {
    match (
        j,
        maybe_count(j.at("input_tokens"@)),
        maybe_count(j.at("output_tokens"@)),
        maybe_count(j.at("total_tokens"@)),
    ) {
        (JsonView::Object(_), Some(input_tokens), Some(output_tokens), Some(total_tokens)) => Some(
            Usage { input_tokens, output_tokens, total_tokens },
        ),
        _ => None,
    }
}

pub open spec fn images_in(j: JsonView) -> Option<Seq<ImageView>> {
    match listed(j) {
        Some(v) => images_of(v),
        None => None,
    }
}

pub open spec fn texts_in(j: JsonView) -> Option<Seq<Seq<char>>> {
    match listed(j) {
        Some(v) => texts_of(v),
        None => None,
    }
}

pub open spec fn meta_of(j: JsonView) -> Option<StoredEvent> {
    match (j.at("session_id"@).text(), j.at("created_at"@).text()) {
        (Some(id), Some(created_at)) => Some(StoredEvent::Meta(id, created_at)),
        _ => None,
    }
}

pub open spec fn message_of(j: JsonView) -> Option<StoredEvent> {
    match (
        (j.at("role"@).text(), j.at("content"@).text(), j.at("created_at"@).text()),
        images_in(j.at("images"@)),
        listed(j.at("tool_calls"@)),
        (maybe_text(j.at("tool_call_id"@)), maybe_text(j.at("name"@))),
    ) {
        (
            (Some(role), Some(content), Some(created_at)),
            Some(images),
            Some(tool_calls),
            (Some(tool_call_id), Some(name)),
        ) => Some(
            StoredEvent::Message(
                StoredMessage { role, content, images, tool_calls, tool_call_id, name, created_at },
            ),
        ),
        _ => None,
    }
}

pub open spec fn response_of(j: JsonView) -> Option<StoredEvent> {
    match (
        (j.at("provider"@).text(), j.at("model"@).text(), j.at("finish_reason"@).text()),
        j.at("latency_ms"@).unsigned(),
        usage_of(j.at("usage"@)),
        j.at("created_at"@).text(),
    ) {
        (
            (Some(provider), Some(model), Some(finish_reason)),
            Some(latency_ms),
            Some(usage),
            Some(created_at),
        ) => Some(
            StoredEvent::Response(
                StoredResponse { provider, model, finish_reason, latency_ms, usage, created_at },
            ),
        ),
        _ => None,
    }
}

pub open spec fn audit_of(j: JsonView) -> Option<StoredEvent> {
    match (
        (j.at("provider"@).text(), j.at("model"@).text()),
        (maybe_text(j.at("tool_name"@)), maybe_text(j.at("tool_call_id"@))),
        (j.at("verdict"@).text(), j.at("summary"@).text()),
        (texts_in(j.at("findings"@)), texts_in(j.at("recommendations"@))),
        (
            j.at("latency_ms"@).unsigned(),
            usage_of(j.at("usage"@)),
            j.at("created_at"@).text(),
        ),
    ) {
        (
            (Some(provider), Some(model)),
            (Some(tool_name), Some(tool_call_id)),
            (Some(verdict), Some(summary)),
            (Some(findings), Some(recommendations)),
            (Some(latency_ms), Some(usage), Some(created_at)),
        ) => Some(
            StoredEvent::Audit(
                StoredAudit {
                    provider,
                    model,
                    tool_name,
                    tool_call_id,
                    verdict,
                    summary,
                    findings,
                    recommendations,
                    latency_ms,
                    usage,
                    created_at,
                },
            ),
        ),
        _ => None,
    }
}

/// The event that a value stands for, by its type. Fields that are missing are empty where they
/// may be.
pub open spec fn event_of(j: JsonView) -> Option<StoredEvent> {
    match j.at("type"@).text() {
        Some(t) => if t == "meta"@ {
            meta_of(j)
        } else if t == "message"@ {
            message_of(j)
        } else if t == "response"@ {
            response_of(j)
        } else if t == "audit"@ {
            audit_of(j)
        } else {
            None
        },
        None => None,
    }
}

pub open spec fn opt_event(r: Option<SessionEvent>) -> Option<StoredEvent> {
    match r {
        Some(e) => Some(e@),
        None => None,
    }
}

fn list_in(j: Option<&Json>) -> (r: Option<Vec<Json>>)
    ensures
        match r {
            Some(v) => listed(opt_json(j)) == Some(jsons(v@)),
            None => listed(opt_json(j)) is None,
        },
{
    let none: Vec<Json> = Vec::new();
    proof {
        assert(jsons(none@) =~= Seq::<JsonView>::empty());
    }
    match j {
        None => Some(none),
        Some(Json::Null) => Some(none),
        Some(Json::Array(v)) => {
            proof {
                lemma_array_view(*v);
            }
            Some(clone_list(v))
        },
        _ => None,
    }
}

fn maybe_text_in(j: Option<&Json>) -> (r: Option<Option<String>>)
    ensures
        match r {
            Some(t) => maybe_text(opt_json(j)) == Some(opt_text(t)),
            None => maybe_text(opt_json(j)) is None,
        },
{
    match j {
        None => Some(None),
        Some(Json::Null) => Some(None),
        Some(Json::Str(s)) => Some(Some(s.clone())),
        _ => None,
    }
}

fn maybe_count_in(j: Option<&Json>) -> (r: Option<Option<u64>>)
    ensures
        r == maybe_count(opt_json(j)),
{
    match j {
        None => Some(None),
        Some(Json::Null) => Some(None),
        Some(Json::Number(JsonNumber::Unsigned(n))) => Some(Some(*n)),
        _ => None,
    }
}

fn usage_in(j: Option<&Json>) -> (r: Option<Usage>)
    ensures
        r == usage_of(opt_json(j)),
{
    match j {
        Some(Json::Object(f)) => {
            proof {
                lemma_object_view(*f);
            }
            match (
                maybe_count_in(get_in(j, "input_tokens")),
                maybe_count_in(get_in(j, "output_tokens")),
                maybe_count_in(get_in(j, "total_tokens")),
            ) {
                (Some(input_tokens), Some(output_tokens), Some(total_tokens)) => Some(
                    Usage { input_tokens, output_tokens, total_tokens },
                ),
                _ => None,
            }
        },
        _ => None,
    }
}

proof fn lemma_images_fail(v: Seq<JsonView>, i: int)
    requires
        0 <= i < v.len(),
        image_of(v[i]) is None,
    ensures
        images_of(v) is None,
    decreases v.len(),
{
    if i < v.len() - 1 {
        lemma_images_fail(v.drop_last(), i);
    }
}

fn read_images(j: Option<&Json>) -> (r: Option<Vec<MessageImage>>)
    ensures
        match r {
            Some(v) => images_in(opt_json(j)) == Some(image_views(v@)),
            None => images_in(opt_json(j)) is None,
        },
{
    let v = match list_in(j) {
        Some(v) => v,
        None => {
            return None;
        },
    };
    let ghost src = jsons(v@);
    let mut out: Vec<MessageImage> = Vec::new();
    let mut i: usize = 0;
    proof {
        assert(image_views(out@) =~= Seq::<ImageView>::empty());
    }
    while i < v.len()
        invariant
            i <= v@.len(),
            src == jsons(v@),
            listed(opt_json(j)) == Some(src),
            images_of(src.take(i as int)) == Some(image_views(out@)),
        decreases v@.len() - i,
    {
        proof {
            lemma_take_step(src, i as int);
            assert(src[i as int] == v@[i as int]@);
        }
        match (text_in(v[i].get("media_type")), text_in(v[i].get("data"))) {
            (Some(media_type), Some(data)) => {
                let image = MessageImage { media_type, data };
                proof {
                    lemma_images_push(out@, image);
                }
                out.push(image);
            },
            _ => {
                proof {
                    lemma_images_fail(src, i as int);
                }
                return None;
            },
        }
        i = i + 1;
    }
    proof {
        lemma_take_full(src);
    }
    Some(out)
}

proof fn lemma_texts_fail(v: Seq<JsonView>, i: int)
    requires
        0 <= i < v.len(),
        v[i].text() is None,
    ensures
        texts_of(v) is None,
    decreases v.len(),
{
    if i < v.len() - 1 {
        lemma_texts_fail(v.drop_last(), i);
    }
}

fn read_texts(j: Option<&Json>) -> (r: Option<Vec<String>>)
    ensures
        match r {
            Some(v) => texts_in(opt_json(j)) == Some(texts(v@)),
            None => texts_in(opt_json(j)) is None,
        },
{
    let v = match list_in(j) {
        Some(v) => v,
        None => {
            return None;
        },
    };
    let ghost src = jsons(v@);
    let mut out: Vec<String> = Vec::new();
    let mut i: usize = 0;
    proof {
        assert(texts(out@) =~= Seq::<Seq<char>>::empty());
    }
    while i < v.len()
        invariant
            i <= v@.len(),
            src == jsons(v@),
            listed(opt_json(j)) == Some(src),
            texts_of(src.take(i as int)) == Some(texts(out@)),
        decreases v@.len() - i,
    {
        proof {
            lemma_take_step(src, i as int);
            assert(src[i as int] == v@[i as int]@);
        }
        match text_in(Some(&v[i])) {
            Some(t) => {
                proof {
                    lemma_texts_push(out@, t);
                }
                out.push(t);
            },
            None => {
                proof {
                    lemma_texts_fail(src, i as int);
                }
                return None;
            },
        }
        i = i + 1;
    }
    proof {
        lemma_take_full(src);
    }
    Some(out)
}

fn meta_from_json(j: &Json) -> (r: Option<SessionEvent>)
    ensures
        opt_event(r) == meta_of(j@),
{
    match (text_in(j.get("session_id")), text_in(j.get("created_at"))) {
        (Some(session_id), Some(created_at)) => Some(
            SessionEvent::Meta(SessionMeta { session_id, created_at }),
        ),
        _ => None,
    }
}

fn message_from_json(j: &Json) -> (r: Option<SessionEvent>)
    ensures
        opt_event(r) == message_of(j@),
{
    let (role, content, created_at) = match (
        text_in(j.get("role")),
        text_in(j.get("content")),
        text_in(j.get("created_at")),
    ) {
        (Some(a), Some(b), Some(c)) => (a, b, c),
        _ => {
            return None;
        },
    };
    let images = match read_images(j.get("images")) {
        Some(v) => v,
        None => {
            return None;
        },
    };
    let tool_calls = match list_in(j.get("tool_calls")) {
        Some(v) => v,
        None => {
            return None;
        },
    };
    match (maybe_text_in(j.get("tool_call_id")), maybe_text_in(j.get("name"))) {
        (Some(tool_call_id), Some(name)) => Some(
            SessionEvent::Message(
                SessionMessage {
                    role,
                    content,
                    images,
                    tool_calls,
                    tool_call_id,
                    name,
                    created_at,
                },
            ),
        ),
        _ => None,
    }
}

fn response_from_json(j: &Json) -> (r: Option<SessionEvent>)
    ensures
        opt_event(r) == response_of(j@),
{
    let (provider, model, finish_reason) = match (
        text_in(j.get("provider")),
        text_in(j.get("model")),
        text_in(j.get("finish_reason")),
    ) {
        (Some(a), Some(b), Some(c)) => (a, b, c),
        _ => {
            return None;
        },
    };
    match (
        unsigned_in(j.get("latency_ms")),
        usage_in(j.get("usage")),
        text_in(j.get("created_at")),
    ) {
        (Some(latency_ms), Some(usage), Some(created_at)) => Some(
            SessionEvent::Response(
                SessionResponse { provider, model, finish_reason, latency_ms, usage, created_at },
            ),
        ),
        _ => None,
    }
}

fn audit_from_json(j: &Json) -> (r: Option<SessionEvent>)
    ensures
        opt_event(r) == audit_of(j@),
{
    let (provider, model) = match (text_in(j.get("provider")), text_in(j.get("model"))) {
        (Some(a), Some(b)) => (a, b),
        _ => {
            return None;
        },
    };
    let (tool_name, tool_call_id) = match (
        maybe_text_in(j.get("tool_name")),
        maybe_text_in(j.get("tool_call_id")),
    ) {
        (Some(a), Some(b)) => (a, b),
        _ => {
            return None;
        },
    };
    let (verdict, summary) = match (text_in(j.get("verdict")), text_in(j.get("summary"))) {
        (Some(a), Some(b)) => (a, b),
        _ => {
            return None;
        },
    };
    let (findings, recommendations) = match (
        read_texts(j.get("findings")),
        read_texts(j.get("recommendations")),
    ) {
        (Some(a), Some(b)) => (a, b),
        _ => {
            return None;
        },
    };
    match (
        unsigned_in(j.get("latency_ms")),
        usage_in(j.get("usage")),
        text_in(j.get("created_at")),
    ) {
        (Some(latency_ms), Some(usage), Some(created_at)) => Some(
            SessionEvent::Audit(
                SessionAudit {
                    provider,
                    model,
                    tool_name,
                    tool_call_id,
                    verdict,
                    summary,
                    findings,
                    recommendations,
                    latency_ms,
                    usage,
                    created_at,
                },
            ),
        ),
        _ => None,
    }
}

/// The event that a value stands for.
pub fn event_from_json(j: &Json) -> (r: Option<SessionEvent>)
    ensures
        opt_event(r) == event_of(j@),
{
    match text_in(j.get("type")) {
        Some(t) => {
            let t = t.as_str();
            if str_eq(t, "meta") {
                meta_from_json(j)
            } else if str_eq(t, "message") {
                message_from_json(j)
            } else if str_eq(t, "response") {
                response_from_json(j)
            } else if str_eq(t, "audit") {
                audit_from_json(j)
            } else {
                None
            }
        },
        None => None,
    }
}

/// What a line says of an event, given what it reads as.
pub open spec fn line_event(parsed: Result<JsonView, Seq<char>>) -> Result<StoredEvent, Seq<char>> {
    match parsed {
        Err(e) => Err(e),
        Ok(j) => match event_of(j) {
            Some(e) => Ok(e),
            None => Err("not a session event"@),
        },
    }
}

/// The events of the first `n` lines; blank lines count for nothing, and the first line that
/// cannot be read decides.
pub open spec fn log_events(path: Seq<char>, v: Seq<Seq<char>>, n: int) -> Result<
    Seq<StoredEvent>,
    Failure,
>
    decreases n,
{
    if n <= 0 {
        Ok(Seq::empty())
    } else {
        match log_events(path, v, n - 1) {
            Err(e) => Err(e),
            Ok(before) => if is_blank(v[n - 1]) {
                Ok(before)
            } else {
                match line_event(parsed_json(v[n - 1])) {
                    Ok(e) => Ok(before.push(e)),
                    Err(message) => Err(
                        failure(
                            EXIT_SESSION,
                            "failed to parse session file `"@ + path + "` at line "@ + decimal(
                                n as nat,
                            ) + ": "@ + message,
                        ),
                    ),
                }
            },
        }
    }
}

pub open spec fn events_result(r: AppResult<Vec<SessionEvent>>) -> Result<
    Seq<StoredEvent>,
    Failure,
> {
    match r {
        Ok(v) => Ok(event_views(v@)),
        Err(e) => Err(e@),
    }
}

proof fn lemma_log_fail(path: Seq<char>, v: Seq<Seq<char>>, i: int, n: int, e: Failure)
    requires
        0 <= i <= n,
        log_events(path, v, i) == Err::<Seq<StoredEvent>, Failure>(e),
    ensures
        log_events(path, v, n) == Err::<Seq<StoredEvent>, Failure>(e),
    decreases n - i,
{
    if i < n {
        lemma_log_fail(path, v, i, n - 1, e);
    }
}

/// The event of a line, given what the line reads as.
pub fn event_of_line(parsed: Result<Json, String>) -> (r: Result<SessionEvent, String>)
    ensures
        match r {
            Ok(e) => line_event(json_result_view(parsed)) == Ok::<StoredEvent, Seq<char>>(e@),
            Err(m) => line_event(json_result_view(parsed)) == Err::<StoredEvent, Seq<char>>(m@),
        },
{
    match parsed {
        Err(e) => Err(e),
        Ok(j) => match event_from_json(&j) {
            Some(e) => Ok(e),
            None => Err("not a session event".to_owned()),
        },
    }
}

/// The events in the text of the file of a session.
pub fn read_events(path: &str, text: &str) -> (r: AppResult<Vec<SessionEvent>>)
    ensures
        events_result(r) == log_events(path@, lines(text@), lines(text@).len() as int),
{
    let v = lines_of(text);
    let ghost src = lines(text@);
    let n: usize = v.len();
    let mut out: Vec<SessionEvent> = Vec::new();
    let mut i: usize = 0;
    proof {
        assert(event_views(out@) =~= Seq::<StoredEvent>::empty());
        assert(texts(v@).len() == v@.len());
    }
    while i < n
        invariant
            i <= n,
            n == v@.len(),
            src == texts(v@),
            src == lines(text@),
            log_events(path@, src, i as int) == Ok::<Seq<StoredEvent>, Failure>(
                event_views(out@),
            ),
        decreases n - i,
    {
        proof {
            assert(src[i as int] == v@[i as int]@);
        }
        if !blank(v[i].as_str()) {
            match event_of_line(parse_json(v[i].as_str())) {
                Ok(e) => {
                    proof {
                        lemma_events_push(out@, e);
                    }
                    out.push(e);
                },
                Err(m) => {
                    let message = "failed to parse session file `".to_owned().concat(path).concat(
                        "` at line ",
                    ).concat(decimal_string((i + 1) as u64).as_str()).concat(": ").concat(
                        m.as_str(),
                    );
                    let error = AppError::new(EXIT_SESSION, message.as_str());
                    proof {
                        lemma_log_fail(path@, src, i + 1, n as int, error@);
                    }
                    return Err(error);
                },
            }
        }
        i = i + 1;
    }
    Ok(out)
}

/// The error where there is no such session.
pub fn no_such_session(session_id: &str) -> (r: AppError)
    ensures
        r@ == failure(EXIT_SESSION, "session `"@ + session_id@ + "` does not exist"@),
{
    AppError::new(
        EXIT_SESSION,
        "session `".to_owned().concat(session_id).concat("` does not exist").as_str(),
    )
}

// ---------------------------------------------------------------------------
// Reading what was written
// ---------------------------------------------------------------------------

proof fn lemma_images_return(v: Seq<ImageView>)
    ensures
        images_of(v.map_values(|i: ImageView| image_json(i))) == Some(v),
    decreases v.len(),
{
    let w = v.map_values(|i: ImageView| image_json(i));
    if v.len() == 0 {
        assert(images_of(w)->Some_0 =~= v);
    } else {
        lemma_images_return(v.drop_last());
        assert(w.drop_last() =~= v.drop_last().map_values(|i: ImageView| image_json(i)));
        let j = image_json(v.last());
        assert(w.last() == j);
        reveal_strlit("media_type");
        reveal_strlit("data");
        reveal_with_fuel(field_from, 3);
        assert("media_type"@.len() != "data"@.len());
        assert(image_of(j) == Some(v.last()));
        assert(v.drop_last().push(v.last()) =~= v);
    }
}

proof fn lemma_texts_return(v: Seq<Seq<char>>)
    ensures
        texts_of(v.map_values(|t: Seq<char>| JsonView::Str(t))) == Some(v),
    decreases v.len(),
{
    let w = v.map_values(|t: Seq<char>| JsonView::Str(t));
    if v.len() == 0 {
        assert(texts_of(w)->Some_0 =~= v);
    } else {
        lemma_texts_return(v.drop_last());
        assert(w.drop_last() =~= v.drop_last().map_values(|t: Seq<char>| JsonView::Str(t)));
        assert(v.drop_last().push(v.last()) =~= v);
    }
}

proof fn lemma_usage_returns(u: Usage)
    ensures
        usage_of(usage_json(u)) == Some(u),
{
    reveal_strlit("input_tokens");
    reveal_strlit("output_tokens");
    reveal_strlit("total_tokens");
    reveal_with_fuel(field_from, 4);
    let a = "input_tokens"@;
    let b = "output_tokens"@;
    let c = "total_tokens"@;
    assert(a[0] != b[0]);
    assert(a[0] != c[0]);
    assert(b[0] != c[0]);
}

proof fn lemma_field_at(f: Seq<(Seq<char>, JsonView)>, i: int, from: int)
    requires
        distinct(f),
        0 <= from <= i < f.len(),
    ensures
        field_from(f, f[i].0, from) == f[i].1,
    decreases i - from,
{
    if from < i {
        assert(f[from].0 != f[i].0);
        lemma_field_at(f, i, from + 1);
    }
}

proof fn lemma_message_returns(m: StoredMessage)
    ensures
        distinct(message_json(m)->Object_0),
        event_of(message_json(m)) == Some(StoredEvent::Message(m)),
{
    let j = message_json(m);
    let f = j->Object_0;
    reveal_strlit("type");
    reveal_strlit("role");
    reveal_strlit("content");
    reveal_strlit("images");
    reveal_strlit("tool_calls");
    reveal_strlit("tool_call_id");
    reveal_strlit("name");
    reveal_strlit("created_at");
    assert(f[0].0[0] == 't' && f[0].0[1] == 'y');
    assert(f[1].0[0] == 'r');
    assert(f[2].0[0] == 'c' && f[2].0[1] == 'o');
    assert(f[3].0[0] == 'i');
    assert(f[4].0[0] == 't' && f[4].0[1] == 'o' && f[4].0.len() == 10);
    assert(f[5].0[0] == 't' && f[5].0[1] == 'o' && f[5].0.len() == 12);
    assert(f[6].0[0] == 'n');
    assert(f[7].0[0] == 'c' && f[7].0[1] == 'r');
    assert(distinct(f));
    lemma_field_at(f, 0, 0);
    lemma_field_at(f, 1, 0);
    lemma_field_at(f, 2, 0);
    lemma_field_at(f, 3, 0);
    lemma_field_at(f, 4, 0);
    lemma_field_at(f, 5, 0);
    lemma_field_at(f, 6, 0);
    lemma_field_at(f, 7, 0);
    lemma_images_return(m.images);
    reveal_strlit("meta");
    reveal_strlit("message");
    assert("meta"@.len() != "message"@.len());
}

proof fn lemma_response_returns(r: StoredResponse)
    ensures
        distinct(response_json(r)->Object_0),
        event_of(response_json(r)) == Some(StoredEvent::Response(r)),
{
    let j = response_json(r);
    let f = j->Object_0;
    reveal_strlit("type");
    reveal_strlit("provider");
    reveal_strlit("model");
    reveal_strlit("finish_reason");
    reveal_strlit("latency_ms");
    reveal_strlit("usage");
    reveal_strlit("created_at");
    assert(f[0].0[0] == 't');
    assert(f[1].0[0] == 'p');
    assert(f[2].0[0] == 'm');
    assert(f[3].0[0] == 'f');
    assert(f[4].0[0] == 'l');
    assert(f[5].0[0] == 'u');
    assert(f[6].0[0] == 'c');
    assert(distinct(f));
    lemma_field_at(f, 0, 0);
    lemma_field_at(f, 1, 0);
    lemma_field_at(f, 2, 0);
    lemma_field_at(f, 3, 0);
    lemma_field_at(f, 4, 0);
    lemma_field_at(f, 5, 0);
    lemma_field_at(f, 6, 0);
    lemma_usage_returns(r.usage);
    reveal_strlit("meta");
    reveal_strlit("message");
    reveal_strlit("response");
    assert("meta"@.len() != "response"@.len());
    assert("message"@.len() != "response"@.len());
}

proof fn lemma_audit_returns(a: StoredAudit)
    ensures
        distinct(audit_json(a)->Object_0),
        event_of(audit_json(a)) == Some(StoredEvent::Audit(a)),
{
    let j = audit_json(a);
    let f = j->Object_0;
    reveal_strlit("type");
    reveal_strlit("provider");
    reveal_strlit("model");
    reveal_strlit("tool_name");
    reveal_strlit("tool_call_id");
    reveal_strlit("verdict");
    reveal_strlit("summary");
    reveal_strlit("findings");
    reveal_strlit("recommendations");
    reveal_strlit("latency_ms");
    reveal_strlit("usage");
    reveal_strlit("created_at");
    assert(f[0].0[0] == 't' && f[0].0.len() == 4);
    assert(f[1].0[0] == 'p');
    assert(f[2].0[0] == 'm');
    assert(f[3].0[0] == 't' && f[3].0.len() == 9);
    assert(f[4].0[0] == 't' && f[4].0.len() == 12);
    assert(f[5].0[0] == 'v');
    assert(f[6].0[0] == 's');
    assert(f[7].0[0] == 'f');
    assert(f[8].0[0] == 'r');
    assert(f[9].0[0] == 'l');
    assert(f[10].0[0] == 'u');
    assert(f[11].0[0] == 'c');
    assert(distinct(f));
    lemma_field_at(f, 0, 0);
    lemma_field_at(f, 1, 0);
    lemma_field_at(f, 2, 0);
    lemma_field_at(f, 3, 0);
    lemma_field_at(f, 4, 0);
    lemma_field_at(f, 5, 0);
    lemma_field_at(f, 6, 0);
    lemma_field_at(f, 7, 0);
    lemma_field_at(f, 8, 0);
    lemma_field_at(f, 9, 0);
    lemma_field_at(f, 10, 0);
    lemma_field_at(f, 11, 0);
    lemma_usage_returns(a.usage);
    lemma_texts_return(a.findings);
    lemma_texts_return(a.recommendations);
    reveal_strlit("meta");
    reveal_strlit("message");
    reveal_strlit("response");
    reveal_strlit("audit");
    assert("audit"@.len() != "meta"@.len());
    assert("audit"@.len() != "message"@.len());
    assert("audit"@.len() != "response"@.len());
}

/// What is written for an event reads as that event.
pub proof fn law_event_reads_back(e: StoredEvent)
    ensures
        event_of(event_json(e)) == Some(e),
        distinct(event_json(e)->Object_0),
{
    match e {
        StoredEvent::Meta(id, created_at) => {
            let f = event_json(e)->Object_0;
            reveal_strlit("type");
            reveal_strlit("session_id");
            reveal_strlit("created_at");
            assert(f[0].0[0] == 't');
            assert(f[1].0[0] == 's');
            assert(f[2].0[0] == 'c');
            assert(distinct(f));
            lemma_field_at(f, 0, 0);
            lemma_field_at(f, 1, 0);
            lemma_field_at(f, 2, 0);
        },
        StoredEvent::Message(m) => lemma_message_returns(m),
        StoredEvent::Response(r) => lemma_response_returns(r),
        StoredEvent::Audit(a) => lemma_audit_returns(a),
    }
}

// ---------------------------------------------------------------------------
// Reading the text that was written
// ---------------------------------------------------------------------------

/// Whether an event is another one, up to the order of fields in its tool calls.
pub open spec fn same_event(a: StoredEvent, b: StoredEvent) -> bool {
    match (a, b) {
        (StoredEvent::Message(x), StoredEvent::Message(y)) => {
            &&& x == (StoredMessage { tool_calls: x.tool_calls, ..y })
            &&& same_list(x.tool_calls, y.tool_calls)
        },
        _ => a == b,
    }
}

pub open spec fn same_list(x: Seq<JsonView>, y: Seq<JsonView>) -> bool {
    x.len() == y.len() && forall|i: int| 0 <= i < y.len() ==> same_json(x[i], #[trigger] y[i])
}

/// Whether an event can be written without loss. Only its tool calls can stand in the way.
pub open spec fn storable(e: StoredEvent) -> bool {
    match e {
        StoredEvent::Message(m) => forall|i: int|
            0 <= i < m.tool_calls.len() ==> exact_json(
                #[trigger] m.tool_calls[i],
                (MAX_JSON_DEPTH - 2) as nat,
            ),
        _ => true,
    }
}

/// Whether a text is empty or ends with a line.
pub open spec fn ends_in_line(text: Seq<char>) -> bool {
    text.len() == 0 || text.last() == '\n'
}

/// Whether a text is a line that is not blank and holds no control character.
pub open spec fn is_plain_line(line: Seq<char>) -> bool {
    line.len() > 0 && line[0] == OPEN_BRACE && forall|i: int|
        0 <= i < line.len() ==> ' ' <= #[trigger] line[i]
}

proof fn lemma_no_field(f: Seq<(Seq<char>, JsonView)>, key: Seq<char>, i: int)
    requires
        !has_field(f, key),
        0 <= i,
    ensures
        field_from(f, key, i) == JsonView::Null,
    decreases f.len() - i,
{
    if i < f.len() {
        assert(f[i].0 != key);
        lemma_no_field(f, key, i + 1);
    }
}

proof fn lemma_same_at(w: JsonView, v: JsonView, depth: nat, key: Seq<char>)
    requires
        same_json(w, v),
        exact_json(v, depth),
    ensures
        same_json(w.at(key), v.at(key)),
        depth > 0 ==> exact_json(v.at(key), (depth - 1) as nat),
{
    match (w, v) {
        (JsonView::Object(f), JsonView::Object(g)) => {
            if has_field(g, key) {
                let i = choose|i: int| 0 <= i < g.len() && (#[trigger] g[i]).0 == key;
                lemma_field_at(g, i, 0);
            } else {
                assert(!has_field(f, key));
                lemma_no_field(f, key, 0);
                lemma_no_field(g, key, 0);
            }
        },
        _ => {},
    }
}

proof fn lemma_same_images(x: Seq<JsonView>, y: Seq<JsonView>, depth: nat)
    requires
        same_list(x, y),
        forall|i: int| 0 <= i < y.len() ==> exact_json(#[trigger] y[i], depth),
    ensures
        images_of(x) == images_of(y),
    decreases y.len(),
{
    if y.len() > 0 {
        lemma_same_images(x.drop_last(), y.drop_last(), depth);
        assert(same_json(x.last(), y[y.len() - 1]));
        lemma_same_at(x.last(), y.last(), depth, "media_type"@);
        lemma_same_at(x.last(), y.last(), depth, "data"@);
    }
}

proof fn lemma_same_texts(x: Seq<JsonView>, y: Seq<JsonView>)
    requires
        same_list(x, y),
    ensures
        texts_of(x) == texts_of(y),
    decreases y.len(),
{
    if y.len() > 0 {
        lemma_same_texts(x.drop_last(), y.drop_last());
        assert(same_json(x.last(), y[y.len() - 1]));
    }
}

proof fn lemma_same_usage(w: JsonView, v: JsonView, depth: nat)
    requires
        same_json(w, v),
        exact_json(v, depth),
    ensures
        usage_of(w) == usage_of(v),
{
    lemma_same_at(w, v, depth, "input_tokens"@);
    lemma_same_at(w, v, depth, "output_tokens"@);
    lemma_same_at(w, v, depth, "total_tokens"@);
}

proof fn lemma_same_event(w: JsonView, v: JsonView, depth: nat)
    requires
        same_json(w, v),
        exact_json(v, depth),
        depth >= 2,
        event_of(v) is Some,
    ensures
        event_of(w) matches Some(e) && same_event(e, event_of(v)->Some_0),
{
    lemma_same_at(w, v, depth, "type"@);
    lemma_same_at(w, v, depth, "session_id"@);
    lemma_same_at(w, v, depth, "created_at"@);
    lemma_same_at(w, v, depth, "role"@);
    lemma_same_at(w, v, depth, "content"@);
    lemma_same_at(w, v, depth, "images"@);
    lemma_same_at(w, v, depth, "tool_calls"@);
    lemma_same_at(w, v, depth, "tool_call_id"@);
    lemma_same_at(w, v, depth, "name"@);
    lemma_same_at(w, v, depth, "provider"@);
    lemma_same_at(w, v, depth, "model"@);
    lemma_same_at(w, v, depth, "finish_reason"@);
    lemma_same_at(w, v, depth, "latency_ms"@);
    lemma_same_at(w, v, depth, "usage"@);
    lemma_same_at(w, v, depth, "tool_name"@);
    lemma_same_at(w, v, depth, "verdict"@);
    lemma_same_at(w, v, depth, "summary"@);
    lemma_same_at(w, v, depth, "findings"@);
    lemma_same_at(w, v, depth, "recommendations"@);
    lemma_same_usage(w.at("usage"@), v.at("usage"@), (depth - 1) as nat);
    match (w.at("images"@), v.at("images"@)) {
        (JsonView::Array(x), JsonView::Array(y)) => {
            lemma_same_images(x, y, (depth - 2) as nat);
        },
        _ => {},
    }
    match (w.at("findings"@), v.at("findings"@)) {
        (JsonView::Array(x), JsonView::Array(y)) => lemma_same_texts(x, y),
        _ => {},
    }
    match (w.at("recommendations"@), v.at("recommendations"@)) {
        (JsonView::Array(x), JsonView::Array(y)) => lemma_same_texts(x, y),
        _ => {},
    }
}

proof fn lemma_texts_exact(v: Seq<Seq<char>>)
    ensures
        exact_json(text_list(v), 1),
{
    let x = text_list(v)->Array_0;
    assert forall|i: int| 0 <= i < x.len() implies exact_json(#[trigger] x[i], 0) by {
        assert(x[i] == JsonView::Str(v[i]));
    }
}

proof fn lemma_images_exact(v: Seq<ImageView>)
    ensures
        exact_json(JsonView::Array(v.map_values(|i: ImageView| image_json(i))), 2),
{
    let x = v.map_values(|i: ImageView| image_json(i));
    assert forall|i: int| 0 <= i < x.len() implies exact_json(#[trigger] x[i], 1) by {
        let f = image_json(v[i])->Object_0;
        assert(x[i] == image_json(v[i]));
        reveal_strlit("media_type");
        reveal_strlit("data");
        assert("media_type"@.len() != "data"@.len());
        assert(distinct(f));
        assert forall|k: int| 0 <= k < f.len() implies exact_json((#[trigger] f[k]).1, 0) by {}
    }
}

proof fn lemma_usage_exact(u: Usage)
    ensures
        exact_json(usage_json(u), 1),
{
    let f = usage_json(u)->Object_0;
    reveal_strlit("input_tokens");
    reveal_strlit("output_tokens");
    reveal_strlit("total_tokens");
    assert(f[0].0[0] == 'i');
    assert(f[1].0[0] == 'o');
    assert(f[2].0[0] == 't');
    assert(distinct(f));
    assert forall|k: int| 0 <= k < f.len() implies exact_json((#[trigger] f[k]).1, 0) by {}
}

/// A value that can be written without loss where lists and objects may stand deep in each
/// other can be where they may stand deeper.
proof fn lemma_exact_deeper(v: JsonView, a: nat, b: nat)
    requires
        exact_json(v, a),
        a <= b,
    ensures
        exact_json(v, b),
    decreases v,
{
    match v {
        JsonView::Array(x) => {
            assert forall|i: int| 0 <= i < x.len() implies exact_json(
                #[trigger] x[i],
                (b - 1) as nat,
            ) by {
                lemma_exact_deeper(x[i], (a - 1) as nat, (b - 1) as nat);
            }
        },
        JsonView::Object(f) => {
            assert forall|i: int| 0 <= i < f.len() implies exact_json(
                (#[trigger] f[i]).1,
                (b - 1) as nat,
            ) by {
                lemma_exact_deeper(f[i].1, (a - 1) as nat, (b - 1) as nat);
            }
        },
        _ => {},
    }
}

proof fn lemma_event_exact(e: StoredEvent)
    requires
        storable(e),
    ensures
        exact_json(event_json(e), MAX_JSON_DEPTH as nat),
{
    law_event_reads_back(e);
    let f = event_json(e)->Object_0;
    let d = (MAX_JSON_DEPTH - 1) as nat;
    match e {
        StoredEvent::Message(m) => {
            lemma_images_exact(m.images);
            lemma_exact_deeper(f[3].1, 2, d);
            assert(exact_json(f[4].1, d));
        },
        StoredEvent::Response(r) => {
            lemma_usage_exact(r.usage);
            lemma_exact_deeper(f[5].1, 1, d);
        },
        StoredEvent::Audit(a) => {
            lemma_texts_exact(a.findings);
            lemma_texts_exact(a.recommendations);
            lemma_usage_exact(a.usage);
            lemma_exact_deeper(f[7].1, 1, d);
            lemma_exact_deeper(f[8].1, 1, d);
            lemma_exact_deeper(f[10].1, 1, d);
        },
        _ => {},
    }
    assert forall|k: int| 0 <= k < f.len() implies exact_json((#[trigger] f[k]).1, d) by {}
}

proof fn lemma_lines_append(text: Seq<char>, line: Seq<char>)
    requires
        ends_in_line(text),
        is_plain_line(line),
    ensures
        lines(text + line + "\n"@) == lines(text).push(line),
        ends_in_line(text + line + "\n"@),
{
    let f = only('\n');
    reveal_strlit("\n");
    let y = line + "\n"@;
    assert(text + line + "\n"@ =~= text + y);
    lemma_split_by_len(text, f);
    lemma_split_concat(text, y, f);
    assert(split_by(text, f).last() =~= Seq::<char>::empty());
    assert(Seq::<char>::empty() + y =~= y);
    assert(y.drop_last() =~= line);
    lemma_split_none(line, f);
    let before = split_by(text, f).drop_last();
    assert(split_by(y, f) =~= seq![line, Seq::empty()]);
    let pieces = split_by(text + y, f);
    assert(pieces.drop_last() =~= before.push(line));
    assert(lines(text + y) =~= lines(text).push(line));
}

proof fn lemma_not_blank(s: Seq<char>)
    requires
        s.len() > 0,
        !is_space(s[0]),
    ensures
        trimmed_end(s).len() > 0,
    decreases s.len(),
{
    if is_space(s.last()) {
        lemma_not_blank(s.drop_last());
    }
}

/// What the text of the file of a session reads as.
pub open spec fn read_log(path: Seq<char>, text: Seq<char>) -> Result<Seq<StoredEvent>, Failure> {
    log_events(path, lines(text), lines(text).len() as int)
}

pub open spec fn all_storable(v: Seq<StoredEvent>) -> bool {
    forall|i: int| 0 <= i < v.len() ==> storable(#[trigger] v[i])
}

/// Whether the file of a session, once a text is appended, reads as before with some events
/// behind: what could be read still is, and what could not still cannot.
pub open spec fn log_grows(
    path: Seq<char>,
    text: Seq<char>,
    added: Seq<char>,
    v: Seq<StoredEvent>,
) -> bool {
    match (read_log(path, text), read_log(path, text + added)) {
        (Ok(before), Ok(after)) => {
            &&& after.len() == before.len() + v.len()
            &&& after.take(before.len() as int) == before
            &&& forall|i: int|
                0 <= i < v.len() ==> same_event(after[before.len() + i], #[trigger] v[i])
        },
        (Err(a), Err(b)) => a == b,
        _ => false,
    }
}

proof fn lemma_log_prefix(path: Seq<char>, v: Seq<Seq<char>>, w: Seq<Seq<char>>, n: int)
    requires
        n <= v.len(),
        n <= w.len(),
        forall|i: int| 0 <= i < n ==> v[i] == w[i],
    ensures
        log_events(path, v, n) == log_events(path, w, n),
    decreases n,
{
    if n > 0 {
        lemma_log_prefix(path, v, w, n - 1);
    }
}

proof fn lemma_log_grows(path: Seq<char>, text: Seq<char>, v: Seq<StoredEvent>)
    requires
        ends_in_line(text),
        all_storable(v),
        forall|i: int| 0 <= i < v.len() ==> line_returns(#[trigger] v[i]),
    ensures
        log_grows(path, text, log_text(v), v),
        ends_in_line(text + log_text(v)),
    decreases v.len(),
{
    if v.len() == 0 {
        assert(text + log_text(v) =~= text);
        if let Ok(before) = read_log(path, text) {
            assert(before.take(before.len() as int) =~= before);
        }
    } else {
        let shorter = v.drop_last();
        let e = v.last();
        let line = printed_json(event_json(e));
        let so_far = text + log_text(shorter);
        assert(all_storable(shorter)) by {
            assert forall|i: int| 0 <= i < shorter.len() implies storable(#[trigger] shorter[i]) by {
                assert(storable(v[i]));
            }
        }
        assert forall|i: int| 0 <= i < shorter.len() implies line_returns(#[trigger] shorter[i]) by {
            assert(line_returns(v[i]));
        }
        lemma_log_grows(path, text, shorter);
        assert(line_returns(v[v.len() - 1]) && storable(v[v.len() - 1]));
        lemma_lines_append(so_far, line);
        assert(text + log_text(v) =~= so_far + line + "\n"@);
        let a = lines(so_far);
        lemma_log_prefix(path, a, a.push(line), a.len() as int);
        lemma_not_blank(line);
        assert(!is_blank(line));
        let w = parsed_json(line)->Ok_0;
        law_event_reads_back(e);
        lemma_event_exact(e);
        lemma_same_event(w, event_json(e), MAX_JSON_DEPTH as nat);
        if let Ok(before) = read_log(path, text) {
            let middle = read_log(path, so_far)->Ok_0;
            let after = read_log(path, text + log_text(v))->Ok_0;
            assert(after == middle.push(event_of(w)->Some_0));
            assert(after.take(before.len() as int) =~= middle.take(before.len() as int));
            assert forall|i: int| 0 <= i < v.len() implies same_event(
                after[before.len() + i],
                #[trigger] v[i],
            ) by {
                if i < v.len() - 1 {
                    assert(same_event(middle[before.len() + i], shorter[i]));
                }
            }
        }
    }
}

} // verus!
