//! Reading of replies, whole and streamed.

use crate::chat::{ChatResponse, ChatStreamChunk, ChunkView, ReplyView};
use crate::config::or_text;
use crate::error::{
    AppError, AppResult, EXIT_NETWORK, EXIT_PROVIDER, EXIT_RATE_LIMIT, Failure, failure,
};
use crate::json::{
    Json, JsonView, array, clone_json, elements_in, flag_in, get_in, index_in, json_text,
    jsons, lemma_array_view, lemma_jsons_push, object2, object3, opt_json, parse_json,
    parsed_json, text_in, text_in_or, unsigned_in,
};
use crate::provider::{http_failure, http_message, map_http_error, not_implemented};
use crate::session::{Usage, no_usage};
use crate::text::{
    blank, is_blank, lemma_take_full, lemma_take_step, opt_eq, opt_text, str_eq, trim, trimmed,
};
use vstd::prelude::*;

verus! {

// ---------------------------------------------------------------------------
// Texts
// ---------------------------------------------------------------------------

/// The text of one part of a message: its `text`, else its `content`.
pub open spec fn part_text(p: JsonView) -> Seq<char> {
    match (p.at("text"@).text(), p.at("content"@).text()) {
        (Some(t), _) => t,
        (None, Some(t)) => t,
        (None, None) => Seq::empty(),
    }
}

/// The texts of parts, one after the other.
pub open spec fn parts_text(parts: Seq<JsonView>) -> Seq<char>
    decreases parts.len(),
{
    if parts.len() == 0 {
        Seq::empty()
    } else {
        parts_text(parts.drop_last()) + part_text(parts.last())
    }
}

pub open spec fn some_text(t: Seq<char>) -> Option<Seq<char>> {
    if t.len() == 0 {
        None
    } else {
        Some(t)
    }
}

/// The text of a content value: a text, or the texts of a list of parts.
pub open spec fn content_text(v: JsonView) -> Option<Seq<char>> {
    match v {
        JsonView::Str(t) => Some(t),
        JsonView::Array(parts) => some_text(parts_text(parts)),
        _ => None,
    }
}

fn merge_parts(parts: &Vec<Json>) -> (r: String)
    ensures
        r@ == parts_text(jsons(parts@)),
{
    let ghost src = jsons(parts@);
    let mut merged = String::new();
    let mut i: usize = 0;
    while i < parts.len()
        invariant
            i <= parts@.len(),
            src == jsons(parts@),
            merged@ == parts_text(src.take(i as int)),
        decreases parts@.len() - i,
    {
        proof {
            lemma_take_step(src, i as int);
            assert(merged@ + Seq::<char>::empty() =~= merged@);
        }
        if let Some(t) = text_in(parts[i].get("text")) {
            merged.append(t.as_str());
        } else if let Some(t) = text_in(parts[i].get("content")) {
            merged.append(t.as_str());
        }
        i = i + 1;
    }
    proof {
        lemma_take_full(src);
    }
    merged
}

pub fn extract_openai_text_value(value: Option<&Json>) -> (r: Option<String>)
    ensures
        opt_text(r) == content_text(opt_json(value)),
{
    match value {
        Some(Json::Str(s)) => Some(s.clone()),
        Some(Json::Array(items)) => {
            proof {
                lemma_array_view(*items);
            }
            let merged = merge_parts(items);
            if merged.as_str().is_empty() {
                None
            } else {
                Some(merged)
            }
        },
        _ => None,
    }
}

pub open spec fn first_choice(raw: JsonView) -> JsonView {
    raw.at("choices"@).nth(0)
}

pub fn extract_openai_content(raw: &Json) -> (r: Option<String>)
    ensures
        opt_text(r) == content_text(first_choice(raw@).at("message"@).at("content"@)),
{
    let message = get_in(index_in(raw.get("choices"), 0), "message");
    extract_openai_text_value(get_in(message, "content"))
}

/// The reasoning that stands beside a content, under one of two names.
pub open spec fn reasoning_text(v: JsonView) -> Option<Seq<char>> {
    match content_text(v.at("reasoning_content"@)) {
        Some(t) => Some(t),
        None => content_text(v.at("reasoning"@)),
    }
}

fn reasoning_of(v: Option<&Json>) -> (r: Option<String>)
    ensures
        opt_text(r) == reasoning_text(opt_json(v)),
{
    match extract_openai_text_value(get_in(v, "reasoning_content")) {
        Some(t) => Some(t),
        None => extract_openai_text_value(get_in(v, "reasoning")),
    }
}

pub fn extract_openai_reasoning_content(raw: &Json) -> (r: Option<String>)
    ensures
        opt_text(r) == reasoning_text(first_choice(raw@).at("message"@)),
{
    reasoning_of(get_in(index_in(raw.get("choices"), 0), "message"))
}

pub fn extract_openai_delta(raw: &Json) -> (r: String)
    ensures
        r@ == or_text(
            content_text(first_choice(raw@).at("delta"@).at("content"@)),
            Seq::empty(),
        ),
{
    let delta = get_in(index_in(raw.get("choices"), 0), "delta");
    match extract_openai_text_value(get_in(delta, "content")) {
        Some(t) => t,
        None => String::new(),
    }
}

pub fn extract_openai_reasoning_delta(raw: &Json) -> (r: String)
    ensures
        r@ == or_text(reasoning_text(first_choice(raw@).at("delta"@)), Seq::empty()),
{
    match reasoning_of(get_in(index_in(raw.get("choices"), 0), "delta")) {
        Some(t) => t,
        None => String::new(),
    }
}

pub open spec fn not_blank(o: Option<Seq<char>>) -> Option<Seq<char>> {
    match o {
        Some(t) => if is_blank(t) {
            None
        } else {
            Some(t)
        },
        None => None,
    }
}

/// Reasoning in a thinking block in front of the content, each where it is not blank.
pub open spec fn combined(reasoning: Option<Seq<char>>, content: Option<Seq<char>>) -> Option<
    Seq<char>,
> {
    match (not_blank(reasoning), not_blank(content)) {
        (Some(r), Some(c)) => Some("<think>\n"@ + r + "\n</think>\n\n"@ + c),
        (Some(r), None) => Some("<think>\n"@ + r + "\n</think>"@),
        (None, Some(c)) => Some(c),
        (None, None) => None,
    }
}

fn keep_not_blank(o: Option<String>) -> (r: Option<String>)
    ensures
        opt_text(r) == not_blank(opt_text(o)),
{
    match o {
        Some(t) => {
            if blank(t.as_str()) {
                None
            } else {
                Some(t)
            }
        },
        None => None,
    }
}

pub fn combine_reasoning_and_content(reasoning: Option<String>, content: Option<String>) -> (r:
    Option<String>)
    ensures
        opt_text(r) == combined(opt_text(reasoning), opt_text(content)),
{
    let a = keep_not_blank(reasoning);
    let b = keep_not_blank(content);
    match (a, b) {
        (Some(x), Some(y)) => Some(
            "<think>\n".to_owned().concat(x.as_str()).concat("\n</think>\n\n").concat(y.as_str()),
        ),
        (Some(x), None) => Some("<think>\n".to_owned().concat(x.as_str()).concat("\n</think>")),
        (None, Some(y)) => Some(y),
        (None, None) => None,
    }
}

/// The texts of the parts of type `text`.
pub open spec fn text_parts(parts: Seq<JsonView>) -> Seq<char>
    decreases parts.len(),
{
    if parts.len() == 0 {
        Seq::empty()
    } else {
        let p = parts.last();
        let t = if p.at("type"@).text() == Some("text"@) {
            p.at("text"@).text_or(Seq::empty())
        } else {
            Seq::empty()
        };
        text_parts(parts.drop_last()) + t
    }
}

pub open spec fn anthropic_text(raw: JsonView) -> Option<Seq<char>> {
    match raw.at("content"@) {
        JsonView::Array(parts) => some_text(text_parts(parts)),
        _ => None,
    }
}

pub fn extract_anthropic_content(raw: &Json) -> (r: Option<String>)
    ensures
        opt_text(r) == anthropic_text(raw@),
{
    match raw.get("content") {
        Some(Json::Array(items)) => {
            proof {
                lemma_array_view(*items);
            }
            let ghost src = jsons(items@);
            let mut merged = String::new();
            let mut i: usize = 0;
            while i < items.len()
                invariant
                    i <= items@.len(),
                    src == jsons(items@),
                    merged@ == text_parts(src.take(i as int)),
                decreases items@.len() - i,
            {
                proof {
                    lemma_take_step(src, i as int);
                    assert(merged@ + Seq::<char>::empty() =~= merged@);
                }
                let kind = text_in(items[i].get("type"));
                if opt_eq(&kind, "text") {
                    if let Some(t) = text_in(items[i].get("text")) {
                        merged.append(t.as_str());
                    }
                }
                i = i + 1;
            }
            proof {
                lemma_take_full(src);
            }
            if merged.as_str().is_empty() {
                None
            } else {
                Some(merged)
            }
        },
        _ => None,
    }
}

pub fn extract_ollama_content(raw: &Json) -> (r: Option<String>)
    ensures
        opt_text(r) == raw@.at("message"@).at("content"@).text(),
{
    text_in(get_in(raw.get("message"), "content"))
}

// ---------------------------------------------------------------------------
// Usage
// ---------------------------------------------------------------------------

/// The sum of two counts; one that is missing counts nothing, and a sum that does not fit is the
/// greatest count.
pub open spec fn sum_of(a: Option<u64>, b: Option<u64>) -> Option<u64> {
    match (a, b) {
        (Some(x), Some(y)) => if x + y <= u64::MAX {
            Some((x + y) as u64)
        } else {
            Some(u64::MAX)
        },
        (Some(x), None) => Some(x),
        (None, Some(y)) => Some(y),
        (None, None) => None,
    }
}

pub fn sum_optional(left: Option<u64>, right: Option<u64>) -> (r: Option<u64>)
    ensures
        r == sum_of(left, right),
{
    match (left, right) {
        (Some(a), Some(b)) => Some(a.saturating_add(b)),
        (Some(a), None) => Some(a),
        (None, Some(b)) => Some(b),
        (None, None) => None,
    }
}

pub open spec fn or_count(a: Option<u64>, b: Option<u64>) -> Option<u64> {
    if a is Some {
        a
    } else {
        b
    }
}

fn first_count(a: Option<u64>, b: Option<u64>) -> (r: Option<u64>)
    ensures
        r == or_count(a, b),
{
    if a.is_some() {
        a
    } else {
        b
    }
}

/// Usage after an update: what the update says replaces what was known, and the total is the sum
/// of the parts where there are any.
pub open spec fn merged_usage(u: Usage, update: Usage) -> Usage {
    let input = or_count(update.input_tokens, u.input_tokens);
    let output = or_count(update.output_tokens, u.output_tokens);
    Usage {
        input_tokens: input,
        output_tokens: output,
        total_tokens: or_count(
            sum_of(input, output),
            or_count(update.total_tokens, u.total_tokens),
        ),
    }
}

pub fn merge_usage(target: &mut Usage, update: &Usage)
    ensures
        *final(target) == merged_usage(*old(target), *update),
{
    target.input_tokens = first_count(update.input_tokens, target.input_tokens);
    target.output_tokens = first_count(update.output_tokens, target.output_tokens);
    let rest = first_count(update.total_tokens, target.total_tokens);
    target.total_tokens = first_count(
        sum_optional(target.input_tokens, target.output_tokens),
        rest,
    );
}

/// An update that came twice changes nothing more.
pub proof fn law_usage_settles(u: Usage, update: Usage)
    ensures
        merged_usage(merged_usage(u, update), update) == merged_usage(u, update),
{
}

/// The total is the sum of the parts whenever a part is known.
pub proof fn law_total_is_sum(u: Usage, update: Usage)
    ensures
        ({
            let m = merged_usage(u, update);
            m.input_tokens is Some || m.output_tokens is Some ==> m.total_tokens == sum_of(
                m.input_tokens,
                m.output_tokens,
            )
        }),
{
}

pub open spec fn openai_usage(v: JsonView) -> Usage {
    Usage {
        input_tokens: v.at("prompt_tokens"@).unsigned(),
        output_tokens: v.at("completion_tokens"@).unsigned(),
        total_tokens: v.at("total_tokens"@).unsigned(),
    }
}

fn openai_usage_of(v: Option<&Json>) -> (r: Usage)
    ensures
        r == openai_usage(opt_json(v)),
{
    Usage {
        input_tokens: unsigned_in(get_in(v, "prompt_tokens")),
        output_tokens: unsigned_in(get_in(v, "completion_tokens")),
        total_tokens: unsigned_in(get_in(v, "total_tokens")),
    }
}

pub open spec fn some_usage(u: Usage) -> Option<Usage> {
    if u == no_usage() {
        None
    } else {
        Some(u)
    }
}

pub fn extract_openai_usage(raw: &Json) -> (r: Option<Usage>)
    ensures
        r == some_usage(openai_usage(raw@.at("usage"@))),
{
    let u = openai_usage_of(raw.get("usage"));
    if u.input_tokens.is_none() && u.output_tokens.is_none() && u.total_tokens.is_none() {
        None
    } else {
        Some(u)
    }
}

/// Usage of which only the two parts are told.
pub open spec fn summed_usage(input: Option<u64>, output: Option<u64>) -> Usage {
    Usage { input_tokens: input, output_tokens: output, total_tokens: sum_of(input, output) }
}

fn usage_of_parts(input: Option<u64>, output: Option<u64>) -> (r: Usage)
    ensures
        r == summed_usage(input, output),
{
    Usage { input_tokens: input, output_tokens: output, total_tokens: sum_optional(input, output) }
}

pub open spec fn anthropic_usage(v: JsonView) -> Usage {
    summed_usage(v.at("input_tokens"@).unsigned(), v.at("output_tokens"@).unsigned())
}

fn anthropic_usage_of(v: Option<&Json>) -> (r: Usage)
    ensures
        r == anthropic_usage(opt_json(v)),
{
    usage_of_parts(
        unsigned_in(get_in(v, "input_tokens")),
        unsigned_in(get_in(v, "output_tokens")),
    )
}

pub open spec fn ollama_usage(raw: JsonView) -> Option<Usage> {
    some_usage(
        summed_usage(raw.at("prompt_eval_count"@).unsigned(), raw.at("eval_count"@).unsigned()),
    )
}

pub fn extract_ollama_usage(raw: &Json) -> (r: Option<Usage>)
    ensures
        r == ollama_usage(raw@),
{
    let u = usage_of_parts(
        unsigned_in(raw.get("prompt_eval_count")),
        unsigned_in(raw.get("eval_count")),
    );
    if u.input_tokens.is_none() && u.output_tokens.is_none() && u.total_tokens.is_none() {
        None
    } else {
        Some(u)
    }
}

// ---------------------------------------------------------------------------
// Whole replies
// ---------------------------------------------------------------------------

/// Who answered, and how long it took.
#[derive(Debug)]
pub struct ReplyOrigin {
    pub provider_id: String,
    pub model_id: String,
    pub latency_ms: u64,
}

pub open spec fn no_content() -> Failure {
    failure(EXIT_NETWORK, "provider response did not contain assistant content"@)
}

/// The reply of an OpenAI-compatible provider.
pub open spec fn openai_reply(o: ReplyOrigin, raw: JsonView) -> ReplyView {
    let message = first_choice(raw).at("message"@);
    ReplyView {
        provider_id: o.provider_id@,
        model_id: o.model_id@,
        content: or_text(
            combined(reasoning_text(message), content_text(message.at("content"@))),
            Seq::empty(),
        ),
        finish_reason: first_choice(raw).at("finish_reason"@).text_or("stop"@),
        usage: openai_usage(raw.at("usage"@)),
        latency_ms: o.latency_ms,
        raw,
        tool_calls: message.at("tool_calls"@).elements(),
    }
}

pub fn read_openai_reply(origin: ReplyOrigin, raw: Json) -> (r: ChatResponse)
    ensures
        r@ == openai_reply(origin, raw@),
{
    let content = match combine_reasoning_and_content(
        extract_openai_reasoning_content(&raw),
        extract_openai_content(&raw),
    ) {
        Some(t) => t,
        None => String::new(),
    };
    let choice = index_in(raw.get("choices"), 0);
    let finish_reason = text_in_or(get_in(choice, "finish_reason"), "stop");
    let tool_calls = elements_in(get_in(get_in(choice, "message"), "tool_calls"));
    let usage = openai_usage_of(raw.get("usage"));
    ChatResponse {
        provider_id: origin.provider_id,
        model_id: origin.model_id,
        content,
        finish_reason,
        usage,
        latency_ms: origin.latency_ms,
        raw,
        tool_calls,
    }
}

/// The reply of Anthropic, which has to hold some text.
pub open spec fn anthropic_reply(o: ReplyOrigin, raw: JsonView) -> Result<ReplyView, Failure> {
    match anthropic_text(raw) {
        None => Err(no_content()),
        Some(content) => Ok(
            ReplyView {
                provider_id: o.provider_id@,
                model_id: o.model_id@,
                content,
                finish_reason: raw.at("stop_reason"@).text_or("end_turn"@),
                usage: anthropic_usage(raw.at("usage"@)),
                latency_ms: o.latency_ms,
                raw,
                tool_calls: Seq::empty(),
            },
        ),
    }
}

pub open spec fn reply_result(r: AppResult<ChatResponse>) -> Result<ReplyView, Failure> {
    match r {
        Ok(v) => Ok(v@),
        Err(e) => Err(e@),
    }
}

pub fn read_anthropic_reply(origin: ReplyOrigin, raw: Json) -> (r: AppResult<ChatResponse>)
    ensures
        reply_result(r) == anthropic_reply(origin, raw@),
{
    match extract_anthropic_content(&raw) {
        None => Err(
            AppError::new(EXIT_NETWORK, "provider response did not contain assistant content"),
        ),
        Some(content) => {
            let finish_reason = text_in_or(raw.get("stop_reason"), "end_turn");
            let usage = anthropic_usage_of(raw.get("usage"));
            let calls: Vec<Json> = Vec::new();
            proof {
                assert(jsons(calls@) =~= Seq::<JsonView>::empty());
            }
            Ok(
                ChatResponse {
                    provider_id: origin.provider_id,
                    model_id: origin.model_id,
                    content,
                    finish_reason,
                    usage,
                    latency_ms: origin.latency_ms,
                    raw,
                    tool_calls: calls,
                },
            )
        },
    }
}

/// The reply of Ollama, which has to hold a message.
pub open spec fn ollama_reply(o: ReplyOrigin, raw: JsonView) -> Result<ReplyView, Failure> {
    match raw.at("message"@).at("content"@).text() {
        None => Err(no_content()),
        Some(content) => Ok(
            ReplyView {
                provider_id: o.provider_id@,
                model_id: o.model_id@,
                content,
                finish_reason: raw.at("done_reason"@).text_or("stop"@),
                usage: match ollama_usage(raw) {
                    Some(u) => u,
                    None => no_usage(),
                },
                latency_ms: o.latency_ms,
                raw,
                tool_calls: Seq::empty(),
            },
        ),
    }
}

pub fn read_ollama_reply(origin: ReplyOrigin, raw: Json) -> (r: AppResult<ChatResponse>)
    ensures
        reply_result(r) == ollama_reply(origin, raw@),
{
    match extract_ollama_content(&raw) {
        None => Err(
            AppError::new(EXIT_NETWORK, "provider response did not contain assistant content"),
        ),
        Some(content) => {
            let finish_reason = text_in_or(raw.get("done_reason"), "stop");
            let usage = match extract_ollama_usage(&raw) {
                Some(u) => u,
                None => Usage::default(),
            };
            let calls: Vec<Json> = Vec::new();
            proof {
                assert(jsons(calls@) =~= Seq::<JsonView>::empty());
            }
            Ok(
                ChatResponse {
                    provider_id: origin.provider_id,
                    model_id: origin.model_id,
                    content,
                    finish_reason,
                    usage,
                    latency_ms: origin.latency_ms,
                    raw,
                    tool_calls: calls,
                },
            )
        },
    }
}

/// The reply that a body of a given kind of provider holds.
pub open spec fn reply_of(kind: Seq<char>, o: ReplyOrigin, raw: JsonView) -> Result<
    ReplyView,
    Failure,
> {
    if kind == "openai_compatible"@ {
        Ok(openai_reply(o, raw))
    } else if kind == "anthropic"@ {
        anthropic_reply(o, raw)
    } else if kind == "ollama"@ {
        ollama_reply(o, raw)
    } else {
        Err(not_implemented(kind))
    }
}

/// Reads a value as the reply of a kind of provider.
pub fn reply_of_json(kind: &str, origin: ReplyOrigin, raw: Json) -> (r: AppResult<ChatResponse>)
    ensures
        reply_result(r) == reply_of(kind@, origin, raw@),
{
    if str_eq(kind, "openai_compatible") {
        Ok(read_openai_reply(origin, raw))
    } else if str_eq(kind, "anthropic") {
        read_anthropic_reply(origin, raw)
    } else if str_eq(kind, "ollama") {
        read_ollama_reply(origin, raw)
    } else {
        let message = "provider kind `".to_owned().concat(kind).concat("` is not implemented yet");
        Err(AppError::new(EXIT_PROVIDER, message.as_str()))
    }
}

/// What becomes of the text of a whole reply with a status.
pub open spec fn reply_of_text(
    kind: Seq<char>,
    o: ReplyOrigin,
    status: u16,
    text: Seq<char>,
    parsed: Result<JsonView, Seq<char>>,
) -> Result<ReplyView, Failure> {
    if !(200 <= status < 300) {
        Err(http_failure(status, http_message(parsed, text)))
    } else {
        match parsed {
            Err(m) => Err(failure(EXIT_NETWORK, "failed to parse provider response: "@ + m)),
            Ok(raw) => reply_of(kind, o, raw),
        }
    }
}

/// Reads the text of a whole reply.
pub fn read_reply(kind: &str, origin: ReplyOrigin, status: u16, text: &str) -> (r: AppResult<
    ChatResponse,
>)
    ensures
        reply_result(r) == reply_of_text(kind@, origin, status, text@, parsed_json(text@)),
{
    if !(200 <= status && status < 300) {
        return Err(map_http_error(status, text));
    }
    match parse_json(text) {
        Err(m) => {
            let message = "failed to parse provider response: ".to_owned().concat(m.as_str());
            Err(AppError::new(EXIT_NETWORK, message.as_str()))
        },
        Ok(raw) => reply_of_json(kind, origin, raw),
    }
}

// ---------------------------------------------------------------------------
// Streamed events
// ---------------------------------------------------------------------------

/// The control word that some providers send as an answer.
pub open spec fn control_delta(s: Seq<char>) -> bool {
    trimmed(s) == "FINISHED"@
}

pub fn is_openai_control_content_delta(delta: &str) -> (r: bool)
    ensures
        r == control_delta(delta@),
{
    let t = trim(delta);
    str_eq(t.as_str(), "FINISHED")
}

/// What a piece of reasoning and a piece of answer add to the text, and whether reasoning is open
/// after them. Reasoning opens a thinking block, which the first piece of answer, or the end,
/// closes.
pub open spec fn decorated(
    open: bool,
    reasoning: Seq<char>,
    answer: Seq<char>,
    finished: bool,
) -> (bool, Seq<char>) {
    let answer = if control_delta(answer) {
        Seq::empty()
    } else {
        answer
    };
    let (open1, out1) = if reasoning.len() == 0 {
        (open, Seq::empty())
    } else if open {
        (true, reasoning)
    } else {
        (true, "<think>\n"@ + reasoning)
    };
    if open1 && (answer.len() > 0 || finished) {
        (false, out1 + "</think>\n\n"@ + answer)
    } else {
        (open1, out1 + answer)
    }
}

pub fn decorate_openai_stream_delta(
    in_reasoning: &mut bool,
    reasoning_delta: &str,
    answer_delta: &str,
    finish_reason: Option<&str>,
) -> (r: String)
    ensures
        (*final(in_reasoning), r@) == decorated(
            *old(in_reasoning),
            reasoning_delta@,
            answer_delta@,
            finish_reason is Some,
        ),
{
    let answer = if is_openai_control_content_delta(answer_delta) {
        String::new()
    } else {
        answer_delta.to_owned()
    };
    let mut output = String::new();
    if !reasoning_delta.is_empty() {
        if !*in_reasoning {
            output = "<think>\n".to_owned().concat(reasoning_delta);
            *in_reasoning = true;
        } else {
            output = reasoning_delta.to_owned();
        }
    }
    if *in_reasoning && (!answer.as_str().is_empty() || finish_reason.is_some()) {
        output.append("</think>\n\n");
        *in_reasoning = false;
    }
    output.append(answer.as_str());
    output
}

/// No thinking block stays open once an answer came, or the end.
pub proof fn law_answer_closes_thinking(
    open: bool,
    reasoning: Seq<char>,
    answer: Seq<char>,
    finished: bool,
)
    requires
        finished || (answer.len() > 0 && !control_delta(answer)),
    ensures
        !decorated(open, reasoning, answer, finished).0,
{
}

/// An event of an OpenAI-compatible stream.
pub open spec fn openai_chunk(raw: JsonView) -> ChunkView {
    let choice = first_choice(raw);
    ChunkView {
        delta: or_text(content_text(choice.at("delta"@).at("content"@)), Seq::empty()),
        finish_reason: choice.at("finish_reason"@).text(),
        usage: some_usage(openai_usage(raw.at("usage"@))),
        tool_calls: choice.at("delta"@).at("tool_calls"@).elements(),
        raw,
    }
}

pub fn read_openai_chunk(raw: Json) -> (r: ChatStreamChunk)
    ensures
        r@ == openai_chunk(raw@),
{
    let delta = extract_openai_delta(&raw);
    let choice = index_in(raw.get("choices"), 0);
    let finish_reason = text_in(get_in(choice, "finish_reason"));
    let calls = elements_in(get_in(get_in(choice, "delta"), "tool_calls"));
    let usage = extract_openai_usage(&raw);
    ChatStreamChunk { delta, finish_reason, usage, tool_calls_delta: calls, raw }
}

/// An event without tool calls.
pub open spec fn simple_chunk(
    delta: Seq<char>,
    finish_reason: Option<Seq<char>>,
    usage: Option<Usage>,
    raw: JsonView,
) -> ChunkView {
    ChunkView { delta, finish_reason, usage, tool_calls: Seq::empty(), raw }
}

fn simple_chunk_of(
    delta: String,
    finish_reason: Option<String>,
    usage: Option<Usage>,
    raw: Json,
) -> (r: ChatStreamChunk)
    ensures
        r@ == simple_chunk(delta@, opt_text(finish_reason), usage, raw@),
{
    let calls: Vec<Json> = Vec::new();
    proof {
        assert(jsons(calls@) =~= Seq::<JsonView>::empty());
    }
    ChatStreamChunk { delta, finish_reason, usage, tool_calls_delta: calls, raw }
}

/// An event of an Anthropic stream: most kinds say nothing; an error ends the stream.
pub open spec fn anthropic_chunk(raw: JsonView) -> Result<Option<ChunkView>, Failure> {
    let kind = raw.at("type"@).text_or(Seq::empty());
    if kind == "error"@ {
        let message = match (raw.at("error"@).at("message"@).text(), raw.at("message"@).text()) {
            (Some(m), _) => m,
            (None, Some(m)) => m,
            (None, None) => "provider stream error"@,
        };
        if raw.at("error"@).at("type"@).text() == Some("overloaded_error"@) {
            Err(failure(EXIT_RATE_LIMIT, message))
        } else {
            Err(failure(EXIT_NETWORK, message))
        }
    } else if kind == "message_start"@ {
        Ok(
            Some(
                simple_chunk(
                    Seq::empty(),
                    None,
                    Some(anthropic_usage(raw.at("message"@).at("usage"@))),
                    raw,
                ),
            ),
        )
    } else if kind == "content_block_delta"@ {
        let delta = raw.at("delta"@);
        let text = if delta.at("type"@).text() == Some("text_delta"@) {
            delta.at("text"@).text_or(Seq::empty())
        } else {
            Seq::empty()
        };
        Ok(Some(simple_chunk(text, None, None, raw)))
    } else if kind == "message_delta"@ {
        Ok(
            Some(
                simple_chunk(
                    Seq::empty(),
                    raw.at("delta"@).at("stop_reason"@).text(),
                    Some(anthropic_usage(raw.at("usage"@))),
                    raw,
                ),
            ),
        )
    } else {
        Ok(None)
    }
}

pub open spec fn chunk_result(r: AppResult<Option<ChatStreamChunk>>) -> Result<
    Option<ChunkView>,
    Failure,
> {
    match r {
        Ok(Some(c)) => Ok(Some(c@)),
        Ok(None) => Ok(None),
        Err(e) => Err(e@),
    }
}

pub fn read_anthropic_chunk(raw: Json) -> (r: AppResult<Option<ChatStreamChunk>>)
    ensures
        chunk_result(r) == anthropic_chunk(raw@),
{
    proof {
        reveal_strlit("");
        assert(""@ =~= Seq::<char>::empty());
    }
    let kind = text_in_or(raw.get("type"), "");
    let k = kind.as_str();
    if str_eq(k, "error") {
        let message = match text_in(get_in(raw.get("error"), "message")) {
            Some(m) => m,
            None => text_in_or(raw.get("message"), "provider stream error"),
        };
        let error_type = text_in(get_in(raw.get("error"), "type"));
        if opt_eq(&error_type, "overloaded_error") {
            Err(AppError::new(EXIT_RATE_LIMIT, message.as_str()))
        } else {
            Err(AppError::new(EXIT_NETWORK, message.as_str()))
        }
    } else if str_eq(k, "message_start") {
        let usage = anthropic_usage_of(get_in(raw.get("message"), "usage"));
        Ok(Some(simple_chunk_of(String::new(), None, Some(usage), raw)))
    } else if str_eq(k, "content_block_delta") {
        let delta = raw.get("delta");
        let delta_type = text_in(get_in(delta, "type"));
        let text = if opt_eq(&delta_type, "text_delta") {
            text_in_or(get_in(delta, "text"), "")
        } else {
            String::new()
        };
        Ok(Some(simple_chunk_of(text, None, None, raw)))
    } else if str_eq(k, "message_delta") {
        let reason = text_in(get_in(raw.get("delta"), "stop_reason"));
        let usage = anthropic_usage_of(raw.get("usage"));
        Ok(Some(simple_chunk_of(String::new(), reason, Some(usage), raw)))
    } else {
        Ok(None)
    }
}

/// An event of an Ollama stream.
pub open spec fn ollama_chunk(raw: JsonView) -> Result<Option<ChunkView>, Failure> {
    match raw.at("error"@).text() {
        Some(e) => Err(failure(EXIT_NETWORK, e)),
        None => Ok(
            Some(
                simple_chunk(
                    raw.at("message"@).at("content"@).text_or(Seq::empty()),
                    if raw.at("done"@).flag() == Some(true) {
                        raw.at("done_reason"@).text()
                    } else {
                        None
                    },
                    ollama_usage(raw),
                    raw,
                ),
            ),
        ),
    }
}

pub fn read_ollama_chunk(raw: Json) -> (r: AppResult<Option<ChatStreamChunk>>)
    ensures
        chunk_result(r) == ollama_chunk(raw@),
{
    proof {
        reveal_strlit("");
        assert(""@ =~= Seq::<char>::empty());
    }
    if let Some(e) = text_in(raw.get("error")) {
        return Err(AppError::new(EXIT_NETWORK, e.as_str()));
    }
    let delta = text_in_or(get_in(raw.get("message"), "content"), "");
    let done = match flag_in(raw.get("done")) {
        Some(b) => b,
        None => false,
    };
    let reason = if done {
        text_in(raw.get("done_reason"))
    } else {
        None
    };
    let usage = extract_ollama_usage(&raw);
    Ok(Some(simple_chunk_of(delta, reason, usage, raw)))
}

pub open spec fn bad_event(m: Seq<char>) -> Failure {
    failure(EXIT_NETWORK, "failed to parse provider stream event: "@ + m)
}

/// The event that a payload of an OpenAI-compatible stream holds: none where it is blank or the
/// mark of the end.
pub open spec fn openai_payload(
    payload: Seq<char>,
    parsed: Result<JsonView, Seq<char>>,
) -> Result<Option<ChunkView>, Failure> {
    if is_blank(payload) || trimmed(payload) == "[DONE]"@ {
        Ok(None)
    } else {
        match parsed {
            Err(m) => Err(bad_event(m)),
            Ok(raw) => Ok(Some(openai_chunk(raw))),
        }
    }
}

fn bad_event_error(m: &String) -> (r: AppError)
    ensures
        r@ == bad_event(m@),
{
    let message = "failed to parse provider stream event: ".to_owned().concat(m.as_str());
    AppError::new(EXIT_NETWORK, message.as_str())
}

pub fn parse_openai_stream_payload(payload: &str) -> (r: AppResult<Option<ChatStreamChunk>>)
    ensures
        chunk_result(r) == openai_payload(payload@, parsed_json(payload@)),
{
    let t = trim(payload);
    if t.as_str().is_empty() || str_eq(t.as_str(), "[DONE]") {
        return Ok(None);
    }
    match parse_json(payload) {
        Err(m) => Err(bad_event_error(&m)),
        Ok(raw) => Ok(Some(read_openai_chunk(raw))),
    }
}

pub open spec fn anthropic_payload(
    payload: Seq<char>,
    parsed: Result<JsonView, Seq<char>>,
) -> Result<Option<ChunkView>, Failure> {
    if is_blank(payload) {
        Ok(None)
    } else {
        match parsed {
            Err(m) => Err(bad_event(m)),
            Ok(raw) => anthropic_chunk(raw),
        }
    }
}

pub fn parse_anthropic_stream_payload(payload: &str) -> (r: AppResult<Option<ChatStreamChunk>>)
    ensures
        chunk_result(r) == anthropic_payload(payload@, parsed_json(payload@)),
{
    if blank(payload) {
        return Ok(None);
    }
    match parse_json(payload) {
        Err(m) => Err(bad_event_error(&m)),
        Ok(raw) => read_anthropic_chunk(raw),
    }
}

pub open spec fn ollama_payload(
    payload: Seq<char>,
    parsed: Result<JsonView, Seq<char>>,
) -> Result<Option<ChunkView>, Failure> {
    if is_blank(payload) {
        Ok(None)
    } else {
        match parsed {
            Err(m) => Err(bad_event(m)),
            Ok(raw) => ollama_chunk(raw),
        }
    }
}

pub fn parse_ollama_stream_payload(payload: &str) -> (r: AppResult<Option<ChatStreamChunk>>)
    ensures
        chunk_result(r) == ollama_payload(payload@, parsed_json(payload@)),
{
    if blank(payload) {
        return Ok(None);
    }
    match parse_json(payload) {
        Err(m) => Err(bad_event_error(&m)),
        Ok(raw) => read_ollama_chunk(raw),
    }
}

// ---------------------------------------------------------------------------
// Gathering a streamed reply
// ---------------------------------------------------------------------------

/// A tool call that is being put together from its pieces.
#[derive(Debug)]
pub struct ToolCallDraft {
    pub id: String,
    pub name: String,
    pub arguments: String,
}

pub struct DraftCall {
    pub id: Seq<char>,
    pub name: Seq<char>,
    pub arguments: Seq<char>,
}

impl View for ToolCallDraft {
    type V = DraftCall;

    open spec fn view(&self) -> DraftCall {
        DraftCall { id: self.id@, name: self.name@, arguments: self.arguments@ }
    }
}

pub open spec fn draft_views(v: Seq<ToolCallDraft>) -> Seq<DraftCall> {
    v.map_values(|d: ToolCallDraft| d@)
}

pub open spec fn empty_call() -> DraftCall {
    DraftCall { id: Seq::empty(), name: Seq::empty(), arguments: Seq::empty() }
}

/// The place of the call that a piece belongs to.
pub open spec fn delta_index(d: JsonView) -> nat {
    match d.at("index"@).unsigned() {
        Some(n) => n as nat,
        None => 0,
    }
}

/// A list of calls, with empty ones added up to a length.
pub open spec fn grown(v: Seq<DraftCall>, len: nat) -> Seq<DraftCall>
    decreases len - v.len(),
{
    if v.len() < len {
        grown(v.push(empty_call()), len)
    } else {
        v
    }
}

/// A call with one more piece: an identifier replaces, a name and arguments are appended.
pub open spec fn call_with(c: DraftCall, d: JsonView) -> DraftCall {
    DraftCall {
        id: d.at("id"@).text_or(c.id),
        name: c.name + d.at("function"@).at("name"@).text_or(Seq::empty()),
        arguments: c.arguments + d.at("function"@).at("arguments"@).text_or(Seq::empty()),
    }
}

pub open spec fn calls_with(v: Seq<DraftCall>, d: JsonView) -> Seq<DraftCall> {
    let i = delta_index(d);
    let g = grown(v, i + 1);
    g.update(i as int, call_with(g[i as int], d))
}

pub open spec fn calls_with_all(v: Seq<DraftCall>, deltas: Seq<JsonView>) -> Seq<DraftCall>
    decreases deltas.len(),
{
    if deltas.len() == 0 {
        v
    } else {
        calls_with(calls_with_all(v, deltas.drop_last()), deltas.last())
    }
}

/// Whether the places of pieces can be reached by a list.
pub open spec fn deltas_fit(deltas: Seq<JsonView>) -> bool {
    forall|i: int| 0 <= i < deltas.len() ==> delta_index(#[trigger] deltas[i]) < usize::MAX
}

pub fn tool_deltas_fit(deltas: &Vec<Json>) -> (r: bool)
    ensures
        r == deltas_fit(jsons(deltas@)),
{
    let ghost src = jsons(deltas@);
    let mut i: usize = 0;
    while i < deltas.len()
        invariant
            i <= deltas@.len(),
            src == jsons(deltas@),
            forall|k: int| 0 <= k < i ==> delta_index(#[trigger] src[k]) < usize::MAX,
        decreases deltas@.len() - i,
    {
        proof {
            assert(src[i as int] == deltas@[i as int]@);
        }
        if let Some(n) = unsigned_in(deltas[i].get("index")) {
            if n >= usize::MAX as u64 {
                return false;
            }
        }
        i = i + 1;
    }
    true
}

proof fn lemma_grown(v: Seq<DraftCall>, len: nat)
    ensures
        grown(v, len).len() == if v.len() < len {
            len
        } else {
            v.len()
        },
    decreases len - v.len(),
{
    if v.len() < len {
        lemma_grown(v.push(empty_call()), len);
    }
}

fn add_delta(acc: &mut Vec<ToolCallDraft>, delta: &Json)
    requires
        delta_index(delta@) < usize::MAX,
    ensures
        draft_views(final(acc)@) == calls_with(draft_views(old(acc)@), delta@),
{
    let index: usize = match unsigned_in(delta.get("index")) {
        Some(n) => n as usize,
        None => 0,
    };
    let ghost start = draft_views(acc@);
    let ghost goal = grown(start, (index + 1) as nat);
    while acc.len() <= index
        invariant
            goal == grown(draft_views(acc@), (index + 1) as nat),
            index < usize::MAX,
        decreases index + 1 - acc@.len(),
    {
        let ghost before = draft_views(acc@);
        let empty = ToolCallDraft {
            id: String::new(),
            name: String::new(),
            arguments: String::new(),
        };
        acc.push(empty);
        proof {
            assert(empty@ == empty_call());
            assert(draft_views(acc@) =~= before.push(empty_call()));
        }
    }
    proof {
        assert(draft_views(acc@) == goal);
        assert(goal[index as int] == acc@[index as int]@);
    }
    let function = delta.get("function");
    let cur = &acc[index];
    let id = match text_in(delta.get("id")) {
        Some(t) => t,
        None => cur.id.clone(),
    };
    proof {
        reveal_strlit("");
        assert(""@ =~= Seq::<char>::empty());
    }
    let name = cur.name.clone().concat(text_in_or(get_in(function, "name"), "").as_str());
    let arguments = cur.arguments.clone().concat(
        text_in_or(get_in(function, "arguments"), "").as_str(),
    );
    let next = ToolCallDraft { id, name, arguments };
    let ghost full = acc@;
    acc.set(index, next);
    proof {
        assert(draft_views(acc@) =~= goal.update(index as int, next@));
    }
}

/// Accumulate streaming tool call pieces into complete tool calls.
pub fn accumulate_tool_calls(acc: &mut Vec<ToolCallDraft>, deltas: &Vec<Json>)
    requires
        deltas_fit(jsons(deltas@)),
    ensures
        draft_views(final(acc)@) == calls_with_all(draft_views(old(acc)@), jsons(deltas@)),
{
    let ghost src = jsons(deltas@);
    let mut i: usize = 0;
    while i < deltas.len()
        invariant
            i <= deltas@.len(),
            src == jsons(deltas@),
            deltas_fit(src),
            draft_views(acc@) == calls_with_all(draft_views(old(acc)@), src.take(i as int)),
        decreases deltas@.len() - i,
    {
        proof {
            lemma_take_step(src, i as int);
            assert(src[i as int] == deltas@[i as int]@);
        }
        add_delta(acc, &deltas[i]);
        i = i + 1;
    }
    proof {
        lemma_take_full(src);
    }
}

pub open spec fn call_json(c: DraftCall) -> JsonView {
    JsonView::Object(
        seq![
            ("id"@, JsonView::Str(c.id)),
            ("type"@, JsonView::Str("function"@)),
            (
                "function"@,
                JsonView::Object(
                    seq![
                        ("name"@, JsonView::Str(c.name)),
                        ("arguments"@, JsonView::Str(c.arguments)),
                    ],
                ),
            ),
        ],
    )
}

fn draft_json(d: &ToolCallDraft) -> (r: Json)
    ensures
        r@ == call_json(d@),
{
    object3(
        "id",
        json_text(d.id.as_str()),
        "type",
        json_text("function"),
        "function",
        object2(
            "name",
            json_text(d.name.as_str()),
            "arguments",
            json_text(d.arguments.as_str()),
        ),
    )
}

/// What was gathered of a streamed reply.
#[derive(Debug)]
pub struct StreamedReply {
    pub content: String,
    pub finish_reason: String,
    pub usage: Usage,
    pub raw_events: Vec<Json>,
    pub tool_calls: Vec<ToolCallDraft>,
    pub in_reasoning: bool,
}

pub struct Gathered {
    pub content: Seq<char>,
    pub finish_reason: Seq<char>,
    pub usage: Usage,
    pub raw_events: Seq<JsonView>,
    pub tool_calls: Seq<DraftCall>,
    pub in_reasoning: bool,
}

impl View for StreamedReply {
    type V = Gathered;

    open spec fn view(&self) -> Gathered {
        Gathered {
            content: self.content@,
            finish_reason: self.finish_reason@,
            usage: self.usage,
            raw_events: jsons(self.raw_events@),
            tool_calls: draft_views(self.tool_calls@),
            in_reasoning: self.in_reasoning,
        }
    }
}

/// What is gathered of an event.
pub open spec fn gather(g: Gathered, c: ChunkView) -> Gathered {
    Gathered {
        content: g.content + c.delta,
        finish_reason: or_text(c.finish_reason, g.finish_reason),
        usage: match c.usage {
            Some(u) => merged_usage(g.usage, u),
            None => g.usage,
        },
        raw_events: g.raw_events.push(c.raw),
        ..g
    }
}

/// An event of an OpenAI-compatible stream as it is handed on: its reasoning in a thinking block.
pub open spec fn with_reasoning(g: Gathered, c: ChunkView) -> (Gathered, ChunkView) {
    let (open, delta) = decorated(
        g.in_reasoning,
        or_text(reasoning_text(first_choice(c.raw).at("delta"@)), Seq::empty()),
        c.delta,
        c.finish_reason is Some,
    );
    (Gathered { in_reasoning: open, ..g }, ChunkView { delta, ..c })
}

/// The effect of an event of an OpenAI-compatible stream.
pub open spec fn gather_openai(g: Gathered, c: ChunkView) -> (Gathered, ChunkView) {
    let (h, d) = with_reasoning(g, c);
    let k = gather(h, d);
    (Gathered { tool_calls: calls_with_all(k.tool_calls, d.tool_calls), ..k }, d)
}

impl StreamedReply {
    /// Nothing gathered yet; a reply of Anthropic ends its turn, another one just stops.
    pub fn new(kind: &str) -> (r: StreamedReply)
        ensures
            r@ == (Gathered {
                content: Seq::empty(),
                finish_reason: if kind@ == "anthropic"@ {
                    "end_turn"@
                } else {
                    "stop"@
                },
                usage: no_usage(),
                raw_events: Seq::empty(),
                tool_calls: Seq::empty(),
                in_reasoning: false,
            }),
    {
        let r = StreamedReply {
            content: String::new(),
            finish_reason: if str_eq(kind, "anthropic") {
                "end_turn".to_owned()
            } else {
                "stop".to_owned()
            },
            usage: Usage::default(),
            raw_events: Vec::new(),
            tool_calls: Vec::new(),
            in_reasoning: false,
        };
        proof {
            assert(jsons(r.raw_events@) =~= Seq::<JsonView>::empty());
            assert(draft_views(r.tool_calls@) =~= Seq::<DraftCall>::empty());
        }
        r
    }

    /// Gathers an event.
    pub fn accumulate_stream_event(&mut self, event: &ChatStreamChunk)
        ensures
            final(self)@ == gather(old(self)@, event@),
    {
        self.content.append(event.delta.as_str());
        if let Some(reason) = &event.finish_reason {
            self.finish_reason = reason.clone();
        }
        if let Some(u) = &event.usage {
            let mut usage = self.usage;
            merge_usage(&mut usage, u);
            self.usage = usage;
        }
        let raw = clone_json(&event.raw);
        proof {
            lemma_jsons_push(self.raw_events@, raw);
        }
        self.raw_events.push(raw);
    }

    /// Gathers an event of an OpenAI-compatible stream and gives it as it is handed on.
    pub fn accumulate_openai(&mut self, event: ChatStreamChunk) -> (r: ChatStreamChunk)
        requires
            deltas_fit(event@.tool_calls),
        ensures
            (final(self)@, r@) == gather_openai(old(self)@, event@),
    {
        let mut event = event;
        let reasoning = extract_openai_reasoning_delta(&event.raw);
        let mut open = self.in_reasoning;
        let delta = match &event.finish_reason {
            Some(f) => decorate_openai_stream_delta(
                &mut open,
                reasoning.as_str(),
                event.delta.as_str(),
                Some(f.as_str()),
            ),
            None => decorate_openai_stream_delta(
                &mut open,
                reasoning.as_str(),
                event.delta.as_str(),
                None,
            ),
        };
        self.in_reasoning = open;
        event.delta = delta;
        self.accumulate_stream_event(&event);
        accumulate_tool_calls(&mut self.tool_calls, &event.tool_calls_delta);
        event
    }

    /// The reply that was gathered.
    pub fn into_response(self, origin: ReplyOrigin) -> (r: ChatResponse)
        ensures
            r@ == (ReplyView {
                provider_id: origin.provider_id@,
                model_id: origin.model_id@,
                content: self@.content,
                finish_reason: self@.finish_reason,
                usage: self@.usage,
                latency_ms: origin.latency_ms,
                raw: JsonView::Array(self@.raw_events),
                tool_calls: self@.tool_calls.map_values(|c: DraftCall| call_json(c)),
            }),
    {
        let ghost goal = self@.tool_calls.map_values(|c: DraftCall| call_json(c));
        let mut calls: Vec<Json> = Vec::new();
        let mut i: usize = 0;
        while i < self.tool_calls.len()
            invariant
                i <= self.tool_calls@.len(),
                goal == self@.tool_calls.map_values(|c: DraftCall| call_json(c)),
                jsons(calls@) == goal.take(i as int),
            decreases self.tool_calls@.len() - i,
        {
            let item = draft_json(&self.tool_calls[i]);
            proof {
                assert(self@.tool_calls[i as int] == self.tool_calls@[i as int]@);
                lemma_take_step(goal, i as int);
                lemma_jsons_push(calls@, item);
            }
            calls.push(item);
            i = i + 1;
        }
        proof {
            lemma_take_full(goal);
        }
        ChatResponse {
            provider_id: origin.provider_id,
            model_id: origin.model_id,
            content: self.content,
            finish_reason: self.finish_reason,
            usage: self.usage,
            latency_ms: origin.latency_ms,
            raw: array(self.raw_events),
            tool_calls: calls,
        }
    }
}

/// The effect of a payload on what was gathered, and the event that is handed on.
pub open spec fn payload_effect(
    kind: Seq<char>,
    g: Gathered,
    payload: Seq<char>,
    parsed: Result<JsonView, Seq<char>>,
) -> Result<(Gathered, Option<ChunkView>), Failure> {
    let event = if kind == "anthropic"@ {
        anthropic_payload(payload, parsed)
    } else if kind == "ollama"@ {
        ollama_payload(payload, parsed)
    } else {
        openai_payload(payload, parsed)
    };
    match event {
        Err(e) => Err(e),
        Ok(None) => Ok((g, None)),
        Ok(Some(c)) => if kind == "anthropic"@ || kind == "ollama"@ {
            Ok((gather(g, c), Some(c)))
        } else if !deltas_fit(c.tool_calls) {
            Err(failure(EXIT_NETWORK, "provider stream numbered a tool call out of range"@))
        } else {
            Ok((gather_openai(g, c).0, Some(gather_openai(g, c).1)))
        },
    }
}

/// Takes in one payload of a stream and gives the event to hand on.
pub fn stream_payload(kind: &str, state: &mut StreamedReply, payload: &str) -> (r: AppResult<
    Option<ChatStreamChunk>,
>)
    ensures
        match payload_effect(kind@, old(state)@, payload@, parsed_json(payload@)) {
            Err(e) => r matches Err(x) && x@ == e && final(state)@ == old(state)@,
            Ok((g, c)) => r is Ok && chunk_result(r) == Ok::<Option<ChunkView>, Failure>(c)
                && final(state)@ == g,
        },
{
    if str_eq(kind, "anthropic") {
        match parse_anthropic_stream_payload(payload)? {
            None => Ok(None),
            Some(event) => {
                state.accumulate_stream_event(&event);
                Ok(Some(event))
            },
        }
    } else if str_eq(kind, "ollama") {
        match parse_ollama_stream_payload(payload)? {
            None => Ok(None),
            Some(event) => {
                state.accumulate_stream_event(&event);
                Ok(Some(event))
            },
        }
    } else {
        match parse_openai_stream_payload(payload)? {
            None => Ok(None),
            Some(event) => {
                if !tool_deltas_fit(&event.tool_calls_delta) {
                    return Err(
                        AppError::new(
                            EXIT_NETWORK,
                            "provider stream numbered a tool call out of range",
                        ),
                    );
                }
                Ok(Some(state.accumulate_openai(event)))
            },
        }
    }
}

/// The answer that is gathered is the text that was handed on, piece by piece, and every event
/// that was handed on is kept.
pub proof fn law_gathered_was_handed_on(
    kind: Seq<char>,
    g: Gathered,
    payload: Seq<char>,
    parsed: Result<JsonView, Seq<char>>,
)
    ensures
        payload_effect(kind, g, payload, parsed) matches Ok((h, c)) ==> match c {
            Some(c) => h.content == g.content + c.delta && h.raw_events == g.raw_events.push(c.raw),
            None => h == g,
        },
{
}

// ---------------------------------------------------------------------------
// A stream of reasoning and answers
// ---------------------------------------------------------------------------

/// A piece of the text that is handed on: a tag, or something that was said.
pub enum Piece {
    Open,
    Close,
    Said(Seq<char>),
}

pub open spec fn piece_text(p: Piece) -> Seq<char> {
    match p {
        Piece::Open => "<think>\n"@,
        Piece::Close => "</think>\n\n"@,
        Piece::Said(s) => s,
    }
}

/// The text of pieces, one after the other.
pub open spec fn pieces_text(v: Seq<Piece>) -> Seq<char>
    decreases v.len(),
{
    if v.len() == 0 {
        Seq::empty()
    } else {
        pieces_text(v.drop_last()) + piece_text(v.last())
    }
}

/// The text of pieces without their tags.
pub open spec fn untagged(v: Seq<Piece>) -> Seq<char>
    decreases v.len(),
{
    if v.len() == 0 {
        Seq::empty()
    } else {
        match v.last() {
            Piece::Said(s) => untagged(v.drop_last()) + s,
            _ => untagged(v.drop_last()),
        }
    }
}

/// Whether a block is open behind pieces whose tags alternate, an opening one first. None where
/// they do not.
pub open spec fn nesting(v: Seq<Piece>) -> Option<bool>
    decreases v.len(),
{
    if v.len() == 0 {
        Some(false)
    } else {
        match (nesting(v.drop_last()), v.last()) {
            (Some(open), Piece::Said(_)) => Some(open),
            (Some(false), Piece::Open) => Some(true),
            (Some(true), Piece::Close) => Some(false),
            _ => None,
        }
    }
}

/// How many opening tags there are more than closing ones.
pub open spec fn depth(v: Seq<Piece>) -> int
    decreases v.len(),
{
    if v.len() == 0 {
        0
    } else {
        depth(v.drop_last()) + match v.last() {
            Piece::Open => 1int,
            Piece::Close => -1int,
            Piece::Said(_) => 0int,
        }
    }
}

/// What one event of a stream says.
pub struct SaidDelta {
    pub reasoning: Seq<char>,
    pub answer: Seq<char>,
    pub finished: bool,
}

/// The text of events handed on one after the other, and whether a block is open behind it.
pub open spec fn decorated_all(v: Seq<SaidDelta>) -> (bool, Seq<char>)
    decreases v.len(),
{
    if v.len() == 0 {
        (false, Seq::empty())
    } else {
        let (open, out) = decorated_all(v.drop_last());
        let d = v.last();
        let (next, more) = decorated(open, d.reasoning, d.answer, d.finished);
        (next, out + more)
    }
}

/// The answer of an event; a control delta is none.
pub open spec fn answer_said(d: SaidDelta) -> Seq<char> {
    if control_delta(d.answer) {
        Seq::empty()
    } else {
        d.answer
    }
}

/// All that was said, reasoning and answers in their order, without control deltas.
pub open spec fn all_said(v: Seq<SaidDelta>) -> Seq<char>
    decreases v.len(),
{
    if v.len() == 0 {
        Seq::empty()
    } else {
        all_said(v.drop_last()) + v.last().reasoning + answer_said(v.last())
    }
}

/// The pieces of the text of events.
pub open spec fn all_pieces(v: Seq<SaidDelta>) -> Seq<Piece>
    decreases v.len(),
{
    if v.len() == 0 {
        Seq::empty()
    } else {
        let open = decorated_all(v.drop_last()).0;
        let d = v.last();
        let opened = if !open && d.reasoning.len() > 0 {
            all_pieces(v.drop_last()).push(Piece::Open)
        } else {
            all_pieces(v.drop_last())
        };
        let reasoned = opened.push(Piece::Said(d.reasoning));
        let closed = if (open || d.reasoning.len() > 0) && (answer_said(d).len() > 0 || d.finished) {
            reasoned.push(Piece::Close)
        } else {
            reasoned
        };
        closed.push(Piece::Said(answer_said(d)))
    }
}

proof fn lemma_piece_push(v: Seq<Piece>, p: Piece)
    ensures
        pieces_text(v.push(p)) == pieces_text(v) + piece_text(p),
        untagged(v.push(p)) == match p {
            Piece::Said(s) => untagged(v) + s,
            _ => untagged(v),
        },
        nesting(v.push(p)) == match (nesting(v), p) {
            (Some(open), Piece::Said(_)) => Some(open),
            (Some(false), Piece::Open) => Some(true),
            (Some(true), Piece::Close) => Some(false),
            _ => None,
        },
        depth(v.push(p)) == depth(v) + match p {
            Piece::Open => 1int,
            Piece::Close => -1int,
            Piece::Said(_) => 0int,
        },
{
    assert(v.push(p).drop_last() =~= v);
}

/// However reasoning and answers come in, the text that is handed on consists of what was said,
/// in order, and of tags that alternate, an opening one first. A block is open behind it exactly
/// where there was one opening tag more than closing ones, and none is behind an end. Nothing
/// that was said is lost but control deltas.
pub proof fn law_reasoning_is_enclosed(v: Seq<SaidDelta>)
    ensures
        decorated_all(v).1 == pieces_text(all_pieces(v)),
        nesting(all_pieces(v)) == Some(decorated_all(v).0),
        depth(all_pieces(v)) == if decorated_all(v).0 {
            1int
        } else {
            0
        },
        untagged(all_pieces(v)) == all_said(v),
        v.len() > 0 && v.last().finished ==> !decorated_all(v).0,
    decreases v.len(),
{
    if v.len() > 0 {
        let before = v.drop_last();
        law_reasoning_is_enclosed(before);
        let (open, out) = decorated_all(before);
        let d = v.last();
        let base = all_pieces(before);
        let opened = if !open && d.reasoning.len() > 0 {
            base.push(Piece::Open)
        } else {
            base
        };
        lemma_piece_push(base, Piece::Open);
        let reasoned = opened.push(Piece::Said(d.reasoning));
        lemma_piece_push(opened, Piece::Said(d.reasoning));
        let closes = (open || d.reasoning.len() > 0) && (answer_said(d).len() > 0 || d.finished);
        let closed = if closes {
            reasoned.push(Piece::Close)
        } else {
            reasoned
        };
        lemma_piece_push(reasoned, Piece::Close);
        lemma_piece_push(closed, Piece::Said(answer_said(d)));
        assert(all_pieces(v) == closed.push(Piece::Said(answer_said(d))));
        assert(out + decorated(open, d.reasoning, d.answer, d.finished).1 =~= pieces_text(
            all_pieces(v),
        ));
    }
}

} // verus!
