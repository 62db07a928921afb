//! The review of tool calls by a second model.

use crate::actions::effects_name;
use crate::activity::{
    parallelism_name, side_effects_name, summarize_tool_call, summary_of_call,
    tool_call_side_effects_label, tool_parallelism_label, tool_side_effects_label,
    truncate_tool_call_id,
};
use crate::ansi::{CYAN, DIM, GREEN, RED, RESET};
use crate::chat::{
    ChatMessage, ChatRequest, ChatResponse, MessageView, ReplyView, message_views,
    plain_message,
};
use crate::config::{
    AppConfig, ModelConfig, ModelView, ProviderConfig, ProviderView, SecretsConfig,
    expand_tilde, expanded, flag_or, or_flag, or_text, text_result,
};
use crate::error::{AppError, AppResult, EXIT_CONFIG, EXIT_MODEL, EXIT_PROVIDER, Failure, failure};
use crate::json::{
    Json, JsonView, array, clone_json, field_views, has_field, json_text, jsons,
    lemma_array_view, lemma_jsons_push, lemma_object_view, object, object3, opt_json,
    parse_json, parsed_json, pretty_json, print_json_pretty, text_in,
};
use crate::media::{after_last, last_index, lemma_last_index};
use crate::session::{SessionAudit, SessionEvent, StoredAudit, StoredEvent, Usage, no_usage};
use crate::table::Table;
use crate::target::{key_of, provider_named, resolve_api_key, written};
use crate::text::{
    ascii_lower, blank, chars_of, clone_opt, decimal, decimal_string, find_chars, find_text,
    is_space, lemma_find_from, lemma_take_full, lemma_take_step, lemma_trimmed_len, opt_str,
    opt_text, prefix_chars, preview, preview_string, str_eq, substring, texts, to_ascii_lower,
    trim, trimmed, trimmed_end, trimmed_start,
};
use crate::tools::{
    CallView, ToolCall, ToolSideEffects, call_effects, call_of, call_result,
    needs_confirmation, parse_tool_call, tool_call_requires_confirmation,
    tool_call_side_effects,
};
use vstd::prelude::*;

verus! {

#[derive(Debug, Clone, Copy, PartialEq, Eq, Structural)]
pub enum AuditPromptKind {
    Default,
    Bash,
    Edit,
}

pub open spec fn prompt_kind(name: Seq<char>) -> AuditPromptKind {
    if name == "Bash"@ || name == "bash"@ {
        AuditPromptKind::Bash
    } else if name == "Edit"@ || name == "edit"@ || name == "Write"@ || name == "write"@ {
        AuditPromptKind::Edit
    } else {
        AuditPromptKind::Default
    }
}

pub fn audit_prompt_kind(call: &ToolCall) -> (r: AuditPromptKind)
    ensures
        r == prompt_kind(call@.name),
{
    let n = call.name.as_str();
    if str_eq(n, "Bash") || str_eq(n, "bash") {
        AuditPromptKind::Bash
    } else if str_eq(n, "Edit") || str_eq(n, "edit") || str_eq(n, "Write") || str_eq(n, "write") {
        AuditPromptKind::Edit
    } else {
        AuditPromptKind::Default
    }
}

pub open spec fn prompt_file(c: AppConfig, kind: AuditPromptKind) -> Option<Seq<char>> {
    match kind {
        AuditPromptKind::Default => opt_text(c.audit.default_prompt_file),
        AuditPromptKind::Bash => opt_text(c.audit.bash_prompt_file),
        AuditPromptKind::Edit => opt_text(c.audit.edit_prompt_file),
    }
}

pub fn audit_prompt_path(config: &AppConfig, kind: AuditPromptKind) -> (r: Option<String>)
    ensures
        opt_text(r) == prompt_file(*config, kind),
{
    match kind {
        AuditPromptKind::Default => clone_opt(&config.audit.default_prompt_file),
        AuditPromptKind::Bash => clone_opt(&config.audit.bash_prompt_file),
        AuditPromptKind::Edit => clone_opt(&config.audit.edit_prompt_file),
    }
}

pub open spec fn prompt_label(kind: AuditPromptKind) -> Seq<char> {
    match kind {
        AuditPromptKind::Default => "audit.default_prompt_file"@,
        AuditPromptKind::Bash => "audit.bash_prompt_file"@,
        AuditPromptKind::Edit => "audit.edit_prompt_file"@,
    }
}

pub fn audit_prompt_label(kind: AuditPromptKind) -> (r: &'static str)
    ensures
        r@ == prompt_label(kind),
{
    match kind {
        AuditPromptKind::Default => "audit.default_prompt_file",
        AuditPromptKind::Bash => "audit.bash_prompt_file",
        AuditPromptKind::Edit => "audit.edit_prompt_file",
    }
}

/// Where the prompt for a kind of calls stands.
pub open spec fn prompt_place(c: AppConfig, kind: AuditPromptKind, home: Option<Seq<char>>) -> Result<
    Seq<char>,
    Failure,
> {
    match prompt_file(c, kind) {
        Some(p) => Ok(expanded(p, home)),
        None => Err(
            failure(
                EXIT_CONFIG,
                "missing configured audit prompt path `"@ + prompt_label(kind) + "`"@,
            ),
        ),
    }
}

/// Where the prompt for a kind of calls is to be read.
pub fn audit_prompt_place(config: &AppConfig, kind: AuditPromptKind, home: &Option<String>) -> (r:
    AppResult<String>)
    ensures
        text_result(r) == prompt_place(*config, kind, opt_text(*home)),
{
    match audit_prompt_path(config, kind) {
        Some(p) => Ok(expand_tilde(p.as_str(), home)),
        None => {
            let message = "missing configured audit prompt path `".to_owned().concat(
                audit_prompt_label(kind),
            ).concat("`");
            Err(AppError::new(EXIT_CONFIG, message.as_str()))
        },
    }
}

/// The prompt for a kind of calls, given the file that it stands in and what reading it gave:
/// its text, or the message of an error.
pub fn load_audit_prompt(place: &str, content: Result<String, String>) -> (r: AppResult<String>)
    ensures
        match content {
            Ok(t) => r matches Ok(p) && p@ == t@,
            Err(e) => r matches Err(f) && f@ == failure(
                EXIT_CONFIG,
                "failed to read audit prompt file `"@ + place@ + "`: "@ + e@,
            ),
        },
{
    match content {
        Ok(t) => Ok(t),
        Err(e) => {
            let message = "failed to read audit prompt file `".to_owned().concat(place).concat(
                "`: ",
            ).concat(e.as_str());
            Err(AppError::new(EXIT_CONFIG, message.as_str()))
        },
    }
}

// ---------------------------------------------------------------------------
// What is handed to the auditor
// ---------------------------------------------------------------------------

pub open spec fn summaries(v: Seq<JsonView>) -> Seq<JsonView> {
    v.map_values(|j: JsonView| summary_of_call(j, call_of(j)))
}

/// What the auditor is told of a message.
pub open spec fn message_digest(m: MessageView) -> Seq<(Seq<char>, JsonView)> {
    let role = seq![("role"@, JsonView::Str(m.role))];
    let name = match m.name {
        Some(n) => seq![
            ("name"@, JsonView::Str(n)),
            ("side_effects"@, JsonView::Str(side_effects_name(n))),
            ("parallelism"@, JsonView::Str(parallelism_name(n))),
        ],
        None => Seq::empty(),
    };
    let id = match m.tool_call_id {
        Some(i) => seq![("tool_call_id"@, JsonView::Str(i))],
        None => Seq::empty(),
    };
    let calls = match m.tool_calls {
        Some(v) => seq![("tool_calls"@, JsonView::Array(summaries(v)))],
        None => Seq::empty(),
    };
    let content = if m.content.len() > 0 {
        seq![
            (
                "content_preview"@,
                JsonView::Str(
                    preview(
                        m.content,
                        if m.role == "tool"@ {
                            1200
                        } else {
                            2000
                        },
                    ),
                ),
            ),
        ]
    } else {
        Seq::empty()
    };
    role + name + id + calls + content
}

fn summaries_of(v: &Vec<Json>) -> (r: Json)
    ensures
        r@ == JsonView::Array(summaries(jsons(v@))),
{
    let ghost src = jsons(v@);
    let mut out: Vec<Json> = Vec::new();
    let mut i: usize = 0;
    proof {
        assert(jsons(out@) =~= summaries(src).take(0));
    }
    while i < v.len()
        invariant
            i <= v@.len(),
            src == jsons(v@),
            jsons(out@) == summaries(src).take(i as int),
        decreases v@.len() - i,
    {
        let item = summarize_tool_call(&v[i]);
        proof {
            assert(src[i as int] == v@[i as int]@);
            lemma_take_step(summaries(src), i as int);
            lemma_jsons_push(out@, item);
        }
        out.push(item);
        i = i + 1;
    }
    proof {
        lemma_take_full(summaries(src));
    }
    array(out)
}

fn digest_of(m: &ChatMessage) -> (r: Json)
    ensures
        r@ == JsonView::Object(message_digest(m@)),
{
    let mut f: Vec<(String, Json)> = Vec::new();
    f.push(("role".to_owned(), json_text(m.role.as_str())));
    if let Some(n) = &m.name {
        f.push(("name".to_owned(), json_text(n.as_str())));
        f.push(("side_effects".to_owned(), json_text(tool_side_effects_label(n.as_str()))));
        f.push(("parallelism".to_owned(), json_text(tool_parallelism_label(n.as_str()))));
    }
    if let Some(id) = &m.tool_call_id {
        f.push(("tool_call_id".to_owned(), json_text(id.as_str())));
    }
    if let Some(v) = &m.tool_calls {
        f.push(("tool_calls".to_owned(), summaries_of(v)));
    }
    if !m.content.as_str().is_empty() {
        let limit: usize = if str_eq(m.role.as_str(), "tool") {
            1200
        } else {
            2000
        };
        let text = preview_string(m.content.as_str(), limit);
        f.push(("content_preview".to_owned(), json_text(text.as_str())));
    }
    proof {
        assert(field_views(f@) =~= message_digest(m@));
    }
    object(f)
}

/// What the auditor is told of a call that is to be judged.
pub open spec fn call_digest(c: CallView) -> JsonView {
    JsonView::Object(
        seq![
            ("id"@, JsonView::Str(c.id)),
            ("name"@, JsonView::Str(c.name)),
            ("arguments"@, c.arguments),
            ("side_effects"@, JsonView::Str(effects_name(call_effects(c)))),
            ("parallelism"@, JsonView::Str(parallelism_name(c.name))),
            ("requires_confirmation"@, JsonView::Bool(needs_confirmation(c))),
        ],
    )
}

fn call_digest_of(c: &ToolCall) -> (r: Json)
    ensures
        r@ == call_digest(c@),
{
    let mut f: Vec<(String, Json)> = Vec::new();
    f.push(("id".to_owned(), json_text(c.id.as_str())));
    f.push(("name".to_owned(), json_text(c.name.as_str())));
    f.push(("arguments".to_owned(), clone_json(&c.arguments)));
    f.push(("side_effects".to_owned(), json_text(tool_call_side_effects_label(c))));
    f.push(("parallelism".to_owned(), json_text(tool_parallelism_label(c.name.as_str()))));
    f.push(("requires_confirmation".to_owned(), Json::Bool(tool_call_requires_confirmation(c))));
    proof {
        assert(field_views(f@) =~= call_digest(c@)->Object_0);
    }
    object(f)
}

pub open spec fn call_views(v: Seq<ToolCall>) -> Seq<CallView> {
    v.map_values(|c: ToolCall| c@)
}

/// The last eight of some messages.
pub open spec fn last_messages(v: Seq<MessageView>) -> Seq<MessageView> {
    if v.len() > 8 {
        v.skip(v.len() - 8)
    } else {
        v
    }
}

/// Everything that the auditor is told.
pub open spec fn review_payload(
    session_id: Seq<char>,
    transcript: Seq<MessageView>,
    calls: Seq<CallView>,
) -> JsonView {
    JsonView::Object(
        seq![
            ("session_id"@, JsonView::Str(session_id)),
            ("tool_calls"@, JsonView::Array(calls.map_values(|c: CallView| call_digest(c)))),
            (
                "transcript"@,
                JsonView::Array(
                    last_messages(transcript).map_values(
                        |m: MessageView| JsonView::Object(message_digest(m)),
                    ),
                ),
            ),
        ],
    )
}

fn call_digests_of(calls: &Vec<ToolCall>) -> (r: Json)
    ensures
        r@ == JsonView::Array(call_views(calls@).map_values(|c: CallView| call_digest(c))),
{
    let ghost goal = call_views(calls@).map_values(|c: CallView| call_digest(c));
    let mut out: Vec<Json> = Vec::new();
    let mut i: usize = 0;
    proof {
        assert(jsons(out@) =~= goal.take(0));
    }
    while i < calls.len()
        invariant
            i <= calls@.len(),
            goal == call_views(calls@).map_values(|c: CallView| call_digest(c)),
            jsons(out@) == goal.take(i as int),
        decreases calls@.len() - i,
    {
        let item = call_digest_of(&calls[i]);
        proof {
            assert(call_views(calls@)[i as int] == calls@[i as int]@);
            lemma_take_step(goal, i as int);
            lemma_jsons_push(out@, item);
        }
        out.push(item);
        i = i + 1;
    }
    proof {
        lemma_take_full(goal);
    }
    array(out)
}

fn digests_of(transcript: &[ChatMessage]) -> (r: Json)
    ensures
        r@ == JsonView::Array(
            last_messages(message_views(transcript@)).map_values(
                |m: MessageView| JsonView::Object(message_digest(m)),
            ),
        ),
{
    let n: usize = transcript.len();
    let start: usize = n.saturating_sub(8);
    let ghost kept = last_messages(message_views(transcript@));
    let ghost goal = kept.map_values(|m: MessageView| JsonView::Object(message_digest(m)));
    let mut out: Vec<Json> = Vec::new();
    let mut i: usize = start;
    proof {
        assert(jsons(out@) =~= goal.take(0));
    }
    while i < n
        invariant
            start <= i <= n,
            n == transcript@.len(),
            start == if n > 8 {
                n - 8
            } else {
                0
            },
            kept == last_messages(message_views(transcript@)),
            goal == kept.map_values(|m: MessageView| JsonView::Object(message_digest(m))),
            jsons(out@) == goal.take(i - start),
        decreases n - i,
    {
        let item = digest_of(&transcript[i]);
        proof {
            assert(message_views(transcript@)[i as int] == transcript@[i as int]@);
            assert(kept[i - start] == transcript@[i as int]@);
            lemma_take_step(goal, i - start);
            lemma_jsons_push(out@, item);
        }
        out.push(item);
        i = i + 1;
    }
    proof {
        lemma_take_full(goal);
    }
    array(out)
}

pub fn build_tool_review_payload(
    session_id: &str,
    transcript: &[ChatMessage],
    calls: &Vec<ToolCall>,
) -> (r: Json)
    ensures
        r@ == review_payload(session_id@, message_views(transcript@), call_views(calls@)),
{
    object3(
        "session_id",
        json_text(session_id),
        "tool_calls",
        call_digests_of(calls),
        "transcript",
        digests_of(transcript),
    )
}

// ---------------------------------------------------------------------------
// What comes back
// ---------------------------------------------------------------------------

/// The part of a text from the first opening brace to the last closing one.
pub open spec fn braces(s: Seq<char>) -> Option<Seq<char>> {
    match find_text(s, "{"@) {
        Some(start) => {
            let end = last_index(s, '}');
            if end >= start {
                Some(s.subrange(start, end + 1))
            } else {
                None
            }
        },
        None => None,
    }
}

/// The part of a text from the first opening brace to the last closing one.
pub fn extract_json_object(text: &str) -> (r: Option<String>)
    ensures
        opt_text(r) == braces(text@),
{
    let c = chars_of(text);
    let p = chars_of("{");
    proof {
        lemma_last_index(text@, '}');
        reveal_strlit("{");
        lemma_find_from(text@, "{"@, 0);
    }
    let start: usize = match find_chars(c.as_slice(), p.as_slice(), 0) {
        Some(i) => i,
        None => {
            return None;
        },
    };
    let end: usize = after_last(c.as_slice(), '}');
    if end > start {
        Some(substring(c.as_slice(), start, end))
    } else {
        None
    }
}

pub open spec fn verdict_of(verdict: Option<Seq<char>>) -> Seq<char> {
    let v = ascii_lower(trimmed(or_text(verdict, "warning"@)));
    if v.len() == 0 {
        "warning"@
    } else {
        v
    }
}

pub fn normalize_audit_verdict(verdict: Option<&str>) -> (r: String)
    ensures
        r@ == verdict_of(opt_str(verdict)),
{
    let given = match verdict {
        Some(v) => v,
        None => "warning",
    };
    let v = to_ascii_lower(trim(given).as_str());
    if v.as_str().is_empty() {
        "warning".to_owned()
    } else {
        v
    }
}

/// What the auditor said of one call.
#[derive(Debug)]
pub struct AuditAgentItem {
    pub id: String,
    pub verdict: Option<String>,
    pub message: Option<String>,
}

pub struct AgentItemView {
    pub id: Seq<char>,
    pub verdict: Option<Seq<char>>,
    pub message: Option<Seq<char>>,
}

impl View for AuditAgentItem {
    type V = AgentItemView;

    open spec fn view(&self) -> AgentItemView {
        AgentItemView {
            id: self.id@,
            verdict: opt_text(self.verdict),
            message: opt_text(self.message),
        }
    }
}

pub open spec fn agent_items(v: Seq<AuditAgentItem>) -> Seq<AgentItemView> {
    v.map_values(|i: AuditAgentItem| i@)
}

/// Whether a value is a text or missing.
pub open spec fn text_or_null(j: JsonView) -> bool {
    j is Str || j is Null
}

pub open spec fn agent_item_with(id: JsonView, verdict: JsonView, message: JsonView) -> Option<
    AgentItemView,
> {
    if id is Str && text_or_null(verdict) && text_or_null(message) {
        Some(
            AgentItemView { id: id->Str_0, verdict: verdict.text(), message: message.text() },
        )
    } else {
        None
    }
}

/// What a value says of a call: an object with its fields, or a list of the three in order.
pub open spec fn agent_item(j: JsonView) -> Option<AgentItemView> {
    match j {
        JsonView::Object(_) => agent_item_with(j.at("id"@), j.at("verdict"@), j.at("message"@)),
        JsonView::Array(v) => if v.len() == 3 {
            agent_item_with(v[0], v[1], v[2])
        } else {
            None
        },
        _ => None,
    }
}

pub open spec fn all_agent_items(v: Seq<JsonView>) -> Option<Seq<AgentItemView>>
    decreases v.len(),
{
    if v.len() == 0 {
        Some(Seq::empty())
    } else {
        match (all_agent_items(v.drop_last()), agent_item(v.last())) {
            (Some(before), Some(i)) => Some(before.push(i)),
            _ => None,
        }
    }
}

pub open spec fn listed_items(j: JsonView) -> Option<Seq<AgentItemView>> {
    match j {
        JsonView::Array(v) => all_agent_items(v),
        _ => None,
    }
}

/// What the auditor said of all calls: the results of an object, or the first of a list.
pub open spec fn agent_results(j: JsonView) -> Option<Seq<AgentItemView>> {
    match j {
        JsonView::Object(f) => if has_field(f, "results"@) {
            listed_items(j.at("results"@))
        } else {
            Some(Seq::empty())
        },
        JsonView::Array(v) => if v.len() == 0 {
            Some(Seq::empty())
        } else if v.len() == 1 {
            listed_items(v[0])
        } else {
            None
        },
        _ => None,
    }
}

pub open spec fn opt_agent_item(r: Option<AuditAgentItem>) -> Option<AgentItemView> {
    match r {
        Some(i) => Some(i@),
        None => None,
    }
}

pub open spec fn opt_agent_items(r: Option<Vec<AuditAgentItem>>) -> Option<Seq<AgentItemView>> {
    match r {
        Some(v) => Some(agent_items(v@)),
        None => None,
    }
}

fn optional_text(j: Option<&Json>) -> (r: Option<Option<String>>)
    ensures
        match r {
            Some(t) => text_or_null(opt_json(j)) && opt_text(t) == opt_json(j).text(),
            None => !text_or_null(opt_json(j)),
        },
{
    match j {
        None => Some(None),
        Some(Json::Null) => Some(None),
        Some(Json::Str(s)) => Some(Some(s.clone())),
        _ => None,
    }
}

fn agent_item_from(id: Option<&Json>, verdict: Option<&Json>, message: Option<&Json>) -> (r: Option<
    AuditAgentItem,
>)
    ensures
        opt_agent_item(r) == agent_item_with(opt_json(id), opt_json(verdict), opt_json(message)),
{
    match (text_in(id), optional_text(verdict), optional_text(message)) {
        (Some(id), Some(verdict), Some(message)) => Some(AuditAgentItem { id, verdict, message }),
        _ => None,
    }
}

fn agent_item_of(j: &Json) -> (r: Option<AuditAgentItem>)
    ensures
        opt_agent_item(r) == agent_item(j@),
{
    match j {
        Json::Object(f) => {
            proof {
                lemma_object_view(*f);
            }
            agent_item_from(j.get("id"), j.get("verdict"), j.get("message"))
        },
        Json::Array(v) => {
            proof {
                lemma_array_view(*v);
            }
            if v.len() == 3 {
                proof {
                    assert(jsons(v@)[0] == v@[0]@);
                    assert(jsons(v@)[1] == v@[1]@);
                    assert(jsons(v@)[2] == v@[2]@);
                }
                agent_item_from(Some(&v[0]), Some(&v[1]), Some(&v[2]))
            } else {
                None
            }
        },
        _ => None,
    }
}

proof fn lemma_agent_items_fail(v: Seq<JsonView>, i: int)
    requires
        0 <= i < v.len(),
        agent_item(v[i]) is None,
    ensures
        all_agent_items(v) is None,
    decreases v.len(),
{
    if i < v.len() - 1 {
        lemma_agent_items_fail(v.drop_last(), i);
    }
}

fn listed_items_of(j: &Json) -> (r: Option<Vec<AuditAgentItem>>)
    ensures
        opt_agent_items(r) == listed_items(j@),
{
    let v = match j {
        Json::Array(v) => v,
        _ => {
            return None;
        },
    };
    proof {
        lemma_array_view(*v);
    }
    let ghost src = jsons(v@);
    let mut out: Vec<AuditAgentItem> = Vec::new();
    let mut i: usize = 0;
    proof {
        assert(agent_items(out@) =~= Seq::<AgentItemView>::empty());
    }
    while i < v.len()
        invariant
            i <= v@.len(),
            src == jsons(v@),
            j@ == JsonView::Array(src),
            all_agent_items(src.take(i as int)) == Some(agent_items(out@)),
        decreases v@.len() - i,
    {
        proof {
            lemma_take_step(src, i as int);
            assert(src[i as int] == v@[i as int]@);
        }
        match agent_item_of(&v[i]) {
            Some(t) => {
                proof {
                    assert(agent_items(out@.push(t)) =~= agent_items(out@).push(t@));
                }
                out.push(t);
            },
            None => {
                proof {
                    lemma_agent_items_fail(src, i as int);
                }
                return None;
            },
        }
        i = i + 1;
    }
    proof {
        lemma_take_full(src);
    }
    Some(out)
}

/// Reads what the auditor said from a value.
pub fn read_agent_results(j: &Json) -> (r: Option<Vec<AuditAgentItem>>)
    ensures
        opt_agent_items(r) == agent_results(j@),
{
    let none: Vec<AuditAgentItem> = Vec::new();
    proof {
        assert(agent_items(none@) =~= Seq::<AgentItemView>::empty());
    }
    match j {
        Json::Object(f) => {
            proof {
                lemma_object_view(*f);
            }
            match j.get("results") {
                Some(v) => listed_items_of(v),
                None => Some(none),
            }
        },
        Json::Array(v) => {
            proof {
                lemma_array_view(*v);
            }
            if v.len() == 0 {
                Some(none)
            } else if v.len() == 1 {
                proof {
                    assert(jsons(v@)[0] == v@[0]@);
                }
                listed_items_of(&v[0])
            } else {
                None
            }
        },
        _ => None,
    }
}

/// What a text says of the calls, given what it reads as.
pub open spec fn results_of(parsed: Result<JsonView, Seq<char>>) -> Option<Seq<AgentItemView>> {
    match parsed {
        Ok(j) => agent_results(j),
        Err(_) => None,
    }
}

/// What an answer says of the calls: read whole, else the part within braces.
pub open spec fn answer_results(content: Seq<char>) -> Option<Seq<AgentItemView>> {
    match results_of(parsed_json(content)) {
        Some(v) => Some(v),
        None => match braces(content) {
            Some(part) => results_of(parsed_json(part)),
            None => None,
        },
    }
}

fn results_in(text: &str) -> (r: Option<Vec<AuditAgentItem>>)
    ensures
        opt_agent_items(r) == results_of(parsed_json(text@)),
{
    match parse_json(text) {
        Ok(j) => read_agent_results(&j),
        Err(_) => None,
    }
}

/// The verdict on a call.
#[derive(Debug)]
pub struct AuditReport {
    pub provider: String,
    pub model: String,
    pub verdict: String,
    pub message: String,
    pub latency_ms: u64,
    pub usage: Usage,
}

pub struct ReportView {
    pub provider: Seq<char>,
    pub model: Seq<char>,
    pub verdict: Seq<char>,
    pub message: Seq<char>,
    pub latency_ms: u64,
    pub usage: Usage,
}

impl View for AuditReport {
    type V = ReportView;

    open spec fn view(&self) -> ReportView {
        ReportView {
            provider: self.provider@,
            model: self.model@,
            verdict: self.verdict@,
            message: self.message@,
            latency_ms: self.latency_ms,
            usage: self.usage,
        }
    }
}

/// The verdicts on several calls, by the identifiers of the calls.
#[derive(Debug)]
pub struct BatchAuditDecision {
    pub reports: Table<AuditReport>,
}

impl BatchAuditDecision {
    pub open spec fn wf(&self) -> bool {
        self.reports.wf()
    }

    /// The verdict on a call.
    pub open spec fn on(&self, id: Seq<char>) -> Option<ReportView> {
        match self.reports.lookup(id) {
            Some(r) => Some(r@),
            None => None,
        }
    }
}

pub open spec fn has_call(v: Seq<CallView>, id: Seq<char>) -> bool {
    exists|i: int| 0 <= i < v.len() && (#[trigger] v[i]).id == id
}

/// What was said of a call, first.
pub open spec fn item_for(v: Seq<AgentItemView>, id: Seq<char>, i: int) -> Option<AgentItemView>
    decreases v.len() - i,
{
    if i < 0 || i >= v.len() {
        None
    } else if v[i].id == id {
        Some(v[i])
    } else {
        item_for(v, id, i + 1)
    }
}

/// The message on a call: the start of what was said, if anything was.
pub open spec fn audit_message(item: Option<AgentItemView>) -> Seq<char> {
    match item {
        Some(i) => match written(i.message) {
            Some(m) => preview(m, 72),
            None => "需人工确认"@,
        },
        None => "需人工确认"@,
    }
}

/// The verdict on a call, given what the auditor said. A call that it said nothing of, and all
/// calls where its answer cannot be read, are to be looked at.
pub open spec fn report_on(
    response: ReplyView,
    results: Option<Seq<AgentItemView>>,
    id: Seq<char>,
) -> ReportView {
    let (verdict, message) = match results {
        Some(v) => {
            let item = item_for(v, id, 0);
            (
                match item {
                    Some(i) => verdict_of(i.verdict),
                    None => "warning"@,
                },
                audit_message(item),
            )
        },
        None => ("warning"@, "审核返回异常"@),
    };
    ReportView {
        provider: response.provider_id,
        model: response.model_id,
        verdict,
        message,
        latency_ms: response.latency_ms,
        usage: response.usage,
    }
}

fn find_item<'a>(v: &'a Vec<AuditAgentItem>, id: &str) -> (r: Option<&'a AuditAgentItem>)
    ensures
        match r {
            Some(i) => item_for(agent_items(v@), id@, 0) == Some(i@),
            None => item_for(agent_items(v@), id@, 0) is None,
        },
{
    let ghost src = agent_items(v@);
    let mut i: usize = 0;
    while i < v.len()
        invariant
            i <= v@.len(),
            src == agent_items(v@),
            item_for(src, id@, 0) == item_for(src, id@, i as int),
        decreases v@.len() - i,
    {
        proof {
            assert(src[i as int] == v@[i as int]@);
        }
        if str_eq(v[i].id.as_str(), id) {
            return Some(&v[i]);
        }
        i = i + 1;
    }
    None
}

fn report_for(response: &ChatResponse, results: &Option<Vec<AuditAgentItem>>, id: &str) -> (r:
    AuditReport)
    ensures
        r@ == report_on(response@, opt_agent_items(*results), id@),
{
    let (verdict, message) = match results {
        Some(v) => match find_item(v, id) {
            Some(i) => {
                let verdict = match &i.verdict {
                    Some(t) => normalize_audit_verdict(Some(t.as_str())),
                    None => normalize_audit_verdict(None),
                };
                let message = match &i.message {
                    Some(m) => {
                        if blank(m.as_str()) {
                            "需人工确认".to_owned()
                        } else {
                            preview_string(m.as_str(), 72)
                        }
                    },
                    None => "需人工确认".to_owned(),
                };
                (verdict, message)
            },
            None => ("warning".to_owned(), "需人工确认".to_owned()),
        },
        None => ("warning".to_owned(), "审核返回异常".to_owned()),
    };
    AuditReport {
        provider: response.provider_id.clone(),
        model: response.model_id.clone(),
        verdict,
        message,
        latency_ms: response.latency_ms,
        usage: response.usage,
    }
}

proof fn lemma_lookup_on(d: BatchAuditDecision, before: BatchAuditDecision, key: Seq<char>, id: Seq<char>)
    requires
        id != key ==> d.reports.lookup(id) == before.reports.lookup(id),
    ensures
        id != key ==> d.on(id) == before.on(id),
{
}

/// Judges calls, given what the auditor said.
pub fn judge_calls(
    response: &ChatResponse,
    results: &Option<Vec<AuditAgentItem>>,
    calls: &Vec<ToolCall>,
) -> (r: BatchAuditDecision)
    ensures
        r.wf(),
        forall|id: Seq<char>| #[trigger]
            r.on(id) == if has_call(call_views(calls@), id) {
                Some(report_on(response@, opt_agent_items(*results), id))
            } else {
                None
            },
{
    let ghost src = call_views(calls@);
    let ghost res = opt_agent_items(*results);
    let mut out = BatchAuditDecision { reports: Table::new() };
    let mut i: usize = 0;
    while i < calls.len()
        invariant
            i <= calls@.len(),
            src == call_views(calls@),
            res == opt_agent_items(*results),
            out.wf(),
            forall|id: Seq<char>| #[trigger]
                out.on(id) == if has_call(src.take(i as int), id) {
                    Some(report_on(response@, res, id))
                } else {
                    None
                },
        decreases calls@.len() - i,
    {
        let ghost before = out;
        let report = report_for(response, results, calls[i].id.as_str());
        out.reports.insert(calls[i].id.as_str(), report);
        proof {
            lemma_take_step(src, i as int);
            assert(src[i as int] == calls@[i as int]@);
            let key = calls@[i as int].id@;
            assert forall|id: Seq<char>| #[trigger] out.on(id) == if has_call(
                src.take(i + 1),
                id,
            ) {
                Some(report_on(response@, res, id))
            } else {
                None
            } by {
                lemma_has_call_step(src, i as int, id);
                if id != key {
                    lemma_lookup_on(out, before, key, id);
                }
            }
        }
        i = i + 1;
    }
    proof {
        lemma_take_full(src);
    }
    out
}

proof fn lemma_has_call_step(v: Seq<CallView>, i: int, id: Seq<char>)
    requires
        0 <= i < v.len(),
    ensures
        has_call(v.take(i + 1), id) == (has_call(v.take(i), id) || v[i].id == id),
{
    lemma_take_step(v, i);
    let a = v.take(i);
    let b = v.take(i + 1);
    if has_call(a, id) {
        let k = choose|k: int| 0 <= k < a.len() && (#[trigger] a[k]).id == id;
        assert(b[k] == a[k]);
    }
    if v[i].id == id {
        assert(b[i].id == id);
    }
    if has_call(b, id) {
        let k = choose|k: int| 0 <= k < b.len() && (#[trigger] b[k]).id == id;
        if k < i {
            assert(a[k] == b[k]);
        }
    }
}

pub fn parse_batch_audit_report(response: &ChatResponse, calls: &Vec<ToolCall>) -> (r:
    BatchAuditDecision)
    ensures
        r.wf(),
        forall|id: Seq<char>| #[trigger]
            r.on(id) == if has_call(call_views(calls@), id) {
                Some(report_on(response@, answer_results(response@.content), id))
            } else {
                None
            },
{
    let whole = results_in(response.content.as_str());
    let results = if whole.is_some() {
        whole
    } else {
        match extract_json_object(response.content.as_str()) {
            Some(part) => results_in(part.as_str()),
            None => None,
        }
    };
    judge_calls(response, &results, calls)
}

/// The verdict where there is no auditor.
pub open spec fn unavailable_report(provider: Seq<char>, model: Seq<char>, message: Seq<char>) -> ReportView {
    ReportView {
        provider,
        model,
        verdict: "unavailable"@,
        message: preview(message, 72),
        latency_ms: 0,
        usage: no_usage(),
    }
}

pub fn unavailable_batch_audit_decision(
    provider: &str,
    model: &str,
    calls: &Vec<ToolCall>,
    message: &str,
) -> (r: BatchAuditDecision)
    ensures
        r.wf(),
        forall|id: Seq<char>| #[trigger]
            r.on(id) == if has_call(call_views(calls@), id) {
                Some(unavailable_report(provider@, model@, message@))
            } else {
                None
            },
{
    let ghost src = call_views(calls@);
    let ghost goal = unavailable_report(provider@, model@, message@);
    let mut out = BatchAuditDecision { reports: Table::new() };
    let mut i: usize = 0;
    while i < calls.len()
        invariant
            i <= calls@.len(),
            src == call_views(calls@),
            goal == unavailable_report(provider@, model@, message@),
            out.wf(),
            forall|id: Seq<char>| #[trigger]
                out.on(id) == if has_call(src.take(i as int), id) {
                    Some(goal)
                } else {
                    None
                },
        decreases calls@.len() - i,
    {
        let ghost before = out;
        let report = AuditReport {
            provider: provider.to_owned(),
            model: model.to_owned(),
            verdict: "unavailable".to_owned(),
            message: preview_string(message, 72),
            latency_ms: 0,
            usage: Usage::default(),
        };
        out.reports.insert(calls[i].id.as_str(), report);
        proof {
            lemma_take_step(src, i as int);
            assert(src[i as int] == calls@[i as int]@);
            let key = calls@[i as int].id@;
            assert forall|id: Seq<char>| #[trigger] out.on(id) == if has_call(
                src.take(i + 1),
                id,
            ) {
                Some(goal)
            } else {
                None
            } by {
                lemma_has_call_step(src, i as int, id);
                if id != key {
                    lemma_lookup_on(out, before, key, id);
                }
            }
        }
        i = i + 1;
    }
    proof {
        lemma_take_full(src);
    }
    out
}

/// Only what the auditor passes goes without being asked: anything that it does not say, and
/// anything that cannot be read, is no pass.
pub proof fn law_silence_is_no_pass(
    response: ReplyView,
    results: Option<Seq<AgentItemView>>,
    id: Seq<char>,
)
    requires
        results is None || item_for(results->Some_0, id, 0) is None,
    ensures
        report_on(response, results, id).verdict != "pass"@,
{
    reveal_strlit("warning");
    reveal_strlit("pass");
    assert("warning"@.len() != "pass"@.len());
}

/// A call passes only where the auditor said so.
pub proof fn law_pass_was_said(
    response: ReplyView,
    results: Option<Seq<AgentItemView>>,
    id: Seq<char>,
)
    requires
        report_on(response, results, id).verdict == "pass"@,
    ensures
        results is Some,
        item_for(results->Some_0, id, 0) is Some,
        item_for(results->Some_0, id, 0)->Some_0.verdict is Some,
        ascii_lower(trimmed(item_for(results->Some_0, id, 0)->Some_0.verdict->Some_0)) == "pass"@,
{
    reveal_strlit("warning");
    reveal_strlit("pass");
    assert("warning"@.len() != "pass"@.len());
    if results is Some && item_for(results->Some_0, id, 0) is Some {
        let v = item_for(results->Some_0, id, 0)->Some_0.verdict;
        if v is None {
            lemma_trimmed_len("warning"@);
            lemma_warning_trimmed();
        }
    }
}

proof fn lemma_warning_trimmed()
    ensures
        ascii_lower(trimmed("warning"@)).len() == 7,
{
    reveal_strlit("warning");
    let s = "warning"@;
    assert(!is_space(s[0]));
    assert(!is_space(s[6]));
    assert(trimmed_start(s) == s);
    assert(trimmed_end(s) == s);
}

// ---------------------------------------------------------------------------
// Who reviews
// ---------------------------------------------------------------------------

#[derive(Debug)]
pub struct ResolvedChatTarget {
    pub provider_id: String,
    pub provider: ProviderConfig,
    pub model_id: String,
    pub model: ModelConfig,
    pub api_key: String,
}

pub struct TargetView {
    pub provider_id: Seq<char>,
    pub provider: ProviderView,
    pub model_id: Seq<char>,
    pub model: ModelView,
    pub api_key: Seq<char>,
}

impl View for ResolvedChatTarget {
    type V = TargetView;

    open spec fn view(&self) -> TargetView {
        TargetView {
            provider_id: self.provider_id@,
            provider: self.provider@,
            model_id: self.model_id@,
            model: self.model@,
            api_key: self.api_key@,
        }
    }
}

/// The model that reviews: the one set for it, else the one that is asked anyway.
pub open spec fn auditor(c: AppConfig, request: ChatRequest) -> Seq<char> {
    or_text(opt_text(c.audit.model), request.model_id@)
}

pub open spec fn audit_target(
    c: AppConfig,
    secrets: SecretsConfig,
    request: ChatRequest,
    env: Table<String>,
) -> Result<TargetView, Failure> {
    let id = auditor(c, request);
    if id == request.model_id@ {
        Ok(
            TargetView {
                provider_id: request.provider_id@,
                provider: request.provider@,
                model_id: request.model_id@,
                model: request.model@,
                api_key: request.api_key@,
            },
        )
    } else {
        match c.models.lookup(id) {
            None => Err(failure(EXIT_MODEL, "audit.model `"@ + id + "` does not exist"@)),
            Some(m) => match c.providers.lookup(m.provider@) {
                None => Err(
                    failure(
                        EXIT_PROVIDER,
                        "audit.model `"@ + id + "` references missing provider `"@ + m.provider@
                            + "`"@,
                    ),
                ),
                Some(p) => match key_of(m.provider@, p@, secrets, env) {
                    Err(e) => Err(e),
                    Ok(key) => Ok(
                        TargetView {
                            provider_id: m.provider@,
                            provider: p@,
                            model_id: id,
                            model: m@,
                            api_key: key,
                        },
                    ),
                },
            },
        }
    }
}

pub open spec fn target_result(r: AppResult<ResolvedChatTarget>) -> Result<TargetView, Failure> {
    match r {
        Ok(t) => Ok(t@),
        Err(e) => Err(e@),
    }
}

pub fn resolve_audit_target(
    config: &AppConfig,
    secrets: &SecretsConfig,
    fallback_request: &ChatRequest,
    env: &Table<String>,
) -> (r: AppResult<ResolvedChatTarget>)
    requires
        config.wf(),
        secrets.providers.wf(),
        env.wf(),
        fallback_request.provider.headers.wf(),
    ensures
        target_result(r) == audit_target(*config, *secrets, *fallback_request, *env),
        r matches Ok(t) ==> t.provider.headers.wf(),
{
    let id = match &config.audit.model {
        Some(m) => m.clone(),
        None => fallback_request.model_id.clone(),
    };
    if str_eq(id.as_str(), fallback_request.model_id.as_str()) {
        return Ok(
            ResolvedChatTarget {
                provider_id: fallback_request.provider_id.clone(),
                provider: fallback_request.provider.copy(),
                model_id: fallback_request.model_id.clone(),
                model: fallback_request.model.copy(),
                api_key: fallback_request.api_key.clone(),
            },
        );
    }
    let model = match config.models.get(id.as_str()) {
        Some(m) => m,
        None => {
            let message = "audit.model `".to_owned().concat(id.as_str()).concat(
                "` does not exist",
            );
            return Err(AppError::new(EXIT_MODEL, message.as_str()));
        },
    };
    let provider = match provider_named(config, model.provider.as_str()) {
        Some(p) => p,
        None => {
            let message = "audit.model `".to_owned().concat(id.as_str()).concat(
                "` references missing provider `",
            ).concat(model.provider.as_str()).concat("`");
            return Err(AppError::new(EXIT_PROVIDER, message.as_str()));
        },
    };
    match resolve_api_key(model.provider.as_str(), provider, secrets, env) {
        Err(e) => Err(e),
        Ok(api_key) => Ok(
            ResolvedChatTarget {
                provider_id: model.provider.clone(),
                provider: provider.copy(),
                model_id: id,
                model: model.copy(),
                api_key,
            },
        ),
    }
}

pub open spec fn needs_review(c: AppConfig, call: CallView) -> bool {
    or_flag(c.audit.enabled, false) && call_effects(call) == ToolSideEffects::Mutating
}

pub fn tool_requires_agent_review(config: &AppConfig, call: &ToolCall) -> (r: bool)
    ensures
        r == needs_review(*config, call@),
{
    flag_or(config.audit.enabled, false) && tool_call_side_effects(call)
        == ToolSideEffects::Mutating
}

/// The calls of a reply that are reviewed.
pub open spec fn reviewed(c: AppConfig, v: Seq<JsonView>) -> Seq<CallView>
    decreases v.len(),
{
    if v.len() == 0 {
        Seq::empty()
    } else {
        let before = reviewed(c, v.drop_last());
        match call_of(v.last()) {
            Ok(call) => if needs_review(c, call) {
                before.push(call)
            } else {
                before
            },
            Err(_) => before,
        }
    }
}

pub fn dangerous_calls(config: &AppConfig, tool_calls: &Vec<Json>) -> (r: Vec<ToolCall>)
    ensures
        call_views(r@) == reviewed(*config, jsons(tool_calls@)),
{
    let ghost src = jsons(tool_calls@);
    let mut out: Vec<ToolCall> = Vec::new();
    let mut i: usize = 0;
    proof {
        assert(call_views(out@) =~= Seq::<CallView>::empty());
    }
    while i < tool_calls.len()
        invariant
            i <= tool_calls@.len(),
            src == jsons(tool_calls@),
            call_views(out@) == reviewed(*config, src.take(i as int)),
        decreases tool_calls@.len() - i,
    {
        proof {
            lemma_take_step(src, i as int);
            assert(src[i as int] == tool_calls@[i as int]@);
        }
        if let Ok(call) = parse_tool_call(&tool_calls[i]) {
            if tool_requires_agent_review(config, &call) {
                proof {
                    assert(call_views(out@.push(call)) =~= call_views(out@).push(call@));
                }
                out.push(call);
            }
        }
        i = i + 1;
    }
    proof {
        lemma_take_full(src);
    }
    out
}

pub open spec fn of_kind(v: Seq<CallView>, kind: AuditPromptKind) -> Seq<CallView>
    decreases v.len(),
{
    if v.len() == 0 {
        Seq::empty()
    } else if prompt_kind(v.last().name) == kind {
        of_kind(v.drop_last(), kind).push(v.last())
    } else {
        of_kind(v.drop_last(), kind)
    }
}

/// The calls of one kind: they are reviewed together, with one prompt.
pub fn calls_of_kind(calls: &Vec<ToolCall>, kind: AuditPromptKind) -> (r: Vec<ToolCall>)
    ensures
        call_views(r@) == of_kind(call_views(calls@), kind),
{
    let ghost src = call_views(calls@);
    let mut out: Vec<ToolCall> = Vec::new();
    let mut i: usize = 0;
    proof {
        assert(call_views(out@) =~= Seq::<CallView>::empty());
    }
    while i < calls.len()
        invariant
            i <= calls@.len(),
            src == call_views(calls@),
            call_views(out@) == of_kind(src.take(i as int), kind),
        decreases calls@.len() - i,
    {
        proof {
            lemma_take_step(src, i as int);
            assert(src[i as int] == calls@[i as int]@);
        }
        if audit_prompt_kind(&calls[i]) == kind {
            let call = calls[i].copy();
            proof {
                assert(call_views(out@.push(call)) =~= call_views(out@).push(call@));
            }
            out.push(call);
        }
        i = i + 1;
    }
    proof {
        lemma_take_full(src);
    }
    out
}

/// A call to be reviewed is in the group of its kind.
pub proof fn law_every_call_is_grouped(v: Seq<CallView>, id: Seq<char>)
    ensures
        has_call(v, id) ==> has_call(of_kind(v, AuditPromptKind::Default), id) || has_call(
            of_kind(v, AuditPromptKind::Bash),
            id,
        ) || has_call(of_kind(v, AuditPromptKind::Edit), id),
    decreases v.len(),
{
    if v.len() > 0 && has_call(v, id) {
        let k = choose|k: int| 0 <= k < v.len() && (#[trigger] v[k]).id == id;
        let kind = prompt_kind(v[k].name);
        lemma_kept_in_kind(v, k);
        assert(has_call(of_kind(v, kind), id));
    }
}

proof fn lemma_kept_in_kind(v: Seq<CallView>, k: int)
    requires
        0 <= k < v.len(),
    ensures
        has_call(of_kind(v, prompt_kind(v[k].name)), v[k].id),
    decreases v.len(),
{
    let kind = prompt_kind(v[k].name);
    let g = of_kind(v, kind);
    if k == v.len() - 1 {
        assert(g.last() == v.last());
        assert(g[g.len() - 1].id == v[k].id);
    } else {
        lemma_kept_in_kind(v.drop_last(), k);
        let h = of_kind(v.drop_last(), kind);
        let i = choose|i: int| 0 <= i < h.len() && (#[trigger] h[i]).id == v[k].id;
        assert(g[i] == h[i]);
    }
}

/// Adds the verdicts of one group to those of the others.
pub fn merge_reports(into: &mut BatchAuditDecision, more: BatchAuditDecision)
    requires
        old(into).wf(),
        more.wf(),
    ensures
        final(into).wf(),
        forall|id: Seq<char>| #[trigger]
            final(into).on(id) == match more.on(id) {
                Some(r) => Some(r),
                None => old(into).on(id),
            },
{
    let n: usize = more.reports.len();
    let mut i: usize = 0;
    proof {
        assert forall|id: Seq<char>| #[trigger] into.on(id) == old(into).on(id) by {}
    }
    while i < n
        invariant
            i <= n,
            n == more.reports.keys().len(),
            more.wf(),
            into.wf(),
            forall|id: Seq<char>| #[trigger]
                into.on(id) == if more.reports.keys().take(i as int).contains(id) {
                    more.on(id)
                } else {
                    old(into).on(id)
                },
        decreases n - i,
    {
        let ghost before = *into;
        let ghost keys = more.reports.keys();
        let key = more.reports.key_at(i);
        let r = more.reports.value_at(i);
        let copy = AuditReport {
            provider: r.provider.clone(),
            model: r.model.clone(),
            verdict: r.verdict.clone(),
            message: r.message.clone(),
            latency_ms: r.latency_ms,
            usage: r.usage,
        };
        into.reports.insert(key, copy);
        proof {
            lemma_take_step(keys, i as int);
            more.reports.lemma_place(key@, i as int);
            assert(more.on(key@) == Some(copy@));
            let a = keys.take(i as int);
            let b = keys.take(i + 1);
            assert forall|id: Seq<char>| #[trigger] into.on(id) == if b.contains(id) {
                more.on(id)
            } else {
                old(into).on(id)
            } by {
                if id == key@ {
                    assert(b[i as int] == id);
                } else {
                    lemma_lookup_on(*into, before, key@, id);
                    if a.contains(id) {
                        let k = a.index_of(id);
                        assert(b[k] == id);
                    }
                    if b.contains(id) {
                        let k = b.index_of(id);
                        assert(a[k] == id);
                    }
                }
            }
        }
        i = i + 1;
    }
    proof {
        lemma_take_full(more.reports.keys());
        assert forall|id: Seq<char>| #[trigger] into.on(id) == match more.on(id) {
            Some(r) => Some(r),
            None => old(into).on(id),
        } by {
            assert(more.reports.has(id) == more.reports.keys().contains(id));
        }
    }
}

/// The request to the auditor, as far as it is made here.
pub open spec fn is_review_request(
    r: ChatRequest,
    target: TargetView,
    timeout: Option<u64>,
    prompt: Seq<char>,
    payload: JsonView,
) -> bool {
    &&& r.provider_id@ == target.provider_id
    &&& r.provider@ == target.provider
    &&& r.model_id@ == target.model_id
    &&& r.model@ == target.model
    &&& r.api_key@ == target.api_key
    &&& message_views(r.messages@) == seq![
        plain_message("system"@, prompt),
        plain_message("user"@, pretty_json(payload)),
    ]
    &&& opt_text(r.temperature) == Some("0.0"@)
    &&& r.max_output_tokens == Some(
        match target.model.max_output_tokens {
            Some(n) => if n < 800 {
                n
            } else {
                800
            },
            None => 800,
        },
    )
    &&& r.params@.len() == 0
    &&& r.timeout_secs == timeout
    &&& r.tools@.len() == 0
}

pub fn review_request(
    target: &ResolvedChatTarget,
    timeout_secs: Option<u64>,
    session_id: &str,
    transcript: &[ChatMessage],
    calls: &Vec<ToolCall>,
    prompt: String,
) -> (r: ChatRequest)
    requires
        target.provider.headers.wf(),
    ensures
        is_review_request(
            r,
            target@,
            timeout_secs,
            prompt@,
            review_payload(session_id@, message_views(transcript@), call_views(calls@)),
        ),
        r.provider.headers.wf(),
{
    let payload = build_tool_review_payload(session_id, transcript, calls);
    let system = ChatMessage::plain("system", prompt);
    let user = ChatMessage::plain("user", print_json_pretty(&payload));
    let messages = vec![system, user];
    proof {
        assert(message_views(messages@) =~= seq![system@, user@]);
    }
    let limit: u32 = match target.model.max_output_tokens {
        Some(n) => if n < 800 {
            n
        } else {
            800
        },
        None => 800,
    };
    ChatRequest {
        provider_id: target.provider_id.clone(),
        provider: target.provider.copy(),
        model_id: target.model_id.clone(),
        model: target.model.copy(),
        api_key: target.api_key.clone(),
        messages,
        temperature: Some("0.0".to_owned()),
        max_output_tokens: Some(limit),
        params: Vec::new(),
        timeout_secs,
        tools: Vec::new(),
    }
}

/// The verdicts on a group of calls, given the answer of the auditor.
pub open spec fn batch_report(target: TargetView, reply: AppResult<ChatResponse>, id: Seq<char>) -> ReportView {
    match reply {
        Ok(response) => report_on(response@, answer_results(response@.content), id),
        Err(e) => unavailable_report(
            target.provider_id,
            target.model_id,
            "audit agent failed: "@ + e@.message,
        ),
    }
}

pub fn review_tool_call_batch(
    target: &ResolvedChatTarget,
    calls: &Vec<ToolCall>,
    reply: &AppResult<ChatResponse>,
) -> (r: BatchAuditDecision)
    ensures
        r.wf(),
        forall|id: Seq<char>| #[trigger]
            r.on(id) == if has_call(call_views(calls@), id) {
                Some(batch_report(target@, *reply, id))
            } else {
                None
            },
{
    match reply {
        Ok(response) => parse_batch_audit_report(response, calls),
        Err(e) => {
            let message = "audit agent failed: ".to_owned().concat(e.message.as_str());
            unavailable_batch_audit_decision(
                target.provider_id.as_str(),
                target.model_id.as_str(),
                calls,
                message.as_str(),
            )
        },
    }
}

/// Calls of one kind.
#[derive(Debug)]
pub struct ReviewGroup {
    pub kind: AuditPromptKind,
    pub calls: Vec<ToolCall>,
}

pub struct GroupView {
    pub kind: AuditPromptKind,
    pub calls: Seq<CallView>,
}

impl View for ReviewGroup {
    type V = GroupView;

    open spec fn view(&self) -> GroupView {
        GroupView { kind: self.kind, calls: call_views(self.calls@) }
    }
}

pub open spec fn group_views(v: Seq<ReviewGroup>) -> Seq<GroupView> {
    v.map_values(|g: ReviewGroup| g@)
}

pub open spec fn group_of(v: Seq<CallView>, kind: AuditPromptKind) -> Seq<GroupView> {
    let calls = of_kind(v, kind);
    if calls.len() == 0 {
        Seq::empty()
    } else {
        seq![GroupView { kind, calls }]
    }
}

/// The groups of calls, without the empty ones.
pub open spec fn groups(v: Seq<CallView>) -> Seq<GroupView> {
    group_of(v, AuditPromptKind::Default) + group_of(v, AuditPromptKind::Bash) + group_of(
        v,
        AuditPromptKind::Edit,
    )
}

fn push_group(out: &mut Vec<ReviewGroup>, calls: &Vec<ToolCall>, kind: AuditPromptKind)
    ensures
        group_views(final(out)@) == group_views(old(out)@) + group_of(call_views(calls@), kind),
{
    let ghost before = group_views(out@);
    let g = calls_of_kind(calls, kind);
    proof {
        assert(call_views(g@).len() == g@.len());
    }
    if g.len() > 0 {
        let group = ReviewGroup { kind, calls: g };
        out.push(group);
        proof {
            assert(group_views(out@) =~= before + seq![group@]);
        }
    } else {
        proof {
            assert(before + Seq::<GroupView>::empty() =~= before);
        }
    }
}

/// How a review starts.
#[derive(Debug)]
pub enum ReviewStart {
    /// There is nothing to review.
    Nothing,
    /// There is no auditor, so the verdicts stand already.
    Decided(BatchAuditDecision),
    /// The auditor is to be asked about each group.
    Review(ResolvedChatTarget, Vec<ReviewGroup>),
}

/// Starts the review of some calls.
pub fn maybe_review_tool_call(
    config: &AppConfig,
    secrets: &SecretsConfig,
    fallback_request: &ChatRequest,
    calls: &Vec<ToolCall>,
    env: &Table<String>,
) -> (r: ReviewStart)
    requires
        config.wf(),
        secrets.providers.wf(),
        env.wf(),
        fallback_request.provider.headers.wf(),
    ensures
        match (
            calls@.len() == 0,
            audit_target(*config, *secrets, *fallback_request, *env),
        ) {
            (true, _) => r is Nothing,
            (false, Ok(target)) => r matches ReviewStart::Review(t, g) && t@ == target
                && group_views(g@) == groups(call_views(calls@)) && t.provider.headers.wf(),
            (false, Err(e)) => r matches ReviewStart::Decided(d) && d.wf() && forall|id: Seq<char>|
                #[trigger]
                d.on(id) == if has_call(call_views(calls@), id) {
                    Some(
                        unavailable_report(
                            fallback_request.provider_id@,
                            auditor(*config, *fallback_request),
                            "audit agent could not be prepared: "@ + e.message,
                        ),
                    )
                } else {
                    None
                },
        },
{
    if calls.len() == 0 {
        return ReviewStart::Nothing;
    }
    match resolve_audit_target(config, secrets, fallback_request, env) {
        Ok(target) => {
            let mut g: Vec<ReviewGroup> = Vec::new();
            proof {
                assert(group_views(g@) =~= Seq::<GroupView>::empty());
            }
            push_group(&mut g, calls, AuditPromptKind::Default);
            push_group(&mut g, calls, AuditPromptKind::Bash);
            push_group(&mut g, calls, AuditPromptKind::Edit);
            proof {
                assert(group_views(g@) =~= groups(call_views(calls@)));
            }
            ReviewStart::Review(target, g)
        },
        Err(e) => {
            let model = match &config.audit.model {
                Some(m) => m.clone(),
                None => fallback_request.model_id.clone(),
            };
            let message = "audit agent could not be prepared: ".to_owned().concat(
                e.message.as_str(),
            );
            ReviewStart::Decided(
                unavailable_batch_audit_decision(
                    fallback_request.provider_id.as_str(),
                    model.as_str(),
                    calls,
                    message.as_str(),
                ),
            )
        },
    }
}

/// The verdicts on a group whose prompt could not be read.
pub fn unprompted_batch(target: &ResolvedChatTarget, calls: &Vec<ToolCall>, error: &AppError) -> (r:
    BatchAuditDecision)
    ensures
        r.wf(),
        forall|id: Seq<char>| #[trigger]
            r.on(id) == if has_call(call_views(calls@), id) {
                Some(
                    unavailable_report(
                        target@.provider_id,
                        target@.model_id,
                        "audit prompt could not be loaded: "@ + error@.message,
                    ),
                )
            } else {
                None
            },
{
    let message = "audit prompt could not be loaded: ".to_owned().concat(error.message.as_str());
    unavailable_batch_audit_decision(
        target.provider_id.as_str(),
        target.model_id.as_str(),
        calls,
        message.as_str(),
    )
}

/// Whether a call goes without being asked: the auditor passed it, or everything is confirmed
/// beforehand.
pub open spec fn goes_ahead(
    call: Result<CallView, Failure>,
    batch: Option<BatchAuditDecision>,
    yes: bool,
) -> bool {
    yes || (call matches Ok(c) && (batch matches Some(b) && (b.on(c.id) matches Some(r) && r.verdict
        == "pass"@)))
}

/// Decides whether a call goes without being asked, given the call that a value stands for.
pub fn call_goes_ahead(
    call: &AppResult<ToolCall>,
    batch: &Option<BatchAuditDecision>,
    yes: bool,
) -> (r: bool)
    requires
        *batch matches Some(b) ==> b.wf(),
    ensures
        r == goes_ahead(call_result(*call), *batch, yes),
{
    if yes {
        return true;
    }
    match (call, batch) {
        (Ok(c), Some(b)) => match b.reports.get(c.id.as_str()) {
            Some(report) => str_eq(report.verdict.as_str(), "pass"),
            None => false,
        },
        _ => false,
    }
}

pub fn auto_confirms(raw_call: &Json, batch: &Option<BatchAuditDecision>, yes: bool) -> (r: bool)
    requires
        *batch matches Some(b) ==> b.wf(),
    ensures
        r == goes_ahead(call_of(raw_call@), *batch, yes),
{
    let call = parse_tool_call(raw_call);
    call_goes_ahead(&call, batch, yes)
}

// ---------------------------------------------------------------------------
// What is shown and recorded
// ---------------------------------------------------------------------------

/// The line that announces a review.
pub fn print_audit_start(call_count: usize, model_id: &str) -> (r: String)
    ensures
        r@ == "  "@ + DIM@ + CYAN@ + "audit"@ + RESET@ + " "@ + CYAN@ + decimal(call_count as nat)
            + " tool(s)"@ + RESET@ + " "@ + DIM@ + "· "@ + model_id@ + RESET@,
{
    "  ".to_owned().concat(DIM).concat(CYAN).concat("audit").concat(RESET).concat(" ").concat(
        CYAN,
    ).concat(decimal_string(call_count as u64).as_str()).concat(" tool(s)").concat(RESET).concat(
        " ",
    ).concat(DIM).concat("· ").concat(model_id).concat(RESET)
}

pub open spec fn audit_line(color: Seq<char>, name: Seq<char>, id: Seq<char>, message: Seq<char>) -> Seq<
    char,
> {
    "  "@ + color + "audit"@ + RESET@ + " "@ + color + name + RESET@ + " "@ + DIM@ + prefix_chars(
        id.skip(last_index(id, '_') + 1),
        8,
    ) + RESET@ + " "@ + color + message + RESET@
}

/// The line that tells the verdict on a call: green for a pass, red for anything else.
pub fn print_audit_verdict(tool_name: &str, tool_call_id: &str, audit: &AuditReport) -> (r: String)
    ensures
        r@ == audit_line(
            if audit@.verdict == "pass"@ {
                GREEN@
            } else {
                RED@
            },
            tool_name@,
            tool_call_id@,
            audit@.message,
        ),
{
    let color = if str_eq(audit.verdict.as_str(), "pass") {
        GREEN
    } else {
        RED
    };
    let id = truncate_tool_call_id(tool_call_id);
    "  ".to_owned().concat(color).concat("audit").concat(RESET).concat(" ").concat(color).concat(
        tool_name,
    ).concat(RESET).concat(" ").concat(DIM).concat(id.as_str()).concat(RESET).concat(" ").concat(
        color,
    ).concat(audit.message.as_str()).concat(RESET)
}

/// What is recorded of a verdict.
pub open spec fn audit_event(
    report: ReportView,
    tool_name: Seq<char>,
    tool_call_id: Seq<char>,
    now: Seq<char>,
) -> StoredEvent {
    StoredEvent::Audit(
        StoredAudit {
            provider: report.provider,
            model: report.model,
            tool_name: Some(tool_name),
            tool_call_id: Some(tool_call_id),
            verdict: report.verdict,
            summary: report.message,
            findings: Seq::empty(),
            recommendations: Seq::empty(),
            latency_ms: report.latency_ms,
            usage: report.usage,
            created_at: now,
        },
    )
}

/// The event that records a verdict, unless nothing is saved.
pub fn append_audit_event(
    saves: bool,
    tool_name: &str,
    tool_call_id: &str,
    audit: &AuditReport,
    now: &str,
) -> (r: Option<SessionEvent>)
    ensures
        match r {
            Some(e) => saves && e@ == audit_event(audit@, tool_name@, tool_call_id@, now@),
            None => !saves,
        },
{
    if !saves {
        return None;
    }
    let findings: Vec<String> = Vec::new();
    let recommendations: Vec<String> = Vec::new();
    proof {
        assert(texts(findings@) =~= Seq::<Seq<char>>::empty());
        assert(texts(recommendations@) =~= Seq::<Seq<char>>::empty());
    }
    Some(
        SessionEvent::Audit(
            SessionAudit {
                provider: audit.provider.clone(),
                model: audit.model.clone(),
                tool_name: Some(tool_name.to_owned()),
                tool_call_id: Some(tool_call_id.to_owned()),
                verdict: audit.verdict.clone(),
                summary: audit.message.clone(),
                findings,
                recommendations,
                latency_ms: audit.latency_ms,
                usage: audit.usage,
                created_at: now.to_owned(),
            },
        ),
    )
}

} // verus!
