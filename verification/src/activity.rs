//! What is shown and recorded of the tools that a model calls.

use crate::actions::{
    effects_label, effects_name, either_text, either_text_in, found_tool_names,
    normalize_tool_path,
};
use crate::ansi::{DIM, RESET, wrap_ansi_to_width, wrapped};
use crate::chat::{ChatMessage, MessageView, message_views};
use crate::cli::OutputFormat;
use crate::config::joined_path;
use crate::error::{AppError, AppResult, EXIT_ARGS, Failure, failure};
use crate::json::{
    Json, JsonView, elements_in, field_views, get_in, json_text, jsons, lemma_array_view,
    lemma_object_view, object, opt_json, print_json, printed_json, text_in, text_in_or,
    unsigned_in,
};
use crate::media::{ImageView, after_last, image_views, last_index, lemma_last_index};
use crate::session::{SessionEvent, StoredEvent, event_views};
use crate::text::{
    blank, chars_of, decimal, decimal_string, is_blank, join, join_strings, lemma_take_full,
    lemma_take_step, lemma_texts_push, opt_eq, opt_text, prefix_chars, preview, preview_string,
    str_eq, substring, take_chars, texts,
};
use crate::tools::{
    CallView, ToolCall, ToolEntry, ToolParallelism, ToolResult, call_effects, call_of,
    call_result, lookup_tool_spec, needs_confirmation, parse_tool_call, search_result,
    tool_call_requires_confirmation, tool_call_side_effects, tool_named,
};
use vstd::prelude::*;

verus! {

// ---------------------------------------------------------------------------
// Labels and summaries
// ---------------------------------------------------------------------------

pub open spec fn side_effects_name(name: Seq<char>) -> Seq<char> {
    match tool_named(name) {
        Some(t) => effects_name(t.side_effects),
        None => "unknown"@,
    }
}

pub fn tool_side_effects_label(name: &str) -> (r: &'static str)
    ensures
        r@ == side_effects_name(name@),
{
    match lookup_tool_spec(name) {
        Some(t) => effects_label(t.side_effects),
        None => "unknown",
    }
}

pub fn tool_call_side_effects_label(call: &ToolCall) -> (r: &'static str)
    ensures
        r@ == effects_name(call_effects(call@)),
{
    effects_label(tool_call_side_effects(call))
}

pub open spec fn parallelism_name(name: Seq<char>) -> Seq<char> {
    match tool_named(name) {
        Some(t) => match t.parallelism {
            ToolParallelism::ParallelSafe => "parallel_safe"@,
            ToolParallelism::SequentialOnly => "sequential_only"@,
        },
        None => "unknown"@,
    }
}

pub fn tool_parallelism_label(name: &str) -> (r: &'static str)
    ensures
        r@ == parallelism_name(name@),
{
    match lookup_tool_spec(name) {
        Some(t) => match t.parallelism {
            ToolParallelism::ParallelSafe => "parallel_safe",
            ToolParallelism::SequentialOnly => "sequential_only",
        },
        None => "unknown",
    }
}

/// The start of the text of a value.
pub fn audit_preview_value(value: &Json, max_chars: usize) -> (r: String)
    ensures
        r@ == preview(printed_json(value@), max_chars as nat),
{
    preview_string(print_json(value).as_str(), max_chars)
}

/// What is told of a call.
pub open spec fn call_summary(c: CallView) -> JsonView {
    JsonView::Object(
        seq![
            ("id"@, JsonView::Str(c.id)),
            ("name"@, JsonView::Str(c.name)),
            ("arguments_preview"@, JsonView::Str(preview(printed_json(c.arguments), 600))),
            ("side_effects"@, JsonView::Str(effects_name(call_effects(c)))),
            ("parallelism"@, JsonView::Str(parallelism_name(c.name))),
            ("requires_confirmation"@, JsonView::Bool(needs_confirmation(c))),
        ],
    )
}

/// What is told of a value that is no call.
pub open spec fn broken_summary(raw: JsonView, message: Seq<char>) -> JsonView {
    JsonView::Object(
        seq![
            ("id"@, JsonView::Str(raw.at("id"@).text_or(""@))),
            ("name"@, JsonView::Str(raw.at("function"@).at("name"@).text_or("unknown_tool"@))),
            ("parse_error"@, JsonView::Str(message)),
            ("raw_preview"@, JsonView::Str(preview(printed_json(raw), 600))),
        ],
    )
}

/// What is told of a value, given the call it stands for.
pub open spec fn summary_of_call(raw: JsonView, call: Result<CallView, Failure>) -> JsonView {
    match call {
        Ok(c) => call_summary(c),
        Err(e) => broken_summary(raw, e.message),
    }
}

/// The summary of a value, given the call it stands for.
pub fn summarize_call(raw_call: &Json, call: &AppResult<ToolCall>) -> (r: Json)
    ensures
        r@ == summary_of_call(raw_call@, call_result(*call)),
{
    let mut f: Vec<(String, Json)> = Vec::new();
    match call {
        Ok(c) => {
            f.push(("id".to_owned(), json_text(c.id.as_str())));
            f.push(("name".to_owned(), json_text(c.name.as_str())));
            f.push(
                (
                    "arguments_preview".to_owned(),
                    json_text(audit_preview_value(&c.arguments, 600).as_str()),
                ),
            );
            f.push(("side_effects".to_owned(), json_text(tool_call_side_effects_label(c))));
            f.push(("parallelism".to_owned(), json_text(tool_parallelism_label(c.name.as_str()))));
            f.push(
                (
                    "requires_confirmation".to_owned(),
                    Json::Bool(tool_call_requires_confirmation(c)),
                ),
            );
            proof {
                assert(field_views(f@) =~= call_summary(c@)->Object_0);
            }
        },
        Err(e) => {
            let id = text_in_or(raw_call.get("id"), "");
            let name = text_in_or(get_in(raw_call.get("function"), "name"), "unknown_tool");
            f.push(("id".to_owned(), json_text(id.as_str())));
            f.push(("name".to_owned(), json_text(name.as_str())));
            f.push(("parse_error".to_owned(), json_text(e.message.as_str())));
            f.push(
                (
                    "raw_preview".to_owned(),
                    json_text(audit_preview_value(raw_call, 600).as_str()),
                ),
            );
            proof {
                assert(field_views(f@) =~= broken_summary(raw_call@, e@.message)->Object_0);
            }
        },
    }
    object(f)
}

pub fn summarize_tool_call(raw_call: &Json) -> (r: Json)
    ensures
        r@ == summary_of_call(raw_call@, call_of(raw_call@)),
{
    let call = parse_tool_call(raw_call);
    summarize_call(raw_call, &call)
}

/// The end of an identifier behind its last underscore, eight characters of it.
pub fn truncate_tool_call_id(id: &str) -> (r: String)
    ensures
        r@ == prefix_chars(id@.skip(last_index(id@, '_') + 1), 8),
{
    let c = chars_of(id);
    proof {
        lemma_last_index(id@, '_');
    }
    let from: usize = after_last(c.as_slice(), '_');
    let end = substring(c.as_slice(), from, c.len());
    proof {
        assert(end@ =~= id@.skip(last_index(id@, '_') + 1));
    }
    take_chars(end.as_str(), 8)
}

/// A label and the start of a text.
pub open spec fn labelled(label: Seq<char>, text: Seq<char>, n: nat) -> Seq<char> {
    label + ": "@ + preview(text, n)
}

fn label_with(label: &str, text: &str, n: usize) -> (r: String)
    ensures
        r@ == labelled(label@, text@, n as nat),
{
    label.to_owned().concat(": ").concat(preview_string(text, n).as_str())
}

pub open spec fn path_argument(a: JsonView) -> Seq<char> {
    match either_text(a, "file_path"@, "path"@) {
        Some(p) => p,
        None => ""@,
    }
}

fn path_argument_of(a: &Json) -> (r: String)
    ensures
        r@ == path_argument(a@),
{
    match either_text_in(a, "file_path", "path") {
        Some(p) => p,
        None => "".to_owned(),
    }
}

pub open spec fn is_todo(name: Seq<char>) -> bool {
    name == "todo"@ || name == "todo_write"@ || name == "TodoWrite"@
}

/// A call in a few words.
pub open spec fn activity(c: CallView) -> Seq<char> {
    let n = c.name;
    let a = c.arguments;
    if n == "ToolSearch"@ || n == "tool_search"@ {
        labelled("ToolSearch"@, a.at("query"@).text_or(""@), 32)
    } else if n == "bash"@ || n == "Bash"@ {
        labelled(n, a.at("command"@).text_or(""@), 40)
    } else if n == "Write"@ || n == "write"@ || n == "Edit"@ || n == "edit"@ {
        labelled("Edit"@, path_argument(a), 32)
    } else if n == "read"@ {
        labelled("read"@, a.at("path"@).text_or(""@), 32)
    } else if n == "Read"@ {
        labelled("Read"@, path_argument(a), 32)
    } else if n == "fetch"@ {
        labelled("fetch"@, a.at("url"@).text_or(""@), 40)
    } else if n == "WebFetch"@ || n == "web_fetch"@ {
        labelled("WebFetch"@, a.at("url"@).text_or(""@), 40)
    } else if n == "grep"@ || n == "Grep"@ {
        labelled(n, a.at("pattern"@).text_or(""@), 24)
    } else if n == "Glob"@ || n == "glob"@ {
        labelled("Glob"@, a.at("pattern"@).text_or(""@), 24)
    } else if n == "skill_read"@ || n == "SkillRead"@ {
        labelled(n, a.at("name"@).text_or(""@), 24)
    } else if is_todo(n) {
        "TodoWrite: "@ + decimal(a.at("todos"@).elements().len()) + " item(s)"@
    } else {
        n
    }
}

pub fn is_todo_tool_name(name: &str) -> (r: bool)
    ensures
        r == is_todo(name@),
{
    str_eq(name, "todo") || str_eq(name, "todo_write") || str_eq(name, "TodoWrite")
}

fn count_elements(v: Option<&Json>) -> (r: usize)
    ensures
        r == opt_json(v).elements().len(),
{
    let e = elements_in(v);
    proof {
        assert(jsons(e@).len() == e@.len());
    }
    e.len()
}

/// A call in a few words.
pub fn call_activity(call: &ToolCall) -> (r: String)
    ensures
        r@ == activity(call@),
{
    let n = call.name.as_str();
    let a = &call.arguments;
    if str_eq(n, "ToolSearch") || str_eq(n, "tool_search") {
        label_with("ToolSearch", text_in_or(a.get("query"), "").as_str(), 32)
    } else if str_eq(n, "bash") || str_eq(n, "Bash") {
        label_with(n, text_in_or(a.get("command"), "").as_str(), 40)
    } else if str_eq(n, "Write") || str_eq(n, "write") || str_eq(n, "Edit") || str_eq(n, "edit") {
        label_with("Edit", path_argument_of(a).as_str(), 32)
    } else if str_eq(n, "read") {
        label_with("read", text_in_or(a.get("path"), "").as_str(), 32)
    } else if str_eq(n, "Read") {
        label_with("Read", path_argument_of(a).as_str(), 32)
    } else if str_eq(n, "fetch") {
        label_with("fetch", text_in_or(a.get("url"), "").as_str(), 40)
    } else if str_eq(n, "WebFetch") || str_eq(n, "web_fetch") {
        label_with("WebFetch", text_in_or(a.get("url"), "").as_str(), 40)
    } else if str_eq(n, "grep") || str_eq(n, "Grep") {
        label_with(n, text_in_or(a.get("pattern"), "").as_str(), 24)
    } else if str_eq(n, "Glob") || str_eq(n, "glob") {
        label_with("Glob", text_in_or(a.get("pattern"), "").as_str(), 24)
    } else if str_eq(n, "skill_read") || str_eq(n, "SkillRead") {
        label_with(n, text_in_or(a.get("name"), "").as_str(), 24)
    } else if is_todo_tool_name(n) {
        "TodoWrite: ".to_owned().concat(
            decimal_string(count_elements(a.get("todos")) as u64).as_str(),
        ).concat(" item(s)")
    } else {
        n.to_owned()
    }
}

/// A value in a few words, given the call it stands for.
pub open spec fn activity_of(call: Result<CallView, Failure>) -> Seq<char> {
    match call {
        Ok(c) => activity(c),
        Err(_) => "unknown_tool"@,
    }
}

pub fn summarize_tool_call_activity(raw_call: &Json) -> (r: String)
    ensures
        r@ == activity_of(call_of(raw_call@)),
{
    match parse_tool_call(raw_call) {
        Ok(call) => call_activity(&call),
        Err(_) => "unknown_tool".to_owned(),
    }
}

/// The lines of an item of a list: a bullet before the first, an indentation before the others.
pub open spec fn bullet_lines(v: Seq<Seq<char>>) -> Seq<Seq<char>> {
    Seq::new(
        v.len(),
        |i: int|
            if i == 0 {
                DIM@ + "  •"@ + RESET@ + " "@ + v[i]
            } else {
                "    "@ + v[i]
            },
    )
}

pub open spec fn bullets(v: Seq<Seq<char>>, width: nat) -> Seq<Seq<char>>
    decreases v.len(),
{
    if v.len() == 0 {
        Seq::empty()
    } else {
        bullets(v.drop_last(), width) + bullet_lines(wrapped(v.last(), width))
    }
}

pub open spec fn activities(v: Seq<JsonView>) -> Seq<Seq<char>> {
    v.map_values(|j: JsonView| activity_of(call_of(j)))
}

/// The columns beside a bullet: eight at least.
pub open spec fn bullet_width(width: nat) -> nat {
    if width >= 12 {
        (width - 4) as nat
    } else {
        8
    }
}

/// A list of what a round of tools did.
pub open spec fn round_summary(round: nat, v: Seq<Seq<char>>, width: nat) -> Seq<char> {
    join(
        seq![DIM@ + "[tools "@ + decimal(round) + "]"@ + RESET@] + bullets(v, bullet_width(width)),
        "\n"@,
    )
}

fn push_bullet(out: &mut Vec<String>, text: &str, width: usize)
    ensures
        texts(final(out)@) == texts(old(out)@) + bullet_lines(wrapped(text@, width as nat)),
{
    let parts = wrap_ansi_to_width(text, width);
    let ghost before = texts(out@);
    let ghost v = texts(parts@);
    let ghost goal = bullet_lines(v);
    let mut i: usize = 0;
    proof {
        assert(before + goal.take(0) =~= before);
    }
    while i < parts.len()
        invariant
            i <= parts@.len(),
            v == texts(parts@),
            goal == bullet_lines(v),
            texts(out@) == before + goal.take(i as int),
        decreases parts@.len() - i,
    {
        let line = if i == 0 {
            DIM.to_owned().concat("  •").concat(RESET).concat(" ").concat(parts[i].as_str())
        } else {
            "    ".to_owned().concat(parts[i].as_str())
        };
        proof {
            assert(v[i as int] == parts@[i as int]@);
            lemma_take_step(goal, i as int);
            lemma_texts_push(out@, line);
            assert((before + goal.take(i as int)).push(line@) =~= before + goal.take(i + 1));
        }
        out.push(line);
        i = i + 1;
    }
    proof {
        lemma_take_full(goal);
    }
}

/// A list of what a round of tools did, given each in a few words.
pub fn render_round_summary(round: usize, summaries: &Vec<String>, width: usize) -> (r: String)
    ensures
        r@ == round_summary(round as nat, texts(summaries@), width as nat),
{
    let header = DIM.to_owned().concat("[tools ").concat(
        decimal_string(round as u64).as_str(),
    ).concat("]").concat(RESET);
    let content: usize = if width >= 12 {
        width - 4
    } else {
        8
    };
    let ghost v = texts(summaries@);
    let ghost first = seq![header@];
    let mut out = vec![header];
    let mut i: usize = 0;
    proof {
        assert(texts(out@) =~= first + bullets(v.take(0), content as nat));
    }
    while i < summaries.len()
        invariant
            i <= summaries@.len(),
            v == texts(summaries@),
            texts(out@) == first + bullets(v.take(i as int), content as nat),
        decreases summaries@.len() - i,
    {
        proof {
            assert(v[i as int] == summaries@[i as int]@);
            lemma_take_step(v, i as int);
        }
        push_bullet(&mut out, summaries[i].as_str(), content);
        proof {
            assert(texts(out@) =~= first + bullets(v.take(i + 1), content as nat));
        }
        i = i + 1;
    }
    proof {
        lemma_take_full(v);
    }
    join_strings(&out, "\n")
}

fn activities_of(raw_calls: &[Json]) -> (r: Vec<String>)
    ensures
        texts(r@) == activities(jsons(raw_calls@)),
{
    let ghost v = jsons(raw_calls@);
    let mut out: Vec<String> = Vec::new();
    let mut i: usize = 0;
    proof {
        assert(texts(out@) =~= activities(v).take(0));
    }
    while i < raw_calls.len()
        invariant
            i <= raw_calls@.len(),
            v == jsons(raw_calls@),
            texts(out@) == activities(v).take(i as int),
        decreases raw_calls@.len() - i,
    {
        let line = summarize_tool_call_activity(&raw_calls[i]);
        proof {
            assert(v[i as int] == raw_calls@[i as int]@);
            lemma_take_step(activities(v), i as int);
            lemma_texts_push(out@, line);
        }
        out.push(line);
        i = i + 1;
    }
    proof {
        lemma_take_full(activities(v));
    }
    out
}

pub fn render_tool_call_summary(round: usize, raw_calls: &[Json], width: usize) -> (r: String)
    ensures
        r@ == round_summary(round as nat, activities(jsons(raw_calls@)), width as nat),
{
    let summaries = activities_of(raw_calls);
    render_round_summary(round, &summaries, width)
}

/// The calls of a message, a bullet before each.
pub open spec fn call_bullets(v: Seq<JsonView>) -> Seq<Seq<char>> {
    v.map_values(|j: JsonView| DIM@ + "•"@ + RESET@ + " "@ + activity_of(call_of(j)))
}

pub fn render_call_bullets(raw_calls: &Vec<Json>) -> (r: String)
    ensures
        r@ == join(call_bullets(jsons(raw_calls@)), "\n"@),
{
    let ghost v = jsons(raw_calls@);
    let mut out: Vec<String> = Vec::new();
    let mut i: usize = 0;
    proof {
        assert(texts(out@) =~= call_bullets(v).take(0));
    }
    while i < raw_calls.len()
        invariant
            i <= raw_calls@.len(),
            v == jsons(raw_calls@),
            texts(out@) == call_bullets(v).take(i as int),
        decreases raw_calls@.len() - i,
    {
        let line = DIM.to_owned().concat("•").concat(RESET).concat(" ").concat(
            summarize_tool_call_activity(&raw_calls[i]).as_str(),
        );
        proof {
            assert(v[i as int] == raw_calls@[i as int]@);
            lemma_take_step(call_bullets(v), i as int);
            lemma_texts_push(out@, line);
        }
        out.push(line);
        i = i + 1;
    }
    proof {
        lemma_take_full(call_bullets(v));
    }
    join_strings(&out, "\n")
}

// ---------------------------------------------------------------------------
// Plans
// ---------------------------------------------------------------------------

#[derive(Debug, Clone, Copy, PartialEq, Eq, Structural)]
pub enum TodoUiStatus {
    Pending,
    InProgress,
    Completed,
}

#[derive(Debug)]
pub struct TodoUiItem {
    pub title: String,
    pub details: String,
    pub status: TodoUiStatus,
}

pub struct TodoView {
    pub title: Seq<char>,
    pub details: Seq<char>,
    pub status: TodoUiStatus,
}

impl View for TodoUiItem {
    type V = TodoView;

    open spec fn view(&self) -> TodoView {
        TodoView { title: self.title@, details: self.details@, status: self.status }
    }
}

pub open spec fn todo_views(v: Seq<TodoUiItem>) -> Seq<TodoView> {
    v.map_values(|t: TodoUiItem| t@)
}

pub open spec fn status_named(s: Seq<char>) -> Option<TodoUiStatus> {
    if s == "pending"@ {
        Some(TodoUiStatus::Pending)
    } else if s == "in_progress"@ {
        Some(TodoUiStatus::InProgress)
    } else if s == "completed"@ {
        Some(TodoUiStatus::Completed)
    } else {
        None
    }
}

/// The status that a value stands for: its name, or an object with the name and nothing.
pub open spec fn todo_status(j: JsonView) -> Option<TodoUiStatus> {
    match j {
        JsonView::Str(s) => status_named(s),
        JsonView::Object(f) => if f.len() == 1 && f[0].1 is Null {
            status_named(f[0].0)
        } else {
            None
        },
        _ => None,
    }
}

pub open spec fn todo_with(title: JsonView, details: JsonView, status: JsonView) -> Option<TodoView> {
    match (title.text(), details.text(), todo_status(status)) {
        (Some(t), Some(d), Some(s)) => Some(TodoView { title: t, details: d, status: s }),
        _ => None,
    }
}

/// The item that a value stands for: an object with its fields, or a list of the three in order.
pub open spec fn todo_item(j: JsonView) -> Option<TodoView> {
    match j {
        JsonView::Object(_) => todo_with(j.at("title"@), j.at("details"@), j.at("status"@)),
        JsonView::Array(v) => if v.len() == 3 {
            todo_with(v[0], v[1], v[2])
        } else {
            None
        },
        _ => None,
    }
}

pub open spec fn todo_items(v: Seq<JsonView>) -> Option<Seq<TodoView>>
    decreases v.len(),
{
    if v.len() == 0 {
        Some(Seq::empty())
    } else {
        match (todo_items(v.drop_last()), todo_item(v.last())) {
            (Some(before), Some(t)) => Some(before.push(t)),
            _ => None,
        }
    }
}

/// The plan that a call writes down, if it is one that does.
pub open spec fn plan_of_call(c: CallView) -> Option<Seq<TodoView>> {
    if is_todo(c.name) {
        match c.arguments.at("todos"@) {
            JsonView::Array(v) => todo_items(v),
            _ => None,
        }
    } else {
        None
    }
}

pub open spec fn plan_of(call: Result<CallView, Failure>) -> Option<Seq<TodoView>> {
    match call {
        Ok(c) => plan_of_call(c),
        Err(_) => None,
    }
}

pub open spec fn opt_todo(r: Option<TodoUiItem>) -> Option<TodoView> {
    match r {
        Some(t) => Some(t@),
        None => None,
    }
}

pub open spec fn opt_todos(r: Option<Vec<TodoUiItem>>) -> Option<Seq<TodoView>> {
    match r {
        Some(v) => Some(todo_views(v@)),
        None => None,
    }
}

fn status_of_name(s: &str) -> (r: Option<TodoUiStatus>)
    ensures
        r == status_named(s@),
{
    if str_eq(s, "pending") {
        Some(TodoUiStatus::Pending)
    } else if str_eq(s, "in_progress") {
        Some(TodoUiStatus::InProgress)
    } else if str_eq(s, "completed") {
        Some(TodoUiStatus::Completed)
    } else {
        None
    }
}

fn todo_status_of(j: Option<&Json>) -> (r: Option<TodoUiStatus>)
    ensures
        r == todo_status(opt_json(j)),
{
    match j {
        Some(Json::Str(s)) => status_of_name(s.as_str()),
        Some(Json::Object(f)) => {
            proof {
                lemma_object_view(*f);
            }
            if f.len() == 1 {
                proof {
                    assert(field_views(f@)[0] == (f@[0].0@, f@[0].1@));
                }
                match f[0].1 {
                    Json::Null => status_of_name(f[0].0.as_str()),
                    _ => None,
                }
            } else {
                None
            }
        },
        _ => None,
    }
}

fn todo_from(title: Option<&Json>, details: Option<&Json>, status: Option<&Json>) -> (r: Option<
    TodoUiItem,
>)
    ensures
        opt_todo(r) == todo_with(opt_json(title), opt_json(details), opt_json(status)),
{
    match (text_in(title), text_in(details), todo_status_of(status)) {
        (Some(title), Some(details), Some(status)) => Some(TodoUiItem { title, details, status }),
        _ => None,
    }
}

fn todo_of(j: &Json) -> (r: Option<TodoUiItem>)
    ensures
        opt_todo(r) == todo_item(j@),
{
    match j {
        Json::Object(f) => {
            proof {
                lemma_object_view(*f);
            }
            todo_from(j.get("title"), j.get("details"), j.get("status"))
        },
        Json::Array(v) => {
            proof {
                lemma_array_view(*v);
            }
            if v.len() == 3 {
                proof {
                    assert(jsons(v@)[0] == v@[0]@);
                    assert(jsons(v@)[1] == v@[1]@);
                    assert(jsons(v@)[2] == v@[2]@);
                }
                todo_from(Some(&v[0]), Some(&v[1]), Some(&v[2]))
            } else {
                None
            }
        },
        _ => None,
    }
}

proof fn lemma_todo_items_fail(v: Seq<JsonView>, i: int)
    requires
        0 <= i < v.len(),
        todo_item(v[i]) is None,
    ensures
        todo_items(v) is None,
    decreases v.len(),
{
    if i < v.len() - 1 {
        lemma_todo_items_fail(v.drop_last(), i);
    }
}

/// The items of a plan, if every value stands for one.
pub fn todo_items_of(v: &Vec<Json>) -> (r: Option<Vec<TodoUiItem>>)
    ensures
        opt_todos(r) == todo_items(jsons(v@)),
{
    let ghost src = jsons(v@);
    let mut out: Vec<TodoUiItem> = Vec::new();
    let mut i: usize = 0;
    proof {
        assert(todo_views(out@) =~= Seq::<TodoView>::empty());
    }
    while i < v.len()
        invariant
            i <= v@.len(),
            src == jsons(v@),
            todo_items(src.take(i as int)) == Some(todo_views(out@)),
        decreases v@.len() - i,
    {
        proof {
            lemma_take_step(src, i as int);
            assert(src[i as int] == v@[i as int]@);
        }
        match todo_of(&v[i]) {
            Some(t) => {
                proof {
                    assert(todo_views(out@.push(t)) =~= todo_views(out@).push(t@));
                }
                out.push(t);
            },
            None => {
                proof {
                    lemma_todo_items_fail(src, i as int);
                }
                return None;
            },
        }
        i = i + 1;
    }
    proof {
        lemma_take_full(src);
    }
    Some(out)
}

/// The plan that a call writes down, if it is one that does.
pub fn todo_items_from_call(call: &ToolCall) -> (r: Option<Vec<TodoUiItem>>)
    ensures
        opt_todos(r) == plan_of_call(call@),
{
    if !is_todo_tool_name(call.name.as_str()) {
        return None;
    }
    match call.arguments.get("todos") {
        Some(Json::Array(v)) => {
            proof {
                lemma_array_view(*v);
            }
            todo_items_of(v)
        },
        _ => None,
    }
}

pub fn todo_items_from_raw_call(raw_call: &Json) -> (r: Option<Vec<TodoUiItem>>)
    ensures
        opt_todos(r) == plan_of(call_of(raw_call@)),
{
    match parse_tool_call(raw_call) {
        Ok(call) => todo_items_from_call(&call),
        Err(_) => None,
    }
}

/// The last plan that one of the calls writes down.
pub open spec fn last_plan(v: Seq<JsonView>) -> Option<Seq<TodoView>>
    decreases v.len(),
{
    if v.len() == 0 {
        None
    } else {
        match plan_of(call_of(v.last())) {
            Some(p) => Some(p),
            None => last_plan(v.drop_last()),
        }
    }
}

/// The last plan that was written down in a session.
pub open spec fn latest_plan(v: Seq<StoredEvent>) -> Option<Seq<TodoView>>
    decreases v.len(),
{
    if v.len() == 0 {
        None
    } else {
        let here = match v.last() {
            StoredEvent::Message(m) => last_plan(m.tool_calls),
            _ => None,
        };
        match here {
            Some(p) => Some(p),
            None => latest_plan(v.drop_last()),
        }
    }
}

fn last_plan_of(v: &Vec<Json>) -> (r: Option<Vec<TodoUiItem>>)
    ensures
        opt_todos(r) == last_plan(jsons(v@)),
{
    let ghost src = jsons(v@);
    let mut i: usize = v.len();
    proof {
        lemma_take_full(src);
    }
    while i > 0
        invariant
            i <= v@.len(),
            src == jsons(v@),
            last_plan(src) == last_plan(src.take(i as int)),
        decreases i,
    {
        i = i - 1;
        proof {
            lemma_take_step(src, i as int);
            assert(src[i as int] == v@[i as int]@);
        }
        if let Some(p) = todo_items_from_raw_call(&v[i]) {
            return Some(p);
        }
    }
    None
}

pub fn latest_todo_items_from_events(events: &[SessionEvent]) -> (r: Option<Vec<TodoUiItem>>)
    ensures
        opt_todos(r) == latest_plan(event_views(events@)),
{
    let ghost src = event_views(events@);
    let mut i: usize = events.len();
    proof {
        lemma_take_full(src);
    }
    while i > 0
        invariant
            i <= events@.len(),
            src == event_views(events@),
            latest_plan(src) == latest_plan(src.take(i as int)),
        decreases i,
    {
        i = i - 1;
        proof {
            lemma_take_step(src, i as int);
            assert(src[i as int] == events@[i as int]@);
        }
        if let SessionEvent::Message(m) = &events[i] {
            if let Some(p) = last_plan_of(&m.tool_calls) {
                return Some(p);
            }
        }
    }
    None
}

/// Whether the result of a tool is shown by itself: a plan, on an interactive screen.
pub fn should_print_tool_result_ui(
    format: OutputFormat,
    show_static_status_bar: bool,
    message: &ChatMessage,
) -> (r: bool)
    ensures
        r == (show_static_status_bar && format == OutputFormat::Text && message@.role == "tool"@ && (
        message@.name matches Some(n) && is_todo(n)) && !is_blank(message@.content)),
{
    if !show_static_status_bar || !str_eq(message.role.as_str(), "tool") || blank(
        message.content.as_str(),
    ) {
        return false;
    }
    let text = match format {
        OutputFormat::Text => true,
        _ => false,
    };
    match &message.name {
        Some(n) => text && is_todo_tool_name(n.as_str()),
        None => false,
    }
}

// ---------------------------------------------------------------------------
// Reading before writing
// ---------------------------------------------------------------------------

pub open spec fn full_path(path: Seq<char>, cwd: Option<Seq<char>>) -> Seq<char> {
    match cwd {
        Some(d) => joined_path(d, path),
        None => path,
    }
}

pub open spec fn reads_file(name: Seq<char>) -> bool {
    name == "Read"@ || name == "read"@
}

pub open spec fn writes_file(name: Seq<char>) -> bool {
    name == "Edit"@ || name == "Write"@ || name == "edit"@ || name == "write"@
}

/// The full path of the file that a call is about.
pub open spec fn file_of_call(c: CallView, cwd: Option<Seq<char>>) -> Option<Seq<char>> {
    if reads_file(c.name) || writes_file(c.name) {
        match either_text(c.arguments, "file_path"@, "path"@) {
            Some(p) => Some(full_path(p, cwd)),
            None => None,
        }
    } else {
        None
    }
}

fn name_reads(name: &str) -> (r: bool)
    ensures
        r == reads_file(name@),
{
    str_eq(name, "Read") || str_eq(name, "read")
}

fn name_writes(name: &str) -> (r: bool)
    ensures
        r == writes_file(name@),
{
    str_eq(name, "Edit") || str_eq(name, "Write") || str_eq(name, "edit") || str_eq(name, "write")
}

pub fn call_file_path(call: &ToolCall, cwd: &Option<String>) -> (r: Option<String>)
    ensures
        opt_text(r) == file_of_call(call@, opt_text(*cwd)),
{
    let name = call.name.as_str();
    if name_reads(name) || name_writes(name) {
        match either_text_in(&call.arguments, "file_path", "path") {
            Some(p) => Some(normalize_tool_path(p.as_str(), cwd)),
            None => None,
        }
    } else {
        None
    }
}

/// Whether a value stands for a call that reads a file.
pub open spec fn reads_path(
    call: Result<CallView, Failure>,
    path: Seq<char>,
    cwd: Option<Seq<char>>,
) -> bool {
    call matches Ok(c) && reads_file(c.name) && file_of_call(c, cwd) == Some(path)
}

pub open spec fn some_call_reads(v: Seq<JsonView>, path: Seq<char>, cwd: Option<Seq<char>>) -> bool {
    exists|i: int| 0 <= i < v.len() && reads_path(call_of(#[trigger] v[i]), path, cwd)
}

pub open spec fn message_reads(m: MessageView, path: Seq<char>, cwd: Option<Seq<char>>) -> bool {
    m.tool_calls matches Some(v) && some_call_reads(v, path, cwd)
}

/// Whether a file was read in a conversation.
pub open spec fn has_read(v: Seq<MessageView>, path: Seq<char>, cwd: Option<Seq<char>>) -> bool {
    exists|i: int| 0 <= i < v.len() && message_reads(#[trigger] v[i], path, cwd)
}

fn call_reads_path(raw: &Json, path: &str, cwd: &Option<String>) -> (r: bool)
    ensures
        r == reads_path(call_of(raw@), path@, opt_text(*cwd)),
{
    match parse_tool_call(raw) {
        Ok(c) => name_reads(c.name.as_str()) && opt_eq(&call_file_path(&c, cwd), path),
        Err(_) => false,
    }
}

fn calls_read_path(v: &Vec<Json>, path: &str, cwd: &Option<String>) -> (r: bool)
    ensures
        r == some_call_reads(jsons(v@), path@, opt_text(*cwd)),
{
    let ghost src = jsons(v@);
    let mut i: usize = 0;
    while i < v.len()
        invariant
            i <= v@.len(),
            src == jsons(v@),
            forall|k: int|
                0 <= k < i ==> !reads_path(call_of(#[trigger] src[k]), path@, opt_text(*cwd)),
        decreases v@.len() - i,
    {
        proof {
            assert(src[i as int] == v@[i as int]@);
        }
        if call_reads_path(&v[i], path, cwd) {
            return true;
        }
        i = i + 1;
    }
    false
}

pub fn transcript_has_read_for_path(
    transcript: &[ChatMessage],
    target_path: &str,
    cwd: &Option<String>,
) -> (r: bool)
    ensures
        r == has_read(message_views(transcript@), target_path@, opt_text(*cwd)),
{
    let ghost src = message_views(transcript@);
    let mut i: usize = 0;
    while i < transcript.len()
        invariant
            i <= transcript@.len(),
            src == message_views(transcript@),
            forall|k: int|
                0 <= k < i ==> !message_reads(#[trigger] src[k], target_path@, opt_text(*cwd)),
        decreases transcript@.len() - i,
    {
        proof {
            assert(src[i as int] == transcript@[i as int]@);
        }
        if let Some(v) = &transcript[i].tool_calls {
            if calls_read_path(v, target_path, cwd) {
                return true;
            }
        }
        i = i + 1;
    }
    false
}

/// Whether a call changes a file that was not read before. A file that is not there, or one
/// that is blank and is given its first text, need not have been read.
pub open spec fn unread_path(
    v: Seq<MessageView>,
    c: CallView,
    cwd: Option<Seq<char>>,
    exists_there: bool,
    content: Option<Seq<char>>,
) -> Option<Seq<char>> {
    match file_of_call(c, cwd) {
        Some(path) => if writes_file(c.name) && exists_there && !(c.arguments.at(
            "old_string"@,
        ).text() == Some(Seq::<char>::empty()) && (content matches Some(t) && is_blank(t)))
            && !has_read(v, path, cwd) {
            Some(path)
        } else {
            None
        },
        None => None,
    }
}

pub open spec fn unread_failure(c: CallView, path: Seq<char>) -> Failure {
    failure(
        EXIT_ARGS,
        c.name + ": file must be read first with Read before modifying `"@ + path + "`"@,
    )
}

/// Refuses a call that changes a file which was not read before. `exists` and `content` tell of
/// the file that the call is about.
pub fn call_requires_prior_read(
    transcript: &[ChatMessage],
    call: &ToolCall,
    cwd: &Option<String>,
    file_exists: bool,
    content: &Option<String>,
) -> (r: AppResult<()>)
    ensures
        match unread_path(
            message_views(transcript@),
            call@,
            opt_text(*cwd),
            file_exists,
            opt_text(*content),
        ) {
            Some(path) => r matches Err(e) && e@ == unread_failure(call@, path),
            None => r is Ok,
        },
{
    let path = match call_file_path(call, cwd) {
        Some(p) => p,
        None => {
            return Ok(());
        },
    };
    if !name_writes(call.name.as_str()) || !file_exists {
        return Ok(());
    }
    let first_text = match text_in(call.arguments.get("old_string")) {
        Some(t) => {
            let empty = t.as_str().is_empty();
            proof {
                if empty {
                    assert(t@ =~= Seq::<char>::empty());
                }
            }
            empty
        },
        None => false,
    };
    if first_text {
        if let Some(t) = content {
            if blank(t.as_str()) {
                return Ok(());
            }
        }
    }
    if transcript_has_read_for_path(transcript, path.as_str(), cwd) {
        return Ok(());
    }
    let message = call.name.clone().concat(
        ": file must be read first with Read before modifying `",
    ).concat(path.as_str()).concat("`");
    Err(AppError::new(EXIT_ARGS, message.as_str()))
}

/// Once a call to read a file is in the conversation, changing that file is not refused.
pub proof fn law_reading_allows_writing(
    v: Seq<MessageView>,
    c: CallView,
    cwd: Option<Seq<char>>,
    content: Option<Seq<char>>,
    i: int,
    k: int,
)
    requires
        0 <= i < v.len(),
        v[i].tool_calls is Some,
        0 <= k < v[i].tool_calls->Some_0.len(),
        file_of_call(c, cwd) is Some,
        reads_path(call_of(v[i].tool_calls->Some_0[k]), file_of_call(c, cwd)->Some_0, cwd),
    ensures
        unread_path(v, c, cwd, true, content) is None,
{
    let path = file_of_call(c, cwd)->Some_0;
    let calls = v[i].tool_calls->Some_0;
    assert(reads_path(call_of(calls[k]), path, cwd));
    assert(some_call_reads(calls, path, cwd));
    assert(message_reads(v[i], path, cwd));
}

/// The tools that a search call finds, by name.
pub open spec fn discovered(call: Result<CallView, Failure>) -> Seq<Seq<char>> {
    match call {
        Ok(c) => if c.name == "ToolSearch"@ || c.name == "tool_search"@ {
            search_result(
                c.arguments.at("query"@).text_or(""@),
                match c.arguments.at("max_results"@).unsigned() {
                    Some(n) => n as usize as nat,
                    None => 5,
                },
            ).map_values(|t: ToolEntry| t.name@)
        } else {
            Seq::empty()
        },
        Err(_) => Seq::empty(),
    }
}

/// The tools that a call finds, by name.
pub fn discovered_by_call(call: &AppResult<ToolCall>) -> (r: Vec<String>)
    ensures
        texts(r@) == discovered(call_result(*call)),
{
    if let Ok(c) = call {
        if str_eq(c.name.as_str(), "ToolSearch") || str_eq(c.name.as_str(), "tool_search") {
            let query = text_in_or(c.arguments.get("query"), "");
            let max: usize = match unsigned_in(c.arguments.get("max_results")) {
                Some(n) => n as usize,
                None => 5,
            };
            return found_tool_names(query.as_str(), max);
        }
    }
    let out: Vec<String> = Vec::new();
    proof {
        assert(texts(out@) =~= Seq::<Seq<char>>::empty());
    }
    out
}

pub fn discovered_tool_names_from_search(raw_call: &Json) -> (r: Vec<String>)
    ensures
        texts(r@) == discovered(call_of(raw_call@)),
{
    let call = parse_tool_call(raw_call);
    discovered_by_call(&call)
}

// ---------------------------------------------------------------------------
// Answers
// ---------------------------------------------------------------------------

/// The message that answers a call.
pub open spec fn tool_answer(content: Seq<char>, id: Seq<char>, name: Seq<char>) -> MessageView {
    MessageView {
        role: "tool"@,
        content,
        images: Seq::empty(),
        tool_calls: None,
        tool_call_id: Some(id),
        name: Some(name),
    }
}

fn answer_message(content: String, id: String, name: String) -> (r: ChatMessage)
    ensures
        r@ == tool_answer(content@, id@, name@),
{
    let r = ChatMessage {
        role: "tool".to_owned(),
        content,
        images: Vec::new(),
        tool_calls: None,
        tool_call_id: Some(id),
        name: Some(name),
    };
    proof {
        assert(image_views(r.images@) =~= Seq::<ImageView>::empty());
    }
    r
}

pub open spec fn outcome_answer(c: CallView, outcome: AppResult<ToolResult>) -> MessageView {
    match outcome {
        Ok(t) => tool_answer(t.content@, t.tool_call_id@, c.name),
        Err(e) => tool_answer("tool execution error: "@ + e@.message, c.id, c.name),
    }
}

/// The message that answers a call with what came of it.
pub fn tool_result_message(call: &ToolCall, outcome: AppResult<ToolResult>) -> (r: ChatMessage)
    ensures
        r@ == outcome_answer(call@, outcome),
{
    match outcome {
        Ok(t) => answer_message(t.content, t.tool_call_id, call.name.clone()),
        Err(e) => answer_message(
            "tool execution error: ".to_owned().concat(e.message.as_str()),
            call.id.clone(),
            call.name.clone(),
        ),
    }
}

/// What a value asks for: a call to be made, or an answer without one.
#[derive(Debug)]
pub enum ToolStart {
    Run(ToolCall),
    Answer(ChatMessage),
}

pub enum StartView {
    Run(CallView),
    Answer(MessageView),
}

impl View for ToolStart {
    type V = StartView;

    open spec fn view(&self) -> StartView {
        match self {
            ToolStart::Run(c) => StartView::Run(c@),
            ToolStart::Answer(m) => StartView::Answer(m@),
        }
    }
}

pub open spec fn invocation_answer(raw: JsonView, message: Seq<char>) -> MessageView {
    tool_answer(
        "tool invocation error: "@ + message,
        raw.at("id"@).text_or("invalid_tool_call"@),
        raw.at("function"@).at("name"@).text_or("unknown_tool"@),
    )
}

pub open spec fn start_of(
    raw: JsonView,
    call: Result<CallView, Failure>,
    v: Seq<MessageView>,
    cwd: Option<Seq<char>>,
    exists_there: bool,
    content: Option<Seq<char>>,
) -> StartView {
    match call {
        Ok(c) => match unread_path(v, c, cwd, exists_there, content) {
            Some(path) => StartView::Answer(
                tool_answer(
                    "tool execution error: "@ + unread_failure(c, path).message,
                    c.id,
                    c.name,
                ),
            ),
            None => StartView::Run(c),
        },
        Err(e) => StartView::Answer(invocation_answer(raw, e.message)),
    }
}

/// Decides whether a call is made, given the call that a value stands for and what is known of
/// the file that it is about.
pub fn start_call(
    raw_call: &Json,
    call: AppResult<ToolCall>,
    transcript: &[ChatMessage],
    cwd: &Option<String>,
    file_exists: bool,
    content: &Option<String>,
) -> (r: ToolStart)
    ensures
        r@ == start_of(
            raw_call@,
            call_result(call),
            message_views(transcript@),
            opt_text(*cwd),
            file_exists,
            opt_text(*content),
        ),
{
    match call {
        Ok(c) => match call_requires_prior_read(transcript, &c, cwd, file_exists, content) {
            Ok(_) => ToolStart::Run(c),
            Err(e) => ToolStart::Answer(
                answer_message(
                    "tool execution error: ".to_owned().concat(e.message.as_str()),
                    c.id,
                    c.name,
                ),
            ),
        },
        Err(e) => {
            let id = text_in_or(raw_call.get("id"), "invalid_tool_call");
            let name = text_in_or(get_in(raw_call.get("function"), "name"), "unknown_tool");
            ToolStart::Answer(
                answer_message(
                    "tool invocation error: ".to_owned().concat(e.message.as_str()),
                    id,
                    name,
                ),
            )
        },
    }
}

/// Decides whether a call is made, given what is known of the file that it is about.
pub fn start_tool_call(
    raw_call: &Json,
    transcript: &[ChatMessage],
    cwd: &Option<String>,
    file_exists: bool,
    content: &Option<String>,
) -> (r: ToolStart)
    ensures
        r@ == start_of(
            raw_call@,
            call_of(raw_call@),
            message_views(transcript@),
            opt_text(*cwd),
            file_exists,
            opt_text(*content),
        ),
{
    let call = parse_tool_call(raw_call);
    start_call(raw_call, call, transcript, cwd, file_exists, content)
}

/// Every call is answered under its own identifier.
pub proof fn law_answer_has_id(
    raw: JsonView,
    call: Result<CallView, Failure>,
    v: Seq<MessageView>,
    cwd: Option<Seq<char>>,
    exists_there: bool,
    content: Option<Seq<char>>,
    m: MessageView,
)
    requires
        start_of(raw, call, v, cwd, exists_there, content) == StartView::Answer(m),
    ensures
        m.role == "tool"@,
        m.tool_call_id == Some(
            match call {
                Ok(c) => c.id,
                Err(_) => raw.at("id"@).text_or("invalid_tool_call"@),
            },
        ),
{
}

} // verus!
