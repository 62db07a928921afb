//! What tools are asked to do and how their results are put in words.

use crate::ansi::{DIM, GREEN, RED, RESET};
use crate::config::{join_path, joined_path, text_result};
use crate::diff::{align_right, right_aligned};
use crate::error::{AppError, AppResult, EXIT_ARGS, Failure, failure};
use crate::json::{
    Json, JsonView, array, field_views, flag_in, get_in, json_text, jsons, lemma_jsons_push,
    object, object2, parse_json, parsed_json, pretty_json, print_json_pretty, text_in,
    text_in_or, unsigned_in,
};
use crate::paths::{below, path_below};
use crate::render::pad_len;
use crate::table::{text_before, text_lt};
use crate::text::{
    ascii_lower, blank, byte_len, byte_prefix, bytes_len, char_in, chars_of, decimal,
    decimal_string, is_blank, join, join_strings, lemma_take_full, lemma_take_step,
    lemma_texts_push, lines, lines_of, opt_eq, opt_str, opt_text, repeat, repeat_str,
    starts_with, starts_with_spec, str_eq, substring, take_bytes, texts, to_ascii_lower, trim,
    trimmed,
};
use crate::tools::{
    CallView, ToolCall, ToolEntry, ToolSideEffects, ToolSpec, definition, lookup_tool_spec,
    search_result, strs_json, strs_json_of, tool_named, tool_search_matches, tool_views,
};
use vstd::prelude::*;

verus! {

// ---------------------------------------------------------------------------
// What is asked
// ---------------------------------------------------------------------------

/// What a call asks for.
#[derive(Debug)]
pub enum ToolPlan {
    Search(String, u64),
    Read(String, Option<u64>, Option<u64>),
    Edit(EditPlan),
    Bash(String),
    Grep(GrepPlan),
    Glob(String, String),
    Fetch(String),
    SkillsList(Option<String>),
    SkillRead(String, Option<String>),
    Unknown(String),
}

#[derive(Debug)]
pub struct EditPlan {
    pub path: String,
    pub old_string: String,
    pub new_string: String,
    pub replace_all: bool,
}

#[derive(Debug)]
pub struct GrepPlan {
    pub pattern: String,
    pub path: String,
    pub filter: Option<String>,
    pub output_mode: String,
}

/// What a call asks for, by its parts.
pub enum PlanView {
    Search(Seq<char>, u64),
    Read(Seq<char>, Option<u64>, Option<u64>),
    Edit(Seq<char>, Seq<char>, Seq<char>, bool),
    Bash(Seq<char>),
    Grep(Seq<char>, Seq<char>, Option<Seq<char>>, Seq<char>),
    Glob(Seq<char>, Seq<char>),
    Fetch(Seq<char>),
    SkillsList(Option<Seq<char>>),
    SkillRead(Seq<char>, Option<Seq<char>>),
    Unknown(Seq<char>),
}

impl View for ToolPlan {
    type V = PlanView;

    open spec fn view(&self) -> PlanView {
        match self {
            ToolPlan::Search(q, n) => PlanView::Search(q@, *n),
            ToolPlan::Read(p, o, l) => PlanView::Read(p@, *o, *l),
            ToolPlan::Edit(e) => PlanView::Edit(
                e.path@,
                e.old_string@,
                e.new_string@,
                e.replace_all,
            ),
            ToolPlan::Bash(c) => PlanView::Bash(c@),
            ToolPlan::Grep(g) => PlanView::Grep(
                g.pattern@,
                g.path@,
                opt_text(g.filter),
                g.output_mode@,
            ),
            ToolPlan::Glob(p, d) => PlanView::Glob(p@, d@),
            ToolPlan::Fetch(u) => PlanView::Fetch(u@),
            ToolPlan::SkillsList(q) => PlanView::SkillsList(opt_text(*q)),
            ToolPlan::SkillRead(n, s) => PlanView::SkillRead(n@, opt_text(*s)),
            ToolPlan::Unknown(n) => PlanView::Unknown(n@),
        }
    }
}

pub open spec fn plan_result(r: AppResult<ToolPlan>) -> Result<PlanView, Failure> {
    match r {
        Ok(p) => Ok(p@),
        Err(e) => Err(e@),
    }
}

/// The first of two fields of an object that is a text.
pub open spec fn either_text(v: JsonView, a: Seq<char>, b: Seq<char>) -> Option<Seq<char>> {
    match v.at(a).text() {
        Some(t) => Some(t),
        None => v.at(b).text(),
    }
}

pub fn either_text_in(v: &Json, a: &str, b: &str) -> (r: Option<String>)
    ensures
        opt_text(r) == either_text(v@, a@, b@),
{
    match text_in(v.get(a)) {
        Some(t) => Some(t),
        None => text_in(v.get(b)),
    }
}

pub open spec fn missing(message: Seq<char>) -> Result<PlanView, Failure> {
    Err(failure(EXIT_ARGS, message))
}

/// What a call of a tool asks for: by the tool's own name, from its arguments.
pub open spec fn plan_for(tool: Seq<char>, a: JsonView) -> Result<PlanView, Failure> {
    if tool == "ToolSearch"@ {
        match a.at("query"@).text() {
            None => missing("ToolSearch: missing 'query' argument"@),
            Some(q) => Ok(
                PlanView::Search(
                    q,
                    match a.at("max_results"@).unsigned() {
                        Some(n) => n,
                        None => 5,
                    },
                ),
            ),
        }
    } else if tool == "Read"@ {
        match either_text(a, "file_path"@, "path"@) {
            None => missing("Read: missing 'file_path' argument"@),
            Some(p) => Ok(
                PlanView::Read(p, a.at("offset"@).unsigned(), a.at("limit"@).unsigned()),
            ),
        }
    } else if tool == "Edit"@ {
        match either_text(a, "file_path"@, "path"@) {
            None => missing("Edit: missing 'file_path' argument"@),
            Some(p) => match either_text(a, "new_string"@, "content"@) {
                None => missing("Edit: missing 'new_string' argument"@),
                Some(n) => Ok(
                    PlanView::Edit(
                        p,
                        a.at("old_string"@).text_or(Seq::empty()),
                        n,
                        a.at("replace_all"@).flag() == Some(true),
                    ),
                ),
            },
        }
    } else if tool == "Bash"@ {
        match a.at("command"@).text() {
            None => missing("Bash: missing 'command' argument"@),
            Some(c) => Ok(PlanView::Bash(c)),
        }
    } else if tool == "Grep"@ {
        match a.at("pattern"@).text() {
            None => missing("Grep: missing 'pattern' argument"@),
            Some(p) => Ok(
                PlanView::Grep(
                    p,
                    a.at("path"@).text_or("."@),
                    either_text(a, "glob"@, "include"@),
                    a.at("output_mode"@).text_or("files_with_matches"@),
                ),
            ),
        }
    } else if tool == "Glob"@ {
        match a.at("pattern"@).text() {
            None => missing("Glob: missing 'pattern' argument"@),
            Some(p) => Ok(PlanView::Glob(p, a.at("path"@).text_or("."@))),
        }
    } else if tool == "WebFetch"@ {
        match a.at("url"@).text() {
            None => missing("WebFetch: missing 'url' argument"@),
            Some(u) => Ok(PlanView::Fetch(u)),
        }
    } else if tool == "SkillsList"@ {
        Ok(PlanView::SkillsList(a.at("query"@).text()))
    } else {
        match a.at("name"@).text() {
            None => missing("skill_read tool: missing 'name' argument"@),
            Some(n) => Ok(PlanView::SkillRead(n, a.at("scope"@).text())),
        }
    }
}

/// What a call asks for.
pub open spec fn call_plan(c: CallView) -> Result<PlanView, Failure> {
    match tool_named(c.name) {
        None => Ok(PlanView::Unknown(c.name)),
        Some(t) => plan_for(t.name@, c.arguments),
    }
}

fn missing_argument(message: &str) -> (r: AppResult<ToolPlan>)
    ensures
        plan_result(r) == missing(message@),
{
    Err(AppError::new(EXIT_ARGS, message))
}

fn plan_named(name: &str, a: &Json) -> (r: AppResult<ToolPlan>)
    ensures
        plan_result(r) == plan_for(name@, a@),
{
    proof {
        reveal_strlit("");
        assert(""@ =~= Seq::<char>::empty());
    }
    if str_eq(name, "ToolSearch") {
        match text_in(a.get("query")) {
            None => missing_argument("ToolSearch: missing 'query' argument"),
            Some(q) => {
                let max: u64 = match unsigned_in(a.get("max_results")) {
                    Some(n) => n,
                    None => 5,
                };
                Ok(ToolPlan::Search(q, max))
            },
        }
    } else if str_eq(name, "Read") {
        match either_text_in(a, "file_path", "path") {
            None => missing_argument("Read: missing 'file_path' argument"),
            Some(p) => Ok(
                ToolPlan::Read(p, unsigned_in(a.get("offset")), unsigned_in(a.get("limit"))),
            ),
        }
    } else if str_eq(name, "Edit") {
        match either_text_in(a, "file_path", "path") {
            None => missing_argument("Edit: missing 'file_path' argument"),
            Some(path) => match either_text_in(a, "new_string", "content") {
                None => missing_argument("Edit: missing 'new_string' argument"),
                Some(new_string) => {
                    let replace_all = match flag_in(a.get("replace_all")) {
                        Some(b) => b,
                        None => false,
                    };
                    let old_string = text_in_or(a.get("old_string"), "");
                    Ok(ToolPlan::Edit(EditPlan { path, old_string, new_string, replace_all }))
                },
            },
        }
    } else if str_eq(name, "Bash") {
        match text_in(a.get("command")) {
            None => missing_argument("Bash: missing 'command' argument"),
            Some(c) => Ok(ToolPlan::Bash(c)),
        }
    } else if str_eq(name, "Grep") {
        match text_in(a.get("pattern")) {
            None => missing_argument("Grep: missing 'pattern' argument"),
            Some(pattern) => Ok(
                ToolPlan::Grep(
                    GrepPlan {
                        pattern,
                        path: text_in_or(a.get("path"), "."),
                        filter: either_text_in(a, "glob", "include"),
                        output_mode: text_in_or(a.get("output_mode"), "files_with_matches"),
                    },
                ),
            ),
        }
    } else if str_eq(name, "Glob") {
        match text_in(a.get("pattern")) {
            None => missing_argument("Glob: missing 'pattern' argument"),
            Some(p) => Ok(ToolPlan::Glob(p, text_in_or(a.get("path"), "."))),
        }
    } else if str_eq(name, "WebFetch") {
        match text_in(a.get("url")) {
            None => missing_argument("WebFetch: missing 'url' argument"),
            Some(u) => Ok(ToolPlan::Fetch(u)),
        }
    } else if str_eq(name, "SkillsList") {
        Ok(ToolPlan::SkillsList(text_in(a.get("query"))))
    } else {
        match text_in(a.get("name")) {
            None => missing_argument("skill_read tool: missing 'name' argument"),
            Some(n) => Ok(ToolPlan::SkillRead(n, text_in(a.get("scope")))),
        }
    }
}

/// Works out what a call asks for.
pub fn plan_tool(call: &ToolCall) -> (r: AppResult<ToolPlan>)
    ensures
        plan_result(r) == call_plan(call@),
{
    match lookup_tool_spec(call.name.as_str()) {
        None => Ok(ToolPlan::Unknown(call.name.clone())),
        Some(t) => plan_named(t.name, &call.arguments),
    }
}

/// What is answered for a tool that is not known.
pub fn unknown_tool_text(name: &str) -> (r: String)
    ensures
        r@ == "error: unknown tool '"@ + name@ + "'"@,
{
    "error: unknown tool '".to_owned().concat(name).concat("'")
}

// ---------------------------------------------------------------------------
// Paths
// ---------------------------------------------------------------------------

/// The full path of a path that a tool was given.
pub fn normalize_tool_path(path: &str, cwd: &Option<String>) -> (r: String)
    ensures
        r@ == match opt_text(*cwd) {
            Some(d) => joined_path(d, path@),
            None => path@,
        },
{
    match cwd {
        Some(d) => join_path(d.as_str(), path),
        None => path.to_owned(),
    }
}

/// A path as it is shown: below the current directory without that.
pub open spec fn shown_path(path: Seq<char>, cwd: Option<Seq<char>>) -> Seq<char> {
    match cwd {
        Some(d) => match below(path, d) {
            Some(rest) => rest,
            None => path,
        },
        None => path,
    }
}

pub fn display_tool_path(path: &str, cwd: &Option<String>) -> (r: String)
    ensures
        r@ == shown_path(path@, opt_text(*cwd)),
{
    match cwd {
        Some(d) => match path_below(path, d.as_str()) {
            Some(rest) => rest,
            None => path.to_owned(),
        },
        None => path.to_owned(),
    }
}

// ---------------------------------------------------------------------------
// Reading
// ---------------------------------------------------------------------------

/// The greatest number of lines that are read at once.
pub const MAX_READ_LINES: usize = 2000;

/// How many lines are read.
pub open spec fn read_limit(limit: Option<u64>) -> nat {
    match limit {
        Some(n) if n < MAX_READ_LINES => n as nat,
        _ => MAX_READ_LINES as nat,
    }
}

/// How many lines are skipped.
pub open spec fn read_skip(offset: Option<u64>) -> nat {
    match offset {
        Some(n) if n >= 1 => (n - 1) as nat,
        _ => 0,
    }
}

/// The lines `from` to `to` with their numbers.
pub open spec fn numbered_lines(v: Seq<Seq<char>>, from: int, to: int) -> Seq<Seq<char>>
    decreases to - from,
{
    if to <= from {
        Seq::empty()
    } else {
        numbered_lines(v, from, to - 1).push(
            right_aligned(decimal(to as nat), 6) + "\t"@ + v[to - 1],
        )
    }
}

/// The part of a file that is read: numbered lines, and a note where more follow.
pub open spec fn read_text(text: Seq<char>, offset: Option<u64>, limit: Option<u64>) -> Seq<char> {
    let v = lines(text);
    let from = if read_skip(offset) < v.len() {
        read_skip(offset)
    } else {
        v.len()
    };
    let end = read_skip(offset) + read_limit(limit);
    let to = if end < v.len() {
        end
    } else {
        v.len()
    };
    let body = join(numbered_lines(v, from as int, to as int), "\n"@);
    if v.len() > end {
        body + "\n... (truncated at "@ + decimal(read_limit(limit))
            + " lines; use offset and limit to read more)"@
    } else {
        body
    }
}

pub fn tool_read(text: &str, offset: Option<u64>, limit: Option<u64>) -> (r: String)
    ensures
        r@ == read_text(text@, offset, limit),
{
    let all = lines_of(text);
    let ghost v = texts(all@);
    let n: usize = all.len();
    let skip: u64 = match offset {
        Some(k) => {
            if k >= 1 {
                k - 1
            } else {
                0
            }
        },
        None => 0,
    };
    let count: usize = match limit {
        Some(k) => {
            if k < MAX_READ_LINES as u64 {
                k as usize
            } else {
                MAX_READ_LINES
            }
        },
        None => MAX_READ_LINES,
    };
    let from: usize = if skip < n as u64 {
        skip as usize
    } else {
        n
    };
    let more = n - from > count;
    let to: usize = if more {
        from + count
    } else {
        n
    };
    let mut out: Vec<String> = Vec::new();
    let mut i: usize = from;
    proof {
        assert(texts(out@) =~= numbered_lines(v, from as int, from as int));
    }
    while i < to
        invariant
            from <= i <= to,
            to <= n,
            n == all@.len(),
            v == texts(all@),
            texts(out@) == numbered_lines(v, from as int, i as int),
        decreases to - i,
    {
        let number = decimal_string((i + 1) as u64);
        let line = align_right(number.as_str(), 6).concat("\t").concat(all[i].as_str());
        proof {
            lemma_texts_push(out@, line);
        }
        out.push(line);
        i = i + 1;
    }
    let body = join_strings(&out, "\n");
    if more {
        body.concat("\n... (truncated at ").concat(decimal_string(count as u64).as_str()).concat(
            " lines; use offset and limit to read more)",
        )
    } else {
        body
    }
}

// ---------------------------------------------------------------------------
// Shell
// ---------------------------------------------------------------------------

/// A number that may be negative in decimal.
pub open spec fn signed_decimal(n: int) -> Seq<char> {
    if n < 0 {
        "-"@ + decimal((-n) as nat)
    } else {
        decimal(n as nat)
    }
}

pub fn signed_string(n: i32) -> (r: String)
    ensures
        r@ == signed_decimal(n as int),
{
    let wide: i64 = n as i64;
    if wide < 0 {
        "-".to_owned().concat(decimal_string((-wide) as u64).as_str())
    } else {
        decimal_string(wide as u64)
    }
}

/// What a shell command gave: its output, its errors, and how it ended where it failed.
pub open spec fn bash_text(
    stdout: Seq<char>,
    stderr: Seq<char>,
    success: bool,
    code: Option<i32>,
) -> Seq<char> {
    let body = if stderr.len() == 0 {
        stdout
    } else if stdout.len() == 0 {
        "[stderr]\n"@ + stderr
    } else {
        stdout + "\n"@ + "[stderr]\n"@ + stderr
    };
    let all = if success {
        body
    } else {
        body + "\n[exit code: "@ + signed_decimal(
            match code {
                Some(c) => c as int,
                None => -1,
            },
        ) + "]"@
    };
    if all.len() == 0 {
        "(no output)"@
    } else {
        all
    }
}

pub fn tool_bash(stdout: &str, stderr: &str, success: bool, code: Option<i32>) -> (r: String)
    ensures
        r@ == bash_text(stdout@, stderr@, success, code),
{
    let mut out = stdout.to_owned();
    if !stderr.is_empty() {
        if stdout.is_empty() {
            out = "[stderr]\n".to_owned().concat(stderr);
        } else {
            out.append("\n");
            out.append("[stderr]\n");
            out.append(stderr);
        }
    }
    if !success {
        let c: i32 = match code {
            Some(c) => c,
            None => -1,
        };
        out.append("\n[exit code: ");
        out.append(signed_string(c).as_str());
        out.append("]");
    }
    if out.as_str().is_empty() {
        return "(no output)".to_owned();
    }
    out
}

// ---------------------------------------------------------------------------
// Searching files
// ---------------------------------------------------------------------------

/// The arguments of every search.
pub open spec fn common_args(filter: Option<Seq<char>>) -> Seq<Seq<char>> {
    let base = seq![
        "--color"@,
        "never"@,
        "--with-filename"@,
        "--follow"@,
        "--hidden"@,
        "--no-messages"@,
        "--glob"@,
        "!.git/**"@,
        "--glob"@,
        "!node_modules/**"@,
        "--glob"@,
        "!target/**"@,
    ];
    match filter {
        Some(g) => base.push("--glob"@).push(g),
        None => base,
    }
}

fn push_arg(args: &mut Vec<String>, arg: &str)
    ensures
        texts(final(args)@) == texts(old(args)@).push(arg@),
{
    let a = arg.to_owned();
    proof {
        lemma_texts_push(args@, a);
    }
    args.push(a);
}

pub fn build_ripgrep_common_args(filter: Option<&str>) -> (r: Vec<String>)
    ensures
        texts(r@) == common_args(opt_str(filter)),
{
    let mut args: Vec<String> = Vec::new();
    push_arg(&mut args, "--color");
    push_arg(&mut args, "never");
    push_arg(&mut args, "--with-filename");
    push_arg(&mut args, "--follow");
    push_arg(&mut args, "--hidden");
    push_arg(&mut args, "--no-messages");
    push_arg(&mut args, "--glob");
    push_arg(&mut args, "!.git/**");
    push_arg(&mut args, "--glob");
    push_arg(&mut args, "!node_modules/**");
    push_arg(&mut args, "--glob");
    push_arg(&mut args, "!target/**");
    proof {
        assert(texts(args@) =~= common_args(None));
    }
    if let Some(g) = filter {
        push_arg(&mut args, "--glob");
        push_arg(&mut args, g);
    }
    args
}

/// The arguments of a search whose matches are read as JSON.
pub fn build_ripgrep_args(pattern: &str, path: &str, filter: Option<&str>) -> (r: Vec<String>)
    ensures
        texts(r@) == common_args(opt_str(filter)).push("--json"@).push("--line-number"@).push(
            "--"@,
        ).push(pattern@).push(path@),
{
    let mut args = build_ripgrep_common_args(filter);
    push_arg(&mut args, "--json");
    push_arg(&mut args, "--line-number");
    push_arg(&mut args, "--");
    push_arg(&mut args, pattern);
    push_arg(&mut args, path);
    args
}

/// The arguments of a search in some mode of output.
pub open spec fn grep_args(
    mode: Seq<char>,
    pattern: Seq<char>,
    path: Seq<char>,
    filter: Option<Seq<char>>,
) -> Result<Seq<Seq<char>>, Failure> {
    let base = common_args(filter);
    if mode == "content"@ {
        Ok(base.push("--json"@).push("--line-number"@).push("--"@).push(pattern).push(path))
    } else if mode == "files_with_matches"@ {
        Ok(base.push("-l"@).push("--"@).push(pattern).push(path))
    } else if mode == "count"@ {
        Ok(base.push("-c"@).push("--"@).push(pattern).push(path))
    } else {
        Err(failure(EXIT_ARGS, "unsupported Grep output_mode `"@ + mode + "`"@))
    }
}

pub open spec fn args_result(r: AppResult<Vec<String>>) -> Result<Seq<Seq<char>>, Failure> {
    match r {
        Ok(v) => Ok(texts(v@)),
        Err(e) => Err(e@),
    }
}

pub fn ripgrep_args(mode: &str, pattern: &str, path: &str, filter: Option<&str>) -> (r: AppResult<
    Vec<String>,
>)
    ensures
        args_result(r) == grep_args(mode@, pattern@, path@, opt_str(filter)),
{
    if str_eq(mode, "content") {
        return Ok(build_ripgrep_args(pattern, path, filter));
    }
    let mut args = build_ripgrep_common_args(filter);
    if str_eq(mode, "files_with_matches") {
        push_arg(&mut args, "-l");
    } else if str_eq(mode, "count") {
        push_arg(&mut args, "-c");
    } else {
        let m = "unsupported Grep output_mode `".to_owned().concat(mode).concat("`");
        return Err(AppError::new(EXIT_ARGS, m.as_str()));
    }
    push_arg(&mut args, "--");
    push_arg(&mut args, pattern);
    push_arg(&mut args, path);
    Ok(args)
}

/// A text without the line ends at its end.
pub open spec fn without_line_ends(s: Seq<char>) -> Seq<char>
    decreases s.len(),
{
    if s.len() > 0 && (s.last() == '\r' || s.last() == '\n') {
        without_line_ends(s.drop_last())
    } else {
        s
    }
}

pub fn drop_line_ends(s: &str) -> (r: String)
    ensures
        r@ == without_line_ends(s@),
{
    let c = chars_of(s);
    let mut n: usize = c.len();
    proof {
        lemma_take_full(c@);
    }
    while n > 0 && (c[n - 1] == '\r' || c[n - 1] == '\n')
        invariant
            n <= c@.len(),
            without_line_ends(c@.take(n as int)) == without_line_ends(c@),
        decreases n,
    {
        proof {
            lemma_take_step(c@, n - 1);
        }
        n = n - 1;
    }
    proof {
        if n > 0 {
            lemma_take_step(c@, n - 1);
        }
    }
    let r = substring(c.as_slice(), 0, n);
    proof {
        assert(r@ =~= c@.take(n as int));
    }
    r
}

/// The line for an event of a search; only matches have one.
pub open spec fn match_line(raw: JsonView) -> Option<Seq<char>> {
    if raw.at("type"@).text() == Some("match"@) {
        let data = raw.at("data"@);
        Some(
            data.at("path"@).at("text"@).text_or(Seq::empty()) + ":"@ + decimal(
                match data.at("line_number"@).unsigned() {
                    Some(n) => n as nat,
                    None => 0,
                },
            ) + ": "@ + without_line_ends(data.at("lines"@).at("text"@).text_or(Seq::empty())),
        )
    } else {
        None
    }
}

/// The line for an event of a search.
pub fn format_match(raw: &Json) -> (r: Option<String>)
    ensures
        opt_text(r) == match_line(raw@),
{
    proof {
        reveal_strlit("");
        assert(""@ =~= Seq::<char>::empty());
    }
    let kind = text_in(raw.get("type"));
    if !opt_eq(&kind, "match") {
        return None;
    }
    let data = raw.get("data");
    let path = text_in_or(get_in(get_in(data, "path"), "text"), "");
    let number: u64 = match unsigned_in(get_in(data, "line_number")) {
        Some(n) => n,
        None => 0,
    };
    let text = text_in_or(get_in(get_in(data, "lines"), "text"), "");
    let line = drop_line_ends(text.as_str());
    Some(path.concat(":").concat(decimal_string(number).as_str()).concat(": ").concat(line.as_str()))
}

/// The matches of a search so far: their lines up to a number, and whether there were more.
pub struct Matches {
    pub found: Seq<Seq<char>>,
    pub more: bool,
}

/// The matches that the lines of output hold; a line that is no JSON is a failure.
pub open spec fn matches_of(v: Seq<Seq<char>>, max: nat) -> Result<Matches, Failure>
    decreases v.len(),
{
    if v.len() == 0 {
        Ok(Matches { found: Seq::empty(), more: false })
    } else {
        match matches_of(v.drop_last(), max) {
            Err(e) => Err(e),
            Ok(m) => if is_blank(v.last()) {
                Ok(m)
            } else {
                match parsed_json(v.last()) {
                    Err(t) => Err(failure(EXIT_ARGS, "failed to parse ripgrep output: "@ + t)),
                    Ok(raw) => match match_line(raw) {
                        None => Ok(m),
                        Some(line) => if m.found.len() < max {
                            Ok(Matches { found: m.found.push(line), ..m })
                        } else {
                            Ok(Matches { more: true, ..m })
                        },
                    },
                }
            },
        }
    }
}

proof fn lemma_matches_error(v: Seq<Seq<char>>, max: nat, i: int)
    requires
        0 <= i <= v.len(),
        matches_of(v.take(i), max) is Err,
    ensures
        matches_of(v, max) == matches_of(v.take(i), max),
    decreases v.len() - i,
{
    if i == v.len() {
        lemma_take_full(v);
    } else {
        lemma_take_step(v, i);
        lemma_matches_error(v, max, i + 1);
    }
}

pub fn parse_ripgrep_matches(stdout: &str, max_results: usize) -> (r: AppResult<(Vec<String>, bool)>)
    ensures
        match matches_of(lines(stdout@), max_results as nat) {
            Ok(m) => r matches Ok(p) && texts(p.0@) == m.found && p.1 == m.more,
            Err(f) => r matches Err(e) && e@ == f,
        },
{
    let all = lines_of(stdout);
    let ghost v = texts(all@);
    let mut found: Vec<String> = Vec::new();
    let mut more = false;
    let mut i: usize = 0;
    proof {
        assert(texts(found@) =~= Seq::<Seq<char>>::empty());
    }
    while i < all.len()
        invariant
            i <= all@.len(),
            v == texts(all@),
            v == lines(stdout@),
            matches_of(v.take(i as int), max_results as nat) == Ok::<Matches, Failure>(
                Matches { found: texts(found@), more },
            ),
        decreases all@.len() - i,
    {
        proof {
            lemma_take_step(v, i as int);
        }
        if !blank(all[i].as_str()) {
            match parse_json(all[i].as_str()) {
                Err(t) => {
                    proof {
                        lemma_matches_error(v, max_results as nat, i + 1);
                    }
                    let m = "failed to parse ripgrep output: ".to_owned().concat(t.as_str());
                    return Err(AppError::new(EXIT_ARGS, m.as_str()));
                },
                Ok(raw) => {
                    if let Some(line) = format_match(&raw) {
                        if found.len() < max_results {
                            proof {
                                lemma_texts_push(found@, line);
                            }
                            found.push(line);
                        } else {
                            more = true;
                        }
                    }
                },
            }
        }
        i = i + 1;
    }
    proof {
        lemma_take_full(v);
    }
    Ok((found, more))
}

/// How a search ended.
#[derive(Debug)]
pub struct SearchRun {
    pub code: Option<i32>,
    pub stdout: String,
    pub stderr: String,
}

/// Why a search failed, if it did: it ended with another code than found or not found.
pub open spec fn search_failure(run: SearchRun, label: Seq<char>) -> Option<Failure> {
    if run.code == Some(0i32) || run.code == Some(1i32) {
        None
    } else if is_blank(run.stderr@) {
        Some(failure(EXIT_ARGS, label))
    } else {
        Some(failure(EXIT_ARGS, label + ": "@ + trimmed(run.stderr@)))
    }
}

pub fn handle_ripgrep_plain_output(run: &SearchRun, label: &str) -> (r: AppResult<String>)
    ensures
        match search_failure(*run, label@) {
            Some(f) => r matches Err(e) && e@ == f,
            None => r matches Ok(t) && t@ == run.stdout@,
        },
{
    let fine = match run.code {
        Some(c) => c == 0 || c == 1,
        None => false,
    };
    if fine {
        return Ok(run.stdout.clone());
    }
    let t = trim(run.stderr.as_str());
    if t.as_str().is_empty() {
        return Err(AppError::new(EXIT_ARGS, label));
    }
    let m = label.to_owned().concat(": ").concat(t.as_str());
    Err(AppError::new(EXIT_ARGS, m.as_str()))
}

/// Results one below the other, with a note where there are more.
pub open spec fn result_list(found: Seq<Seq<char>>, more: bool, max: nat) -> Seq<char> {
    if found.len() == 0 {
        "no matches found"@
    } else if more {
        join(found, "\n"@) + "\n... (truncated at "@ + decimal(max) + " results)"@
    } else {
        join(found, "\n"@)
    }
}

fn result_list_of(found: &Vec<String>, more: bool, max: usize) -> (r: String)
    ensures
        r@ == result_list(texts(found@), more, max as nat),
{
    if found.len() == 0 {
        return "no matches found".to_owned();
    }
    let body = join_strings(found, "\n");
    if more {
        body.concat("\n... (truncated at ").concat(decimal_string(max as u64).as_str()).concat(
            " results)",
        )
    } else {
        body
    }
}

/// The lines that are not blank.
pub open spec fn full_lines(v: Seq<Seq<char>>) -> Seq<Seq<char>>
    decreases v.len(),
{
    if v.len() == 0 {
        Seq::empty()
    } else if is_blank(v.last()) {
        full_lines(v.drop_last())
    } else {
        full_lines(v.drop_last()).push(v.last())
    }
}

/// The first of some results.
pub open spec fn first_results(v: Seq<Seq<char>>, max: nat) -> Seq<char> {
    if v.len() > max {
        result_list(v.take(max as int), true, max)
    } else {
        result_list(v, false, max)
    }
}

fn full_lines_of(text: &str) -> (r: Vec<String>)
    ensures
        texts(r@) == full_lines(lines(text@)),
{
    let all = lines_of(text);
    let ghost v = texts(all@);
    let mut out: Vec<String> = Vec::new();
    let mut i: usize = 0;
    proof {
        assert(texts(out@) =~= Seq::<Seq<char>>::empty());
    }
    while i < all.len()
        invariant
            i <= all@.len(),
            v == texts(all@),
            texts(out@) == full_lines(v.take(i as int)),
        decreases all@.len() - i,
    {
        proof {
            lemma_take_step(v, i as int);
            lemma_texts_push(out@, all@[i as int]);
        }
        if !blank(all[i].as_str()) {
            out.push(all[i].clone());
        }
        i = i + 1;
    }
    proof {
        lemma_take_full(v);
    }
    out
}

fn first_results_of(v: &mut Vec<String>, max: usize) -> (r: String)
    ensures
        r@ == first_results(texts(old(v)@), max as nat),
{
    let ghost all = texts(v@);
    if v.len() > max {
        v.truncate(max);
        proof {
            assert(texts(v@) =~= all.take(max as int));
        }
        result_list_of(v, true, max)
    } else {
        result_list_of(v, false, max)
    }
}

/// How many results of a search are given.
pub const MAX_GREP_RESULTS: usize = 50;

/// What a search that ran gives in some mode of output.
pub open spec fn grep_outcome(mode: Seq<char>, run: SearchRun) -> Result<Seq<char>, Failure> {
    let label = if mode == "count"@ {
        "ripgrep count failed"@
    } else {
        "ripgrep search failed"@
    };
    match search_failure(run, label) {
        Some(f) => Err(f),
        None => if mode == "content"@ {
            match matches_of(lines(run.stdout@), MAX_GREP_RESULTS as nat) {
                Err(f) => Err(f),
                Ok(m) => Ok(result_list(m.found, m.more, MAX_GREP_RESULTS as nat)),
            }
        } else {
            Ok(first_results(full_lines(lines(run.stdout@)), MAX_GREP_RESULTS as nat))
        },
    }
}

pub fn tool_grep(mode: &str, run: &SearchRun) -> (r: AppResult<String>)
    ensures
        text_result(r) == grep_outcome(mode@, *run),
{
    let label = if str_eq(mode, "count") {
        "ripgrep count failed"
    } else {
        "ripgrep search failed"
    };
    let stdout = match handle_ripgrep_plain_output(run, label) {
        Ok(t) => t,
        Err(e) => {
            return Err(e);
        },
    };
    if str_eq(mode, "content") {
        match parse_ripgrep_matches(stdout.as_str(), MAX_GREP_RESULTS) {
            Err(e) => Err(e),
            Ok((found, more)) => Ok(result_list_of(&found, more, MAX_GREP_RESULTS)),
        }
    } else {
        let mut v = full_lines_of(stdout.as_str());
        Ok(first_results_of(&mut v, MAX_GREP_RESULTS))
    }
}

// ---------------------------------------------------------------------------
// Globs
// ---------------------------------------------------------------------------

/// The characters with a meaning in a regular expression that a glob takes as they are.
pub open spec fn is_special(c: char) -> bool {
    "+()[]{}^$|\\"@.contains(c)
}

/// A glob from index `i` on as a regular expression.
pub open spec fn glob_from(p: Seq<char>, i: int) -> Seq<char>
    decreases p.len() - i,
{
    if i < 0 || i >= p.len() {
        Seq::empty()
    } else if p[i] == '*' {
        if i + 1 < p.len() && p[i + 1] == '*' {
            ".*"@ + glob_from(p, i + 2)
        } else {
            "[^/]*"@ + glob_from(p, i + 1)
        }
    } else if p[i] == '?' {
        "."@ + glob_from(p, i + 1)
    } else if p[i] == '.' {
        "\\."@ + glob_from(p, i + 1)
    } else if is_special(p[i]) {
        "\\"@ + seq![p[i]] + glob_from(p, i + 1)
    } else {
        seq![p[i]] + glob_from(p, i + 1)
    }
}

/// A glob as a regular expression for whole paths.
pub open spec fn glob_regex(p: Seq<char>) -> Seq<char> {
    "^"@ + glob_from(p, 0) + "$"@
}

pub fn glob_to_regex(pattern: &str) -> (r: String)
    ensures
        r@ == glob_regex(pattern@),
{
    let c = chars_of(pattern);
    let n: usize = c.len();
    let mut out = "^".to_owned();
    let mut i: usize = 0;
    while i < n
        invariant
            i <= n,
            n == c@.len(),
            c@ == pattern@,
            out@ + glob_from(pattern@, i as int) == "^"@ + glob_from(pattern@, 0),
        decreases n - i,
    {
        let ghost before = out@;
        let ghost piece;
        let ch: char = c[i];
        if ch == '*' {
            if i + 1 < n && c[i + 1] == '*' {
                out.append(".*");
                proof {
                    piece = ".*"@;
                }
                i = i + 2;
            } else {
                out.append("[^/]*");
                proof {
                    piece = "[^/]*"@;
                }
                i = i + 1;
            }
        } else if ch == '?' {
            out.append(".");
            proof {
                piece = "."@;
            }
            i = i + 1;
        } else if ch == '.' {
            out.append("\\.");
            proof {
                piece = "\\."@;
            }
            i = i + 1;
        } else if char_in(ch, "+()[]{}^$|\\") {
            out.append("\\");
            out.push(ch);
            proof {
                piece = "\\"@ + seq![ch];
                assert(out@ =~= before + piece);
            }
            i = i + 1;
        } else {
            out.push(ch);
            proof {
                piece = seq![ch];
                assert(out@ =~= before + piece);
            }
            i = i + 1;
        }
        proof {
            assert(before + (piece + glob_from(pattern@, i as int)) =~= before + piece + glob_from(
                pattern@,
                i as int,
            ));
        }
    }
    proof {
        assert(out@ + Seq::<char>::empty() =~= out@);
    }
    out.concat("$")
}

/// Whether the `regex` crate finds a match of an expression in a text, or what is wrong with the
/// expression.
pub uninterp spec fn regex_match(expression: Seq<char>, text: Seq<char>) -> Result<bool, Seq<char>>;

/// `regex::Regex::new` and `Regex::is_match`: whether an expression matches somewhere in a text.
/// The answer, and the message of an error, depend on the two texts alone.
#[verifier::external_body]
fn regex_is_match(expression: &str, text: &str) -> (r: Result<bool, String>)
    ensures
        match r {
            Ok(b) => regex_match(expression@, text@) == Ok::<bool, Seq<char>>(b),
            Err(m) => regex_match(expression@, text@) == Err::<bool, Seq<char>>(m@),
        },
{
    match regex::Regex::new(expression) {
        Ok(re) => Ok(re.is_match(text)),
        Err(err) => Err(err.to_string()),
    }
}

/// The paths that match, in order.
pub open spec fn matching_paths(expression: Seq<char>, v: Seq<Seq<char>>) -> Seq<Seq<char>>
    decreases v.len(),
{
    if v.len() == 0 {
        Seq::empty()
    } else {
        let before = matching_paths(expression, v.drop_last());
        if regex_match(expression, v.last()) == Ok::<bool, Seq<char>>(true) {
            with_path(before, v.last())
        } else {
            before
        }
    }
}

/// Paths in order with one more.
pub open spec fn with_path(v: Seq<Seq<char>>, p: Seq<char>) -> Seq<Seq<char>>
    decreases v.len(),
{
    if v.len() > 0 && text_lt(p, v.last()) {
        with_path(v.drop_last(), p).push(v.last())
    } else {
        v.push(p)
    }
}

proof fn lemma_with_path_at(v: Seq<Seq<char>>, p: Seq<char>, i: int)
    requires
        0 <= i <= v.len(),
        forall|k: int| i <= k < v.len() ==> text_lt(p, #[trigger] v[k]),
        i > 0 ==> !text_lt(p, v[i - 1]),
    ensures
        with_path(v, p) == v.insert(i, p),
    decreases v.len(),
{
    if i == v.len() {
        assert(v.insert(i, p) =~= v.push(p));
        if v.len() > 0 {
            assert(v.last() == v[i - 1]);
        }
    } else {
        assert(text_lt(p, v[v.len() - 1]));
        lemma_with_path_at(v.drop_last(), p, i);
        assert(v.insert(i, p) =~= v.drop_last().insert(i, p).push(v.last()));
    }
}

/// Adds a path to paths in order.
pub fn add_path(v: &mut Vec<String>, p: String)
    ensures
        texts(final(v)@) == with_path(texts(old(v)@), p@),
{
    let ghost src = texts(v@);
    let mut i: usize = v.len();
    while i > 0 && text_before(p.as_str(), v[i - 1].as_str())
        invariant
            i <= v@.len(),
            *v == *old(v),
            src == texts(v@),
            forall|k: int| i <= k < v@.len() ==> text_lt(p@, #[trigger] src[k]),
        decreases i,
    {
        i = i - 1;
    }
    proof {
        lemma_with_path_at(src, p@, i as int);
    }
    let ghost text = p@;
    v.insert(i, p);
    proof {
        assert(texts(v@) =~= src.insert(i as int, text));
    }
}

/// How many paths of a glob are given.
pub const MAX_GLOB_RESULTS: usize = 100;

/// What a glob gives among the paths of some files.
pub open spec fn glob_outcome(pattern: Seq<char>, files: Seq<Seq<char>>) -> Result<Seq<char>, Failure> {
    let re = glob_regex(pattern);
    match regex_match(re, Seq::empty()) {
        Err(m) => Err(failure(EXIT_ARGS, "invalid glob pattern `"@ + pattern + "`: "@ + m)),
        Ok(_) => Ok(first_results(matching_paths(re, files), MAX_GLOB_RESULTS as nat)),
    }
}

pub fn tool_glob(pattern: &str, files: &Vec<String>) -> (r: AppResult<String>)
    ensures
        text_result(r) == glob_outcome(pattern@, texts(files@)),
{
    proof {
        reveal_strlit("");
        assert(""@ =~= Seq::<char>::empty());
    }
    let re = glob_to_regex(pattern);
    match regex_is_match(re.as_str(), "") {
        Err(m) => {
            let text = "invalid glob pattern `".to_owned().concat(pattern).concat("`: ").concat(
                m.as_str(),
            );
            return Err(AppError::new(EXIT_ARGS, text.as_str()));
        },
        Ok(_) => {},
    }
    let ghost src = texts(files@);
    let mut out: Vec<String> = Vec::new();
    let mut i: usize = 0;
    proof {
        assert(texts(out@) =~= Seq::<Seq<char>>::empty());
    }
    while i < files.len()
        invariant
            i <= files@.len(),
            src == texts(files@),
            texts(out@) == matching_paths(re@, src.take(i as int)),
        decreases files@.len() - i,
    {
        proof {
            lemma_take_step(src, i as int);
        }
        let hit = match regex_is_match(re.as_str(), files[i].as_str()) {
            Ok(b) => b,
            Err(_) => false,
        };
        if hit {
            add_path(&mut out, files[i].clone());
        }
        i = i + 1;
    }
    proof {
        lemma_take_full(src);
    }
    Ok(first_results_of(&mut out, MAX_GLOB_RESULTS))
}

// ---------------------------------------------------------------------------
// Fetching
// ---------------------------------------------------------------------------

/// A page that was fetched: its status and at most 32 KiB of its text.
pub open spec fn fetched(status: u16, body: Seq<char>) -> Seq<char> {
    let text = if bytes_len(body) > 32768 {
        byte_prefix(body, 32768) + "\n... (truncated at 32KB, total "@ + decimal(bytes_len(body))
            + " bytes)"@
    } else {
        body
    };
    "[HTTP "@ + decimal(status as nat) + "]\n"@ + text
}

pub fn tool_fetch(status: u16, body: &str) -> (r: String)
    ensures
        r@ == fetched(status, body@),
{
    let total: usize = byte_len(body);
    let text = if total > 32768 {
        take_bytes(body, 32768).concat("\n... (truncated at 32KB, total ").concat(
            decimal_string(total as u64).as_str(),
        ).concat(" bytes)")
    } else {
        body.to_owned()
    };
    "[HTTP ".to_owned().concat(decimal_string(status as u64).as_str()).concat("]\n").concat(
        text.as_str(),
    )
}

// ---------------------------------------------------------------------------
// Confirmation
// ---------------------------------------------------------------------------

/// Confirmation result from the user.
#[derive(Debug)]
pub enum ConfirmResult {
    Yes,
    No(Option<String>),
    Edit(String),
}

pub enum Confirmed {
    Yes,
    No(Option<Seq<char>>),
    Edit(Seq<char>),
}

impl View for ConfirmResult {
    type V = Confirmed;

    open spec fn view(&self) -> Confirmed {
        match self {
            ConfirmResult::Yes => Confirmed::Yes,
            ConfirmResult::No(f) => Confirmed::No(opt_text(*f)),
            ConfirmResult::Edit(t) => Confirmed::Edit(t@),
        }
    }
}

pub open spec fn replacement(s: Seq<char>) -> Option<Confirmed> {
    if is_blank(s) {
        None
    } else {
        Some(Confirmed::Edit(trimmed(s)))
    }
}

/// What an answer to a question means; nothing where it has to be asked again. Where the subject
/// can be edited, `edit` or `e` gives a replacement and any other text is feedback.
pub open spec fn confirmed(input: Seq<char>, editable: bool) -> Option<Confirmed> {
    let t = trimmed(input);
    let low = ascii_lower(t);
    if low.len() == 0 || low == "y"@ || low == "yes"@ {
        Some(Confirmed::Yes)
    } else if low == "n"@ || low == "no"@ {
        Some(Confirmed::No(None))
    } else if !editable || low == "edit"@ || low == "e"@ {
        None
    } else if starts_with_spec(low, "edit "@) {
        replacement(t.skip(4))
    } else if starts_with_spec(low, "e "@) {
        replacement(t.skip(1))
    } else {
        Some(Confirmed::No(Some(t)))
    }
}

pub open spec fn opt_confirmed(r: Option<ConfirmResult>) -> Option<Confirmed> {
    match r {
        Some(c) => Some(c@),
        None => None,
    }
}

fn replacement_of(s: &str) -> (r: Option<ConfirmResult>)
    ensures
        opt_confirmed(r) == replacement(s@),
{
    let t = trim(s);
    if t.as_str().is_empty() {
        None
    } else {
        Some(ConfirmResult::Edit(t))
    }
}

pub fn parse_confirm_input(input: &str, editable_content: Option<&str>) -> (r: Option<ConfirmResult>)
    ensures
        opt_confirmed(r) == confirmed(input@, editable_content is Some),
{
    let t = trim(input);
    let low = to_ascii_lower(t.as_str());
    let l = low.as_str();
    if l.is_empty() || str_eq(l, "y") || str_eq(l, "yes") {
        return Some(ConfirmResult::Yes);
    }
    if str_eq(l, "n") || str_eq(l, "no") {
        return Some(ConfirmResult::No(None));
    }
    if editable_content.is_none() || str_eq(l, "edit") || str_eq(l, "e") {
        return None;
    }
    let c = chars_of(t.as_str());
    proof {
        reveal_strlit("edit ");
        reveal_strlit("e ");
    }
    if starts_with(l, "edit ") {
        let rest = substring(c.as_slice(), 4, c.len());
        proof {
            assert(rest@ =~= t@.skip(4));
        }
        return replacement_of(rest.as_str());
    }
    if starts_with(l, "e ") {
        let rest = substring(c.as_slice(), 1, c.len());
        proof {
            assert(rest@ =~= t@.skip(1));
        }
        return replacement_of(rest.as_str());
    }
    Some(ConfirmResult::No(Some(t)))
}

/// Nothing is ever done on an answer that is neither a yes nor a replacement.
pub proof fn law_only_yes_acts(input: Seq<char>, editable: bool)
    requires
        confirmed(input, editable) == Some(Confirmed::Yes),
    ensures
        is_blank(input) || ascii_lower(trimmed(input)) == "y"@ || ascii_lower(trimmed(input))
            == "yes"@,
{
}

/// What is decided about an action: it goes ahead if everything is confirmed beforehand, it is
/// declined if nobody can be asked, and else the answer decides.
pub open spec fn decided(auto_confirm: bool, input: Option<Seq<char>>, editable: bool) -> Option<
    Confirmed,
> {
    if auto_confirm {
        Some(Confirmed::Yes)
    } else {
        match input {
            Some(t) => confirmed(t, editable),
            None => Some(Confirmed::No(Some("interactive confirmation unavailable"@))),
        }
    }
}

/// Decides about an action; `input` is the line that was read, if there was one. Nothing is
/// returned where it has to be asked again.
pub fn confirm_tool_action(
    auto_confirm: bool,
    input: Option<&str>,
    editable_content: Option<&str>,
) -> (r: Option<ConfirmResult>)
    ensures
        opt_confirmed(r) == decided(auto_confirm, opt_str(input), editable_content is Some),
{
    if auto_confirm {
        return Some(ConfirmResult::Yes);
    }
    match input {
        Some(t) => parse_confirm_input(t, editable_content),
        None => Some(ConfirmResult::No(Some("interactive confirmation unavailable".to_owned()))),
    }
}

/// Where nobody can be asked, nothing is done that was not confirmed beforehand.
pub proof fn law_unasked_is_declined(editable: bool)
    ensures
        decided(false, None, editable) matches Some(Confirmed::No(_)),
{
}

/// What is said before it is asked again.
pub fn confirm_hint(editable: bool) -> (r: String)
    ensures
        r@ == "    "@ + DIM@ + (if editable {
            "请输入 y / n，或使用 `edit <替换内容>`；其他文本会作为反馈返回给模型"@
        } else {
            "please enter y or n"@
        }) + RESET@,
{
    let text = if editable {
        "请输入 y / n，或使用 `edit <替换内容>`；其他文本会作为反馈返回给模型"
    } else {
        "please enter y or n"
    };
    "    ".to_owned().concat(DIM).concat(text).concat(RESET)
}

/// What is answered for an action that the user declined.
pub open spec fn declined(action: Seq<char>, feedback: Option<Seq<char>>) -> Seq<char> {
    match feedback {
        None => "user declined the "@ + action,
        Some(f) => "user declined the "@ + action + ". user feedback: "@ + f,
    }
}

pub fn declined_text(action: &str, feedback: &Option<String>) -> (r: String)
    ensures
        r@ == declined(action@, opt_text(*feedback)),
{
    let head = "user declined the ".to_owned().concat(action);
    match feedback {
        None => head,
        Some(f) => head.concat(". user feedback: ").concat(f.as_str()),
    }
}

/// The question before an action.
pub fn confirm_prompt(action: &str, editable: bool) -> (r: String)
    ensures
        r@ == "    "@ + DIM@ + action@ + "? "@ + GREEN@ + "y"@ + RESET@ + DIM@ + "/"@ + RED@ + "n"@
            + RESET@ + DIM@ + (if editable {
            "/edit:"@
        } else {
            ":"@
        }) + RESET@ + " "@,
{
    let tail = if editable {
        "/edit:"
    } else {
        ":"
    };
    "    ".to_owned().concat(DIM).concat(action).concat("? ").concat(GREEN).concat("y").concat(
        RESET,
    ).concat(DIM).concat("/").concat(RED).concat("n").concat(RESET).concat(DIM).concat(tail).concat(
        RESET,
    ).concat(" ")
}

/// The name of a tool as it is shown in front of what it does.
pub open spec fn tool_label(name: Seq<char>, mode: Option<Seq<char>>) -> Seq<char> {
    let label = match mode {
        Some(m) => name + ":"@ + m,
        None => name,
    };
    label + repeat(" "@, pad_len(12, label.len()))
}

pub fn format_tool_label(name: &str, mode: Option<&str>) -> (r: String)
    ensures
        r@ == tool_label(name@, opt_str(mode)),
{
    let label = match mode {
        Some(m) => name.to_owned().concat(":").concat(m),
        None => name.to_owned(),
    };
    let n: usize = chars_of(label.as_str()).len();
    let pad: usize = if n < 12 {
        12 - n
    } else {
        0
    };
    let spaces = repeat_str(" ", pad);
    label.concat(spaces.as_str())
}

// ---------------------------------------------------------------------------
// Search of tools
// ---------------------------------------------------------------------------

pub open spec fn effects_name(e: ToolSideEffects) -> Seq<char> {
    match e {
        ToolSideEffects::ReadOnly => "read_only"@,
        ToolSideEffects::Mutating => "mutating"@,
        ToolSideEffects::External => "external"@,
    }
}

pub fn effects_label(e: ToolSideEffects) -> (r: &'static str)
    ensures
        r@ == effects_name(e),
{
    match e {
        ToolSideEffects::ReadOnly => "read_only",
        ToolSideEffects::Mutating => "mutating",
        ToolSideEffects::External => "external",
    }
}

/// What is told of a tool that was found.
pub open spec fn found_tool(t: ToolEntry, skills_dir: Seq<char>) -> JsonView {
    JsonView::Object(
        seq![
            ("name"@, JsonView::Str(t.name@)),
            ("description"@, JsonView::Str(t.description@)),
            ("aliases"@, strs_json(t.aliases)),
            ("side_effects"@, JsonView::Str(effects_name(t.side_effects))),
            ("schema"@, definition(t, skills_dir)),
        ],
    )
}

pub open spec fn search_report(v: Seq<ToolEntry>, skills_dir: Seq<char>) -> JsonView {
    JsonView::Object(
        seq![
            (
                "loaded_tools"@,
                JsonView::Array(v.map_values(|t: ToolEntry| JsonView::Str(t.name@))),
            ),
            (
                "results"@,
                JsonView::Array(v.map_values(|t: ToolEntry| found_tool(t, skills_dir))),
            ),
        ],
    )
}

/// The answer to a search for tools.
pub open spec fn search_answer(query: Seq<char>, max: nat, skills_dir: Seq<char>) -> Seq<char> {
    let v = search_result(query, max);
    if v.len() == 0 {
        "no matching tools found"@
    } else {
        pretty_json(search_report(v, skills_dir))
    }
}

fn found_tool_json(t: &ToolSpec, skills_dir: &str) -> (r: Json)
    ensures
        r@ == found_tool(t@, skills_dir@),
{
    let mut f: Vec<(String, Json)> = Vec::new();
    f.push(("name".to_owned(), json_text(t.name)));
    f.push(("description".to_owned(), json_text(t.description)));
    f.push(("aliases".to_owned(), strs_json_of(&t.aliases)));
    f.push(("side_effects".to_owned(), json_text(effects_label(t.side_effects))));
    f.push(("schema".to_owned(), t.definition(skills_dir)));
    proof {
        assert(field_views(f@) =~= found_tool(t@, skills_dir@)->Object_0);
    }
    object(f)
}

pub fn execute_tool_search_tool(query: &str, max_results: usize, skills_dir: &str) -> (r: String)
    ensures
        r@ == search_answer(query@, max_results as nat, skills_dir@),
{
    let found = tool_search_matches(query, max_results);
    if found.len() == 0 {
        return "no matching tools found".to_owned();
    }
    let ghost v = tool_views(found@);
    let ghost g1 = v.map_values(|t: ToolEntry| JsonView::Str(t.name@));
    let ghost g2 = v.map_values(|t: ToolEntry| found_tool(t, skills_dir@));
    let mut names: Vec<Json> = Vec::new();
    let mut results: Vec<Json> = Vec::new();
    let mut i: usize = 0;
    proof {
        assert(jsons(names@) =~= g1.take(0));
        assert(jsons(results@) =~= g2.take(0));
    }
    while i < found.len()
        invariant
            i <= found@.len(),
            v == tool_views(found@),
            g1 == v.map_values(|t: ToolEntry| JsonView::Str(t.name@)),
            g2 == v.map_values(|t: ToolEntry| found_tool(t, skills_dir@)),
            jsons(names@) == g1.take(i as int),
            jsons(results@) == g2.take(i as int),
        decreases found@.len() - i,
    {
        let name = json_text(found[i].name);
        let item = found_tool_json(&found[i], skills_dir);
        proof {
            assert(v[i as int] == found@[i as int]@);
            lemma_take_step(g1, i as int);
            lemma_take_step(g2, i as int);
            lemma_jsons_push(names@, name);
            lemma_jsons_push(results@, item);
        }
        names.push(name);
        results.push(item);
        i = i + 1;
    }
    proof {
        lemma_take_full(g1);
        lemma_take_full(g2);
    }
    print_json_pretty(&object2("loaded_tools", array(names), "results", array(results)))
}

/// The names of the tools that a search finds.
pub fn found_tool_names(query: &str, max_results: usize) -> (r: Vec<String>)
    ensures
        texts(r@) == search_result(query@, max_results as nat).map_values(
            |t: ToolEntry| t.name@,
        ),
{
    let found = tool_search_matches(query, max_results);
    let ghost v = tool_views(found@);
    let ghost goal = v.map_values(|t: ToolEntry| t.name@);
    let mut out: Vec<String> = Vec::new();
    let mut i: usize = 0;
    proof {
        assert(texts(out@) =~= goal.take(0));
    }
    while i < found.len()
        invariant
            i <= found@.len(),
            v == tool_views(found@),
            goal == v.map_values(|t: ToolEntry| t.name@),
            texts(out@) == goal.take(i as int),
        decreases found@.len() - i,
    {
        let name = found[i].name.to_owned();
        proof {
            assert(v[i as int] == found@[i as int]@);
            lemma_take_step(goal, i as int);
            lemma_texts_push(out@, name);
        }
        out.push(name);
        i = i + 1;
    }
    proof {
        lemma_take_full(goal);
    }
    out
}

} // verus!
