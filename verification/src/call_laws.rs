//! Which calls change something, which are confirmed and which are reviewed.

use crate::audit::{
    AgentItemView, AuditPromptKind, BatchAuditDecision, ReportView, agent_item, audit_event,
    audit_target, braces, goes_ahead, item_for, message_digest, needs_review, prompt_kind,
    prompt_place, report_on, review_payload, reviewed,
};
use crate::chat::{ChatRequest, MessageView, ReplyView};
use crate::config::{AppConfig, ModelConfig, ProviderConfig, SecretsConfig, expanded};
use crate::error::Failure;
use crate::json::{JsonView, OPEN_BRACE, field_from, parsed_json};
use crate::markdown_laws::lemma_first_place;
use crate::session::StoredEvent;
use crate::session_laws::lemma_last_index_is;
use crate::shell::{
    ends_segment, git_reads, list_commands, neutral_commands, only_reads, operator_len,
    read_commands, search_commands, segment_reads, segments, segments_from, with_segment,
    word_at,
};
use crate::table::Table;
use crate::table_laws::lemma_contained;
use crate::target::key_of;
use crate::text::{
    ascii_lower, contains_text, decimal, in_list, is_blank, matches_at, opt_text, preview,
    replaced, trimmed, words,
};
use crate::tool_loop::{LoopView, answered, called, loop_start, too_many_rounds};
use crate::tools::{
    CallView, TOOL_COUNT, ToolEntry, ToolSideEffects, all_definitions, call_effects, call_of,
    definition, definitions_for, first_definitions, loaded_definitions, named,
    needs_confirmation, property_fields, ranking, ranks_before, score, search_result,
    tool_entry, tool_from, tool_named, with_tool,
};
use vstd::prelude::*;

verus! {

/// A call is read from what a model sent: its identifier, its name, and its arguments as they are
/// written; arguments that cannot be read are empty.
pub proof fn law_call_is_read(raw: JsonView, id: Seq<char>, name: Seq<char>, text: Seq<char>)
    requires
        raw.at("id"@) == JsonView::Str(id),
        raw.at("function"@).at("name"@) == JsonView::Str(name),
        raw.at("function"@).at("arguments"@) == JsonView::Str(text),
    ensures
        call_of(raw) matches Ok(c) && c.id == id && c.name == name,
        parsed_json(text) matches Ok(j) ==> (call_of(raw) matches Ok(c) && c.arguments == j),
        parsed_json(text) is Err ==> (call_of(raw) matches Ok(c) && c.arguments
            == JsonView::Object(Seq::empty())),
{
}

/// What is no call is told apart.
pub proof fn law_no_call_is_read(raw: JsonView)
    ensures
        raw.at("id"@) is Null ==> call_of(raw) is Err,
        raw.at("function"@).at("name"@) is Null ==> call_of(raw) is Err,
{
}

proof fn lemma_tool_names()
    ensures
        "ToolSearch"@.len() == 10,
        "tool_search"@.len() == 11,
        "Read"@.len() == 4,
        "Read"@[0] == 'R',
        "read"@.len() == 4,
        "read"@[0] == 'r',
        "Edit"@.len() == 4,
        "Edit"@[0] == 'E',
        "edit"@.len() == 4,
        "edit"@[0] == 'e',
        "write"@.len() == 5,
        "write"@[0] == 'w',
        "Write"@.len() == 5,
        "Write"@[0] == 'W',
        "Bash"@.len() == 4,
        "Bash"@[0] == 'B',
        "bash"@.len() == 4,
        "bash"@[0] == 'b',
        "Grep"@.len() == 4,
        "Grep"@[0] == 'G',
        "Grep"@[1] == 'r',
        "grep"@.len() == 4,
        "grep"@[0] == 'g',
        "grep"@[1] == 'r',
        "Glob"@.len() == 4,
        "Glob"@[0] == 'G',
        "Glob"@[1] == 'l',
        "glob"@.len() == 4,
        "glob"@[0] == 'g',
        "glob"@[1] == 'l',
        "WebFetch"@.len() == 8,
        "fetch"@.len() == 5,
        "fetch"@[0] == 'f',
        "web_fetch"@.len() == 9,
        "web_fetch"@[0] == 'w',
        "SkillsList"@.len() == 10,
        "SkillsList"@[0] == 'S',
        "ToolSearch"@[0] == 'T',
        "skills_list"@.len() == 11,
        "SkillRead"@.len() == 9,
        "SkillRead"@[0] == 'S',
        "skill_read"@.len() == 10,
        "skill_read"@[0] == 's',
{
    reveal_strlit("ToolSearch");
    reveal_strlit("tool_search");
    reveal_strlit("Read");
    reveal_strlit("read");
    reveal_strlit("Edit");
    reveal_strlit("edit");
    reveal_strlit("write");
    reveal_strlit("Write");
    reveal_strlit("Bash");
    reveal_strlit("bash");
    reveal_strlit("Grep");
    reveal_strlit("grep");
    reveal_strlit("Glob");
    reveal_strlit("glob");
    reveal_strlit("WebFetch");
    reveal_strlit("fetch");
    reveal_strlit("web_fetch");
    reveal_strlit("SkillsList");
    reveal_strlit("skills_list");
    reveal_strlit("SkillRead");
    reveal_strlit("skill_read");
}

proof fn lemma_own_name(i: int)
    requires
        0 <= i < TOOL_COUNT,
    ensures
        tool_named(tool_entry(i).name@) == Some(tool_entry(i)),
{
    lemma_tool_names();
    reveal_with_fuel(tool_from, 10);
    let name = tool_entry(i).name@;
    assert forall|k: int| 0 <= k < i implies !named(#[trigger] tool_entry(k), name) by {
    }
    assert(named(tool_entry(i), name));
    lemma_tool_from(name, i, 0);
}

proof fn lemma_tool_from(name: Seq<char>, i: int, k: int)
    requires
        0 <= k <= i < TOOL_COUNT,
        named(tool_entry(i), name),
        forall|j: int| 0 <= j < i ==> !named(#[trigger] tool_entry(j), name),
    ensures
        tool_from(name, k) == Some(i),
    decreases i - k,
{
    if k < i {
        assert(!named(tool_entry(k), name));
        lemma_tool_from(name, i, k + 1);
    }
}

/// What only reads runs without being asked for; what changes a file or runs a command that may
/// change something is confirmed, and so is every call of a tool that is not known.
pub proof fn law_changing_calls_are_confirmed(c: CallView)
    ensures
        c.name == "Edit"@ ==> call_effects(c) == ToolSideEffects::Mutating && needs_confirmation(c),
        c.name == "Bash"@ && !(c.arguments.at("command"@) is Str) ==> needs_confirmation(c),
        c.name == "Bash"@ && (c.arguments.at("command"@) matches JsonView::Str(t) && !only_reads(t))
            ==> needs_confirmation(c),
        c.name == "Bash"@ && (c.arguments.at("command"@) matches JsonView::Str(t) && only_reads(t))
            ==> !needs_confirmation(c),
        c.name == "Read"@ || c.name == "Grep"@ || c.name == "Glob"@ || c.name == "SkillsList"@
            || c.name == "SkillRead"@ || c.name == "ToolSearch"@ ==> call_effects(c)
            == ToolSideEffects::ReadOnly && !needs_confirmation(c),
        c.name == "WebFetch"@ ==> call_effects(c) == ToolSideEffects::External
            && !needs_confirmation(c),
        tool_named(c.name) is None && c.name != "bash"@ ==> call_effects(c)
            == ToolSideEffects::Mutating && needs_confirmation(c),
{
    lemma_tool_names();
    lemma_own_name(0);
    lemma_own_name(1);
    lemma_own_name(2);
    lemma_own_name(3);
    lemma_own_name(4);
    lemma_own_name(5);
    lemma_own_name(6);
    lemma_own_name(7);
    lemma_own_name(8);
}

proof fn lemma_segments_parts(s: Seq<char>, i: int, parts: Seq<Seq<char>>, cur: Seq<char>)
    ensures
        segments_from(s, i, parts, cur) == parts + segments_from(s, i, Seq::empty(), cur),
    decreases s.len() - i,
{
    let none = Seq::<Seq<char>>::empty();
    assert(with_segment(parts, cur) =~= parts + with_segment(none, cur));
    if 0 <= i < s.len() {
        if ends_segment(s, i) {
            let n = i + operator_len(s, i);
            lemma_segments_parts(s, n, with_segment(parts, cur), Seq::empty());
            lemma_segments_parts(s, n, with_segment(none, cur), Seq::empty());
            let rest = segments_from(s, n, none, Seq::empty());
            assert(parts + with_segment(none, cur) + rest =~= parts + (with_segment(none, cur)
                + rest));
        } else {
            lemma_segments_parts(s, i + 1, parts, cur.push(s[i]));
        }
    }
}

proof fn lemma_segments_shift(x: Seq<char>, b: Seq<char>, i: int, cur: Seq<char>)
    requires
        0 <= i,
    ensures
        segments_from(x + b, x.len() + i, Seq::empty(), cur) == segments_from(
            b,
            i,
            Seq::empty(),
            cur,
        ),
    decreases b.len() - i,
{
    let none = Seq::<Seq<char>>::empty();
    let s = x + b;
    let n = x.len() as int;
    if i < b.len() {
        assert(s[n + i] == b[i]);
        if i + 1 < b.len() {
            assert(s[n + i + 1] == b[i + 1]);
        }
        assert(ends_segment(s, n + i) == ends_segment(b, i));
        assert(operator_len(s, n + i) == operator_len(b, i));
        if ends_segment(b, i) {
            let k = operator_len(b, i);
            lemma_segments_shift(x, b, i + k, Seq::empty());
            lemma_segments_parts(s, n + i + k, with_segment(none, cur), Seq::empty());
            lemma_segments_parts(b, i + k, with_segment(none, cur), Seq::empty());
        } else {
            lemma_segments_shift(x, b, i + 1, cur.push(b[i]));
        }
    }
}

/// Whether a text holds none of the characters that end a command.
pub open spec fn simple(s: Seq<char>) -> bool {
    !s.contains(';') && !s.contains('|') && !s.contains('&')
}

proof fn lemma_simple_part(a: Seq<char>, rest: Seq<char>, i: int)
    requires
        simple(a),
        0 <= i <= a.len(),
    ensures
        segments_from(a + rest, i, Seq::empty(), a.take(i)) == segments_from(
            a + rest,
            a.len() as int,
            Seq::empty(),
            a,
        ),
    decreases a.len() - i,
{
    if i < a.len() {
        let s = a + rest;
        assert(s[i] == a[i]);
        assert(a.contains(a[i]));
        assert(!ends_segment(s, i));
        assert(a.take(i).push(a[i]) =~= a.take(i + 1));
        lemma_simple_part(a, rest, i + 1);
    } else {
        assert(a.take(i) =~= a);
    }
}

/// A command line is taken apart at its operators: each command stands alone, trimmed, in order.
pub proof fn law_commands_are_told_apart(a: Seq<char>, b: Seq<char>)
    requires
        simple(a),
    ensures
        is_blank(a) ==> segments(a).len() == 0,
        !is_blank(a) ==> segments(a) == seq![trimmed(a)],
        segments(a + seq![';'] + b) == segments(a) + segments(b),
        segments(a + seq!['&', '&'] + b) == segments(a) + segments(b),
        segments(a + seq!['|', '|'] + b) == segments(a) + segments(b),
        b.len() == 0 || b[0] != '|' ==> segments(a + seq!['|'] + b) == segments(a) + segments(b),
{
    let none = Seq::<char>::empty();
    let no = Seq::<Seq<char>>::empty();
    assert(a.take(0) =~= none);
    assert(a + none =~= a);
    lemma_simple_part(a, none, 0);
    assert(segments(a) == with_segment(no, a));
    assert(with_segment(no, a) =~= if is_blank(a) {
        no
    } else {
        seq![trimmed(a)]
    });
    lemma_joined_commands(a, seq![';'], b);
    lemma_joined_commands(a, seq!['&', '&'], b);
    lemma_joined_commands(a, seq!['|', '|'], b);
    if b.len() == 0 || b[0] != '|' {
        lemma_joined_commands(a, seq!['|'], b);
    }
}

proof fn lemma_joined_commands(a: Seq<char>, op: Seq<char>, b: Seq<char>)
    requires
        simple(a),
        op == seq![';'] || op == seq!['&', '&'] || op == seq!['|', '|'] || (op == seq!['|'] && (
        b.len() == 0 || b[0] != '|')),
    ensures
        segments(a + op + b) == with_segment(Seq::empty(), a) + segments(b),
{
    let none = Seq::<char>::empty();
    let no = Seq::<Seq<char>>::empty();
    let s = a + op + b;
    let n = a.len() as int;
    assert(s =~= a + (op + b));
    assert(a.take(0) =~= none);
    lemma_simple_part(a, op + b, 0);
    assert(s[n] == op[0]);
    if op.len() == 2 {
        assert(s[n + 1] == op[1]);
    } else if b.len() > 0 {
        assert(s[n + 1] == b[0]);
    }
    assert(ends_segment(s, n));
    assert(operator_len(s, n) == op.len());
    lemma_segments_parts(s, n + op.len(), with_segment(no, a), none);
    lemma_segments_shift(a + op, b, 0, none);
}

/// What only reads redirects nothing and runs only programs that are known to read: some of `git`,
/// and those listed here.
pub proof fn law_readers_are_listed(segment: Seq<char>)
    ensures
        segment_reads(segment) ==> !segment.contains('>'),
        segment_reads(segment) && words(segment).len() > 0 ==> in_list(
            words(segment)[0],
            seq![
                "find", "grep", "rg", "ag", "ack", "locate", "which", "whereis", "cat", "head",
                "tail", "less", "more", "wc", "stat", "file", "strings", "jq", "awk", "cut", "sort",
                "uniq", "tr", "pwd", "date", "uname", "whoami", "id", "ps", "env", "printenv", "ls",
                "tree", "du", "echo", "printf", "true", "false", ":",
            ],
        ) || (words(segment)[0] == "git"@ && words(segment).len() > 1 && in_list(
            words(segment)[1],
            seq!["status", "diff", "show", "log", "branch", "rev-parse"],
        )),
{
    let all = seq![
        "find", "grep", "rg", "ag", "ack", "locate", "which", "whereis", "cat", "head", "tail",
        "less", "more", "wc", "stat", "file", "strings", "jq", "awk", "cut", "sort", "uniq", "tr",
        "pwd", "date", "uname", "whoami", "id", "ps", "env", "printenv", "ls", "tree", "du", "echo",
        "printf", "true", "false", ":",
    ];
    let v = words(segment);
    if segment_reads(segment) && v.len() > 0 {
        let base = v[0];
        if in_list(base, search_commands()) {
            let i = choose|i: int| 0 <= i < 8 && (#[trigger] search_commands()[i])@ == base;
            assert(all[i]@ == base);
        } else if in_list(base, read_commands()) {
            let i = choose|i: int| 0 <= i < 23 && (#[trigger] read_commands()[i])@ == base;
            assert(all[8 + i]@ == base);
        } else if in_list(base, list_commands()) {
            let i = choose|i: int| 0 <= i < 3 && (#[trigger] list_commands()[i])@ == base;
            assert(all[31 + i]@ == base);
        } else if in_list(base, neutral_commands()) {
            let i = choose|i: int| 0 <= i < 5 && (#[trigger] neutral_commands()[i])@ == base;
            assert(all[34 + i]@ == base);
        } else {
            let w = word_at(segment, 1);
            let i = choose|i: int| 0 <= i < 6 && (#[trigger] git_reads()[i])@ == w;
            reveal_strlit("status");
            reveal_strlit("diff");
            reveal_strlit("show");
            reveal_strlit("log");
            reveal_strlit("branch");
            reveal_strlit("rev-parse");
            assert(w.len() > 0);
        }
    }
}

/// A call goes ahead without being asked only if everything is confirmed, or if the auditor of its
/// own call passed it.
pub proof fn law_only_passed_calls_go_ahead(
    c: CallView,
    batch: BatchAuditDecision,
    r: ReportView,
    e: Failure,
)
    ensures
        goes_ahead(Ok(c), None, true),
        !goes_ahead(Ok(c), None, false),
        !goes_ahead(Err(e), Some(batch), false),
        batch.on(c.id) == Some(r) ==> goes_ahead(Ok(c), Some(batch), false) == (r.verdict
            == "pass"@),
        batch.on(c.id) is None ==> !goes_ahead(Ok(c), Some(batch), false),
{
}

/// Only what changes something is reviewed, and only where that is switched on; the calls that are
/// reviewed keep their order.
pub proof fn law_changing_calls_are_reviewed(c: AppConfig, call: CallView, v: Seq<JsonView>, raw: JsonView)
    ensures
        c.audit.enabled != Some(true) ==> !needs_review(c, call),
        c.audit.enabled == Some(true) ==> needs_review(c, call) == (call_effects(call)
            == ToolSideEffects::Mutating),
        call_of(raw) == Ok::<CallView, Failure>(call) && needs_review(c, call) ==> reviewed(
            c,
            v.push(raw),
        ) == reviewed(c, v).push(call),
        call_of(raw) is Err ==> reviewed(c, v.push(raw)) == reviewed(c, v),
        call_of(raw) == Ok::<CallView, Failure>(call) && !needs_review(c, call) ==> reviewed(
            c,
            v.push(raw),
        ) == reviewed(c, v),
{
    assert(v.push(raw).drop_last() =~= v);
}

/// What was said of a call is reported of that call: its verdict in lower case and its message.
pub proof fn law_verdict_is_reported(
    response: ReplyView,
    v: Seq<AgentItemView>,
    i: int,
    verdict: Seq<char>,
    message: Seq<char>,
)
    requires
        0 <= i < v.len(),
        forall|k: int| 0 <= k < i ==> (#[trigger] v[k]).id != v[i].id,
        v[i].verdict == Some(verdict),
        v[i].message == Some(message),
        !is_blank(verdict),
        !is_blank(message),
    ensures
        ({
            let r = report_on(response, Some(v), v[i].id);
            &&& r.verdict == ascii_lower(trimmed(verdict))
            &&& r.message == preview(message, 72)
            &&& r.provider == response.provider_id
            &&& r.model == response.model_id
            &&& r.latency_ms == response.latency_ms
            &&& r.usage == response.usage
        }),
{
    lemma_item_for(v, i, 0);
}

proof fn lemma_item_for(v: Seq<AgentItemView>, i: int, k: int)
    requires
        0 <= k <= i < v.len(),
        forall|k: int| 0 <= k < i ==> (#[trigger] v[k]).id != v[i].id,
    ensures
        item_for(v, v[i].id, k) == Some(v[i]),
    decreases i - k,
{
    if k < i {
        assert(v[k].id != v[i].id);
        lemma_item_for(v, i, k + 1);
    }
}

/// What is said of a call is read from its fields, or from a list of the three.
pub proof fn law_verdict_is_read(j: JsonView, id: Seq<char>, verdict: Seq<char>, message: Seq<char>)
    ensures
        j is Object && j.at("id"@) == JsonView::Str(id) && j.at("verdict"@) == JsonView::Str(verdict)
            && j.at("message"@) == JsonView::Str(message) ==> agent_item(j) == Some(
            AgentItemView { id, verdict: Some(verdict), message: Some(message) },
        ),
        agent_item(
            JsonView::Array(
                seq![JsonView::Str(id), JsonView::Str(verdict), JsonView::Str(message)],
            ),
        ) == Some(AgentItemView { id, verdict: Some(verdict), message: Some(message) }),
        j is Object && j.at("id"@) is Null ==> agent_item(j) is None,
{
}

/// What closes an object in JSON.
pub const CLOSING_BRACE: char = '}';

/// The answer of the auditor may stand within other text: from the first opening brace to the
/// last closing one.
pub proof fn law_braces_are_found(a: Seq<char>, inner: Seq<char>, b: Seq<char>)
    requires
        !a.contains(OPEN_BRACE),
        !b.contains(CLOSING_BRACE),
    ensures
        braces(a + seq![OPEN_BRACE] + inner + seq![CLOSING_BRACE] + b) == Some(
            seq![OPEN_BRACE] + inner + seq![CLOSING_BRACE],
        ),
{
    reveal_strlit("{");
    let s = a + seq![OPEN_BRACE] + inner + seq![CLOSING_BRACE] + b;
    let n = a.len() as int;
    let m = n + 1 + inner.len();
    assert("{"@ =~= seq![OPEN_BRACE]);
    assert(s.subrange(n, n + 1) =~= "{"@);
    assert forall|k: int| 0 <= k < n implies !matches_at(s, "{"@, k) by {
        if matches_at(s, "{"@, k) {
            assert(s.subrange(k, k + 1)[0] == OPEN_BRACE);
            assert(a[k] == OPEN_BRACE);
        }
    }
    lemma_first_place(s, "{"@, 0, n);
    assert(s[m] == CLOSING_BRACE);
    assert forall|k: int| m < k < s.len() implies #[trigger] s[k] != CLOSING_BRACE by {
        assert(b[k - m - 1] == s[k]);
        assert(b.contains(b[k - m - 1]));
    }
    lemma_last_index_is(s, CLOSING_BRACE, m);
    assert(s.subrange(n, m + 1) =~= seq![OPEN_BRACE] + inner + seq![CLOSING_BRACE]);
}

/// The auditor is told the session, every call with its arguments and effects, in order, and the
/// last messages.
pub proof fn law_auditor_is_told(
    id: Seq<char>,
    transcript: Seq<MessageView>,
    calls: Seq<CallView>,
    i: int,
)
    requires
        0 <= i < calls.len(),
    ensures
        ({
            let p = review_payload(id, transcript, calls);
            let d = p.at("tool_calls"@).elements()[i];
            &&& p.at("session_id"@) == JsonView::Str(id)
            &&& p.at("tool_calls"@).elements().len() == calls.len()
            &&& d.at("id"@) == JsonView::Str(calls[i].id)
            &&& d.at("name"@) == JsonView::Str(calls[i].name)
            &&& d.at("arguments"@) == calls[i].arguments
            &&& d.at("requires_confirmation"@) == JsonView::Bool(needs_confirmation(calls[i]))
            &&& p.at("transcript"@).elements().len() == if transcript.len() <= 8 {
                transcript.len()
            } else {
                8
            }
        }),
{
    reveal_with_fuel(field_from, 7);
    reveal_strlit("session_id");
    reveal_strlit("tool_calls");
    reveal_strlit("transcript");
    reveal_strlit("id");
    reveal_strlit("name");
    reveal_strlit("arguments");
    reveal_strlit("side_effects");
    reveal_strlit("parallelism");
    reveal_strlit("requires_confirmation");
    assert("session_id"@[0] == 's' && "tool_calls"@[0] == 't' && "tool_calls"@[1] == 'o'
        && "transcript"@[1] == 'r');
    assert("id"@.len() == 2 && "name"@.len() == 4 && "arguments"@.len() == 9 && "side_effects"@.len()
        == 12 && "parallelism"@.len() == 11 && "requires_confirmation"@.len() == 21);
}

/// Each message that the auditor is told of has its role and its text, cut where it is long.
pub proof fn law_auditor_is_told_messages(id: Seq<char>, transcript: Seq<MessageView>, i: int)
    requires
        0 <= i < transcript.len(),
        transcript.len() <= 8,
        transcript[i].name is None,
        transcript[i].tool_call_id is None,
        transcript[i].tool_calls is None,
        transcript[i].content.len() > 0,
        transcript[i].role != "tool"@,
    ensures
        ({
            let d = review_payload(id, transcript, Seq::empty()).at("transcript"@).elements()[i];
            &&& d.at("role"@) == JsonView::Str(transcript[i].role)
            &&& d.at("content_preview"@) == JsonView::Str(preview(transcript[i].content, 2000))
        }),
{
    reveal_with_fuel(field_from, 4);
    reveal_strlit("session_id");
    reveal_strlit("tool_calls");
    reveal_strlit("transcript");
    reveal_strlit("role");
    reveal_strlit("content_preview");
    assert("session_id"@[0] == 's' && "tool_calls"@[0] == 't' && "tool_calls"@[1] == 'o'
        && "transcript"@[1] == 'r' && "role"@.len() == 4 && "content_preview"@.len() == 15);
    let m = transcript[i];
    let f = message_digest(m);
    assert(f =~= seq![
        ("role"@, JsonView::Str(m.role)),
        ("content_preview"@, JsonView::Str(preview(m.content, 2000))),
    ]);
}

/// A verdict is recorded with the call that it is about.
pub proof fn law_verdict_is_recorded(r: ReportView, name: Seq<char>, id: Seq<char>, now: Seq<char>)
    ensures
        audit_event(r, name, id, now) matches StoredEvent::Audit(a) && a.verdict == r.verdict
            && a.summary == r.message && a.tool_name == Some(name) && a.tool_call_id == Some(id)
            && a.provider == r.provider && a.model == r.model && a.latency_ms == r.latency_ms
            && a.usage == r.usage && a.created_at == now,
{
}

/// Calls are reviewed with the prompt for what they do, and each prompt is set by its own name.
pub proof fn law_prompts_by_kind(c: AppConfig, home: Option<Seq<char>>, p: Seq<char>)
    ensures
        prompt_kind("Bash"@) == AuditPromptKind::Bash,
        prompt_kind("Edit"@) == AuditPromptKind::Edit,
        prompt_kind("WebFetch"@) == AuditPromptKind::Default,
        opt_text(c.audit.bash_prompt_file) == Some(p) ==> prompt_place(
            c,
            AuditPromptKind::Bash,
            home,
        ) == Ok::<Seq<char>, Failure>(expanded(p, home)),
        opt_text(c.audit.edit_prompt_file) == Some(p) ==> prompt_place(
            c,
            AuditPromptKind::Edit,
            home,
        ) == Ok::<Seq<char>, Failure>(expanded(p, home)),
        opt_text(c.audit.default_prompt_file) == Some(p) ==> prompt_place(
            c,
            AuditPromptKind::Default,
            home,
        ) == Ok::<Seq<char>, Failure>(expanded(p, home)),
        c.audit.bash_prompt_file is None ==> prompt_place(c, AuditPromptKind::Bash, home) is Err,
{
    lemma_tool_names();
}

/// What a search finds fits the query, the best first, and each is loaded only when needed; with
/// room for all, everything that fits is found.
pub proof fn law_search_finds_tools(query: Seq<char>, max: nat, i: int)
    requires
        0 <= i < TOOL_COUNT,
    ensures
        ({
            let q = ascii_lower(trimmed(query));
            let r = search_result(query, max);
            &&& forall|k: int|
                0 <= k < r.len() ==> (#[trigger] r[k]).defer_loading && score(r[k], q) > 0
            &&& forall|k: int, l: int| 0 <= k < l < r.len() ==> score(r[k], q) >= score(r[l], q)
            &&& max >= TOOL_COUNT && tool_entry(i).defer_loading && score(tool_entry(i), q) > 0
                ==> r.contains(tool_entry(i))
        }),
{
    let q = ascii_lower(trimmed(query));
    lemma_ranking(q, TOOL_COUNT as int);
}

proof fn lemma_ranking(q: Seq<char>, n: int)
    requires
        0 <= n <= TOOL_COUNT,
    ensures
        ({
            let r = ranking(q, n);
            &&& r.len() <= n
            &&& forall|k: int|
                0 <= k < r.len() ==> (#[trigger] r[k]).defer_loading && score(r[k], q) > 0
            &&& forall|k: int, l: int| 0 <= k < l < r.len() ==> score(r[k], q) >= score(r[l], q)
            &&& forall|i: int|
                0 <= i < n && (#[trigger] tool_entry(i)).defer_loading && score(tool_entry(i), q) > 0
                    ==> r.contains(tool_entry(i))
        }),
    decreases n,
{
    if n > 0 {
        lemma_ranking(q, n - 1);
        let t = tool_entry(n - 1);
        let before = ranking(q, n - 1);
        if t.defer_loading && score(t, q) > 0 {
            lemma_with_tool(before, t, q);
            let r = ranking(q, n);
            assert forall|i: int|
                0 <= i < n && (#[trigger] tool_entry(i)).defer_loading && score(tool_entry(i), q)
                    > 0 implies r.contains(tool_entry(i)) by {
                if i < n - 1 {
                    assert(before.contains(tool_entry(i)));
                }
            }
        }
    }
}

proof fn lemma_with_tool(v: Seq<ToolEntry>, t: ToolEntry, q: Seq<char>)
    requires
        forall|k: int, l: int| 0 <= k < l < v.len() ==> score(v[k], q) >= score(v[l], q),
    ensures
        ({
            let w = with_tool(v, t, q);
            &&& w.len() == v.len() + 1
            &&& w.contains(t)
            &&& forall|x: ToolEntry| v.contains(x) ==> #[trigger] w.contains(x)
            &&& forall|k: int| 0 <= k < w.len() ==> #[trigger] w[k] == t || v.contains(w[k])
            &&& forall|k: int, l: int| 0 <= k < l < w.len() ==> score(w[k], q) >= score(w[l], q)
        }),
    decreases v.len(),
{
    let w = with_tool(v, t, q);
    if v.len() > 0 && ranks_before(t, v.last(), q) {
        let u = v.drop_last();
        assert forall|k: int, l: int| 0 <= k < l < u.len() implies score(u[k], q) >= score(
            u[l],
            q,
        ) by {
            assert(score(v[k], q) >= score(v[l], q));
        }
        lemma_with_tool(u, t, q);
        let x = with_tool(u, t, q);
        assert(w == x.push(v.last()));
        let i = choose|i: int| 0 <= i < x.len() && x[i] == t;
        assert(w[i] == t);
        assert forall|y: ToolEntry| v.contains(y) implies #[trigger] w.contains(y) by {
            let k = choose|k: int| 0 <= k < v.len() && v[k] == y;
            if k < u.len() {
                assert(u[k] == y);
                assert(u.contains(y));
                assert(x.contains(y));
                let m = choose|m: int| 0 <= m < x.len() && x[m] == y;
                assert(w[m] == y);
            } else {
                assert(w[w.len() - 1] == y);
            }
        }
        assert forall|k: int| 0 <= k < w.len() implies #[trigger] w[k] == t || v.contains(w[k]) by {
            if k < x.len() {
                assert(x[k] == w[k]);
                if x[k] != t {
                    let m = choose|m: int| 0 <= m < u.len() && u[m] == x[k];
                    assert(v[m] == x[k]);
                }
            } else {
                assert(v[v.len() - 1] == w[k]);
            }
        }
        assert forall|k: int, l: int| 0 <= k < l < w.len() implies score(w[k], q) >= score(
            w[l],
            q,
        ) by {
            if l < x.len() {
                assert(score(x[k], q) >= score(x[l], q));
            } else {
                assert(w[k] == x[k]);
                if x[k] != t {
                    let m = choose|m: int| 0 <= m < u.len() && u[m] == x[k];
                    assert(score(v[m], q) >= score(v[v.len() - 1], q));
                }
            }
        }
    } else {
        assert(w[v.len() as int] == t);
        assert forall|y: ToolEntry| v.contains(y) implies #[trigger] w.contains(y) by {
            let k = choose|k: int| 0 <= k < v.len() && v[k] == y;
            assert(w[k] == y);
        }
        assert forall|k: int| 0 <= k < w.len() implies #[trigger] w[k] == t || v.contains(w[k]) by {
            if k < v.len() {
                assert(v[k] == w[k]);
            }
        }
        assert forall|k: int, l: int| 0 <= k < l < w.len() implies score(w[k], q) >= score(
            w[l],
            q,
        ) by {
            if l < v.len() {
                assert(score(v[k], q) >= score(v[l], q));
            } else if k < v.len() - 1 {
                assert(score(v[k], q) >= score(v[v.len() - 1], q));
            }
        }
    }
}

/// A tool is told to a model under its name, with its parameters.
pub proof fn law_tool_is_defined(t: ToolEntry, dir: Seq<char>, i: int)
    requires
        0 <= i < t.params.len(),
        forall|k: int, l: int| 0 <= k < l < t.params.len() ==> t.params[k].name@ != t.params[l].name@,
        t.required.len() > 0,
    ensures
        ({
            let d = definition(t, dir);
            let f = d.at("function"@);
            let p = f.at("parameters"@);
            &&& d.at("type"@) == JsonView::Str("function"@)
            &&& f.at("name"@) == JsonView::Str(t.name@)
            &&& f.at("description"@) == JsonView::Str(
                replaced(t.schema_description@, "<skills>"@, dir),
            )
            &&& p.at("type"@) == JsonView::Str("object"@)
            &&& p.at("properties"@).at(t.params[i].name@).at("type"@) == JsonView::Str(
                t.params[i].kind@,
            )
            &&& p.at("required"@).elements().len() == t.required.len()
            &&& forall|k: int|
                0 <= k < t.required.len() ==> #[trigger] p.at("required"@).elements()[k]
                    == JsonView::Str(t.required[k]@)
        }),
{
    reveal_with_fuel(field_from, 4);
    reveal_strlit("type");
    reveal_strlit("function");
    reveal_strlit("name");
    reveal_strlit("description");
    reveal_strlit("parameters");
    reveal_strlit("properties");
    reveal_strlit("required");
    reveal_strlit("enum");
    assert("type"@.len() == 4 && "function"@.len() == 8 && "name"@.len() == 4 && "description"@.len()
        == 11 && "parameters"@.len() == 10 && "properties"@.len() == 10 && "required"@.len() == 8
        && "enum"@.len() == 4);
    assert("type"@[0] == 't' && "name"@[0] == 'n' && "enum"@[0] == 'e');
    let f = property_fields(t.params, dir);
    assert(f[i].0 == t.params[i].name@);
    lemma_property(f, i, 0);
}

proof fn lemma_property(f: Seq<(Seq<char>, JsonView)>, i: int, k: int)
    requires
        0 <= k <= i < f.len(),
        forall|k: int| 0 <= k < i ==> (#[trigger] f[k]).0 != f[i].0,
    ensures
        field_from(f, f[i].0, k) == f[i].1,
    decreases i - k,
{
    if k < i {
        assert(f[k].0 != f[i].0);
        lemma_property(f, i, k + 1);
    }
}

/// With loading on the way a model is told of the search first, and then of the tools that were
/// found; else of all tools at once.
pub proof fn law_tools_are_offered(names: Seq<Seq<char>>, dir: Seq<char>, i: int)
    requires
        1 <= i < TOOL_COUNT,
    ensures
        definitions_for(true, names, dir)[0] == definition(tool_entry(0), dir),
        definitions_for(false, names, dir).len() == TOOL_COUNT - 1,
        definitions_for(false, names, dir)[i - 1] == definition(tool_entry(i), dir),
        definitions_for(true, names.push(tool_entry(i).name@), dir) == definitions_for(
            true,
            names,
            dir,
        ).push(definition(tool_entry(i), dir)),
        tool_entry(0).name@ == "ToolSearch"@,
{
    lemma_all_definitions(TOOL_COUNT as int, dir);
    lemma_own_name(i);
    let n = tool_entry(i).name@;
    assert(names.push(n).drop_last() =~= names);
    assert(tool_entry(i).defer_loading);
    let a = first_definitions(true, dir);
    let b = loaded_definitions(names, dir);
    assert(a + b.push(definition(tool_entry(i), dir)) =~= (a + b).push(
        definition(tool_entry(i), dir),
    ));
}

proof fn lemma_all_definitions(n: int, dir: Seq<char>)
    requires
        1 <= n,
    ensures
        all_definitions(n, dir).len() == n - 1,
        forall|i: int|
            1 <= i < n ==> #[trigger] all_definitions(n, dir)[i - 1] == definition(
                tool_entry(i),
                dir,
            ),
    decreases n,
{
    if n > 1 {
        lemma_all_definitions(n - 1, dir);
    }
}

/// The auditor is the model set for it, with its own provider and key, else the model that is
/// asked anyway.
pub proof fn law_auditor_is_chosen(
    c: AppConfig,
    secrets: SecretsConfig,
    request: ChatRequest,
    env: Table<String>,
    m: ModelConfig,
    p: ProviderConfig,
    id: Seq<char>,
    key: Seq<char>,
)
    ensures
        c.audit.model is None ==> (audit_target(c, secrets, request, env) matches Ok(t)
            && t.model_id == request.model_id@ && t.provider_id == request.provider_id@ && t.api_key
            == request.api_key@),
        opt_text(c.audit.model) == Some(id) && id != request.model_id@ && c.models.lookup(id)
            == Some(m) && c.providers.lookup(m.provider@) == Some(p) && key_of(
            m.provider@,
            p@,
            secrets,
            env,
        ) == Ok::<Seq<char>, Failure>(key) ==> (audit_target(c, secrets, request, env)
            matches Ok(t) && t.model_id == id && t.model == m@ && t.provider_id == m.provider@
            && t.provider == p@ && t.api_key == key),
        opt_text(c.audit.model) == Some(id) && id != request.model_id@ && c.models.lookup(id) is None
            ==> audit_target(c, secrets, request, env) is Err,
{
}

/// A round of calls adds what the model said with its calls, and the answers behind it, in order.
pub proof fn law_round_is_noted(
    l: LoopView,
    content: Seq<char>,
    calls: Seq<JsonView>,
    answers: Seq<MessageView>,
    i: int,
)
    requires
        0 <= i < answers.len(),
    ensures
        ({
            let v = answered(l, content, calls, answers);
            let n = l.messages.len() as int;
            &&& v.len() == n + 1 + answers.len()
            &&& v[n].role == "assistant"@
            &&& v[n].content == content
            &&& v[n].tool_calls == Some(calls)
            &&& v[n + 1 + i] == answers[i]
            &&& called(l, content, calls).round == l.round + 1
        }),
{
}

/// A conversation with tools starts with its messages, and may go as many rounds as are set.
pub proof fn law_rounds_are_limited(v: Seq<MessageView>, c: AppConfig, n: u32)
    ensures
        loop_start(v, c).messages == v,
        loop_start(v, c).round == 0,
        c.tools.max_rounds == Some(n) ==> loop_start(v, c).max_rounds == n,
        c.tools.max_rounds is None ==> loop_start(v, c).max_rounds == 20,
        v.len() > 0 ==> loop_start(v, c).turn_start == v.len() - 1,
        contains_text(too_many_rounds(n as nat).message, decimal(n as nat)),
{
    lemma_contained("max tool calling rounds ("@, decimal(n as nat), ") exceeded"@);
}

} // verus!
