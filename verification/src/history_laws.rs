//! What is shown of a conversation, of its calls and of what surrounds it.

use crate::actions::without_line_ends;
use crate::activity::{
    TodoUiStatus, TodoView, activities, activity, activity_of, call_bullets, has_read,
    last_plan, outcome_answer, plan_of, todo_item, unread_path,
};
use crate::ansi::{CYAN, DIM, GREEN, MAGENTA, RESET, YELLOW};
use crate::chat::MessageView;
use crate::commands::{
    doctor_lines, event_counts, event_line, issue_lines, model_entries, quoted_or_empty,
    session_listing, session_rendering,
};
use crate::config::{AppConfig, ModelConfig, config_issues};
use crate::context::{
    DirItemView, Surroundings, bare_line, git_lines, ignored_names, item_before, place_lines,
    shell_status, status_parts, tool_line, tree_entry, user_line, visible_items, with_item,
    written_line,
};
use crate::diff_laws::on_one_line;
use crate::error::{AppResult, Failure};
use crate::json::{JsonView, printed_json};
use crate::markdown_laws::lemma_tag_found;
use crate::popup::model_entry;
use crate::render::message_text;
use crate::repl::{
    BashCommandView, DirectiveView, SessionCommandView, bash_command, directive, prompt_done,
    session_command, toggle_message, toggle_of, toggled,
};
use crate::screen::on_off;
use crate::session::{StoredAudit, StoredEvent, StoredMessage, StoredResponse, SummaryView, short};
use crate::table::Table;
use crate::table_laws::{lemma_contained, lemma_joined_holds};
use crate::text::{
    contains_text, decimal, in_list, is_blank, is_space, join,
    law_contained_text_stands_somewhere, lemma_split_none, lines, matches_at, only, opt_text,
    preview, starts_with_spec, trimmed, trimmed_end, trimmed_start,
};
use crate::text_laws::law_trimming_takes_space_only;
use crate::tools::{CallView, ToolResult, call_of};
use crate::transcript::{
    barred, body_parts, renderable_messages, session_entry, shown_message, shown_turn,
    shown_turns, turn_rule, turns, without_system,
};
use vstd::prelude::*;

verus! {

/// Every message of the turns that are shown is contained in what is shown, as it would be shown
/// alone.
pub proof fn law_turns_show_messages(
    v: Seq<Seq<StoredMessage>>,
    width: Option<usize>,
    i: int,
    k: int,
)
    requires
        0 <= i < v.len(),
        0 <= k < v[i].len(),
    ensures
        contains_text(shown_turns(v, None, width), shown_message(v[i][k], width)),
{
    let none = Seq::<char>::empty();
    let f = |m: StoredMessage| shown_message(m, width);
    let g = |t: Seq<StoredMessage>| shown_turn(t, width);
    let p = shown_message(v[i][k], width);
    assert(none + p + none =~= p);
    lemma_contained(none, p, none);
    assert(v[i].map_values(f)[k] == p);
    lemma_joined_holds(v[i].map_values(f), "\n\n"@, k, p);
    assert(v.map_values(g)[i] == shown_turn(v[i], width));
    lemma_joined_holds(v.map_values(g), turn_rule(), i, p);
}

/// Only the last turns are shown where a number of them is asked for.
pub proof fn law_last_turns_are_shown(v: Seq<Seq<StoredMessage>>, n: usize, width: Option<usize>)
    ensures
        v.len() <= n ==> shown_turns(v, Some(n), width) == shown_turns(v, None, width),
        v.len() > n ==> shown_turns(v, Some(n), width) == shown_turns(
            v.skip(v.len() - n),
            None,
            width,
        ),
{
}

/// A message is shown under who said it, with its text rendered; that of the user line by line
/// behind a bar.
pub proof fn law_message_is_shown(m: StoredMessage, width: usize)
    requires
        m.tool_calls.len() == 0,
        m.images.len() == 0,
        message_text(m.content, width as nat).len() > 0,
        m.content.len() > 0,
    ensures
        ({
            let text = message_text(m.content, width as nat);
            let bar = GREEN@ + "│"@ + RESET@;
            &&& m.role == "assistant"@ ==> shown_message(m, Some(width)) == CYAN@ + "Assistant"@
                + RESET@ + "\n"@ + text
            &&& m.role == "tool"@ && (m.name matches Some(n)) ==> shown_message(m, Some(width))
                == YELLOW@ + "Tool:"@ + RESET@ + " "@ + m.name->Some_0 + "\n"@ + text
            &&& m.role == "system"@ ==> shown_message(m, Some(width)) == MAGENTA@ + "System"@
                + RESET@ + "\n"@ + text
            &&& m.role == "user"@ && (forall|i: int|
                0 <= i < lines(text).len() ==> (#[trigger] lines(text)[i]).len() > 0)
                ==> shown_message(m, Some(width)) == GREEN@ + "User"@ + RESET@ + "\n"@ + join(
                lines(text).map_values(|l: Seq<char>| bar + " "@ + l),
                "\n"@,
            )
        }),
{
    reveal_strlit("user");
    reveal_strlit("assistant");
    reveal_strlit("tool");
    reveal_strlit("system");
    assert("user"@.len() == 4 && "assistant"@.len() == 9 && "tool"@.len() == 4 && "system"@.len()
        == 6 && "user"@[0] == 'u' && "tool"@[0] == 't');
    let text = message_text(m.content, width as nat);
    assert(body_parts(m, Some(width)) =~= seq![text]);
    assert(join(seq![text], "\n"@) == text);
    let bar = GREEN@ + "│"@ + RESET@;
    if forall|i: int| 0 <= i < lines(text).len() ==> (#[trigger] lines(text)[i]).len() > 0 {
        assert(barred(GREEN@, lines(text)) =~= lines(text).map_values(
            |l: Seq<char>| bar + " "@ + l,
        ));
    }
}

/// The messages of the system are not shown in the interactive view, and all others are.
pub proof fn law_system_is_not_shown(t: Seq<StoredMessage>)
    ensures
        without_system(t) == t.filter(|m: StoredMessage| m.role != "system"@),
    decreases t.len(),
{
    reveal(Seq::filter);
    if t.len() > 0 {
        law_system_is_not_shown(t.drop_last());
    } else {
        assert(without_system(t) =~= t.filter(|m: StoredMessage| m.role != "system"@));
    }
}

/// What can be shown of a session is every message that holds something.
pub proof fn law_messages_can_be_shown(v: Seq<StoredEvent>, m: StoredMessage)
    ensures
        m.content.len() > 0 || m.images.len() > 0 || m.tool_calls.len() > 0 || m.tool_call_id is Some
            ==> renderable_messages(v.push(StoredEvent::Message(m))) == renderable_messages(v).push(
            m,
        ),
        renderable_messages(Seq::empty()).len() == 0,
{
    assert(v.push(StoredEvent::Message(m)).drop_last() =~= v);
}

/// An entry of the list of sessions marks the current one and shows its short name and its counts.
pub proof fn law_session_entry_tells(s: SummaryView)
    ensures
        s.is_current ==> starts_with_spec(session_entry(s), "* "@ + short(s.session_id)),
        !s.is_current ==> starts_with_spec(session_entry(s), "  "@ + short(s.session_id)),
        s.first_prompt matches Some(p) ==> contains_text(
            session_entry(s),
            printed_json(JsonView::Str(p)),
        ),
        contains_text(
            session_entry(s),
            decimal(s.user_messages) + "u/"@ + decimal(s.assistant_messages) + "a"@,
        ),
{
    let head = (if s.is_current {
        "* "@
    } else {
        "  "@
    }) + short(s.session_id);
    let temp = if s.is_temp {
        " [temp]"@
    } else {
        ""@
    };
    let quoted = printed_json(
        JsonView::Str(
            match s.first_prompt {
                Some(p) => p,
                None => ""@,
            },
        ),
    );
    let counts = decimal(s.user_messages) + "u/"@ + decimal(s.assistant_messages) + "a"@;
    let updated = decimal(
        match s.updated_at {
            Some(t) => t as nat,
            None => 0,
        },
    ) + RESET@;
    reveal_strlit("a · updated=");
    reveal_strlit("a");
    reveal_strlit(" · updated=");
    assert("a · updated="@ =~= "a"@ + " · updated="@);
    lemma_entry_parts(head, temp + " "@, quoted, " "@ + DIM@ + "· "@, counts, " · updated="@ + updated);
    assert(session_entry(s) =~= head + (temp + " "@) + quoted + (" "@ + DIM@ + "· "@) + counts + (
    " · updated="@ + updated));
}

proof fn lemma_entry_parts(
    a: Seq<char>,
    b: Seq<char>,
    c: Seq<char>,
    d: Seq<char>,
    e: Seq<char>,
    f: Seq<char>,
)
    ensures
        ({
            let s = a + b + c + d + e + f;
            a.is_prefix_of(s) && contains_text(s, c) && contains_text(s, e)
        }),
{
    let s = a + b + c + d + e + f;
    assert(s =~= a + (b + c + d + e + f));
    assert(s =~= (a + b) + c + (d + e + f));
    lemma_contained(a + b, c, d + e + f);
    lemma_contained(a + b + c + d, e, f);
}

/// A session is listed event by event, in order, and its parts are counted.
pub proof fn law_session_is_listed(v: Seq<StoredEvent>, i: int)
    requires
        0 <= i < v.len(),
    ensures
        session_listing(v).len() == v.len() + 1,
        session_listing(v)[i] == event_line(v[i]),
        event_counts(v).0 == v.filter(|e: StoredEvent| e is Message).len(),
        event_counts(v).1 == v.filter(|e: StoredEvent| e is Response).len(),
        event_counts(v).2 == v.filter(|e: StoredEvent| e is Audit).len(),
        session_listing(v).last() == "summary messages="@ + decimal(event_counts(v).0)
            + " responses="@ + decimal(event_counts(v).1) + " audits="@ + decimal(event_counts(v).2),
{
    lemma_event_counts(v);
}

proof fn lemma_event_counts(v: Seq<StoredEvent>)
    ensures
        event_counts(v).0 == v.filter(|e: StoredEvent| e is Message).len(),
        event_counts(v).1 == v.filter(|e: StoredEvent| e is Response).len(),
        event_counts(v).2 == v.filter(|e: StoredEvent| e is Audit).len(),
    decreases v.len(),
{
    reveal(Seq::filter);
    if v.len() > 0 {
        lemma_event_counts(v.drop_last());
    }
}

/// The line of an event tells whose it is and what it says.
pub proof fn law_event_line_tells(m: StoredMessage, r: StoredResponse, a: StoredAudit)
    ensures
        starts_with_spec(event_line(StoredEvent::Message(m)), "message role="@ + m.role),
        (" content="@ + printed_json(JsonView::Str(m.content))).is_suffix_of(
            event_line(StoredEvent::Message(m)),
        ),
        starts_with_spec(
            event_line(StoredEvent::Response(r)),
            "response provider="@ + r.provider + " model="@ + r.model,
        ),
        starts_with_spec(
            event_line(StoredEvent::Audit(a)),
            "audit provider="@ + a.provider + " model="@ + a.model,
        ),
        (" summary="@ + printed_json(JsonView::Str(a.summary))).is_suffix_of(
            event_line(StoredEvent::Audit(a)),
        ),
        contains_text(
            event_line(StoredEvent::Audit(a)),
            " verdict="@ + printed_json(JsonView::Str(a.verdict)),
        ),
{
    let x = event_line(StoredEvent::Message(m));
    let rest = " tool_calls="@ + decimal(m.tool_calls.len()) + " tool_call_id="@ + quoted_or_empty(
        m.tool_call_id,
    ) + " name="@ + quoted_or_empty(m.name);
    let end = " content="@ + printed_json(JsonView::Str(m.content));
    assert(x =~= ("message role="@ + m.role) + (rest + end));
    assert(x =~= ("message role="@ + m.role + rest) + end);
    let y = event_line(StoredEvent::Response(r));
    assert(y =~= ("response provider="@ + r.provider + " model="@ + r.model) + (" finish_reason="@
        + r.finish_reason + " latency_ms="@ + decimal(r.latency_ms as nat)));
    let z = event_line(StoredEvent::Audit(a));
    let head = "audit provider="@ + a.provider + " model="@ + a.model;
    let mid = " tool_name="@ + quoted_or_empty(a.tool_name) + " tool_call_id="@ + quoted_or_empty(
        a.tool_call_id,
    );
    let verdict = " verdict="@ + printed_json(JsonView::Str(a.verdict));
    let last = " summary="@ + printed_json(JsonView::Str(a.summary));
    assert(z =~= head + mid + verdict + last);
    lemma_contained(head + mid, verdict, last);
    assert(z =~= head + (mid + verdict + last));
}

/// The models are listed in order, those of one provider where it is asked for.
pub proof fn law_models_are_listed(t: Table<ModelConfig>, p: Seq<char>, n: int)
    requires
        0 <= n < t.keys().len(),
    ensures
        model_entries(t, None, n + 1) == model_entries(t, None, n).push(model_entry(t.values()[n])),
        t.values()[n].provider@ == p ==> model_entries(t, Some(p), n + 1) == model_entries(
            t,
            Some(p),
            n,
        ).push(model_entry(t.values()[n])),
        t.values()[n].provider@ != p ==> model_entries(t, Some(p), n + 1) == model_entries(
            t,
            Some(p),
            n,
        ),
        model_entries(t, None, 0).len() == 0 && model_entries(t, Some(p), 0).len() == 0,
{
}

/// Every fault of a configuration is told.
pub proof fn law_faults_are_told(
    c: AppConfig,
    a: Seq<char>,
    b: Seq<char>,
    d: Seq<char>,
    i: int,
)
    ensures
        config_issues(c).len() == 0 ==> doctor_lines(c, a, b, d).contains("config=ok"@),
        0 <= i < config_issues(c).len() ==> doctor_lines(c, a, b, d).contains(
            "issue="@ + printed_json(JsonView::Str(config_issues(c)[i])),
        ),
        doctor_lines(c, a, b, d)[0] == "config_file="@ + a,
        doctor_lines(c, a, b, d)[1] == "secrets_file="@ + b,
        doctor_lines(c, a, b, d)[2] == "sessions_dir="@ + d,
{
    let v = doctor_lines(c, a, b, d);
    let issues = config_issues(c);
    if issues.len() == 0 {
        assert(v[3] == "config=ok"@);
    } else if 0 <= i < issues.len() {
        assert(issue_lines(issues)[i] == "issue="@ + printed_json(JsonView::Str(issues[i])));
        assert(v[4 + i] == issue_lines(issues)[i]);
    }
}

/// What is typed goes to the model, unless it is blank or a command.
pub proof fn law_input_is_understood(prompt: Seq<char>)
    ensures
        is_blank(prompt) ==> directive(prompt, 0) == DirectiveView::Continue,
        !is_blank(prompt) && trimmed(prompt)[0] != '/' ==> directive(prompt, 0)
            == DirectiveView::Submit,
{
    reveal_strlit("/");
    if !is_blank(prompt) && trimmed(prompt)[0] != '/' {
        assert(!starts_with_spec(trimmed(prompt), "/"@)) by {
            assert("/"@[0] == '/');
        }
    }
}

/// The commands about running shells and about sessions are understood.
pub proof fn law_shell_commands_are_understood(id: Seq<char>, text: Seq<char>)
    requires
        id.len() > 0,
        forall|i: int| 0 <= i < id.len() ==> !is_space(#[trigger] id[i]),
    ensures
        bash_command("read "@ + id) == Ok::<BashCommandView, Failure>(BashCommandView::Read(id)),
        bash_command("close "@ + id) == Ok::<BashCommandView, Failure>(BashCommandView::Close(id)),
        text.len() > 0 && !is_space(text.last()) ==> bash_command(
            "input "@ + id + seq![' '] + text,
        ) == Ok::<BashCommandView, Failure>(BashCommandView::Input(id, text)),
        bash_command("sessions"@) == Ok::<BashCommandView, Failure>(BashCommandView::Sessions),
        bash_command(Seq::empty()) == Ok::<BashCommandView, Failure>(BashCommandView::Help),
        session_command("switch "@ + id) == SessionCommandView::Switch(id),
        session_command("current"@) == SessionCommandView::Current,
        session_command("list"@) == SessionCommandView::List,
        session_command(Seq::empty()) == SessionCommandView::List,
{
    reveal_strlit("");
    reveal_strlit("help");
    reveal_strlit("sessions");
    reveal_strlit("read ");
    reveal_strlit("close ");
    reveal_strlit("input ");
    reveal_strlit("list");
    reveal_strlit("current");
    reveal_strlit("switch ");
    reveal_strlit(" ");
    assert(""@ =~= Seq::<char>::empty());
    assert(" "@ =~= seq![' ']);
    assert("help"@[0] == 'h' && "sessions"@[0] == 's' && "read "@[0] == 'r' && "close "@[0] == 'c'
        && "input "@[0] == 'i' && "list"@[0] == 'l' && "current"@[0] == 'c' && "switch "@[0] == 's');
    assert(trimmed(id) == id) by {
        assert(trimmed_start(id) == id);
        assert(trimmed_end(id) == id);
    }
    let r = "read "@ + id;
    let c = "close "@ + id;
    let s = "switch "@ + id;
    assert(r[0] == 'r' && c[0] == 'c' && s[0] == 's' && s[1] == 'w' && "sessions"@[1] == 'e');
    assert("read "@.is_prefix_of(r) && r.skip(5) =~= id);
    assert("close "@.is_prefix_of(c) && c.skip(6) =~= id);
    assert("switch "@.is_prefix_of(s) && s.skip(7) =~= id);
    assert(!"read "@.is_prefix_of(c));
    if text.len() > 0 && !is_space(text.last()) {
        let inner = id + seq![' '] + text;
        let n = "input "@ + id + seq![' '] + text;
        assert(n =~= "input "@ + inner);
        assert(n[0] == 'i');
        assert(n.len() >= 9);
        assert("input "@.is_prefix_of(n) && n.skip(6) =~= inner);
        assert(!"read "@.is_prefix_of(n) && !"close "@.is_prefix_of(n));
        assert(trimmed(inner) == inner) by {
            assert(inner[0] == id[0] && inner.last() == text.last());
            assert(trimmed_start(inner) == inner);
            assert(trimmed_end(inner) == inner);
        }
        law_contained_text_stands_somewhere(id, " "@);
        assert(!contains_text(id, " "@)) by {
            if contains_text(id, " "@) {
                let i = choose|i: int| matches_at(id, " "@, i);
                assert(id.subrange(i, i + 1)[0] == ' ');
                assert(is_space(id[i]));
            }
        }
        lemma_tag_found(id, " "@, text);
    }
}

/// A switch is set as it is told, and left as it is when it is only asked about.
pub proof fn law_switch_is_set(value: Option<bool>, name: Seq<char>, usage: Seq<char>)
    ensures
        toggled(value, toggle_of("on"@)) == Some(true),
        toggled(value, toggle_of("off"@)) == Some(false),
        toggled(value, toggle_of("status"@)) == value,
        toggled(value, toggle_of(Seq::empty())) == value,
        toggle_message(name, usage, Some(true), toggle_of("status"@)) == name + ": "@ + on_off(true),
        toggle_message(name, usage, value, toggle_of("on"@)) == name + " enabled"@,
        toggle_message(name, usage, value, toggle_of("off"@)) == name + " disabled"@,
{
    reveal_strlit("");
    reveal_strlit("on");
    reveal_strlit("off");
    reveal_strlit("status");
    assert(""@ =~= Seq::<char>::empty());
    assert("on"@.len() == 2 && "off"@.len() == 3 && "status"@.len() == 6);
}

/// Lines are gathered until a single dot; what they hold is put together in order.
pub proof fn law_lines_are_gathered(v: Seq<Seq<char>>, line: Seq<char>)
    ensures
        prompt_done(v, "."@) == Some(join(v, "\n"@)),
        v.len() > 0 && without_line_ends(line) != "."@ ==> prompt_done(v, line) is None,
        prompt_done(Seq::empty(), "/exit"@) == Some("/exit"@),
{
    reveal_strlit(".");
    reveal_strlit("/exit");
    reveal_strlit("/quit");
    assert(without_line_ends("."@) == "."@);
    assert(without_line_ends("/exit"@) == "/exit"@);
    assert("/exit"@.len() == 5 && "."@.len() == 1 && "/quit"@.len() == 5);
}

/// A call is told in a few words: what it is called and what it is about.
pub proof fn law_call_is_told(c: CallView, t: Seq<char>)
    ensures
        c.name == "Bash"@ && c.arguments.at("command"@) == JsonView::Str(t) ==> activity(c)
            == "Bash: "@ + preview(t, 40),
        c.name == "Read"@ && c.arguments.at("file_path"@) == JsonView::Str(t) ==> activity(c)
            == "Read: "@ + preview(t, 32),
        c.name == "Edit"@ && c.arguments.at("file_path"@) == JsonView::Str(t) ==> activity(c)
            == "Edit: "@ + preview(t, 32),
        c.name == "WebFetch"@ && c.arguments.at("url"@) == JsonView::Str(t) ==> activity(c)
            == "WebFetch: "@ + preview(t, 40),
        c.name == "Grep"@ && c.arguments.at("pattern"@) == JsonView::Str(t) ==> activity(c)
            == "Grep: "@ + preview(t, 24),
{
    reveal_strlit(": ");
    reveal_strlit("ToolSearch");
    reveal_strlit("tool_search");
    reveal_strlit("Bash");
    reveal_strlit("bash");
    reveal_strlit("Write");
    reveal_strlit("write");
    reveal_strlit("Edit");
    reveal_strlit("edit");
    reveal_strlit("Read");
    reveal_strlit("read");
    reveal_strlit("fetch");
    reveal_strlit("WebFetch");
    reveal_strlit("web_fetch");
    reveal_strlit("Grep");
    reveal_strlit("grep");
    reveal_strlit("Bash: ");
    reveal_strlit("Read: ");
    reveal_strlit("Edit: ");
    reveal_strlit("WebFetch: ");
    reveal_strlit("Grep: ");
    assert("Bash"@ + ": "@ =~= "Bash: "@);
    assert("Read"@ + ": "@ =~= "Read: "@);
    assert("Edit"@ + ": "@ =~= "Edit: "@);
    assert("WebFetch"@ + ": "@ =~= "WebFetch: "@);
    assert("Grep"@ + ": "@ =~= "Grep: "@);
    assert("Bash"@[0] == 'B' && "bash"@[0] == 'b' && "Edit"@[0] == 'E' && "edit"@[0] == 'e'
        && "Read"@[0] == 'R' && "read"@[0] == 'r' && "Grep"@[0] == 'G' && "grep"@[0] == 'g');
}

/// The calls of a message are told one by one, in order.
pub proof fn law_calls_are_told_in_order(v: Seq<JsonView>, i: int)
    requires
        0 <= i < v.len(),
    ensures
        activities(v).len() == v.len() && activities(v)[i] == activity_of(call_of(v[i])),
        call_bullets(v).len() == v.len() && activity_of(call_of(v[i])).is_suffix_of(
            call_bullets(v)[i],
        ),
        contains_text(
            join(call_bullets(v), "\n"@),
            activity_of(call_of(v[i])),
        ),
{
    let t = activity_of(call_of(v[i]));
    let head = DIM@ + "•"@ + RESET@ + " "@;
    let none = Seq::<char>::empty();
    assert(call_bullets(v)[i] == head + t);
    assert(head + t + none =~= head + t);
    lemma_contained(head, t, none);
    lemma_joined_holds(call_bullets(v), "\n"@, i, t);
}

/// The plan that was written down last is the one that counts.
pub proof fn law_last_plan_counts(v: Seq<JsonView>, j: JsonView, p: Seq<TodoView>)
    ensures
        plan_of(call_of(j)) == Some(p) ==> last_plan(v.push(j)) == Some(p),
        plan_of(call_of(j)) is None ==> last_plan(v.push(j)) == last_plan(v),
        last_plan(Seq::empty()) is None,
{
    assert(v.push(j).drop_last() =~= v);
}

/// An item of a plan is read from its fields.
pub proof fn law_plan_item_is_read(j: JsonView, title: Seq<char>, details: Seq<char>)
    requires
        j is Object,
        j.at("title"@) == JsonView::Str(title),
        j.at("details"@) == JsonView::Str(details),
    ensures
        j.at("status"@) == JsonView::Str("pending"@) ==> todo_item(j) == Some(
            TodoView { title, details, status: TodoUiStatus::Pending },
        ),
        j.at("status"@) == JsonView::Str("in_progress"@) ==> todo_item(j) == Some(
            TodoView { title, details, status: TodoUiStatus::InProgress },
        ),
        j.at("status"@) == JsonView::Str("completed"@) ==> todo_item(j) == Some(
            TodoView { title, details, status: TodoUiStatus::Completed },
        ),
        j.at("status"@) is Null ==> todo_item(j) is None,
{
    reveal_strlit("pending");
    reveal_strlit("in_progress");
    reveal_strlit("completed");
    assert("pending"@.len() == 7 && "in_progress"@.len() == 11 && "completed"@.len() == 9);
}

/// A call is answered under its own identifier and name, with its result or its error.
pub proof fn law_call_is_answered(c: CallView, outcome: AppResult<ToolResult>)
    ensures
        outcome_answer(c, outcome).role == "tool"@,
        outcome_answer(c, outcome).name == Some(c.name),
        outcome matches Ok(t) ==> outcome_answer(c, outcome).content == t.content@
            && outcome_answer(c, outcome).tool_call_id == Some(t.tool_call_id@),
        outcome matches Err(e) ==> outcome_answer(c, outcome).content == "tool execution error: "@
            + e@.message && outcome_answer(c, outcome).tool_call_id == Some(c.id),
{
}

/// A file that is there is not changed before it was read, unless it is blank and is given its
/// first text.
pub proof fn law_unread_file_is_not_changed(
    v: Seq<MessageView>,
    c: CallView,
    path: Seq<char>,
    t: Seq<char>,
)
    requires
        c.name == "Edit"@,
        c.arguments.at("file_path"@) == JsonView::Str(path),
    ensures
        !is_blank(t) && !has_read(v, path, None) ==> unread_path(v, c, None, true, Some(t)) == Some(
            path,
        ),
        unread_path(v, c, None, false, None) is None,
        has_read(v, path, None) ==> unread_path(v, c, None, true, Some(t)) is None,
{
    reveal_strlit("Edit");
    reveal_strlit("Read");
    reveal_strlit("read");
    assert("Edit"@[0] == 'E' && "Read"@[0] == 'R' && "read"@[0] == 'r');
}

/// The status tells the time, the user, the directory, the branch and the system.
pub proof fn law_status_tells(s: Surroundings, d: Seq<char>, b: Seq<char>)
    ensures
        status_parts(s)[0] == "# Current Status"@,
        status_parts(s)[1] == "**Time**: "@ + s.time@,
        opt_text(s.cwd) == Some(d) ==> status_parts(s).contains(
            "**Working Directory**: `"@ + d + "`"@,
        ),
        opt_text(s.work_tree) == Some("true"@) && opt_text(s.branch) == Some(b)
            ==> status_parts(s).contains("**Branch**: "@ + b),
        status_parts(s).contains("**OS**: "@ + s.os@),
{
    let head = seq!["# Current Status"@, "**Time**: "@ + s.time@];
    let user = user_line(opt_text(s.user));
    let place = place_lines(s);
    let git = git_lines(s);
    let sys = seq![
        "## Environment"@,
        "**OS**: "@ + s.os@,
        "**Shell Tool**: "@ + shell_status(opt_text(s.shell), s.windows),
        "## Tooling"@,
    ];
    let all = status_parts(s);
    assert(all[0] == head[0] && all[1] == head[1]);
    let n = (head + user).len() as int;
    if opt_text(s.cwd) == Some(d) {
        assert(place[0] == "**Working Directory**: `"@ + d + "`"@);
        assert(all[n] == place[0]);
    }
    let m = n + place.len();
    if opt_text(s.work_tree) == Some("true"@) && opt_text(s.branch) == Some(b) {
        assert(git[1] == "**Branch**: "@ + b);
        assert(all[m + 1] == git[1]);
    }
    let k = m + git.len();
    assert(all[k + 1] == sys[1]);
}

/// The version of a tool is the line that it wrote, and a tool that told nothing was not found.
pub proof fn law_tool_version_is_told(label: Seq<char>, t: Seq<char>, note: Seq<char>)
    requires
        on_one_line(t),
        !is_blank(t),
    ensures
        tool_line(label, Some(t), None) == "**"@ + label + "**: "@ + trimmed(t),
        tool_line(label, None, None) == "**"@ + label + "**: not found"@,
        tool_line(label, None, Some(note)) == "**"@ + label + "**: not found ("@ + note + ")"@,
{
    let f = only('\n');
    assert forall|i: int| 0 <= i < t.len() implies !f(#[trigger] t[i]) by {
        assert(t.contains(t[i]));
    }
    lemma_split_none(t, f);
    assert(t.len() > 0) by {
        law_trimming_takes_space_only(t);
    }
    assert(lines(t) =~= seq![t]);
}

/// A directory is shown with what it holds, a file by its name.
pub proof fn law_tree_names_entries(name: Seq<char>, v: Seq<DirItemView>)
    ensures
        tree_entry(DirItemView { name, is_dir: false }, Some(v)) == "- "@ + name,
        tree_entry(DirItemView { name, is_dir: true }, None) == "- "@ + name + "/"@,
        starts_with_spec(
            tree_entry(DirItemView { name, is_dir: true }, Some(v)),
            "- "@ + name + "/"@,
        ),
{
}

/// No entry that is not to be hidden is lost.
pub proof fn law_other_entries_are_shown(v: Seq<DirItemView>)
    ensures
        visible_items(v).to_multiset() == v.filter(
            |x: DirItemView| !in_list(x.name, ignored_names()),
        ).to_multiset(),
    decreases v.len(),
{
    broadcast use vstd::seq_lib::group_to_multiset_ensures;

    reveal(Seq::filter);
    let f = |x: DirItemView| !in_list(x.name, ignored_names());
    if v.len() > 0 {
        law_other_entries_are_shown(v.drop_last());
        if in_list(v.last().name, ignored_names()) {
            assert(v.filter(f) == v.drop_last().filter(f));
        } else {
            lemma_with_item(visible_items(v.drop_last()), v.last());
            assert(v.filter(f) == v.drop_last().filter(f).push(v.last()));
        }
    } else {
        assert(visible_items(v) =~= v.filter(f));
    }
}

proof fn lemma_with_item(v: Seq<DirItemView>, x: DirItemView)
    ensures
        with_item(v, x).to_multiset() == v.to_multiset().insert(x),
    decreases v.len(),
{
    broadcast use vstd::seq_lib::group_to_multiset_ensures;

    if v.len() > 0 && item_before(x, v.last()) {
        lemma_with_item(v.drop_last(), x);
        assert(v.drop_last().push(v.last()) =~= v);
        assert(with_item(v, x).to_multiset() =~= v.to_multiset().insert(x));
    }
}

/// The last turn of a session is shown, or as many as are asked for, or all of them.
pub proof fn law_session_is_rendered(id: Seq<char>, v: Seq<StoredEvent>, n: usize)
    requires
        turns(v).len() > 0,
        n > 0,
    ensures
        session_rendering(id, v, None, false) == Ok::<Seq<char>, Failure>(
            shown_turn(turns(v).last(), None),
        ),
        session_rendering(id, v, Some(n), false) == Ok::<Seq<char>, Failure>(
            shown_turns(turns(v), Some(n), None),
        ),
        session_rendering(id, v, None, true) == Ok::<Seq<char>, Failure>(
            shown_turns(turns(v), None, None),
        ),
        session_rendering(id, v, Some(0), false) is Err,
{
    let t = turns(v);
    let one = if t.len() > 1 {
        t.skip(t.len() - 1)
    } else {
        t
    };
    assert(one =~= seq![t.last()]);
    let f = |x: Seq<StoredMessage>| shown_turn(x, None);
    assert(one.map_values(f) =~= seq![shown_turn(t.last(), None)]);
    assert(join(seq![shown_turn(t.last(), None)], turn_rule()) == shown_turn(t.last(), None));
}

/// What a command wrote first is told: to its output, else to its error output.
pub proof fn law_first_line_is_told(v: Seq<Seq<char>>, i: int)
    requires
        0 <= i < v.len(),
        bare_line(v[i]).len() > 0,
        forall|k: int| 0 <= k < i ==> bare_line(#[trigger] v[k]).len() == 0,
    ensures
        written_line(v, 0) == Some(bare_line(v[i])),
        written_line(v, i) == Some(bare_line(v[i])),
{
    lemma_written_line(v, i, 0);
}

proof fn lemma_written_line(v: Seq<Seq<char>>, i: int, k: int)
    requires
        0 <= k <= i < v.len(),
        bare_line(v[i]).len() > 0,
        forall|k: int| 0 <= k < i ==> bare_line(#[trigger] v[k]).len() == 0,
    ensures
        written_line(v, k) == Some(bare_line(v[i])),
    decreases i - k,
{
    if k < i {
        assert(bare_line(v[k]).len() == 0);
        lemma_written_line(v, i, k + 1);
    }
}

} // verus!
