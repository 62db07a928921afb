//! What a question is made of, what is saved of it and its answer, and what is printed.

use crate::ask::{
    AskTexts, Attachment, InputView, answer_format, ask_messages, attached, built_input,
    first_format, has_payload, image_refusal, kept_prompt, kept_turn, message_events,
    named_or_current, opt_history, option_clash, question_events, saved_or_current, saves,
    stored, system_prompt, typed,
};
use crate::chat::{MessageView, ReplyView};
use crate::cli::{AskArgs, OutputFormat};
use crate::config::{AppConfig, ModelView, ProviderView};
use crate::context::ContextStatusMode;
use crate::error::{EXIT_ARGS, EXIT_SESSION, Failure};
use crate::json::{JsonView, field_from, pretty_json, printed_json};
use crate::media::ImageView;
use crate::output::{
    AskExecution, AskOutput, AskRoute, ask_route, completed_json, count_json, count_or_zero,
    final_output, json_quoted, message_fields, object_text, output_fields, output_json,
    output_line, usage_fields,
};
use crate::render::{RULE_WIDTH, message_text};
use crate::session::{StoredEvent, no_match, resolved};
use crate::table_laws::{lemma_contained, lemma_contained_within, lemma_joined_holds};
use crate::text::{contains_text, decimal, is_blank, join, opt_text, starts_with_spec};
use vstd::prelude::*;

verus! {

/// A question holds what was typed, what came on the standard input and every attached file under
/// its path, and the images in order; without any of them there is none.
pub proof fn law_question_holds_input(
    p: Seq<char>,
    t: Seq<char>,
    stdin: Option<Seq<char>>,
    files: Seq<Attachment>,
    images: Seq<ImageView>,
    more: Seq<ImageView>,
    k: int,
)
    requires
        !is_blank(t),
    ensures
        built_input(Some(p), stdin, files, Ok(images), more) matches Ok(i) ==> i.images == images
            + more && contains_text(i.prompt, p),
        built_input(Some(p), Some(t), files, Ok(images), more) matches Ok(i) ==> contains_text(
            i.prompt,
            p + seq!['\n', '\n'] + t,
        ),
        built_input(Some(p), None, Seq::empty(), Ok(images), more) == Ok::<InputView, Failure>(
            InputView { prompt: p, images: images + more },
        ),
        built_input(None, Some(t), Seq::empty(), Ok(images), more) == Ok::<InputView, Failure>(
            InputView { prompt: t, images: images + more },
        ),
        0 <= k < files.len() && (files[k].content matches Ok(text) && (built_input(
            Some(p),
            stdin,
            files,
            Ok(images),
            more,
        ) matches Ok(i))) ==> contains_text(
            built_input(Some(p), stdin, files, Ok(images), more)->Ok_0.prompt,
            "File: "@ + files[k].path@ + seq!['\n'] + files[k].content->Ok_0@,
        ),
        0 <= k < files.len() && files[k].content is Err ==> built_input(
            Some(p),
            stdin,
            files,
            Ok(images),
            more,
        ) is Err,
        built_input(None, None, Seq::empty(), Ok(Seq::empty()), Seq::empty()) is Err,
{
    reveal_strlit("\n");
    reveal_strlit("\n\n");
    assert("\n"@ =~= seq!['\n']);
    assert("\n\n"@ =~= seq!['\n', '\n']);
    let none = Seq::<char>::empty();
    assert(none + p + none =~= p);
    lemma_contained(none, p, none);
    if let Ok(v) = attached(files) {
        let parts = typed(Some(p), stdin) + v;
        assert(parts[0] == p);
        lemma_joined_holds(parts, "\n\n"@, 0, p);
        let both = typed(Some(p), Some(t)) + v;
        assert(both[0] == p && both[1] == t);
        lemma_first_two(both, "\n\n"@);
        if 0 <= k < files.len() {
            lemma_attached(files, k);
            let n = typed(Some(p), stdin).len() as int;
            assert(parts[n + k] == v[k]);
            assert(none + v[k] + none =~= v[k]);
            lemma_contained(none, v[k], none);
            lemma_joined_holds(parts, "\n\n"@, n + k, v[k]);
        }
    } else if 0 <= k < files.len() {
    }
    if 0 <= k < files.len() && files[k].content is Err {
        lemma_unread(files, k);
    }
    let empty = Seq::<Attachment>::empty();
    assert(attached(empty) == Ok::<Seq<Seq<char>>, Failure>(Seq::empty()));
    assert(typed(Some(p), None) + Seq::<Seq<char>>::empty() =~= seq![p]);
    assert(typed(None, Some(t)) + Seq::<Seq<char>>::empty() =~= seq![t]);
    assert(typed(None, None) + Seq::<Seq<char>>::empty() =~= Seq::<Seq<char>>::empty());
    assert(join(seq![p], "\n\n"@) == p);
    assert(join(seq![t], "\n\n"@) == t);
    assert(Seq::<ImageView>::empty() + Seq::<ImageView>::empty() =~= Seq::<ImageView>::empty());
}

proof fn lemma_first_two(v: Seq<Seq<char>>, sep: Seq<char>)
    requires
        v.len() >= 2,
    ensures
        contains_text(join(v, sep), v[0] + sep + v[1]),
    decreases v.len(),
{
    let none = Seq::<char>::empty();
    let two = v[0] + sep + v[1];
    if v.len() == 2 {
        assert(v.drop_last() =~= seq![v[0]]);
        assert(join(v.drop_last(), sep) == v[0]);
        assert(none + two + none =~= two);
        lemma_contained(none, two, none);
    } else {
        lemma_first_two(v.drop_last(), sep);
        let a = join(v.drop_last(), sep);
        assert(none + a + (sep + v.last()) =~= a + sep + v.last());
        lemma_contained_within(none, a, sep + v.last(), two);
    }
}

proof fn lemma_attached(files: Seq<Attachment>, k: int)
    requires
        attached(files) is Ok,
        0 <= k < files.len(),
    ensures
        attached(files)->Ok_0.len() == files.len(),
        files[k].content is Ok,
        attached(files)->Ok_0[k] == "File: "@ + files[k].path@ + "\n"@ + files[k].content->Ok_0@,
    decreases files.len(),
{
    if k < files.len() - 1 {
        lemma_attached(files.drop_last(), k);
    } else if files.len() > 1 {
        lemma_attached(files.drop_last(), 0);
    }
}

proof fn lemma_unread(files: Seq<Attachment>, k: int)
    requires
        0 <= k < files.len(),
        files[k].content is Err,
    ensures
        attached(files) is Err,
    decreases files.len(),
{
    if k < files.len() - 1 {
        lemma_unread(files.drop_last(), k);
    }
}

/// The last message of a request asks what was put in, behind the status where one is wanted, and
/// a new session starts with the system prompt.
pub proof fn law_question_is_asked(
    events: Option<Seq<StoredEvent>>,
    t: AskTexts,
    prompt_mode: Seq<char>,
    mode: ContextStatusMode,
    input: InputView,
)
    ensures
        ({
            let v = ask_messages(events, t, prompt_mode, mode, input);
            let wants = mode == ContextStatusMode::Always || mode == ContextStatusMode::Latest;
            &&& !wants ==> v.last().content == input.prompt
            &&& wants ==> v.last().content == t.status@ + "\n\n---\n\n"@ + input.prompt
            &&& v.last().tool_calls is None && v.last().tool_call_id is None
            &&& opt_history(events).len() == 0 && system_prompt(
                opt_text(t.cli_system),
                opt_text(t.file_system),
                prompt_mode,
            ) is Some ==> Some(v[0].content) == system_prompt(
                opt_text(t.cli_system),
                opt_text(t.file_system),
                prompt_mode,
            ) && v[0].role == "system"@
            &&& opt_history(events).len() == 0 && mode == ContextStatusMode::SystemOnce ==> v[v.len()
                - 2].content == t.status@ && v[v.len() - 2].role == "system"@
            &&& mode == ContextStatusMode::Off || mode == ContextStatusMode::SystemOnce || mode
                == ContextStatusMode::Latest ==> kept_prompt(input.prompt, t.status@, mode)
                == input.prompt
            &&& mode == ContextStatusMode::Always ==> kept_prompt(input.prompt, t.status@, mode)
                == v.last().content
        }),
{
}

/// The system prompt is the one given, the one of the file below it, or that of the file alone
/// where it is to replace the other.
pub proof fn law_system_prompt_is_put_together(c: Seq<char>, f: Seq<char>, mode: Seq<char>)
    ensures
        system_prompt(Some(c), Some(f), "override"@) == Some(f),
        mode != "override"@ ==> system_prompt(Some(c), Some(f), mode) == Some(c + "\n\n"@ + f),
        system_prompt(Some(c), None, mode) == Some(c),
        system_prompt(None, Some(f), mode) == Some(f),
        system_prompt(None, None, mode) is None,
{
}

/// An answer is streamed as text or as events, and only what is streamed comes as events; what was
/// asked for first decides.
pub proof fn law_answer_format(f: OutputFormat, b: Option<OutputFormat>, c: Option<OutputFormat>)
    ensures
        answer_format(OutputFormat::Text, true) == Ok::<OutputFormat, Failure>(OutputFormat::Text),
        answer_format(OutputFormat::Line, true) == Ok::<OutputFormat, Failure>(OutputFormat::Text),
        answer_format(OutputFormat::Ndjson, true) == Ok::<OutputFormat, Failure>(
            OutputFormat::Ndjson,
        ),
        answer_format(OutputFormat::Json, true) is Err,
        answer_format(OutputFormat::Ndjson, false) is Err,
        f != OutputFormat::Ndjson ==> answer_format(f, false) == Ok::<OutputFormat, Failure>(f),
        first_format(Some(f), b, c) == f,
        first_format(None, Some(f), c) == f,
        first_format(None, None, Some(f)) == f,
        first_format(None, None, None) == OutputFormat::Line,
{
}

/// What is saved of a question and its answer: the messages before it that hold something, the
/// question with its images, the answer, and how it came.
pub proof fn law_question_is_saved(
    before: Seq<MessageView>,
    prompt: Seq<char>,
    images: Seq<ImageView>,
    r: ReplyView,
    now: Seq<char>,
)
    requires
        r.content.len() > 0,
    ensures
        ({
            let e = question_events(before, prompt, images, r, now);
            let n = e.len() as int;
            &&& n == before.filter(|m: MessageView| has_payload(m)).len() + 3
            &&& e[n - 3] matches StoredEvent::Message(q) && q.role == "user"@ && q.content == prompt
                && q.images == images && q.created_at == now
            &&& e[n - 2] matches StoredEvent::Message(a) && a.role == "assistant"@ && a.content
                == r.content && a.created_at == now
            &&& e[n - 1] matches StoredEvent::Response(x) && x.provider == r.provider_id && x.model
                == r.model_id && x.finish_reason == r.finish_reason && x.usage == r.usage
                && x.latency_ms == r.latency_ms && x.created_at == now
        }),
{
    lemma_message_events(before, now);
}

/// Every message that holds something is saved as it is, in order.
pub proof fn law_messages_are_saved(v: Seq<MessageView>, now: Seq<char>, i: int)
    requires
        0 <= i < v.filter(|m: MessageView| has_payload(m)).len(),
    ensures
        ({
            let m = v.filter(|m: MessageView| has_payload(m))[i];
            &&& message_events(v, now).len() == v.filter(|m: MessageView| has_payload(m)).len()
            &&& message_events(v, now)[i] matches StoredEvent::Message(s) && s.role == m.role
                && s.content == m.content && s.images == m.images && s.tool_call_id
                == m.tool_call_id && s.name == m.name && s.created_at == now && (m.tool_calls
                matches Some(c) ==> s.tool_calls == c) && (m.tool_calls is None
                ==> s.tool_calls.len() == 0)
        }),
{
    lemma_message_events(v, now);
}

proof fn lemma_message_events(v: Seq<MessageView>, now: Seq<char>)
    ensures
        message_events(v, now) == v.filter(|m: MessageView| has_payload(m)).map_values(
            |m: MessageView| StoredEvent::Message(stored(m, now)),
        ),
    decreases v.len(),
{
    reveal(Seq::filter);
    let f = |m: MessageView| has_payload(m);
    let g = |m: MessageView| StoredEvent::Message(stored(m, now));
    if v.len() > 0 {
        lemma_message_events(v.drop_last(), now);
        if has_payload(v.last()) {
            assert(v.filter(f) == v.drop_last().filter(f).push(v.last()));
        } else {
            assert(v.filter(f) == v.drop_last().filter(f));
        }
        assert(message_events(v, now) =~= v.filter(f).map_values(g));
    } else {
        assert(message_events(v, now) =~= v.filter(f).map_values(g));
    }
}

/// A message holds something if it has a text, an image, a call or the result of one.
pub proof fn law_payload(m: MessageView)
    ensures
        m.content.len() > 0 ==> has_payload(m),
        m.images.len() > 0 ==> has_payload(m),
        m.tool_call_id is Some ==> has_payload(m),
        m.tool_calls matches Some(v) ==> v.len() > 0 ==> has_payload(m),
        m.content.len() == 0 && m.images.len() == 0 && m.tool_call_id is None && m.tool_calls is None
            ==> !has_payload(m),
{
}

/// A command is about the session it names, else about the current one.
pub proof fn law_command_is_about_session(
    ids: Seq<Seq<char>>,
    id: Seq<char>,
    current: Seq<char>,
    command: Seq<char>,
)
    ensures
        ids.contains(id) ==> named_or_current(Some(id), ids, Some(current), command) == Ok::<
            Seq<char>,
            Failure,
        >(id),
        named_or_current(None, ids, Some(current), command) == Ok::<Seq<char>, Failure>(current),
        named_or_current(None, ids, None, command) matches Err(e) && e.code == EXIT_SESSION,
        ids.contains(id) ==> saved_or_current(ids, Some(current), id) == Ok::<Seq<char>, Failure>(
            id,
        ),
        ids.len() == 0 ==> saved_or_current(ids, Some(current), current) == Ok::<
            Seq<char>,
            Failure,
        >(current),
{
    if ids.len() == 0 {
        let p = "no session matching `"@;
        let e = no_match(current);
        assert(p.is_prefix_of(e.message));
        assert(resolved(ids, current) == Err::<Seq<char>, Failure>(e));
    }
}

/// Images go only to a model that takes them and a provider to which they can be sent.
pub proof fn law_images_need_vision(model_id: Seq<char>, m: ModelView, p: ProviderView)
    ensures
        image_refusal(model_id, m, p) is None <==> m.capabilities.contains("vision"@) && (p.kind
            == "openai_compatible"@ || p.kind == "anthropic"@),
{
}

/// Nothing is saved of what is to leave no trace, nor where saving is switched off.
pub proof fn law_saving(c: AppConfig)
    ensures
        !saves(c, true),
        c.defaults.auto_save_session == Some(false) ==> !saves(c, false),
        c.defaults.auto_save_session != Some(false) ==> saves(c, false),
{
}

/// The line that tells of an answer holds each of its parts under its name.
pub proof fn law_output_line_tells(o: AskOutput)
    ensures
        starts_with_spec(output_line(o), "ok=1 session_id="@ + json_quoted(o.session_id@)),
        contains_text(output_line(o), " provider="@ + json_quoted(o.provider@)),
        contains_text(output_line(o), " model="@ + json_quoted(o.model@)),
        contains_text(output_line(o), " finish_reason="@ + json_quoted(o.finish_reason@)),
        contains_text(output_line(o), " latency_ms="@ + decimal(o.latency_ms as nat)),
        o.usage.input_tokens matches Some(n) ==> contains_text(
            output_line(o),
            " input_tokens="@ + decimal(n as nat),
        ),
        o.usage.output_tokens matches Some(n) ==> contains_text(
            output_line(o),
            " output_tokens="@ + decimal(n as nat),
        ),
        o.usage.total_tokens matches Some(n) ==> contains_text(
            output_line(o),
            " total_tokens="@ + decimal(n as nat),
        ),
        (" content="@ + json_quoted(o.message.content@)).is_suffix_of(output_line(o)),
{
    let s1 = "ok=1 session_id="@ + json_quoted(o.session_id@);
    let s2 = s1 + " provider="@ + json_quoted(o.provider@);
    let s3 = s2 + " model="@ + json_quoted(o.model@);
    let s4 = s3 + " finish_reason="@ + json_quoted(o.finish_reason@);
    let s5 = s4 + " latency_ms="@ + decimal(o.latency_ms as nat);
    let s6 = s5 + " input_tokens="@ + decimal(count_or_zero(o.usage.input_tokens));
    let s7 = s6 + " output_tokens="@ + decimal(count_or_zero(o.usage.output_tokens));
    let s8 = s7 + " total_tokens="@ + decimal(count_or_zero(o.usage.total_tokens));
    lemma_told(s1, " provider="@, json_quoted(o.provider@), s2, s1);
    lemma_told(s2, " model="@, json_quoted(o.model@), s3, s1);
    lemma_told(s3, " finish_reason="@, json_quoted(o.finish_reason@), s4, s1);
    lemma_told(s4, " latency_ms="@, decimal(o.latency_ms as nat), s5, s1);
    lemma_told(s5, " input_tokens="@, decimal(count_or_zero(o.usage.input_tokens)), s6, s1);
    lemma_told(s6, " output_tokens="@, decimal(count_or_zero(o.usage.output_tokens)), s7, s1);
    lemma_told(s7, " total_tokens="@, decimal(count_or_zero(o.usage.total_tokens)), s8, s1);
    lemma_told(s8, " content="@, json_quoted(o.message.content@), output_line(o), s1);
}

proof fn lemma_told(s: Seq<char>, name: Seq<char>, value: Seq<char>, r: Seq<char>, start: Seq<char>)
    requires
        r == s + name + value,
        start.is_prefix_of(s),
    ensures
        start.is_prefix_of(r),
        contains_text(r, name + value),
        (name + value).is_suffix_of(r),
        forall|p: Seq<char>| #[trigger] contains_text(s, p) ==> contains_text(r, p),
{
    let none = Seq::<char>::empty();
    let part = name + value;
    assert(r =~= s + part + none);
    lemma_contained(s, part, none);
    assert(r =~= none + s + part);
    assert forall|p: Seq<char>| #[trigger] contains_text(s, p) implies contains_text(r, p) by {
        lemma_contained_within(none, s, part, p);
    }
}

/// A field of an object in JSON.
pub open spec fn named_json(name: Seq<char>, value: Seq<char>) -> Seq<char> {
    "\""@ + name + "\":"@ + value
}

/// The JSON that tells of an answer holds each of its parts under its name, and the raw reply where
/// it is wanted.
pub proof fn law_output_json_tells(o: AskOutput)
    ensures
        contains_text(output_json(o, false), named_json("provider"@, json_quoted(o.provider@))),
        contains_text(output_json(o, false), named_json("model"@, json_quoted(o.model@))),
        contains_text(output_json(o, false), named_json("session_id"@, json_quoted(o.session_id@))),
        contains_text(output_json(o, false), named_json("finish_reason"@, json_quoted(o.finish_reason@))),
        contains_text(output_json(o, false), named_json("latency_ms"@, decimal(o.latency_ms as nat))),
        contains_text(output_json(o, false), named_json("content"@, json_quoted(o.message.content@))),
        contains_text(output_json(o, false), named_json("total_tokens"@, count_json(o.usage.total_tokens))),
        contains_text(output_json(o, false), named_json("input_tokens"@, count_json(o.usage.input_tokens))),
        contains_text(
            output_json(o, false),
            named_json("output_tokens"@, count_json(o.usage.output_tokens)),
        ),
        o.raw_provider_response matches Some(raw) ==> contains_text(
            output_json(o, false),
            named_json("raw_provider_response"@, printed_json(raw@)),
        ),
{
    let f = output_fields(o, false);
    let m = message_fields(o.message);
    let u = usage_fields(o.usage);
    lemma_field_told(f, 1, "provider"@, json_quoted(o.provider@));
    lemma_field_told(f, 2, "model"@, json_quoted(o.model@));
    lemma_field_told(f, 3, "session_id"@, json_quoted(o.session_id@));
    lemma_field_told(f, 6, "finish_reason"@, json_quoted(o.finish_reason@));
    lemma_field_told(f, 7, "latency_ms"@, decimal(o.latency_ms as nat));
    lemma_field_told(m, 1, "content"@, json_quoted(o.message.content@));
    lemma_field_within(f, 4, m, named_json("content"@, json_quoted(o.message.content@)));
    lemma_field_told(u, 0, "input_tokens"@, count_json(o.usage.input_tokens));
    lemma_field_told(
        u,
        1,
        "output_tokens"@,
        count_json(o.usage.output_tokens),
    );
    lemma_field_told(u, 2, "total_tokens"@, count_json(o.usage.total_tokens));
    lemma_field_within(f, 5, u, named_json("input_tokens"@, count_json(o.usage.input_tokens)));
    lemma_field_within(f, 5, u, named_json("output_tokens"@, count_json(o.usage.output_tokens)));
    lemma_field_within(f, 5, u, named_json("total_tokens"@, count_json(o.usage.total_tokens)));
    if let Some(raw) = o.raw_provider_response {
        lemma_field_told(
            f,
            8,
            "raw_provider_response"@,
            printed_json(raw@),
        );
    }
}

proof fn lemma_field_within(
    f: Seq<(Seq<char>, Seq<char>)>,
    i: int,
    inner: Seq<(Seq<char>, Seq<char>)>,
    p: Seq<char>,
)
    requires
        0 <= i < f.len(),
        f[i].1 == object_text(inner, 1, false),
        contains_text(object_text(inner, 1, false), p),
    ensures
        contains_text(object_text(f, 0, false), p),
{
    let g = |f: (Seq<char>, Seq<char>)| "\""@ + f.0 + "\":"@ + f.1;
    let v = f.map_values(g);
    let none = Seq::<char>::empty();
    let start = "\""@ + f[i].0 + "\":"@;
    assert(v[i] =~= start + f[i].1 + none);
    lemma_contained_within(start, f[i].1, none, p);
    lemma_joined_holds(v, ","@, i, p);
    lemma_contained_within("{"@, join(v, ","@), "}"@, p);
}

proof fn lemma_field_told(
    f: Seq<(Seq<char>, Seq<char>)>,
    i: int,
    name: Seq<char>,
    value: Seq<char>,
)
    requires
        0 <= i < f.len(),
        f[i] == (name, value),
    ensures
        contains_text(object_text(f, 0, false), named_json(name, value)),
        contains_text(object_text(f, 1, false), named_json(name, value)),
{
    let g = |f: (Seq<char>, Seq<char>)| "\""@ + f.0 + "\":"@ + f.1;
    let v = f.map_values(g);
    let none = Seq::<char>::empty();
    let p = named_json(name, value);
    assert(v[i] =~= none + p + none);
    lemma_contained(none, p, none);
    lemma_joined_holds(v, ","@, i, p);
    lemma_contained_within("{"@, join(v, ","@), "}"@, p);
}

/// An answer is printed in the format asked for: as its text, rendered, or in one of the others.
pub proof fn law_answer_is_printed(e: AskExecution)
    ensures
        e.format == OutputFormat::Text ==> final_output(e, false) == Ok::<Seq<char>, Failure>(
            message_text(e.output.message.content@, RULE_WIDTH as nat),
        ),
        e.format == OutputFormat::Line ==> final_output(e, false) == Ok::<Seq<char>, Failure>(
            output_line(e.output),
        ),
        e.format == OutputFormat::Json ==> final_output(e, false) == Ok::<Seq<char>, Failure>(
            output_json(e.output, true),
        ),
        e.format == OutputFormat::Ndjson ==> final_output(e, false) == Ok::<Seq<char>, Failure>(
            output_json(e.output, false),
        ),
        e.format == OutputFormat::Line ==> final_output(e, true) is Err,
        e.format == OutputFormat::Text && (e.output.raw_provider_response matches Some(j))
            ==> final_output(e, true) == Ok::<Seq<char>, Failure>(
            pretty_json(e.output.raw_provider_response->Some_0@),
        ),
{
}

/// The event that ends a streamed answer tells how it came.
pub proof fn law_completed_event_tells(id: Seq<char>, r: ReplyView)
    ensures
        ({
            let j = completed_json(id, r);
            &&& j.at("type"@) == JsonView::Str("response.completed"@)
            &&& j.at("session_id"@) == JsonView::Str(id)
            &&& j.at("provider"@) == JsonView::Str(r.provider_id)
            &&& j.at("model"@) == JsonView::Str(r.model_id)
            &&& j.at("finish_reason"@) == JsonView::Str(r.finish_reason)
            &&& j.at("latency_ms"@) == JsonView::Unsigned(r.latency_ms)
            &&& r.usage.input_tokens matches Some(n) ==> j.at("usage"@).at("input_tokens"@)
                == JsonView::Unsigned(n)
            &&& r.usage.output_tokens matches Some(n) ==> j.at("usage"@).at("output_tokens"@)
                == JsonView::Unsigned(n)
            &&& r.usage.total_tokens matches Some(n) ==> j.at("usage"@).at("total_tokens"@)
                == JsonView::Unsigned(n)
        }),
{
    reveal_with_fuel(field_from, 8);
    reveal_strlit("type");
    reveal_strlit("session_id");
    reveal_strlit("provider");
    reveal_strlit("model");
    reveal_strlit("finish_reason");
    reveal_strlit("latency_ms");
    reveal_strlit("usage");
    reveal_strlit("input_tokens");
    reveal_strlit("output_tokens");
    reveal_strlit("total_tokens");
    assert("type"@.len() == 4 && "session_id"@.len() == 10 && "provider"@.len() == 8
        && "model"@.len() == 5 && "finish_reason"@.len() == 13 && "latency_ms"@.len() == 10
        && "usage"@.len() == 5 && "input_tokens"@.len() == 12 && "output_tokens"@.len() == 13
        && "total_tokens"@.len() == 12);
    assert("session_id"@[0] == 's' && "latency_ms"@[0] == 'l' && "model"@[0] == 'm' && "usage"@[0]
        == 'u' && "input_tokens"@[0] == 'i' && "total_tokens"@[0] == 't');
}

/// A raw reply cannot be streamed, and a new session cannot be a named one; else options go
/// together.
pub proof fn law_options_go_together(args: AskArgs)
    ensures
        option_clash(args) is Some <==> (args.stream && args.raw_provider_response) || (
        args.new_session && args.session is Some),
        option_clash(args) matches Some(e) ==> e.code == EXIT_ARGS,
{
}

/// Where only the latest question has the status, it is saved without it; all else is saved as it
/// was said.
pub proof fn law_turn_is_kept(mode: ContextStatusMode, prompt: Seq<char>, v: Seq<MessageView>, i: int)
    requires
        0 <= i < v.len(),
    ensures
        kept_turn(mode, prompt, v).len() == v.len(),
        i > 0 ==> kept_turn(mode, prompt, v)[i] == v[i],
        mode != ContextStatusMode::Latest ==> kept_turn(mode, prompt, v) == v,
        mode == ContextStatusMode::Latest && v[0].role == "user"@ ==> kept_turn(
            mode,
            prompt,
            v,
        )[0].content == prompt && kept_turn(mode, prompt, v)[0].images == v[0].images,
        mode == ContextStatusMode::Latest && v[0].role != "user"@ ==> kept_turn(mode, prompt, v)
            == v,
{
}

/// A question is asked with tools unless they are switched off, and else streamed where that is
/// asked for.
pub proof fn law_route_of_question(stream: bool, d: Option<bool>)
    ensures
        ask_route(true, stream, d) == AskRoute::Tools,
        d != Some(false) ==> ask_route(false, stream, d) == AskRoute::Tools,
        ask_route(false, true, Some(false)) == AskRoute::Stream,
        ask_route(false, false, Some(false)) == AskRoute::Plain,
{
}

} // verus!
