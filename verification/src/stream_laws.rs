//! What is kept of an answer while it comes, on the screen and in the file of a session.

use crate::ansi::{ESC, columns, plain_prefix, truncated_plain, wrap_state, wrapped};
use crate::composer::{concat_all, row_columns};
use crate::json::{JsonView, field_from, printed_json};
use crate::markdown_laws::{lemma_tag_found, ordinary};
use crate::render::{code_line, fence, fence_label, fence_lang, single_line, table_text};
use crate::session::{StoredAudit, StoredEvent, StoredMessage, StoredResponse};
use crate::session_log::{appended, event_json, log_text};
use crate::stream::{
    LineView, StreamView, advance, answer_lines, at_tag, feed, finish_thinking_line,
    fresh_stream, line_flush, line_step, partial_tag, pushed, think_lines,
};
use crate::text::{
    contains_text, join, lemma_split_by_len, only, split_on, split_once_spec, trimmed,
};
use crate::text_laws::law_split_pieces_join;
use vstd::prelude::*;

verus! {

proof fn lemma_event_fields()
    ensures
        "type"@.len() == 4,
        "type"@[0] == 't',
        "session_id"@.len() == 10,
        "session_id"@[0] == 's',
        "created_at"@.len() == 10,
        "created_at"@[0] == 'c',
        "role"@.len() == 4,
        "role"@[0] == 'r',
        "content"@.len() == 7,
        "images"@.len() == 6,
        "tool_calls"@.len() == 10,
        "tool_calls"@[0] == 't',
        "tool_call_id"@.len() == 12,
        "name"@.len() == 4,
        "name"@[0] == 'n',
        "provider"@.len() == 8,
        "provider"@[0] == 'p',
        "model"@.len() == 5,
        "model"@[0] == 'm',
        "finish_reason"@.len() == 13,
        "latency_ms"@.len() == 10,
        "latency_ms"@[0] == 'l',
        "usage"@.len() == 5,
        "usage"@[0] == 'u',
        "tool_name"@.len() == 9,
        "verdict"@.len() == 7,
        "summary"@.len() == 7,
        "summary"@[0] == 's',
        "verdict"@[0] == 'v',
        "findings"@.len() == 8,
        "findings"@[0] == 'f',
        "recommendations"@.len() == 15,
{
    reveal_strlit("type");
    reveal_strlit("session_id");
    reveal_strlit("created_at");
    reveal_strlit("role");
    reveal_strlit("content");
    reveal_strlit("images");
    reveal_strlit("tool_calls");
    reveal_strlit("tool_call_id");
    reveal_strlit("name");
    reveal_strlit("provider");
    reveal_strlit("model");
    reveal_strlit("finish_reason");
    reveal_strlit("latency_ms");
    reveal_strlit("usage");
    reveal_strlit("tool_name");
    reveal_strlit("verdict");
    reveal_strlit("summary");
    reveal_strlit("findings");
    reveal_strlit("recommendations");
}

/// A message is stored under the names of its parts.
pub proof fn law_message_is_stored(m: StoredMessage)
    ensures
        ({
            let j = event_json(StoredEvent::Message(m));
            &&& j.at("type"@) == JsonView::Str("message"@)
            &&& j.at("role"@) == JsonView::Str(m.role)
            &&& j.at("content"@) == JsonView::Str(m.content)
            &&& j.at("tool_calls"@) == JsonView::Array(m.tool_calls)
            &&& m.tool_call_id matches Some(i) ==> j.at("tool_call_id"@) == JsonView::Str(i)
            &&& m.name matches Some(n) ==> j.at("name"@) == JsonView::Str(n)
            &&& j.at("created_at"@) == JsonView::Str(m.created_at)
            &&& j.at("images"@).elements().len() == m.images.len()
        }),
{
    lemma_event_fields();
    reveal_with_fuel(field_from, 9);
}

/// The opening of a session, a reply and a verdict are stored under the names of their parts.
#[verifier::rlimit(30)]
pub proof fn law_other_events_are_stored(
    id: Seq<char>,
    now: Seq<char>,
    r: StoredResponse,
    a: StoredAudit,
)
    ensures
        event_json(StoredEvent::Meta(id, now)).at("type"@) == JsonView::Str("meta"@),
        event_json(StoredEvent::Meta(id, now)).at("session_id"@) == JsonView::Str(id),
        event_json(StoredEvent::Meta(id, now)).at("created_at"@) == JsonView::Str(now),
        event_json(StoredEvent::Response(r)).at("type"@) == JsonView::Str("response"@),
        event_json(StoredEvent::Response(r)).at("provider"@) == JsonView::Str(r.provider),
        event_json(StoredEvent::Response(r)).at("model"@) == JsonView::Str(r.model),
        event_json(StoredEvent::Response(r)).at("finish_reason"@) == JsonView::Str(r.finish_reason),
        event_json(StoredEvent::Response(r)).at("latency_ms"@) == JsonView::Unsigned(r.latency_ms),
        event_json(StoredEvent::Response(r)).at("created_at"@) == JsonView::Str(r.created_at),
        event_json(StoredEvent::Audit(a)).at("type"@) == JsonView::Str("audit"@),
        event_json(StoredEvent::Audit(a)).at("verdict"@) == JsonView::Str(a.verdict),
        event_json(StoredEvent::Audit(a)).at("summary"@) == JsonView::Str(a.summary),
        event_json(StoredEvent::Audit(a)).at("provider"@) == JsonView::Str(a.provider),
        event_json(StoredEvent::Audit(a)).at("model"@) == JsonView::Str(a.model),
{
    lemma_event_fields();
    reveal_with_fuel(field_from, 9);
}

/// A new file starts with the name of its session, and what is appended stands behind it, in order.
pub proof fn law_events_are_appended(
    id: Seq<char>,
    v: Seq<StoredEvent>,
    e: StoredEvent,
    now: Seq<char>,
)
    ensures
        appended(id, true, v, now)[0] == StoredEvent::Meta(id, now),
        appended(id, true, v, now).skip(1) == v,
        appended(id, false, v, now) == v,
        log_text(v.push(e)) == log_text(v) + printed_json(event_json(e)) + seq!['\n'],
{
    reveal_strlit("\n");
    assert("\n"@ =~= seq!['\n']);
    assert(appended(id, true, v, now).skip(1) =~= v);
    assert(v.push(e).drop_last() =~= v);
}

/// Streamed lines are shown as those of a whole answer are: code as code, in its language, and the
/// lines of a table together, once it ends.
pub proof fn law_streamed_lines_are_shown(st: LineView, line: Seq<char>)
    ensures
        fence(line) && !st.in_code ==> line_step(st, line).0.in_code && line_step(st, line).0.lang
            == fence_lang(line) && line_step(st, line).1 == fence_label(fence_lang(line)),
        fence(line) && st.in_code ==> !line_step(st, line).0.in_code && line_step(
            st,
            line,
        ).1.len() == 0,
        !fence(line) && st.in_code ==> line_step(st, line) == (st, code_line(line, st.lang)),
        !fence(line) && !st.in_code && line.contains('|') ==> line_step(st, line).1.len() == 0
            && line_step(st, line).0.table == st.table.push(line),
        ordinary(line) && !st.in_code && st.in_table ==> line_step(st, line).1 == table_text(
            st.table,
        ) + single_line(line) + seq!['\n'],
        ordinary(line) && !st.in_code && !st.in_table ==> line_step(st, line) == (
            st,
            single_line(line) + seq!['\n'],
        ),
        st.in_table ==> line_flush(st).1 == table_text(st.table),
{
    reveal_strlit("\n");
    assert("\n"@ =~= seq!['\n']);
    let none = Seq::<char>::empty();
    let shown = single_line(line) + seq!['\n'];
    assert(none + shown =~= shown);
    assert(table_text(st.table) + shown =~= table_text(st.table) + single_line(line) + seq!['\n']);
}

spec fn ended_lines(v: Seq<Seq<char>>) -> Seq<char>
    decreases v.len(),
{
    if v.len() == 0 {
        Seq::empty()
    } else {
        ended_lines(v.drop_last()) + v.last() + seq!['\n']
    }
}

proof fn lemma_ended_lines(v: Seq<Seq<char>>, last: Seq<char>)
    ensures
        join(v.push(last), seq!['\n']) == ended_lines(v) + last,
    decreases v.len(),
{
    let w = v.push(last);
    assert(w.drop_last() =~= v);
    if v.len() == 0 {
        assert(ended_lines(v) + last =~= last);
    } else {
        lemma_ended_lines(v.drop_last(), v.last());
        assert(v.drop_last().push(v.last()) =~= v);
    }
}

proof fn lemma_thought(st: StreamView, v: Seq<Seq<char>>)
    ensures
        think_lines(st, v).0.thought == st.thought + ended_lines(v),
        think_lines(st, v).0.buffer == st.buffer,
        think_lines(st, v).0.in_thinking == st.in_thinking,
        think_lines(st, v).0.tag == st.tag,
    decreases v.len(),
{
    if v.len() == 0 {
        assert(st.thought + ended_lines(v) =~= st.thought);
    } else {
        lemma_thought(st, v.drop_last());
        reveal_strlit("\n");
        assert("\n"@ =~= seq!['\n']);
        let before = ended_lines(v.drop_last());
        assert(st.thought + before + v.last() + seq!['\n'] =~= st.thought + (before + v.last()
            + seq!['\n']));
    }
}

/// What was thought is kept whole, up to the white space around it, once its block ends.
pub proof fn law_thought_is_kept(collapse: bool, t: Seq<char>)
    requires
        t.len() > 0,
        t[0] != '\n',
        !contains_text(t, "</think>"@),
    ensures
        pushed(fresh_stream(collapse), "<think>"@ + t + "</think>"@).0.finished == Some(trimmed(t)),
        !pushed(fresh_stream(collapse), "<think>"@ + t + "</think>"@).0.in_thinking,
{
    reveal_strlit("<think>");
    reveal_strlit("</think>");
    let none = Seq::<char>::empty();
    let open = "<think>"@;
    let close = "</think>"@;
    let all = open + t + close;
    let start = StreamView { tag: fresh_stream(collapse).tag + all, ..fresh_stream(collapse) };
    assert(start.tag =~= all);
    assert(!contains_text(none, open));
    lemma_tag_found(none, open, t + close);
    assert(none + open + (t + close) =~= all);
    // The opening tag: nothing stands before it.
    let fed = feed(start, none, t + close).0;
    assert(start.buffer + none =~= none);
    assert(split_on(none, '\n') =~= seq![none]);
    assert(seq![none].drop_last() =~= Seq::<Seq<char>>::empty());
    assert(fed.buffer =~= none);
    assert(fed.tag == t + close);
    assert(!fed.in_thinking);
    let opened = at_tag(fed).0;
    assert((t + close)[0] == t[0]);
    assert(opened.tag == t + close);
    assert(opened.in_thinking);
    assert(opened.thought == none);
    assert(opened.buffer =~= none);
    // The closing tag: all lines before it were thought.
    lemma_tag_found(t, close, none);
    assert(t + close + none =~= t + close);
    let pieces = split_on(t, '\n');
    lemma_split_by_len(t, only('\n'));
    law_split_pieces_join(t, '\n');
    let thinking = feed(opened, t, none).0;
    assert(opened.buffer + t =~= t);
    let rest = StreamView { buffer: pieces.last(), tag: none, ..opened };
    lemma_thought(rest, pieces.drop_last());
    lemma_ended_lines(pieces.drop_last(), pieces.last());
    assert(pieces.drop_last().push(pieces.last()) =~= pieces);
    assert(none + ended_lines(pieces.drop_last()) =~= ended_lines(pieces.drop_last()));
    assert(thinking.thought == ended_lines(pieces.drop_last()));
    assert(thinking.buffer == pieces.last());
    let finished = finish_thinking_line(thinking).0;
    assert(ended_lines(pieces.drop_last()) + none =~= ended_lines(pieces.drop_last()));
    if pieces.last().len() == 0 {
        assert(pieces.last() =~= none);
    }
    assert(finished.thought == t);
    let closed = at_tag(thinking).0;
    assert(closed.finished == Some(trimmed(t)));
    assert(!closed.in_thinking);
    assert(thinking.tag == none);
    assert(closed.tag =~= none);
    // Nothing is left to take in.
    assert(split_once_spec(none, open) is None);
    lemma_nothing_left(closed);
    assert(advance(opened).0 == advance(closed).0);
    assert(advance(start).0 == advance(opened).0);
}

proof fn lemma_nothing_left(st: StreamView)
    requires
        st.tag.len() == 0,
        !st.in_thinking,
    ensures
        advance(st).0.finished == st.finished,
        advance(st).0.in_thinking == st.in_thinking,
{
    reveal_strlit("<think>");
    let none = Seq::<char>::empty();
    assert(st.tag =~= none);
    assert(split_once_spec(st.tag, "<think>"@) is None);
    lemma_no_partial_tag("<think>"@, 6);
    assert(none.take(0) =~= none);
    assert(none.skip(0) =~= none);
    assert(st.buffer + none =~= st.buffer);
    let pieces = split_on(st.buffer, '\n');
    lemma_answer_keeps(StreamView { buffer: pieces.last(), tag: none, ..st }, pieces.drop_last());
}

proof fn lemma_no_partial_tag(tag: Seq<char>, n: int)
    requires
        0 <= n <= tag.len(),
    ensures
        partial_tag(Seq::empty(), tag, n) == 0,
    decreases n,
{
    if n > 0 {
        lemma_no_partial_tag(tag, n - 1);
    }
}

proof fn lemma_answer_keeps(st: StreamView, v: Seq<Seq<char>>)
    ensures
        answer_lines(st, v).0.finished == st.finished,
        answer_lines(st, v).0.in_thinking == st.in_thinking,
    decreases v.len(),
{
    if v.len() > 0 {
        lemma_answer_keeps(st, v.drop_last());
    }
}

/// Wrapping plain text loses nothing and adds nothing: the lines put together are the text.
pub proof fn law_wrapping_keeps_text(s: Seq<char>, width: nat)
    requires
        !s.contains(ESC),
    ensures
        concat_all(wrapped(s, width)) == s,
{
    lemma_wrap_keeps(s, width);
    let st = wrap_state(s, width);
    let v = st.done.push(st.line);
    assert(v.drop_last() =~= st.done);
}

proof fn lemma_wrap_keeps(s: Seq<char>, width: nat)
    requires
        !s.contains(ESC),
    ensures
        wrap_state(s, width).esc is None,
        wrap_state(s, width).style.len() == 0,
        concat_all(wrap_state(s, width).done) + wrap_state(s, width).line == s,
    decreases s.len(),
{
    if s.len() > 0 {
        let w = s.drop_last();
        assert forall|c: char| w.contains(c) implies s.contains(c) by {
            let k = choose|k: int| 0 <= k < w.len() && w[k] == c;
            assert(s[k] == c);
        }
        lemma_wrap_keeps(w, width);
        assert(s.contains(s.last()));
        let before = wrap_state(w, width);
        let st = wrap_state(s, width);
        let c = s.last();
        assert(s =~= w.push(c));
        if before.used > 0 && before.used + columns(c) > width {
            assert(st.done.drop_last() =~= before.done);
            assert(before.style.push(c) =~= seq![c]);
            assert(concat_all(st.done) + st.line =~= s);
        } else {
            assert(concat_all(st.done) + st.line =~= s);
        }
    } else {
        assert(concat_all(wrap_state(s, width).done) + wrap_state(s, width).line =~= s);
    }
}

/// A text that is cut is the start of the text; nothing is cut off where all of it fits.
pub proof fn law_cut_is_start(s: Seq<char>, width: nat)
    ensures
        truncated_plain(s, width).is_prefix_of(s),
        row_columns(truncated_plain(s, width)) <= width,
        row_columns(s) <= width ==> truncated_plain(s, width) == s,
{
    lemma_plain_prefix(s, width);
    let t = truncated_plain(s, width);
    assert(t =~= s.subrange(0, t.len() as int));
}

proof fn lemma_plain_prefix(s: Seq<char>, width: nat)
    ensures
        ({
            let (out, used, full) = plain_prefix(s, width);
            &&& out.len() <= s.len()
            &&& out == s.take(out.len() as int)
            &&& used == row_columns(out)
            &&& used <= width
            &&& !full ==> out == s
            &&& full ==> row_columns(s) > width
        }),
    decreases s.len(),
{
    if s.len() > 0 {
        let w = s.drop_last();
        lemma_plain_prefix(w, width);
        let (out, used, full) = plain_prefix(w, width);
        assert(w.take(out.len() as int) =~= s.take(out.len() as int));
        if !full && used + columns(s.last()) <= width {
            assert(out.push(s.last()) =~= s);
            assert(s.take(s.len() as int) =~= s);
        }
    } else {
        assert(s.take(0) =~= s);
    }
}

} // verus!
